use render_core::camera::NormalizedRenderTarget;
use render_core::draw::DrawFunctionId;
use render_core::passes::{
    main_opaque_pass_2d, main_transparent_pass_2d, prepare_core_2d_depth_textures, DepthView, Phase2d,
};
use render_core::phase::{
    AssetId, BatchRange, BatchSetKey2d, BinKey2d, BinnedRenderPhase, Entity, MainEntity,
    PhaseItemExtraIndex, SortedRenderPhase, Transparent2d,
};
use render_core::pipeline_cache::CachedRenderPipelineId;

fn filled_binned() -> BinnedRenderPhase {
    let mut p = BinnedRenderPhase::new();
    let key = BinKey2d {
        pipeline: CachedRenderPipelineId { id: 0 },
        draw_function: DrawFunctionId { id: 0 },
        asset_id: AssetId { id: 0 },
        material_bind_group_id: None,
    };
    p.add(BatchSetKey2d { indexed: true }, key, Entity { bits: 1 }, MainEntity { bits: 1 }, BatchRange { start: 0, end: 1 });
    p
}

#[test]
fn opaque_pass_plans() {
    let empty = BinnedRenderPhase::new();
    let full = filled_binned();
    let r = main_opaque_pass_2d(Some(&empty), Some(&empty));
    assert!(!r.begin_pass && r.phases.is_empty());
    let r = main_opaque_pass_2d(Some(&full), None);
    assert!(!r.begin_pass && r.phases.is_empty());
    let r = main_opaque_pass_2d(Some(&empty), Some(&full));
    assert!(r.begin_pass);
    assert_eq!(r.phases, vec![Phase2d::AlphaMask]);
    let r = main_opaque_pass_2d(Some(&full), Some(&full));
    assert_eq!(r.phases, vec![Phase2d::Opaque, Phase2d::AlphaMask]);
}

#[test]
fn transparent_pass_plans() {
    let mut phase = SortedRenderPhase::new();
    let r = main_transparent_pass_2d(None);
    assert!(!r.begin_pass);
    let r = main_transparent_pass_2d(Some(&phase));
    assert!(r.begin_pass && r.phases.is_empty());
    phase.add(Transparent2d {
        sort_key: 0,
        entity: Entity { bits: 1 },
        main_entity: MainEntity { bits: 1 },
        pipeline: CachedRenderPipelineId { id: 0 },
        draw_function: DrawFunctionId { id: 0 },
        batch_range: BatchRange { start: 0, end: 1 },
        extracted_index: 0,
        extra_index: PhaseItemExtraIndex::Unused,
        indexed: false,
    });
    let r = main_transparent_pass_2d(Some(&phase));
    assert_eq!(r.phases, vec![Phase2d::Transparent]);
}

#[test]
fn depth_textures_shared_per_target() {
    let w = Some(NormalizedRenderTarget::Window(1));
    let other = Some(NormalizedRenderTarget::Window(2));
    let v = |has_phases: bool, target, size: Option<(u32, u32)>| DepthView {
        has_phases,
        target,
        physical_target_size: size,
        msaa_samples: 4,
    };
    let views = vec![
        v(false, w, Some((8, 8))),
        v(true, w, None),
        v(true, w, Some((8, 8))),
        v(true, other, Some((4, 4))),
        v(true, w, Some((8, 8))),
    ];
    assert_eq!(prepare_core_2d_depth_textures(&views), vec![None, None, Some(2), Some(3), Some(2)]);
}
