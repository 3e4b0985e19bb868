use render_core::phase::{
    AssetId, BatchRange, BatchSetKey2d, BinKey2d, Entity, MainEntity, PhaseItemExtraIndex, Transparent2d,
};
use render_core::draw::DrawFunctionId;
use render_core::pipeline_cache::CachedRenderPipelineId;
use render_core::view_phases::{
    extract_core_2d_camera_phases, RetainedViewEntity, ViewBinnedRenderPhases, ViewSortedRenderPhases,
};

fn view(bits: u64) -> RetainedViewEntity {
    RetainedViewEntity::new(MainEntity { bits }, None, 0)
}

fn item() -> Transparent2d {
    Transparent2d {
        sort_key: 0,
        entity: Entity { bits: 1 },
        main_entity: MainEntity { bits: 1 },
        pipeline: CachedRenderPipelineId { id: 0 },
        draw_function: DrawFunctionId { id: 0 },
        batch_range: BatchRange { start: 0, end: 1 },
        extracted_index: 0,
        extra_index: PhaseItemExtraIndex::Unused,
        indexed: false,
    }
}

#[test]
fn despawned_view_is_removed_next_frame() {
    let mut transparent = ViewSortedRenderPhases::new();
    let mut opaque = ViewBinnedRenderPhases::new();
    let mut alpha = ViewBinnedRenderPhases::new();
    let a = MainEntity { bits: 1 };
    let b = MainEntity { bits: 2 };
    extract_core_2d_camera_phases(&mut transparent, &mut opaque, &mut alpha, &vec![(a, true), (b, true)]);
    assert_eq!(transparent.len(), 2);
    assert_eq!(opaque.len(), 2);
    assert_eq!(alpha.len(), 2);
    extract_core_2d_camera_phases(&mut transparent, &mut opaque, &mut alpha, &vec![(a, true)]);
    for phases in [&opaque, &alpha] {
        assert_eq!(phases.len(), 1);
        assert!(phases.contains_key(&view(1)));
        assert!(!phases.contains_key(&view(2)));
    }
    assert_eq!(transparent.len(), 1);
    assert!(transparent.contains_key(&view(1)));
}

#[test]
fn inactive_camera_has_no_phases() {
    let mut transparent = ViewSortedRenderPhases::new();
    let mut opaque = ViewBinnedRenderPhases::new();
    let mut alpha = ViewBinnedRenderPhases::new();
    let cams = vec![(MainEntity { bits: 1 }, false), (MainEntity { bits: 2 }, true)];
    extract_core_2d_camera_phases(&mut transparent, &mut opaque, &mut alpha, &cams);
    assert!(!transparent.contains_key(&view(1)));
    assert!(transparent.contains_key(&view(2)));
    assert_eq!(transparent.len(), 1);
}

#[test]
fn live_view_phase_is_cleared_each_frame() {
    let mut transparent = ViewSortedRenderPhases::new();
    let mut opaque = ViewBinnedRenderPhases::new();
    let mut alpha = ViewBinnedRenderPhases::new();
    let cams = vec![(MainEntity { bits: 4 }, true)];
    transparent.insert_or_clear(view(4));
    let i = transparent.position(&view(4)).unwrap();
    transparent.phase_mut(i).add(item());
    assert!(!transparent.get(&view(4)).unwrap().is_empty());
    opaque.insert_or_clear(view(4));
    extract_core_2d_camera_phases(&mut transparent, &mut opaque, &mut alpha, &cams);
    assert!(transparent.get(&view(4)).unwrap().is_empty());
    assert!(opaque.get(&view(4)).unwrap().is_empty());
    assert!(alpha.get(&view(4)).unwrap().is_empty());
}

#[test]
fn insert_or_clear_empties_existing_phase() {
    let mut opaque = ViewBinnedRenderPhases::new();
    opaque.insert_or_clear(view(1));
    assert_eq!(opaque.position(&view(1)), Some(0));
    assert_eq!(opaque.len(), 1);
    let key = BinKey2d {
        pipeline: CachedRenderPipelineId { id: 0 },
        draw_function: DrawFunctionId { id: 0 },
        asset_id: AssetId { id: 0 },
        material_bind_group_id: None,
    };
    opaque.phase_mut(0).add(BatchSetKey2d { indexed: true }, key, Entity { bits: 1 }, MainEntity { bits: 1 }, BatchRange { start: 0, end: 1 });
    assert!(!opaque.get(&view(1)).unwrap().is_empty());
    opaque.insert_or_clear(view(1));
    assert!(opaque.get(&view(1)).unwrap().is_empty());
    assert!(opaque.get(&view(9)).is_none());
}

#[test]
fn retain_live_keeps_listed_views() {
    let mut opaque = ViewBinnedRenderPhases::new();
    opaque.insert_or_clear(view(1));
    opaque.insert_or_clear(view(2));
    opaque.insert_or_clear(view(3));
    opaque.retain_live(&vec![view(3), view(1)]);
    assert_eq!(opaque.len(), 2);
    assert_eq!(opaque.position(&view(1)), Some(0));
    assert_eq!(opaque.position(&view(3)), Some(1));
    opaque.retain_live(&Vec::new());
    assert_eq!(opaque.len(), 0);
}
