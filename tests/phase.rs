use render_core::draw::DrawFunctionId;
use render_core::phase::{
    float_sort_key, AlphaMask2d, AssetId, BatchRange, BatchSetKey2d, BinKey2d, BindGroupId,
    BinnedRenderPhase, Entity, MainEntity, Opaque2d, PhaseItemExtraIndex, SortedRenderPhase,
    Transparent2d,
};
use render_core::pipeline_cache::CachedRenderPipelineId;

fn transparent(depth: f32, entity: u64, range: (u32, u32)) -> Transparent2d {
    Transparent2d {
        sort_key: float_sort_key(depth.to_bits()),
        entity: Entity { bits: entity },
        main_entity: MainEntity { bits: entity + 100 },
        pipeline: CachedRenderPipelineId { id: 1 },
        draw_function: DrawFunctionId { id: 0 },
        batch_range: BatchRange { start: range.0, end: range.1 },
        extracted_index: entity as usize,
        extra_index: PhaseItemExtraIndex::Unused,
        indexed: true,
    }
}

fn bin_key(pipeline: usize, asset: u64, bind_group: Option<u32>) -> BinKey2d {
    BinKey2d {
        pipeline: CachedRenderPipelineId { id: pipeline },
        draw_function: DrawFunctionId { id: 0 },
        asset_id: AssetId { id: asset },
        material_bind_group_id: bind_group.map(|id| BindGroupId { id }),
    }
}

fn range(start: u32, end: u32) -> BatchRange {
    BatchRange { start, end }
}

#[test]
fn sorted_phase_sorts_ascending() {
    let mut phase = SortedRenderPhase::new();
    phase.add(transparent(3.0, 1, (0, 1)));
    phase.add(transparent(1.0, 2, (1, 2)));
    phase.add(transparent(2.0, 3, (2, 3)));
    phase.sort();
    let order: Vec<u64> = phase.items.iter().map(|t| t.entity.bits).collect();
    assert_eq!(order, vec![2, 3, 1]);
    let before = phase.items.clone();
    phase.sort();
    assert_eq!(phase.items, before);
}

#[test]
fn sort_is_stable_for_equal_keys() {
    let mut phase = SortedRenderPhase::new();
    phase.add(transparent(5.0, 1, (0, 1)));
    phase.add(transparent(-1.0, 2, (0, 1)));
    phase.add(transparent(5.0, 3, (0, 1)));
    phase.add(transparent(-1.0, 4, (0, 1)));
    phase.sort();
    let order: Vec<u64> = phase.items.iter().map(|t| t.entity.bits).collect();
    assert_eq!(order, vec![2, 4, 1, 3]);
}

#[test]
fn float_keys_order_negatives_and_zero() {
    let values = [-3.5f32, -0.0, 0.0, 1.0e-30, 2.0, f32::INFINITY];
    for pair in values.windows(2) {
        assert!(float_sort_key(pair[0].to_bits()) < float_sort_key(pair[1].to_bits()));
    }
    assert_eq!(float_sort_key(1.0f32.to_bits()), 0xBF80_0000);
    assert_eq!(float_sort_key((-1.0f32).to_bits()), 0x407F_FFFF);
    assert!(float_sort_key(f32::NEG_INFINITY.to_bits()) < float_sort_key(f32::MIN.to_bits()));
}

#[test]
fn empty_sorted_phase() {
    let mut phase = SortedRenderPhase::new();
    assert!(phase.is_empty());
    phase.sort();
    assert!(phase.is_empty());
    phase.add(transparent(1.0, 1, (0, 1)));
    assert!(!phase.is_empty());
    phase.clear();
    assert!(phase.is_empty());
}

#[test]
fn sorted_merge_joins_matching_neighbours() {
    let mut phase = SortedRenderPhase::new();
    phase.add(transparent(1.0, 1, (0, 1)));
    phase.add(transparent(2.0, 2, (1, 2)));
    phase.add(transparent(3.0, 3, (2, 3)));
    phase.add(transparent(4.0, 4, (3, 4)));
    phase.merge_batches(&vec![Some(7), Some(7), Some(8), None]);
    let got: Vec<(u64, u32, u32)> =
        phase.items.iter().map(|t| (t.entity.bits, t.batch_range.start, t.batch_range.end)).collect();
    assert_eq!(got, vec![(1, 0, 2), (3, 2, 3), (4, 3, 4)]);
}

#[test]
fn sorted_merge_needs_contiguous_ranges() {
    let mut phase = SortedRenderPhase::new();
    phase.add(transparent(1.0, 1, (0, 1)));
    phase.add(transparent(2.0, 2, (5, 6)));
    phase.merge_batches(&vec![Some(1), Some(1)]);
    assert_eq!(phase.items.len(), 2);
}

#[test]
fn binned_items_with_same_key_collapse() {
    let mut phase = BinnedRenderPhase::new();
    let set = BatchSetKey2d { indexed: true };
    let key = bin_key(1, 10, Some(2));
    phase.add(set, key, Entity { bits: 1 }, MainEntity { bits: 11 }, range(0, 1));
    phase.add(set, key, Entity { bits: 2 }, MainEntity { bits: 12 }, range(1, 2));
    assert_eq!(phase.bin_count(), 1);
    let batches = phase.batches();
    assert_eq!(batches.len(), 1);
    assert_eq!(batches[0].batch_range, range(0, 2));
    assert_eq!(batches[0].representative_entity, Entity { bits: 1 });
    assert_eq!(batches[0].main_entity, MainEntity { bits: 11 });
}

#[test]
fn one_draw_per_bin() {
    let mut phase = BinnedRenderPhase::new();
    let set = BatchSetKey2d { indexed: false };
    for i in 0..6u32 {
        let key = bin_key(1, (i % 3) as u64, None);
        let start = (i % 3) * 10 + i / 3;
        phase.add(set, key, Entity { bits: i as u64 }, MainEntity { bits: i as u64 }, range(start, start + 1));
    }
    assert_eq!(phase.bin_count(), 3);
    assert_eq!(phase.batches().len(), 3);
}

#[test]
fn bins_ordered_by_batch_set_then_key() {
    let mut phase = BinnedRenderPhase::new();
    let e = Entity { bits: 0 };
    let m = MainEntity { bits: 0 };
    phase.add(BatchSetKey2d { indexed: true }, bin_key(0, 0, None), e, m, range(0, 1));
    phase.add(BatchSetKey2d { indexed: false }, bin_key(2, 0, None), e, m, range(1, 2));
    phase.add(BatchSetKey2d { indexed: false }, bin_key(1, 5, Some(1)), e, m, range(2, 3));
    phase.add(BatchSetKey2d { indexed: false }, bin_key(1, 5, None), e, m, range(3, 4));
    let got: Vec<(bool, usize, Option<u32>)> = phase
        .batches()
        .iter()
        .map(|b| (b.batch_set_key.indexed, b.bin_key.pipeline.id, b.bin_key.material_bind_group_id.map(|g| g.id)))
        .collect();
    assert_eq!(got, vec![(false, 1, None), (false, 1, Some(1)), (false, 2, None), (true, 0, None)]);
}

#[test]
fn gap_in_ranges_splits_a_bin() {
    let mut phase = BinnedRenderPhase::new();
    let set = BatchSetKey2d { indexed: true };
    let key = bin_key(0, 0, None);
    phase.add(set, key, Entity { bits: 1 }, MainEntity { bits: 1 }, range(0, 1));
    phase.add(set, key, Entity { bits: 2 }, MainEntity { bits: 2 }, range(4, 5));
    let batches = phase.batches();
    assert_eq!(batches.len(), 2);
    assert_eq!(batches[1].batch_range, range(4, 5));
}

#[test]
fn binned_phase_clear() {
    let mut phase = BinnedRenderPhase::new();
    assert!(phase.is_empty());
    phase.add(BatchSetKey2d { indexed: true }, bin_key(0, 0, None), Entity { bits: 1 }, MainEntity { bits: 1 }, range(0, 1));
    assert!(!phase.is_empty());
    phase.clear();
    assert!(phase.is_empty());
    assert!(phase.batches().is_empty());
}

#[test]
fn items_from_batches() {
    let mut phase = BinnedRenderPhase::new();
    let key = bin_key(4, 9, Some(3));
    phase.add(BatchSetKey2d { indexed: true }, key, Entity { bits: 5 }, MainEntity { bits: 6 }, range(2, 3));
    let batch = phase.batches()[0];
    let opaque = Opaque2d::from_batch(&batch);
    assert_eq!(opaque.entity(), Entity { bits: 5 });
    assert_eq!(opaque.main_entity(), MainEntity { bits: 6 });
    assert_eq!(opaque.cached_pipeline(), CachedRenderPipelineId { id: 4 });
    assert_eq!(opaque.draw_function(), DrawFunctionId { id: 0 });
    assert_eq!(opaque.batch_range(), range(2, 3));
    assert_eq!(opaque.extra_index(), PhaseItemExtraIndex::Unused);
    let mask = AlphaMask2d::new(
        BatchSetKey2d { indexed: false },
        key,
        (Entity { bits: 1 }, MainEntity { bits: 2 }),
        range(0, 4),
        PhaseItemExtraIndex::DynamicOffset(256),
    );
    assert_eq!(mask.extra_index(), PhaseItemExtraIndex::DynamicOffset(256));
    assert_eq!(mask.cached_pipeline().id, 4);
    assert!(!mask.batch_set_key.indexed());
}

#[test]
fn transparent_accessors() {
    let t = transparent(2.5, 7, (3, 9));
    assert_eq!(t.entity(), Entity { bits: 7 });
    assert_eq!(t.main_entity(), MainEntity { bits: 107 });
    assert_eq!(t.sort_key(), float_sort_key(2.5f32.to_bits()));
    assert_eq!(t.batch_range(), range(3, 9));
    assert!(t.indexed());
    assert_eq!(t.cached_pipeline().id, 1);
    assert_eq!(t.draw_function().id, 0);
    assert_eq!(t.extra_index(), PhaseItemExtraIndex::Unused);
}
