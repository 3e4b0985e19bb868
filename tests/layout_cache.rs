use render_core::layout_cache::{
    BindGroupLayoutCache, BindGroupLayoutDescriptor, BindGroupLayoutEntry, BindGroupLayoutId,
    LayoutCache, LayoutId, LayoutKey, PushConstantRange,
};

fn entry(binding: u32) -> BindGroupLayoutEntry {
    BindGroupLayoutEntry { binding, visibility: 1, ty: 0, count: 0 }
}

#[test]
fn bind_group_layouts_dedup_ignoring_labels() {
    let mut cache = BindGroupLayoutCache::new();
    let a = cache.get(&BindGroupLayoutDescriptor { label: Some("first".into()), entries: vec![entry(0), entry(1)] });
    let b = cache.get(&BindGroupLayoutDescriptor { label: Some("second".into()), entries: vec![entry(0), entry(1)] });
    let c = cache.get(&BindGroupLayoutDescriptor { label: None, entries: vec![entry(1), entry(0)] });
    assert_eq!(a, (BindGroupLayoutId { id: 0 }, true));
    assert_eq!(b, (BindGroupLayoutId { id: 0 }, false));
    assert_eq!(c, (BindGroupLayoutId { id: 1 }, true));
    assert_eq!(cache.len(), 2);
}

#[test]
fn empty_bind_group_layout_is_cached() {
    let mut cache = BindGroupLayoutCache::new();
    let a = cache.get(&BindGroupLayoutDescriptor { label: None, entries: Vec::new() });
    let b = cache.get(&BindGroupLayoutDescriptor { label: None, entries: Vec::new() });
    assert_eq!(a.0, b.0);
    assert_eq!(cache.len(), 1);
}

#[test]
fn layouts_dedup_by_groups_and_ranges() {
    let mut cache = LayoutCache::new();
    let key = |ids: Vec<usize>, end: u32| LayoutKey {
        bind_group_layouts: ids.into_iter().map(|id| BindGroupLayoutId { id }).collect(),
        push_constant_ranges: vec![PushConstantRange { stages: 2, start: 0, end }],
    };
    assert_eq!(cache.get(key(vec![0, 1], 8)), (LayoutId { id: 0 }, true));
    assert_eq!(cache.get(key(vec![0, 1], 8)), (LayoutId { id: 0 }, false));
    assert_eq!(cache.get(key(vec![0, 1], 16)), (LayoutId { id: 1 }, true));
    assert_eq!(cache.get(key(vec![1, 0], 8)), (LayoutId { id: 2 }, true));
    assert_eq!(cache.len(), 3);
}
