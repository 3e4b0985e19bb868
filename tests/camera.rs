use render_core::camera::{sort_cameras, NormalizedRenderTarget, SortedCamera};
use render_core::passes::{camera_extraction, no_indirect_drawing, CameraExtraction};
use render_core::phase::Entity;

fn cam(entity: u64, order: i64, target: Option<NormalizedRenderTarget>, hdr: bool) -> SortedCamera {
    SortedCamera { entity: Entity { bits: entity }, order, target, hdr }
}

#[test]
fn cameras_sort_by_order_then_target() {
    let w1 = Some(NormalizedRenderTarget::Window(1));
    let img = Some(NormalizedRenderTarget::Image { handle: 3, scale_factor: 0 });
    let cams = vec![cam(1, 2, w1, false), cam(2, 0, img, false), cam(3, 0, w1, false), cam(4, -1, None, false)];
    let r = sort_cameras(&cams);
    let order: Vec<u64> = r.sorted.0.iter().map(|c| c.entity.bits).collect();
    assert_eq!(order, vec![4, 3, 2, 1]);
    assert_eq!(r.index_for_target, vec![None, Some(0), Some(0), Some(1)]);
    assert!(r.ambiguities.is_empty());
}

#[test]
fn equal_order_and_target_is_ambiguous_and_stable() {
    let w = Some(NormalizedRenderTarget::Window(7));
    let cams = vec![cam(1, 0, w, false), cam(2, 0, w, true), cam(3, 0, w, false)];
    let r = sort_cameras(&cams);
    let order: Vec<u64> = r.sorted.0.iter().map(|c| c.entity.bits).collect();
    assert_eq!(order, vec![1, 2, 3]);
    assert_eq!(r.ambiguities, vec![1, 2]);
    assert_eq!(r.index_for_target, vec![Some(0), Some(0), Some(1)]);
}

#[test]
fn headless_and_texture_targets_order_last() {
    let cams = vec![
        cam(1, 0, Some(NormalizedRenderTarget::Headless { width: 4, height: 4 }), false),
        cam(2, 0, Some(NormalizedRenderTarget::TextureView(9)), false),
        cam(3, 0, Some(NormalizedRenderTarget::Window(100)), false),
    ];
    let r = sort_cameras(&cams);
    let order: Vec<u64> = r.sorted.0.iter().map(|c| c.entity.bits).collect();
    assert_eq!(order, vec![3, 2, 1]);
}

#[test]
fn no_cameras() {
    let r = sort_cameras(&Vec::new());
    assert!(r.sorted.0.is_empty());
    assert!(r.index_for_target.is_empty());
}

#[test]
fn camera_extraction_decisions() {
    assert_eq!(camera_extraction(false, true, (10, 10)), CameraExtraction::Remove);
    assert_eq!(camera_extraction(true, false, (10, 10)), CameraExtraction::Unchanged);
    assert_eq!(camera_extraction(true, true, (0, 10)), CameraExtraction::Remove);
    assert_eq!(camera_extraction(true, true, (10, 0)), CameraExtraction::Remove);
    assert_eq!(camera_extraction(true, true, (640, 480)), CameraExtraction::Extract);
    assert!(no_indirect_drawing(true, true));
    assert!(no_indirect_drawing(false, false));
    assert!(!no_indirect_drawing(false, true));
}

#[test]
fn target_change_detection() {
    let windows = vec![1u64, 2];
    let images = vec![9u64];
    assert!(NormalizedRenderTarget::Window(2).is_changed(&windows, &images));
    assert!(!NormalizedRenderTarget::Window(3).is_changed(&windows, &images));
    assert!(NormalizedRenderTarget::Image { handle: 9, scale_factor: 0 }.is_changed(&windows, &images));
    assert!(!NormalizedRenderTarget::Image { handle: 1, scale_factor: 0 }.is_changed(&windows, &images));
    assert!(NormalizedRenderTarget::TextureView(0).is_changed(&Vec::new(), &Vec::new()));
    assert!(!NormalizedRenderTarget::Headless { width: 1, height: 1 }.is_changed(&windows, &images));
}
