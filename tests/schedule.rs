use render_core::schedule::{Render, RenderSystems};

#[test]
fn stages_run_extract_to_cleanup() {
    let s = Render::base_schedule();
    assert_eq!(s.main.first(), Some(&RenderSystems::ExtractCommands));
    assert_eq!(s.main.last(), Some(&RenderSystems::PostCleanup));
    let pos = |stage: RenderSystems| s.main.iter().position(|x| *x == stage).unwrap();
    assert!(pos(RenderSystems::Queue) < pos(RenderSystems::PhaseSort));
    assert!(pos(RenderSystems::PhaseSort) < pos(RenderSystems::Prepare));
    assert!(pos(RenderSystems::Prepare) < pos(RenderSystems::Render));
    assert_eq!(s.queue, vec![RenderSystems::QueueMeshes, RenderSystems::QueueSweep]);
    assert_eq!(s.prepare.len(), 4);
    assert_eq!(s.assets[1], RenderSystems::PrepareAssets);
}
