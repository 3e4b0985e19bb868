//! The stage order of a render frame.

use vstd::prelude::*;

verus! {

/// The stages of a render frame.
#[derive(Clone, Copy, PartialEq, Eq, Structural, Debug)]
pub enum RenderSystems {
    /// Applies the commands recorded during extraction.
    ExtractCommands,
    /// Prepares assets created, changed or removed this frame.
    PrepareAssets,
    /// Prepares extracted meshes.
    PrepareMeshes,
    /// Creates further views, such as shadow views.
    ManageViews,
    /// Queues drawable entities as phase items.
    Queue,
    /// Within `Queue`: queues mesh entities.
    QueueMeshes,
    /// Within `Queue`: removes items that became invisible or moved phase.
    QueueSweep,
    /// Sorts sorted phases and orders bins.
    PhaseSort,
    /// Prepares GPU resources in the sorted order.
    Prepare,
    /// Within `Prepare`: buffers, textures and uniforms.
    PrepareResources,
    /// Within `Prepare`: collects phase buffers.
    PrepareResourcesCollectPhaseBuffers,
    /// Within `Prepare`: flushes buffers.
    PrepareResourcesFlush,
    /// Within `Prepare`: bind groups.
    PrepareBindGroups,
    /// Records and submits the passes.
    Render,
    /// Cleans up render resources.
    Cleanup,
    /// Despawns temporary render entities.
    PostCleanup,
}

pub open spec fn main_chain() -> Seq<RenderSystems> {
    seq![
        RenderSystems::ExtractCommands,
        RenderSystems::PrepareMeshes,
        RenderSystems::ManageViews,
        RenderSystems::Queue,
        RenderSystems::PhaseSort,
        RenderSystems::Prepare,
        RenderSystems::Render,
        RenderSystems::Cleanup,
        RenderSystems::PostCleanup,
    ]
}

pub open spec fn asset_chain() -> Seq<RenderSystems> {
    seq![
        RenderSystems::ExtractCommands,
        RenderSystems::PrepareAssets,
        RenderSystems::PrepareMeshes,
        RenderSystems::Prepare,
    ]
}

pub open spec fn queue_chain() -> Seq<RenderSystems> {
    seq![RenderSystems::QueueMeshes, RenderSystems::QueueSweep]
}

pub open spec fn prepare_chain() -> Seq<RenderSystems> {
    seq![
        RenderSystems::PrepareResources,
        RenderSystems::PrepareResourcesCollectPhaseBuffers,
        RenderSystems::PrepareResourcesFlush,
        RenderSystems::PrepareBindGroups,
    ]
}

/// The stage chains of a render frame, each run in order: the main chain,
/// the asset chain, the chain inside `Queue` and the chain inside
/// `Prepare`.
pub struct BaseSchedule {
    pub main: Vec<RenderSystems>,
    pub assets: Vec<RenderSystems>,
    pub queue: Vec<RenderSystems>,
    pub prepare: Vec<RenderSystems>,
}

/// The main render schedule.
pub struct Render;

impl Render {
    /// The stage order of a render frame.
    pub fn base_schedule() -> (r: BaseSchedule)
        ensures
            r.main@ == main_chain(),
            r.assets@ == asset_chain(),
            r.queue@ == queue_chain(),
            r.prepare@ == prepare_chain(),
    {
        let main = vec![
            RenderSystems::ExtractCommands,
            RenderSystems::PrepareMeshes,
            RenderSystems::ManageViews,
            RenderSystems::Queue,
            RenderSystems::PhaseSort,
            RenderSystems::Prepare,
            RenderSystems::Render,
            RenderSystems::Cleanup,
            RenderSystems::PostCleanup,
        ];
        let assets = vec![
            RenderSystems::ExtractCommands,
            RenderSystems::PrepareAssets,
            RenderSystems::PrepareMeshes,
            RenderSystems::Prepare,
        ];
        let queue = vec![RenderSystems::QueueMeshes, RenderSystems::QueueSweep];
        let prepare = vec![
            RenderSystems::PrepareResources,
            RenderSystems::PrepareResourcesCollectPhaseBuffers,
            RenderSystems::PrepareResourcesFlush,
            RenderSystems::PrepareBindGroups,
        ];
        assert(main@ =~= main_chain());
        assert(assets@ =~= asset_chain());
        assert(queue@ =~= queue_chain());
        assert(prepare@ =~= prepare_chain());
        BaseSchedule { main, assets, queue, prepare }
    }
}

} // verus!
