//! The pipeline cache: pipeline records, their creation state machine and
//! the laws it keeps.

use crate::layout_cache::{
    cache_get, BindGroupLayoutCache, BindGroupLayoutDescriptor, BindGroupLayoutEntry,
    BindGroupLayoutId, LayoutCache, LayoutId, LayoutKey, PushConstantRange,
};
use vstd::prelude::*;

verus! {

/// Handle of a GPU render pipeline object owned by the device layer.
#[derive(Clone, Copy, PartialEq, Eq, Structural, Debug)]
pub struct RenderPipeline {
    pub id: u64,
}

/// Handle of a GPU compute pipeline object owned by the device layer.
#[derive(Clone, Copy, PartialEq, Eq, Structural, Debug)]
pub struct ComputePipeline {
    pub id: u64,
}

/// A created GPU pipeline, render or compute.
#[derive(Clone, Copy, PartialEq, Eq, Structural, Debug)]
pub enum Pipeline {
    RenderPipeline(RenderPipeline),
    ComputePipeline(ComputePipeline),
}

/// Identity of a shader asset.
#[derive(Clone, Copy, PartialEq, Eq, Structural, Debug)]
pub struct ShaderId {
    pub id: u64,
}

/// Identity of an asynchronous creation task started by the device layer.
#[derive(Clone, Copy, PartialEq, Eq, Structural, Debug)]
pub struct TaskId {
    pub id: u64,
}

/// Why a pipeline could not be created.
#[derive(Clone, Copy, PartialEq, Eq, Structural, Debug)]
pub enum ShaderCacheError {
    /// A shader the pipeline uses has not been loaded yet.
    ShaderNotLoaded(ShaderId),
    /// A shader import could not be resolved yet.
    ShaderImportNotYetAvailable,
    /// A shader failed semantic processing.
    ProcessShaderError,
    /// The device rejected the shader module.
    CreateShaderModule,
}

impl ShaderCacheError {
    /// Errors that go away once a missing shader or import shows up.
    pub open spec fn spec_is_retryable(&self) -> bool {
        match self {
            ShaderCacheError::ShaderNotLoaded(_) => true,
            ShaderCacheError::ShaderImportNotYetAvailable => true,
            _ => false,
        }
    }

    /// Whether the pipeline is queued again on the next processing pass.
    pub fn is_retryable(&self) -> (r: bool)
        ensures
            r == self.spec_is_retryable(),
    {
        match self {
            ShaderCacheError::ShaderNotLoaded(_) => true,
            ShaderCacheError::ShaderImportNotYetAvailable => true,
            _ => false,
        }
    }
}

/// Lifecycle of one pipeline record.
#[derive(Clone, Copy, PartialEq, Eq, Structural, Debug)]
pub enum CachedPipelineState {
    /// Waiting for its creation to start.
    Queued,
    /// Its creation runs as the given task.
    Creating(TaskId),
    /// Created and usable.
    Ready(Pipeline),
    /// Creation failed.
    Failed(ShaderCacheError),
}

impl CachedPipelineState {
    /// The created pipeline; only callable once the state is `Ready`.
    pub fn unwrap(&self) -> (r: Pipeline)
        requires
            self is Ready,
        ensures
            *self == CachedPipelineState::Ready(r),
    {
        match self {
            CachedPipelineState::Ready(p) => *p,
            _ => unreached(),
        }
    }
}


/// Identity of a render pipeline record: its index in the cache.
#[derive(Clone, Copy, PartialEq, Eq, Structural, Debug)]
pub struct CachedRenderPipelineId {
    pub id: usize,
}

/// Identity of a compute pipeline record: its index in the cache.
#[derive(Clone, Copy, PartialEq, Eq, Structural, Debug)]
pub struct CachedComputePipelineId {
    pub id: usize,
}

/// What the cache needs to know of a render pipeline request.
#[derive(Debug)]
pub struct RenderPipelineDescriptor {
    pub label: Option<String>,
    /// Bind group layouts, in group order.
    pub layout: Vec<BindGroupLayoutDescriptor>,
    pub push_constant_ranges: Vec<PushConstantRange>,
    pub vertex_shader: ShaderId,
    pub fragment_shader: Option<ShaderId>,
}

/// What the cache needs to know of a compute pipeline request.
#[derive(Debug)]
pub struct ComputePipelineDescriptor {
    pub label: Option<String>,
    /// Bind group layouts, in group order.
    pub layout: Vec<BindGroupLayoutDescriptor>,
    pub push_constant_ranges: Vec<PushConstantRange>,
    pub shader: ShaderId,
}

#[derive(Debug)]
pub enum PipelineDescriptor {
    RenderPipelineDescriptor(RenderPipelineDescriptor),
    ComputePipelineDescriptor(ComputePipelineDescriptor),
}

/// One pipeline request: its immutable descriptor and its current state.
#[derive(Debug)]
pub struct CachedPipeline {
    pub descriptor: PipelineDescriptor,
    pub state: CachedPipelineState,
}

/// What the device layer did for one pipeline during a processing pass.
#[derive(Clone, Copy, PartialEq, Eq, Structural, Debug)]
pub enum CreationOutcome {
    /// Nothing finished: the task is still running, or no work was done.
    Pending,
    /// Creation was handed to the given asynchronous task.
    Started(TaskId),
    /// Creation succeeded, synchronously or as a finished task.
    Created(Pipeline),
    /// Creation failed: the shaders could not be resolved, or the task or
    /// the synchronous creation failed.
    Failed(ShaderCacheError),
}

/// The state a pipeline moves to when processed with the given outcome.
pub open spec fn next_state(s: CachedPipelineState, o: CreationOutcome) -> CachedPipelineState {
    match s {
        CachedPipelineState::Queued => match o {
            CreationOutcome::Pending => CachedPipelineState::Queued,
            CreationOutcome::Started(t) => CachedPipelineState::Creating(t),
            CreationOutcome::Created(p) => CachedPipelineState::Ready(p),
            CreationOutcome::Failed(e) => CachedPipelineState::Failed(e),
        },
        CachedPipelineState::Creating(t) => match o {
            CreationOutcome::Created(p) => CachedPipelineState::Ready(p),
            CreationOutcome::Failed(e) => CachedPipelineState::Failed(e),
            _ => CachedPipelineState::Creating(t),
        },
        CachedPipelineState::Failed(e) => if e.spec_is_retryable() {
            CachedPipelineState::Queued
        } else {
            CachedPipelineState::Failed(e)
        },
        CachedPipelineState::Ready(p) => CachedPipelineState::Ready(p),
    }
}

/// Whether a pipeline processed from state `s` into state `n` is visited
/// again by the next processing pass.
pub open spec fn stays_waiting(s: CachedPipelineState, n: CachedPipelineState) -> bool {
    match s {
        CachedPipelineState::Queued => true,
        CachedPipelineState::Creating(_) => !(n is Ready),
        CachedPipelineState::Failed(e) => e.spec_is_retryable(),
        CachedPipelineState::Ready(_) => false,
    }
}

/// The error to report when processing a pipeline in state `s`: terminal
/// errors are reported once, as the pipeline leaves the waiting set.
pub open spec fn reported_error(s: CachedPipelineState) -> Option<ShaderCacheError> {
    match s {
        CachedPipelineState::Failed(e) => if e.spec_is_retryable() {
            None
        } else {
            Some(e)
        },
        _ => None,
    }
}

/// Work the device layer must do for a pipeline in a given state.
#[derive(Clone, Copy, PartialEq, Eq, Structural, Debug)]
pub enum PipelineAction {
    /// Resolve the shaders and start creation; see `plan_creation`.
    StartCreation,
    /// Check whether the task has finished.
    PollTask(TaskId),
    /// Nothing to do.
    Nothing,
}

pub open spec fn action_for(s: CachedPipelineState) -> PipelineAction {
    match s {
        CachedPipelineState::Queued => PipelineAction::StartCreation,
        CachedPipelineState::Creating(t) => PipelineAction::PollTask(t),
        _ => PipelineAction::Nothing,
    }
}

/// Layout objects a pipeline's creation uses. Ids at or past the number of
/// objects made so far are new and their device objects must be made.
pub struct CreationPlan {
    pub bind_group_layouts: Vec<BindGroupLayoutId>,
    /// `None` when the pipeline declares no bind groups and no push
    /// constants.
    pub layout: Option<LayoutId>,
}

/// Bind group layout lookups for each descriptor in turn: the cache after
/// them and the ids found.
pub open spec fn lookup_all(
    cache: Seq<Seq<BindGroupLayoutEntry>>,
    descs: Seq<Seq<BindGroupLayoutEntry>>,
) -> (Seq<Seq<BindGroupLayoutEntry>>, Seq<nat>)
    decreases descs.len(),
{
    if descs.len() == 0 {
        (cache, Seq::empty())
    } else {
        let prev = lookup_all(cache, descs.drop_last());
        let step = cache_get(prev.0, descs.last());
        (step.0, prev.1.push(step.1))
    }
}

pub open spec fn entries_of(descs: Seq<BindGroupLayoutDescriptor>) -> Seq<Seq<BindGroupLayoutEntry>> {
    descs.map_values(|d: BindGroupLayoutDescriptor| d.entries@)
}

pub open spec fn layout_descs(d: PipelineDescriptor) -> Seq<BindGroupLayoutDescriptor> {
    match d {
        PipelineDescriptor::RenderPipelineDescriptor(r) => r.layout@,
        PipelineDescriptor::ComputePipelineDescriptor(c) => c.layout@,
    }
}

pub open spec fn push_ranges(d: PipelineDescriptor) -> Seq<PushConstantRange> {
    match d {
        PipelineDescriptor::RenderPipelineDescriptor(r) => r.push_constant_ranges@,
        PipelineDescriptor::ComputePipelineDescriptor(c) => c.push_constant_ranges@,
    }
}

/// Render and compute pipelines: their records, lifecycle and layouts.
///
/// Newly queued pipelines wait in a pending list and join the main list
/// on the next processing pass; ids are indices into the two lists taken
/// together, so they are dense and never reused.
pub struct PipelineCache {
    layout_cache: LayoutCache,
    bindgroup_layout_cache: BindGroupLayoutCache,
    pipelines: Vec<CachedPipeline>,
    waiting_pipelines: Vec<bool>,
    new_pipelines: Vec<CachedPipeline>,
    synchronous_pipeline_compilation: bool,
}

impl PipelineCache {
    /// All records by id, processed ones first, then pending ones.
    pub closed spec fn spec_records(&self) -> Seq<CachedPipeline> {
        self.pipelines@ + self.new_pipelines@
    }

    /// Number of ids handed out so far.
    pub open spec fn spec_count(&self) -> nat {
        self.spec_records().len()
    }

    /// Number of records merged into the main list.
    pub closed spec fn spec_merged(&self) -> nat {
        self.pipelines@.len()
    }

    /// State of a pipeline; ids not known yet read as queued.
    pub open spec fn spec_state(&self, id: int) -> CachedPipelineState {
        if 0 <= id < self.spec_count() {
            self.spec_records()[id].state
        } else {
            CachedPipelineState::Queued
        }
    }

    /// Ids the next processing pass visits, besides the pending ones.
    pub closed spec fn spec_waiting(&self) -> Set<int> {
        Set::new(|i: int| 0 <= i < self.waiting_pipelines@.len() && self.waiting_pipelines@[i])
    }

    pub closed spec fn spec_sync(&self) -> bool {
        self.synchronous_pipeline_compilation
    }

    pub closed spec fn spec_layouts(&self) -> Seq<(Seq<BindGroupLayoutId>, Seq<PushConstantRange>)> {
        self.layout_cache.view()
    }

    pub closed spec fn spec_bind_group_layouts(&self) -> Seq<Seq<BindGroupLayoutEntry>> {
        self.bindgroup_layout_cache.view()
    }

    pub closed spec fn wf(&self) -> bool {
        &&& self.waiting_pipelines@.len() == self.pipelines@.len()
        &&& forall|i: int| 0 <= i < self.new_pipelines@.len() ==> self.new_pipelines@[i].state is Queued
        &&& self.layout_cache.wf()
        &&& self.bindgroup_layout_cache.wf()
    }

    pub fn new(synchronous_pipeline_compilation: bool) -> (r: Self)
        ensures
            r.wf(),
            r.spec_count() == 0,
            r.spec_merged() == 0,
            r.spec_waiting() == Set::<int>::empty(),
            r.spec_sync() == synchronous_pipeline_compilation,
            r.spec_layouts().len() == 0,
            r.spec_bind_group_layouts().len() == 0,
    {
        let r = PipelineCache {
            layout_cache: LayoutCache::new(),
            bindgroup_layout_cache: BindGroupLayoutCache::new(),
            pipelines: Vec::new(),
            waiting_pipelines: Vec::new(),
            new_pipelines: Vec::new(),
            synchronous_pipeline_compilation,
        };
        assert(r.spec_records() =~= Seq::<CachedPipeline>::empty());
        assert(r.spec_waiting() =~= Set::<int>::empty());
        r
    }

    /// Whether creation runs on the calling thread instead of as a task.
    pub fn synchronous_pipeline_compilation(&self) -> (r: bool)
        ensures
            r == self.spec_sync(),
    {
        self.synchronous_pipeline_compilation
    }

    /// Number of ids handed out so far.
    pub fn len(&self) -> (r: usize)
        requires
            self.spec_count() <= usize::MAX,
        ensures
            r == self.spec_count(),
    {
        self.pipelines.len() + self.new_pipelines.len()
    }

    /// Number of records merged by processing passes.
    pub fn merged_len(&self) -> (r: usize)
        ensures
            r == self.spec_merged(),
    {
        self.pipelines.len()
    }

    /// The waiting ids, ascending.
    pub fn waiting_pipelines(&self) -> (r: Vec<usize>)
        requires
            self.wf(),
        ensures
            forall|i: int| 0 <= i < r@.len() ==> self.spec_waiting().contains(r@[i] as int),
            forall|k: usize| self.spec_waiting().contains(k as int) ==> #[trigger] r@.contains(k),
            forall|i: int, j: int| 0 <= i < j < r@.len() ==> r@[i] < r@[j],
    {
        let mut r: Vec<usize> = Vec::new();
        let mut i: usize = 0;
        while i < self.waiting_pipelines.len()
            invariant
                i <= self.waiting_pipelines@.len(),
                forall|a: int| 0 <= a < r@.len() ==> self.spec_waiting().contains(r@[a] as int) && r@[a] < i,
                forall|k: int| 0 <= k < i && self.spec_waiting().contains(k) ==> r@.contains(k as usize),
                forall|a: int, b: int| 0 <= a < b < r@.len() ==> r@[a] < r@[b],
            decreases self.waiting_pipelines@.len() - i,
        {
            let ghost before = r@;
            if self.waiting_pipelines[i] {
                r.push(i);
                assert(r@[r@.len() - 1] == i);
            }
            proof {
                assert forall|k: int| 0 <= k < i + 1 && self.spec_waiting().contains(k) implies r@.contains(
                    k as usize,
                ) by {
                    if k < i {
                        let w = choose|w: int| 0 <= w < before.len() && before[w] == k as usize;
                        assert(r@[w] == k as usize);
                    } else {
                        assert(self.waiting_pipelines@[k]);
                        assert(r@[r@.len() - 1] == i);
                    }
                }
            }
            i = i + 1;
        }
        r
    }
}


/// `after` is `before` with one more pending record, queued with the given
/// descriptor, whose id is `id`.
pub open spec fn queued_one(before: PipelineCache, after: PipelineCache, id: nat) -> bool {
    &&& id == before.spec_count()
    &&& after.spec_count() == before.spec_count() + 1
    &&& after.spec_records().subrange(0, id as int) == before.spec_records()
    &&& after.spec_state(id as int) == CachedPipelineState::Queued
    &&& after.spec_merged() == before.spec_merged()
    &&& after.spec_waiting() == before.spec_waiting()
}

/// Every state that is `Ready` in `before` is the same in `after`.
pub open spec fn ready_kept(before: PipelineCache, after: PipelineCache) -> bool {
    forall|id: int| #[trigger] before.spec_state(id) is Ready ==> after.spec_state(id) == before.spec_state(id)
}

impl PipelineCache {
    /// Adds a render pipeline request, queued for creation, and returns its
    /// id. Equal descriptors are not merged: each call makes a new record.
    pub fn queue_render_pipeline(&mut self, descriptor: RenderPipelineDescriptor) -> (r:
        CachedRenderPipelineId)
        requires
            old(self).wf(),
            old(self).spec_count() < usize::MAX,
        ensures
            final(self).wf(),
            queued_one(*old(self), *final(self), r.id as nat),
            final(self).spec_records().last().descriptor == PipelineDescriptor::RenderPipelineDescriptor(
                descriptor,
            ),
            ready_kept(*old(self), *final(self)),
            final(self).spec_layouts() == old(self).spec_layouts(),
            final(self).spec_bind_group_layouts() == old(self).spec_bind_group_layouts(),
            final(self).spec_sync() == old(self).spec_sync(),
    {
        let id = self.pipelines.len() + self.new_pipelines.len();
        self.new_pipelines.push(
            CachedPipeline {
                descriptor: PipelineDescriptor::RenderPipelineDescriptor(descriptor),
                state: CachedPipelineState::Queued,
            },
        );
        proof {
            assert(self.spec_records().subrange(0, id as int) =~= old(self).spec_records());
            assert(self.spec_records()[id as int] == self.new_pipelines@.last());
        }
        CachedRenderPipelineId { id }
    }

    /// Adds a compute pipeline request, queued for creation, and returns its
    /// id. Equal descriptors are not merged: each call makes a new record.
    pub fn queue_compute_pipeline(&mut self, descriptor: ComputePipelineDescriptor) -> (r:
        CachedComputePipelineId)
        requires
            old(self).wf(),
            old(self).spec_count() < usize::MAX,
        ensures
            final(self).wf(),
            queued_one(*old(self), *final(self), r.id as nat),
            final(self).spec_records().last().descriptor
                == PipelineDescriptor::ComputePipelineDescriptor(descriptor),
            ready_kept(*old(self), *final(self)),
            final(self).spec_layouts() == old(self).spec_layouts(),
            final(self).spec_bind_group_layouts() == old(self).spec_bind_group_layouts(),
            final(self).spec_sync() == old(self).spec_sync(),
    {
        let id = self.pipelines.len() + self.new_pipelines.len();
        self.new_pipelines.push(
            CachedPipeline {
                descriptor: PipelineDescriptor::ComputePipelineDescriptor(descriptor),
                state: CachedPipelineState::Queued,
            },
        );
        proof {
            assert(self.spec_records().subrange(0, id as int) =~= old(self).spec_records());
            assert(self.spec_records()[id as int] == self.new_pipelines@.last());
        }
        CachedComputePipelineId { id }
    }

    fn state_of(&self, id: usize) -> (r: CachedPipelineState)
        requires
            self.wf(),
        ensures
            r == self.spec_state(id as int),
    {
        if id < self.pipelines.len() {
            self.pipelines[id].state
        } else {
            proof {
                if (id as int) < self.spec_count() {
                    assert(self.spec_records()[id as int] == self.new_pipelines@[id - self.pipelines@.len()]);
                }
            }
            CachedPipelineState::Queued
        }
    }

    /// State of a render pipeline. Ids still pending read as `Queued`.
    pub fn get_render_pipeline_state(&self, id: CachedRenderPipelineId) -> (r: CachedPipelineState)
        requires
            self.wf(),
        ensures
            r == self.spec_state(id.id as int),
    {
        self.state_of(id.id)
    }

    /// State of a compute pipeline. Ids still pending read as `Queued`.
    pub fn get_compute_pipeline_state(&self, id: CachedComputePipelineId) -> (r: CachedPipelineState)
        requires
            self.wf(),
        ensures
            r == self.spec_state(id.id as int),
    {
        self.state_of(id.id)
    }

    /// The merged pipeline records, by id.
    pub fn pipelines(&self) -> (r: &Vec<CachedPipeline>)
        ensures
            r@ == self.spec_records().subrange(0, self.spec_merged() as int),
    {
        assert(self.spec_records().subrange(0, self.spec_merged() as int) =~= self.pipelines@);
        &self.pipelines
    }

    /// The descriptor of a merged pipeline record.
    pub fn descriptor(&self, id: usize) -> (r: &PipelineDescriptor)
        requires
            id < self.spec_merged(),
        ensures
            *r == self.spec_records()[id as int].descriptor,
    {
        assert(self.spec_records()[id as int] == self.pipelines@[id as int]);
        &self.pipelines[id].descriptor
    }

    /// The descriptor a render pipeline was queued with; the record must
    /// have been merged by a processing pass.
    pub fn get_render_pipeline_descriptor(&self, id: CachedRenderPipelineId) -> (r:
        &RenderPipelineDescriptor)
        requires
            id.id < self.spec_merged(),
            self.spec_records()[id.id as int].descriptor is RenderPipelineDescriptor,
        ensures
            self.spec_records()[id.id as int].descriptor == PipelineDescriptor::RenderPipelineDescriptor(
                *r,
            ),
    {
        assert(self.spec_records()[id.id as int] == self.pipelines@[id.id as int]);
        match &self.pipelines[id.id].descriptor {
            PipelineDescriptor::RenderPipelineDescriptor(d) => d,
            PipelineDescriptor::ComputePipelineDescriptor(_) => unreached(),
        }
    }

    /// The descriptor a compute pipeline was queued with; the record must
    /// have been merged by a processing pass.
    pub fn get_compute_pipeline_descriptor(&self, id: CachedComputePipelineId) -> (r:
        &ComputePipelineDescriptor)
        requires
            id.id < self.spec_merged(),
            self.spec_records()[id.id as int].descriptor is ComputePipelineDescriptor,
        ensures
            self.spec_records()[id.id as int].descriptor
                == PipelineDescriptor::ComputePipelineDescriptor(*r),
    {
        assert(self.spec_records()[id.id as int] == self.pipelines@[id.id as int]);
        match &self.pipelines[id.id].descriptor {
            PipelineDescriptor::ComputePipelineDescriptor(d) => d,
            PipelineDescriptor::RenderPipelineDescriptor(_) => unreached(),
        }
    }

    /// The created render pipeline, if its state is `Ready`; `None` while it
    /// is queued, being created or failed.
    pub fn get_render_pipeline(&self, id: CachedRenderPipelineId) -> (r: Option<RenderPipeline>)
        requires
            self.wf(),
        ensures
            r == (match self.spec_state(id.id as int) {
                CachedPipelineState::Ready(Pipeline::RenderPipeline(p)) => Some(p),
                _ => None,
            }),
    {
        match self.state_of(id.id) {
            CachedPipelineState::Ready(Pipeline::RenderPipeline(p)) => Some(p),
            _ => None,
        }
    }

    /// The created compute pipeline, if its state is `Ready`; `None` while
    /// it is queued, being created or failed.
    pub fn get_compute_pipeline(&self, id: CachedComputePipelineId) -> (r: Option<ComputePipeline>)
        requires
            self.wf(),
        ensures
            r == (match self.spec_state(id.id as int) {
                CachedPipelineState::Ready(Pipeline::ComputePipeline(p)) => Some(p),
                _ => None,
            }),
    {
        match self.state_of(id.id) {
            CachedPipelineState::Ready(Pipeline::ComputePipeline(p)) => Some(p),
            _ => None,
        }
    }

    /// Moves the pending records into the main list and marks them waiting.
    pub fn merge_new_pipelines(&mut self)
        requires
            old(self).wf(),
        ensures
            final(self).wf(),
            final(self).spec_records() == old(self).spec_records(),
            final(self).spec_merged() == old(self).spec_count(),
            final(self).spec_waiting() == old(self).spec_waiting().union(
                Set::new(|i: int| old(self).spec_merged() <= i < old(self).spec_count()),
            ),
            final(self).spec_layouts() == old(self).spec_layouts(),
            final(self).spec_bind_group_layouts() == old(self).spec_bind_group_layouts(),
            final(self).spec_sync() == old(self).spec_sync(),
    {
        let ghost m = self.pipelines@.len();
        self.pipelines.append(&mut self.new_pipelines);
        while self.waiting_pipelines.len() < self.pipelines.len()
            invariant
                m <= self.waiting_pipelines@.len() <= self.pipelines@.len(),
                self.pipelines@ == old(self).pipelines@ + old(self).new_pipelines@,
                self.new_pipelines@.len() == 0,
                forall|k: int| 0 <= k < m ==> self.waiting_pipelines@[k] == old(self).waiting_pipelines@[k],
                forall|k: int| m <= k < self.waiting_pipelines@.len() ==> self.waiting_pipelines@[k],
                self.layout_cache == old(self).layout_cache,
                self.bindgroup_layout_cache == old(self).bindgroup_layout_cache,
                self.synchronous_pipeline_compilation == old(self).synchronous_pipeline_compilation,
                m == old(self).pipelines@.len(),
                m == old(self).waiting_pipelines@.len(),
            decreases self.pipelines@.len() - self.waiting_pipelines@.len(),
        {
            self.waiting_pipelines.push(true);
        }
        proof {
            assert(self.spec_records() =~= old(self).spec_records());
            assert(self.spec_waiting() =~= old(self).spec_waiting().union(
                Set::new(|k: int| old(self).spec_merged() <= k < old(self).spec_count()),
            ));
        }
    }
}

impl PipelineCache {
    /// Starts a processing pass: merges the pending records, then returns
    /// every waiting id, ascending, and empties the waiting set. The caller
    /// does the device work for each returned id and hands the outcome to
    /// `process_pipeline`, which marks the id waiting again where needed.
    pub fn process_queue(&mut self) -> (r: Vec<usize>)
        requires
            old(self).wf(),
        ensures
            final(self).wf(),
            final(self).spec_records() == old(self).spec_records(),
            final(self).spec_merged() == old(self).spec_count(),
            final(self).spec_waiting() == Set::<int>::empty(),
            forall|i: int| 0 <= i < r@.len() ==> (old(self).spec_waiting().contains(r@[i] as int) || old(
                self,
            ).spec_merged() <= r@[i] < old(self).spec_count()),
            forall|k: usize|
                old(self).spec_waiting().contains(k as int) || old(self).spec_merged() <= k < old(
                    self,
                ).spec_count() ==> #[trigger] r@.contains(k),
            forall|i: int, j: int| 0 <= i < j < r@.len() ==> r@[i] < r@[j],
            forall|i: int| 0 <= i < r@.len() ==> r@[i] < final(self).spec_merged(),
            ready_kept(*old(self), *final(self)),
            final(self).spec_layouts() == old(self).spec_layouts(),
            final(self).spec_bind_group_layouts() == old(self).spec_bind_group_layouts(),
            final(self).spec_sync() == old(self).spec_sync(),
    {
        self.merge_new_pipelines();
        let r = self.waiting_pipelines();
        let ghost w = self.spec_waiting();
        let mut i: usize = 0;
        while i < self.waiting_pipelines.len()
            invariant
                i <= self.waiting_pipelines@.len(),
                self.waiting_pipelines@.len() == self.pipelines@.len(),
                forall|k: int| 0 <= k < i ==> !self.waiting_pipelines@[k],
                forall|k: int| i <= k < self.waiting_pipelines@.len() ==> self.waiting_pipelines@[k] == w.contains(k),
                self.pipelines@ == old(self).spec_records(),
                self.new_pipelines@.len() == 0,
                self.layout_cache.wf(),
                self.bindgroup_layout_cache.wf(),
                self.spec_layouts() == old(self).spec_layouts(),
                self.spec_bind_group_layouts() == old(self).spec_bind_group_layouts(),
                self.synchronous_pipeline_compilation == old(self).synchronous_pipeline_compilation,
            decreases self.waiting_pipelines@.len() - i,
        {
            self.waiting_pipelines.set(i, false);
            i = i + 1;
        }
        proof {
            assert(self.spec_records() =~= old(self).spec_records());
            assert(self.spec_waiting() =~= Set::<int>::empty());
            assert forall|k: int| 0 <= k < r@.len() implies r@[k] < self.spec_merged() by {
                assert(w.contains(r@[k] as int));
            }
            assert forall|k: usize|
                old(self).spec_waiting().contains(k as int) || old(self).spec_merged() <= k < old(
                    self,
                ).spec_count() implies #[trigger] r@.contains(k) by {
                assert(w.contains(k as int));
            }
        }
        r
    }

    /// The device work a pipeline's state asks for.
    pub fn required_action(&self, id: usize) -> (r: PipelineAction)
        requires
            self.wf(),
        ensures
            r == action_for(self.spec_state(id as int)),
    {
        match self.state_of(id) {
            CachedPipelineState::Queued => PipelineAction::StartCreation,
            CachedPipelineState::Creating(t) => PipelineAction::PollTask(t),
            _ => PipelineAction::Nothing,
        }
    }

    /// Advances one merged pipeline with what the device layer did for it:
    /// `Queued` moves to `Creating`, `Ready` or `Failed` as the outcome says;
    /// `Creating` moves on once its task has finished; a retryable failure
    /// goes back to `Queued`; `Ready` and terminal failures stay. The
    /// pipeline is marked waiting again unless it is ready or has failed
    /// for good. Returns the terminal error to report, once.
    pub fn process_pipeline(&mut self, id: usize, outcome: CreationOutcome) -> (r: Option<
        ShaderCacheError,
    >)
        requires
            old(self).wf(),
            id < old(self).spec_merged(),
        ensures
            final(self).wf(),
            final(self).spec_count() == old(self).spec_count(),
            final(self).spec_merged() == old(self).spec_merged(),
            final(self).spec_state(id as int) == next_state(old(self).spec_state(id as int), outcome),
            forall|k: int| k != id ==> final(self).spec_state(k) == old(self).spec_state(k),
            forall|k: int|
                0 <= k < final(self).spec_count() ==> final(self).spec_records()[k].descriptor == old(
                    self,
                ).spec_records()[k].descriptor,
            final(self).spec_waiting() == if stays_waiting(
                old(self).spec_state(id as int),
                final(self).spec_state(id as int),
            ) {
                old(self).spec_waiting().insert(id as int)
            } else {
                old(self).spec_waiting()
            },
            r == reported_error(old(self).spec_state(id as int)),
            ready_kept(*old(self), *final(self)),
            final(self).spec_layouts() == old(self).spec_layouts(),
            final(self).spec_bind_group_layouts() == old(self).spec_bind_group_layouts(),
            final(self).spec_sync() == old(self).spec_sync(),
    {
        let old_state = self.pipelines[id].state;
        let (new_state, keep, report) = match old_state {
            CachedPipelineState::Queued => {
                let n = match outcome {
                    CreationOutcome::Pending => CachedPipelineState::Queued,
                    CreationOutcome::Started(t) => CachedPipelineState::Creating(t),
                    CreationOutcome::Created(p) => CachedPipelineState::Ready(p),
                    CreationOutcome::Failed(e) => CachedPipelineState::Failed(e),
                };
                (n, true, None)
            },
            CachedPipelineState::Creating(t) => match outcome {
                CreationOutcome::Created(p) => (CachedPipelineState::Ready(p), false, None),
                CreationOutcome::Failed(e) => (CachedPipelineState::Failed(e), true, None),
                _ => (CachedPipelineState::Creating(t), true, None),
            },
            CachedPipelineState::Failed(e) => if e.is_retryable() {
                (CachedPipelineState::Queued, true, None)
            } else {
                (CachedPipelineState::Failed(e), false, Some(e))
            },
            CachedPipelineState::Ready(p) => (CachedPipelineState::Ready(p), false, None),
        };
        self.pipelines[id].state = new_state;
        if keep {
            self.waiting_pipelines.set(id, true);
        }
        proof {
            assert(old(self).spec_records()[id as int] == old(self).pipelines@[id as int]);
            assert(self.spec_records()[id as int] == self.pipelines@[id as int]);
            assert forall|k: int| k != id implies self.spec_state(k) == old(self).spec_state(k) by {
                if 0 <= k < self.spec_count() {
                    if k < self.pipelines@.len() {
                        assert(self.spec_records()[k] == self.pipelines@[k]);
                        assert(old(self).spec_records()[k] == old(self).pipelines@[k]);
                    } else {
                        assert(self.spec_records()[k] == self.new_pipelines@[k - self.pipelines@.len()]);
                        assert(old(self).spec_records()[k] == old(self).new_pipelines@[k
                            - self.pipelines@.len()]);
                    }
                }
            }
            assert forall|k: int| 0 <= k < self.spec_count() implies self.spec_records()[k].descriptor
                == old(self).spec_records()[k].descriptor by {
                if k < self.pipelines@.len() {
                    assert(self.spec_records()[k] == self.pipelines@[k]);
                    assert(old(self).spec_records()[k] == old(self).pipelines@[k]);
                } else {
                    assert(self.spec_records()[k] == self.new_pipelines@[k - self.pipelines@.len()]);
                    assert(old(self).spec_records()[k] == old(self).new_pipelines@[k
                        - self.pipelines@.len()]);
                }
            }
            if keep {
                assert(self.spec_waiting() =~= old(self).spec_waiting().insert(id as int));
            } else {
                assert(self.spec_waiting() =~= old(self).spec_waiting());
            }
        }
        report
    }
}

pub open spec fn id_values(ids: Seq<BindGroupLayoutId>) -> Seq<nat> {
    ids.map_values(|b: BindGroupLayoutId| b.id as nat)
}

/// Whether a pipeline needs a pipeline layout: only when it declares bind
/// groups or push constants.
pub open spec fn needs_layout(d: PipelineDescriptor) -> bool {
    layout_descs(d).len() > 0 || push_ranges(d).len() > 0
}

impl PipelineCache {
    /// Resolves the layout objects for a merged pipeline's creation: one
    /// bind group layout per declared group, in order, then the pipeline
    /// layout over them and the push constant ranges. The pipeline layout
    /// is skipped when the pipeline declares neither.
    pub fn plan_creation(&mut self, id: usize) -> (r: CreationPlan)
        requires
            old(self).wf(),
            id < old(self).spec_merged(),
        ensures
            final(self).wf(),
            final(self).spec_records() == old(self).spec_records(),
            final(self).spec_merged() == old(self).spec_merged(),
            final(self).spec_waiting() == old(self).spec_waiting(),
            final(self).spec_sync() == old(self).spec_sync(),
            ready_kept(*old(self), *final(self)),
            ({
                let d = old(self).spec_records()[id as int].descriptor;
                let found = lookup_all(old(self).spec_bind_group_layouts(), entries_of(layout_descs(d)));
                &&& final(self).spec_bind_group_layouts() == found.0
                &&& id_values(r.bind_group_layouts@) == found.1
                &&& if needs_layout(d) {
                    let l = cache_get(old(self).spec_layouts(), (r.bind_group_layouts@, push_ranges(d)));
                    &&& final(self).spec_layouts() == l.0
                    &&& r.layout == Some(LayoutId { id: l.1 as usize })
                } else {
                    &&& final(self).spec_layouts() == old(self).spec_layouts()
                    &&& r.layout.is_none()
                }
            }),
    {
        assert(self.spec_records()[id as int] == self.pipelines@[id as int]);
        let ghost d = self.pipelines@[id as int].descriptor;
        let (layout, ranges) = match &self.pipelines[id].descriptor {
            PipelineDescriptor::RenderPipelineDescriptor(r) => (&r.layout, &r.push_constant_ranges),
            PipelineDescriptor::ComputePipelineDescriptor(c) => (&c.layout, &c.push_constant_ranges),
        };
        let ghost descs = entries_of(layout@);
        assert(layout@ == layout_descs(d) && ranges@ == push_ranges(d));
        let mut ids: Vec<BindGroupLayoutId> = Vec::new();
        let mut i: usize = 0;
        while i < layout.len()
            invariant
                i <= layout@.len(),
                descs == entries_of(layout@),
                self.bindgroup_layout_cache.wf(),
                self.layout_cache == old(self).layout_cache,
                self.pipelines@ == old(self).pipelines@,
                self.new_pipelines@ == old(self).new_pipelines@,
                self.waiting_pipelines@ == old(self).waiting_pipelines@,
                self.synchronous_pipeline_compilation == old(self).synchronous_pipeline_compilation,
                layout@ == layout_descs(d),
                ranges@ == push_ranges(d),
                (self.bindgroup_layout_cache.view(), id_values(ids@)) == lookup_all(
                    old(self).spec_bind_group_layouts(),
                    descs.subrange(0, i as int),
                ),
            decreases layout@.len() - i,
        {
            let (b, _) = self.bindgroup_layout_cache.get(&layout[i]);
            let ghost before = ids@;
            ids.push(b);
            proof {
                assert(descs.subrange(0, i + 1).drop_last() =~= descs.subrange(0, i as int));
                assert(descs.subrange(0, i + 1).last() == layout@[i as int].entries@);
                assert(id_values(ids@) =~= id_values(before).push(b.id as nat));
            }
            i = i + 1;
        }
        proof {
            assert(descs.subrange(0, i as int) =~= descs);
        }
        let layout_id = if layout.len() == 0 && ranges.len() == 0 {
            None
        } else {
            let key = LayoutKey { bind_group_layouts: ids.clone(), push_constant_ranges: ranges.clone() };
            assert(key.view() == (ids@, push_ranges(d)));
            let (l, _) = self.layout_cache.get(key);
            Some(l)
        };
        proof {
            assert(self.spec_records() =~= old(self).spec_records());
        }
        CreationPlan { bind_group_layouts: ids, layout: layout_id }
    }

    /// The bind group layout id for a descriptor, deduplicated by entries,
    /// and whether it is new, in which case its device object is to be made.
    pub fn get_bind_group_layout(&mut self, bind_group_layout_descriptor: &BindGroupLayoutDescriptor) -> (r: (
        BindGroupLayoutId,
        bool,
    ))
        requires
            old(self).wf(),
        ensures
            final(self).wf(),
            (final(self).spec_bind_group_layouts(), r.0.id as nat) == cache_get(
                old(self).spec_bind_group_layouts(),
                bind_group_layout_descriptor.entries@,
            ),
            r.1 == !old(self).spec_bind_group_layouts().contains(bind_group_layout_descriptor.entries@),
            final(self).spec_records() == old(self).spec_records(),
            ready_kept(*old(self), *final(self)),
            final(self).spec_merged() == old(self).spec_merged(),
            final(self).spec_waiting() == old(self).spec_waiting(),
            final(self).spec_layouts() == old(self).spec_layouts(),
            final(self).spec_sync() == old(self).spec_sync(),
    {
        let r = self.bindgroup_layout_cache.get(bind_group_layout_descriptor);
        proof {
            assert(self.spec_records() =~= old(self).spec_records());
        }
        r
    }

    /// Sends pipelines back to `Queued` and marks them waiting, as when a
    /// shader they depend on was added, changed or removed.
    pub fn requeue_pipelines(&mut self, pipelines_to_queue: &Vec<usize>)
        requires
            old(self).wf(),
            forall|i: int| 0 <= i < pipelines_to_queue@.len() ==> pipelines_to_queue@[i] < old(self).spec_merged(),
        ensures
            final(self).wf(),
            final(self).spec_count() == old(self).spec_count(),
            final(self).spec_merged() == old(self).spec_merged(),
            forall|k: int|
                #![trigger final(self).spec_state(k)]
                if listed(pipelines_to_queue@, k) {
                    final(self).spec_state(k) == CachedPipelineState::Queued
                } else {
                    final(self).spec_state(k) == old(self).spec_state(k)
                },
            final(self).spec_waiting() == old(self).spec_waiting().union(
                Set::new(|k: int| listed(pipelines_to_queue@, k)),
            ),
            final(self).spec_layouts() == old(self).spec_layouts(),
            final(self).spec_bind_group_layouts() == old(self).spec_bind_group_layouts(),
            final(self).spec_sync() == old(self).spec_sync(),
    {
        let mut i: usize = 0;
        while i < pipelines_to_queue.len()
            invariant
                i <= pipelines_to_queue@.len(),
                forall|j: int| 0 <= j < pipelines_to_queue@.len() ==> pipelines_to_queue@[j] < old(self).spec_merged(),
                self.wf(),
                self.pipelines@.len() == old(self).pipelines@.len(),
                self.new_pipelines@ == old(self).new_pipelines@,
                forall|k: int|
                    0 <= k < self.pipelines@.len() ==> if #[trigger] listed(pipelines_to_queue@.subrange(0, i as int), k) {
                        self.pipelines@[k].state == CachedPipelineState::Queued && self.waiting_pipelines@[k]
                    } else {
                        self.pipelines@[k].state == old(self).pipelines@[k].state
                            && self.waiting_pipelines@[k] == old(self).waiting_pipelines@[k]
                    },
                forall|k: int| 0 <= k < self.pipelines@.len() ==> self.pipelines@[k].descriptor == old(self).pipelines@[k].descriptor,
                self.spec_layouts() == old(self).spec_layouts(),
                self.spec_bind_group_layouts() == old(self).spec_bind_group_layouts(),
                self.synchronous_pipeline_compilation == old(self).synchronous_pipeline_compilation,
            decreases pipelines_to_queue@.len() - i,
        {
            let id = pipelines_to_queue[i];
            self.pipelines[id].state = CachedPipelineState::Queued;
            self.waiting_pipelines.set(id, true);
            proof {
                let s0 = pipelines_to_queue@.subrange(0, i as int);
                let s = pipelines_to_queue@.subrange(0, i + 1);
                assert(s =~= s0.push(id));
                assert forall|k: int| 0 <= k < self.pipelines@.len() implies #[trigger] listed(s, k) == (k == id
                    || listed(s0, k)) by {
                    if listed(s, k) {
                        let w = choose|w: int| 0 <= w < s.len() && s[w] as int == k;
                        if w < i {
                            assert(s0[w] as int == k);
                        }
                    }
                    if listed(s0, k) {
                        let w = choose|w: int| 0 <= w < s0.len() && s0[w] as int == k;
                        assert(s[w] as int == k);
                    }
                    if k == id {
                        assert(s[i as int] as int == k);
                    }
                }
            }
            i = i + 1;
        }
        proof {
            assert(pipelines_to_queue@.subrange(0, i as int) =~= pipelines_to_queue@);
            assert forall|k: int| #[trigger] listed(pipelines_to_queue@, k) implies 0 <= k < self.pipelines@.len() by {
                let w = choose|w: int| 0 <= w < pipelines_to_queue@.len() && pipelines_to_queue@[w] as int == k;
            }
            assert forall|k: int| #![trigger self.spec_state(k)]
                if listed(pipelines_to_queue@, k) {
                    self.spec_state(k) == CachedPipelineState::Queued
                } else {
                    self.spec_state(k) == old(self).spec_state(k)
                } by {
                if 0 <= k < self.pipelines@.len() {
                    assert(self.spec_records()[k] == self.pipelines@[k]);
                    assert(old(self).spec_records()[k] == old(self).pipelines@[k]);
                } else if self.pipelines@.len() <= k < self.spec_count() {
                    assert(self.spec_records()[k] == self.new_pipelines@[k - self.pipelines@.len()]);
                    assert(old(self).spec_records()[k] == old(self).new_pipelines@[k - self.pipelines@.len()]);
                }
            }
            assert forall|k: int| #[trigger] self.spec_waiting().contains(k) == (old(self).spec_waiting().contains(k)
                || listed(pipelines_to_queue@, k)) by {
                if 0 <= k < self.pipelines@.len() {
                    assert(listed(pipelines_to_queue@.subrange(0, i as int), k) == listed(pipelines_to_queue@, k));
                }
            }
            assert(self.spec_waiting() =~= old(self).spec_waiting().union(
                Set::new(|k: int| listed(pipelines_to_queue@, k)),
            ));
        }
    }
}

/// Whether `k` is one of the ids in `v`.
pub open spec fn listed(v: Seq<usize>, k: int) -> bool {
    exists|w: int| 0 <= w < v.len() && v[w] as int == k
}

impl PipelineCache {
    /// Prepares to wait for a render pipeline: merges the pending records if
    /// the id is not merged yet, and returns the work its state asks for.
    /// The caller finishes that work on the spot (runs the creation, or
    /// blocks on the task) and hands the outcome to `process_pipeline`.
    pub fn block_on_render_pipeline(&mut self, id: CachedRenderPipelineId) -> (r: PipelineAction)
        requires
            old(self).wf(),
            id.id < old(self).spec_count(),
        ensures
            final(self).wf(),
            final(self).spec_records() == old(self).spec_records(),
            id.id < final(self).spec_merged(),
            final(self).spec_merged() == if id.id < old(self).spec_merged() {
                old(self).spec_merged()
            } else {
                old(self).spec_count()
            },
            r == action_for(old(self).spec_state(id.id as int)),
            ready_kept(*old(self), *final(self)),
            final(self).spec_layouts() == old(self).spec_layouts(),
            final(self).spec_bind_group_layouts() == old(self).spec_bind_group_layouts(),
            final(self).spec_sync() == old(self).spec_sync(),
    {
        if self.pipelines.len() <= id.id {
            self.merge_new_pipelines();
        }
        self.required_action(id.id)
    }
}

/// Queueing hands out ids in issuance order: for any run of queueing calls,
/// with any other operations that keep every record in between, each id is
/// greater than all ids handed out before it, and reads as `Queued` right
/// after it is handed out.
pub proof fn lemma_queued_ids_increase(calls: Seq<(PipelineCache, PipelineCache, nat)>)
    requires
        forall|i: int| 0 <= i < calls.len() ==> #[trigger] queued_one(calls[i].0, calls[i].1, calls[i].2),
        forall|i: int| 0 <= i < calls.len() - 1 ==> #[trigger] calls[i].1.spec_count() <= calls[i + 1].0.spec_count(),
    ensures
        forall|i: int, j: int| 0 <= i < j < calls.len() ==> calls[i].2 < calls[j].2,
        forall|i: int| 0 <= i < calls.len() ==> calls[i].1.spec_state(calls[i].2 as int) == CachedPipelineState::Queued,
    decreases calls.len(),
{
    if calls.len() > 0 {
        let front = calls.drop_last();
        assert forall|i: int| 0 <= i < front.len() implies #[trigger] queued_one(front[i].0, front[i].1, front[i].2) by {
            assert(front[i] == calls[i]);
        }
        assert forall|i: int| 0 <= i < front.len() - 1 implies #[trigger] front[i].1.spec_count() <= front[i + 1].0.spec_count() by {
            assert(front[i] == calls[i] && front[i + 1] == calls[i + 1]);
        }
        lemma_queued_ids_increase(front);
        let n = calls.len() - 1;
        assert forall|i: int| 0 <= i < n implies calls[i].2 < calls[n].2 by {
            assert(front[i] == calls[i]);
            if i < n - 1 {
                assert(front[n - 1] == calls[n - 1]);
                assert(calls[i].2 < calls[n - 1].2);
            }
            assert(queued_one(calls[n - 1].0, calls[n - 1].1, calls[n - 1].2));
            assert(calls[n - 1].1.spec_count() <= calls[n].0.spec_count());
            assert(queued_one(calls[n].0, calls[n].1, calls[n].2));
        }
        assert forall|i: int, j: int| 0 <= i < j < calls.len() implies calls[i].2 < calls[j].2 by {
            if j < n {
                assert(front[i] == calls[i] && front[j] == calls[j]);
            }
        }
        assert forall|i: int| 0 <= i < calls.len() implies calls[i].1.spec_state(calls[i].2 as int)
            == CachedPipelineState::Queued by {
            assert(queued_one(calls[i].0, calls[i].1, calls[i].2));
        }
    }
}

/// Once a pipeline is `Ready`, it stays `Ready` with the same pipeline
/// object through any run of operations that keep ready states (every
/// operation of the cache but `requeue_pipelines`), so every later lookup
/// returns that object.
pub proof fn lemma_ready_is_stable(caches: Seq<PipelineCache>, id: int)
    requires
        caches.len() > 0,
        forall|i: int| 0 <= i < caches.len() - 1 ==> #[trigger] ready_kept(caches[i], caches[i + 1]),
        caches[0].spec_state(id) is Ready,
    ensures
        forall|i: int| 0 <= i < caches.len() ==> #[trigger] caches[i].spec_state(id) == caches[0].spec_state(id),
    decreases caches.len(),
{
    if caches.len() > 1 {
        let front = caches.drop_last();
        assert forall|i: int| 0 <= i < front.len() - 1 implies #[trigger] ready_kept(front[i], front[i + 1]) by {
            assert(front[i] == caches[i] && front[i + 1] == caches[i + 1]);
        }
        lemma_ready_is_stable(front, id);
        let n = caches.len() - 1;
        assert(front[n - 1] == caches[n - 1]);
        assert(caches[n - 1].spec_state(id) == caches[0].spec_state(id));
        let m = n - 1;
        assert(ready_kept(caches[m], caches[m + 1]));
        assert(m + 1 == n);
        assert forall|i: int| 0 <= i < caches.len() implies #[trigger] caches[i].spec_state(id) == caches[0].spec_state(id) by {
            if i < n {
                assert(front[i] == caches[i]);
            }
        }
    }
}

/// A retryable failure costs one processing pass: the next pass puts the
/// pipeline back in the queue and keeps it waiting, whatever the device
/// reported, and the pass after that creates it when creation succeeds on
/// the spot.
pub proof fn lemma_retryable_failure_recovers(e: ShaderCacheError, first: CreationOutcome, p: Pipeline)
    requires
        e.spec_is_retryable(),
    ensures
        next_state(CachedPipelineState::Failed(e), first) == CachedPipelineState::Queued,
        stays_waiting(CachedPipelineState::Failed(e), CachedPipelineState::Queued),
        reported_error(CachedPipelineState::Failed(e)) is None,
        next_state(CachedPipelineState::Queued, CreationOutcome::Created(p)) == CachedPipelineState::Ready(p),
{
}

} // verus!
