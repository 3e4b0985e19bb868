use render_core::layout_cache::{BindGroupLayoutDescriptor, BindGroupLayoutEntry, PushConstantRange};
use render_core::pipeline_cache::{
    CachedComputePipelineId, CachedPipelineState, CachedRenderPipelineId, ComputePipeline,
    ComputePipelineDescriptor, CreationOutcome, Pipeline, PipelineAction, PipelineCache,
    RenderPipeline, RenderPipelineDescriptor, ShaderCacheError, ShaderId, TaskId,
};

fn render_descriptor(layouts: usize, push_constants: bool) -> RenderPipelineDescriptor {
    let mut layout = Vec::new();
    for i in 0..layouts {
        layout.push(BindGroupLayoutDescriptor {
            label: Some(format!("group {i}")),
            entries: vec![BindGroupLayoutEntry { binding: i as u32, visibility: 1, ty: 2, count: 0 }],
        });
    }
    RenderPipelineDescriptor {
        label: None,
        layout,
        push_constant_ranges: if push_constants {
            vec![PushConstantRange { stages: 1, start: 0, end: 16 }]
        } else {
            Vec::new()
        },
        vertex_shader: ShaderId { id: 1 },
        fragment_shader: Some(ShaderId { id: 2 }),
    }
}

fn compute_descriptor() -> ComputePipelineDescriptor {
    ComputePipelineDescriptor {
        label: Some("compute".to_string()),
        layout: Vec::new(),
        push_constant_ranges: Vec::new(),
        shader: ShaderId { id: 9 },
    }
}

fn run_pass(cache: &mut PipelineCache, outcome: CreationOutcome) -> Vec<usize> {
    let ids = cache.process_queue();
    for &id in &ids {
        cache.process_pipeline(id, outcome);
    }
    ids
}

#[test]
fn queued_ids_are_dense_and_increasing() {
    let mut cache = PipelineCache::new(false);
    let a = cache.queue_render_pipeline(render_descriptor(0, false));
    let b = cache.queue_compute_pipeline(compute_descriptor());
    let c = cache.queue_render_pipeline(render_descriptor(0, false));
    assert_eq!(a, CachedRenderPipelineId { id: 0 });
    assert_eq!(b, CachedComputePipelineId { id: 1 });
    assert_eq!(c, CachedRenderPipelineId { id: 2 });
    assert_eq!(cache.len(), 3);
    run_pass(&mut cache, CreationOutcome::Pending);
    let d = cache.queue_render_pipeline(render_descriptor(0, false));
    assert_eq!(d.id, 3);
}

#[test]
fn pending_and_unknown_ids_read_as_queued() {
    let mut cache = PipelineCache::new(false);
    let a = cache.queue_render_pipeline(render_descriptor(0, false));
    assert_eq!(cache.get_render_pipeline_state(a), CachedPipelineState::Queued);
    assert_eq!(cache.merged_len(), 0);
    assert_eq!(cache.get_render_pipeline_state(CachedRenderPipelineId { id: 77 }), CachedPipelineState::Queued);
    assert_eq!(cache.get_render_pipeline(a), None);
}

#[test]
fn equal_descriptors_are_not_deduplicated() {
    let mut cache = PipelineCache::new(false);
    let a = cache.queue_render_pipeline(render_descriptor(1, false));
    let b = cache.queue_render_pipeline(render_descriptor(1, false));
    assert_ne!(a, b);
}

#[test]
fn async_creation_walks_queued_creating_ready() {
    let mut cache = PipelineCache::new(false);
    let id = cache.queue_render_pipeline(render_descriptor(1, true));
    let ids = cache.process_queue();
    assert_eq!(ids, vec![0]);
    assert_eq!(cache.required_action(0), PipelineAction::StartCreation);
    let plan = cache.plan_creation(0);
    assert_eq!(plan.bind_group_layouts.len(), 1);
    assert!(plan.layout.is_some());
    cache.process_pipeline(0, CreationOutcome::Started(TaskId { id: 5 }));
    assert_eq!(cache.get_render_pipeline_state(id), CachedPipelineState::Creating(TaskId { id: 5 }));
    assert_eq!(cache.waiting_pipelines(), vec![0]);
    let ids = run_pass(&mut cache, CreationOutcome::Pending);
    assert_eq!(ids, vec![0]);
    assert_eq!(cache.required_action(0), PipelineAction::PollTask(TaskId { id: 5 }));
    let p = Pipeline::RenderPipeline(RenderPipeline { id: 40 });
    run_pass(&mut cache, CreationOutcome::Created(p));
    assert_eq!(cache.get_render_pipeline_state(id), CachedPipelineState::Ready(p));
    assert_eq!(cache.get_render_pipeline(id), Some(RenderPipeline { id: 40 }));
    assert!(cache.waiting_pipelines().is_empty());
    assert_eq!(cache.get_render_pipeline_state(id).unwrap(), p);
}

#[test]
fn ready_pipeline_lookup_is_stable() {
    let mut cache = PipelineCache::new(true);
    let id = cache.queue_render_pipeline(render_descriptor(0, false));
    let p = Pipeline::RenderPipeline(RenderPipeline { id: 3 });
    run_pass(&mut cache, CreationOutcome::Created(p));
    let first = cache.get_render_pipeline(id);
    assert_eq!(first, Some(RenderPipeline { id: 3 }));
    cache.queue_render_pipeline(render_descriptor(0, false));
    run_pass(&mut cache, CreationOutcome::Pending);
    run_pass(&mut cache, CreationOutcome::Failed(ShaderCacheError::CreateShaderModule));
    assert_eq!(cache.get_render_pipeline(id), first);
    assert_eq!(cache.get_render_pipeline(id), first);
}

#[test]
fn missing_shader_is_retried_until_ready() {
    let mut cache = PipelineCache::new(true);
    let id = cache.queue_render_pipeline(render_descriptor(0, false));
    let not_loaded = ShaderCacheError::ShaderNotLoaded(ShaderId { id: 2 });
    run_pass(&mut cache, CreationOutcome::Failed(not_loaded));
    assert_eq!(cache.get_render_pipeline_state(id), CachedPipelineState::Failed(not_loaded));
    // The shader arrives; the failure is retryable, so the next pass requeues.
    let ids = cache.process_queue();
    assert_eq!(ids, vec![0]);
    assert_eq!(cache.process_pipeline(0, CreationOutcome::Pending), None);
    assert_eq!(cache.get_render_pipeline_state(id), CachedPipelineState::Queued);
    // With synchronous compilation the second pass creates it.
    let p = Pipeline::RenderPipeline(RenderPipeline { id: 11 });
    run_pass(&mut cache, CreationOutcome::Created(p));
    assert_eq!(cache.get_render_pipeline_state(id), CachedPipelineState::Ready(p));
}

#[test]
fn terminal_error_is_reported_once_and_kept() {
    let mut cache = PipelineCache::new(false);
    let id = cache.queue_compute_pipeline(compute_descriptor());
    run_pass(&mut cache, CreationOutcome::Started(TaskId { id: 1 }));
    run_pass(&mut cache, CreationOutcome::Failed(ShaderCacheError::ProcessShaderError));
    assert_eq!(cache.get_compute_pipeline_state(id), CachedPipelineState::Failed(ShaderCacheError::ProcessShaderError));
    let ids = cache.process_queue();
    assert_eq!(ids, vec![0]);
    assert_eq!(cache.process_pipeline(0, CreationOutcome::Pending), Some(ShaderCacheError::ProcessShaderError));
    assert!(cache.process_queue().is_empty());
    assert_eq!(cache.get_compute_pipeline(id), None);
    assert_eq!(cache.get_compute_pipeline_state(id), CachedPipelineState::Failed(ShaderCacheError::ProcessShaderError));
}

#[test]
fn import_not_yet_available_is_retryable() {
    assert!(ShaderCacheError::ShaderImportNotYetAvailable.is_retryable());
    assert!(ShaderCacheError::ShaderNotLoaded(ShaderId { id: 0 }).is_retryable());
    assert!(!ShaderCacheError::ProcessShaderError.is_retryable());
    assert!(!ShaderCacheError::CreateShaderModule.is_retryable());
}

#[test]
fn compute_pipeline_ready() {
    let mut cache = PipelineCache::new(true);
    let id = cache.queue_compute_pipeline(compute_descriptor());
    let p = Pipeline::ComputePipeline(ComputePipeline { id: 8 });
    run_pass(&mut cache, CreationOutcome::Created(p));
    assert_eq!(cache.get_compute_pipeline(id), Some(ComputePipeline { id: 8 }));
    assert_eq!(cache.get_compute_pipeline_descriptor(id).shader, ShaderId { id: 9 });
}

#[test]
fn descriptor_is_kept() {
    let mut cache = PipelineCache::new(false);
    let id = cache.queue_render_pipeline(render_descriptor(2, false));
    cache.process_queue();
    assert_eq!(cache.pipelines().len(), 1);
    assert_eq!(cache.pipelines()[0].state, CachedPipelineState::Queued);
    let d = cache.get_render_pipeline_descriptor(id);
    assert_eq!(d.layout.len(), 2);
    assert_eq!(d.fragment_shader, Some(ShaderId { id: 2 }));
}

#[test]
fn trivial_pipeline_needs_no_layout() {
    let mut cache = PipelineCache::new(false);
    cache.queue_render_pipeline(render_descriptor(0, false));
    cache.process_queue();
    let plan = cache.plan_creation(0);
    assert!(plan.bind_group_layouts.is_empty());
    assert_eq!(plan.layout, None);
}

#[test]
fn push_constants_alone_need_a_layout() {
    let mut cache = PipelineCache::new(false);
    cache.queue_render_pipeline(render_descriptor(0, true));
    cache.queue_render_pipeline(render_descriptor(0, true));
    cache.process_queue();
    let a = cache.plan_creation(0);
    let b = cache.plan_creation(1);
    assert!(a.layout.is_some());
    assert_eq!(a.layout, b.layout);
}

#[test]
fn shared_layouts_are_reused_across_pipelines() {
    let mut cache = PipelineCache::new(false);
    cache.queue_render_pipeline(render_descriptor(2, false));
    cache.queue_render_pipeline(render_descriptor(2, false));
    cache.queue_render_pipeline(render_descriptor(1, false));
    cache.process_queue();
    let a = cache.plan_creation(0);
    let b = cache.plan_creation(1);
    let c = cache.plan_creation(2);
    assert_eq!(a.bind_group_layouts, b.bind_group_layouts);
    assert_eq!(a.layout, b.layout);
    assert_eq!(c.bind_group_layouts[0], a.bind_group_layouts[0]);
    assert_ne!(c.layout, a.layout);
}

#[test]
fn shader_change_requeues_dependents() {
    let mut cache = PipelineCache::new(true);
    let a = cache.queue_render_pipeline(render_descriptor(0, false));
    let b = cache.queue_render_pipeline(render_descriptor(0, false));
    run_pass(&mut cache, CreationOutcome::Created(Pipeline::RenderPipeline(RenderPipeline { id: 1 })));
    run_pass(&mut cache, CreationOutcome::Pending);
    assert!(cache.waiting_pipelines().is_empty());
    cache.requeue_pipelines(&vec![1]);
    assert_eq!(cache.get_render_pipeline_state(b), CachedPipelineState::Queued);
    assert_eq!(cache.get_render_pipeline_state(a), CachedPipelineState::Ready(Pipeline::RenderPipeline(RenderPipeline { id: 1 })));
    assert_eq!(cache.waiting_pipelines(), vec![1]);
}

#[test]
fn block_on_merges_and_reports_task() {
    let mut cache = PipelineCache::new(false);
    let id = cache.queue_render_pipeline(render_descriptor(0, false));
    assert_eq!(cache.block_on_render_pipeline(id), PipelineAction::StartCreation);
    assert_eq!(cache.merged_len(), 1);
    cache.process_pipeline(0, CreationOutcome::Started(TaskId { id: 4 }));
    assert_eq!(cache.block_on_render_pipeline(id), PipelineAction::PollTask(TaskId { id: 4 }));
    cache.process_pipeline(0, CreationOutcome::Created(Pipeline::RenderPipeline(RenderPipeline { id: 2 })));
    assert_eq!(cache.block_on_render_pipeline(id), PipelineAction::Nothing);
}

#[test]
fn get_bind_group_layout_deduplicates() {
    let mut cache = PipelineCache::new(false);
    let entries = vec![BindGroupLayoutEntry { binding: 0, visibility: 3, ty: 1, count: 0 }];
    let a = cache.get_bind_group_layout(&BindGroupLayoutDescriptor { label: Some("a".into()), entries: entries.clone() });
    let b = cache.get_bind_group_layout(&BindGroupLayoutDescriptor { label: None, entries });
    assert!(a.1);
    assert!(!b.1);
    assert_eq!(a.0, b.0);
}
