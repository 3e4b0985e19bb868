use render_core::draw::{
    draw_outcome, run_commands, DrawError, DrawFunctionId, DrawFunctionsInternal, RenderCommandResult,
    ViewLookup,
};

#[test]
fn registry_hands_out_dense_ids() {
    let mut registry: DrawFunctionsInternal<&'static str> = DrawFunctionsInternal::new();
    let a = registry.add_with(10, "draw mesh");
    let b = registry.add_with(20, "draw sprite");
    assert_eq!(a, DrawFunctionId { id: 0 });
    assert_eq!(b, DrawFunctionId { id: 1 });
    assert_eq!(registry.len(), 2);
    assert_eq!(registry.get(b), Some(&"draw sprite"));
    assert_eq!(registry.get(DrawFunctionId { id: 2 }), None);
    assert_eq!(registry.get_id(10), Some(a));
    assert_eq!(registry.id(20), b);
    assert_eq!(registry.get_id(30), None);
}

#[test]
fn registering_a_key_again_points_it_at_the_new_function() {
    let mut registry: DrawFunctionsInternal<u8> = DrawFunctionsInternal::new();
    registry.add_with(1, 5);
    let second = registry.add_with(1, 6);
    assert_eq!(registry.get_id(1), Some(second));
    assert_eq!(registry.get(second), Some(&6));
    assert_eq!(registry.get(DrawFunctionId { id: 0 }), Some(&5));
}

#[test]
fn draw_function_can_be_updated_in_place() {
    let mut registry: DrawFunctionsInternal<Vec<u32>> = DrawFunctionsInternal::new();
    let id = registry.add_with(4, Vec::new());
    registry.get_mut(id).push(3);
    assert_eq!(registry.get(id), Some(&vec![3]));
    assert_eq!(registry.get_id(4), Some(id));
}

#[test]
fn unregistered_key_has_no_id() {
    let registry: DrawFunctionsInternal<u8> = DrawFunctionsInternal::new();
    assert_eq!(registry.get_id(3), None);
}

#[test]
fn commands_stop_at_first_skip_or_failure() {
    let ok = RenderCommandResult::Success;
    let skip = RenderCommandResult::Skip;
    let fail = RenderCommandResult::Failure("bind group");
    assert_eq!(run_commands(&vec![ok, ok]), (ok, 2));
    assert_eq!(run_commands(&vec![ok, skip, fail]), (skip, 2));
    assert_eq!(run_commands(&vec![fail, ok]), (fail, 1));
    assert_eq!(run_commands(&Vec::new()), (ok, 0));
}

#[test]
fn draw_outcomes_tell_errors_apart() {
    assert_eq!(draw_outcome(ViewLookup::NotSpawned, RenderCommandResult::Success), Err(DrawError::ViewEntityNotFound));
    assert_eq!(draw_outcome(ViewLookup::QueryDoesNotMatch, RenderCommandResult::Success), Err(DrawError::InvalidViewQuery));
    assert_eq!(
        draw_outcome(ViewLookup::Found, RenderCommandResult::Failure("mesh missing")),
        Err(DrawError::RenderCommandFailure("mesh missing"))
    );
    assert_eq!(draw_outcome(ViewLookup::Found, RenderCommandResult::Skip), Ok(()));
    assert_eq!(draw_outcome(ViewLookup::Found, RenderCommandResult::Success), Ok(()));
}
