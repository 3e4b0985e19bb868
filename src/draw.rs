//! Draw functions: their registry, and how command results become draw
//! outcomes.

use vstd::prelude::*;

verus! {

/// Stable handle of a registered draw function: its index in the registry.
#[derive(Clone, Copy, PartialEq, Eq, Structural, Debug)]
pub struct DrawFunctionId {
    pub id: u32,
}

/// Why one phase item could not be drawn. Such a failure is reported and
/// the rest of the phase is drawn.
#[derive(Clone, Copy, PartialEq, Eq, Debug)]
pub enum DrawError {
    /// A render command of the draw function failed, for the given reason.
    RenderCommandFailure(&'static str),
    /// The view exists but does not have the data the draw function needs:
    /// the function is misconfigured.
    InvalidViewQuery,
    /// The view is gone, as when it was despawned during the frame.
    ViewEntityNotFound,
}

/// What one render command reports.
#[derive(Clone, Copy, PartialEq, Eq, Debug)]
pub enum RenderCommandResult {
    Success,
    /// Nothing to draw for this item; not an error.
    Skip,
    Failure(&'static str),
}

/// Outcome of looking up the view's data before running a draw function's
/// commands.
#[derive(Clone, Copy, PartialEq, Eq, Structural, Debug)]
pub enum ViewLookup {
    Found,
    /// No such entity.
    NotSpawned,
    /// The entity lacks some of the data, or the query asks for the same
    /// data mutably twice.
    QueryDoesNotMatch,
}

pub open spec fn spec_first_non_success(results: Seq<RenderCommandResult>) -> RenderCommandResult
    decreases results.len(),
{
    if results.len() == 0 {
        RenderCommandResult::Success
    } else {
        match results[0] {
            RenderCommandResult::Success => spec_first_non_success(results.drop_first()),
            other => other,
        }
    }
}

/// The result of a sequence of render commands run in order, which stops at
/// the first that does not succeed: that command's result, or `Success`
/// when all succeed. Returns the result and how many commands ran.
pub fn run_commands(results: &Vec<RenderCommandResult>) -> (r: (RenderCommandResult, usize))
    ensures
        r.0 == spec_first_non_success(results@),
        r.1 <= results@.len(),
        forall|j: int| 0 <= j < r.1 - 1 ==> results@[j] == RenderCommandResult::Success,
        r.0 == RenderCommandResult::Success ==> r.1 == results@.len(),
        r.0 != RenderCommandResult::Success ==> r.1 > 0 && results@[r.1 - 1] == r.0,
{
    let mut i: usize = 0;
    assert(results@.subrange(0, results@.len() as int) =~= results@);
    while i < results.len()
        invariant
            i <= results@.len(),
            forall|j: int| 0 <= j < i ==> results@[j] == RenderCommandResult::Success,
            spec_first_non_success(results@) == spec_first_non_success(results@.subrange(i as int, results@.len() as int)),
        decreases results@.len() - i,
    {
        let ghost rest = results@.subrange(i as int, results@.len() as int);
        match results[i] {
            RenderCommandResult::Success => {
                proof {
                    assert(rest.drop_first() =~= results@.subrange(i + 1, results@.len() as int));
                }
                i = i + 1;
            },
            other => {
                assert(rest[0] == other);
                return (other, i + 1);
            },
        }
    }
    assert(results@.subrange(i as int, results@.len() as int).len() == 0);
    (RenderCommandResult::Success, i)
}

pub open spec fn spec_draw_outcome(view: ViewLookup, result: RenderCommandResult) -> Result<(), DrawError> {
    match view {
        ViewLookup::NotSpawned => Err(DrawError::ViewEntityNotFound),
        ViewLookup::QueryDoesNotMatch => Err(DrawError::InvalidViewQuery),
        ViewLookup::Found => match result {
            RenderCommandResult::Failure(reason) => Err(DrawError::RenderCommandFailure(reason)),
            _ => Ok(()),
        },
    }
}

/// The outcome of drawing one item: a missing view and a view lacking the
/// needed data are told apart; when the view was found, a failed command
/// is an error and a skipped item is not.
pub fn draw_outcome(view: ViewLookup, result: RenderCommandResult) -> (r: Result<(), DrawError>)
    ensures
        r == spec_draw_outcome(view, result),
{
    match view {
        ViewLookup::NotSpawned => Err(DrawError::ViewEntityNotFound),
        ViewLookup::QueryDoesNotMatch => Err(DrawError::InvalidViewQuery),
        ViewLookup::Found => match result {
            RenderCommandResult::Failure(reason) => Err(DrawError::RenderCommandFailure(reason)),
            _ => Ok(()),
        },
    }
}

/// The registry's key map: later registrations under a key win.
pub open spec fn index_map(s: Seq<(u64, DrawFunctionId)>) -> Map<u64, DrawFunctionId>
    decreases s.len(),
{
    if s.len() == 0 {
        Map::empty()
    } else {
        index_map(s.drop_last()).insert(s.last().0, s.last().1)
    }
}

/// The draw functions of one phase, by id, and the ids registered under
/// caller-chosen keys.
pub struct DrawFunctionsInternal<D> {
    draw_functions: Vec<D>,
    indices: Vec<(u64, DrawFunctionId)>,
}

impl<D> DrawFunctionsInternal<D> {
    /// The draw functions; a function's id is its index.
    pub closed spec fn spec_functions(&self) -> Seq<D> {
        self.draw_functions@
    }

    /// The id registered under each key.
    pub closed spec fn spec_indices(&self) -> Map<u64, DrawFunctionId> {
        index_map(self.indices@)
    }

    pub fn new() -> (r: Self)
        ensures
            r.spec_functions().len() == 0,
            r.spec_indices() == Map::<u64, DrawFunctionId>::empty(),
    {
        DrawFunctionsInternal { draw_functions: Vec::new(), indices: Vec::new() }
    }

    pub fn len(&self) -> (r: usize)
        ensures
            r == self.spec_functions().len(),
    {
        self.draw_functions.len()
    }

    /// Appends a draw function, registers its id under `key` and returns
    /// the id. A key registered before now names the new function.
    pub fn add_with(&mut self, key: u64, draw_function: D) -> (r: DrawFunctionId)
        requires
            old(self).spec_functions().len() <= u32::MAX,
        ensures
            r.id == old(self).spec_functions().len(),
            final(self).spec_functions() == old(self).spec_functions().push(draw_function),
            final(self).spec_indices() == old(self).spec_indices().insert(key, r),
    {
        let id = DrawFunctionId { id: self.draw_functions.len() as u32 };
        self.draw_functions.push(draw_function);
        self.indices.push((key, id));
        proof {
            assert(self.indices@.drop_last() =~= old(self).indices@);
        }
        id
    }

    /// The draw function with the given id.
    pub fn get(&self, id: DrawFunctionId) -> (r: Option<&D>)
        ensures
            match r {
                Some(f) => id.id < self.spec_functions().len() && *f == self.spec_functions()[id.id as int],
                None => id.id >= self.spec_functions().len(),
            },
    {
        if (id.id as usize) < self.draw_functions.len() {
            Some(&self.draw_functions[id.id as usize])
        } else {
            None
        }
    }

    /// The draw function with the given id, to run it.
    pub fn get_mut(&mut self, id: DrawFunctionId) -> (r: &mut D)
        requires
            id.id < old(self).spec_functions().len(),
        ensures
            *r == old(self).spec_functions()[id.id as int],
            final(self).spec_functions() == old(self).spec_functions().update(id.id as int, *final(r)),
            final(self).spec_indices() == old(self).spec_indices(),
    {
        &mut self.draw_functions[id.id as usize]
    }

    /// The id registered under `key`, if any.
    pub fn get_id(&self, key: u64) -> (r: Option<DrawFunctionId>)
        ensures
            r == (if self.spec_indices().contains_key(key) {
                Some(self.spec_indices()[key])
            } else {
                None
            }),
    {
        let mut i: usize = self.indices.len();
        assert(self.indices@.subrange(0, i as int) =~= self.indices@);
        while i > 0
            invariant
                i <= self.indices@.len(),
                index_map(self.indices@).contains_key(key) == index_map(self.indices@.subrange(0, i as int)).contains_key(key),
                index_map(self.indices@).contains_key(key) ==> index_map(self.indices@)[key] == index_map(
                    self.indices@.subrange(0, i as int),
                )[key],
            decreases i,
        {
            let (k, v) = self.indices[i - 1];
            proof {
                let s = self.indices@.subrange(0, i as int);
                assert(s.drop_last() =~= self.indices@.subrange(0, i - 1));
                assert(s.last() == (k, v));
            }
            if k == key {
                return Some(v);
            }
            i = i - 1;
        }
        assert(self.indices@.subrange(0, 0) =~= Seq::<(u64, DrawFunctionId)>::empty());
        None
    }

    /// The id registered under `key`, which must be registered.
    pub fn id(&self, key: u64) -> (r: DrawFunctionId)
        requires
            self.spec_indices().contains_key(key),
        ensures
            r == self.spec_indices()[key],
    {
        match self.get_id(key) {
            Some(id) => id,
            None => unreached(),
        }
    }
}

} // verus!
