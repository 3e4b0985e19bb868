//! Per-view phase containers and their per-frame upkeep.

use crate::phase::{BinnedRenderPhase, MainEntity, SortedRenderPhase};
use vstd::prelude::*;

verus! {

/// Identity of a logical view that holds across frames.
#[derive(Clone, Copy, PartialEq, Eq, Structural, Debug)]
pub struct RetainedViewEntity {
    /// The main-world entity the view belongs to (usually a camera).
    pub main_entity: MainEntity,
    /// A second entity the view is tied to (a light's shadow view, say).
    pub auxiliary_entity: Option<MainEntity>,
    /// Which of the entity's views this is.
    pub subview_index: u32,
}

impl RetainedViewEntity {
    pub fn new(main_entity: MainEntity, auxiliary_entity: Option<MainEntity>, subview_index: u32) -> (r:
        Self)
        ensures
            r == (RetainedViewEntity { main_entity, auxiliary_entity, subview_index }),
    {
        RetainedViewEntity { main_entity, auxiliary_entity, subview_index }
    }
}

/// A per-view container of queued items that can be emptied for a new
/// frame.
pub trait RenderPhase: Sized {
    spec fn spec_is_empty(&self) -> bool;

    spec fn spec_wf(&self) -> bool;

    fn empty_phase() -> (r: Self)
        ensures
            r.spec_is_empty(),
            r.spec_wf(),
    ;

    fn clear_phase(&mut self)
        ensures
            final(self).spec_is_empty(),
            final(self).spec_wf(),
    ;
}

impl RenderPhase for SortedRenderPhase {
    open spec fn spec_is_empty(&self) -> bool {
        self.items@.len() == 0
    }

    open spec fn spec_wf(&self) -> bool {
        true
    }

    fn empty_phase() -> (r: Self) {
        SortedRenderPhase::new()
    }

    fn clear_phase(&mut self) {
        self.clear();
    }
}

impl RenderPhase for BinnedRenderPhase {
    open spec fn spec_is_empty(&self) -> bool {
        self.view().len() == 0
    }

    open spec fn spec_wf(&self) -> bool {
        self.wf()
    }

    fn empty_phase() -> (r: Self) {
        BinnedRenderPhase::new()
    }

    fn clear_phase(&mut self) {
        self.clear();
    }
}

/// The phase container of each live view, keyed by retained view identity.
pub struct ViewPhases<P> {
    entries: Vec<(RetainedViewEntity, P)>,
}

/// Sorted phases of each view.
pub type ViewSortedRenderPhases = ViewPhases<SortedRenderPhase>;

/// Binned phases of each view.
pub type ViewBinnedRenderPhases = ViewPhases<BinnedRenderPhase>;

pub open spec fn keys_of<P>(entries: Seq<(RetainedViewEntity, P)>) -> Seq<RetainedViewEntity> {
    entries.map_values(|e: (RetainedViewEntity, P)| e.0)
}

impl<P: RenderPhase> ViewPhases<P> {
    /// The entries, each view once.
    pub closed spec fn view(&self) -> Seq<(RetainedViewEntity, P)> {
        self.entries@
    }

    /// The views that have a phase container.
    pub open spec fn spec_keys(&self) -> Set<RetainedViewEntity> {
        keys_of(self.view()).to_set()
    }

    pub open spec fn wf(&self) -> bool {
        &&& keys_of(self.view()).no_duplicates()
        &&& forall|i: int| 0 <= i < self.view().len() ==> #[trigger] self.view()[i].1.spec_wf()
    }

    pub fn new() -> (r: Self)
        ensures
            r.wf(),
            r.view().len() == 0,
    {
        let r = ViewPhases { entries: Vec::new() };
        assert(keys_of(r.view()) =~= Seq::<RetainedViewEntity>::empty());
        r
    }

    pub fn len(&self) -> (r: usize)
        ensures
            r == self.view().len(),
    {
        self.entries.len()
    }

    /// Position of the view's entry, if it has one.
    pub fn position(&self, view: &RetainedViewEntity) -> (r: Option<usize>)
        ensures
            match r {
                Some(i) => i < self.view().len() && self.view()[i as int].0 == *view,
                None => !self.spec_keys().contains(*view),
            },
    {
        let mut i: usize = 0;
        while i < self.entries.len()
            invariant
                i <= self.entries@.len(),
                forall|j: int| 0 <= j < i ==> self.entries@[j].0 != *view,
            decreases self.entries@.len() - i,
        {
            if self.entries[i].0 == *view {
                return Some(i);
            }
            i = i + 1;
        }
        proof {
            if self.spec_keys().contains(*view) {
                let j = choose|j: int| 0 <= j < keys_of(self.view()).len() && keys_of(self.view())[j] == *view;
                assert(self.entries@[j].0 == *view);
            }
        }
        None
    }

    pub fn contains_key(&self, view: &RetainedViewEntity) -> (r: bool)
        ensures
            r == self.spec_keys().contains(*view),
    {
        match self.position(view) {
            Some(i) => {
                assert(keys_of(self.view())[i as int] == *view);
                true
            },
            None => false,
        }
    }

    /// The view's phase container, if it has one.
    pub fn get(&self, view: &RetainedViewEntity) -> (r: Option<&P>)
        ensures
            match r {
                Some(p) => exists|i: int|
                    0 <= i < self.view().len() && self.view()[i].0 == *view && self.view()[i].1 == *p,
                None => !self.spec_keys().contains(*view),
            },
    {
        match self.position(view) {
            Some(i) => Some(&self.entries[i].1),
            None => None,
        }
    }

    /// The container at `index`, to queue items into.
    pub fn phase_mut(&mut self, index: usize) -> (r: &mut P)
        requires
            index < old(self).view().len(),
        ensures
            *r == old(self).view()[index as int].1,
            final(self).view() == old(self).view().update(index as int, (old(self).view()[index as int].0, *final(r))),
    {
        &mut self.entries[index].1
    }

    /// Gives a view an empty phase container: a new one if it had none,
    /// else its container emptied of the last frame's items.
    pub fn insert_or_clear(&mut self, view: RetainedViewEntity)
        requires
            old(self).wf(),
        ensures
            final(self).wf(),
            final(self).spec_keys() == old(self).spec_keys().insert(view),
            forall|i: int|
                0 <= i < final(self).view().len() ==> if final(self).view()[i].0 == view {
                    final(self).view()[i].1.spec_is_empty()
                } else {
                    old(self).view().contains(final(self).view()[i])
                },
            forall|i: int|
                0 <= i < old(self).view().len() && old(self).view()[i].0 != view
                    ==> final(self).view().contains(old(self).view()[i]),
    {
        match self.position(&view) {
            Some(i) => {
                let (k, mut p) = self.entries.remove(i);
                p.clear_phase();
                self.entries.insert(i, (k, p));
                proof {
                    assert(self.view() =~= old(self).view().update(i as int, (view, p)));
                    assert(keys_of(self.view()) =~= keys_of(old(self).view()));
                    assert(self.spec_keys() =~= old(self).spec_keys().insert(view)) by {
                        assert(keys_of(old(self).view())[i as int] == view);
                    }
                    assert forall|j: int| 0 <= j < old(self).view().len() && old(self).view()[j].0 != view implies self.view().contains(
                        old(self).view()[j],
                    ) by {
                        assert(self.view()[j] == old(self).view()[j]);
                    }
                    assert forall|j: int| 0 <= j < self.view().len() && self.view()[j].0 != view implies old(self).view().contains(
                        self.view()[j],
                    ) by {
                        assert(self.view()[j] == old(self).view()[j]);
                    }
                    assert forall|a: int| 0 <= a < self.view().len() implies #[trigger] self.view()[a].1.spec_wf() by {
                        if a != i {
                            assert(self.view()[a] == old(self).view()[a]);
                        }
                    }
                    assert forall|a: int| 0 <= a < self.view().len() && self.view()[a].0 == view implies self.view()[a].1.spec_is_empty() by {
                        if a != i {
                            assert(self.view()[a] == old(self).view()[a]);
                            assert(keys_of(old(self).view())[a] == keys_of(old(self).view())[i as int]);
                        }
                    }
                }
            },
            None => {
                let p = P::empty_phase();
                self.entries.push((view, p));
                proof {
                    assert(self.view() =~= old(self).view().push((view, p)));
                    assert(keys_of(self.view()) =~= keys_of(old(self).view()).push(view));
                    assert(!keys_of(old(self).view()).contains(view));
                    keys_of(old(self).view()).lemma_push_to_set_commute(view);
                    assert(self.spec_keys() =~= old(self).spec_keys().insert(view));
                    assert forall|j: int| 0 <= j < old(self).view().len() implies self.view().contains(
                        old(self).view()[j],
                    ) by {
                        assert(self.view()[j] == old(self).view()[j]);
                    }
                    assert forall|j: int| 0 <= j < self.view().len() - 1 implies old(self).view().contains(
                        self.view()[j],
                    ) by {
                        assert(self.view()[j] == old(self).view()[j]);
                    }
                    assert forall|a: int| 0 <= a < self.view().len() - 1 implies self.view()[a].0 != view by {
                        assert(keys_of(old(self).view())[a] == self.view()[a].0);
                    }
                    assert forall|a: int| 0 <= a < self.view().len() implies #[trigger] self.view()[a].1.spec_wf() by {
                        if a < self.view().len() - 1 {
                            assert(self.view()[a] == old(self).view()[a]);
                        }
                    }
                }
            },
        }
    }
}

/// The entries whose view is in `live`, in their order.
pub open spec fn live_entries<P>(entries: Seq<(RetainedViewEntity, P)>, live: Seq<RetainedViewEntity>) -> Seq<
    (RetainedViewEntity, P),
> {
    entries.filter(|e: (RetainedViewEntity, P)| live.contains(e.0))
}

proof fn lemma_live_entries_push<P>(
    entries: Seq<(RetainedViewEntity, P)>,
    x: (RetainedViewEntity, P),
    live: Seq<RetainedViewEntity>,
)
    ensures
        live_entries(entries.push(x), live) == if live.contains(x.0) {
            live_entries(entries, live).push(x)
        } else {
            live_entries(entries, live)
        },
{
    entries.lemma_filter_push(x, |e: (RetainedViewEntity, P)| live.contains(e.0));
}

proof fn lemma_live_entries_from<P>(entries: Seq<(RetainedViewEntity, P)>, live: Seq<RetainedViewEntity>)
    ensures
        forall|a: int|
            0 <= a < live_entries(entries, live).len() ==> entries.contains(
                #[trigger] live_entries(entries, live)[a],
            ) && live.contains(live_entries(entries, live)[a].0),
        keys_of(entries).no_duplicates() ==> keys_of(live_entries(entries, live)).no_duplicates(),
    decreases entries.len(),
{
    if entries.len() > 0 {
        let d = entries.drop_last();
        let x = entries.last();
        lemma_live_entries_from(d, live);
        assert(entries =~= d.push(x));
        lemma_live_entries_push(d, x, live);
        let f = live_entries(entries, live);
        let fd = live_entries(d, live);
        assert forall|a: int| 0 <= a < f.len() implies entries.contains(#[trigger] f[a]) && live.contains(
            f[a].0,
        ) by {
            if a < fd.len() {
                assert(f[a] == fd[a]);
                assert(d.contains(fd[a]));
                let w = choose|w: int| 0 <= w < d.len() && d[w] == fd[a];
                assert(entries[w] == fd[a]);
            } else {
                assert(f[a] == x);
                assert(entries[entries.len() - 1] == x);
            }
        }
        if keys_of(entries).no_duplicates() {
            assert(keys_of(d).no_duplicates()) by {
                assert forall|a: int, b: int| 0 <= a < keys_of(d).len() && 0 <= b < keys_of(d).len() && a != b implies keys_of(d)[a] != keys_of(d)[b] by {
                    assert(keys_of(d)[a] == keys_of(entries)[a]);
                    assert(keys_of(d)[b] == keys_of(entries)[b]);
                }
            }
            if live.contains(x.0) {
                assert forall|a: int, b: int| 0 <= a < keys_of(f).len() && 0 <= b < keys_of(f).len() && a != b implies keys_of(f)[a] != keys_of(f)[b] by {
                    if a < fd.len() && b < fd.len() {
                        assert(keys_of(f)[a] == keys_of(fd)[a]);
                        assert(keys_of(f)[b] == keys_of(fd)[b]);
                    } else {
                        let o = if a < fd.len() { a } else { b };
                        assert(d.contains(fd[o]));
                        let w = choose|w: int| 0 <= w < d.len() && d[w] == fd[o];
                        assert(keys_of(entries)[w] == fd[o].0);
                        assert(keys_of(entries)[entries.len() - 1] == x.0);
                        assert(f[o] == fd[o]);
                    }
                }
            } else {
                assert(f == fd);
            }
        }
    }
}

impl<P: RenderPhase> ViewPhases<P> {
    /// Drops the containers of views that are not in `live`; the others stay
    /// as they are, in order.
    pub fn retain_live(&mut self, live: &Vec<RetainedViewEntity>)
        requires
            old(self).wf(),
        ensures
            final(self).wf(),
            final(self).view() == live_entries(old(self).view(), live@),
            final(self).spec_keys() == old(self).spec_keys().intersect(live@.to_set()),
    {
        let ghost old_v = self.view();
        let ghost n = old_v.len();
        let mut i: usize = 0;
        let ghost mut k: int = 0;
        while i < self.entries.len()
            invariant
                0 <= k <= n,
                n == old_v.len(),
                self.entries@ == live_entries(old_v.subrange(0, k), live@) + old_v.subrange(k, n as int),
                i == live_entries(old_v.subrange(0, k), live@).len(),
                self.entries@.len() - i == n - k,
            decreases self.entries@.len() - i,
        {
            proof {
                assert(self.entries@[i as int] == old_v[k]);
                assert(old_v.subrange(0, k + 1) =~= old_v.subrange(0, k).push(old_v[k]));
                lemma_live_entries_push(old_v.subrange(0, k), old_v[k], live@);
            }
            let mut found = false;
            let mut j: usize = 0;
            while j < live.len()
                invariant
                    j <= live@.len(),
                    found == exists|w: int| 0 <= w < j && live@[w] == self.entries@[i as int].0,
                    i < self.entries@.len(),
                decreases live@.len() - j,
            {
                if live[j] == self.entries[i].0 {
                    found = true;
                }
                j = j + 1;
            }
            assert(found == live@.contains(old_v[k].0));
            if found {
                proof {
                    assert(self.entries@ =~= live_entries(old_v.subrange(0, k + 1), live@) + old_v.subrange(
                        k + 1,
                        n as int,
                    ));
                }
                i = i + 1;
            } else {
                self.entries.remove(i);
                proof {
                    assert(self.entries@ =~= live_entries(old_v.subrange(0, k + 1), live@) + old_v.subrange(
                        k + 1,
                        n as int,
                    ));
                }
            }
            proof {
                k = k + 1;
            }
        }
        proof {
            assert(k == n);
            assert(old_v.subrange(0, k) =~= old_v);
            assert(self.entries@ =~= live_entries(old_v, live@));
            lemma_live_entries_from(old_v, live@);
            let f = self.view();
            assert forall|a: int| 0 <= a < f.len() implies #[trigger] f[a].1.spec_wf() by {
                assert(old_v.contains(f[a]));
                let w = choose|w: int| 0 <= w < old_v.len() && old_v[w] == f[a];
                assert(old_v[w].1.spec_wf());
            }
            assert forall|v: RetainedViewEntity| #[trigger] self.spec_keys().contains(v) == (old(
                self,
            ).spec_keys().contains(v) && live@.to_set().contains(v)) by {
                if self.spec_keys().contains(v) {
                    let a = choose|a: int| 0 <= a < keys_of(f).len() && keys_of(f)[a] == v;
                    assert(f[a].0 == v);
                    assert(old_v.contains(f[a]));
                    let w = choose|w: int| 0 <= w < old_v.len() && old_v[w] == f[a];
                    assert(keys_of(old_v)[w] == v);
                }
                if old(self).spec_keys().contains(v) && live@.contains(v) {
                    let w = choose|w: int| 0 <= w < keys_of(old_v).len() && keys_of(old_v)[w] == v;
                    lemma_live_entry_kept(old_v, live@, w);
                    let a = choose|a: int| 0 <= a < f.len() && f[a] == old_v[w];
                    assert(keys_of(f)[a] == v);
                }
            }
            assert(self.spec_keys() =~= old(self).spec_keys().intersect(live@.to_set()));
        }
    }
}

proof fn lemma_live_entry_kept<P>(entries: Seq<(RetainedViewEntity, P)>, live: Seq<RetainedViewEntity>, w: int)
    requires
        0 <= w < entries.len(),
        live.contains(entries[w].0),
    ensures
        live_entries(entries, live).contains(entries[w]),
    decreases entries.len(),
{
    let d = entries.drop_last();
    assert(entries =~= d.push(entries.last()));
    lemma_live_entries_push(d, entries.last(), live);
    if w < entries.len() - 1 {
        assert(d[w] == entries[w]);
        lemma_live_entry_kept(d, live, w);
        let a = choose|a: int| 0 <= a < live_entries(d, live).len() && live_entries(d, live)[a] == entries[w];
        assert(live_entries(entries, live)[a] == entries[w]);
    } else {
        let f = live_entries(entries, live);
        assert(f[f.len() - 1] == entries[w]);
    }
}

/// The retained identity of a 2D camera's main view.
pub open spec fn camera_view(main_entity: MainEntity) -> RetainedViewEntity {
    RetainedViewEntity { main_entity, auxiliary_entity: None, subview_index: 0 }
}

/// The views of the active cameras among `cameras`, given as (camera,
/// active) pairs.
pub open spec fn live_camera_views(cameras: Seq<(MainEntity, bool)>) -> Set<RetainedViewEntity> {
    Set::new(
        |v: RetainedViewEntity|
            exists|i: int| 0 <= i < cameras.len() && cameras[i].1 && v == camera_view(cameras[i].0),
    )
}

/// Every container whose view is live is empty.
pub open spec fn live_emptied<P: RenderPhase>(entries: Seq<(RetainedViewEntity, P)>, live: Set<RetainedViewEntity>) -> bool {
    forall|i: int| 0 <= i < entries.len() && live.contains(entries[i].0) ==> (#[trigger] entries[i]).1.spec_is_empty()
}

/// Brings a view-keyed container to the new frame: each live view gets an
/// empty container, and the containers of all other views are dropped.
pub fn prepare_view_phases<P: RenderPhase>(phases: &mut ViewPhases<P>, live: &Vec<RetainedViewEntity>)
    requires
        old(phases).wf(),
    ensures
        final(phases).wf(),
        final(phases).spec_keys() == live@.to_set(),
        forall|i: int| 0 <= i < final(phases).view().len() ==> (#[trigger] final(phases).view()[i]).1.spec_is_empty(),
{
    let mut i: usize = 0;
    while i < live.len()
        invariant
            i <= live@.len(),
            phases.wf(),
            phases.spec_keys() == old(phases).spec_keys().union(live@.subrange(0, i as int).to_set()),
            live_emptied(phases.view(), live@.subrange(0, i as int).to_set()),
        decreases live@.len() - i,
    {
        let ghost before = phases.view();
        phases.insert_or_clear(live[i]);
        proof {
            let s0 = live@.subrange(0, i as int);
            let s1 = live@.subrange(0, i + 1);
            assert(s1 =~= s0.push(live@[i as int]));
            s0.lemma_push_to_set_commute(live@[i as int]);
            assert(phases.spec_keys() =~= old(phases).spec_keys().union(s1.to_set()));
            assert forall|a: int| 0 <= a < phases.view().len() && s1.to_set().contains(phases.view()[a].0) implies (#[trigger] phases.view()[a]).1.spec_is_empty() by {
                if phases.view()[a].0 != live@[i as int] {
                    let e = phases.view()[a];
                    assert(before.contains(e));
                    let w = choose|w: int| 0 <= w < before.len() && before[w] == e;
                    assert(s0.to_set().contains(e.0));
                    assert(before[w].1.spec_is_empty());
                }
            }
        }
        i = i + 1;
    }
    assert(live@.subrange(0, i as int) =~= live@);
    let ghost mid = phases.view();
    phases.retain_live(live);
    proof {
        lemma_live_entries_from(mid, live@);
        assert(phases.spec_keys() =~= live@.to_set());
        assert forall|a: int| 0 <= a < phases.view().len() implies (#[trigger] phases.view()[a]).1.spec_is_empty() by {
            let e = phases.view()[a];
            assert(mid.contains(e));
            let w = choose|w: int| 0 <= w < mid.len() && mid[w] == e;
            assert(live@.to_set().contains(e.0));
            assert(mid[w].1.spec_is_empty());
        }
    }
}

/// Per-frame upkeep of the 2D phase containers: each active 2D camera's
/// view gets empty transparent, opaque and alpha-mask containers, and the
/// containers of views that are no longer live are removed. `cameras_2d`
/// holds each 2D camera with whether it is active.
pub fn extract_core_2d_camera_phases(
    transparent_2d_phases: &mut ViewSortedRenderPhases,
    opaque_2d_phases: &mut ViewBinnedRenderPhases,
    alpha_mask_2d_phases: &mut ViewBinnedRenderPhases,
    cameras_2d: &Vec<(MainEntity, bool)>,
)
    requires
        old(transparent_2d_phases).wf(),
        old(opaque_2d_phases).wf(),
        old(alpha_mask_2d_phases).wf(),
    ensures
        final(transparent_2d_phases).wf(),
        final(opaque_2d_phases).wf(),
        final(alpha_mask_2d_phases).wf(),
        final(transparent_2d_phases).spec_keys() == live_camera_views(cameras_2d@),
        final(opaque_2d_phases).spec_keys() == live_camera_views(cameras_2d@),
        final(alpha_mask_2d_phases).spec_keys() == live_camera_views(cameras_2d@),
        forall|i: int| 0 <= i < final(transparent_2d_phases).view().len()
            ==> (#[trigger] final(transparent_2d_phases).view()[i]).1.spec_is_empty(),
        forall|i: int| 0 <= i < final(opaque_2d_phases).view().len()
            ==> (#[trigger] final(opaque_2d_phases).view()[i]).1.spec_is_empty(),
        forall|i: int| 0 <= i < final(alpha_mask_2d_phases).view().len()
            ==> (#[trigger] final(alpha_mask_2d_phases).view()[i]).1.spec_is_empty(),
{
    let mut live_entities: Vec<RetainedViewEntity> = Vec::new();
    let mut i: usize = 0;
    while i < cameras_2d.len()
        invariant
            i <= cameras_2d@.len(),
            live_entities@.to_set() == live_camera_views(cameras_2d@.subrange(0, i as int)),
        decreases cameras_2d@.len() - i,
    {
        let (main_entity, is_active) = cameras_2d[i];
        let ghost before = live_entities@;
        if is_active {
            live_entities.push(RetainedViewEntity::new(main_entity, None, 0));
        }
        proof {
            let c0 = cameras_2d@.subrange(0, i as int);
            let c1 = cameras_2d@.subrange(0, i + 1);
            assert(c1 =~= c0.push(cameras_2d@[i as int]));
            if is_active {
                assert(live_entities@ == before.push(camera_view(main_entity)));
                before.lemma_push_to_set_commute(camera_view(main_entity));
                assert(live_entities@.to_set() == before.to_set().insert(camera_view(main_entity)));
            } else {
                assert(live_entities@ == before);
            }
            assert(cameras_2d@[i as int] == (main_entity, is_active));
            assert forall|v: RetainedViewEntity| #[trigger] live_camera_views(c1).contains(v) == live_entities@.to_set().contains(v) by {
                if live_camera_views(c1).contains(v) {
                    let w = choose|w: int| 0 <= w < c1.len() && c1[w].1 && v == camera_view(c1[w].0);
                    if w < i {
                        assert(c0[w] == c1[w]);
                        assert(live_camera_views(c0).contains(v));
                    } else {
                        assert(c1[w] == (main_entity, is_active));
                    }
                }
                if live_entities@.to_set().contains(v) && v != camera_view(main_entity) {
                    assert(before.to_set().contains(v));
                }
                if is_active && v == camera_view(main_entity) {
                    assert(c1[i as int] == (main_entity, is_active));
                }
                if live_camera_views(c0).contains(v) {
                    let w = choose|w: int| 0 <= w < c0.len() && c0[w].1 && v == camera_view(c0[w].0);
                    assert(c1[w] == c0[w]);
                }
            }
            assert(live_entities@.to_set() =~= live_camera_views(c1));
        }
        i = i + 1;
    }
    assert(cameras_2d@.subrange(0, i as int) =~= cameras_2d@);
    prepare_view_phases(transparent_2d_phases, &live_entities);
    prepare_view_phases(opaque_2d_phases, &live_entities);
    prepare_view_phases(alpha_mask_2d_phases, &live_entities);
}

} // verus!
