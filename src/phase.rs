//! Phase items, and the sorted and binned phases that order and batch them.

use crate::draw::DrawFunctionId;
use crate::pipeline_cache::CachedRenderPipelineId;
use vstd::prelude::*;

verus! {

/// A render-world entity, by its bits.
#[derive(Clone, Copy, PartialEq, Eq, Structural, Debug)]
pub struct Entity {
    pub bits: u64,
}

/// The main-world entity a render-world entity stands for, by its bits.
#[derive(Clone, Copy, PartialEq, Eq, Structural, Debug)]
pub struct MainEntity {
    pub bits: u64,
}

/// Identity of an asset (usually a mesh) that a phase item draws.
#[derive(Clone, Copy, PartialEq, Eq, Structural, Debug)]
pub struct AssetId {
    pub id: u64,
}

/// Identity of a material bind group.
#[derive(Clone, Copy, PartialEq, Eq, Structural, Debug)]
pub struct BindGroupId {
    pub id: u32,
}

/// A half-open range of instances, `start..end`.
#[derive(Clone, Copy, PartialEq, Eq, Structural, Debug)]
pub struct BatchRange {
    pub start: u32,
    pub end: u32,
}

/// The second index a phase item carries: nothing, a dynamic uniform
/// offset, or a slot in the indirect parameters buffer.
#[derive(Clone, Copy, PartialEq, Eq, Structural, Debug)]
pub enum PhaseItemExtraIndex {
    Unused,
    DynamicOffset(u32),
    IndirectParametersIndex { range: BatchRange, batch_set_index: Option<u32> },
}

/// The order key of a 32-bit float given by its bits: unsigned comparison
/// of keys orders the floats by value, negative NaNs first and positive
/// NaNs last, with -0.0 just before +0.0.
pub open spec fn spec_float_sort_key(bits: u32) -> u32 {
    if bits & 0x8000_0000u32 != 0 {
        !bits
    } else {
        bits | 0x8000_0000u32
    }
}

/// Maps the bits of a 32-bit float to its order key.
pub fn float_sort_key(bits: u32) -> (r: u32)
    ensures
        r == spec_float_sort_key(bits),
{
    if bits & 0x8000_0000u32 != 0 {
        !bits
    } else {
        bits | 0x8000_0000u32
    }
}

/// A transparent 2D item, drawn in the order of its sort key.
#[derive(Clone, Copy, PartialEq, Eq, Structural, Debug)]
pub struct Transparent2d {
    /// Order key; see `float_sort_key` for keys made from depths.
    pub sort_key: u32,
    pub entity: Entity,
    pub main_entity: MainEntity,
    pub pipeline: CachedRenderPipelineId,
    pub draw_function: DrawFunctionId,
    pub batch_range: BatchRange,
    pub extracted_index: usize,
    pub extra_index: PhaseItemExtraIndex,
    /// Whether the mesh is drawn with an index buffer.
    pub indexed: bool,
}

impl Transparent2d {
    pub fn entity(&self) -> (r: Entity)
        ensures
            r == self.entity,
    {
        self.entity
    }

    pub fn main_entity(&self) -> (r: MainEntity)
        ensures
            r == self.main_entity,
    {
        self.main_entity
    }

    pub fn draw_function(&self) -> (r: DrawFunctionId)
        ensures
            r == self.draw_function,
    {
        self.draw_function
    }

    pub fn batch_range(&self) -> (r: BatchRange)
        ensures
            r == self.batch_range,
    {
        self.batch_range
    }

    pub fn extra_index(&self) -> (r: PhaseItemExtraIndex)
        ensures
            r == self.extra_index,
    {
        self.extra_index
    }

    pub fn sort_key(&self) -> (r: u32)
        ensures
            r == self.sort_key,
    {
        self.sort_key
    }

    pub fn indexed(&self) -> (r: bool)
        ensures
            r == self.indexed,
    {
        self.indexed
    }

    pub fn cached_pipeline(&self) -> (r: CachedRenderPipelineId)
        ensures
            r == self.pipeline,
    {
        self.pipeline
    }
}

/// Items whose sort key is `k`, in their order in `s`.
pub open spec fn with_key(s: Seq<Transparent2d>, k: u32) -> Seq<Transparent2d> {
    s.filter(|t: Transparent2d| t.sort_key == k)
}

/// Ascending by sort key.
pub open spec fn sorted_by_key(s: Seq<Transparent2d>) -> bool {
    forall|i: int, j: int| 0 <= i < j < s.len() ==> s[i].sort_key <= s[j].sort_key
}

/// `out` is the stable sort of `items` by sort key: ascending, and the
/// items of each key keep their relative order.
pub open spec fn stable_sorted(items: Seq<Transparent2d>, out: Seq<Transparent2d>) -> bool {
    &&& sorted_by_key(out)
    &&& forall|k: u32| #[trigger] with_key(out, k) == with_key(items, k)
}

/// Relies on radsort::sort_by_key, a stable radix sort: the slice ends up
/// ascending by the key, equal keys in their former order.
#[verifier::external_body]
fn radix_sort_by_sort_key(items: &mut Vec<Transparent2d>)
    ensures
        stable_sorted(old(items)@, final(items)@),
{
    radsort::sort_by_key(items.as_mut_slice(), |item: &Transparent2d| item.sort_key);
}

proof fn lemma_with_key_unfold(s: Seq<Transparent2d>, k: u32)
    requires
        s.len() > 0,
    ensures
        with_key(s, k) == if s.last().sort_key == k {
            with_key(s.drop_last(), k).push(s.last())
        } else {
            with_key(s.drop_last(), k)
        },
{
    assert(s =~= s.drop_last().push(s.last()));
    s.drop_last().lemma_filter_push(s.last(), |t: Transparent2d| t.sort_key == k);
}

proof fn lemma_key_present(s: Seq<Transparent2d>, k: u32)
    requires
        with_key(s, k).len() > 0,
    ensures
        exists|i: int| 0 <= i < s.len() && s[i].sort_key == k,
    decreases s.len(),
{
    lemma_with_key_unfold(s, k);
    if s.last().sort_key != k {
        lemma_key_present(s.drop_last(), k);
        let i = choose|i: int| 0 <= i < s.len() - 1 && s.drop_last()[i].sort_key == k;
        assert(s[i].sort_key == k);
    } else {
        assert(s[s.len() - 1].sort_key == k);
    }
}

/// Two key-sorted sequences holding the same items of each key, in the
/// same order, are equal: the stable sort has one result.
pub proof fn lemma_stable_sort_unique(a: Seq<Transparent2d>, b: Seq<Transparent2d>)
    requires
        sorted_by_key(a),
        sorted_by_key(b),
        forall|k: u32| #[trigger] with_key(a, k) == with_key(b, k),
    ensures
        a == b,
    decreases a.len() + b.len(),
{
    if a.len() == 0 && b.len() == 0 {
    } else if a.len() == 0 {
        let k = b.last().sort_key;
        lemma_with_key_unfold(b, k);
        assert(with_key(a, k) == with_key(b, k));
        assert(with_key(a, k).len() == 0);
    } else if b.len() == 0 {
        let k = a.last().sort_key;
        lemma_with_key_unfold(a, k);
        assert(with_key(a, k) == with_key(b, k));
        assert(with_key(b, k).len() == 0);
    } else {
        let ka = a.last().sort_key;
        let kb = b.last().sort_key;
        lemma_with_key_unfold(a, ka);
        lemma_with_key_unfold(b, kb);
        assert(with_key(a, ka) == with_key(b, ka));
        assert(with_key(a, kb) == with_key(b, kb));
        lemma_key_present(b, ka);
        lemma_key_present(a, kb);
        assert(ka <= kb) by {
            let i = choose|i: int| 0 <= i < b.len() && b[i].sort_key == ka;
            if i < b.len() - 1 {
                assert(b[i].sort_key <= b[b.len() - 1].sort_key);
            }
        }
        assert(kb <= ka) by {
            let i = choose|i: int| 0 <= i < a.len() && a[i].sort_key == kb;
            if i < a.len() - 1 {
                assert(a[i].sort_key <= a[a.len() - 1].sort_key);
            }
        }
        let k = ka;
        assert(with_key(a, k).last() == a.last());
        assert(with_key(b, k).last() == b.last());
        let a1 = a.drop_last();
        let b1 = b.drop_last();
        assert forall|j: u32| #[trigger] with_key(a1, j) == with_key(b1, j) by {
            lemma_with_key_unfold(a, j);
            lemma_with_key_unfold(b, j);
            assert(with_key(a, j) == with_key(b, j));
            if j == k {
                assert(with_key(a1, j) == with_key(a, j).drop_last());
                assert(with_key(b1, j) == with_key(b, j).drop_last());
            }
        }
        lemma_stable_sort_unique(a1, b1);
        assert(a =~= a1.push(a.last()));
        assert(b =~= b1.push(b.last()));
    }
}

/// Sorting an already sorted sequence leaves it as it is.
pub proof fn lemma_sort_idempotent(items: Seq<Transparent2d>, out: Seq<Transparent2d>)
    requires
        sorted_by_key(items),
        stable_sorted(items, out),
    ensures
        out == items,
{
    lemma_stable_sort_unique(out, items);
}

/// A sorted phase of transparent items for one view.
pub struct SortedRenderPhase {
    pub items: Vec<Transparent2d>,
}

impl SortedRenderPhase {
    pub fn new() -> (r: Self)
        ensures
            r.items@.len() == 0,
    {
        SortedRenderPhase { items: Vec::new() }
    }

    /// Queues an item at the end.
    pub fn add(&mut self, item: Transparent2d)
        ensures
            final(self).items@ == old(self).items@.push(item),
    {
        self.items.push(item);
    }

    pub fn is_empty(&self) -> (r: bool)
        ensures
            r == (self.items@.len() == 0),
    {
        self.items.len() == 0
    }

    /// Removes every item.
    pub fn clear(&mut self)
        ensures
            final(self).items@.len() == 0,
    {
        self.items.clear();
    }

    /// Orders the items ascending by sort key; items with equal keys keep
    /// their queueing order.
    pub fn sort(&mut self)
        ensures
            stable_sorted(old(self).items@, final(self).items@),
            sorted_by_key(old(self).items@) ==> final(self).items@ == old(self).items@,
    {
        radix_sort_by_sort_key(&mut self.items);
        proof {
            if sorted_by_key(old(self).items@) {
                lemma_sort_idempotent(old(self).items@, self.items@);
            }
        }
    }
}

/// Groups bins that could be multi-drawn together; 2D meshes only differ in
/// whether they are indexed.
#[derive(Clone, Copy, PartialEq, Eq, Structural, Debug)]
pub struct BatchSetKey2d {
    /// True if the mesh is indexed.
    pub indexed: bool,
}

impl BatchSetKey2d {
    pub fn indexed(&self) -> (r: bool)
        ensures
            r == self.indexed,
    {
        self.indexed
    }
}

/// What must be equal for 2D binned items to be drawn in one batch.
#[derive(Clone, Copy, PartialEq, Eq, Structural, Debug)]
pub struct BinKey2d {
    pub pipeline: CachedRenderPipelineId,
    pub draw_function: DrawFunctionId,
    /// The mesh, or the asset that stands for the item.
    pub asset_id: AssetId,
    pub material_bind_group_id: Option<BindGroupId>,
}

/// Bin key of the opaque 2D phase.
pub type Opaque2dBinKey = BinKey2d;

/// Bin key of the alpha-mask 2D phase.
pub type AlphaMask2dBinKey = BinKey2d;

/// Full order key of a bin: batch set first, then bin key.
pub type BinOrderKey = (BatchSetKey2d, BinKey2d);

pub open spec fn bind_group_lt(a: Option<BindGroupId>, b: Option<BindGroupId>) -> bool {
    match (a, b) {
        (None, Some(_)) => true,
        (Some(x), Some(y)) => x.id < y.id,
        _ => false,
    }
}

/// Lexicographic order over pipeline, draw function, asset and bind group.
pub open spec fn bin_key_lt(a: BinKey2d, b: BinKey2d) -> bool {
    a.pipeline.id < b.pipeline.id || (a.pipeline.id == b.pipeline.id && (a.draw_function.id
        < b.draw_function.id || (a.draw_function.id == b.draw_function.id && (a.asset_id.id
        < b.asset_id.id || (a.asset_id.id == b.asset_id.id && bind_group_lt(
        a.material_bind_group_id,
        b.material_bind_group_id,
    ))))))
}

/// Non-indexed batch sets first; within a set, by bin key.
pub open spec fn key_lt(a: BinOrderKey, b: BinOrderKey) -> bool {
    (!a.0.indexed && b.0.indexed) || (a.0 == b.0 && bin_key_lt(a.1, b.1))
}

proof fn lemma_key_order(a: BinOrderKey, b: BinOrderKey, c: BinOrderKey)
    ensures
        !key_lt(a, a),
        key_lt(a, b) && key_lt(b, c) ==> key_lt(a, c),
        a != b ==> key_lt(a, b) || key_lt(b, a),
        key_lt(a, b) ==> !key_lt(b, a),
{
}

fn key_less(a: &BinOrderKey, b: &BinOrderKey) -> (r: bool)
    ensures
        r == key_lt(*a, *b),
{
    if a.0.indexed != b.0.indexed {
        return !a.0.indexed;
    }
    let x = &a.1;
    let y = &b.1;
    if x.pipeline.id != y.pipeline.id {
        return x.pipeline.id < y.pipeline.id;
    }
    if x.draw_function.id != y.draw_function.id {
        return x.draw_function.id < y.draw_function.id;
    }
    if x.asset_id.id != y.asset_id.id {
        return x.asset_id.id < y.asset_id.id;
    }
    match (x.material_bind_group_id, y.material_bind_group_id) {
        (None, Some(_)) => true,
        (Some(p), Some(q)) => p.id < q.id,
        _ => false,
    }
}

/// One queued entity of a bin, with its instance range.
#[derive(Clone, Copy, PartialEq, Eq, Structural, Debug)]
pub struct BinnedEntity {
    pub entity: Entity,
    pub main_entity: MainEntity,
    pub batch_range: BatchRange,
}

/// The entities queued under one key, in queueing order.
pub struct Bin {
    pub key: BinOrderKey,
    pub entities: Vec<BinnedEntity>,
}

/// One draw of a binned phase: a run of a bin's entities whose instance
/// ranges follow each other, drawn as one instanced call.
#[derive(Clone, Copy, PartialEq, Eq, Structural, Debug)]
pub struct BinnedBatch {
    pub batch_set_key: BatchSetKey2d,
    pub bin_key: BinKey2d,
    /// The first entity of the run, from which the draw fetches its data.
    pub representative_entity: Entity,
    pub main_entity: MainEntity,
    pub batch_range: BatchRange,
}

pub open spec fn batch_of(key: BinOrderKey, e: BinnedEntity) -> BinnedBatch {
    BinnedBatch {
        batch_set_key: key.0,
        bin_key: key.1,
        representative_entity: e.entity,
        main_entity: e.main_entity,
        batch_range: e.batch_range,
    }
}

pub open spec fn grown(b: BinnedBatch, end: u32) -> BinnedBatch {
    BinnedBatch { batch_range: BatchRange { start: b.batch_range.start, end }, ..b }
}

/// The draws of one bin: each entity joins the previous draw when its range
/// starts where that draw's range ends, and opens a new draw otherwise.
pub open spec fn bin_batches(key: BinOrderKey, es: Seq<BinnedEntity>) -> Seq<BinnedBatch>
    decreases es.len(),
{
    if es.len() == 0 {
        Seq::empty()
    } else {
        let prev = bin_batches(key, es.drop_last());
        let e = es.last();
        if prev.len() > 0 && prev.last().batch_range.end == e.batch_range.start {
            prev.update(prev.len() - 1, grown(prev.last(), e.batch_range.end))
        } else {
            prev.push(batch_of(key, e))
        }
    }
}

/// The draws of a phase: those of each bin, bins in key order.
pub open spec fn phase_batches(bins: Seq<(BinOrderKey, Seq<BinnedEntity>)>) -> Seq<BinnedBatch>
    decreases bins.len(),
{
    if bins.len() == 0 {
        Seq::empty()
    } else {
        phase_batches(bins.drop_last()) + bin_batches(bins.last().0, bins.last().1)
    }
}

/// Bins strictly ascending by key, none empty.
pub open spec fn bins_wf(bins: Seq<(BinOrderKey, Seq<BinnedEntity>)>) -> bool {
    &&& forall|i: int, j: int| 0 <= i < j < bins.len() ==> key_lt(bins[i].0, bins[j].0)
    &&& forall|i: int| 0 <= i < bins.len() ==> bins[i].1.len() > 0
}

/// A binned phase for one view: queued entities grouped by key.
pub struct BinnedRenderPhase {
    bins: Vec<Bin>,
}

impl BinnedRenderPhase {
    /// The bins in key order.
    pub closed spec fn view(&self) -> Seq<(BinOrderKey, Seq<BinnedEntity>)> {
        self.bins@.map_values(|b: Bin| (b.key, b.entities@))
    }

    pub open spec fn wf(&self) -> bool {
        bins_wf(self.view())
    }

    pub fn new() -> (r: Self)
        ensures
            r.wf(),
            r.view().len() == 0,
    {
        let r = BinnedRenderPhase { bins: Vec::new() };
        assert(r.view() =~= Seq::<(BinOrderKey, Seq<BinnedEntity>)>::empty());
        r
    }

    pub fn is_empty(&self) -> (r: bool)
        ensures
            r == (self.view().len() == 0),
    {
        self.bins.len() == 0
    }

    /// Removes every bin.
    pub fn clear(&mut self)
        ensures
            final(self).wf(),
            final(self).view().len() == 0,
    {
        self.bins.clear();
        assert(self.view() =~= Seq::<(BinOrderKey, Seq<BinnedEntity>)>::empty());
    }

    /// Number of bins.
    pub fn bin_count(&self) -> (r: usize)
        ensures
            r == self.view().len(),
    {
        self.bins.len()
    }

    /// Queues an entity under its keys: appended to the bin of that key, or
    /// in a new bin placed in key order.
    pub fn add(
        &mut self,
        batch_set_key: BatchSetKey2d,
        bin_key: BinKey2d,
        entity: Entity,
        main_entity: MainEntity,
        batch_range: BatchRange,
    )
        requires
            old(self).wf(),
        ensures
            final(self).wf(),
            ({
                let key = (batch_set_key, bin_key);
                let e = BinnedEntity { entity, main_entity, batch_range };
                let bins = old(self).view();
                if exists|i: int| 0 <= i < bins.len() && bins[i].0 == key {
                    exists|i: int|
                        0 <= i < bins.len() && bins[i].0 == key && final(self).view() == bins.update(
                            i,
                            (key, bins[i].1.push(e)),
                        )
                } else {
                    exists|p: int| 0 <= p <= bins.len() && final(self).view() == bins.insert(p, (key, seq![e]))
                }
            }),
    {
        let key = (batch_set_key, bin_key);
        let e = BinnedEntity { entity, main_entity, batch_range };
        let ghost bins = self.view();
        let mut i: usize = 0;
        while i < self.bins.len() && key_less(&self.bins[i].key, &key)
            invariant
                i <= self.bins@.len(),
                self.view() == bins,
                bins_wf(bins),
                forall|j: int| 0 <= j < i ==> key_lt(bins[j].0, key),
            decreases self.bins@.len() - i,
        {
            i = i + 1;
        }
        proof {
            assert forall|j: int| 0 <= j < i implies bins[j].0 != key by {
                lemma_key_order(bins[j].0, key, key);
            }
        }
        if i < self.bins.len() && self.bins[i].key.0 == key.0 && self.bins[i].key.1 == key.1 {
            let mut b = self.bins.remove(i);
            b.entities.push(e);
            self.bins.insert(i, b);
            proof {
                assert(self.view() =~= bins.update(i as int, (key, bins[i as int].1.push(e))));
                assert forall|a: int, c: int| 0 <= a < c < self.view().len() implies key_lt(
                    self.view()[a].0,
                    self.view()[c].0,
                ) by {
                    assert(key_lt(bins[a].0, bins[c].0));
                }
            }
        } else {
            let mut entities: Vec<BinnedEntity> = Vec::new();
            entities.push(e);
            self.bins.insert(i, Bin { key, entities });
            proof {
                assert(self.view() =~= bins.insert(i as int, (key, seq![e])));
                if i < bins.len() {
                    lemma_key_order(key, bins[i as int].0, key);
                    assert(key_lt(key, bins[i as int].0));
                }
                assert forall|a: int, c: int| 0 <= a < c < self.view().len() implies key_lt(
                    self.view()[a].0,
                    self.view()[c].0,
                ) by {
                    if a < i && c < i {
                        assert(key_lt(bins[a].0, bins[c].0));
                    } else if a < i && c == i {
                    } else if a < i && c > i {
                        assert(key_lt(bins[a].0, bins[c - 1].0));
                    } else if a == i {
                        if c - 1 > i {
                            lemma_key_order(key, bins[i as int].0, bins[c - 1].0);
                        }
                    } else {
                        assert(key_lt(bins[a - 1].0, bins[c - 1].0));
                    }
                }
                assert forall|j: int| 0 <= j < bins.len() implies bins[j].0 != key by {
                    if j >= i {
                        if j > i {
                            lemma_key_order(key, bins[i as int].0, bins[j].0);
                        }
                        lemma_key_order(key, bins[j].0, key);
                    }
                }
            }
        }
    }
}

impl BinnedRenderPhase {
    /// The draws of the phase, bins in key order: within a bin, entities
    /// whose instance ranges follow each other share one draw.
    pub fn batches(&self) -> (r: Vec<BinnedBatch>)
        ensures
            r@ == phase_batches(self.view()),
    {
        let mut out: Vec<BinnedBatch> = Vec::new();
        let mut i: usize = 0;
        while i < self.bins.len()
            invariant
                i <= self.bins@.len(),
                out@ == phase_batches(self.view().subrange(0, i as int)),
            decreases self.bins@.len() - i,
        {
            let bin = &self.bins[i];
            let ghost key = bin.key;
            let mut cur: Vec<BinnedBatch> = Vec::new();
            let mut j: usize = 0;
            while j < bin.entities.len()
                invariant
                    j <= bin.entities@.len(),
                    key == bin.key,
                    cur@ == bin_batches(key, bin.entities@.subrange(0, j as int)),
                decreases bin.entities@.len() - j,
            {
                let e = bin.entities[j];
                let n = cur.len();
                proof {
                    assert(bin.entities@.subrange(0, j + 1).drop_last() =~= bin.entities@.subrange(0, j as int));
                }
                if n > 0 && cur[n - 1].batch_range.end == e.batch_range.start {
                    let last = cur[n - 1];
                    let g = BinnedBatch {
                        batch_range: BatchRange { start: last.batch_range.start, end: e.batch_range.end },
                        ..last
                    };
                    cur.set(n - 1, g);
                } else {
                    cur.push(
                        BinnedBatch {
                            batch_set_key: bin.key.0,
                            bin_key: bin.key.1,
                            representative_entity: e.entity,
                            main_entity: e.main_entity,
                            batch_range: e.batch_range,
                        },
                    );
                }
                j = j + 1;
            }
            proof {
                assert(bin.entities@.subrange(0, j as int) =~= bin.entities@);
                assert(self.view().subrange(0, i + 1).drop_last() =~= self.view().subrange(0, i as int));
                assert(self.view()[i as int] == (bin.key, bin.entities@));
            }
            out.append(&mut cur);
            i = i + 1;
        }
        proof {
            assert(self.view().subrange(0, i as int) =~= self.view());
        }
        out
    }
}

/// Entities whose instance ranges follow each other, each starting where
/// the one before ends.
pub open spec fn contiguous(es: Seq<BinnedEntity>) -> bool {
    forall|j: int| 0 <= j < es.len() - 1 ==> #[trigger] es[j].batch_range.end == es[j + 1].batch_range.start
}

/// The entities of a bin whose ranges follow each other collapse into one
/// draw, represented by the first entity, whose range runs from the first
/// entity's start to the last one's end.
pub proof fn lemma_contiguous_bin_one_batch(key: BinOrderKey, es: Seq<BinnedEntity>)
    requires
        es.len() > 0,
        contiguous(es),
    ensures
        bin_batches(key, es) == seq![grown(batch_of(key, es[0]), es.last().batch_range.end)],
    decreases es.len(),
{
    if es.len() == 1 {
        let b = batch_of(key, es[0]);
        assert(es.drop_last() =~= Seq::<BinnedEntity>::empty());
        assert(grown(b, es.last().batch_range.end) == b);
        assert(bin_batches(key, es.drop_last()).len() == 0);
        assert(bin_batches(key, es) =~= seq![b]);
    } else {
        let d = es.drop_last();
        assert(contiguous(d)) by {
            assert forall|j: int| 0 <= j < d.len() - 1 implies #[trigger] d[j].batch_range.end == d[j
                + 1].batch_range.start by {
                assert(es[j].batch_range.end == es[j + 1].batch_range.start);
            }
        }
        lemma_contiguous_bin_one_batch(key, d);
        let m = es.len() - 2;
        assert(es[m].batch_range.end == es[m + 1].batch_range.start);
        assert(d.last() == es[m]);
        assert(bin_batches(key, es) =~= seq![grown(batch_of(key, es[0]), es.last().batch_range.end)]);
    }
}

/// Two entities queued under one key, the second's range starting where
/// the first's ends, are drawn as one call spanning both ranges.
pub proof fn lemma_same_bin_merges(key: BinOrderKey, a: BinnedEntity, b: BinnedEntity)
    requires
        a.batch_range.end == b.batch_range.start,
    ensures
        bin_batches(key, seq![a, b]) == seq![
            BinnedBatch {
                batch_set_key: key.0,
                bin_key: key.1,
                representative_entity: a.entity,
                main_entity: a.main_entity,
                batch_range: BatchRange { start: a.batch_range.start, end: b.batch_range.end },
            },
        ],
{
    let es = seq![a, b];
    assert(contiguous(es)) by {
        assert forall|j: int| 0 <= j < es.len() - 1 implies #[trigger] es[j].batch_range.end == es[j
            + 1].batch_range.start by {
            assert(j == 0);
        }
    }
    lemma_contiguous_bin_one_batch(key, es);
}

/// When every bin's ranges follow each other, the phase issues one draw per
/// bin, however many entities were queued.
pub proof fn lemma_one_draw_per_bin(bins: Seq<(BinOrderKey, Seq<BinnedEntity>)>)
    requires
        bins_wf(bins),
        forall|i: int| 0 <= i < bins.len() ==> #[trigger] contiguous(bins[i].1),
    ensures
        phase_batches(bins).len() == bins.len(),
    decreases bins.len(),
{
    if bins.len() > 0 {
        let d = bins.drop_last();
        assert(bins_wf(d)) by {
            assert forall|i: int, j: int| 0 <= i < j < d.len() implies key_lt(d[i].0, d[j].0) by {
                assert(key_lt(bins[i].0, bins[j].0));
            }
            assert forall|i: int| 0 <= i < d.len() implies d[i].1.len() > 0 by {
                assert(bins[i].1.len() > 0);
            }
        }
        assert forall|i: int| 0 <= i < d.len() implies #[trigger] contiguous(d[i].1) by {
            assert(contiguous(bins[i].1));
        }
        lemma_one_draw_per_bin(d);
        assert(contiguous(bins[bins.len() - 1].1));
        lemma_contiguous_bin_one_batch(bins.last().0, bins.last().1);
    }
}

/// An opaque 2D item: one draw of the opaque binned phase.
#[derive(Clone, Copy, Debug)]
pub struct Opaque2d {
    /// Which bins could be multi-drawn together.
    pub batch_set_key: BatchSetKey2d,
    /// What the batched entities have in common.
    pub bin_key: BinKey2d,
    /// The entity data is fetched from, render-world and main-world.
    pub representative_entity: (Entity, MainEntity),
    /// The instances drawn.
    pub batch_range: BatchRange,
    pub extra_index: PhaseItemExtraIndex,
}

impl Opaque2d {
    pub fn new(
        batch_set_key: BatchSetKey2d,
        bin_key: BinKey2d,
        representative_entity: (Entity, MainEntity),
        batch_range: BatchRange,
        extra_index: PhaseItemExtraIndex,
    ) -> (r: Self)
        ensures
            r == (Opaque2d { batch_set_key, bin_key, representative_entity, batch_range, extra_index }),
    {
        Opaque2d { batch_set_key, bin_key, representative_entity, batch_range, extra_index }
    }

    /// The item for one draw of a binned phase.
    pub fn from_batch(batch: &BinnedBatch) -> (r: Self)
        ensures
            r == (Opaque2d {
                batch_set_key: batch.batch_set_key,
                bin_key: batch.bin_key,
                representative_entity: (batch.representative_entity, batch.main_entity),
                batch_range: batch.batch_range,
                extra_index: PhaseItemExtraIndex::Unused,
            }),
    {
        Opaque2d {
            batch_set_key: batch.batch_set_key,
            bin_key: batch.bin_key,
            representative_entity: (batch.representative_entity, batch.main_entity),
            batch_range: batch.batch_range,
            extra_index: PhaseItemExtraIndex::Unused,
        }
    }

    pub fn entity(&self) -> (r: Entity)
        ensures
            r == self.representative_entity.0,
    {
        self.representative_entity.0
    }

    pub fn main_entity(&self) -> (r: MainEntity)
        ensures
            r == self.representative_entity.1,
    {
        self.representative_entity.1
    }

    pub fn draw_function(&self) -> (r: DrawFunctionId)
        ensures
            r == self.bin_key.draw_function,
    {
        self.bin_key.draw_function
    }

    pub fn batch_range(&self) -> (r: BatchRange)
        ensures
            r == self.batch_range,
    {
        self.batch_range
    }

    pub fn extra_index(&self) -> (r: PhaseItemExtraIndex)
        ensures
            r == self.extra_index,
    {
        self.extra_index
    }

    pub fn cached_pipeline(&self) -> (r: CachedRenderPipelineId)
        ensures
            r == self.bin_key.pipeline,
    {
        self.bin_key.pipeline
    }
}

/// An alpha-masked 2D item: one draw of the alpha-mask binned phase.
#[derive(Clone, Copy, Debug)]
pub struct AlphaMask2d {
    /// Which bins could be multi-drawn together.
    pub batch_set_key: BatchSetKey2d,
    /// What the batched entities have in common.
    pub bin_key: BinKey2d,
    /// The entity data is fetched from, render-world and main-world.
    pub representative_entity: (Entity, MainEntity),
    /// The instances drawn.
    pub batch_range: BatchRange,
    pub extra_index: PhaseItemExtraIndex,
}

impl AlphaMask2d {
    pub fn new(
        batch_set_key: BatchSetKey2d,
        bin_key: BinKey2d,
        representative_entity: (Entity, MainEntity),
        batch_range: BatchRange,
        extra_index: PhaseItemExtraIndex,
    ) -> (r: Self)
        ensures
            r == (AlphaMask2d { batch_set_key, bin_key, representative_entity, batch_range, extra_index }),
    {
        AlphaMask2d { batch_set_key, bin_key, representative_entity, batch_range, extra_index }
    }

    /// The item for one draw of a binned phase.
    pub fn from_batch(batch: &BinnedBatch) -> (r: Self)
        ensures
            r == (AlphaMask2d {
                batch_set_key: batch.batch_set_key,
                bin_key: batch.bin_key,
                representative_entity: (batch.representative_entity, batch.main_entity),
                batch_range: batch.batch_range,
                extra_index: PhaseItemExtraIndex::Unused,
            }),
    {
        AlphaMask2d {
            batch_set_key: batch.batch_set_key,
            bin_key: batch.bin_key,
            representative_entity: (batch.representative_entity, batch.main_entity),
            batch_range: batch.batch_range,
            extra_index: PhaseItemExtraIndex::Unused,
        }
    }

    pub fn entity(&self) -> (r: Entity)
        ensures
            r == self.representative_entity.0,
    {
        self.representative_entity.0
    }

    pub fn main_entity(&self) -> (r: MainEntity)
        ensures
            r == self.representative_entity.1,
    {
        self.representative_entity.1
    }

    pub fn draw_function(&self) -> (r: DrawFunctionId)
        ensures
            r == self.bin_key.draw_function,
    {
        self.bin_key.draw_function
    }

    pub fn batch_range(&self) -> (r: BatchRange)
        ensures
            r == self.batch_range,
    {
        self.batch_range
    }

    pub fn extra_index(&self) -> (r: PhaseItemExtraIndex)
        ensures
            r == self.extra_index,
    {
        self.extra_index
    }

    pub fn cached_pipeline(&self) -> (r: CachedRenderPipelineId)
        ensures
            r == self.bin_key.pipeline,
    {
        self.bin_key.pipeline
    }
}

/// Whether sorted item `x` joins the draw headed by `h`: both carry the
/// same batch data, pipeline and draw function, and `x`'s instances start
/// where `h`'s end. Items without batch data never join.
pub open spec fn joins(h: (Transparent2d, Option<u64>), x: (Transparent2d, Option<u64>)) -> bool {
    &&& x.1 is Some
    &&& h.1 == x.1
    &&& h.0.pipeline == x.0.pipeline
    &&& h.0.draw_function == x.0.draw_function
    &&& h.0.batch_range.end == x.0.batch_range.start
}

/// The draws of a sorted phase, each item paired with its batch data:
/// every item joins the draw before it where it can, else opens a draw.
/// Items are never reordered.
pub open spec fn sorted_batches(s: Seq<(Transparent2d, Option<u64>)>) -> Seq<(Transparent2d, Option<u64>)>
    decreases s.len(),
{
    if s.len() == 0 {
        Seq::empty()
    } else {
        let prev = sorted_batches(s.drop_last());
        let x = s.last();
        if prev.len() > 0 && joins(prev.last(), x) {
            let h = prev.last();
            prev.update(
                prev.len() - 1,
                (Transparent2d { batch_range: BatchRange { start: h.0.batch_range.start, end: x.0.batch_range.end }, ..h.0 }, h.1),
            )
        } else {
            prev.push(x)
        }
    }
}

impl SortedRenderPhase {
    /// Merges runs of adjacent items into single instanced draws, growing
    /// the first item's instance range; `batch_data[i]` is what must match
    /// for item `i` to share a draw (its mesh and material), `None` when
    /// it cannot be batched.
    pub fn merge_batches(&mut self, batch_data: &Vec<Option<u64>>)
        requires
            batch_data@.len() == old(self).items@.len(),
        ensures
            final(self).items@ == sorted_batches(old(self).items@.zip_with(batch_data@)).map_values(
                |p: (Transparent2d, Option<u64>)| p.0,
            ),
    {
        let ghost input = self.items@.zip_with(batch_data@);
        let mut out: Vec<Transparent2d> = Vec::new();
        let mut heads: Vec<Option<u64>> = Vec::new();
        let mut i: usize = 0;
        while i < self.items.len()
            invariant
                i <= self.items@.len(),
                self.items@ == old(self).items@,
                batch_data@.len() == self.items@.len(),
                input == self.items@.zip_with(batch_data@),
                out@.len() == heads@.len(),
                out@.zip_with(heads@) == sorted_batches(input.subrange(0, i as int)),
            decreases self.items@.len() - i,
        {
            let x = self.items[i];
            let d = batch_data[i];
            let n = out.len();
            let ghost prev = out@.zip_with(heads@);
            proof {
                assert(input.subrange(0, i + 1).drop_last() =~= input.subrange(0, i as int));
                assert(input.subrange(0, i + 1).last() == (x, d));
                if n > 0 {
                    assert(prev.last() == (out@[n - 1], heads@[n - 1]));
                }
            }
            if n > 0 && d.is_some() && heads[n - 1] == d && out[n - 1].pipeline == x.pipeline
                && out[n - 1].draw_function == x.draw_function && out[n - 1].batch_range.end
                == x.batch_range.start {
                let h = out[n - 1];
                out.set(n - 1, Transparent2d { batch_range: BatchRange { start: h.batch_range.start, end: x.batch_range.end }, ..h });
                proof {
                    assert(out@.zip_with(heads@) =~= sorted_batches(input.subrange(0, i + 1)));
                }
            } else {
                out.push(x);
                heads.push(d);
                proof {
                    assert(out@.zip_with(heads@) =~= sorted_batches(input.subrange(0, i + 1)));
                }
            }
            i = i + 1;
        }
        proof {
            assert(input.subrange(0, i as int) =~= input);
            assert(out@ =~= out@.zip_with(heads@).map_values(|p: (Transparent2d, Option<u64>)| p.0));
        }
        self.items = out;
    }
}

} // verus!
