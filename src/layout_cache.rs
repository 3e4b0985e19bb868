//! Content-addressed caches of bind group layouts and pipeline layouts.

use vstd::prelude::*;

verus! {

/// One binding slot of a bind group layout, as plain values.
#[derive(Clone, Copy, PartialEq, Eq, Structural, Debug)]
pub struct BindGroupLayoutEntry {
    /// Binding index inside the group.
    pub binding: u32,
    /// Shader stages that see the binding, as stage bits.
    pub visibility: u32,
    /// Kind of resource bound, as a caller-defined code.
    pub ty: u32,
    /// Array length; zero for a single resource.
    pub count: u32,
}

/// A bind group layout request. The label is for diagnostics only and
/// takes no part in deduplication.
#[derive(Debug)]
pub struct BindGroupLayoutDescriptor {
    pub label: Option<String>,
    pub entries: Vec<BindGroupLayoutEntry>,
}

/// A push constant range of a pipeline layout.
#[derive(Clone, Copy, PartialEq, Eq, Structural, Debug)]
pub struct PushConstantRange {
    pub stages: u32,
    pub start: u32,
    pub end: u32,
}

/// Identity of a cached bind group layout object.
#[derive(Clone, Copy, PartialEq, Eq, Structural, Debug)]
pub struct BindGroupLayoutId {
    pub id: usize,
}

/// Identity of a cached pipeline layout object.
#[derive(Clone, Copy, PartialEq, Eq, Structural, Debug)]
pub struct LayoutId {
    pub id: usize,
}

/// The content key of a pipeline layout.
pub struct LayoutKey {
    pub bind_group_layouts: Vec<BindGroupLayoutId>,
    pub push_constant_ranges: Vec<PushConstantRange>,
}

impl LayoutKey {
    pub open spec fn view(&self) -> (Seq<BindGroupLayoutId>, Seq<PushConstantRange>) {
        (self.bind_group_layouts@, self.push_constant_ranges@)
    }
}

/// Position of `k` in `keys`, or `keys.len()` when absent.
pub open spec fn index_of<K>(keys: Seq<K>, k: K) -> nat
    decreases keys.len(),
{
    if keys.len() == 0 {
        0
    } else if keys.last() == k && !keys.drop_last().contains(k) {
        (keys.len() - 1) as nat
    } else if keys.drop_last().contains(k) {
        index_of(keys.drop_last(), k)
    } else {
        keys.len()
    }
}

/// Content-addressed lookup with lazy insertion: the key's slot if it is
/// cached, else a new slot at the end.
pub open spec fn cache_get<K>(keys: Seq<K>, k: K) -> (Seq<K>, nat) {
    if keys.contains(k) {
        (keys, index_of(keys, k))
    } else {
        (keys.push(k), keys.len())
    }
}

/// No key is cached twice.
pub open spec fn keys_unique<K>(keys: Seq<K>) -> bool {
    forall|i: int, j: int| 0 <= i < keys.len() && 0 <= j < keys.len() && i != j ==> keys[i] != keys[j]
}

pub proof fn lemma_index_of<K>(keys: Seq<K>, k: K)
    requires
        keys_unique(keys),
    ensures
        keys.contains(k) ==> index_of(keys, k) < keys.len() && keys[index_of(keys, k) as int] == k,
        !keys.contains(k) ==> index_of(keys, k) == keys.len(),
        forall|i: int| 0 <= i < keys.len() && keys[i] == k ==> index_of(keys, k) == i,
    decreases keys.len(),
{
    if keys.len() > 0 {
        let d = keys.drop_last();
        assert(keys_unique(d));
        lemma_index_of(d, k);
        if keys.drop_last().contains(k) {
            let w = choose|w: int| 0 <= w < d.len() && d[w] == k;
            assert(keys[w] == k);
        } else if keys.last() != k {
            assert forall|i: int| 0 <= i < keys.len() implies keys[i] != k by {
                if i < keys.len() - 1 {
                    assert(d[i] == keys[i]);
                }
            }
        }
    }
}

proof fn lemma_cache_get_unique<K>(keys: Seq<K>, k: K)
    requires
        keys_unique(keys),
    ensures
        keys_unique(cache_get(keys, k).0),
        cache_get(keys, k).1 < cache_get(keys, k).0.len(),
        cache_get(keys, k).0[cache_get(keys, k).1 as int] == k,
{
    lemma_index_of(keys, k);
    let n = keys.push(k);
    if !keys.contains(k) {
        assert forall|i: int, j: int| 0 <= i < n.len() && 0 <= j < n.len() && i != j implies n[i] != n[j] by {
            if i < keys.len() && j < keys.len() {
            } else if i < keys.len() {
                assert(n[i] == keys[i]);
            } else {
                assert(n[j] == keys[j]);
            }
        }
    }
}

fn bind_group_entries_eq(a: &Vec<BindGroupLayoutEntry>, b: &Vec<BindGroupLayoutEntry>) -> (r: bool)
    ensures
        r == (a@ == b@),
{
    if a.len() != b.len() {
        return false;
    }
    let mut i: usize = 0;
    while i < a.len()
        invariant
            a@.len() == b@.len(),
            i <= a@.len(),
            forall|j: int| 0 <= j < i ==> a@[j] == b@[j],
        decreases a@.len() - i,
    {
        if a[i] != b[i] {
            return false;
        }
        i = i + 1;
    }
    assert(a@ =~= b@);
    true
}

fn layout_keys_eq(a: &LayoutKey, b: &LayoutKey) -> (r: bool)
    ensures
        r == (a.view() == b.view()),
{
    if a.bind_group_layouts.len() != b.bind_group_layouts.len()
        || a.push_constant_ranges.len() != b.push_constant_ranges.len() {
        return false;
    }
    let mut i: usize = 0;
    while i < a.bind_group_layouts.len()
        invariant
            a.bind_group_layouts@.len() == b.bind_group_layouts@.len(),
            i <= a.bind_group_layouts@.len(),
            forall|j: int| 0 <= j < i ==> a.bind_group_layouts@[j] == b.bind_group_layouts@[j],
        decreases a.bind_group_layouts@.len() - i,
    {
        if a.bind_group_layouts[i] != b.bind_group_layouts[i] {
            return false;
        }
        i = i + 1;
    }
    let mut k: usize = 0;
    while k < a.push_constant_ranges.len()
        invariant
            a.push_constant_ranges@.len() == b.push_constant_ranges@.len(),
            k <= a.push_constant_ranges@.len(),
            forall|j: int| 0 <= j < k ==> a.push_constant_ranges@[j] == b.push_constant_ranges@[j],
        decreases a.push_constant_ranges@.len() - k,
    {
        if a.push_constant_ranges[k] != b.push_constant_ranges[k] {
            return false;
        }
        k = k + 1;
    }
    assert(a.bind_group_layouts@ =~= b.bind_group_layouts@);
    assert(a.push_constant_ranges@ =~= b.push_constant_ranges@);
    true
}

/// Deduplicates bind group layouts by their entries. Slot `i` holds the
/// entries of the layout with id `i`; entries are never evicted.
pub struct BindGroupLayoutCache {
    bgls: Vec<Vec<BindGroupLayoutEntry>>,
}

impl BindGroupLayoutCache {
    /// The cached contents, one entry list per id.
    pub closed spec fn view(&self) -> Seq<Seq<BindGroupLayoutEntry>> {
        self.bgls@.map_values(|e: Vec<BindGroupLayoutEntry>| e@)
    }

    pub open spec fn wf(&self) -> bool {
        keys_unique(self.view())
    }

    pub fn new() -> (r: Self)
        ensures
            r.wf(),
            r.view() == Seq::<Seq<BindGroupLayoutEntry>>::empty(),
    {
        let r = BindGroupLayoutCache { bgls: Vec::new() };
        assert(r.view() =~= Seq::<Seq<BindGroupLayoutEntry>>::empty());
        r
    }

    pub fn len(&self) -> (r: usize)
        ensures
            r == self.view().len(),
    {
        self.bgls.len()
    }

    /// The layout id for the descriptor's entries, and whether the layout is
    /// new, in which case the device object for it is still to be made.
    pub fn get(&mut self, descriptor: &BindGroupLayoutDescriptor) -> (r: (BindGroupLayoutId, bool))
        requires
            old(self).wf(),
        ensures
            final(self).wf(),
            (final(self).view(), r.0.id as nat) == cache_get(old(self).view(), descriptor.entries@),
            r.1 == !old(self).view().contains(descriptor.entries@),
    {
        proof {
            lemma_index_of(self.view(), descriptor.entries@);
            lemma_cache_get_unique(self.view(), descriptor.entries@);
        }
        let mut i: usize = 0;
        while i < self.bgls.len()
            invariant
                i <= self.bgls@.len(),
                self.wf(),
                self.view() == old(self).view(),
                forall|j: int| 0 <= j < i ==> self.view()[j] != descriptor.entries@,
            decreases self.bgls@.len() - i,
        {
            if bind_group_entries_eq(&self.bgls[i], &descriptor.entries) {
                assert(self.view()[i as int] == descriptor.entries@);
                proof {
                    lemma_index_of(self.view(), descriptor.entries@);
                }
                assert(index_of(self.view(), descriptor.entries@) == i);
                return (BindGroupLayoutId { id: i }, false);
            }
            i = i + 1;
        }
        assert(!self.view().contains(descriptor.entries@));
        let entries = descriptor.entries.clone();
        let id = self.bgls.len();
        self.bgls.push(entries);
        proof {
            assert(self.view() =~= old(self).view().push(descriptor.entries@));
        }
        (BindGroupLayoutId { id }, true)
    }
}

/// Deduplicates pipeline layouts by their bind group layouts and push
/// constant ranges. Slot `i` holds the key of the layout with id `i`.
pub struct LayoutCache {
    layouts: Vec<LayoutKey>,
}

impl LayoutCache {
    /// The cached keys, one per id.
    pub closed spec fn view(&self) -> Seq<(Seq<BindGroupLayoutId>, Seq<PushConstantRange>)> {
        self.layouts@.map_values(|k: LayoutKey| k.view())
    }

    pub open spec fn wf(&self) -> bool {
        keys_unique(self.view())
    }

    pub fn new() -> (r: Self)
        ensures
            r.wf(),
            r.view().len() == 0,
    {
        let r = LayoutCache { layouts: Vec::new() };
        assert(r.view() =~= Seq::<(Seq<BindGroupLayoutId>, Seq<PushConstantRange>)>::empty());
        r
    }

    pub fn len(&self) -> (r: usize)
        ensures
            r == self.view().len(),
    {
        self.layouts.len()
    }

    /// The layout id for the key, and whether the layout is new, in which
    /// case the device object for it is still to be made.
    pub fn get(&mut self, key: LayoutKey) -> (r: (LayoutId, bool))
        requires
            old(self).wf(),
        ensures
            final(self).wf(),
            (final(self).view(), r.0.id as nat) == cache_get(old(self).view(), key.view()),
            r.1 == !old(self).view().contains(key.view()),
    {
        proof {
            lemma_index_of(self.view(), key.view());
            lemma_cache_get_unique(self.view(), key.view());
        }
        let mut i: usize = 0;
        while i < self.layouts.len()
            invariant
                i <= self.layouts@.len(),
                self.wf(),
                self.view() == old(self).view(),
                forall|j: int| 0 <= j < i ==> self.view()[j] != key.view(),
            decreases self.layouts@.len() - i,
        {
            if layout_keys_eq(&self.layouts[i], &key) {
                assert(self.view()[i as int] == key.view());
                proof {
                    lemma_index_of(self.view(), key.view());
                }
                assert(index_of(self.view(), key.view()) == i);
                return (LayoutId { id: i }, false);
            }
            i = i + 1;
        }
        assert(!self.view().contains(key.view()));
        let ghost kv = key.view();
        let id = self.layouts.len();
        self.layouts.push(key);
        proof {
            assert(self.view() =~= old(self).view().push(kv));
        }
        (LayoutId { id }, true)
    }
}

/// Requests with equal content get the same cached object: looking up
/// `k1` and then an equal `k2` yields one id and leaves the cache as the
/// first lookup left it.
pub proof fn lemma_cache_deduplicates<K>(keys: Seq<K>, k1: K, k2: K)
    requires
        keys_unique(keys),
        k1 == k2,
    ensures
        cache_get(cache_get(keys, k1).0, k2).1 == cache_get(keys, k1).1,
        cache_get(cache_get(keys, k1).0, k2).0 == cache_get(keys, k1).0,
{
    lemma_cache_get_unique(keys, k1);
    let after = cache_get(keys, k1).0;
    lemma_index_of(after, k2);
    assert(after.contains(k2)) by {
        assert(after[cache_get(keys, k1).1 as int] == k2);
    }
}

/// Two bind group layout descriptors that differ only in their labels get
/// the same layout id.
pub proof fn lemma_bind_group_layout_label_ignored(
    cache: Seq<Seq<BindGroupLayoutEntry>>,
    a: &BindGroupLayoutDescriptor,
    b: &BindGroupLayoutDescriptor,
)
    requires
        keys_unique(cache),
        a.entries@ == b.entries@,
    ensures
        cache_get(cache_get(cache, a.entries@).0, b.entries@).1 == cache_get(cache, a.entries@).1,
{
    lemma_cache_deduplicates(cache, a.entries@, b.entries@);
}

} // verus!
