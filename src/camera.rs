//! Camera render order and render-target bookkeeping.

use crate::phase::Entity;
use vstd::prelude::*;

verus! {

/// Where a camera renders, with window and image handles resolved.
#[derive(Clone, Copy, PartialEq, Eq, Structural, Debug)]
pub enum NormalizedRenderTarget {
    /// A window, by its entity bits.
    Window(u64),
    /// An image, by its asset id, with the order key of its scale factor.
    Image { handle: u64, scale_factor: u32 },
    /// A manually managed texture view, by its handle.
    TextureView(u32),
    /// No target; only a size.
    Headless { width: u32, height: u32 },
}

/// A camera as the camera sort sees it.
#[derive(Clone, Copy, PartialEq, Eq, Structural, Debug)]
pub struct SortedCamera {
    pub entity: Entity,
    pub order: i64,
    pub target: Option<NormalizedRenderTarget>,
    pub hdr: bool,
}

/// The sort key of a camera: its order, then its target (cameras without a
/// target first, then windows, images, texture views and headless
/// targets), as a tuple compared lexicographically.
pub type CameraKey = (i64, u8, u64, u64);

pub open spec fn spec_camera_key(c: SortedCamera) -> CameraKey {
    match c.target {
        None => (c.order, 0, 0, 0),
        Some(NormalizedRenderTarget::Window(e)) => (c.order, 1, e, 0),
        Some(NormalizedRenderTarget::Image { handle, scale_factor }) => (c.order, 2, handle, scale_factor as u64),
        Some(NormalizedRenderTarget::TextureView(t)) => (c.order, 3, t as u64, 0),
        Some(NormalizedRenderTarget::Headless { width, height }) => (c.order, 4, width as u64, height as u64),
    }
}

pub fn camera_key(c: &SortedCamera) -> (r: CameraKey)
    ensures
        r == spec_camera_key(*c),
{
    match c.target {
        None => (c.order, 0, 0, 0),
        Some(NormalizedRenderTarget::Window(e)) => (c.order, 1, e, 0),
        Some(NormalizedRenderTarget::Image { handle, scale_factor }) => (c.order, 2, handle, scale_factor as u64),
        Some(NormalizedRenderTarget::TextureView(t)) => (c.order, 3, t as u64, 0),
        Some(NormalizedRenderTarget::Headless { width, height }) => (c.order, 4, width as u64, height as u64),
    }
}

pub open spec fn key_le(a: CameraKey, b: CameraKey) -> bool {
    a.0 < b.0 || (a.0 == b.0 && (a.1 < b.1 || (a.1 == b.1 && (a.2 < b.2 || (a.2 == b.2 && a.3 <= b.3)))))
}

fn key_le_exec(a: CameraKey, b: CameraKey) -> (r: bool)
    ensures
        r == key_le(a, b),
{
    if a.0 != b.0 {
        return a.0 < b.0;
    }
    if a.1 != b.1 {
        return a.1 < b.1;
    }
    if a.2 != b.2 {
        return a.2 < b.2;
    }
    a.3 <= b.3
}

proof fn lemma_key_le_order(a: CameraKey, b: CameraKey, c: CameraKey)
    ensures
        key_le(a, a),
        key_le(a, b) && key_le(b, c) ==> key_le(a, c),
        key_le(a, b) || key_le(b, a),
        key_le(a, b) && key_le(b, a) ==> a == b,
{
}

/// Ascending by camera key.
pub open spec fn cameras_sorted(s: Seq<SortedCamera>) -> bool {
    forall|i: int, j: int| 0 <= i < j < s.len() ==> key_le(spec_camera_key(s[i]), spec_camera_key(s[j]))
}

/// The cameras whose key is `k`, in their order in `s`.
pub open spec fn cameras_with_key(s: Seq<SortedCamera>, k: CameraKey) -> Seq<SortedCamera> {
    s.filter(|c: SortedCamera| spec_camera_key(c) == k)
}

/// `out` is `cams` sorted stably by camera key.
pub open spec fn cameras_stably_sorted(cams: Seq<SortedCamera>, out: Seq<SortedCamera>) -> bool {
    &&& cameras_sorted(out)
    &&& forall|k: CameraKey| #[trigger] cameras_with_key(out, k) == cameras_with_key(cams, k)
}

proof fn lemma_cwk_push(s: Seq<SortedCamera>, x: SortedCamera, k: CameraKey)
    ensures
        cameras_with_key(s.push(x), k) == if spec_camera_key(x) == k {
            cameras_with_key(s, k).push(x)
        } else {
            cameras_with_key(s, k)
        },
{
    s.lemma_filter_push(x, |c: SortedCamera| spec_camera_key(c) == k);
}

proof fn lemma_cwk_add(a: Seq<SortedCamera>, b: Seq<SortedCamera>, k: CameraKey)
    ensures
        cameras_with_key(a + b, k) == cameras_with_key(a, k) + cameras_with_key(b, k),
{
    Seq::filter_distributes_over_add(a, b, |c: SortedCamera| spec_camera_key(c) == k);
}

proof fn lemma_cwk_none(s: Seq<SortedCamera>, k: CameraKey)
    requires
        forall|i: int| 0 <= i < s.len() ==> spec_camera_key(#[trigger] s[i]) != k,
    ensures
        cameras_with_key(s, k).len() == 0,
    decreases s.len(),
{
    if s.len() > 0 {
        let d = s.drop_last();
        assert forall|i: int| 0 <= i < d.len() implies spec_camera_key(#[trigger] d[i]) != k by {
            assert(d[i] == s[i]);
        }
        lemma_cwk_none(d, k);
        assert(s =~= d.push(s.last()));
        lemma_cwk_push(d, s.last(), k);
    }
}

/// Orders cameras by order, then target, keeping the given order among
/// cameras with equal order and target.
pub fn sort_cameras_by_key(cameras: &Vec<SortedCamera>) -> (r: Vec<SortedCamera>)
    ensures
        cameras_stably_sorted(cameras@, r@),
{
    let mut out: Vec<SortedCamera> = Vec::new();
    let mut i: usize = 0;
    assert forall|k: CameraKey| #[trigger] cameras_with_key(out@, k) == cameras_with_key(
        cameras@.subrange(0, 0),
        k,
    ) by {
        assert(cameras@.subrange(0, 0) =~= out@);
    }
    while i < cameras.len()
        invariant
            i <= cameras@.len(),
            cameras_stably_sorted(cameras@.subrange(0, i as int), out@),
        decreases cameras@.len() - i,
    {
        let x = cameras[i];
        let kx = camera_key(&x);
        let mut p: usize = out.len();
        while p > 0 && !key_le_exec(camera_key(&out[p - 1]), kx)
            invariant
                p <= out@.len(),
                forall|j: int| p <= j < out@.len() ==> !key_le(spec_camera_key(out@[j]), kx),
            decreases p,
        {
            p = p - 1;
        }
        let ghost before = out@;
        out.insert(p, x);
        proof {
            let c0 = cameras@.subrange(0, i as int);
            let c1 = cameras@.subrange(0, i + 1);
            assert(c1 =~= c0.push(x));
            let left = before.subrange(0, p as int);
            let right = before.subrange(p as int, before.len() as int);
            assert(before =~= left + right);
            assert(out@ =~= left + seq![x] + right);
            // sortedness
            assert forall|a: int, b: int| 0 <= a < b < out@.len() implies key_le(
                spec_camera_key(out@[a]),
                spec_camera_key(out@[b]),
            ) by {
                if a < p && b < p {
                    assert(out@[a] == before[a] && out@[b] == before[b]);
                } else if a < p && b == p {
                    assert(out@[a] == before[a]);
                    assert(key_le(spec_camera_key(before[p - 1]), kx));
                    if a < p - 1 {
                        lemma_key_le_order(spec_camera_key(before[a]), spec_camera_key(before[p - 1]), kx);
                    }
                } else if a < p && b > p {
                    assert(out@[a] == before[a] && out@[b] == before[b - 1]);
                } else if a == p {
                    assert(out@[b] == before[b - 1]);
                    lemma_key_le_order(spec_camera_key(before[b - 1]), kx, kx);
                } else {
                    assert(out@[a] == before[a - 1] && out@[b] == before[b - 1]);
                }
            }
            // per-key contents
            assert forall|k: CameraKey| #[trigger] cameras_with_key(out@, k) == cameras_with_key(c1, k) by {
                lemma_cwk_push(c0, x, k);
                lemma_cwk_add(left + seq![x], right, k);
                lemma_cwk_add(left, seq![x], k);
                lemma_cwk_add(left, right, k);
                assert(seq![x] =~= Seq::<SortedCamera>::empty().push(x));
                lemma_cwk_push(Seq::<SortedCamera>::empty(), x, k);
                assert(cameras_with_key(Seq::<SortedCamera>::empty(), k) =~= Seq::<SortedCamera>::empty());
                if spec_camera_key(x) == k {
                    assert forall|j: int| 0 <= j < right.len() implies spec_camera_key(#[trigger] right[j]) != k by {
                        assert(right[j] == before[p + j]);
                    }
                    lemma_cwk_none(right, k);
                    assert(cameras_with_key(right, k) =~= Seq::<SortedCamera>::empty());
                    assert(cameras_with_key(out@, k) =~= cameras_with_key(left, k).push(x));
                    assert(cameras_with_key(before, k) =~= cameras_with_key(left, k));
                } else {
                    assert(cameras_with_key(out@, k) =~= cameras_with_key(left, k) + cameras_with_key(right, k));
                }
            }
        }
        i = i + 1;
    }
    assert(cameras@.subrange(0, i as int) =~= cameras@);
    out
}

/// Cameras in render order.
pub struct SortedCameras(pub Vec<SortedCamera>);

/// How many cameras before position `i` of `s` render to the same target
/// with the same HDR setting as camera `i`.
pub open spec fn same_target_before(s: Seq<SortedCamera>, i: int) -> nat {
    s.subrange(0, i).filter(|c: SortedCamera| c.target == s[i].target && c.hdr == s[i].hdr).len()
}

/// The index of each sorted camera among the cameras sharing its target
/// and HDR setting; `None` for cameras without a target.
pub open spec fn spec_target_index(s: Seq<SortedCamera>, i: int) -> Option<usize> {
    if s[i].target is Some {
        Some(same_target_before(s, i) as usize)
    } else {
        None
    }
}

/// What the camera sort produces.
pub struct CameraSort {
    pub sorted: SortedCameras,
    /// For each sorted camera, its index among the cameras that share its
    /// target and HDR setting.
    pub index_for_target: Vec<Option<usize>>,
    /// Positions in the sorted list whose camera has the same order and
    /// target as the one before it: their relative order is ambiguous.
    pub ambiguities: Vec<usize>,
}

/// Sorts cameras by order, then target, keeping the given order among equal
/// ones; numbers the cameras of each target and HDR setting in that order;
/// and lists the cameras whose order and target repeat those of the camera
/// before.
pub fn sort_cameras(cameras: &Vec<SortedCamera>) -> (r: CameraSort)
    ensures
        cameras_stably_sorted(cameras@, r.sorted.0@),
        r.index_for_target@.len() == r.sorted.0@.len(),
        forall|i: int| 0 <= i < r.sorted.0@.len() ==> r.index_for_target@[i] == spec_target_index(r.sorted.0@, i),
        forall|i: int| 0 <= i < r.ambiguities@.len() ==> ({
            let p = #[trigger] r.ambiguities@[i] as int;
            0 < p < r.sorted.0@.len() && spec_camera_key(r.sorted.0@[p]) == spec_camera_key(r.sorted.0@[p - 1])
        }),
        forall|p: int|
            0 < p < r.sorted.0@.len() && spec_camera_key(#[trigger] r.sorted.0@[p]) == spec_camera_key(
                r.sorted.0@[p - 1],
            ) ==> r.ambiguities@.contains(p as usize),
{
    let sorted = sort_cameras_by_key(cameras);
    let ghost s = sorted@;
    let mut index_for_target: Vec<Option<usize>> = Vec::new();
    let mut ambiguities: Vec<usize> = Vec::new();
    let mut i: usize = 0;
    while i < sorted.len()
        invariant
            i <= s.len(),
            s == sorted@,
            index_for_target@.len() == i,
            forall|a: int| 0 <= a < i ==> index_for_target@[a] == spec_target_index(s, a),
            forall|a: int| 0 <= a < ambiguities@.len() ==> ({
                let p = #[trigger] ambiguities@[a] as int;
                0 < p < i && spec_camera_key(s[p]) == spec_camera_key(s[p - 1])
            }),
            forall|p: int| 0 < p < i && spec_camera_key(#[trigger] s[p]) == spec_camera_key(s[p - 1]) ==> ambiguities@.contains(
                p as usize,
            ),
        decreases s.len() - i,
    {
        let c = sorted[i];
        let ghost before_amb = ambiguities@;
        if i > 0 {
            let a = camera_key(&sorted[i - 1]);
            let b = camera_key(&c);
            proof {
                lemma_key_le_order(a, b, a);
            }
            if key_le_exec(a, b) && key_le_exec(b, a) {
                ambiguities.push(i);
            }
        }
        proof {
            assert forall|p: int| 0 < p < i + 1 && spec_camera_key(#[trigger] s[p]) == spec_camera_key(s[p - 1]) implies ambiguities@.contains(
                p as usize,
            ) by {
                if p < i {
                    let w = choose|w: int| 0 <= w < before_amb.len() && before_amb[w] == p as usize;
                    assert(ambiguities@[w] == p as usize);
                } else {
                    assert(ambiguities@[ambiguities@.len() - 1] == i);
                }
            }
        }
        let idx = if c.target.is_some() {
            let mut count: usize = 0;
            let mut j: usize = 0;
            while j < i
                invariant
                    j <= i,
                    i < s.len(),
                    s == sorted@,
                    c == s[i as int],
                    count == s.subrange(0, j as int).filter(|x: SortedCamera| x.target == s[i as int].target && x.hdr == s[i as int].hdr).len(),
                    count <= j,
                decreases i - j,
            {
                let d = sorted[j];
                proof {
                    assert(s.subrange(0, j + 1) =~= s.subrange(0, j as int).push(d));
                    s.subrange(0, j as int).lemma_filter_push(d, |x: SortedCamera| x.target == s[i as int].target && x.hdr == s[i as int].hdr);
                }
                if d.target == c.target && d.hdr == c.hdr {
                    count = count + 1;
                }
                j = j + 1;
            }
            Some(count)
        } else {
            None
        };
        index_for_target.push(idx);
        i = i + 1;
    }
    CameraSort { sorted: SortedCameras(sorted), index_for_target, ambiguities }
}

/// Whether a render target was touched by this frame's window and image
/// changes: windows and images by membership, texture views always,
/// headless targets never.
pub open spec fn spec_target_changed(target: NormalizedRenderTarget, changed_windows: Seq<u64>, changed_images: Seq<u64>) -> bool {
    match target {
        NormalizedRenderTarget::Window(w) => changed_windows.contains(w),
        NormalizedRenderTarget::Image { handle, .. } => changed_images.contains(handle),
        NormalizedRenderTarget::TextureView(_) => true,
        NormalizedRenderTarget::Headless { .. } => false,
    }
}

fn contains_u64(v: &Vec<u64>, x: u64) -> (r: bool)
    ensures
        r == v@.contains(x),
{
    let mut i: usize = 0;
    while i < v.len()
        invariant
            i <= v@.len(),
            forall|j: int| 0 <= j < i ==> v@[j] != x,
        decreases v@.len() - i,
    {
        if v[i] == x {
            return true;
        }
        i = i + 1;
    }
    false
}

impl NormalizedRenderTarget {
    /// Whether this target is among the changed windows or images.
    pub fn is_changed(&self, changed_window_ids: &Vec<u64>, changed_image_handles: &Vec<u64>) -> (r: bool)
        ensures
            r == spec_target_changed(*self, changed_window_ids@, changed_image_handles@),
    {
        match self {
            NormalizedRenderTarget::Window(w) => contains_u64(changed_window_ids, *w),
            NormalizedRenderTarget::Image { handle, .. } => contains_u64(changed_image_handles, *handle),
            NormalizedRenderTarget::TextureView(_) => true,
            NormalizedRenderTarget::Headless { .. } => false,
        }
    }
}

} // verus!
