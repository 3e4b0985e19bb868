//! Decisions of the 2D main passes and of per-view camera and depth setup.

use crate::camera::NormalizedRenderTarget;
use crate::phase::{BinnedRenderPhase, SortedRenderPhase};
use vstd::prelude::*;

verus! {

/// A phase drawn by the 2D main passes.
#[derive(Clone, Copy, PartialEq, Eq, Structural, Debug)]
pub enum Phase2d {
    Opaque,
    AlphaMask,
    Transparent,
}

/// What a main pass does for one view.
pub struct PassPlan {
    /// Whether the render pass is opened (and the camera viewport set).
    pub begin_pass: bool,
    /// The phases replayed into the pass, in order.
    pub phases: Vec<Phase2d>,
}

/// The opaque 2D main pass of a view: nothing when the view lacks either
/// phase or both are empty; else one render pass in which the opaque phase
/// and then the alpha-mask phase are replayed, each only if it has items.
pub fn main_opaque_pass_2d(opaque_phase: Option<&BinnedRenderPhase>, alpha_mask_phase: Option<&BinnedRenderPhase>) -> (r:
    PassPlan)
    ensures
        match (opaque_phase, alpha_mask_phase) {
            (Some(o), Some(a)) => {
                &&& r.begin_pass == (o.view().len() > 0 || a.view().len() > 0)
                &&& r.phases@ == (if o.view().len() > 0 {
                    seq![Phase2d::Opaque]
                } else {
                    Seq::empty()
                }) + (if a.view().len() > 0 {
                    seq![Phase2d::AlphaMask]
                } else {
                    Seq::empty()
                })
            },
            _ => !r.begin_pass && r.phases@.len() == 0,
        },
{
    let mut phases: Vec<Phase2d> = Vec::new();
    match (opaque_phase, alpha_mask_phase) {
        (Some(o), Some(a)) => {
            let o_empty = o.is_empty();
            let a_empty = a.is_empty();
            if o_empty && a_empty {
                return PassPlan { begin_pass: false, phases };
            }
            if !o_empty {
                phases.push(Phase2d::Opaque);
            }
            if !a_empty {
                phases.push(Phase2d::AlphaMask);
            }
            proof {
                let first: Seq<Phase2d> = if !o_empty {
                    seq![Phase2d::Opaque]
                } else {
                    Seq::empty()
                };
                let second: Seq<Phase2d> = if !a_empty {
                    seq![Phase2d::AlphaMask]
                } else {
                    Seq::empty()
                };
                assert(phases@ =~= first + second);
            }
            PassPlan { begin_pass: true, phases }
        },
        _ => PassPlan { begin_pass: false, phases },
    }
}

/// The transparent 2D main pass of a view: nothing when the view has no
/// transparent phase; else one render pass, which loads the depth written
/// by the opaque pass, and in which the phase is replayed if it has items.
pub fn main_transparent_pass_2d(transparent_phase: Option<&SortedRenderPhase>) -> (r: PassPlan)
    ensures
        match transparent_phase {
            Some(t) => r.begin_pass && r.phases@ == (if t.items@.len() > 0 {
                seq![Phase2d::Transparent]
            } else {
                Seq::empty()
            }),
            None => !r.begin_pass && r.phases@.len() == 0,
        },
{
    let mut phases: Vec<Phase2d> = Vec::new();
    match transparent_phase {
        Some(t) => {
            if !t.is_empty() {
                phases.push(Phase2d::Transparent);
                assert(phases@ =~= seq![Phase2d::Transparent]);
            }
            PassPlan { begin_pass: true, phases }
        },
        None => PassPlan { begin_pass: false, phases },
    }
}

/// What extraction does with a camera's render-world data this frame.
#[derive(Clone, Copy, PartialEq, Eq, Structural, Debug)]
pub enum CameraExtraction {
    /// Remove the extracted camera and view data.
    Remove,
    /// Leave whatever was extracted before.
    Unchanged,
    /// Extract the camera and its view afresh.
    Extract,
}

/// Inactive cameras and cameras whose target has a zero side lose their
/// extracted data; cameras whose viewport or target size is not known yet
/// keep what they had; the others are extracted.
pub fn camera_extraction(is_active: bool, sizes_known: bool, target_size: (u32, u32)) -> (r: CameraExtraction)
    ensures
        r == (if !is_active {
            CameraExtraction::Remove
        } else if !sizes_known {
            CameraExtraction::Unchanged
        } else if target_size.0 == 0 || target_size.1 == 0 {
            CameraExtraction::Remove
        } else {
            CameraExtraction::Extract
        }),
{
    if !is_active {
        CameraExtraction::Remove
    } else if !sizes_known {
        CameraExtraction::Unchanged
    } else if target_size.0 == 0 || target_size.1 == 0 {
        CameraExtraction::Remove
    } else {
        CameraExtraction::Extract
    }
}

/// Whether an extracted camera draws without indirect parameters: when it
/// asks to, or when the device cannot cull on the GPU.
pub fn no_indirect_drawing(requested: bool, gpu_culling_supported: bool) -> (r: bool)
    ensures
        r == (requested || !gpu_culling_supported),
{
    requested || !gpu_culling_supported
}

/// A 2D view as the depth texture step sees it.
#[derive(Clone, Copy, Debug)]
pub struct DepthView {
    /// Whether the view has both its opaque and transparent phases.
    pub has_phases: bool,
    pub target: Option<NormalizedRenderTarget>,
    /// Physical size of the target, once known.
    pub physical_target_size: Option<(u32, u32)>,
    pub msaa_samples: u32,
}

pub open spec fn depth_eligible(v: DepthView) -> bool {
    v.has_phases && v.physical_target_size is Some
}

/// Index of the first eligible view before `k` with the same target as
/// view `i`, if any.
pub open spec fn first_same_target_upto(views: Seq<DepthView>, i: int, k: int) -> Option<int>
    decreases k,
{
    if k <= 0 {
        None
    } else {
        match first_same_target_upto(views, i, k - 1) {
            Some(j) => Some(j),
            None => if depth_eligible(views[k - 1]) && views[k - 1].target == views[i].target {
                Some(k - 1)
            } else {
                None
            },
        }
    }
}

/// Index of the first eligible view before view `i` with its target.
pub open spec fn first_same_target(views: Seq<DepthView>, i: int) -> Option<int> {
    first_same_target_upto(views, i, i)
}

proof fn lemma_upto_stable(views: Seq<DepthView>, i: int, k: int, m: int)
    requires
        0 <= k <= m,
        first_same_target_upto(views, i, k) is Some,
    ensures
        first_same_target_upto(views, i, m) == first_same_target_upto(views, i, k),
    decreases m - k,
{
    if m > k {
        lemma_upto_stable(views, i, k, m - 1);
    }
}

/// Depth textures for the 2D views: each eligible view (with its phases and
/// a known target size) uses the texture of the first eligible view with
/// the same target, made from that view's size and sample count; the
/// others get none. Returns, per view, the index of the view whose texture
/// it uses.
pub fn prepare_core_2d_depth_textures(views: &Vec<DepthView>) -> (r: Vec<Option<usize>>)
    ensures
        r@.len() == views@.len(),
        forall|i: int|
            0 <= i < views@.len() ==> #[trigger] r@[i] == if !depth_eligible(views@[i]) {
                None
            } else {
                match first_same_target(views@, i) {
                    Some(j) => Some(j as usize),
                    None => Some(i as usize),
                }
            },
{
    let mut r: Vec<Option<usize>> = Vec::new();
    let mut i: usize = 0;
    while i < views.len()
        invariant
            i <= views@.len(),
            r@.len() == i,
            forall|a: int|
                0 <= a < i ==> #[trigger] r@[a] == if !depth_eligible(views@[a]) {
                    None
                } else {
                    match first_same_target(views@, a) {
                        Some(j) => Some(j as usize),
                        None => Some(a as usize),
                    }
                },
        decreases views@.len() - i,
    {
        let v = views[i];
        if !v.has_phases || v.physical_target_size.is_none() {
            r.push(None);
        } else {
            let mut j: usize = 0;
            let mut found: Option<usize> = None;
            while j < i && found.is_none()
                invariant
                    j <= i < views@.len(),
                    v == views@[i as int],
                    found.is_none() ==> first_same_target_upto(views@, i as int, j as int) is None,
                    found matches Some(f) ==> first_same_target_upto(views@, i as int, j as int) == Some(
                        f as int,
                    ),
                decreases i - j,
            {
                let w = views[j];
                if w.has_phases && w.physical_target_size.is_some() && w.target == v.target {
                    found = Some(j);
                }
                j = j + 1;
            }
            proof {
                if found.is_some() {
                    lemma_upto_stable(views@, i as int, j as int, i as int);
                }
            }
            match found {
                Some(f) => r.push(Some(f)),
                None => r.push(Some(i)),
            }
        }
        i = i + 1;
    }
    r
}

} // verus!
