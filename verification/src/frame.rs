//! Putting a frame on screen: what the outcome means, and how much room the
//! quads of a frame need.

use vstd::arithmetic::power2::*;
use vstd::prelude::*;

verus! {

/// What happened when we tried to put a frame on screen.
#[derive(Clone, Copy, PartialEq, Eq, Debug, Structural)]
pub enum FrameStatus {
    Presented,
    /// Transient: skip this frame, nothing to fix.
    Skipped,
    /// The swapchain is stale; reconfigure the surface and draw again.
    NeedsReconfigure,
}

/// What the surface answers when asked for the next image to draw into.
#[derive(Clone, Copy, PartialEq, Eq, Debug, Structural)]
pub enum SurfaceAnswer {
    Success,
    Suboptimal,
    Timeout,
    Occluded,
    Outdated,
    Lost,
    Validation,
}

/// What becomes of a frame, by what the surface answered. A frame with an image
/// is drawn and presented.
pub fn frame_status(answer: SurfaceAnswer) -> (status: FrameStatus)
    ensures
        status == FrameStatus::Presented <==> answer == SurfaceAnswer::Success || answer
            == SurfaceAnswer::Suboptimal,
        status == FrameStatus::Skipped <==> answer == SurfaceAnswer::Timeout || answer
            == SurfaceAnswer::Occluded,
{
    match answer {
        SurfaceAnswer::Success => FrameStatus::Presented,
        SurfaceAnswer::Suboptimal => FrameStatus::Presented,
        // Nothing to present right now; the next redraw will retry.
        SurfaceAnswer::Timeout => FrameStatus::Skipped,
        SurfaceAnswer::Occluded => FrameStatus::Skipped,
        SurfaceAnswer::Outdated => FrameStatus::NeedsReconfigure,
        SurfaceAnswer::Lost => FrameStatus::NeedsReconfigure,
        SurfaceAnswer::Validation => FrameStatus::NeedsReconfigure,
    }
}

/// Whether `cap` is the smallest power of two that is at least `n`.
pub open spec fn is_least_power(cap: int, n: int) -> bool {
    &&& n <= cap
    &&& exists|k: nat| cap == #[trigger] pow2(k)
    &&& forall|k: nat| n <= #[trigger] pow2(k) ==> cap <= pow2(k)
}

/// The room for quads that a buffer for `n` of them is made with: the next
/// power of two, so that growing text does not remake it on every frame. `None`
/// where that is too large a number.
pub fn grown_capacity(n: usize) -> (cap: Option<usize>)
    ensures
        match cap {
            Some(cap) => is_least_power(cap as int, n as int),
            None => forall|k: nat| n <= #[trigger] pow2(k) ==> pow2(k) > usize::MAX,
        },
{
    let mut cap: usize = 1;
    let ghost mut k: nat = 0;
    proof {
        lemma2_to64();
    }
    while cap < n
        invariant
            cap == pow2(k),
            forall|j: nat| j < k ==> #[trigger] pow2(j) < n,
        decreases crate::model::monus(n as int, cap as int),
    {
        proof {
            lemma_pow2_pos(k);
            lemma_pow2_unfold(k + 1);
            assert forall|j: nat| n <= #[trigger] pow2(j) implies j > k by {
                if j == k {
                }
            }
            assert forall|j: nat| n <= #[trigger] pow2(j) implies pow2(k + 1) <= pow2(j) by {
                if k + 1 < j {
                    lemma_pow2_strictly_increases(k + 1, j);
                }
            }
        }
        match cap.checked_mul(2) {
            Some(doubled) => cap = doubled,
            None => return None,
        }
        proof {
            k = k + 1;
        }
    }
    proof {
        assert forall|j: nat| n <= #[trigger] pow2(j) implies cap <= pow2(j) by {
            if k < j {
                lemma_pow2_strictly_increases(k, j);
            }
        }
    }
    Some(cap)
}

} // verus!
