//! Virtual display toggle state machine.
//!
//! The controller decides whether a toggle request creates, defers, skips or
//! removes a virtual display; the caller carries the decision out.
use crate::seq_util::{
    lemma_push_no_duplicates, lemma_seq_without_absent, lemma_seq_without_facts,
    lemma_without_no_duplicates, seq_without, vec_contains_i32, vec_without_i32,
};
use std::time::{Duration, Instant};
use vstd::prelude::*;

verus! {

#[verifier::external_type_specification]
#[verifier::external_body]
pub struct ExInstant(Instant);

/// Seconds a deferred toggle waits for the client resolution before the
/// default resolution is used.
pub const VD_DEFER_TIMEOUT_SECS: u64 = 30;

/// Width used when no client resolution arrived in time.
pub const VD_DEFAULT_WIDTH: u32 = 1920;

/// Height used when no client resolution arrived in time.
pub const VD_DEFAULT_HEIGHT: u32 = 1080;

/// Action that the caller should take after a toggle or timeout.
#[derive(Debug, Clone, PartialEq)]
pub enum VdDecision {
    /// Create a virtual display at this resolution.
    Create { display: i32, width: u32, height: u32 },
    /// Remove a virtual display.
    Remove { display: i32 },
    /// Toggle was deferred: waiting for the client resolution.
    Deferred { display: i32 },
    /// Toggle was skipped (already active or already pending).
    Skipped { display: i32, reason: &'static str },
}

/// Abstract state of a [`VdController`].
pub struct VdState {
    pub resolution: Option<(u32, u32)>,
    pub active: Seq<i32>,
    pub pending: Seq<i32>,
    pub deadline: Option<Instant>,
}

impl VdState {
    /// The invariant every reachable controller state satisfies.
    pub open spec fn wf(self) -> bool {
        &&& self.active.no_duplicates()
        &&& self.pending.no_duplicates()
        &&& (self.resolution is None ==> self.active.len() == 0)
        &&& (self.resolution is Some ==> self.pending.len() == 0)
        &&& (self.pending.len() > 0 ==> self.deadline is Some)
    }

    /// The controller's bookkeeping invariant: no display is listed twice as
    /// active or as pending, none is both, and toggles are only pending while
    /// no resolution is known.
    pub open spec fn inv(self) -> bool {
        &&& self.active.no_duplicates()
        &&& self.pending.no_duplicates()
        &&& forall|x: i32| #[trigger] self.active.contains(x) ==> !self.pending.contains(x)
        &&& (self.pending.len() > 0 ==> self.resolution is None)
    }
}

/// Turns on every display of `pending`, in order, starting from `active`:
/// a display already active is skipped, any other one is created at `(w, h)`.
/// Gives the final active list and one decision per pending display.
pub open spec fn toggle_on_all(active: Seq<i32>, pending: Seq<i32>, w: u32, h: u32) -> (Seq<i32>, Seq<VdDecision>)
    decreases pending.len(),
{
    if pending.len() == 0 {
        (active, Seq::empty())
    } else {
        let (a, ds) = toggle_on_all(active, pending.drop_last(), w, h);
        let d = pending.last();
        if a.contains(d) {
            (a, ds.push(VdDecision::Skipped { display: d, reason: "already active" }))
        } else {
            (a.push(d), ds.push(VdDecision::Create { display: d, width: w, height: h }))
        }
    }
}

/// What one call of `toggle(display, on)` does, from `pre` to `post`, deciding `d`.
pub open spec fn toggle_post(pre: VdState, display: i32, on: bool, post: VdState, d: VdDecision) -> bool {
    if on {
        if pre.active.contains(display) {
            post == pre && d == VdDecision::Skipped { display, reason: "already active" }
        } else if pre.resolution is None {
            if pre.pending.contains(display) {
                post == pre && d == VdDecision::Skipped { display, reason: "already pending" }
            } else {
                &&& post.resolution == pre.resolution
                &&& post.active == pre.active
                &&& post.pending == pre.pending.push(display)
                &&& post.deadline is Some
                &&& (pre.deadline is Some ==> post.deadline == pre.deadline)
                &&& d == VdDecision::Deferred { display }
            }
        } else {
            let (w, h) = pre.resolution->0;
            &&& post == VdState { active: pre.active.push(display), ..pre }
            &&& d == VdDecision::Create { display, width: w, height: h }
        }
    } else {
        &&& post == VdState { active: seq_without(pre.active, display), ..pre }
        &&& d == VdDecision::Remove { display }
    }
}

/// What processing the pending toggles at resolution `(w, h)` does.
pub open spec fn flush_post(pre: VdState, w: u32, h: u32, post: VdState, ds: Seq<VdDecision>) -> bool {
    let (a, decisions) = toggle_on_all(pre.active, pre.pending, w, h);
    &&& post.resolution == Some((w, h))
    &&& post.pending == Seq::<i32>::empty()
    &&& post.deadline is None
    &&& post.active == a
    &&& ds == decisions
}

/// Calls `std::time::Instant::now`. Nothing is stated of the instant: it is
/// read from the machine's clock.
#[verifier::external_body]
fn instant_now() -> (t: Instant) {
    Instant::now()
}

/// Calls `Duration::from_secs`. A duration is opaque here: nothing is
/// stated of it.
#[verifier::external_body]
fn duration_from_secs(secs: u64) -> (d: Duration) {
    Duration::from_secs(secs)
}

/// Calls `Instant::checked_add`. Nothing is stated of the result: whether
/// the sum can be represented depends on the platform's clock.
#[verifier::external_body]
fn instant_checked_add(t: &Instant, d: Duration) -> (r: Option<Instant>) {
    t.checked_add(d)
}

/// Compares two instants with `>=` (`PartialOrd` of `Instant`). Nothing is
/// stated of the result: the instants are opaque clock readings.
#[verifier::external_body]
fn instant_at_or_after(now: &Instant, deadline: &Instant) -> (r: bool) {
    *now >= *deadline
}

/// Pure state machine for virtual display toggle decisions.
pub struct VdController {
    resolution: Option<(u32, u32)>,
    active_indices: Vec<i32>,
    pending_toggles: Vec<i32>,
    pending_deadline: Option<Instant>,
}

impl View for VdController {
    type V = VdState;

    closed spec fn view(&self) -> VdState {
        VdState {
            resolution: self.resolution,
            active: self.active_indices@,
            pending: self.pending_toggles@,
            deadline: self.pending_deadline,
        }
    }
}

impl VdController {
    /// A controller with no resolution, no active and no pending display.
    pub fn new() -> (c: Self)
        ensures
            c@.resolution is None,
            c@.active == Seq::<i32>::empty(),
            c@.pending == Seq::<i32>::empty(),
            c@.deadline is None,
            c@.wf(),
            c@.inv(),
    {
        VdController {
            resolution: None,
            active_indices: Vec::new(),
            pending_toggles: Vec::new(),
            pending_deadline: None,
        }
    }

    /// Process a toggle request. Returns the decision the caller should act on.
    pub fn toggle(&mut self, display: i32, on: bool) -> (d: VdDecision)
        ensures
            toggle_post(old(self)@, display, on, final(self)@, d),
            old(self)@.wf() ==> final(self)@.wf(),
            old(self)@.inv() ==> final(self)@.inv(),
    {
        if on {
            if vec_contains_i32(&self.active_indices, display) {
                return VdDecision::Skipped { display, reason: "already active" };
            }
            match self.resolution {
                None => {
                    if !vec_contains_i32(&self.pending_toggles, display) {
                        self.pending_toggles.push(display);
                        if self.pending_deadline.is_none() {
                            let now = instant_now();
                            let deadline = match instant_checked_add(&now, duration_from_secs(VD_DEFER_TIMEOUT_SECS)) {
                                Some(t) => t,
                                None => now,
                            };
                            self.pending_deadline = Some(deadline);
                        }
                        proof {
                            if old(self)@.pending.no_duplicates() {
                                lemma_push_no_duplicates(old(self)@.pending, display);
                            }
                            assert forall|x: i32| #[trigger] self@.pending.contains(x)
                                implies old(self)@.pending.contains(x) || x == display by {
                                let k = choose|k: int| 0 <= k < self@.pending.len() && self@.pending[k] == x;
                                if k < old(self)@.pending.len() {
                                    assert(old(self)@.pending[k] == x);
                                }
                            }
                        }
                        VdDecision::Deferred { display }
                    } else {
                        VdDecision::Skipped { display, reason: "already pending" }
                    }
                },
                Some((w, h)) => {
                    self.active_indices.push(display);
                    proof {
                        if old(self)@.active.no_duplicates() {
                            lemma_push_no_duplicates(old(self)@.active, display);
                        }
                        if old(self)@.inv() {
                            assert(old(self)@.pending.len() == 0);
                            assert forall|x: i32| #[trigger] self@.active.contains(x) implies !self@.pending.contains(x) by {}
                        }
                    }
                    VdDecision::Create { display, width: w, height: h }
                },
            }
        } else {
            self.active_indices = vec_without_i32(&self.active_indices, display);
            proof {
                lemma_without_no_duplicates(old(self)@.active, display);
                assert forall|x: i32| #[trigger] self@.active.contains(x) implies old(self)@.active.contains(x) by {}
            }
            VdDecision::Remove { display }
        }
    }

    /// Turns on every pending display at the stored resolution, in order,
    /// and empties the pending list. Requires a stored resolution.
    fn flush_pending(&mut self) -> (ds: Vec<VdDecision>)
        requires
            old(self)@.resolution is Some,
        ensures
            ({
                let (w, h) = old(self)@.resolution->0;
                let (a, decisions) = toggle_on_all(old(self)@.active, old(self)@.pending, w, h);
                &&& final(self)@.resolution == old(self)@.resolution
                &&& final(self)@.deadline == old(self)@.deadline
                &&& final(self)@.pending == Seq::<i32>::empty()
                &&& final(self)@.active == a
                &&& ds@ == decisions
            }),
            old(self)@.active.no_duplicates() ==> final(self)@.active.no_duplicates(),
    {
        let mut pending: Vec<i32> = Vec::new();
        std::mem::swap(&mut pending, &mut self.pending_toggles);
        let ghost pre = old(self)@;
        let ghost (w, h) = pre.resolution->0;
        let mut out: Vec<VdDecision> = Vec::new();
        let mut i: usize = 0;
        while i < pending.len()
            invariant
                i <= pending.len(),
                pending@ == pre.pending,
                pre.resolution == Some((w, h)),
                self@.resolution == pre.resolution,
                self@.deadline == pre.deadline,
                self@.pending == Seq::<i32>::empty(),
                (self@.active, out@) == toggle_on_all(pre.active, pre.pending.take(i as int), w, h),
                pre.active.no_duplicates() ==> self@.active.no_duplicates(),
            decreases pending.len() - i,
        {
            proof {
                assert(pre.pending.take(i + 1).drop_last() =~= pre.pending.take(i as int));
                assert(pre.pending.take(i + 1).last() == pending@[i as int]);
            }
            let d = self.toggle(pending[i], true);
            out.push(d);
            i = i + 1;
        }
        proof {
            assert(pre.pending.take(pending.len() as int) =~= pre.pending);
        }
        out
    }

    /// Store the client's native resolution and process all deferred toggles.
    /// Returns the list of decisions (one per deferred toggle).
    pub fn handle_resolution(&mut self, w: u32, h: u32) -> (ds: Vec<VdDecision>)
        ensures
            flush_post(old(self)@, w, h, final(self)@, ds@),
            old(self)@.wf() ==> final(self)@.wf(),
            old(self)@.inv() ==> final(self)@.inv(),
    {
        self.resolution = Some((w, h));
        self.pending_deadline = None;
        self.flush_pending()
    }

    /// Check if deferred toggles should be processed due to timeout.
    /// Returns decisions if the deadline has passed, empty vec otherwise.
    pub fn check_timeout(&mut self) -> (ds: Vec<VdDecision>)
        ensures
            ({
                ||| {
                    &&& final(self)@ == old(self)@
                    &&& ds@ == Seq::<VdDecision>::empty()
                }
                ||| {
                    &&& old(self)@.deadline is Some
                    &&& old(self)@.pending.len() > 0
                    &&& flush_post(old(self)@, VD_DEFAULT_WIDTH, VD_DEFAULT_HEIGHT, final(self)@, ds@)
                }
            }),
            (old(self)@.deadline is None || old(self)@.pending.len() == 0) ==> final(self)@ == old(self)@
                && ds@ == Seq::<VdDecision>::empty(),
            old(self)@.wf() ==> final(self)@.wf(),
            old(self)@.inv() ==> final(self)@.inv(),
    {
        let reached = match &self.pending_deadline {
            Some(deadline) => {
                let now = instant_now();
                instant_at_or_after(&now, deadline)
            },
            None => false,
        };
        self.check_timeout_with(reached)
    }

    /// The decision part of [`VdController::check_timeout`], given whether the
    /// pending deadline has been reached.
    pub fn check_timeout_with(&mut self, deadline_reached: bool) -> (ds: Vec<VdDecision>)
        ensures
            if old(self)@.deadline is Some && deadline_reached && old(self)@.pending.len() > 0 {
                flush_post(old(self)@, VD_DEFAULT_WIDTH, VD_DEFAULT_HEIGHT, final(self)@, ds@)
            } else {
                final(self)@ == old(self)@ && ds@ == Seq::<VdDecision>::empty()
            },
            old(self)@.wf() ==> final(self)@.wf(),
            old(self)@.inv() ==> final(self)@.inv(),
    {
        if self.pending_deadline.is_some() && deadline_reached && self.pending_toggles.len() > 0 {
            self.resolution = Some((VD_DEFAULT_WIDTH, VD_DEFAULT_HEIGHT));
            self.pending_deadline = None;
            return self.flush_pending();
        }
        Vec::new()
    }

    /// Connection close: return indices of active displays to clean up.
    pub fn close(&mut self) -> (indices: Vec<i32>)
        ensures
            indices@ == old(self)@.active,
            final(self)@.resolution == old(self)@.resolution,
            final(self)@.active == Seq::<i32>::empty(),
            final(self)@.pending == Seq::<i32>::empty(),
            final(self)@.deadline is None,
            old(self)@.wf() ==> final(self)@.wf(),
            old(self)@.inv() ==> final(self)@.inv(),
    {
        let mut indices: Vec<i32> = Vec::new();
        std::mem::swap(&mut indices, &mut self.active_indices);
        self.pending_toggles.clear();
        self.pending_deadline = None;
        indices
    }

    /// Active display indices, in the order they were created.
    pub fn active_indices(&self) -> (r: &[i32])
        ensures
            r@ == self@.active,
    {
        self.active_indices.as_slice()
    }

    /// Whether there are pending deferred toggles.
    pub fn has_pending(&self) -> (r: bool)
        ensures
            r == (self@.pending.len() > 0),
    {
        self.pending_toggles.len() > 0
    }

    /// The stored resolution, if any.
    pub fn resolution(&self) -> (r: Option<(u32, u32)>)
        ensures
            r == self@.resolution,
    {
        self.resolution
    }

    /// Roll back a Create decision that failed to execute: the display is no
    /// longer active, so a later toggle creates it again.
    pub fn rollback_create(&mut self, display: i32)
        ensures
            final(self)@ == (VdState { active: seq_without(old(self)@.active, display), ..old(self)@ }),
            old(self)@.wf() ==> final(self)@.wf(),
            old(self)@.inv() ==> final(self)@.inv(),
    {
        self.active_indices = vec_without_i32(&self.active_indices, display);
        proof {
            lemma_without_no_duplicates(old(self)@.active, display);
            assert forall|x: i32| #[trigger] self@.active.contains(x) implies old(self)@.active.contains(x) by {}
        }
    }

    /// Force the pending deadline to a specific instant.
    pub fn set_pending_deadline(&mut self, deadline: Instant)
        ensures
            final(self)@ == (VdState { deadline: Some(deadline), ..old(self)@ }),
            old(self)@.wf() ==> final(self)@.wf(),
            old(self)@.inv() ==> final(self)@.inv(),
    {
        self.pending_deadline = Some(deadline);
    }
}

/// The decisions of creating every display of `ds`, in order, at `(w, h)`.
pub open spec fn creates(ds: Seq<i32>, w: u32, h: u32) -> Seq<VdDecision> {
    ds.map_values(|d: i32| VdDecision::Create { display: d, width: w, height: h })
}

proof fn lemma_toggle_on_all_fresh(pending: Seq<i32>, w: u32, h: u32)
    requires
        pending.no_duplicates(),
    ensures
        toggle_on_all(Seq::empty(), pending, w, h) == (pending, creates(pending, w, h)),
    decreases pending.len(),
{
    if pending.len() > 0 {
        let t = pending.drop_last();
        assert(t.no_duplicates());
        lemma_toggle_on_all_fresh(t, w, h);
        assert(!t.contains(pending.last())) by {
            if t.contains(pending.last()) {
                let k = choose|k: int| 0 <= k < t.len() && t[k] == pending.last();
                assert(pending[k] == pending[pending.len() - 1]);
            }
        }
        assert(t.push(pending.last()) =~= pending);
        assert(creates(t, w, h).push(VdDecision::Create { display: pending.last(), width: w, height: h })
            =~= creates(pending, w, h));
    }
}

/// When the client resolution arrives, every deferred display is created,
/// in the order it was requested, at exactly that resolution, and becomes
/// the active list.
pub proof fn lemma_resolution_creates_every_deferred_display(pre: VdState, w: u32, h: u32, post: VdState, ds: Seq<VdDecision>)
    requires
        pre.wf(),
        pre.resolution is None,
        flush_post(pre, w, h, post, ds),
    ensures
        post.active == pre.pending,
        ds == creates(pre.pending, w, h),
        post.wf(),
{
    assert(pre.active =~= Seq::<i32>::empty());
    lemma_toggle_on_all_fresh(pre.pending, w, h);
}

/// When the deferral deadline passes first, every deferred display is
/// created at the default resolution.
pub proof fn lemma_timeout_creates_at_default_resolution(pre: VdState, post: VdState, ds: Seq<VdDecision>)
    requires
        pre.wf(),
        pre.resolution is None,
        flush_post(pre, VD_DEFAULT_WIDTH, VD_DEFAULT_HEIGHT, post, ds),
    ensures
        post.resolution == Some((VD_DEFAULT_WIDTH, VD_DEFAULT_HEIGHT)),
        post.active == pre.pending,
        ds == creates(pre.pending, VD_DEFAULT_WIDTH, VD_DEFAULT_HEIGHT),
{
    lemma_resolution_creates_every_deferred_display(pre, VD_DEFAULT_WIDTH, VD_DEFAULT_HEIGHT, post, ds);
}

/// Turning a display off leaves it inactive and keeps every other active
/// display, in order.
pub proof fn lemma_toggle_off_removes(pre: VdState, display: i32, post: VdState, d: VdDecision)
    requires
        toggle_post(pre, display, false, post, d),
    ensures
        !post.active.contains(display),
        forall|x: i32| x != display ==> (post.active.contains(x) <==> pre.active.contains(x)),
        d == (VdDecision::Remove { display }),
{
    lemma_seq_without_facts(pre.active, display);
}

/// Rolling back a display that a toggle just created restores the active list
/// it had before the toggle.
pub proof fn lemma_rollback_undoes_create(pre: VdState, display: i32, mid: VdState, d: VdDecision)
    requires
        pre.wf(),
        toggle_post(pre, display, true, mid, d),
        d is Create,
    ensures
        seq_without(mid.active, display) == pre.active,
{
    assert(!pre.active.contains(display));
    assert(mid.active == pre.active.push(display));
    lemma_seq_without_absent(pre.active, display);
    reveal_with_fuel(Seq::filter, 1);
    assert(pre.active.push(display).drop_last() =~= pre.active);
}

/// A second request for a display that is already active or already
/// pending changes nothing and is reported as skipped.
pub proof fn lemma_duplicate_toggle_is_skipped(pre: VdState, display: i32, post: VdState, d: VdDecision)
    requires
        toggle_post(pre, display, true, post, d),
        pre.active.contains(display) || (pre.resolution is None && pre.pending.contains(display)),
    ensures
        post == pre,
        d is Skipped,
{
}

} // verus!
