//! The shared execution-control state machine consulted by every lane.
//!
//! One `AppState` value governs a whole batch: `paused` and `has_error` hold
//! lanes at their next checkpoint, `cancelled` ends the run. The runtime that
//! hosts the lanes owns blocking and waking; this module owns what each
//! operation does to the flags and what the checkpoint decides, stated as
//! spec transitions that the executable methods are proved to follow.

use vstd::prelude::*;

verus! {

/// What a lane's checkpoint decides before the next item.
#[derive(Clone, Copy, Debug, PartialEq, Eq, Structural)]
pub enum Checkpoint {
    /// Neither paused, errored nor cancelled: process the next item.
    Proceed,
    /// Paused or errored: hold the lane until it is woken, then ask again.
    Block,
    /// Cancelled: the lane abandons its remaining items.
    Stop,
}

/// The control flags shared by all lanes of the current batch.
pub struct AppState {
    pub paused: bool,
    pub cancelled: bool,
    pub has_error: bool,
}

/// The state a fresh controller starts in, and the one `reset` restores.
pub open spec fn initial_state() -> AppState {
    AppState { paused: false, cancelled: false, has_error: false }
}

pub open spec fn pause_t(s: AppState) -> AppState {
    AppState { paused: true, ..s }
}

pub open spec fn resume_t(s: AppState) -> AppState {
    AppState { paused: false, has_error: false, ..s }
}

pub open spec fn cancel_t(s: AppState) -> AppState {
    AppState { cancelled: true, ..s }
}

pub open spec fn reset_t(s: AppState) -> AppState {
    initial_state()
}

pub open spec fn set_error_t(s: AppState) -> AppState {
    AppState { has_error: true, paused: true, ..s }
}

/// The checkpoint decision: cancellation wins, then pause or error holds the
/// lane, otherwise it proceeds.
pub open spec fn checkpoint_t(s: AppState) -> Checkpoint {
    if s.cancelled {
        Checkpoint::Stop
    } else if !s.paused && !s.has_error {
        Checkpoint::Proceed
    } else {
        Checkpoint::Block
    }
}

impl AppState {
    pub fn new() -> (s: Self)
        ensures
            s == initial_state(),
    {
        AppState { paused: false, cancelled: false, has_error: false }
    }

    /// Holds every lane at its next checkpoint. Idempotent.
    pub fn pause(&mut self)
        ensures
            *final(self) == pause_t(*old(self)),
    {
        self.paused = true;
    }

    /// Clears the pause and the error flag; the host then wakes the lanes.
    pub fn resume(&mut self)
        ensures
            *final(self) == resume_t(*old(self)),
    {
        self.paused = false;
        self.has_error = false;
    }

    /// Ends the batch: terminal until an explicit `reset`.
    pub fn cancel(&mut self)
        ensures
            *final(self) == cancel_t(*old(self)),
    {
        self.cancelled = true;
    }

    /// Restores the initial flags; used between batches, never mid-run.
    pub fn reset(&mut self)
        ensures
            *final(self) == reset_t(*old(self)),
            *final(self) == initial_state(),
    {
        self.paused = false;
        self.cancelled = false;
        self.has_error = false;
    }

    /// Records the first observed failure and holds the whole batch.
    pub fn set_error(&mut self)
        ensures
            *final(self) == set_error_t(*old(self)),
    {
        self.has_error = true;
        self.paused = true;
    }

    pub fn get_has_error(&self) -> (r: bool)
        ensures
            r == self.has_error,
    {
        self.has_error
    }

    /// One evaluation of the checkpoint a lane runs before its next item.
    /// On `Block` the host suspends the lane until woken and asks again.
    pub fn wait_if_paused(&self) -> (c: Checkpoint)
        ensures
            c == checkpoint_t(*self),
    {
        if self.cancelled {
            Checkpoint::Stop
        } else if !self.paused && !self.has_error {
            Checkpoint::Proceed
        } else {
            Checkpoint::Block
        }
    }
}

/// The operations an operator or a lane may apply to the controller.
pub enum ControlOp {
    Pause,
    Resume,
    Cancel,
    Reset,
    SetError,
}

pub open spec fn apply_op(s: AppState, op: ControlOp) -> AppState {
    match op {
        ControlOp::Pause => pause_t(s),
        ControlOp::Resume => resume_t(s),
        ControlOp::Cancel => cancel_t(s),
        ControlOp::Reset => reset_t(s),
        ControlOp::SetError => set_error_t(s),
    }
}

/// Law: cancellation is terminal. No operation but an explicit reset clears
/// `cancelled`, and a cancelled controller sends every checkpoint to `Stop`.
pub proof fn lemma_cancel_terminal(s: AppState, op: ControlOp)
    requires
        s.cancelled,
        !(op is Reset),
    ensures
        apply_op(s, op).cancelled,
        checkpoint_t(apply_op(s, op)) == Checkpoint::Stop,
{
}

/// Law: after `cancel`, the checkpoint of every lane decides `Stop`, whatever
/// the other flags say.
pub proof fn lemma_cancelled_stops(s: AppState)
    ensures
        checkpoint_t(cancel_t(s)) == Checkpoint::Stop,
{
}

/// Law: `reset` restores exactly the initial flags, from any state, so a
/// batch started afterwards sees the controller a fresh one would see.
pub proof fn lemma_reset_is_initial(s: AppState)
    ensures
        reset_t(s) == initial_state(),
        checkpoint_t(reset_t(s)) == Checkpoint::Proceed,
{
}

/// What one lane failure does to the controller, and whether it is the one
/// failure that emits the batch's error notification.
pub open spec fn failure_t(s: AppState) -> AppState {
    if s.has_error {
        s
    } else {
        set_error_t(s)
    }
}

pub open spec fn failure_emits(s: AppState) -> bool {
    !s.has_error
}

/// How many error notifications a run of `n` consecutive lane failures emits.
pub open spec fn emits_in_failures(s: AppState, n: nat) -> nat
    decreases n,
{
    if n == 0 {
        0
    } else {
        (if failure_emits(s) {
            1nat
        } else {
            0nat
        }) + emits_in_failures(failure_t(s), (n - 1) as nat)
    }
}

/// Law: at most one error notification per run. Any number of consecutive
/// lane failures emits exactly one notification when the error flag was
/// clear, and none at all when it was already set; and the flag is set from
/// the first failure on, before or at the moment the notification goes out.
pub proof fn lemma_one_error_notification(s: AppState, n: nat)
    ensures
        emits_in_failures(s, n) <= 1,
        s.has_error ==> emits_in_failures(s, n) == 0,
        !s.has_error && n > 0 ==> emits_in_failures(s, n) == 1,
        n > 0 ==> failure_t(s).has_error,
    decreases n,
{
    if n > 0 {
        lemma_one_error_notification(failure_t(s), (n - 1) as nat);
    }
}

} // verus!
