//! The two-stage arm/trigger protocol between gesture completions and backups.
use vstd::prelude::*;
use crate::input::Status;

verus! {

/// What the surrounding application is to do after a tracker status.
#[derive(Debug, Clone, Copy, PartialEq, Eq, Structural)]
pub enum Action {
    Nothing,
    /// Announce that the activation shape was recognised.
    NotifyActivation,
    /// Run one backup now.
    StartBackup,
}

/// Next armed flag and action for one status.
pub open spec fn react(armed: bool, status: Status) -> (bool, Action) {
    match status {
        Status::ActivationShapeCompleted => if armed {
            (true, Action::Nothing)
        } else {
            (true, Action::NotifyActivation)
        },
        Status::ConfirmationShapeCompleted => if armed {
            (false, Action::StartBackup)
        } else {
            (false, Action::Nothing)
        },
        _ => (armed, Action::Nothing),
    }
}

/// Reacts to each status in turn, collecting the actions.
pub open spec fn react_all(armed: bool, sts: Seq<Status>) -> (bool, Seq<Action>)
    decreases sts.len(),
{
    if sts.len() == 0 {
        (armed, Seq::empty())
    } else {
        let prev = react_all(armed, sts.drop_last());
        let next = react(prev.0, sts.last());
        (next.0, prev.1.push(next.1))
    }
}

/// How many backups a sequence of actions starts.
pub open spec fn backups_started(acts: Seq<Action>) -> nat
    decreases acts.len(),
{
    if acts.len() == 0 {
        0
    } else {
        backups_started(acts.drop_last()) + if acts.last() == Action::StartBackup {
            1nat
        } else {
            0nat
        }
    }
}

/// The armed flag; false until an activation shape is completed.
pub struct DetectionState {
    activation_detected: bool,
}

impl View for DetectionState {
    type V = bool;

    closed spec fn view(&self) -> bool {
        self.activation_detected
    }
}

impl DetectionState {
    /// An unarmed state.
    pub fn new() -> (r: Self)
        ensures
            r@ == false,
    {
        DetectionState { activation_detected: false }
    }

    pub fn is_armed(&self) -> (r: bool)
        ensures
            r == self@,
    {
        self.activation_detected
    }

    /// Arms; asks for a notification only on the transition from unarmed.
    pub fn handle_activation(&mut self) -> (notify: bool)
        ensures
            final(self)@ == true,
            notify == !old(self)@,
    {
        let notify = !self.activation_detected;
        self.activation_detected = true;
        notify
    }

    /// When armed, disarms and asks for one backup; the flag stays cleared
    /// whatever that backup's outcome. When unarmed, does nothing.
    pub fn handle_confirmation(&mut self) -> (start_backup: bool)
        ensures
            final(self)@ == false,
            start_backup == old(self)@,
    {
        let start_backup = self.activation_detected;
        self.activation_detected = false;
        start_backup
    }

    /// Applies one tracker status.
    pub fn handle(&mut self, status: Status) -> (r: Action)
        ensures
            (final(self)@, r) == react(old(self)@, status),
    {
        match status {
            Status::ActivationShapeCompleted => {
                if self.handle_activation() {
                    Action::NotifyActivation
                } else {
                    Action::Nothing
                }
            },
            Status::ConfirmationShapeCompleted => {
                if self.handle_confirmation() {
                    Action::StartBackup
                } else {
                    Action::Nothing
                }
            },
            _ => Action::Nothing,
        }
    }
}

/// Without an activation in between, the backups started plus the final armed
/// flag never exceed the initial armed flag: an armed session starts at most one
/// backup, and an unarmed one none.
pub proof fn lemma_one_backup_per_arming(armed: bool, sts: Seq<Status>)
    requires
        forall|k: int| 0 <= k < sts.len() ==> sts[k] != Status::ActivationShapeCompleted,
    ensures
        backups_started(react_all(armed, sts).1) + (if react_all(armed, sts).0 {
            1int
        } else {
            0int
        }) <= if armed {
            1int
        } else {
            0int
        },
        backups_started(react_all(armed, sts).1) <= 1,
        !armed ==> backups_started(react_all(armed, sts).1) == 0,
    decreases sts.len(),
{
    if sts.len() > 0 {
        lemma_one_backup_per_arming(armed, sts.drop_last());
        let prev = react_all(armed, sts.drop_last());
        let acts = react_all(armed, sts).1;
        assert(acts.drop_last() =~= prev.1);
        assert(sts.last() == sts[sts.len() - 1]);
    }
}

} // verus!
