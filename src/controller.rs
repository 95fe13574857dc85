use vstd::prelude::*;
use crate::join::{join, join_targets};
use crate::model::{Group, JoinTarget, PendingMembership, ReconcileError};

verus! {

/// Where a tick stands.
#[derive(Clone, Copy, Debug, PartialEq, Eq, Structural)]
pub enum Stage {
    /// Not started.
    Idle,
    /// Waiting for the pending requests.
    ReadingPending,
    /// Waiting for the groups.
    ReadingGroups,
    /// Waiting for the eligibility verdict on the current target.
    Verifying,
    /// Waiting for the outcome of the current target's submission.
    Submitting,
    /// Over; further events are ignored.
    Finished,
}

/// What the host reports back to the tick.
#[derive(Debug)]
pub enum Event {
    PendingRead(Result<Vec<PendingMembership>, ReconcileError>),
    GroupsRead(Result<Vec<Group>, ReconcileError>),
    Verdict(Result<bool, ReconcileError>),
    /// The outcome of a submission; a failure is reported and the tick goes on.
    Submitted(Result<(), ReconcileError>),
}

/// What the tick asks the host to do next.
#[derive(Debug)]
pub enum Action {
    ReadPending,
    ReadGroups,
    /// Check the member's balance against the target's criteria.
    Verify(JoinTarget),
    /// Submit the transaction that adds the member to the group.
    Submit(JoinTarget),
    /// The tick is over, with this outcome.
    Finish(Result<(), ReconcileError>),
    /// The event did not fit the stage; nothing changed.
    Ignore,
}

/// One tick of reconciliation: read the pending requests, read the groups,
/// then verify each join target in turn and submit those found eligible.
#[derive(Debug)]
pub struct Tick {
    pub stage: Stage,
    pub pending: Vec<PendingMembership>,
    pub targets: Vec<JoinTarget>,
    /// The index of the current target.
    pub next: usize,
}

/// The action that follows when the work goes on at target `k`.
pub open spec fn action_at(targets: Seq<JoinTarget>, k: int) -> Action {
    if k < targets.len() {
        Action::Verify(targets[k])
    } else {
        Action::Finish(Ok(()))
    }
}

/// The stage that follows when the work goes on at target `k`.
pub open spec fn stage_at(targets: Seq<JoinTarget>, k: int) -> Stage {
    if k < targets.len() {
        Stage::Verifying
    } else {
        Stage::Finished
    }
}

impl Tick {
    pub open spec fn wf(self) -> bool {
        &&& self.next <= self.targets@.len()
        &&& (self.stage == Stage::Verifying || self.stage == Stage::Submitting) ==> self.next
            < self.targets@.len()
    }

    pub fn new() -> (r: Tick)
        ensures
            r.wf(),
            r.stage == Stage::Idle,
            r.pending@.len() == 0,
            r.targets@.len() == 0,
            r.next == 0,
    {
        Tick { stage: Stage::Idle, pending: Vec::new(), targets: Vec::new(), next: 0 }
    }

    /// Starts the tick: the pending requests are read first.
    pub fn start(&mut self) -> (a: Action)
        requires
            old(self).wf(),
        ensures
            final(self).wf(),
            old(self).stage == Stage::Idle ==> a == Action::ReadPending && final(self).stage
                == Stage::ReadingPending && final(self).pending == old(self).pending
                && final(self).targets == old(self).targets && final(self).next == old(self).next,
            old(self).stage != Stage::Idle ==> a == Action::Ignore && *final(self) == *old(self),
    {
        if self.stage == Stage::Idle {
            self.stage = Stage::ReadingPending;
            Action::ReadPending
        } else {
            Action::Ignore
        }
    }

    fn action_for_next(&mut self) -> (a: Action)
        requires
            old(self).next <= old(self).targets@.len(),
        ensures
            final(self).pending == old(self).pending,
            final(self).targets == old(self).targets,
            final(self).next == old(self).next,
            final(self).stage == stage_at(old(self).targets@, old(self).next as int),
            a == action_at(old(self).targets@, old(self).next as int),
    {
        if self.next < self.targets.len() {
            self.stage = Stage::Verifying;
            Action::Verify(self.targets[self.next].duplicate())
        } else {
            self.stage = Stage::Finished;
            Action::Finish(Ok(()))
        }
    }

    /// Takes the host's report and says what to do next. Any error ends the
    /// tick at once, except a failed submission, which is reported and
    /// passed over.
    pub fn handle(&mut self, ev: Event) -> (a: Action)
        requires
            old(self).wf(),
        ensures
            final(self).wf(),
            // the pending requests arrive: the groups are read next
            old(self).stage == Stage::ReadingPending ==> match ev {
                Event::PendingRead(Ok(p)) => final(self).stage == Stage::ReadingGroups
                    && final(self).pending@ == p@ && a == Action::ReadGroups,
                Event::PendingRead(Err(e)) => final(self).stage == Stage::Finished && a
                    == Action::Finish(Err(e)),
                _ => *final(self) == *old(self) && a == Action::Ignore,
            },
            // the groups arrive: the join is formed and its first target verified
            old(self).stage == Stage::ReadingGroups ==> match ev {
                Event::GroupsRead(Ok(g)) => final(self).targets@ == join(old(self).pending@, g@)
                    && final(self).next == 0 && final(self).stage == stage_at(
                    final(self).targets@,
                    0,
                ) && a == action_at(final(self).targets@, 0),
                Event::GroupsRead(Err(e)) => final(self).stage == Stage::Finished && a
                    == Action::Finish(Err(e)),
                _ => *final(self) == *old(self) && a == Action::Ignore,
            },
            // a verdict arrives: submit if eligible, else go on to the next target
            old(self).stage == Stage::Verifying ==> match ev {
                Event::Verdict(Ok(true)) => final(self).stage == Stage::Submitting
                    && final(self).targets == old(self).targets && final(self).next == old(
                    self,
                ).next && a == Action::Submit(old(self).targets@[old(self).next as int]),
                Event::Verdict(Ok(false)) => final(self).targets == old(self).targets
                    && final(self).next == old(self).next + 1 && final(self).stage == stage_at(
                    old(self).targets@,
                    old(self).next + 1,
                ) && a == action_at(old(self).targets@, old(self).next + 1),
                Event::Verdict(Err(e)) => final(self).stage == Stage::Finished && a
                    == Action::Finish(Err(e)),
                _ => *final(self) == *old(self) && a == Action::Ignore,
            },
            // a submission is over, whatever its outcome: go on to the next target
            old(self).stage == Stage::Submitting ==> match ev {
                Event::Submitted(_) => final(self).targets == old(self).targets
                    && final(self).next == old(self).next + 1 && final(self).stage == stage_at(
                    old(self).targets@,
                    old(self).next + 1,
                ) && a == action_at(old(self).targets@, old(self).next + 1),
                _ => *final(self) == *old(self) && a == Action::Ignore,
            },
            (old(self).stage == Stage::Idle || old(self).stage == Stage::Finished) ==> *final(self)
                == *old(self) && a == Action::Ignore,
    {
        // the length of a vector bounds the index below usize::MAX
        let _targets_len = self.targets.len();
        match self.stage {
            Stage::ReadingPending => match ev {
                Event::PendingRead(Ok(p)) => {
                    self.pending = p;
                    self.stage = Stage::ReadingGroups;
                    Action::ReadGroups
                },
                Event::PendingRead(Err(e)) => {
                    self.stage = Stage::Finished;
                    Action::Finish(Err(e))
                },
                _ => Action::Ignore,
            },
            Stage::ReadingGroups => match ev {
                Event::GroupsRead(Ok(g)) => {
                    self.targets = join_targets(&self.pending, &g);
                    self.next = 0;
                    self.action_for_next()
                },
                Event::GroupsRead(Err(e)) => {
                    self.stage = Stage::Finished;
                    Action::Finish(Err(e))
                },
                _ => Action::Ignore,
            },
            Stage::Verifying => match ev {
                Event::Verdict(Ok(true)) => {
                    self.stage = Stage::Submitting;
                    Action::Submit(self.targets[self.next].duplicate())
                },
                Event::Verdict(Ok(false)) => {
                    self.next = self.next + 1;
                    self.action_for_next()
                },
                Event::Verdict(Err(e)) => {
                    self.stage = Stage::Finished;
                    Action::Finish(Err(e))
                },
                _ => Action::Ignore,
            },
            Stage::Submitting => match ev {
                Event::Submitted(_) => {
                    self.next = self.next + 1;
                    self.action_for_next()
                },
                _ => Action::Ignore,
            },
            _ => Action::Ignore,
        }
    }
}

} // verus!
