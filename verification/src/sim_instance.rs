//! A simulated instance: the state machine that a sled runs for each
//! instance it hosts.
//!
//! A request for a new state is carried out at once where that is possible.
//! Where it is not (starting a stopped instance, halting a running one) the
//! instance moves to `Starting` or `Stopping`, remembers what was asked for,
//! and wakes the task that will call [`SimInstance::transition_finish`] some
//! time later.

use crate::error::ApiError;
use crate::error::ApiErrorView;
use crate::model::InstanceRuntimeState;
use crate::model::InstanceRuntimeStateRequested;
use crate::model::InstanceState;
use crate::model::Timestamp;
use crate::outside::close_wake_channel;
use crate::outside::now;
use crate::outside::try_notify;
use crate::outside::wake_channel;
use crate::outside::NotifyOutcome;
use futures::channel::mpsc::Receiver;
use futures::channel::mpsc::Sender;
use vstd::prelude::*;

verus! {

/// Number of messages that the wake-up channel of an instance holds beyond
/// the one slot of its sender.  The task behind the channel always acts on
/// the state it finds, never on the message, so a second pending wake-up
/// would only cost it another lap.
pub const SIM_INSTANCE_CHANNEL_BUFFER_SIZE: usize = 0;

/// What a simulated instance is, apart from its channel: the state it
/// reports and the request it is working on, if any.
pub struct SimState {
    pub current: InstanceRuntimeState,
    pub requested: Option<InstanceRuntimeStateRequested>,
}

/// The request that continues a reboot once the instance has halted.
pub open spec fn restart_request() -> InstanceRuntimeStateRequested {
    InstanceRuntimeStateRequested { run_state: InstanceState::Running, reboot_wanted: false }
}

/// The error that reports a wake-up channel whose receiver is gone.
pub open spec fn channel_lost() -> ApiErrorView {
    ApiErrorView::InternalError {
        message: "simulated instance lost the task that completes its transitions"@,
    }
}

impl SimState {
    /// A request is pending exactly while the instance is `Starting` or
    /// `Stopping`, and it is the request that put the instance there:
    /// `Starting` leads to `Running`; `Stopping` leads to a state of rest,
    /// which is `Stopped` if the halt opens a reboot.
    pub open spec fn wf(self) -> bool {
        match self.requested {
            None => !self.current.run_state.spec_is_transient(),
            Some(q) => match self.current.run_state {
                InstanceState::Starting => {
                    &&& q.run_state is Running
                    &&& !q.reboot_wanted
                    &&& !self.current.reboot_in_progress
                },
                InstanceState::Stopping => {
                    &&& q.run_state.spec_is_stopped()
                    &&& !(q.run_state is Creating)
                    &&& q.reboot_wanted == self.current.reboot_in_progress
                    &&& q.reboot_wanted ==> q.run_state is Stopped
                },
                _ => false,
            },
        }
    }

    /// Whether the instance can take a transition: it is well-formed, or it
    /// has just been adopted in whatever state its snapshot showed, with
    /// nothing pending yet.  The first transition makes it well-formed.
    pub open spec fn ready(self) -> bool {
        self.wf() || self.requested is None
    }

    /// Whether a transition to `target` finds a generation to record itself
    /// under: it is a no-op, or the generations are not used up.
    pub open spec fn has_room(self, target: InstanceRuntimeStateRequested) -> bool {
        self.is_noop(target) || self.current.gen < u64::MAX
    }

    /// Whether `target` asks for a reboot that will be honoured.
    pub open spec fn reboot_wanted(target: InstanceRuntimeStateRequested) -> bool {
        target.run_state.spec_clamped() is Running && target.reboot_wanted
    }

    /// Whether a transition to `target` leaves the instance untouched: the
    /// instance already rests in the state asked for, and no reboot is
    /// pending or wanted.
    pub open spec fn is_noop(self, target: InstanceRuntimeStateRequested) -> bool {
        let wanted = Self::reboot_wanted(target);
        let pending = self.current.reboot_in_progress;
        &&& target.run_state.spec_clamped() == self.current.run_state
        &&& (!pending && !wanted) || (pending && wanted && self.current.run_state is Stopping)
    }

    /// The state in which the instance comes to rest once a transition to
    /// `target` is complete.  A reboot first aims at `Stopped`.
    pub open spec fn goal(target: InstanceRuntimeStateRequested) -> InstanceState {
        if Self::reboot_wanted(target) {
            InstanceState::Stopped
        } else {
            target.run_state.spec_clamped()
        }
    }

    /// Whether a transition to `target` has to pass through `Starting` or
    /// `Stopping`.
    pub open spec fn needs_async(self, target: InstanceRuntimeStateRequested) -> bool {
        &&& !self.is_noop(target)
        &&& self.current.run_state.spec_is_stopped() != Self::goal(target).spec_is_stopped()
    }

    /// The state that the instance shows right after a transition to
    /// `target` that is no no-op.
    pub open spec fn next_run_state(self, target: InstanceRuntimeStateRequested) -> InstanceState {
        let goal = Self::goal(target);
        if self.current.run_state.spec_is_stopped() && !goal.spec_is_stopped() {
            InstanceState::Starting
        } else if !self.current.run_state.spec_is_stopped() && goal.spec_is_stopped() {
            InstanceState::Stopping
        } else {
            goal
        }
    }

    /// The instance after a transition to `target` at time `now`.
    pub open spec fn transition(
        self,
        target: InstanceRuntimeStateRequested,
        now: Timestamp,
    ) -> SimState {
        if self.is_noop(target) {
            SimState { current: self.current, requested: None }
        } else {
            SimState {
                current: InstanceRuntimeState {
                    run_state: self.next_run_state(target),
                    reboot_in_progress: Self::reboot_wanted(target),
                    sled_id: self.current.sled_id,
                    gen: (self.current.gen + 1) as u64,
                    time_updated: now,
                },
                requested: if self.needs_async(target) {
                    Some(
                        InstanceRuntimeStateRequested {
                            run_state: Self::goal(target),
                            reboot_wanted: Self::reboot_wanted(target),
                        },
                    )
                } else {
                    None
                },
            }
        }
    }

    /// Number of times that completing the pending request advances the
    /// generation: none without a request, once for a boot or a halt, twice
    /// for the halt of a reboot, which is followed by the boot at once.
    pub open spec fn finish_steps(self) -> nat {
        match self.requested {
            None => 0,
            Some(q) => if q.reboot_wanted {
                2
            } else {
                1
            },
        }
    }

    /// The instance once the pending request, `q`, has been carried out at
    /// time `now`, before a reboot is continued.
    pub open spec fn arrived(self, q: InstanceRuntimeStateRequested, now: Timestamp) -> SimState {
        SimState {
            current: InstanceRuntimeState {
                run_state: q.run_state,
                reboot_in_progress: q.reboot_wanted,
                sled_id: self.current.sled_id,
                gen: (self.current.gen + 1) as u64,
                time_updated: now,
            },
            requested: None,
        }
    }

    /// The instance after the pending request has been completed at time
    /// `now`.  Without a pending request nothing changes.  The halt of a
    /// reboot is followed by the transition that boots the instance again.
    pub open spec fn finish(self, now: Timestamp) -> SimState {
        match self.requested {
            None => self,
            Some(q) => {
                let arrived = self.arrived(q, now);
                if q.reboot_wanted {
                    arrived.transition(restart_request(), now)
                } else {
                    arrived
                }
            },
        }
    }

    /// The mark of a reboot in progress is set only while the instance
    /// halts for the reboot.
    pub open spec fn reboot_mark_fits(self) -> bool {
        self.current.reboot_in_progress ==> self.current.run_state is Stopping
    }

    /// Whether a reboot may be asked of the instance: it runs, is on its way
    /// up, or halts for a reboot already.
    pub open spec fn can_reboot(self) -> bool {
        ||| self.current.run_state is Starting
        ||| self.current.run_state is Running
        ||| self.current.run_state is Stopping && self.current.reboot_in_progress
    }

    /// Whether a transition to `target` only repeats what the instance is
    /// already doing: it is `Stopping` and asked to halt again with the same
    /// word on rebooting, or it rests `Stopped` with the reboot mark set and
    /// is asked to reboot.  Such a request records a new generation although
    /// neither the run state nor the reboot mark changes.
    pub open spec fn repeats_pending(self, target: InstanceRuntimeStateRequested) -> bool {
        let same_word = Self::reboot_wanted(target) == self.current.reboot_in_progress;
        ||| self.current.run_state is Stopping && Self::goal(target).spec_is_stopped() && same_word
        ||| self.current.run_state is Stopped && self.current.reboot_in_progress
            && Self::reboot_wanted(target)
    }
}

/// A simulated instance.
pub struct SimInstance {
    state: SimState,
    /// Sending half of the channel to the task that completes transitions.
    tx: Option<Sender<()>>,
}

impl View for SimInstance {
    type V = SimState;

    closed spec fn view(&self) -> SimState {
        self.state
    }
}

impl SimInstance {
    /// Whether the instance wakes a task when a transition has to be
    /// completed later.
    pub closed spec fn has_channel(&self) -> bool {
        self.tx is Some
    }

    pub open spec fn wf(&self) -> bool {
        self@.wf()
    }

    /// A new instance in state `initial` whose transitions a task will
    /// complete.  The task owns the returned receiver: each message on it
    /// asks for one call of [`SimInstance::transition_finish`].
    pub fn new_simulated_auto(initial: &InstanceRuntimeState) -> (r: (SimInstance, Receiver<()>))
        requires
            !initial.run_state.spec_is_transient(),
        ensures
            r.0@ == (SimState { current: *initial, requested: None }),
            r.0.wf(),
            r.0.has_channel(),
    {
        Self::adopt_auto(initial)
    }

    /// As [`SimInstance::new_simulated_auto`], for any `initial`.  An
    /// instance adopted in a transient state is well-formed only after its
    /// first transition.
    pub(crate) fn adopt_auto(initial: &InstanceRuntimeState) -> (r: (SimInstance, Receiver<()>))
        ensures
            r.0@ == (SimState { current: *initial, requested: None }),
            r.0.has_channel(),
    {
        let (tx, rx) = wake_channel(SIM_INSTANCE_CHANNEL_BUFFER_SIZE);
        (SimInstance { state: SimState { current: *initial, requested: None }, tx: Some(tx) }, rx)
    }

    /// As [`SimInstance::new_simulated_explicit`], for any `initial`.
    pub(crate) fn adopt_explicit(initial: &InstanceRuntimeState) -> (r: SimInstance)
        ensures
            r@ == (SimState { current: *initial, requested: None }),
            !r.has_channel(),
    {
        SimInstance { state: SimState { current: *initial, requested: None }, tx: None }
    }

    /// A new instance in state `initial` whose transitions are completed by
    /// explicit calls of [`SimInstance::transition_finish`].
    pub fn new_simulated_explicit(initial: &InstanceRuntimeState) -> (r: SimInstance)
        requires
            !initial.run_state.spec_is_transient(),
        ensures
            r@ == (SimState { current: *initial, requested: None }),
            r.wf(),
            !r.has_channel(),
    {
        Self::adopt_explicit(initial)
    }

    /// The state that the instance reports.
    pub fn current(&self) -> (r: InstanceRuntimeState)
        ensures
            r == self@.current,
    {
        self.state.current
    }

    /// The request that the instance is working on, if any.
    pub fn requested(&self) -> (r: Option<InstanceRuntimeStateRequested>)
        ensures
            r == self@.requested,
    {
        self.state.requested
    }

    /// Whether the instance came to rest destroyed: nothing is pending and
    /// nothing will ever be asked of it again.
    pub fn is_at_rest_destroyed(&self) -> (r: bool)
        ensures
            r == (self@.requested is None && self@.current.run_state is Destroyed),
    {
        self.state.requested.is_none() && self.state.current.run_state == InstanceState::Destroyed
    }

    /// Whether a transition to `target` would leave the instance untouched.
    pub fn is_noop(&self, target: &InstanceRuntimeStateRequested) -> (r: bool)
        ensures
            r == self@.is_noop(*target),
    {
        let before = self.state.current.run_state;
        let clamped = target.run_state.clamped();
        let pending = self.state.current.reboot_in_progress;
        let wanted = clamped == InstanceState::Running && target.reboot_wanted;
        clamped == before && ((!pending && !wanted) || (pending && wanted && before
            == InstanceState::Stopping))
    }

    /// Moves the instance towards `target` at time `now` and returns the
    /// request that this one replaces, if one was pending, and whether the
    /// transition has to be completed later.  The caller sees to it that
    /// [`SimInstance::transition_finish`] is called in that case.
    pub fn transition_at(
        &mut self,
        target: &InstanceRuntimeStateRequested,
        now: Timestamp,
    ) -> (r: (Option<InstanceRuntimeStateRequested>, bool))
        requires
            old(self)@.ready(),
            old(self)@.has_room(*target),
        ensures
            final(self).wf(),
            final(self).has_channel() == old(self).has_channel(),
            final(self)@ == old(self)@.transition(*target, now),
            r.0 == old(self)@.requested,
            r.1 == old(self)@.needs_async(*target),
    {
        let dropped = self.state.requested;
        let before = self.state.current.run_state;
        let clamped = target.run_state.clamped();
        let pending = self.state.current.reboot_in_progress;
        let wanted = clamped == InstanceState::Running && target.reboot_wanted;
        if clamped == before && ((!pending && !wanted) || (pending && wanted && before
            == InstanceState::Stopping)) {
            self.state.requested = None;
            return (dropped, false);
        }
        let goal = if wanted {
            InstanceState::Stopped
        } else {
            clamped
        };
        let (next, need_async) = if before.is_stopped() && !goal.is_stopped() {
            (InstanceState::Starting, true)
        } else if !before.is_stopped() && goal.is_stopped() {
            (InstanceState::Stopping, true)
        } else {
            (goal, false)
        };
        let current = InstanceRuntimeState {
            run_state: next,
            reboot_in_progress: wanted,
            sled_id: self.state.current.sled_id,
            gen: self.state.current.gen + 1,
            time_updated: now,
        };
        let requested = if need_async {
            Some(InstanceRuntimeStateRequested { run_state: goal, reboot_wanted: wanted })
        } else {
            None
        };
        self.state = SimState { current, requested };
        (dropped, need_async)
    }

    /// What a transition returns once the wake-up, if one was due, has been
    /// attempted with `outcome`: the replaced request, unless the channel
    /// turned out to have lost its receiver.  A full channel is no fault: a
    /// wake-up is pending then, and the task will find the new state.
    pub fn notified(
        outcome: NotifyOutcome,
        dropped: Option<InstanceRuntimeStateRequested>,
    ) -> (r: Result<Option<InstanceRuntimeStateRequested>, ApiError>)
        ensures
            outcome is Disconnected ==> (r matches Err(e) && e@ == channel_lost()),
            !(outcome is Disconnected) ==> r == Ok::<_, ApiError>(dropped),
    {
        match outcome {
            NotifyOutcome::Disconnected => Err(
                ApiError::internal_error(
                    "simulated instance lost the task that completes its transitions",
                ),
            ),
            _ => Ok(dropped),
        }
    }

    /// Wakes the task behind the channel, where there is one.
    fn wake(&mut self) -> (outcome: NotifyOutcome)
        ensures
            final(self)@ == old(self)@,
            final(self).has_channel() == old(self).has_channel(),
            !old(self).has_channel() ==> outcome is Sent,
    {
        match &mut self.tx {
            Some(tx) => try_notify(tx),
            None => NotifyOutcome::Sent,
        }
    }

    /// Moves the instance towards `target` and returns the request that this
    /// one replaces, if one was pending.
    ///
    /// The new state is recorded with the time of the call.  Where the
    /// transition has to be completed later, the task behind the channel is
    /// woken.  The call fails only if that channel has lost its receiver; the
    /// new state stands all the same.
    pub fn transition(&mut self, target: &InstanceRuntimeStateRequested) -> (r: Result<
        Option<InstanceRuntimeStateRequested>,
        ApiError,
    >)
        requires
            old(self)@.ready(),
            old(self)@.has_room(*target),
        ensures
            final(self).wf(),
            final(self).has_channel() == old(self).has_channel(),
            final(self)@ == old(self)@.transition(*target, final(self)@.current.time_updated),
            r matches Ok(dropped) ==> dropped == old(self)@.requested,
            r matches Err(e) ==> e@ == channel_lost(),
            !old(self).has_channel() || !old(self)@.needs_async(*target) ==> r is Ok,
    {
        let (dropped, need_async) = self.transition_at(target, now());
        if need_async {
            let outcome = self.wake();
            Self::notified(outcome, dropped)
        } else {
            Ok(dropped)
        }
    }

    /// Completes the pending request at time `now` and returns whether a
    /// reboot goes on, so that another completion is due.  Without a pending
    /// request nothing happens.
    pub fn transition_finish_at(&mut self, now: Timestamp) -> (more: bool)
        requires
            old(self).wf(),
            old(self)@.current.gen + old(self)@.finish_steps() <= u64::MAX,
        ensures
            final(self).wf(),
            final(self).has_channel() == old(self).has_channel(),
            final(self)@ == old(self)@.finish(now),
            more == (old(self)@.requested matches Some(q) && q.reboot_wanted),
            more == (final(self)@.requested is Some),
    {
        let q = match self.state.requested {
            None => {
                return false;
            },
            Some(q) => q,
        };
        let current = InstanceRuntimeState {
            run_state: q.run_state,
            reboot_in_progress: q.reboot_wanted,
            sled_id: self.state.current.sled_id,
            gen: self.state.current.gen + 1,
            time_updated: now,
        };
        self.state = SimState { current, requested: None };
        if q.reboot_wanted {
            let restart = InstanceRuntimeStateRequested {
                run_state: InstanceState::Running,
                reboot_wanted: false,
            };
            let _ = self.transition_at(&restart, now);
            true
        } else {
            false
        }
    }

    /// Completes the pending request: the instance arrives in the state that
    /// was asked for.  Without a pending request nothing happens: the call is
    /// a late wake-up.  Where the request was the halt of a reboot, the
    /// instance goes on to `Starting` at once and the task behind the channel
    /// is woken again.  The call fails only if that channel has lost its
    /// receiver; the new state stands all the same.
    pub fn transition_finish(&mut self) -> (r: Result<(), ApiError>)
        requires
            old(self).wf(),
            old(self)@.current.gen + old(self)@.finish_steps() <= u64::MAX,
        ensures
            final(self).wf(),
            final(self).has_channel() == old(self).has_channel(),
            final(self)@ == old(self)@.finish(final(self)@.current.time_updated),
            !(old(self)@.requested matches Some(q) && q.reboot_wanted)
                ==> final(self)@.requested is None,
            r matches Err(e) ==> e@ == channel_lost(),
            !old(self).has_channel() || !(old(self)@.requested matches Some(q) && q.reboot_wanted)
                ==> r is Ok,
    {
        if self.state.requested.is_none() {
            return Ok(());
        }
        let more = self.transition_finish_at(now());
        if more {
            match self.wake() {
                NotifyOutcome::Disconnected => Err(
                    ApiError::internal_error(
                        "simulated instance lost the task that completes its transitions",
                    ),
                ),
                _ => Ok(()),
            }
        } else {
            Ok(())
        }
    }

    /// Gives up the wake-up channel, where there is one, and closes it: the
    /// task behind it ends once it has served the wake-ups that are pending.
    /// The state of the instance stays as it is; from here on the instance
    /// wakes nobody, and its transitions are completed by explicit calls.
    pub fn close(&mut self)
        ensures
            final(self)@ == old(self)@,
            !final(self).has_channel(),
    {
        match self.tx.take() {
            Some(mut tx) => close_wake_channel(&mut tx),
            None => {},
        }
    }
}

/// A request is pending exactly while the instance is `Starting` or
/// `Stopping`.
pub proof fn lemma_requested_iff_transient(s: SimState)
    requires
        s.wf(),
    ensures
        s.requested is Some <==> s.current.run_state.spec_is_transient(),
{
}

/// A transition leaves an instance well-formed, whatever is asked for.
pub proof fn lemma_transition_preserves_wf(
    s: SimState,
    target: InstanceRuntimeStateRequested,
    now: Timestamp,
)
    requires
        s.ready(),
    ensures
        s.transition(target, now).wf(),
{
}

/// Where reboots are asked only of instances that may be rebooted, the mark
/// of a reboot in progress is set only while an instance halts for the
/// reboot: a transition sets it with `Stopping` or clears it, and the
/// completion of the halt clears it.
pub proof fn lemma_reboot_mark_fits(
    s: SimState,
    target: InstanceRuntimeStateRequested,
    now: Timestamp,
)
    requires
        s.ready(),
        target.reboot_wanted ==> s.can_reboot(),
    ensures
        s.transition(target, now).reboot_mark_fits(),
        s.wf() && s.reboot_mark_fits() ==> s.finish(now).reboot_mark_fits(),
{
}

/// Completing the pending request keeps an instance well-formed.
pub proof fn lemma_finish_preserves_wf(s: SimState, now: Timestamp)
    requires
        s.wf(),
    ensures
        s.finish(now).wf(),
{
}

/// A no-op leaves the instance as it was, generation included; every other
/// transition advances the generation by exactly one.  So whenever the run
/// state or the reboot mark differs after a transition, the generation is
/// greater than before.
pub proof fn lemma_transition_generation(
    s: SimState,
    target: InstanceRuntimeStateRequested,
    now: Timestamp,
)
    requires
        s.wf(),
        s.current.gen < u64::MAX,
    ensures
        s.is_noop(target) ==> s.transition(target, now) == s,
        !s.is_noop(target) ==> s.transition(target, now).current.gen == s.current.gen + 1,
        s.transition(target, now).current.run_state != s.current.run_state || s.transition(
            target,
            now,
        ).current.reboot_in_progress != s.current.reboot_in_progress ==> s.transition(
            target,
            now,
        ).current.gen > s.current.gen,
{
}

/// Unless the request only repeats what the instance is already doing, a
/// transition that changes neither the run state nor the reboot mark keeps
/// the generation, and everything else with it.
pub proof fn lemma_transition_unchanged_keeps_generation(
    s: SimState,
    target: InstanceRuntimeStateRequested,
    now: Timestamp,
)
    requires
        s.wf(),
        s.current.gen < u64::MAX,
        !s.repeats_pending(target),
        s.transition(target, now).current.run_state == s.current.run_state,
        s.transition(target, now).current.reboot_in_progress == s.current.reboot_in_progress,
    ensures
        s.transition(target, now).current.gen == s.current.gen,
        s.transition(target, now) == s,
{
}

/// A request that only repeats what the instance is already doing changes
/// neither the run state nor the reboot mark, and still advances the
/// generation.
pub proof fn lemma_repeated_request_advances_generation(
    s: SimState,
    target: InstanceRuntimeStateRequested,
    now: Timestamp,
)
    requires
        s.wf(),
        s.current.gen < u64::MAX,
        s.repeats_pending(target),
    ensures
        s.transition(target, now).current.run_state == s.current.run_state,
        s.transition(target, now).current.reboot_in_progress == s.current.reboot_in_progress,
        s.transition(target, now).current.gen == s.current.gen + 1,
{
}

/// Once the pending request has been completed and no reboot goes on, no
/// request is pending.
pub proof fn lemma_finish_clears_request(s: SimState, now: Timestamp)
    requires
        s.wf(),
        !(s.requested matches Some(q) && q.reboot_wanted),
    ensures
        s.finish(now).requested is None,
{
}

/// A reboot of a running instance shows exactly three states, each under a
/// greater generation than the one before: `Stopping` with the reboot mark,
/// then `Starting` without it, then `Running` with nothing pending.
pub proof fn lemma_reboot_sequence(s: SimState, t1: Timestamp, t2: Timestamp, t3: Timestamp)
    requires
        s.wf(),
        s.current.run_state is Running,
        s.current.gen + 4 <= u64::MAX,
    ensures
        ({
            let reboot = InstanceRuntimeStateRequested {
                run_state: InstanceState::Running,
                reboot_wanted: true,
            };
            let halting = s.transition(reboot, t1);
            let booting = halting.finish(t2);
            let running = booting.finish(t3);
            &&& halting.current.run_state is Stopping
            &&& halting.current.reboot_in_progress
            &&& halting.current.gen == s.current.gen + 1
            &&& booting.current.run_state is Starting
            &&& !booting.current.reboot_in_progress
            &&& booting.current.gen == s.current.gen + 3
            &&& running.current.run_state is Running
            &&& !running.current.reboot_in_progress
            &&& running.current.gen == s.current.gen + 4
            &&& running.requested is None
        }),
{
}

} // verus!
