//! The controller of one sled: the registry of the instances that the sled
//! hosts, and the place where their transitions are asked for and
//! completed.

use crate::error::ApiError;
use crate::error::ApiErrorView;
use crate::model::Instance;
use crate::model::InstanceRuntimeState;
use crate::model::InstanceRuntimeStateRequested;
use crate::model::InstanceState;
use crate::model::Timestamp;
use crate::sim_instance::channel_lost;
use crate::sim_instance::SimInstance;
use crate::sim_instance::SimState;
use futures::channel::mpsc::Receiver;
use std::collections::BTreeMap;
use vstd::prelude::*;
use vstd::string::*;

verus! {

/// How the transitions of the instances on a sled are completed.
#[derive(Clone, Copy, Debug, PartialEq, Eq, Structural)]
pub enum ServerControllerSimMode {
    /// A task per instance completes each transition some time after it
    /// began.
    Auto,
    /// Transitions are completed by explicit calls only.
    Api,
}

/// A state of an instance that its sled reports to the rack.
#[derive(Clone, Copy, Debug, PartialEq, Eq, Structural)]
pub struct InstanceUpdate {
    pub instance_id: u128,
    pub state: InstanceRuntimeState,
    /// The instance came to rest destroyed and the sled has forgotten it.
    pub destroyed: bool,
}

/// The receiving half of the wake-up channel of a new instance.  Whoever
/// takes it runs the task of that instance: for each message, wait, then call
/// [`ServerController::instance_poke`] for `instance_id`.
#[derive(Debug)]
pub struct PendingWorker {
    pub instance_id: u128,
    pub rx: Receiver<()>,
}

/// What a sled controller is, apart from the channels of its instances.
pub struct ServerControllerView {
    pub id: u128,
    pub sim_mode: ServerControllerSimMode,
    /// The instances on the sled, by their ids.
    pub instances: Map<u128, SimState>,
    /// The instances whose task has not been started yet, oldest first.
    pub workers: Seq<u128>,
    /// The reports that could not be delivered yet, oldest first.
    pub retries: Seq<InstanceUpdate>,
}

/// The error for a reboot towards a state other than `Running`.
pub open spec fn bad_reboot_target() -> ApiErrorView {
    ApiErrorView::InvalidRequest { message: "cannot reboot to a state other than \"running\""@ }
}

/// The error for a reboot of an instance that shows `state`.
pub open spec fn bad_reboot_state(state: InstanceState) -> ApiErrorView {
    ApiErrorView::InvalidRequest {
        message: "cannot reboot instance in state \""@ + state.spec_label() + "\""@,
    }
}

/// The error for an instance that has used up its generations.
pub open spec fn generations_exhausted() -> ApiErrorView {
    ApiErrorView::InternalError { message: "instance has used up its generation numbers"@ }
}

impl ServerControllerView {
    /// The instance that a request for `id` starts from: the one on the sled
    /// or, where the sled has none of that id, one in the state that the
    /// snapshot shows.
    pub open spec fn starting_point(self, id: u128, snapshot: InstanceRuntimeState) -> SimState {
        if self.instances.contains_key(id) {
            self.instances[id]
        } else {
            SimState { current: snapshot, requested: None }
        }
    }

    /// Whether a reboot of instance `id` is refused: the instance, as the
    /// sled knows it or as the snapshot shows it, neither runs nor is on its
    /// way up nor is halting for a reboot.
    pub open spec fn reboot_refused(self, id: u128, snapshot: InstanceRuntimeState) -> bool {
        !self.starting_point(id, snapshot).can_reboot()
    }

    /// The error with which a request for `target` on instance `id` is
    /// turned down before anything changes, if it is.
    pub open spec fn refusal(
        self,
        id: u128,
        snapshot: InstanceRuntimeState,
        target: InstanceRuntimeStateRequested,
    ) -> Option<ApiErrorView> {
        if !target.spec_is_valid() {
            Some(bad_reboot_target())
        } else if target.reboot_wanted && self.reboot_refused(id, snapshot) {
            Some(bad_reboot_state(self.starting_point(id, snapshot).current.run_state))
        } else if !self.starting_point(id, snapshot).has_room(target) {
            Some(generations_exhausted())
        } else {
            None
        }
    }

    /// The sled after a request for `target` on instance `id` that was not
    /// turned down, recorded at time `now`: the instance is on the sled, one
    /// transition further, and waits for its task if it is new and the sled
    /// completes transitions by itself.
    pub open spec fn ensured(
        self,
        id: u128,
        snapshot: InstanceRuntimeState,
        target: InstanceRuntimeStateRequested,
        now: Timestamp,
    ) -> ServerControllerView {
        ServerControllerView {
            instances: self.instances.insert(
                id,
                self.starting_point(id, snapshot).transition(target, now),
            ),
            workers: if !self.instances.contains_key(id) && self.sim_mode is Auto {
                self.workers.push(id)
            } else {
                self.workers
            },
            ..self
        }
    }

    /// Whether instance `id` is on the sled and has generations left for
    /// the completion of what it is doing.
    pub open spec fn can_finish(self, id: u128) -> bool {
        &&& self.instances.contains_key(id)
        &&& self.instances[id].current.gen + self.instances[id].finish_steps() <= u64::MAX
    }

    /// What the sled reports once instance `id` has completed, at time
    /// `now`, whatever it was doing.
    pub open spec fn poke_report(self, id: u128, now: Timestamp) -> InstanceUpdate {
        let after = self.instances[id].finish(now);
        InstanceUpdate {
            instance_id: id,
            state: after.current,
            destroyed: after.requested is None && after.current.run_state is Destroyed,
        }
    }

    /// The sled after instance `id` has completed, at time `now`, whatever
    /// it was doing: the instance has left the sled if it came to rest
    /// destroyed, and is one step further otherwise.
    pub open spec fn poked(self, id: u128, now: Timestamp) -> ServerControllerView {
        ServerControllerView {
            instances: if self.poke_report(id, now).destroyed {
                self.instances.remove(id)
            } else {
                self.instances.insert(id, self.instances[id].finish(now))
            },
            ..self
        }
    }

    /// The sled once the delivery of `update` to the rack has been
    /// attempted: a report that did not arrive waits to be tried again.
    pub open spec fn settled(self, update: InstanceUpdate, delivered: bool) -> ServerControllerView {
        if delivered {
            self
        } else {
            ServerControllerView { retries: self.retries.push(update), ..self }
        }
    }

    /// What the completion of whatever instance `id` is doing comes to,
    /// where `self` is the sled before, `after` the sled after and `r` the
    /// answer.
    pub open spec fn poke_outcome(
        self,
        after: ServerControllerView,
        id: u128,
        r: Result<Option<InstanceUpdate>, ApiError>,
    ) -> bool {
        &&& !self.instances.contains_key(id) ==> {
                &&& r matches Ok(None)
                &&& after == self
            }
        &&& self.instances.contains_key(id) && !self.can_finish(id) ==> {
                &&& r matches Err(e) && e@ == generations_exhausted()
                &&& after == self
            }
        &&& self.can_finish(id) ==> {
                &&& r matches Ok(report) ==> {
                    &&& report matches Some(update)
                    &&& update == self.poke_report(id, update.state.time_updated)
                    &&& after == self.poked(id, update.state.time_updated)
                }
                &&& r matches Err(e) ==> {
                    &&& e@ == channel_lost()
                    &&& after.instances.contains_key(id)
                    &&& after == (ServerControllerView {
                        instances: self.instances.insert(
                            id,
                            self.instances[id].finish(
                                after.instances[id].current.time_updated,
                            ),
                        ),
                        ..self
                    })
                }
                &&& !(self.sim_mode is Auto) || !(self.instances[id].requested matches Some(
                    q,
                ) && q.reboot_wanted) ==> r is Ok
            }
    }

    /// Every instance on the sled is well-formed, and shows a reboot in
    /// progress only while it halts for one.
    pub open spec fn wf(self) -> bool {
        forall|id: u128| #[trigger]
            self.instances.contains_key(id) ==> {
                &&& self.instances[id].wf()
                &&& self.instances[id].reboot_mark_fits()
            }
    }
}

/// The controller of one sled.
pub struct ServerController {
    id: u128,
    sim_mode: ServerControllerSimMode,
    instances: BTreeMap<u128, SimInstance>,
    workers: Vec<PendingWorker>,
    retries: Vec<InstanceUpdate>,
}

impl View for ServerController {
    type V = ServerControllerView;

    closed spec fn view(&self) -> ServerControllerView {
        ServerControllerView {
            id: self.id,
            sim_mode: self.sim_mode,
            instances: self.instances@.map_values(|i: SimInstance| i@),
            workers: self.workers@.map_values(|w: PendingWorker| w.instance_id),
            retries: self.retries@,
        }
    }
}

impl ServerController {
    /// Every instance on the sled is well-formed, and has a wake-up channel
    /// exactly if the sled completes transitions by itself.
    pub closed spec fn wf(&self) -> bool {
        &&& self@.wf()
        &&& forall|id: u128| #[trigger]
            self.instances@.contains_key(id) ==> (self.instances@[id].has_channel() <==> self.sim_mode is Auto)
    }

    /// What `wf` says of the instances.
    pub proof fn lemma_wf(&self)
        requires
            self.wf(),
        ensures
            self@.wf(),
    {
    }

    /// A simulated controller for the sled `id`, with no instances yet.
    pub fn new_simulated_with_id(id: &u128, sim_mode: ServerControllerSimMode) -> (r:
        ServerController)
        ensures
            r.wf(),
            r@.id == *id,
            r@.sim_mode == sim_mode,
            r@.instances == Map::<u128, SimState>::empty(),
            r@.workers == Seq::<u128>::empty(),
            r@.retries == Seq::<InstanceUpdate>::empty(),
    {
        let r = ServerController {
            id: *id,
            sim_mode,
            instances: BTreeMap::new(),
            workers: Vec::new(),
            retries: Vec::new(),
        };
        assert(r@.instances =~= Map::<u128, SimState>::empty());
        assert(r@.workers =~= Seq::<u128>::empty());
        r
    }

    pub fn id(&self) -> (r: u128)
        ensures
            r == self@.id,
    {
        self.id
    }

    pub fn sim_mode(&self) -> (r: ServerControllerSimMode)
        ensures
            r == self@.sim_mode,
    {
        self.sim_mode
    }

    /// The state that instance `id` reports, if the sled hosts it.
    pub fn instance_state(&self, id: u128) -> (r: Option<InstanceRuntimeState>)
        ensures
            match r {
                Some(state) => self@.instances.contains_key(id) && state
                    == self@.instances[id].current,
                None => !self@.instances.contains_key(id),
            },
    {
        match self.instances.get(&id) {
            Some(instance) => Some(instance.current()),
            None => None,
        }
    }

    /// The number of instances on the sled.
    pub fn instance_count(&self) -> (r: usize)
        ensures
            r == self@.instances.len(),
    {
        proof {
            lemma_map_values_len(self.instances@, |i: SimInstance| i@);
        }
        self.instances.len()
    }

    /// Sees to it that the instance of `api_instance` is on this sled and on
    /// its way to `target`, and returns the state that it then reports.
    ///
    /// An instance that the sled does not know yet is taken on in the state
    /// that `api_instance` shows; where the sled completes transitions by
    /// itself, the instance joins those that wait for their task.  The
    /// request is turned down, and nothing changes, where `target` asks for a
    /// reboot towards a state other than `Running`, where it asks for the
    /// reboot of an instance, known or new, that is neither up nor halting
    /// for a reboot, and where the instance has used up its generations.  Beyond
    /// that the call fails only if the wake-up channel of the instance has
    /// lost its receiver; the new state stands all the same.
    pub fn instance_ensure(
        &mut self,
        api_instance: &Instance,
        target: &InstanceRuntimeStateRequested,
    ) -> (r: Result<InstanceRuntimeState, ApiError>)
        requires
            old(self).wf(),
        ensures
            final(self).wf(),
            match old(self)@.refusal(api_instance.identity.id, api_instance.runtime, *target) {
                Some(refusal) => {
                    &&& r matches Err(e) && e@ == refusal
                    &&& final(self)@ == old(self)@
                },
                None => {
                    let id = api_instance.identity.id;
                    &&& final(self)@.instances.contains_key(id)
                    &&& final(self)@ == old(self)@.ensured(
                        id,
                        api_instance.runtime,
                        *target,
                        final(self)@.instances[id].current.time_updated,
                    )
                    &&& r matches Ok(state) ==> state == final(self)@.instances[id].current
                    &&& r matches Err(e) ==> e@ == channel_lost()
                    &&& !(old(self)@.sim_mode is Auto) || !old(self)@.starting_point(
                        id,
                        api_instance.runtime,
                    ).needs_async(*target) ==> r is Ok
                },
            },
    {
        if !target.is_valid() {
            return Err(ApiError::invalid_request("cannot reboot to a state other than \"running\""));
        }
        let id = api_instance.identity.id;
        let ghost before = self@;
        let shown = match self.instances.get(&id) {
            Some(instance) => instance.current(),
            None => api_instance.runtime,
        };
        assert(shown == before.starting_point(id, api_instance.runtime).current);
        let state = shown.run_state;
        if target.reboot_wanted && state != InstanceState::Starting && state
            != InstanceState::Running && (state != InstanceState::Stopping
            || !shown.reboot_in_progress) {
            let mut message = String::from_str("cannot reboot instance in state \"");
            message.append(state.label());
            message.append("\"");
            return Err(ApiError::InvalidRequest { message });
        }
        let (mut instance, is_new) = match self.instances.remove(&id) {
            Some(instance) => (instance, false),
            None => {
                match self.sim_mode {
                    ServerControllerSimMode::Auto => {
                        let (instance, rx) = SimInstance::adopt_auto(&api_instance.runtime);
                        self.workers.push(PendingWorker { instance_id: id, rx });
                        (instance, true)
                    },
                    ServerControllerSimMode::Api => {
                        (SimInstance::adopt_explicit(&api_instance.runtime), true)
                    },
                }
            },
        };
        assert(instance@ == before.starting_point(id, api_instance.runtime));
        assert(self@.instances =~= before.instances.remove(id));
        let current = instance.current();
        if current.gen == u64::MAX && !instance.is_noop(target) {
            if !is_new {
                self.instances.insert(id, instance);
            } else {
                match self.sim_mode {
                    ServerControllerSimMode::Auto => {
                        let _ = self.workers.pop();
                    },
                    ServerControllerSimMode::Api => {},
                }
            }
            assert(self@.instances =~= before.instances);
            assert(self@.workers =~= before.workers);
            return Err(ApiError::internal_error("instance has used up its generation numbers"));
        }
        let outcome = instance.transition(target);
        let state = instance.current();
        let ghost after = instance@;
        self.instances.insert(id, instance);
        assert(self@.instances =~= before.instances.insert(id, after));
        assert(self@.workers =~= if is_new && before.sim_mode is Auto {
            before.workers.push(id)
        } else {
            before.workers
        });
        match outcome {
            Ok(_) => Ok(state),
            Err(e) => Err(e),
        }
    }

    /// Completes whatever transition instance `id` is in, and returns the
    /// state to report to the rack.
    ///
    /// Where the sled has no such instance, nothing happens and nothing is
    /// to be reported.  An instance with nothing pending is reported as it
    /// is.  An instance that comes to rest destroyed leaves the sled: its
    /// channel is closed and the report says so.  The call fails, and nothing
    /// changes, where the instance has used up its generations.  Beyond that
    /// it fails only if the wake-up channel of the instance has lost its
    /// receiver; the new state stands all the same.
    pub fn instance_poke(&mut self, id: u128) -> (r: Result<Option<InstanceUpdate>, ApiError>)
        requires
            old(self).wf(),
        ensures
            final(self).wf(),
            old(self)@.poke_outcome(final(self)@, id, r),
    {
        let ghost before = self@;
        let mut instance = match self.instances.remove(&id) {
            Some(instance) => instance,
            None => {
                assert(self@.instances =~= before.instances);
                return Ok(None);
            },
        };
        assert(self@.instances =~= before.instances.remove(id));
        let current = instance.current();
        let steps: u64 = match instance.requested() {
            None => 0,
            Some(q) => if q.reboot_wanted {
                2
            } else {
                1
            },
        };
        if current.gen > u64::MAX - steps {
            self.instances.insert(id, instance);
            assert(self@.instances =~= before.instances);
            return Err(ApiError::internal_error("instance has used up its generation numbers"));
        }
        let outcome = instance.transition_finish();
        let state = instance.current();
        let ghost after = instance@;
        match outcome {
            Err(e) => {
                self.instances.insert(id, instance);
                assert(self@.instances =~= before.instances.insert(id, after));
                Err(e)
            },
            Ok(()) => {
                if instance.is_at_rest_destroyed() {
                    instance.close();
                    assert(self@.instances =~= before.instances.remove(id));
                    Ok(Some(InstanceUpdate { instance_id: id, state, destroyed: true }))
                } else {
                    self.instances.insert(id, instance);
                    assert(self@.instances =~= before.instances.insert(id, after));
                    Ok(Some(InstanceUpdate { instance_id: id, state, destroyed: false }))
                }
            },
        }
    }

    /// Keeps a report that could not be delivered, to be tried again.
    pub fn defer_update(&mut self, update: InstanceUpdate)
        requires
            old(self).wf(),
        ensures
            final(self).wf(),
            final(self)@ == (ServerControllerView {
                retries: old(self)@.retries.push(update),
                ..old(self)@
            }),
    {
        self.retries.push(update);
    }

    /// Settles a report once its delivery to the rack has been attempted:
    /// a report that did not arrive joins those that wait to be tried again,
    /// so that every report arrives at least once; a report that arrived
    /// needs nothing more.
    pub fn settle_report(&mut self, update: InstanceUpdate, delivered: bool)
        requires
            old(self).wf(),
        ensures
            final(self).wf(),
            final(self)@ == old(self)@.settled(update, delivered),
    {
        if !delivered {
            self.defer_update(update);
        }
    }

    /// Hands out the reports that wait to be tried again, oldest first, and
    /// forgets them.
    pub fn take_deferred(&mut self) -> (r: Vec<InstanceUpdate>)
        requires
            old(self).wf(),
        ensures
            final(self).wf(),
            r@ == old(self)@.retries,
            final(self)@ == (ServerControllerView {
                retries: Seq::<InstanceUpdate>::empty(),
                ..old(self)@
            }),
    {
        let mut taken: Vec<InstanceUpdate> = Vec::new();
        std::mem::swap(&mut taken, &mut self.retries);
        taken
    }

    /// Hands out the receivers of the instances that wait for their task,
    /// oldest first, and forgets them.
    pub fn take_workers(&mut self) -> (r: Vec<PendingWorker>)
        requires
            old(self).wf(),
        ensures
            final(self).wf(),
            r@.map_values(|w: PendingWorker| w.instance_id) == old(self)@.workers,
            final(self)@ == (ServerControllerView {
                workers: Seq::<u128>::empty(),
                ..old(self)@
            }),
    {
        let mut taken: Vec<PendingWorker> = Vec::new();
        std::mem::swap(&mut taken, &mut self.workers);
        assert(self@.workers =~= Seq::<u128>::empty());
        taken
    }
}

/// What a test suite may do to a sled controller beyond what the rack does.
pub trait ServerControllerTestInterfaces {
    /// Completes whatever transition instance `id` is in, as the task of
    /// the instance would in its own time.
    fn instance_finish_transition(&mut self, id: u128) -> (r: Result<
        Option<InstanceUpdate>,
        ApiError,
    >)
        requires
            old(self).in_order(),
    ;

    /// What the controller must satisfy for the test suite to act on it.
    spec fn in_order(&self) -> bool;
}

impl ServerControllerTestInterfaces for ServerController {
    open spec fn in_order(&self) -> bool {
        self.wf()
    }

    fn instance_finish_transition(&mut self, id: u128) -> (r: Result<
        Option<InstanceUpdate>,
        ApiError,
    >)
        ensures
            final(self).wf(),
            old(self)@.poke_outcome(final(self)@, id, r),
    {
        self.instance_poke(id)
    }
}

/// Mapping the values of a finite map keeps its size.
pub proof fn lemma_map_values_len<K, V, W>(m: Map<K, V>, f: spec_fn(V) -> W)
    ensures
        m.map_values(f).dom() == m.dom(),
        m.map_values(f).len() == m.len(),
{
    assert(m.map_values(f).dom() =~= m.dom());
}

} // verus!
