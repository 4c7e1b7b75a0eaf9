use futures::channel::mpsc::Receiver;
use oxide_rack::model::InstanceRuntimeState;
use oxide_rack::model::InstanceRuntimeStateRequested;
use oxide_rack::model::InstanceState;
use oxide_rack::model::Timestamp;
use oxide_rack::sim_instance::SimInstance;

fn make_instance(initial_state: InstanceState) -> (SimInstance, Receiver<()>) {
    let initial_runtime = InstanceRuntimeState {
        run_state: initial_state,
        reboot_in_progress: false,
        sled_id: 0x8f3c_2a10_0000_4000_8000_0000_0000_0001,
        gen: 1,
        time_updated: Timestamp { secs: 0, nanos: 0 },
    };
    SimInstance::new_simulated_auto(&initial_runtime)
}

fn request(run_state: InstanceState, reboot_wanted: bool) -> InstanceRuntimeStateRequested {
    InstanceRuntimeStateRequested { run_state, reboot_wanted }
}

#[test]
#[allow(deprecated)]
fn test_sim_instance() {
    let (mut instance, mut rx) = make_instance(InstanceState::Creating);
    let r1 = instance.current();

    assert_eq!(r1.run_state, InstanceState::Creating);
    assert_eq!(r1.gen, 1);

    assert!(instance.requested().is_none());
    instance.transition_finish().unwrap();
    assert!(instance.requested().is_none());
    assert_eq!(&r1.time_updated, &instance.current().time_updated);
    assert_eq!(&r1.run_state, &instance.current().run_state);
    assert_eq!(r1.gen, instance.current().gen);
    assert!(rx.try_next().is_err());

    let stopped_states = vec![
        InstanceState::Stopped,
        InstanceState::Repairing,
        InstanceState::Failed,
        InstanceState::Destroyed,
    ];
    let mut rprev = r1;
    for state in stopped_states {
        assert!(rprev.run_state.is_stopped());
        let dropped = instance.transition(&request(state, false)).unwrap();
        assert!(dropped.is_none());
        assert!(instance.requested().is_none());
        let rnext = instance.current();
        if state != rprev.run_state {
            assert!(rnext.gen > rprev.gen);
        }
        assert!(rnext.time_updated >= rprev.time_updated);
        assert_eq!(rnext.run_state, state);
        assert!(rx.try_next().is_err());
        rprev = rnext;
    }

    assert!(rprev.run_state.is_stopped());
    assert!(rx.try_next().is_err());
    let dropped = instance.transition(&request(InstanceState::Running, false)).unwrap();
    assert!(dropped.is_none());
    assert!(instance.requested().is_some());
    assert!(rx.try_next().is_ok());
    let rnext = instance.current();
    assert!(rnext.gen > rprev.gen);
    assert!(rnext.time_updated >= rprev.time_updated);
    assert_eq!(rnext.run_state, InstanceState::Starting);
    assert!(!rnext.run_state.is_stopped());
    rprev = rnext;

    instance.transition_finish().unwrap();
    let rnext = instance.current();
    assert!(rnext.gen > rprev.gen);
    assert!(rnext.time_updated >= rprev.time_updated);
    assert!(instance.requested().is_none());
    assert!(rx.try_next().is_err());
    assert_eq!(rprev.run_state, InstanceState::Starting);
    assert_eq!(rnext.run_state, InstanceState::Running);
    rprev = rnext;
    instance.transition_finish().unwrap();
    let rnext = instance.current();
    assert_eq!(rprev.gen, rnext.gen);

    assert!(!rprev.run_state.is_stopped());
    let dropped = instance.transition(&request(InstanceState::Running, false)).unwrap();
    assert!(dropped.is_none());
    assert!(instance.requested().is_none());
    assert!(rx.try_next().is_err());
    let rnext = instance.current();
    assert_eq!(rnext.gen, rprev.gen);
    assert_eq!(rnext.time_updated, rprev.time_updated);
    assert_eq!(rnext.run_state, rprev.run_state);
    rprev = rnext;

    assert!(!rprev.run_state.is_stopped());
    assert!(rx.try_next().is_err());
    let dropped = instance.transition(&request(InstanceState::Destroyed, false)).unwrap();
    assert!(dropped.is_none());
    assert!(instance.requested().is_some());
    let rnext = instance.current();
    assert!(rnext.gen > rprev.gen);
    assert!(rnext.time_updated >= rprev.time_updated);
    assert_eq!(rnext.run_state, InstanceState::Stopping);
    assert!(!rnext.run_state.is_stopped());
    rprev = rnext;

    instance.transition_finish().unwrap();
    let rnext = instance.current();
    assert!(rnext.gen > rprev.gen);
    assert!(rnext.time_updated >= rprev.time_updated);
    assert!(instance.requested().is_none());
    assert_eq!(rprev.run_state, InstanceState::Stopping);
    assert_eq!(rnext.run_state, InstanceState::Destroyed);
    rprev = rnext;
    instance.transition_finish().unwrap();
    let rnext = instance.current();
    assert_eq!(rprev.gen, rnext.gen);

    assert!(rprev.run_state.is_stopped());
    let dropped = instance.transition(&request(InstanceState::Running, false)).unwrap();
    assert!(dropped.is_none());
    assert!(instance.requested().is_some());
    let rnext = instance.current();
    assert!(rnext.gen > rprev.gen);
    assert!(rnext.time_updated >= rprev.time_updated);
    assert_eq!(rnext.run_state, InstanceState::Starting);
    assert!(!rnext.run_state.is_stopped());
    rprev = rnext;

    let dropped = instance.transition(&request(InstanceState::Destroyed, false)).unwrap();
    assert_eq!(dropped.unwrap().run_state, InstanceState::Running);
    let rnext = instance.current();
    assert!(rnext.gen > rprev.gen);
    assert!(rnext.time_updated >= rprev.time_updated);
    assert_eq!(rnext.run_state, InstanceState::Stopping);
    rprev = rnext;

    instance.transition_finish().unwrap();
    let rnext = instance.current();
    assert!(rnext.gen > rprev.gen);
    assert!(rnext.time_updated >= rprev.time_updated);
    assert!(instance.requested().is_none());
    assert_eq!(rprev.run_state, InstanceState::Stopping);
    assert_eq!(rnext.run_state, InstanceState::Destroyed);
    rprev = rnext;
    instance.transition_finish().unwrap();
    let rnext = instance.current();
    assert_eq!(rprev.gen, rnext.gen);
}

#[test]
fn test_sim_instance_reboot() {
    let (mut instance, _rx) = make_instance(InstanceState::Creating);
    let r1 = instance.current();

    assert_eq!(r1.run_state, InstanceState::Creating);
    assert_eq!(r1.gen, 1);
    assert!(instance.transition(&request(InstanceState::Running, false)).unwrap().is_none());
    instance.transition_finish().unwrap();
    let (rprev, rnext) = (r1, instance.current());
    assert!(rnext.gen > rprev.gen);

    assert!(instance.transition(&request(InstanceState::Running, true)).unwrap().is_none());
    let (rprev, rnext) = (rnext, instance.current());
    assert!(rnext.gen > rprev.gen);
    assert!(rnext.time_updated > rprev.time_updated);
    assert_eq!(rnext.run_state, InstanceState::Stopping);
    assert!(rnext.reboot_in_progress);
    assert!(instance.requested().is_some());
    instance.transition_finish().unwrap();
    let (rprev, rnext) = (rnext, instance.current());
    assert!(rnext.gen > rprev.gen);
    assert!(rnext.time_updated > rprev.time_updated);
    assert_eq!(rnext.run_state, InstanceState::Starting);
    assert!(!rnext.reboot_in_progress);
    assert!(instance.requested().is_some());
    instance.transition_finish().unwrap();
    let (rprev, rnext) = (rnext, instance.current());
    assert!(rnext.gen > rprev.gen);
    assert!(rnext.time_updated > rprev.time_updated);
    assert_eq!(rnext.run_state, InstanceState::Running);
    assert!(instance.requested().is_none());

    assert!(instance.transition(&request(InstanceState::Running, true)).unwrap().is_none());
    let rnext = instance.current();
    assert_eq!(rnext.run_state, InstanceState::Stopping);
    assert!(instance.transition(&request(InstanceState::Running, true)).unwrap().is_some());
    let rnext = instance.current();
    assert_eq!(rnext.run_state, InstanceState::Stopping);
    instance.transition_finish().unwrap();
    let rnext = instance.current();
    assert_eq!(rnext.run_state, InstanceState::Starting);
    instance.transition_finish().unwrap();
    let rnext = instance.current();
    assert_eq!(rnext.run_state, InstanceState::Running);
    assert!(instance.requested().is_none());
    instance.transition_finish().unwrap();
    let (rprev, rnext) = (rnext, instance.current());
    assert_eq!(rprev.gen, rnext.gen);

    assert!(instance.transition(&request(InstanceState::Running, true)).unwrap().is_none());
    let rnext = instance.current();
    assert_eq!(rnext.run_state, InstanceState::Stopping);
    instance.transition_finish().unwrap();
    let rnext = instance.current();
    assert_eq!(rnext.run_state, InstanceState::Starting);
    assert!(instance.transition(&request(InstanceState::Running, true)).unwrap().is_some());
    let rnext = instance.current();
    assert_eq!(rnext.run_state, InstanceState::Stopping);
    instance.transition_finish().unwrap();
    let rnext = instance.current();
    assert_eq!(rnext.run_state, InstanceState::Starting);
    instance.transition_finish().unwrap();
    let rnext = instance.current();
    assert_eq!(rnext.run_state, InstanceState::Running);
    assert!(instance.requested().is_none());
    instance.transition_finish().unwrap();
    let (rprev, rnext) = (rnext, instance.current());
    assert_eq!(rprev.gen, rnext.gen);

    assert!(instance.transition(&request(InstanceState::Stopped, false)).unwrap().is_none());
    instance.transition_finish().unwrap();
    let rnext = instance.current();
    assert_eq!(rnext.run_state, InstanceState::Stopped);
    assert!(instance.transition(&request(InstanceState::Running, false)).unwrap().is_none());
    let rnext = instance.current();
    assert_eq!(rnext.run_state, InstanceState::Starting);
    assert!(instance.transition(&request(InstanceState::Running, true)).unwrap().is_some());
    let rnext = instance.current();
    assert_eq!(rnext.run_state, InstanceState::Stopping);
    instance.transition_finish().unwrap();
    let rnext = instance.current();
    assert_eq!(rnext.run_state, InstanceState::Starting);
    instance.transition_finish().unwrap();
    let rnext = instance.current();
    assert_eq!(rnext.run_state, InstanceState::Running);
    assert!(instance.requested().is_none());
    instance.transition_finish().unwrap();
    let (rprev, rnext) = (rnext, instance.current());
    assert_eq!(rprev.gen, rnext.gen);
}

fn explicit(run_state: InstanceState, gen: u64) -> SimInstance {
    SimInstance::new_simulated_explicit(&InstanceRuntimeState {
        run_state,
        reboot_in_progress: false,
        sled_id: 7,
        gen,
        time_updated: Timestamp { secs: 10, nanos: 5 },
    })
}

#[test]
fn reboot_from_running_counts_generations() {
    let mut instance = explicit(InstanceState::Running, 10);
    let t = Timestamp { secs: 20, nanos: 0 };
    let (dropped, pending) = instance.transition_at(&request(InstanceState::Running, true), t);
    assert!(dropped.is_none());
    assert!(pending);
    assert_eq!(instance.current().run_state, InstanceState::Stopping);
    assert!(instance.current().reboot_in_progress);
    assert_eq!(instance.current().gen, 11);
    assert_eq!(instance.current().time_updated, t);
    assert_eq!(instance.requested(), Some(request(InstanceState::Stopped, true)));

    assert!(instance.transition_finish_at(Timestamp { secs: 21, nanos: 0 }));
    assert_eq!(instance.current().run_state, InstanceState::Starting);
    assert!(!instance.current().reboot_in_progress);
    assert_eq!(instance.current().gen, 13);
    assert_eq!(instance.requested(), Some(request(InstanceState::Running, false)));

    assert!(!instance.transition_finish_at(Timestamp { secs: 22, nanos: 0 }));
    assert_eq!(instance.current().run_state, InstanceState::Running);
    assert_eq!(instance.current().gen, 14);
    assert_eq!(instance.current().time_updated, Timestamp { secs: 22, nanos: 0 });
    assert!(instance.requested().is_none());
}

#[test]
fn repeated_reboot_while_stopping_keeps_state_and_counts() {
    let mut instance = explicit(InstanceState::Running, 1);
    instance.transition(&request(InstanceState::Running, true)).unwrap();
    let before = instance.current();
    let dropped = instance.transition(&request(InstanceState::Running, true)).unwrap();
    assert_eq!(dropped, Some(request(InstanceState::Stopped, true)));
    let after = instance.current();
    assert_eq!(after.run_state, before.run_state);
    assert_eq!(after.reboot_in_progress, before.reboot_in_progress);
    assert_eq!(after.gen, before.gen + 1);
}

#[test]
fn requests_for_transient_states_are_clamped() {
    let mut instance = explicit(InstanceState::Stopped, 1);
    instance.transition(&request(InstanceState::Starting, false)).unwrap();
    assert_eq!(instance.requested(), Some(request(InstanceState::Running, false)));
    instance.transition_finish().unwrap();
    instance.transition(&request(InstanceState::Stopping, false)).unwrap();
    assert_eq!(instance.requested(), Some(request(InstanceState::Stopped, false)));
    instance.transition_finish().unwrap();
    assert_eq!(instance.current().run_state, InstanceState::Stopped);
    instance.transition(&request(InstanceState::Creating, false)).unwrap();
    assert_eq!(instance.current().run_state, InstanceState::Starting);
}

#[test]
fn noop_is_detected() {
    let instance = explicit(InstanceState::Running, 1);
    assert!(instance.is_noop(&request(InstanceState::Running, false)));
    assert!(instance.is_noop(&request(InstanceState::Starting, false)));
    assert!(!instance.is_noop(&request(InstanceState::Running, true)));
    assert!(!instance.is_noop(&request(InstanceState::Stopped, false)));
}

#[test]
#[allow(deprecated)]
fn lost_receiver_is_reported_and_state_stands() {
    let (mut instance, rx) = make_instance(InstanceState::Stopped);
    drop(rx);
    let r = instance.transition(&request(InstanceState::Running, false));
    assert!(r.is_err());
    assert_eq!(r.unwrap_err().status_code(), 500);
    assert_eq!(instance.current().run_state, InstanceState::Starting);
    assert_eq!(instance.current().gen, 2);
}

#[test]
#[allow(deprecated)]
fn pending_wakeups_coalesce() {
    let (mut instance, mut rx) = make_instance(InstanceState::Stopped);
    instance.transition(&request(InstanceState::Running, false)).unwrap();
    instance.transition(&request(InstanceState::Destroyed, false)).unwrap();
    assert!(rx.try_next().is_ok());
    assert!(rx.try_next().is_err());
    instance.close();
    assert!(matches!(rx.try_next(), Ok(None)));
}

#[test]
fn is_stopped_classifies_every_state() {
    assert!(InstanceState::Creating.is_stopped());
    assert!(!InstanceState::Starting.is_stopped());
    assert!(!InstanceState::Running.is_stopped());
    assert!(!InstanceState::Stopping.is_stopped());
    assert!(InstanceState::Stopped.is_stopped());
    assert!(InstanceState::Repairing.is_stopped());
    assert!(InstanceState::Failed.is_stopped());
    assert!(InstanceState::Destroyed.is_stopped());
    assert!(InstanceState::Starting.is_transient());
    assert!(InstanceState::Stopping.is_transient());
    assert!(!InstanceState::Running.is_transient());
    assert_eq!(InstanceState::Creating.clamped(), InstanceState::Running);
    assert_eq!(InstanceState::Stopping.clamped(), InstanceState::Stopped);
    assert_eq!(InstanceState::Failed.clamped(), InstanceState::Failed);
    assert_eq!(InstanceState::Repairing.label(), "repairing");
}

#[test]
#[allow(deprecated)]
fn closed_instance_wakes_nobody() {
    let (mut instance, mut rx) = make_instance(InstanceState::Stopped);
    instance.close();
    assert!(matches!(rx.try_next(), Ok(None)));
    drop(rx);
    let before = instance.current();
    let dropped = instance.transition(&request(InstanceState::Running, false)).unwrap();
    assert!(dropped.is_none());
    assert_eq!(instance.current().run_state, InstanceState::Starting);
    assert_eq!(instance.current().gen, before.gen + 1);
    instance.transition_finish().unwrap();
    assert_eq!(instance.current().run_state, InstanceState::Running);
    assert!(instance.requested().is_none());
}
