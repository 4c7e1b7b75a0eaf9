use oxide_rack::error::ApiError;
use oxide_rack::model::IdentityMetadata;
use oxide_rack::model::Instance;
use oxide_rack::model::InstanceRuntimeState;
use oxide_rack::model::InstanceRuntimeStateRequested;
use oxide_rack::model::InstanceState;
use oxide_rack::model::Timestamp;
use oxide_rack::name::Name;
use oxide_rack::server_controller::InstanceUpdate;
use oxide_rack::server_controller::ServerController;
use oxide_rack::server_controller::ServerControllerSimMode;
use oxide_rack::server_controller::ServerControllerTestInterfaces;

const SLED: u128 = 0xb6d65341_167c_41df_9b5c_41cded99c229;

fn snapshot(id: u128, run_state: InstanceState, gen: u64) -> Instance {
    let t = Timestamp { secs: 1, nanos: 0 };
    Instance {
        identity: IdentityMetadata {
            id,
            name: Name::new("web").unwrap(),
            description: String::from("a web server"),
            time_created: t,
            time_modified: t,
        },
        project_id: 99,
        runtime: InstanceRuntimeState {
            run_state,
            reboot_in_progress: false,
            sled_id: SLED,
            gen,
            time_updated: t,
        },
    }
}

fn request(run_state: InstanceState, reboot_wanted: bool) -> InstanceRuntimeStateRequested {
    InstanceRuntimeStateRequested { run_state, reboot_wanted }
}

#[test]
fn new_controller_is_empty() {
    let sc = ServerController::new_simulated_with_id(&SLED, ServerControllerSimMode::Api);
    assert_eq!(sc.id(), SLED);
    assert_eq!(sc.sim_mode(), ServerControllerSimMode::Api);
    assert_eq!(sc.instance_count(), 0);
    assert_eq!(sc.instance_state(5), None);
}

#[test]
fn ensure_creates_and_starts_instance() {
    let mut sc = ServerController::new_simulated_with_id(&SLED, ServerControllerSimMode::Api);
    let inst = snapshot(5, InstanceState::Creating, 1);
    let state = sc.instance_ensure(&inst, &request(InstanceState::Running, false)).unwrap();
    assert_eq!(state.run_state, InstanceState::Starting);
    assert_eq!(state.gen, 2);
    assert_eq!(state.sled_id, SLED);
    assert_eq!(sc.instance_count(), 1);
    assert_eq!(sc.instance_state(5), Some(state));
    assert!(sc.take_workers().is_empty());

    let update = sc.instance_poke(5).unwrap().unwrap();
    assert_eq!(update.instance_id, 5);
    assert_eq!(update.state.run_state, InstanceState::Running);
    assert_eq!(update.state.gen, 3);
    assert!(!update.destroyed);

    let again = sc.instance_poke(5).unwrap().unwrap();
    assert_eq!(again.state, update.state);
}

#[test]
fn ensure_is_idempotent_at_rest() {
    let mut sc = ServerController::new_simulated_with_id(&SLED, ServerControllerSimMode::Api);
    let inst = snapshot(5, InstanceState::Stopped, 4);
    let first = sc.instance_ensure(&inst, &request(InstanceState::Stopped, false)).unwrap();
    assert_eq!(first, inst.runtime);
    let second = sc.instance_ensure(&inst, &request(InstanceState::Stopped, false)).unwrap();
    assert_eq!(second, first);
    assert_eq!(sc.instance_count(), 1);
}

#[test]
fn reboot_to_other_state_is_refused() {
    let mut sc = ServerController::new_simulated_with_id(&SLED, ServerControllerSimMode::Api);
    let inst = snapshot(5, InstanceState::Creating, 1);
    let e = sc.instance_ensure(&inst, &request(InstanceState::Stopped, true)).unwrap_err();
    assert_eq!(e.status_code(), 400);
    assert_eq!(e.message(), "cannot reboot to a state other than \"running\"");
    assert_eq!(sc.instance_count(), 0);
}

#[test]
fn reboot_of_stopped_instance_is_refused() {
    let mut sc = ServerController::new_simulated_with_id(&SLED, ServerControllerSimMode::Api);
    let inst = snapshot(5, InstanceState::Stopped, 1);
    sc.instance_ensure(&inst, &request(InstanceState::Stopped, false)).unwrap();
    let e = sc.instance_ensure(&inst, &request(InstanceState::Running, true)).unwrap_err();
    assert_eq!(e.status_code(), 400);
    assert_eq!(e.message(), "cannot reboot instance in state \"stopped\"");
    assert_eq!(sc.instance_state(5).unwrap().gen, 1);

    sc.instance_ensure(&inst, &request(InstanceState::Running, false)).unwrap();
    sc.instance_poke(5).unwrap();
    sc.instance_ensure(&inst, &request(InstanceState::Stopped, false)).unwrap();
    let e = sc.instance_ensure(&inst, &request(InstanceState::Running, true)).unwrap_err();
    assert_eq!(e.message(), "cannot reboot instance in state \"stopping\"");
}

#[test]
fn reboot_runs_through_stopping_and_starting() {
    let mut sc = ServerController::new_simulated_with_id(&SLED, ServerControllerSimMode::Api);
    let inst = snapshot(5, InstanceState::Running, 7);
    let s = sc.instance_ensure(&inst, &request(InstanceState::Running, true)).unwrap();
    assert_eq!((s.run_state, s.reboot_in_progress, s.gen), (InstanceState::Stopping, true, 8));
    let s = sc.instance_ensure(&inst, &request(InstanceState::Running, true)).unwrap();
    assert_eq!((s.run_state, s.reboot_in_progress, s.gen), (InstanceState::Stopping, true, 9));
    let u = sc.instance_finish_transition(5).unwrap().unwrap();
    assert_eq!(
        (u.state.run_state, u.state.reboot_in_progress, u.state.gen),
        (InstanceState::Starting, false, 11)
    );
    let u = sc.instance_finish_transition(5).unwrap().unwrap();
    assert_eq!((u.state.run_state, u.state.gen), (InstanceState::Running, 12));
}

#[test]
fn destroyed_instance_leaves_the_sled() {
    let mut sc = ServerController::new_simulated_with_id(&SLED, ServerControllerSimMode::Api);
    let inst = snapshot(5, InstanceState::Running, 1);
    let s = sc.instance_ensure(&inst, &request(InstanceState::Destroyed, false)).unwrap();
    assert_eq!(s.run_state, InstanceState::Stopping);
    let u = sc.instance_poke(5).unwrap().unwrap();
    assert_eq!(u.state.run_state, InstanceState::Destroyed);
    assert!(u.destroyed);
    assert_eq!(sc.instance_count(), 0);
    assert_eq!(sc.instance_poke(5).unwrap(), None);
}

#[test]
fn exhausted_generations_are_reported() {
    let mut sc = ServerController::new_simulated_with_id(&SLED, ServerControllerSimMode::Api);
    let inst = snapshot(5, InstanceState::Stopped, u64::MAX);
    let e = sc.instance_ensure(&inst, &request(InstanceState::Running, false)).unwrap_err();
    assert_eq!(e.status_code(), 500);
    assert_eq!(e.message(), "instance has used up its generation numbers");
    assert_eq!(sc.instance_count(), 0);
    let s = sc.instance_ensure(&inst, &request(InstanceState::Stopped, false)).unwrap();
    assert_eq!(s.gen, u64::MAX);

    let near = snapshot(6, InstanceState::Stopped, u64::MAX - 1);
    sc.instance_ensure(&near, &request(InstanceState::Running, false)).unwrap();
    let e = sc.instance_poke(6).unwrap_err();
    assert_eq!(e.message(), "instance has used up its generation numbers");
    assert_eq!(sc.instance_state(6).unwrap().run_state, InstanceState::Starting);
}

#[test]
#[allow(deprecated)]
fn auto_mode_hands_out_workers() {
    let mut sc = ServerController::new_simulated_with_id(&SLED, ServerControllerSimMode::Auto);
    sc.instance_ensure(&snapshot(5, InstanceState::Creating, 1), &request(InstanceState::Running, false))
        .unwrap();
    sc.instance_ensure(&snapshot(6, InstanceState::Stopped, 1), &request(InstanceState::Stopped, false))
        .unwrap();
    sc.instance_ensure(&snapshot(5, InstanceState::Creating, 1), &request(InstanceState::Running, false))
        .unwrap();
    let mut workers = sc.take_workers();
    assert_eq!(workers.len(), 2);
    assert_eq!(workers[0].instance_id, 5);
    assert_eq!(workers[1].instance_id, 6);
    assert!(workers[0].rx.try_next().is_ok());
    assert!(workers[1].rx.try_next().is_err());
    assert!(sc.take_workers().is_empty());
}

#[test]
fn undelivered_reports_are_kept_in_order() {
    let mut sc = ServerController::new_simulated_with_id(&SLED, ServerControllerSimMode::Api);
    let a = InstanceUpdate {
        instance_id: 1,
        state: snapshot(1, InstanceState::Running, 3).runtime,
        destroyed: false,
    };
    let b = InstanceUpdate { instance_id: 2, ..a };
    sc.defer_update(a);
    sc.defer_update(b);
    assert_eq!(sc.take_deferred(), vec![a, b]);
    assert!(sc.take_deferred().is_empty());
}

#[test]
fn reboot_of_new_instance_at_rest_is_refused() {
    for mode in [ServerControllerSimMode::Api, ServerControllerSimMode::Auto] {
        let mut sc = ServerController::new_simulated_with_id(&SLED, mode);
        for state in [
            InstanceState::Creating,
            InstanceState::Stopping,
            InstanceState::Stopped,
            InstanceState::Repairing,
            InstanceState::Failed,
            InstanceState::Destroyed,
        ] {
            let inst = snapshot(5, state, 1);
            let e = sc.instance_ensure(&inst, &request(InstanceState::Running, true)).unwrap_err();
            assert_eq!(
                e,
                ApiError::InvalidRequest {
                    message: format!("cannot reboot instance in state \"{}\"", state.label()),
                }
            );
            assert_eq!(e.status_code(), 400);
            assert_eq!(sc.instance_count(), 0);
            assert_eq!(sc.instance_state(5), None);
            assert!(sc.take_workers().is_empty());
        }
    }
}

#[test]
fn reboot_of_new_instance_that_is_up_is_taken_on() {
    let mut sc = ServerController::new_simulated_with_id(&SLED, ServerControllerSimMode::Api);
    let s = sc
        .instance_ensure(&snapshot(5, InstanceState::Starting, 3), &request(InstanceState::Running, true))
        .unwrap();
    assert_eq!((s.run_state, s.reboot_in_progress, s.gen), (InstanceState::Stopping, true, 4));
    let mut halting = snapshot(6, InstanceState::Stopping, 3);
    halting.runtime.reboot_in_progress = true;
    let s = sc.instance_ensure(&halting, &request(InstanceState::Running, true)).unwrap();
    assert_eq!((s.run_state, s.reboot_in_progress, s.gen), (InstanceState::Stopping, true, 4));
    assert_eq!(sc.instance_count(), 2);
}

#[test]
fn undelivered_reports_wait_to_be_tried_again() {
    let mut sc = ServerController::new_simulated_with_id(&SLED, ServerControllerSimMode::Api);
    let report = |id: u128, gen: u64| InstanceUpdate {
        instance_id: id,
        state: snapshot(id, InstanceState::Running, gen).runtime,
        destroyed: false,
    };
    sc.settle_report(report(5, 2), true);
    assert!(sc.take_deferred().is_empty());
    sc.settle_report(report(5, 3), false);
    sc.settle_report(report(6, 2), true);
    sc.settle_report(report(7, 9), false);
    assert_eq!(sc.take_deferred(), vec![report(5, 3), report(7, 9)]);
    assert!(sc.take_deferred().is_empty());
    assert_eq!(sc.instance_count(), 0);
}
