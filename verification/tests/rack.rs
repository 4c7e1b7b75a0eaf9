use oxide_rack::api_impl::Notified;
use oxide_rack::api_impl::OxideRack;
use oxide_rack::collection::PaginationParams;
use oxide_rack::error::ApiError;
use oxide_rack::error::ResourceType;
use oxide_rack::model::IdentityMetadataCreateParams;
use oxide_rack::model::IdentityMetadataUpdateParams;
use oxide_rack::model::InstanceCreateParams;
use oxide_rack::model::InstanceRuntimeState;
use oxide_rack::model::InstanceState;
use oxide_rack::model::Project;
use oxide_rack::model::ProjectCreateParams;
use oxide_rack::model::ProjectUpdateParams;
use oxide_rack::model::Timestamp;
use oxide_rack::name::Name;
use oxide_rack::name::NameError;
use oxide_rack::saga_interface::SagaContext;
use oxide_rack::server_controller::ServerController;
use oxide_rack::server_controller::ServerControllerSimMode;

fn name(text: &str) -> Name {
    Name::new(text).unwrap()
}

fn project_params(text: &str, description: &str) -> ProjectCreateParams {
    ProjectCreateParams {
        identity: IdentityMetadataCreateParams {
            name: name(text),
            description: String::from(description),
        },
    }
}

fn instance_params(text: &str) -> InstanceCreateParams {
    InstanceCreateParams {
        identity: IdentityMetadataCreateParams {
            name: name(text),
            description: String::from("an instance"),
        },
    }
}

fn first_page() -> PaginationParams<Name> {
    PaginationParams { marker: None, limit: None }
}

fn rack_with_sleds(ids: &[u128]) -> OxideRack {
    let mut rack = OxideRack::new();
    for id in ids {
        rack.add_server_controller(ServerController::new_simulated_with_id(
            id,
            ServerControllerSimMode::Api,
        ))
        .unwrap();
    }
    rack
}

#[test]
fn test_basic_failures() {
    let mut rack = OxideRack::new();

    let error = rack.project_lookup(&name("nonexistent")).unwrap_err();
    assert_eq!(error.status_code(), 404);
    assert_eq!("not found: project with name \"nonexistent\"", error.message());

    let error = Name::new("-invalid-name").unwrap_err();
    assert_eq!("name must begin with an ASCII lowercase character", error.message());

    let error = rack.project_list_instances(&name("nonexistent"), &first_page()).unwrap_err();
    assert_eq!(error.status_code(), 404);
    assert_eq!("not found: project with name \"nonexistent\"", error.message());

    let error =
        rack.project_lookup_instance(&name("nonexistent"), &name("my-instance")).unwrap_err();
    assert_eq!("not found: project with name \"nonexistent\"", error.message());

    let error = Name::new("my_instance").unwrap_err();
    assert_eq!(
        "name contains invalid character: \"_\" (allowed characters are lowercase ASCII, \
         digits, and \"-\")",
        error.message()
    );

    let error = rack.instance_destroy(&name("nonexistent"), &name("my-instance")).unwrap_err();
    assert_eq!("not found: project with name \"nonexistent\"", error.message());
}

#[test]
fn test_projects() {
    let mut rack = OxideRack::new();
    assert_eq!(0, rack.projects_list(&first_page()).unwrap().len());

    let projects_to_create = vec!["simproject1", "simproject2", "simproject3"];
    let mut new_project_ids: Vec<u128> = Vec::new();
    for project_name in projects_to_create {
        let new_project = rack
            .project_create(&project_params(project_name, "<auto-generated by test suite>"))
            .unwrap();
        assert_eq!(new_project.identity.name.as_str(), project_name);
        assert_eq!(
            new_project.identity.description,
            String::from("<auto-generated by test suite>")
        );
        assert_eq!(new_project.generation, 1);
        assert_eq!(new_project.identity.time_created, new_project.identity.time_modified);
        new_project_ids.push(new_project.identity.id);
    }

    let initial_projects = rack.projects_list(&first_page()).unwrap();
    assert_eq!(initial_projects.len(), 3);
    assert_eq!(initial_projects[0].identity.id, new_project_ids[0]);
    assert_eq!(initial_projects[0].identity.name.as_str(), "simproject1");
    assert!(initial_projects[0].identity.description.len() > 0);
    assert_eq!(initial_projects[1].identity.id, new_project_ids[1]);
    assert_eq!(initial_projects[1].identity.name.as_str(), "simproject2");
    assert!(initial_projects[1].identity.description.len() > 0);
    assert_eq!(initial_projects[2].identity.id, new_project_ids[2]);
    assert_eq!(initial_projects[2].identity.name.as_str(), "simproject3");
    assert!(initial_projects[2].identity.description.len() > 0);

    let project = rack.project_lookup(&name("simproject2")).unwrap();
    let expected = &initial_projects[1];
    assert_eq!(project.identity.id, expected.identity.id);
    assert_eq!(project.identity.name, expected.identity.name);
    assert_eq!(project.identity.description, expected.identity.description);
    assert!(project.identity.description.len() > 0);

    rack.project_delete(&name("simproject2")).unwrap();

    assert_eq!(rack.project_lookup(&name("simproject2")).unwrap_err().status_code(), 404);
    assert_eq!(rack.project_delete(&name("simproject2")).unwrap_err().status_code(), 404);
    let unchanged = ProjectUpdateParams {
        identity: IdentityMetadataUpdateParams { name: None, description: None },
    };
    assert_eq!(
        rack.project_update(&name("simproject2"), &unchanged).unwrap_err().status_code(),
        404
    );

    let expected_projects: Vec<&Project> =
        initial_projects.iter().filter(|p| p.identity.name.as_str() != "simproject2").collect();
    let new_projects = rack.projects_list(&first_page()).unwrap();
    assert_eq!(new_projects.len(), expected_projects.len());
    assert_eq!(new_projects[0].identity.id, expected_projects[0].identity.id);
    assert_eq!(new_projects[0].identity.name, expected_projects[0].identity.name);
    assert_eq!(new_projects[0].identity.description, expected_projects[0].identity.description);
    assert_eq!(new_projects[1].identity.id, expected_projects[1].identity.id);
    assert_eq!(new_projects[1].identity.name, expected_projects[1].identity.name);
    assert_eq!(new_projects[1].identity.description, expected_projects[1].identity.description);

    let project_update = ProjectUpdateParams {
        identity: IdentityMetadataUpdateParams {
            name: None,
            description: Some("Li'l lightnin'".to_string()),
        },
    };
    let project = rack.project_update(&name("simproject3"), &project_update).unwrap();
    assert_eq!(project.identity.id, new_project_ids[2]);
    assert_eq!(project.identity.name.as_str(), "simproject3");
    assert_eq!(project.identity.description, "Li'l lightnin'");
    assert_eq!(project.generation, 2);

    let expected = project;
    let project = rack.project_lookup(&name("simproject3")).unwrap();
    assert_eq!(project.identity.name, expected.identity.name);
    assert_eq!(project.identity.description, expected.identity.description);
    assert_eq!(project.identity.description, "Li'l lightnin'");

    let project_update = ProjectUpdateParams {
        identity: IdentityMetadataUpdateParams {
            name: Some(name("lil-lightnin")),
            description: Some("little lightning".to_string()),
        },
    };
    let project = rack.project_update(&name("simproject3"), &project_update).unwrap();
    assert_eq!(project.identity.id, new_project_ids[2]);
    assert_eq!(project.identity.name.as_str(), "lil-lightnin");
    assert_eq!(project.identity.description, "little lightning");
    assert_eq!(project.generation, 3);

    assert_eq!(rack.project_lookup(&name("simproject3")).unwrap_err().status_code(), 404);
    assert_eq!(rack.project_lookup(&name("lil-lightnin")).unwrap(), project);

    let error = rack
        .project_create(&project_params("simproject1", "a duplicate of simproject1"))
        .unwrap_err();
    assert_eq!(error.status_code(), 400);
    assert_eq!("already exists: project \"simproject1\"", error.message());

    let error = Name::new("sim_project").unwrap_err();
    assert!(error.message().starts_with(
        "name contains invalid character: \"_\" (allowed characters are lowercase ASCII, \
         digits, and \"-\""
    ));

    let project = rack.project_create(&project_params("honor-roller", "a soapbox racer")).unwrap();
    assert_eq!(project.identity.name.as_str(), "honor-roller");
    assert_eq!(project.identity.description, "a soapbox racer");

    let projects = rack.projects_list(&first_page()).unwrap();
    assert_eq!(projects.len(), 3);
    assert_eq!(projects[0].identity.name.as_str(), "honor-roller");
    assert_eq!(projects[0].identity.description, "a soapbox racer");
    assert_eq!(projects[1].identity.name.as_str(), "lil-lightnin");
    assert_eq!(projects[1].identity.description, "little lightning");
    assert_eq!(projects[2].identity.name.as_str(), "simproject1");
    assert!(projects[2].identity.description.len() > 0);
}

fn collect_by_name(rack: &OxideRack, descending: bool, page: usize) -> Vec<Project> {
    let mut found: Vec<Project> = Vec::new();
    let mut marker: Option<Name> = None;
    loop {
        let params = PaginationParams { marker: marker.clone(), limit: Some(page) };
        let items = if descending {
            rack.projects_list_descending(&params).unwrap()
        } else {
            rack.projects_list(&params).unwrap()
        };
        let skip = if marker.is_some() { 1 } else { 0 };
        assert!(items.len() >= skip);
        if marker.is_some() {
            assert_eq!(&items[0].identity.name, marker.as_ref().unwrap());
        }
        if items.len() == skip {
            break;
        }
        marker = Some(items[items.len() - 1].identity.name.clone());
        found.extend(items.into_iter().skip(skip));
    }
    found
}

fn collect_by_id(rack: &OxideRack, descending: bool, page: usize) -> Vec<Project> {
    let mut found: Vec<Project> = Vec::new();
    let mut marker: Option<u128> = None;
    loop {
        let params = PaginationParams { marker, limit: Some(page) };
        let items = rack.projects_list_by_id(&params, descending).unwrap();
        let skip = if marker.is_some() { 1 } else { 0 };
        if marker.is_some() {
            assert_eq!(items[0].identity.id, marker.unwrap());
        }
        if items.len() == skip {
            break;
        }
        marker = Some(items[items.len() - 1].identity.id);
        found.extend(items.into_iter().skip(skip));
    }
    found
}

#[test]
fn test_projects_list() {
    let mut rack = OxideRack::new();
    assert_eq!(rack.projects_list(&first_page()).unwrap().len(), 0);

    let nprojects = 1000;
    let mut projects_created = Vec::with_capacity(nprojects);
    for _ in 0..nprojects {
        let mut text = uuid::Uuid::new_v4().to_string();
        text.replace_range(0..1, "a");
        let project = rack.project_create(&project_params(&text, "test suite project")).unwrap();
        projects_created.push(project.identity);
    }
    assert_eq!(rack.project_count(), nprojects);

    let project_names_by_name = {
        let mut names: Vec<Name> = projects_created.iter().map(|v| v.name.clone()).collect();
        let unsorted = names.clone();
        names.sort();
        assert_ne!(names, unsorted);
        names
    };
    let project_names_by_id = {
        let mut ids: Vec<u128> = projects_created.iter().map(|v| v.id).collect();
        let unsorted = ids.clone();
        ids.sort();
        assert_ne!(ids, unsorted);
        ids
    };

    assert_eq!(rack.projects_list(&first_page()).unwrap().len(), 100);

    let found_projects_by_name = collect_by_name(&rack, false, 99);
    assert_eq!(found_projects_by_name.len(), project_names_by_name.len());
    assert_eq!(
        project_names_by_name,
        found_projects_by_name.iter().map(|v| v.identity.name.clone()).collect::<Vec<Name>>()
    );

    let mut found_projects_by_name = collect_by_name(&rack, true, 99);
    assert_eq!(found_projects_by_name.len(), project_names_by_name.len());
    found_projects_by_name.reverse();
    assert_eq!(
        project_names_by_name,
        found_projects_by_name.iter().map(|v| v.identity.name.clone()).collect::<Vec<Name>>()
    );

    let found_projects_by_id = collect_by_id(&rack, false, 99);
    assert_eq!(found_projects_by_id.len(), project_names_by_id.len());
    assert_eq!(
        project_names_by_id,
        found_projects_by_id.iter().map(|v| v.identity.id).collect::<Vec<u128>>()
    );

    let mut found_projects_by_id = collect_by_id(&rack, true, 99);
    found_projects_by_id.reverse();
    assert_eq!(
        project_names_by_id,
        found_projects_by_id.iter().map(|v| v.identity.id).collect::<Vec<u128>>()
    );
}

#[test]
fn test_sleds_list() {
    let mut rack = rack_with_sleds(&[uuid::Uuid::new_v4().as_u128()]);
    let all = PaginationParams { marker: None, limit: None };
    assert_eq!(rack.sleds_list(&all, false).unwrap().len(), 1);

    let nsleds = 3;
    for _ in 0..nsleds {
        let id = uuid::Uuid::new_v4().as_u128();
        rack.add_server_controller(ServerController::new_simulated_with_id(
            &id,
            ServerControllerSimMode::Api,
        ))
        .unwrap();
    }

    let sleds_found = rack.sleds_list(&all, false).unwrap();
    assert_eq!(sleds_found.len(), nsleds + 1);
    let mut sledids_found_sorted = sleds_found.clone();
    sledids_found_sorted.sort();
    assert_eq!(sleds_found, sledids_found_sorted);
    assert_eq!(rack.sled_count(), nsleds + 1);
}

#[test]
fn pages_begin_at_the_marker() {
    let mut rack = OxideRack::new();
    for text in ["delta", "alpha", "echo", "charlie", "bravo"] {
        rack.project_create(&project_params(text, "")).unwrap();
    }
    let names = |projects: Vec<Project>| -> Vec<String> {
        projects.iter().map(|p| String::from(p.identity.name.as_str())).collect()
    };
    let page = |marker: Option<&str>, limit: Option<usize>| PaginationParams {
        marker: marker.map(name),
        limit,
    };
    assert_eq!(
        names(rack.projects_list(&page(None, Some(2))).unwrap()),
        vec!["alpha", "bravo"]
    );
    assert_eq!(
        names(rack.projects_list(&page(Some("bravo"), Some(2))).unwrap()),
        vec!["bravo", "charlie"]
    );
    assert_eq!(
        names(rack.projects_list(&page(Some("c"), Some(10))).unwrap()),
        vec!["charlie", "delta", "echo"]
    );
    assert!(rack.projects_list(&page(Some("zulu"), None)).unwrap().is_empty());
    assert!(rack.projects_list(&page(None, Some(0))).unwrap().is_empty());
    assert_eq!(
        names(rack.projects_list_descending(&page(None, Some(2))).unwrap()),
        vec!["echo", "delta"]
    );
    assert_eq!(
        names(rack.projects_list_descending(&page(Some("delta"), Some(2))).unwrap()),
        vec!["delta", "charlie"]
    );
    assert_eq!(
        names(rack.projects_list_descending(&page(Some("c"), None)).unwrap()),
        vec!["bravo", "alpha"]
    );
    assert!(rack.projects_list_descending(&page(Some("a"), None)).unwrap().is_empty());
}

#[test]
fn sled_pages_follow_identifiers() {
    let rack = rack_with_sleds(&[30, 10, 40, 20]);
    let page = |marker: Option<u128>, limit: Option<usize>| PaginationParams { marker, limit };
    assert_eq!(rack.sleds_list(&page(None, None), false).unwrap(), vec![10, 20, 30, 40]);
    assert_eq!(rack.sleds_list(&page(None, None), true).unwrap(), vec![40, 30, 20, 10]);
    assert_eq!(rack.sleds_list(&page(Some(20), Some(2)), false).unwrap(), vec![20, 30]);
    assert_eq!(rack.sleds_list(&page(Some(25), Some(2)), true).unwrap(), vec![20, 10]);
    assert_eq!(rack.sleds_list(&page(Some(41), None), false).unwrap(), Vec::<u128>::new());
    assert_eq!(rack.sleds_list(&page(None, Some(0)), false).unwrap(), Vec::<u128>::new());
}

#[test]
fn project_identifiers_are_unique() {
    let mut rack = OxideRack::new();
    let first = rack.project_create_with_id(7, &project_params("one", "first")).unwrap();
    assert_eq!(first.identity.id, 7);
    let e = rack.project_create_with_id(7, &project_params("two", "second")).unwrap_err();
    assert_eq!(e, ApiError::internal_error("identifier is in use already"));
    let e = rack.project_create_with_id(8, &project_params("one", "again")).unwrap_err();
    assert_eq!(e, ApiError::already_exists(ResourceType::Project, "one"));
    assert_eq!(rack.project_count(), 1);
    assert!(rack.has_project(&name("one")));
    assert!(!rack.has_project(&name("two")));
    assert!(rack.has_project_id(7));
    assert!(!rack.has_project_id(8));
}

#[test]
fn rename_to_taken_name_is_refused() {
    let mut rack = OxideRack::new();
    rack.project_create(&project_params("one", "first")).unwrap();
    rack.project_create(&project_params("two", "second")).unwrap();
    let rename = ProjectUpdateParams {
        identity: IdentityMetadataUpdateParams { name: Some(name("two")), description: None },
    };
    let e = rack.project_update(&name("one"), &rename).unwrap_err();
    assert_eq!(e.message(), "already exists: project \"two\"");
    assert_eq!(rack.project_lookup(&name("one")).unwrap().generation, 1);
    let same = ProjectUpdateParams {
        identity: IdentityMetadataUpdateParams { name: Some(name("one")), description: None },
    };
    let kept = rack.project_update(&name("one"), &same).unwrap();
    assert_eq!(kept.identity.name.as_str(), "one");
    assert_eq!(kept.identity.description, "first");
    assert_eq!(kept.generation, 2);
}

#[test]
fn sleds_take_instances_in_turn() {
    let mut rack = rack_with_sleds(&[30, 10, 20]);
    assert!(rack.has_sled(10));
    assert!(!rack.has_sled(11));
    assert_eq!(rack.sled_allocate().unwrap(), 30);
    assert_eq!(rack.sled_allocate().unwrap(), 10);
    assert_eq!(rack.sled_allocate().unwrap(), 20);
    assert_eq!(rack.sled_allocate().unwrap(), 30);
    let e = OxideRack::new().sled_allocate().unwrap_err();
    assert_eq!(e.status_code(), 503);
    assert_eq!(e.message(), "no sleds available for new instance");
    let e = rack
        .add_server_controller(ServerController::new_simulated_with_id(
            &10,
            ServerControllerSimMode::Api,
        ))
        .unwrap_err();
    assert_eq!(e.message(), "already exists: sled \"00000000-0000-0000-0000-00000000000a\"");

    let mut saga = SagaContext::new(rack);
    assert_eq!(saga.datastore().sled_count(), 3);
    assert_eq!(saga.alloc_server(&instance_params("x")).unwrap(), 10);
    let mut rack = saga.into_nexus();
    assert_eq!(rack.sled_allocate().unwrap(), 20);
}

#[test]
fn instance_lifecycle_through_the_rack() {
    let mut rack = rack_with_sleds(&[100, 200]);
    rack.project_create(&project_params("prod", "production")).unwrap();
    let project_id = rack.project_lookup(&name("prod")).unwrap().identity.id;

    let e = rack.project_create_instance(&name("dev"), &instance_params("web")).unwrap_err();
    assert_eq!(e.message(), "not found: project with name \"dev\"");

    let web = rack.project_create_instance(&name("prod"), &instance_params("web")).unwrap();
    assert_eq!(web.identity.name.as_str(), "web");
    assert_eq!(web.project_id, project_id);
    assert_eq!(web.runtime.run_state, InstanceState::Starting);
    assert_eq!(web.runtime.gen, 2);
    assert_eq!(web.runtime.sled_id, 100);
    assert_eq!(rack.project_lookup_instance(&name("prod"), &name("web")).unwrap(), web);

    let e = rack.project_create_instance(&name("prod"), &instance_params("web")).unwrap_err();
    assert_eq!(e.message(), "already exists: instance \"web\"");

    let db = rack.project_create_instance(&name("prod"), &instance_params("db")).unwrap();
    assert_eq!(db.runtime.sled_id, 200);
    let listed = rack
        .project_list_instances(&name("prod"), &PaginationParams { marker: None, limit: None })
        .unwrap();
    assert_eq!(listed.len(), 2);
    assert_eq!(listed[0].identity.name.as_str(), "db");
    assert_eq!(listed[1].identity.name.as_str(), "web");

    let e = rack.instance_reboot(&name("prod"), &name("cache")).unwrap_err();
    assert_eq!(e.message(), "not found: instance with name \"cache\"");

    assert_eq!(rack.instance_poke(100, 12345).unwrap(), None);
    let poked = rack.instance_poke(100, web.identity.id).unwrap().unwrap();
    assert_eq!(poked.notice, Notified::Applied);
    assert_eq!(poked.update.state.run_state, InstanceState::Running);
    assert_eq!(poked.update.state.gen, 3);
    let stored = rack.project_lookup_instance(&name("prod"), &name("web")).unwrap();
    assert_eq!(stored.runtime, poked.update.state);

    let again = rack.instance_poke(100, web.identity.id).unwrap().unwrap();
    assert_eq!(again.notice, Notified::Stale);

    let rebooting = rack.instance_reboot(&name("prod"), &name("web")).unwrap();
    assert_eq!(rebooting.runtime.run_state, InstanceState::Stopping);
    assert!(rebooting.runtime.reboot_in_progress);
    assert_eq!(rebooting.runtime.gen, 4);
    let poked = rack.instance_poke(100, web.identity.id).unwrap().unwrap();
    assert_eq!(poked.update.state.run_state, InstanceState::Starting);
    assert_eq!(poked.update.state.gen, 6);
    let poked = rack.instance_poke(100, web.identity.id).unwrap().unwrap();
    assert_eq!(poked.update.state.run_state, InstanceState::Running);
    assert_eq!(poked.update.state.gen, 7);

    let stopping = rack.instance_stop(&name("prod"), &name("web")).unwrap();
    assert_eq!(stopping.runtime.run_state, InstanceState::Stopping);
    let e = rack.instance_reboot(&name("prod"), &name("web")).unwrap_err();
    assert_eq!(e.message(), "cannot reboot instance in state \"stopping\"");
    rack.instance_poke(100, web.identity.id).unwrap();
    let starting = rack.instance_start(&name("prod"), &name("web")).unwrap();
    assert_eq!(starting.runtime.run_state, InstanceState::Starting);
    rack.instance_poke(100, web.identity.id).unwrap();

    let destroying = rack.instance_destroy(&name("prod"), &name("web")).unwrap();
    assert_eq!(destroying.runtime.run_state, InstanceState::Stopping);
    assert!(rack.project_lookup_instance(&name("prod"), &name("web")).is_ok());
    let poked = rack.instance_poke(100, web.identity.id).unwrap().unwrap();
    assert_eq!(poked.notice, Notified::Removed);
    assert!(poked.update.destroyed);
    let e = rack.project_lookup_instance(&name("prod"), &name("web")).unwrap_err();
    assert_eq!(e.message(), "not found: instance with name \"web\"");
    assert_eq!(rack.instance_poke(100, web.identity.id).unwrap(), None);

    let e = rack.instance_poke(300, db.identity.id).unwrap_err();
    assert_eq!(e.status_code(), 503);
    assert_eq!(e.message(), "no sled with id \"00000000-0000-0000-0000-00000000012c\"");
}

#[test]
fn stale_reports_are_dropped() {
    let mut rack = rack_with_sleds(&[100]);
    rack.project_create(&project_params("prod", "")).unwrap();
    let web = rack
        .project_create_instance_with_id(&name("prod"), 77, &instance_params("web"))
        .unwrap();
    assert_eq!(web.identity.id, 77);
    let report = |gen: u64, run_state: InstanceState| InstanceRuntimeState {
        run_state,
        reboot_in_progress: false,
        sled_id: 100,
        gen,
        time_updated: Timestamp { secs: 9, nanos: 9 },
    };
    assert_eq!(
        rack.notify_instance_updated(78, &report(10, InstanceState::Running)),
        Notified::Unknown
    );
    assert_eq!(
        rack.notify_instance_updated(77, &report(2, InstanceState::Failed)),
        Notified::Stale
    );
    assert_eq!(
        rack.notify_instance_updated(77, &report(1, InstanceState::Destroyed)),
        Notified::Stale
    );
    assert_eq!(rack.project_lookup_instance(&name("prod"), &name("web")).unwrap(), web);
    assert_eq!(
        rack.notify_instance_updated(77, &report(5, InstanceState::Running)),
        Notified::Applied
    );
    let stored = rack.project_lookup_instance(&name("prod"), &name("web")).unwrap();
    assert_eq!(stored.runtime, report(5, InstanceState::Running));
    assert_eq!(stored.identity, web.identity);
    assert_eq!(
        rack.notify_instance_updated(77, &report(6, InstanceState::Destroyed)),
        Notified::Removed
    );
    assert!(rack.project_lookup_instance(&name("prod"), &name("web")).is_err());
}

#[test]
fn instance_needs_a_sled() {
    let mut rack = OxideRack::new();
    rack.project_create(&project_params("prod", "")).unwrap();
    let e = rack.project_create_instance(&name("prod"), &instance_params("web")).unwrap_err();
    assert_eq!(e.status_code(), 503);
    assert!(rack
        .project_list_instances(&name("prod"), &PaginationParams { marker: None, limit: None })
        .unwrap()
        .is_empty());
    assert_eq!(Name::new("Web").unwrap_err(), NameError::BadStart);
}

#[test]
#[allow(deprecated)]
fn workers_of_new_instances_are_handed_out() {
    let mut rack = OxideRack::new();
    rack.add_server_controller(ServerController::new_simulated_with_id(
        &100,
        ServerControllerSimMode::Auto,
    ))
    .unwrap();
    rack.project_create(&project_params("prod", "")).unwrap();
    let web = rack.project_create_instance(&name("prod"), &instance_params("web")).unwrap();
    let mut workers = rack.take_workers(100).unwrap();
    assert_eq!(workers.len(), 1);
    assert_eq!(workers[0].instance_id, web.identity.id);
    assert!(workers[0].rx.try_next().is_ok());
    assert!(rack.take_workers(100).unwrap().is_empty());
    assert_eq!(rack.take_workers(101).unwrap_err().status_code(), 503);
}

#[test]
fn reports_that_the_rack_cannot_place_stay_on_the_sled() {
    let mut rack = rack_with_sleds(&[100]);
    rack.project_create(&project_params("prod", "")).unwrap();
    rack.project_create_instance_with_id(&name("prod"), 77, &instance_params("web")).unwrap();
    let poked = rack.instance_poke(100, 77).unwrap().unwrap();
    assert_eq!(poked.notice, Notified::Applied);
    assert!(rack.take_deferred(100).unwrap().is_empty());

    let gone = InstanceRuntimeState {
        run_state: InstanceState::Destroyed,
        reboot_in_progress: false,
        sled_id: 100,
        gen: 50,
        time_updated: Timestamp { secs: 9, nanos: 9 },
    };
    assert_eq!(rack.notify_instance_updated(77, &gone), Notified::Removed);
    rack.instance_stop(&name("prod"), &name("web")).unwrap_err();
    let poked = rack.instance_poke(100, 77).unwrap().unwrap();
    assert_eq!(poked.notice, Notified::Unknown);
    assert_eq!(poked.update.state.run_state, InstanceState::Running);
    let waiting = rack.take_deferred(100).unwrap();
    assert_eq!(waiting, vec![poked.update]);
    assert!(rack.take_deferred(100).unwrap().is_empty());

    rack.settle_report(100, poked.update, false).unwrap();
    rack.settle_report(100, poked.update, true).unwrap();
    assert_eq!(rack.take_deferred(100).unwrap(), vec![poked.update]);
    assert_eq!(rack.settle_report(101, poked.update, false).unwrap_err().status_code(), 503);
    assert_eq!(rack.take_deferred(101).unwrap_err().status_code(), 503);
}

#[test]
fn reboot_of_an_instance_that_rests_is_refused_by_the_rack() {
    let mut rack = rack_with_sleds(&[100]);
    rack.project_create(&project_params("prod", "")).unwrap();
    rack.project_create_instance_with_id(&name("prod"), 77, &instance_params("web")).unwrap();
    rack.instance_poke(100, 77).unwrap();
    rack.instance_stop(&name("prod"), &name("web")).unwrap();
    rack.instance_poke(100, 77).unwrap();
    let before = rack.project_lookup_instance(&name("prod"), &name("web")).unwrap();
    assert_eq!(before.runtime.run_state, InstanceState::Stopped);
    let e = rack.instance_reboot(&name("prod"), &name("web")).unwrap_err();
    assert_eq!(
        e,
        ApiError::InvalidRequest {
            message: String::from("cannot reboot instance in state \"stopped\""),
        }
    );
    assert_eq!(rack.project_lookup_instance(&name("prod"), &name("web")).unwrap(), before);
}
