use oxide_rack::api_impl::OxideRack;
use oxide_rack::api_server::http_dump_body;
use oxide_rack::api_server::http_read_body;
use oxide_rack::api_server::http_request_handle;
use oxide_rack::api_server::server_handler;
use oxide_rack::api_server::setup_server_state;
use oxide_rack::api_server::ApiServerConfig;
use oxide_rack::api_server::ApiServerConnectionHandler;
use oxide_rack::api_server::ApiServerRequestHandler;
use oxide_rack::api_server::ApiServerState;
use oxide_rack::api_server::HttpMethod;
use oxide_rack::collection::to_view_list;
use oxide_rack::collection::PaginationParams;
use oxide_rack::endpoint::extract_doc;
use oxide_rack::endpoint::trim_doc_line;
use oxide_rack::endpoint::MethodType;
use oxide_rack::error::ApiError;
use oxide_rack::initial_data::demo_project_id;
use oxide_rack::initial_data::demo_project_name;
use oxide_rack::initial_data::demo_sled_id;
use oxide_rack::initial_data::populate_initial_data;
use oxide_rack::name::Name;
use oxide_rack::server_controller::ServerControllerSimMode;
use oxide_rack::trust_quorum::frame;
use oxide_rack::trust_quorum::unframe;
use oxide_rack::trust_quorum::ResponderAction;
use oxide_rack::trust_quorum::ResponderState;
use oxide_rack::trust_quorum::ShareCollector;
use oxide_rack::trust_quorum::ShareVerdict;
use oxide_rack::trust_quorum::TRUST_QUORUM_PORT;
use std::sync::Arc;

#[test]
fn server_state_begins_with_demo_data() {
    let state = setup_server_state();
    assert_eq!(state.config.request_body_max_bytes, 1024);
    assert_eq!(state.backend.project_count(), 3);
    assert_eq!(state.backend.sled_count(), 3);
    let projects =
        state.backend.projects_list(&PaginationParams { marker: None, limit: None }).unwrap();
    let names: Vec<&str> = projects.iter().map(|p| p.identity.name.as_str()).collect();
    assert_eq!(names, vec!["simproject1", "simproject2", "simproject3"]);
    assert_eq!(projects[0].identity.id, 0x1eb2b543_b199_405f_b705_1739d01a197c);
    assert_eq!(projects[1].identity.id, 0x4f57c123_3bda_4fae_94a2_46a9632d40b6);
    assert_eq!(projects[2].identity.id, 0x4aac89b0_df9a_441d_b050_f953476ea290);
    assert_eq!(projects[0].identity.description, "<auto-generated at server startup>");
    let sleds = state.backend.sleds_list(&PaginationParams { marker: None, limit: None }, false);
    assert_eq!(
        sleds.unwrap(),
        vec![
            0x2335aceb_969e_4abc_bbba_b0d3b44bc82e,
            0xb6d65341_167c_41df_9b5c_41cded99c229,
            0xdae9faf7_5b13_4334_85ed_6a53d0835414,
        ]
    );
}

#[test]
fn initial_data_is_all_or_nothing() {
    let mut rack = OxideRack::new();
    populate_initial_data(&mut rack, ServerControllerSimMode::Api).unwrap();
    assert_eq!((rack.project_count(), rack.sled_count()), (3, 3));
    let e = populate_initial_data(&mut rack, ServerControllerSimMode::Api).unwrap_err();
    assert_eq!(e.message(), "already exists: project \"simproject1\"");
    assert_eq!((rack.project_count(), rack.sled_count()), (3, 3));

    rack.project_delete(&Name::new("simproject1").unwrap()).unwrap();
    let e = populate_initial_data(&mut rack, ServerControllerSimMode::Api).unwrap_err();
    assert_eq!(e.message(), "already exists: project \"simproject2\"");
    assert_eq!((rack.project_count(), rack.sled_count()), (2, 3));

    for k in 0..3 {
        assert_eq!(demo_project_name(k).as_str(), format!("simproject{}", k + 1));
    }
    assert_ne!(demo_project_id(0), demo_project_id(1));
    assert_ne!(demo_sled_id(1), demo_sled_id(2));
}

fn state_with_cap(cap: usize) -> ApiServerState {
    ApiServerState {
        backend: OxideRack::new(),
        config: ApiServerConfig { request_body_max_bytes: cap },
    }
}

#[test]
fn bodies_are_measured_and_capped() {
    let chunks = vec![vec![1u8, 2, 3], vec![], vec![4u8, 5]];
    assert_eq!(http_dump_body(&chunks), 5);
    assert_eq!(http_dump_body(&Vec::new()), 0);
    assert_eq!(http_read_body(&chunks, 5).unwrap(), vec![1u8, 2, 3, 4, 5]);
    assert_eq!(http_read_body(&chunks, 1024).unwrap(), vec![1u8, 2, 3, 4, 5]);
    let e = http_read_body(&chunks, 4).unwrap_err();
    assert_eq!(e, ApiError::invalid_request("request body exceeds the maximum size"));
    assert_eq!(http_read_body(&Vec::new(), 0).unwrap(), Vec::<u8>::new());
}

#[test]
fn requests_are_greeted_or_refused() {
    let state = state_with_cap(4);
    let empty: Vec<Vec<u8>> = Vec::new();
    let body = vec![vec![7u8; 3]];
    let large = vec![vec![7u8; 3], vec![7u8; 2]];
    assert_eq!(http_request_handle(&state, HttpMethod::Get, &empty).unwrap(), "Hello\n");
    assert_eq!(http_request_handle(&state, HttpMethod::Head, &vec![vec![]]).unwrap(), "Hello\n");
    let e = http_request_handle(&state, HttpMethod::Get, &body).unwrap_err();
    assert_eq!(e, ApiError::invalid_request("request body must be empty"));
    assert_eq!(http_request_handle(&state, HttpMethod::Post, &body).unwrap(), "Hello\n");
    assert_eq!(http_request_handle(&state, HttpMethod::Put, &empty).unwrap(), "Hello\n");
    let e = http_request_handle(&state, HttpMethod::Post, &large).unwrap_err();
    assert_eq!(e.status_code(), 400);
    assert_eq!(e.message(), "request body exceeds the maximum size");
    assert!(HttpMethod::Get.expects_empty_body());
    assert!(!HttpMethod::Delete.expects_empty_body());
    assert!(!HttpMethod::Patch.expects_empty_body());
}

#[test]
fn handlers_share_the_state_of_their_server() {
    let state = Arc::new(state_with_cap(2));
    let connections: ApiServerConnectionHandler = server_handler(Arc::clone(&state));
    let first: ApiServerRequestHandler = connections.connection();
    let second = connections.connection();
    assert_eq!(Arc::strong_count(&state), 4);
    let body = vec![vec![1u8, 2, 3]];
    assert!(first.request(HttpMethod::Post, &body).is_err());
    assert_eq!(second.request(HttpMethod::Post, &vec![vec![1u8, 2]]).unwrap(), "Hello\n");
    let direct = ApiServerRequestHandler::new(Arc::clone(&state));
    assert!(direct.request(HttpMethod::Get, &body).is_err());
    let other = ApiServerConnectionHandler::new(Arc::clone(&state));
    assert!(other.connection().request(HttpMethod::Get, &Vec::new()).is_ok());
}

#[test]
fn failures_are_dropped_from_lists() {
    let results: Vec<Result<u32, ApiError>> = vec![
        Ok(1),
        Err(ApiError::invalid_request("x")),
        Ok(2),
        Ok(3),
        Err(ApiError::internal_error("y")),
    ];
    assert_eq!(to_view_list(results), vec![1, 2, 3]);
    assert_eq!(to_view_list(Vec::<Result<u32, ApiError>>::new()), Vec::<u32>::new());
    assert_eq!(to_view_list(vec![Err::<u32, ApiError>(ApiError::invalid_request("x"))]), vec![]);
}

#[test]
fn method_names_are_in_capitals() {
    assert_eq!(MethodType::DELETE.as_str(), "DELETE");
    assert_eq!(MethodType::GET.as_str(), "GET");
    assert_eq!(MethodType::PATCH.as_str(), "PATCH");
    assert_eq!(MethodType::POST.as_str(), "POST");
    assert_eq!(MethodType::PUT.as_str(), "PUT");
}

#[test]
fn documentation_lines_are_trimmed_and_joined() {
    assert_eq!(trim_doc_line(" one blank"), "one blank");
    assert_eq!(trim_doc_line("  two blanks"), "  two blanks");
    assert_eq!(trim_doc_line("none"), "none");
    assert_eq!(trim_doc_line(" "), "");
    assert_eq!(trim_doc_line(""), "");
    assert_eq!(trim_doc_line(" \u{e9}t\u{e9}"), "\u{e9}t\u{e9}");
    assert_eq!(extract_doc(&Vec::new()), None);
    let lines = vec![String::from(" Handle"), String::from("  the"), String::from("request")];
    assert_eq!(extract_doc(&lines), Some(String::from("Handle  therequest")));
    assert_eq!(extract_doc(&vec![String::new()]), Some(String::new()));
}

#[test]
fn messages_are_framed_by_their_length() {
    assert_eq!(TRUST_QUORUM_PORT, 7645);
    assert_eq!(frame(&vec![9u8, 8, 7]).unwrap(), vec![0u8, 0, 0, 3, 9, 8, 7]);
    assert_eq!(frame(&Vec::new()).unwrap(), vec![0u8, 0, 0, 0]);
    let payload = vec![5u8; 0x1_0203];
    let message = frame(&payload).unwrap();
    assert_eq!(&message[..4], &[0u8, 1, 2, 3]);
    assert_eq!(unframe(&message), Some((payload, 0x1_0203 + 4)));
    assert_eq!(unframe(&vec![0u8, 0, 0, 2, 1, 2, 3]), Some((vec![1u8, 2], 6)));
    assert_eq!(unframe(&vec![0u8, 0, 0]), None);
    assert_eq!(unframe(&vec![0u8, 0, 0, 2, 1]), None);
    assert_eq!(unframe(&vec![0u8, 0, 0, 0]), Some((Vec::new(), 4)));
}

#[test]
fn responder_sends_one_share_after_the_handshake() {
    let (state, action) = ResponderState::accept();
    assert_eq!((state, action), (ResponderState::Handshaking, ResponderAction::Handshake));
    let (state, action) = state.next(true);
    assert_eq!((state, action), (ResponderState::Sending, ResponderAction::SendShare));
    let (state, action) = state.next(true);
    assert_eq!((state, action), (ResponderState::Closed, ResponderAction::Close));
    assert_eq!(state.next(true), (ResponderState::Closed, ResponderAction::Close));
    assert_eq!(
        ResponderState::Handshaking.next(false),
        (ResponderState::Closed, ResponderAction::Close)
    );
    assert_eq!(
        ResponderState::Sending.next(false),
        (ResponderState::Closed, ResponderAction::Close)
    );
}

#[test]
fn shares_are_collected_up_to_the_threshold() {
    let mut collector = ShareCollector::new(2);
    assert!(!collector.is_complete());
    assert_eq!(collector.offer(vec![1, 1], false), ShareVerdict::Invalid);
    assert_eq!(collector.offer(vec![1, 1], true), ShareVerdict::Accepted);
    assert_eq!(collector.offer(vec![1, 1], true), ShareVerdict::Duplicate);
    assert_eq!(collector.count(), 1);
    assert_eq!(collector.offer(vec![1], true), ShareVerdict::Complete);
    assert!(collector.is_complete());
    assert_eq!(collector.offer(vec![3], true), ShareVerdict::Surplus);
    assert_eq!(collector.offer(vec![3], false), ShareVerdict::Surplus);
    assert_eq!(collector.finish().unwrap(), vec![vec![1u8, 1], vec![1u8]]);

    let mut short = ShareCollector::new(3);
    short.offer(vec![1], true);
    let e = short.finish().unwrap_err();
    assert_eq!(e.status_code(), 500);
    assert_eq!(e.message(), "too few shares of the rack secret could be collected");
    assert!(ShareCollector::new(0).is_complete());
    assert_eq!(ShareCollector::new(0).finish().unwrap(), Vec::<Vec<u8>>::new());
}
