use moly::http::{is_success, status_display};
use moly::runtime::{
    api_binary_candidates, command_result, join_path_str, kill_targets, list_status_error,
    set_server_pid, startup_begin, startup_step, take_server_pid, ModelRuntimeClient,
    ServerModelStatus, ServerPidSlot, StartupAction, StartupEvent, StartupState, READY_CHECKS,
};

#[test]
fn status_words_are_read() {
    assert_eq!(ServerModelStatus::from_str("loaded"), ServerModelStatus::Loaded);
    assert_eq!(ServerModelStatus::from_str("loading"), ServerModelStatus::Loading);
    assert_eq!(ServerModelStatus::from_str("error"), ServerModelStatus::Error);
    assert_eq!(ServerModelStatus::from_str("unloaded"), ServerModelStatus::Unloaded);
    assert_eq!(ServerModelStatus::from_str("Loaded"), ServerModelStatus::Unloaded);
    assert_eq!(ServerModelStatus::from_str(""), ServerModelStatus::Unloaded);
}

#[test]
fn client_drops_one_trailing_slash() {
    assert_eq!(ModelRuntimeClient::new("http://h:1/".to_string()).base_url(), "http://h:1");
    assert_eq!(ModelRuntimeClient::new("http://h:1//".to_string()).base_url(), "http://h:1/");
    assert_eq!(ModelRuntimeClient::new("http://h:1".to_string()).base_url(), "http://h:1");
    assert_eq!(ModelRuntimeClient::new(String::new()).base_url(), "");
}

#[test]
fn localhost_client_urls() {
    let c = ModelRuntimeClient::localhost();
    assert_eq!(c.base_url(), "http://localhost:8080");
    assert_eq!(c.models_url(), "http://localhost:8080/v1/models");
    assert_eq!(c.load_url(), "http://localhost:8080/v1/models/load");
    assert_eq!(c.unload_url(), "http://localhost:8080/v1/models/unload");
}

#[test]
fn status_codes_display_with_reason() {
    assert_eq!(status_display(404), "404 Not Found");
    assert_eq!(status_display(500), "500 Internal Server Error");
    assert_eq!(status_display(200), "200 OK");
    assert_eq!(status_display(599), "599 <unknown status code>");
    assert!(is_success(200));
    assert!(is_success(299));
    assert!(!is_success(199));
    assert!(!is_success(300));
}

#[test]
fn command_results() {
    assert_eq!(command_result(200, "ignored"), Ok(()));
    assert_eq!(command_result(204, ""), Ok(()));
    assert_eq!(
        command_result(404, "  no such model \n"),
        Err("HTTP 404 Not Found — no such model".to_string())
    );
    assert_eq!(
        command_result(503, ""),
        Err("HTTP 503 Service Unavailable — ".to_string())
    );
}

#[test]
fn list_errors() {
    assert_eq!(list_status_error(200), None);
    assert_eq!(list_status_error(401), Some("HTTP 401 Unauthorized".to_string()));
}

#[test]
fn pid_slot_records_and_hands_out_once() {
    let mut slot = ServerPidSlot::new();
    assert_eq!(slot.pid(), 0);
    assert_eq!(take_server_pid(&mut slot), None);
    set_server_pid(&mut slot, 4242);
    assert_eq!(slot.pid(), 4242);
    assert_eq!(take_server_pid(&mut slot), Some(4242));
    assert_eq!(slot.pid(), 0);
    assert_eq!(take_server_pid(&mut slot), None);
    set_server_pid(&mut slot, -3);
    assert_eq!(take_server_pid(&mut slot), None);
    assert_eq!(kill_targets(17), vec![-17, 17]);
}

#[test]
fn paths_join_like_path_join() {
    assert_eq!(join_path_str("/usr/bin", "ominix-api"), "/usr/bin/ominix-api");
    assert_eq!(join_path_str("/usr/bin/", "ominix-api"), "/usr/bin/ominix-api");
    assert_eq!(join_path_str("", "ominix-api"), "ominix-api");
}

#[test]
fn binary_candidates_in_order() {
    let c = api_binary_candidates(
        Some("/opt/api"),
        Some("/a:/b/"),
        Some("/Applications/App.app/Contents/MacOS"),
        Some("/work"),
    );
    assert_eq!(
        c,
        vec![
            "/opt/api",
            "/a/ominix-api",
            "/b/ominix-api",
            "/Applications/App.app/Contents/MacOS/ominix-api",
            "/work/OminiX-API/target/release/ominix-api",
            "/work/OminiX-API/target/debug/ominix-api",
        ]
    );
    assert_eq!(api_binary_candidates(None, None, None, None), Vec::<String>::new());
    assert_eq!(api_binary_candidates(None, Some(""), None, None), vec!["ominix-api"]);
}

fn finish_of(a: StartupAction) -> Result<(), String> {
    match a {
        StartupAction::Finish(r) => r,
        _ => panic!("not a finish"),
    }
}

#[test]
fn startup_adopts_a_running_server() {
    let (s, a) = startup_begin();
    assert_eq!(s, StartupState::CheckingRunning);
    assert!(matches!(a, StartupAction::CheckAlive));
    let (s, a) = startup_step(s, StartupEvent::Alive(true));
    assert_eq!(s, StartupState::Done);
    assert!(matches!(a, StartupAction::AdoptRunning));
}

#[test]
fn startup_reports_a_missing_binary() {
    let (s, _) = startup_begin();
    let (s, a) = startup_step(s, StartupEvent::Alive(false));
    assert_eq!(s, StartupState::Locating);
    assert!(matches!(a, StartupAction::FindBinary));
    let (s, a) = startup_step(s, StartupEvent::BinaryFound(false));
    assert_eq!(s, StartupState::Done);
    assert_eq!(
        finish_of(a),
        Err("ominix-api binary not found. Install it or set OMINIX_API_BIN.".to_string())
    );
}

#[test]
fn startup_reports_a_failed_launch() {
    let (s, _) = startup_step(StartupState::Locating, StartupEvent::BinaryFound(true));
    assert_eq!(s, StartupState::Launching);
    let (s, a) = startup_step(s, StartupEvent::Launched(Err("denied".to_string())));
    assert_eq!(s, StartupState::Done);
    assert_eq!(finish_of(a), Err("Failed to launch ominix-api: denied".to_string()));
}

#[test]
fn startup_waits_for_readiness() {
    let (s, a) = startup_step(StartupState::Launching, StartupEvent::Launched(Ok(99)));
    assert_eq!(s, StartupState::WaitingReady { checks: 0 });
    assert!(matches!(a, StartupAction::RecordAndWait(99)));
    let (s, a) = startup_step(s, StartupEvent::Alive(false));
    assert_eq!(s, StartupState::WaitingReady { checks: 1 });
    assert!(matches!(a, StartupAction::WaitAndCheck));
    let (s, a) = startup_step(s, StartupEvent::Alive(true));
    assert_eq!(s, StartupState::Done);
    assert_eq!(finish_of(a), Ok(()));
}

#[test]
fn startup_gives_up_after_sixty_checks() {
    let mut s = StartupState::WaitingReady { checks: 0 };
    let mut steps = 0;
    loop {
        let (next, a) = startup_step(s, StartupEvent::Alive(false));
        steps += 1;
        if next == StartupState::Done {
            assert_eq!(
                finish_of(a),
                Err("ominix-api launched but did not become ready within 30 seconds".to_string())
            );
            break;
        }
        s = next;
    }
    assert_eq!(steps, READY_CHECKS);
}
