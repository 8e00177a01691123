use bitkit::cli::{cdp_attaches, new_tab_navigates, primes_daemon, runs_offline, waits_for_network, CommandKind};
use bitkit::cloud::{
    default_create_body, first_present, finish_provider, http_method, is_websocket_url, preset,
    select_provider, stop_body, stop_path_for, CloudEnv, CloudError, CreateBody, HttpMethod, StopBody,
};
use bitkit::daemon::{
    daemon_idle, daemon_pid_path, daemon_sock_path, daemon_state_path, dialog_accept,
    heartbeat_fresh, heartbeat_stale, parse_daemon_command, push_ring, ring_routes, DaemonCommand,
    PageActivity, command_error, DaemonRings,
};
use bitkit::lifecycle::{chrome_args, doctor_row, launch_hint, looks_owned};
use bitkit::netidle::{classify, event_applies, idle_step, ActivityEvent, IdleStep, NetworkActivity};
use bitkit::output::{capture_bytes, CaptureError};
use bitkit::workspace::{current_tab_path, is_blank, recorded_value, script_runner, trace_dir, ScriptRunner};
use std::collections::VecDeque;

#[test]
fn paths() {
    assert_eq!(daemon_pid_path(), ".browser-control/daemon.pid");
    assert_eq!(daemon_state_path(), ".browser-control/daemon-state.json");
    assert_eq!(daemon_sock_path(), ".browser-control/daemon.sock");
    assert_eq!(current_tab_path(), ".browser-control/current-tab");
    assert_eq!(trace_dir(42), ".browser-control/traces/42");
}

#[test]
fn rings_keep_the_newest() {
    let mut r: VecDeque<u32> = VecDeque::new();
    for i in 0..5 {
        push_ring(&mut r, i, 3);
    }
    assert_eq!(r, VecDeque::from(vec![2, 3, 4]));
    assert_eq!(ring_routes("Network.dataReceived"), (true, false));
    assert_eq!(ring_routes("Log.entryAdded"), (false, true));
    assert_eq!(ring_routes("Runtime.consoleAPICalled"), (false, true));
    assert_eq!(ring_routes("Page.loadEventFired"), (false, false));
}

#[test]
fn network_activity() {
    let mut a = NetworkActivity::new(0);
    a.observe(&classify("Network.requestWillBeSent"), Some("1".into()), 10);
    a.observe(&classify("Network.requestWillBeSent"), Some("1".into()), 11);
    a.observe(&classify("Network.requestWillBeSent"), Some("2".into()), 12);
    assert_eq!(a.inflight.len(), 2);
    a.observe(&classify("Network.loadingFinished"), Some("1".into()), 20);
    a.observe(&classify("Network.loadingFailed"), Some("3".into()), 21);
    assert_eq!(a.inflight.len(), 1);
    a.observe(&classify("Page.frameNavigated"), None, 30);
    assert_eq!(a.last_activity, 21);
    a.observe(&classify("Network.dataReceived"), None, 40);
    assert_eq!(a.last_activity, 40);
    a.observe(&classify("Network.loadingFinished"), Some("2".into()), 41);
    assert!(a.inflight.is_empty());
    assert_eq!(classify("Page.javascriptDialogOpening"), ActivityEvent::DialogOpened);
    assert!(event_applies(false, Some("s"), Some("s")));
    assert!(!event_applies(false, Some("s"), Some("t")));
    assert!(!event_applies(true, None, None));
    assert!(event_applies(false, None, None));
}

#[test]
fn page_activity_tracks_dialogs() {
    let mut p: PageActivity<u8> = PageActivity::new(0);
    p.observe(&classify("Page.javascriptDialogOpening"), None, 7, 5);
    assert_eq!(p.dialog, Some(7));
    p.observe(&classify("Page.loadEventFired"), None, 8, 6);
    assert_eq!(p.dialog, Some(7));
    assert_eq!(p.network.last_activity, 6);
    p.observe(&classify("Page.javascriptDialogClosed"), None, 9, 7);
    assert_eq!(p.dialog, None);
    p.observe(&classify("Runtime.consoleAPICalled"), None, 10, 9);
    assert_eq!(p.network.last_activity, 7);
}

#[test]
fn idle_decisions() {
    assert_eq!(idle_step(1000, 0, 5000, 400, true, 500), IdleStep::Idle);
    assert_eq!(idle_step(900, 0, 5000, 400, true, 500), IdleStep::Wait(1));
    assert_eq!(idle_step(900, 0, 5000, 800, true, 500), IdleStep::Wait(400));
    assert_eq!(idle_step(900, 0, 5000, 800, false, 500), IdleStep::Wait(250));
    assert_eq!(idle_step(4900, 0, 5000, 4800, false, 500), IdleStep::Wait(100));
    assert_eq!(idle_step(5000, 0, 5000, 4800, true, 500), IdleStep::Expired);
    assert!(daemon_idle(1000, 500, 0, 10, 5, 600));
    assert!(!daemon_idle(999, 500, 0, 10, 5, 600));
    assert!(!daemon_idle(1000, 500, 1, 10, 5, 600));
    assert!(!daemon_idle(1000, 500, 0, 4, 5, 600));
    assert!(heartbeat_fresh(1999, 0));
    assert!(!heartbeat_fresh(2000, 0));
    assert!(heartbeat_fresh(0, 100));
    assert!(heartbeat_stale(2001, 0));
    assert!(!heartbeat_stale(2000, 0));
}

#[test]
fn daemon_commands() {
    assert_eq!(parse_daemon_command(Some("ping")), DaemonCommand::Ping);
    assert_eq!(parse_daemon_command(Some("cdp")), DaemonCommand::Cdp);
    assert_eq!(parse_daemon_command(Some("nope")), DaemonCommand::Unknown("nope".into()));
    assert_eq!(parse_daemon_command(None), DaemonCommand::Missing);
    assert!(dialog_accept("accept"));
    assert!(!dialog_accept("dismiss"));
}

fn no_env() -> CloudEnv {
    CloudEnv {
        api: None,
        auth_header: None,
        create_path: None,
        list_path: None,
        stop_method: None,
        stop_path: None,
        cdp_field: None,
    }
}

#[test]
fn cloud_presets() {
    let p = preset("bu", &no_env()).unwrap();
    assert_eq!(p.name, "browser-use");
    assert_eq!(p.stop_method, "PATCH");
    let s = preset("steel", &no_env()).unwrap();
    assert_eq!(s.cdp_fields, vec!["websocketUrl", "connectUrl", "cdpUrl"]);
    assert!(matches!(preset("custom", &no_env()), Err(CloudError::CustomNeedsApi)));
    let mut env = no_env();
    env.api = Some("https://x".into());
    env.stop_method = Some(String::new());
    let c = preset("custom", &env).unwrap();
    assert_eq!(c.base, "https://x");
    assert_eq!(c.stop_method, "DELETE");
    assert_eq!(c.auth_header, "Authorization");
    assert_eq!(c.cdp_fields.len(), 4);
    let d = select_provider(&None, &no_env()).unwrap();
    assert_eq!(d.name, "browser-use");
    let f = finish_provider(d, &no_env(), &None, &Some("k".into()), &None, &Some("proj".into())).unwrap();
    assert_eq!(f.key, "k");
    assert_eq!(f.project_id, Some("proj".into()));
    let h = preset("hyperbrowser", &no_env()).unwrap();
    assert_eq!(
        finish_provider(h, &no_env(), &Some(String::new()), &None, &None, &None).err(),
        Some(CloudError::MissingKey("HYPERBROWSER_API_KEY".into()))
    );
}

#[test]
fn cloud_requests() {
    assert_eq!(http_method("PUT"), Ok(HttpMethod::Put));
    assert_eq!(http_method("put"), Err(CloudError::BadMethod("put".into())));
    assert_eq!(default_create_body("browser-use"), CreateBody::TimeoutSeconds240);
    assert_eq!(default_create_body("hyperbrowser"), CreateBody::TimeoutMinutes5);
    assert_eq!(default_create_body("steel"), CreateBody::Empty);
    assert_eq!(stop_body("browser-use", &None), Some(StopBody::Stop));
    assert_eq!(stop_body("browserbase", &Some("p".into())), Some(StopBody::Release(Some("p".into()))));
    assert_eq!(stop_body("steel", &None), None);
    assert_eq!(stop_path_for("/sessions/{id}/release", "abc"), "/sessions/abc/release");
    assert_eq!(stop_path_for("/{id}/{id}", "x"), "/x/x");
    assert_eq!(stop_path_for("/none", "x"), "/none");
    assert_eq!(first_present(&[None, Some("ws://a".into()), Some("b".into())]), Some("ws://a".into()));
    assert!(is_websocket_url("wss://x"));
    assert!(!is_websocket_url("http://x"));
}

#[test]
fn launch_and_doctor() {
    assert_eq!(
        chrome_args(None, 9222, true, "/p"),
        vec![
            "--headless=new",
            "--remote-debugging-port=9222",
            "--no-first-run",
            "--no-default-browser-check",
            "--user-data-dir=/p",
            "about:blank"
        ]
    );
    assert_eq!(chrome_args(Some("https://e"), 1, false, "d").len(), 5);
    assert_eq!(launch_hint(9222), "BROWSER_CONTROL_CDP_URL=http://127.0.0.1:9222");
    assert!(looks_owned("chrome --remote-debugging-port=9 --user-data-dir=/w/p", Some("/w/p")));
    assert!(!looks_owned("chrome --user-data-dir=/w/p", Some("/w/p")));
    assert!(looks_owned("c --remote-debugging-port=1 --user-data-dir=/h/.browser-control/profile", None));
    assert_eq!(doctor_row("workspace", true, ".browser-control"), "  [ok  ] workspace \u{2014} .browser-control");
    assert_eq!(doctor_row("cdp endpoint", false, ""), "  [FAIL] cdp endpoint");
}

#[test]
fn workspace_values() {
    assert_eq!(recorded_value("  ABC \n"), Some("ABC".into()));
    assert_eq!(recorded_value(" \n"), None);
    assert!(is_blank(" \t\n"));
    assert!(!is_blank(" x "));
    assert_eq!(script_runner("a.py"), ScriptRunner::Python);
    assert_eq!(script_runner("a.b.ts"), ScriptRunner::Bun);
    assert_eq!(script_runner("run.sh"), ScriptRunner::Bash);
    assert_eq!(script_runner("tool.js"), ScriptRunner::Node);
    assert_eq!(script_runner("./tool"), ScriptRunner::Direct);
    assert_eq!(script_runner("tool.rb"), ScriptRunner::Direct);
}

#[test]
fn command_decisions() {
    assert!(primes_daemon(CommandKind::Click));
    assert!(!primes_daemon(CommandKind::Eval));
    assert!(runs_offline(CommandKind::Doctor));
    assert!(!runs_offline(CommandKind::Click));
    assert!(cdp_attaches("Page.navigate"));
    assert!(!cdp_attaches("Target.getTargets"));
    assert!(!cdp_attaches("Browser.getVersion"));
    assert!(waits_for_network("networkidle"));
    assert!(!waits_for_network("load"));
    assert!(new_tab_navigates(Some("https://e")));
    assert!(!new_tab_navigates(Some("about:blank")));
    assert!(!new_tab_navigates(None));
}

#[test]
fn capture_decoding() {
    assert_eq!(capture_bytes(Some("aGk=")), Ok(b"hi".to_vec()));
    assert_eq!(capture_bytes(None), Err(CaptureError::MissingData));
    assert_eq!(capture_bytes(Some("!!")), Err(CaptureError::BadBase64));
}

fn contents(ring: &VecDeque<std::rc::Rc<u32>>) -> Vec<u32> {
    ring.iter().map(|e| **e).collect()
}

#[test]
fn rings_record_a_stream_keeping_the_newest() {
    let mut r: DaemonRings<u32> = DaemonRings::new();
    let methods = ["Network.requestWillBeSent", "Log.entryAdded", "Page.loadEventFired", "Runtime.exceptionThrown"];
    for i in 0..450u32 {
        r.record(methods[(i % 4) as usize], i);
    }
    let all: Vec<u32> = (250..450).collect();
    assert_eq!(contents(&r.events), all);
    let net: Vec<u32> = (0..450).filter(|i| i % 4 == 0).collect();
    assert_eq!(contents(&r.network), net[net.len() - 100..].to_vec());
    let con: Vec<u32> = (0..450).filter(|i| i % 4 == 1 || i % 4 == 3).collect();
    assert_eq!(contents(&r.console), con[con.len() - 100..].to_vec());
    r.clear();
    assert!(r.events.is_empty() && r.network.is_empty() && r.console.is_empty());
    r.record("Network.dataReceived", 7);
    assert_eq!(contents(&r.events), vec![7]);
    assert_eq!(contents(&r.network), vec![7]);
    assert!(r.console.is_empty());
}

#[test]
fn unknown_and_missing_commands_are_answered_with_errors() {
    assert_eq!(
        command_error(&parse_daemon_command(Some("reboot"))),
        Some("unknown daemon command reboot".to_string())
    );
    assert_eq!(command_error(&parse_daemon_command(None)), Some("missing daemon command".to_string()));
    assert_eq!(command_error(&parse_daemon_command(Some("ping"))), None);
}
