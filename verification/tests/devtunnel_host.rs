use sshdt::devtunnel::host::{
    after_account, after_details, attempt, begin_attempt, failure, has_port, host_readiness,
    is_status_file, labels_to_add, lock_fault, logs_line, not_found, read_details, start, status,
    status_line, status_pid, tolerated_failure, Collector, Host, HostAction, HostEvent, HostState,
    Next, Output, Phase, PortEntry, Readiness, Start, Step, TunnelDetails,
};
use sshdt::devtunnel::json::Json;
use sshdt::devtunnel::network::WaitEvent;
use sshdt::devtunnel::process::ProcessEvent;
use sshdt::net::{IpAddr, SocketAddr};
use sshdt::DevTunnelConfig;

fn output(success: bool, code: i32, stdout: &str, stderr: &str) -> Output {
    Output {
        success,
        code: Some(code),
        stdout: stdout.to_string(),
        stderr: stderr.to_string(),
    }
}

fn config(auto_create: bool, labels: &[&str]) -> DevTunnelConfig {
    DevTunnelConfig {
        enabled: true,
        id: Some("my-tunnel".to_string()),
        labels: labels.iter().map(|l| l.to_string()).collect(),
        bin: None,
        auto_create,
        timeout_secs: 30,
    }
}

fn run_args(next: &Next) -> Vec<String> {
    match next {
        Next::Run { args, .. } => args.clone(),
        Next::Host { args } => args.clone(),
        Next::Fail { reason } => panic!("{}", reason),
    }
}

fn reason(next: Next) -> String {
    match next {
        Next::Fail { reason } => reason,
        _ => panic!("did not fail"),
    }
}

#[test]
fn port_checks_require_exact_number_and_protocol() {
    let data =
        read_details(r#"{"tunnel":{"ports":[{"portNumber":2222,"protocol":"auto"}]}}"#).unwrap();
    assert!(has_port(&data, 2222));
    assert!(!has_port(&data, 2223));
    assert!(!has_port(
        &read_details(r#"{"ports":[{"portNumber":2222,"protocol":"https"}]}"#).unwrap(),
        2222
    ));
}

#[test]
fn creation_requires_a_confirmed_missing_tunnel() {
    let mut output = Output {
        success: false,
        code: Some(2),
        stdout: String::new(),
        stderr: "Tunnel not found: test".into(),
    };
    assert!(not_found(&output));
    output.stderr = "Network unavailable".into();
    assert!(!not_found(&output));
    output.stderr = "Tunnel not found: test".into();
    output.code = Some(1);
    assert!(!not_found(&output));
}

#[test]
fn details_are_read_from_json() {
    let d = read_details(
        r#"{"tunnel":{"labels":["a",1,"b\n"],"ports":[{"portNumber":-1,"protocol":"auto"},{"portNumber":80},7]}}"#,
    )
    .unwrap();
    assert_eq!(d.labels, ["a", "b\n"]);
    assert_eq!(d.ports.len(), 3);
    assert_eq!(d.ports[0].number, None);
    assert_eq!(d.ports[1].number, Some(80));
    assert_eq!(d.ports[1].protocol, None);
    assert!(read_details("not json").is_none());
    let empty = read_details(r#"{"tunnel":null,"ports":[{"portNumber":1}]}"#).unwrap();
    assert!(empty.ports.is_empty());
}

#[test]
fn an_attempt_creates_what_is_missing() {
    let c = config(true, &["alpha"]);
    assert_eq!(run_args(&begin_attempt()), ["user", "show", "--json"]);
    let user = output(true, 0, r#"{"status":"Logged in"}"#, "");
    let next = attempt(&c, 22, Step::User, &user);
    assert_eq!(run_args(&next), ["show", "my-tunnel", "--json"]);
    let missing = output(false, 2, "", "Tunnel not found.");
    let next = attempt(&c, 22, Step::Show, &missing);
    assert_eq!(run_args(&next), ["create", "my-tunnel", "--json"]);
    let next = attempt(&c, 22, Step::Create, &output(false, 1, "", "exists"));
    assert_eq!(run_args(&next), ["show", "my-tunnel", "--json"]);
    let bare = output(true, 0, r#"{"tunnel":{}}"#, "");
    let next = attempt(&c, 22, Step::Reshow, &bare);
    assert_eq!(
        run_args(&next),
        ["port", "create", "my-tunnel", "-p", "22", "--protocol", "auto", "--json"]
    );
    let next = attempt(&c, 22, Step::PortCreate, &output(false, 1, "", ""));
    assert_eq!(run_args(&next), ["show", "my-tunnel", "--json"]);
    let full = output(
        true,
        0,
        r#"{"tunnel":{"ports":[{"portNumber":22,"protocol":"auto"}],"labels":["beta"]}}"#,
        "",
    );
    let next = attempt(&c, 22, Step::PortShow, &full);
    assert_eq!(
        run_args(&next),
        ["update", "my-tunnel", "--add-labels", "alpha"]
    );
    let next = attempt(&c, 22, Step::Label, &output(true, 0, "", ""));
    assert!(matches!(&next, Next::Host { .. }));
    assert_eq!(run_args(&next), ["host", "my-tunnel"]);
    assert!(matches!(
        attempt(&config(false, &["beta"]), 22, Step::Show, &full),
        Next::Host { .. }
    ));
}

#[test]
fn an_attempt_fails_for_a_reason() {
    let c = config(false, &[]);
    let login = "login required; run devtunnel user login under the SSH server account";
    assert_eq!(
        reason(attempt(&c, 22, Step::User, &output(true, 0, "{}", ""))),
        login
    );
    assert_eq!(
        reason(attempt(&c, 22, Step::User, &output(true, 0, "{", ""))),
        "invalid Dev Tunnel login response"
    );
    assert_eq!(
        reason(attempt(&c, 22, Step::User, &output(false, 1, "", "Unauthorized"))),
        login
    );
    assert_eq!(
        reason(attempt(
            &c,
            22,
            Step::Show,
            &output(false, 2, "", "tunnel not found")
        )),
        "Dev Tunnel CLI failed with code Some(2): tunnel not found"
    );
    assert_eq!(
        reason(attempt(&c, 22, Step::Show, &output(true, 0, "x", ""))),
        "invalid Dev Tunnel details"
    );
    assert_eq!(
        reason(attempt(&c, 22, Step::PortShow, &output(true, 0, "x", ""))),
        "invalid Dev Tunnel port details"
    );
    assert_eq!(
        reason(attempt(&c, 22, Step::Show, &output(true, 0, "{}", ""))),
        "tunnel my-tunnel lacks port 22 with protocol auto; DevTunnelAutoCreate is disabled"
    );
    let https = r#"{"ports":[{"portNumber":22,"protocol":"https"}]}"#;
    assert_eq!(
        reason(attempt(&c, 22, Step::Show, &output(true, 0, https, ""))),
        "tunnel port 22 has an incompatible protocol; update it explicitly with devtunnel"
    );
    assert_eq!(
        reason(attempt(&c, 22, Step::PortShow, &output(true, 0, https, ""))),
        "tunnel port 22 is missing or has an incompatible protocol"
    );
    assert!(matches!(
        attempt(&c, 22, Step::Label, &output(false, 1, "", "no")),
        Next::Fail { .. }
    ));
}

#[test]
fn decisions_follow_from_what_was_read() {
    assert_eq!(
        reason(after_account("t", &Json::Number(Some(1)))),
        "login required; run devtunnel user login under the SSH server account"
    );
    assert_eq!(
        run_args(&after_account("t", &Json::Text("Logged in".to_string()))),
        ["show", "t", "--json"]
    );
    let d = TunnelDetails {
        ports: vec![PortEntry {
            number: Some(22),
            protocol: Some("auto".to_string()),
        }],
        labels: vec![],
    };
    let wanted = vec!["a".to_string(), "a".to_string(), "b".to_string()];
    assert_eq!(
        run_args(&after_details("t", &wanted, false, 22, false, &d)),
        ["update", "t", "--add-labels", "a", "b"]
    );
    assert_eq!(
        labels_to_add(&wanted, &vec!["a".to_string(), "z".to_string()]),
        ["b"]
    );
    assert!(logs_line(true, "stderr") && logs_line(false, "stdout") && !logs_line(true, "stdout"));
    assert!(tolerated_failure(Step::Create, false).is_some());
    assert!(tolerated_failure(Step::Show, false).is_none());
    assert!(tolerated_failure(Step::Create, true).is_none());
}

#[test]
fn failures_are_described_without_secrets() {
    assert_eq!(
        failure(&output(false, 1, "token abc", "")),
        "Dev Tunnel CLI failed with code Some(1): [credential-bearing output omitted]"
    );
    let mut ended = output(false, 0, "out", "err");
    ended.code = None;
    assert_eq!(
        failure(&ended),
        "Dev Tunnel CLI failed with code None: err out"
    );
    ended.code = Some(-1);
    assert_eq!(
        failure(&ended),
        "Dev Tunnel CLI failed with code Some(-1): err out"
    );
}

#[test]
fn outputs_are_gathered_up_to_a_limit() {
    let mut c = Collector::new();
    assert_eq!(c.push("stdout", "a"), Ok(()));
    assert_eq!(c.push("stderr", "b"), Ok(()));
    assert_eq!(c.push("stdout", "c"), Ok(()));
    let long = "x".repeat(1024 * 1024);
    assert_eq!(
        c.push("stdout", &long),
        Err("Dev Tunnel command output exceeds limit".to_string())
    );
    let o = c.finish(true, Some(0));
    assert_eq!((o.stdout.as_str(), o.stderr.as_str()), ("a\nc\n", "b\n"));
}

#[test]
fn hosts_are_started_only_where_they_can_be_reached() {
    let local = SocketAddr {
        ip: IpAddr::V4(127, 0, 0, 1),
        port: 22,
        scope: 0,
    };
    let far = SocketAddr {
        ip: IpAddr::V4(10, 0, 0, 1),
        port: 22,
        scope: 0,
    };
    let mut c = config(false, &[]);
    assert!(
        matches!(start(&c, &local), Start::Host { lock } if lock == "devtunnel-host-my-tunnel.lock")
    );
    assert!(matches!(
        start(&c, &far),
        Start::Skip { named: true, reason } if reason == "SSH listener must accept loopback connections"
    ));
    c.timeout_secs = 0;
    assert!(matches!(
        start(&c, &local),
        Start::Skip { named: true, reason } if reason == "DevTunnelTimeout must be greater than zero"
    ));
    c.id = None;
    assert!(matches!(start(&c, &local), Start::Skip { named: false, .. }));
    c.enabled = false;
    assert!(matches!(start(&c, &local), Start::Disabled));
    assert_eq!(lock_fault(Ok(true)), None);
    assert_eq!(
        lock_fault(Ok(false)).as_deref(),
        Some("another sshdt process already hosts this tunnel")
    );
    assert_eq!(lock_fault(Err("e".to_string())).as_deref(), Some("e"));
}

#[test]
fn failed_hosts_are_tried_again_on_schedule() {
    let (mut h, report, action) = Host::new(0, false);
    assert_eq!(report.unwrap().state, HostState::Starting);
    assert_eq!(action, HostAction::Attempt);
    let mut now = 0;
    for seconds in [30, 60, 120, 240, 300, 300] {
        let (report, action) = h.step(HostEvent::SetupFailed("Network unavailable".to_string()), now);
        assert_eq!(report.unwrap().state, HostState::Retrying);
        assert_eq!(action, HostAction::Sleep(now + seconds * 1000));
        assert_eq!(
            h.step(HostEvent::Wait(WaitEvent::Tick), now + seconds * 1000 - 1).1,
            HostAction::Sleep(now + seconds * 1000)
        );
        now += seconds * 1000;
        let (report, action) = h.step(HostEvent::Wait(WaitEvent::Tick), now);
        assert_eq!(report.unwrap().reason, "checking tunnel configuration");
        assert_eq!(action, HostAction::Attempt);
    }
    let (report, action) = h.step(HostEvent::Ready, now);
    assert_eq!(report.unwrap().state, HostState::Connected);
    assert_eq!(action, HostAction::Watch);
    now += 300_000;
    let (report, action) = h.step(HostEvent::Exited(Some(1)), now);
    assert_eq!(
        report.unwrap().reason,
        "host process exited with code Some(1)"
    );
    assert_eq!(action, HostAction::CloseAndSleep(now + 30_000));
    let (report, action) = h.step(HostEvent::Cancelled, now);
    assert_eq!(report.unwrap().state, HostState::Stopped);
    assert_eq!(action, HostAction::Finish);
    assert_eq!(h.step(HostEvent::Ready, now).1, HostAction::Finish);
}

#[test]
fn changes_bring_only_transient_failures_forward() {
    let (mut h, _, _) = Host::new(0, true);
    let _ = h.step(HostEvent::SetupFailed("timed out".to_string()), 0);
    assert_eq!(
        h.step(HostEvent::Wait(WaitEvent::Changed(1_000)), 1_000).1,
        HostAction::Sleep(3_000)
    );
    assert_eq!(
        h.step(HostEvent::Wait(WaitEvent::Tick), 3_000).1,
        HostAction::Attempt
    );
    let (report, action) = h.step(
        HostEvent::SetupFailed("login required; run it".to_string()),
        4_000,
    );
    assert_eq!(report.unwrap().state, HostState::Skipped);
    assert_eq!(action, HostAction::Sleep(64_000));
    assert_eq!(
        h.step(HostEvent::Wait(WaitEvent::Changed(5_000)), 5_000).1,
        HostAction::Sleep(64_000)
    );
    assert_eq!(
        h.step(HostEvent::Wait(WaitEvent::Tick), 63_999).1,
        HostAction::Sleep(64_000)
    );
    assert_eq!(
        h.step(HostEvent::Wait(WaitEvent::Tick), 64_000).1,
        HostAction::Attempt
    );
    let _ = h.step(HostEvent::Ready, 65_000);
    assert_eq!(
        h.step(HostEvent::Wait(WaitEvent::Changed(66_000)), 66_000).1,
        HostAction::Watch
    );
    assert_eq!(h.phase, Phase::Hosting);
    assert_eq!(
        h.step(HostEvent::Cancelled, 67_000).1,
        HostAction::CloseAndFinish
    );
}

#[test]
fn readiness_is_announced_by_a_line() {
    let line = |text: &str| {
        Some(ProcessEvent::Line {
            stream: "stdout",
            line: text.to_string(),
        })
    };
    assert!(matches!(
        host_readiness(&line("Ready to accept connections for tunnel: x")),
        Readiness::Ready
    ));
    assert!(matches!(host_readiness(&line("wait")), Readiness::Pending));
    let exited = Some(ProcessEvent::Exited {
        success: false,
        code: Some(3),
    });
    assert!(matches!(
        host_readiness(&exited),
        Readiness::Failed(m) if m == "Dev Tunnel host exited before readiness with code Some(3)"
    ));
    assert!(matches!(host_readiness(&None), Readiness::Failed(_)));
}

#[test]
fn status_is_written_and_read_back() {
    let r = status(42, Some("my-tunnel"), HostState::Retrying, "see https://x");
    assert_eq!(r.file, "devtunnel-host-42.json");
    assert_eq!(r.reason, "see [URL omitted]");
    assert!(is_status_file(&r.file) && !is_status_file("devtunnel-host-42.lock"));
    assert_eq!(status_pid(&r.json), Some(42));
    assert_eq!(
        status_line(&r.json),
        "Dev Tunnel my-tunnel: retrying (see [URL omitted])"
    );
    let unnamed = status(1, None, HostState::Skipped, "quote \" here");
    assert_eq!(
        status_line(&unnamed.json),
        "Dev Tunnel not configured: skipped (quote \" here)"
    );
    assert_eq!(status_pid("{}"), None);
    assert_eq!(status_line("{}"), "Dev Tunnel not configured: unknown ()");
}
