use sshdt::devtunnel::broker::{
    check_request, manager_start, respond, unavailable, Admission, Broker, Connector,
    ConnectorStep, Leases, ManagerStart, OpenStep, RelayStep, Relays, TickStep,
};
use sshdt::devtunnel::client::{
    broker_lock_held, check_response, endpoint_name, forwarding_line, hello, listening_line,
    lock_name, new_token, proxy, same_token, startup_forwarding_failure, token_text,
    GreetingReader, GreetingStep, LockAttempt, ProxyRequest, Search, SearchAction, SearchEvent,
    DEFAULT_PROXY_TIMEOUT,
};
use sshdt::devtunnel::ipc::{
    broker_descriptor, brokers_directory, check_endpoint, check_kind, frame, frame_length,
    is_reparse_point, private_mode, Endpoint, FileFacts, Request, Response, VERSION,
};
use sshdt::devtunnel::network::WaitEvent;
use sshdt::net::parse_socket;
use sshdt::paths::PathStyle;

fn request(version: u32, token: &str, remote_port: u16, local_port: Option<u16>) -> Request {
    Request {
        version,
        token: token.to_string(),
        remote_port,
        local_port,
    }
}

#[test]
fn forwarding_parser_requires_loopback_and_valid_ports() {
    assert_eq!(
        forwarding_line("SSH: Forwarding from 127.0.0.1:2223 to host port 2222."),
        Some((2222, parse_socket("127.0.0.1:2223").unwrap()))
    );
    assert_eq!(
        forwarding_line("Forwarding from [::1]:2300 to host port 2222."),
        Some((2222, parse_socket("[::1]:2300").unwrap()))
    );
    for text in [
        "Forwarding from 1.2.3.4:2223 to host port 2222.",
        "Forwarding from 127.0.0.1:0 to host port 2222.",
        "Forwarding from 127.0.0.1:2223 to host port 0.",
        "Forwarding from 127.0.0.1:2223 to host port 2222. evil",
    ] {
        assert_eq!(forwarding_line(text), None);
    }
}

#[test]
fn listening_parser_requires_explicit_readiness() {
    assert_eq!(
        listening_line("SSH: Forwarding from 127.0.0.1:2223 to host port 2222."),
        None
    );
    assert_eq!(
        listening_line("SSH: PortForwardingService listening on 127.0.0.1:2223."),
        Some(parse_socket("127.0.0.1:2223").unwrap())
    );
    assert_eq!(
        listening_line("SSH: PortForwardingService also listening on ::1:2223."),
        Some(parse_socket("[::1]:2223").unwrap())
    );
    assert_eq!(
        listening_line("SSH: PortForwardingService listening on 1.2.3.4:2223."),
        None
    );
}

#[test]
fn exact_port_conflicts_and_same_destination_reuses_listener() {
    let mut relays = Relays::new();
    assert!(matches!(relays.ensure_relay(4000, 2222), RelayStep::Bind));
    assert_eq!(unavailable(4000), "local port 4000 is unavailable");
    relays.bound(4000, 2222);
    assert!(matches!(relays.ensure_relay(4000, 2222), RelayStep::Reuse));
    assert!(matches!(relays.ensure_relay(4000, 2222), RelayStep::Reuse));
    assert!(matches!(
        relays.ensure_relay(4000, 2223),
        RelayStep::Conflict(m) if m == "local port 4000 already routes to a different destination"
    ));
}

#[test]
fn dropping_last_relay_request_releases_port() {
    let mut relays = Relays::new();
    relays.bound(4000, 2222);
    assert!(matches!(relays.ensure_relay(4000, 2222), RelayStep::Reuse));
    assert!(!relays.release(4000));
    assert!(relays.release(4000));
    assert!(matches!(relays.ensure_relay(4000, 2223), RelayStep::Bind));
}

#[test]
fn idle_shutdown_and_new_leases_are_serialized() {
    let mut leases = Leases::new(0);
    assert!(leases.acquire());
    assert!(!leases.begin_idle_shutdown(10_000));
    leases.release(10_000);
    assert!(leases.acquire());
    assert!(!leases.begin_idle_shutdown(16_000));
    leases.release(16_000);
    assert!(!leases.begin_idle_shutdown(20_999));
    assert!(leases.begin_idle_shutdown(21_000));
    assert!(!leases.acquire());
}

#[test]
fn invalid_capability_and_version_never_start_connector() {
    assert!(matches!(
        check_request(&request(VERSION, "wrong", 2222, None), "capability", true),
        Admission::Deny(_)
    ));
    assert!(matches!(
        check_request(&request(VERSION + 1, "capability", 2222, None), "capability", true),
        Admission::Refuse(m) if m.contains("incompatible")
    ));
    assert!(matches!(
        check_request(&request(VERSION, "capability", 2222, None), "capability", false),
        Admission::Close
    ));
    assert!(matches!(
        check_request(&request(VERSION, "capability", 0, None), "capability", true),
        Admission::Refuse(m) if m == "invalid port"
    ));
    assert!(matches!(
        check_request(&request(VERSION, "capability", 1, Some(0)), "capability", true),
        Admission::Refuse(_)
    ));
    assert!(matches!(
        check_request(&request(VERSION, "capability", 2222, None), "capability", true),
        Admission::Open
    ));
    let mut broker = Broker::new(0, false);
    assert_eq!(
        broker.connector_event(10_000, WaitEvent::Tick),
        ConnectorStep::Rest
    );
}

#[test]
fn connector_failure_reaches_pending_proxy_as_an_error() {
    let mut broker = Broker::new(0, false);
    broker.forwarding.error = Some("connector exited".to_string());
    match broker.forwarding.serve(2222, None) {
        OpenStep::Fail(m) => {
            let response = respond(Some(m));
            assert_eq!(response.error.as_deref(), Some("connector exited"));
            assert_eq!(check_response(response).unwrap_err(), "connector exited");
        }
        _ => panic!("no failure"),
    }
    let mut broker = Broker::new(0, false);
    broker.spawn_failed();
    assert!(matches!(
        broker.forwarding.serve(1, None),
        OpenStep::Fail(m) if m == "cannot start devtunnel; check installation and login"
    ));
}

fn up(broker: &mut Broker, now: u64) {
    broker.request();
    assert_eq!(
        broker.connector_event(now, WaitEvent::Tick),
        ConnectorStep::Spawn
    );
}

#[test]
fn ports_are_published_once_something_listens() {
    let mut broker = Broker::new(0, false);
    up(&mut broker, 0);
    let forwarding = |b: &Broker, local| b.forwarding.serve(2222, local);
    assert!(!broker.connector_line("SSH: Forwarding from [::1]:2223 to host port 2222.", 1));
    assert!(!broker.connector_line("SSH: Forwarding from 127.0.0.1:2223 to host port 2222.", 1));
    assert!(broker.leases.acquire());
    assert_eq!(broker.tick(100), TickStep::Continue);
    assert!(matches!(forwarding(&broker, None), OpenStep::Wait));
    assert!(!broker.connector_line("SSH: PortForwardingService also listening on ::1:2223.", 2));
    assert_eq!(broker.tick(200), TickStep::Continue);
    assert!(matches!(
        forwarding(&broker, None),
        OpenStep::Connect(a) if a.to_string() == "[::1]:2223"
    ));
    assert!(!broker.connector_line("SSH: PortForwardingService listening on 127.0.0.1:2223.", 2));
    assert_eq!(broker.tick(300), TickStep::Continue);
    assert!(matches!(
        forwarding(&broker, None),
        OpenStep::Connect(a) if a.to_string() == "127.0.0.1:2223"
    ));
    assert!(matches!(
        forwarding(&broker, Some(5000)),
        OpenStep::Connect(a) if a.to_string() == "127.0.0.1:5000"
    ));
    assert_eq!(
        broker.forwarding.relay_target(2222),
        parse_socket("127.0.0.1:2223")
    );
    assert_eq!(broker.forwarding.relay_target(1), None);
    assert!(!broker.forwarding.session_over(0));
    assert!(broker.forwarding.connected(true, 0));
}

#[test]
fn lost_connectors_are_started_again_on_schedule() {
    let mut broker = Broker::new(0, false);
    assert!(broker.leases.acquire());
    up(&mut broker, 0);
    let mut now = 1_000;
    for seconds in [30, 60, 120, 240, 300, 300] {
        broker.connector_exited(now);
        assert_eq!(broker.connector, Connector::Down { retry_at: now + seconds * 1000 });
        assert!(broker.forwarding.error.is_none());
        assert_eq!(
            broker.connector_event(now, WaitEvent::Tick),
            ConnectorStep::Sleep(now + seconds * 1000)
        );
        now += seconds * 1000;
        assert_eq!(
            broker.connector_event(now, WaitEvent::Tick),
            ConnectorStep::Spawn
        );
    }
    assert!(broker.forwarding.session_over(0));
    assert!(!broker.forwarding.connected(true, 0));
    assert!(!broker.connector_line("PortForwardingService listening on 127.0.0.1:1.", now));
    now += 300_000;
    broker.connector_exited(now);
    assert_eq!(broker.connector, Connector::Down { retry_at: now + 30_000 });
}

#[test]
fn silent_and_failing_connectors_are_restarted() {
    let mut broker = Broker::new(0, false);
    assert!(broker.leases.acquire());
    up(&mut broker, 0);
    assert_eq!(broker.tick(29_999), TickStep::Continue);
    assert_eq!(broker.tick(30_000), TickStep::Restart);
    assert_eq!(broker.connector, Connector::Restarting { ready: false });
    assert!(!broker.connector_line("PortForwardingService listening on 127.0.0.1:1.", 30_001));
    broker.connector_exited(30_100);
    assert_eq!(broker.connector, Connector::Down { retry_at: 60_100 });
    assert_eq!(
        broker.connector_event(60_100, WaitEvent::Tick),
        ConnectorStep::Spawn
    );
    let line = "System.InvalidOperationException: Port 2222 is not being forwarded.";
    assert!(startup_forwarding_failure(line));
    assert!(!startup_forwarding_failure("Port 2222 is not being forwarded."));
    assert!(broker.connector_line(line, 60_200));
    assert!(!broker.connector_line(line, 60_201));
    assert_eq!(broker.forwarding.generation, 2);
}

#[test]
fn managers_stop_when_nobody_needs_them() {
    let mut broker = Broker::new(0, false);
    assert_eq!(broker.tick(4_999), TickStep::Continue);
    assert_eq!(broker.tick(5_000), TickStep::Shutdown);
    assert!(!broker.leases.acquire());
    let mut full = Broker::new(0, false);
    for _ in 0..256 {
        assert!(full.accept());
    }
    assert!(!full.accept());
    full.session_ended();
    assert!(full.accept());
}

fn greet(bytes: &[u8]) -> (bool, Vec<u8>) {
    let mut r = GreetingReader::new();
    for b in bytes {
        match r.push(*b) {
            GreetingStep::More => {}
            GreetingStep::Done => return (true, r.finish()),
            GreetingStep::Invalid => return (false, r.finish()),
        }
    }
    (false, r.finish())
}

#[test]
fn greetings_are_passed_on_whole() {
    let text = b"notice\r\nSSH-2.0-ready\r\n";
    assert_eq!(greet(text), (true, text.to_vec()));
    assert!(greet(b"SSH-1.99-old\n").0);
    assert!(!greet(b"SSH-1.5-old\n").0);
    assert!(!greet(b"SSH-2.0-no end").0);
    let mut long = b"SSH-2.0-".to_vec();
    long.extend(vec![b'x'; 246]);
    long.push(b'\n');
    assert_eq!(long.len(), 255);
    assert!(greet(&long).0);
    long.insert(8, b'x');
    assert!(!greet(&long).0);
    let noise = vec![b'x'; 9000];
    let (ok, read) = greet(&noise);
    assert!(!ok);
    assert_eq!(read.len(), 8192);
}

#[test]
fn requests_are_checked_before_anything_is_done() {
    let good = || ProxyRequest {
        tunnel: "my-tunnel".to_string(),
        remote_port: 22,
        local_port: None,
        timeout: DEFAULT_PROXY_TIMEOUT,
    };
    assert_eq!(DEFAULT_PROXY_TIMEOUT, 300);
    assert_eq!(proxy(&good()), Ok(()));
    let mut r = good();
    r.tunnel = "X".to_string();
    assert!(proxy(&r).unwrap_err().starts_with("invalid Dev Tunnels ID"));
    let mut r = good();
    r.local_port = Some(0);
    assert_eq!(proxy(&r).unwrap_err(), "port must be between 1 and 65535");
    let mut r = good();
    r.timeout = 0;
    assert_eq!(proxy(&r).unwrap_err(), "timeout must be positive");
    let e = Endpoint {
        port: 1,
        token: "t".to_string(),
    };
    let h = hello(&e, &good());
    assert_eq!((h.version, h.token.as_str(), h.remote_port), (VERSION, "t", 22));
    assert_eq!(endpoint_name("a.b"), "a.b.json");
    assert_eq!(lock_name("a.b"), "a.b.lock");
    assert_eq!(
        check_response(Response {
            version: VERSION + 1,
            error: None
        })
        .unwrap_err(),
        "incompatible sshdt tunnel manager; close existing sessions before retrying"
    );
    assert_eq!(check_response(respond(None)), Ok(()));
}

#[test]
fn managers_are_started_at_most_once_a_second() {
    let mut s = Search::new(100);
    assert!(s.acquire(100));
    assert!(!s.acquire(1_099));
    assert!(s.acquire(1_100));
    assert_eq!(broker_lock_held(LockAttempt::Taken), Ok(false));
    assert_eq!(broker_lock_held(LockAttempt::WouldBlock), Ok(true));
    assert!(broker_lock_held(LockAttempt::Failed("x".to_string())).is_err());
}

#[test]
fn one_manager_runs_at_a_time() {
    assert!(matches!(manager_start(LockAttempt::Taken), ManagerStart::Run));
    assert!(matches!(
        manager_start(LockAttempt::WouldBlock),
        ManagerStart::Quit
    ));
    match manager_start(LockAttempt::Failed("no lock".to_string())) {
        ManagerStart::Fail(reason) => assert_eq!(reason, "no lock"),
        other => panic!("{:?}", other),
    }
}

#[test]
fn tokens_are_fresh_and_compared_whole() {
    let a = new_token();
    let b = new_token();
    assert_eq!(a.len(), 64);
    assert!(a.chars().all(|c| c.is_ascii_hexdigit() && !c.is_ascii_uppercase()));
    assert!(!same_token(&a, &b));
    assert!(same_token(&a, &a.clone()));
    assert!(!same_token("é", "e"));
    assert_eq!(token_text(&[0, 15, 255]), "000fff");
}

#[test]
fn messages_are_framed() {
    let m = vec![7u8; 300];
    let f = frame(&m).unwrap();
    assert_eq!(&f[..4], &[0, 0, 1, 44]);
    assert_eq!(&f[4..], &m[..]);
    assert_eq!(frame_length([f[0], f[1], f[2], f[3]]), Ok(300));
    assert_eq!(frame_length([0, 0, 16, 0]), Ok(4096));
    assert!(frame_length([0, 0, 16, 1]).is_err());
    assert!(frame_length([1, 0, 0, 0]).is_err());
    assert!(frame(&vec![0; 4096]).is_ok());
    assert_eq!(
        frame(&vec![0; 4097]).unwrap_err(),
        "broker message too large"
    );
}

#[test]
fn endpoint_reads_reject_links_public_files_and_oversized_data() {
    let mut f = FileFacts {
        is_file: true,
        is_dir: false,
        owned: true,
        mode: 0o644,
        len: 2,
    };
    assert_eq!(
        check_endpoint(&f).unwrap_err(),
        "broker metadata is not private to this user"
    );
    f.mode = private_mode(&f).unwrap();
    assert_eq!(f.mode, 0o600);
    assert_eq!(check_endpoint(&f), Ok(()));
    f.len = 4097;
    assert_eq!(check_endpoint(&f).unwrap_err(), "broker metadata too large");
    let mut dir = f;
    dir.is_file = false;
    dir.is_dir = true;
    assert_eq!(private_mode(&dir), Ok(0o700));
    assert!(check_endpoint(&dir).is_err());
    dir.owned = false;
    assert_eq!(
        private_mode(&dir).unwrap_err(),
        "broker path has a different owner"
    );
    assert!(check_kind(false, false).is_err());
    assert!(check_kind(true, false).is_ok());
    assert!(is_reparse_point(0x410) && !is_reparse_point(0x20));
    assert_eq!(
        broker_descriptor("S-1"),
        "D:P(A;OICI;FA;;;SY)(A;OICI;FA;;;S-1)\0"
    );
    assert_eq!(brokers_directory(PathStyle::Posix, "/s"), "/s/brokers");
}

#[test]
fn changes_while_a_connector_starts_shorten_its_retry() {
    let mut broker = Broker::new(0, true);
    assert!(broker.leases.acquire());
    up(&mut broker, 0);
    assert_eq!(
        broker.connector_event(1_000, WaitEvent::Changed(1_000)),
        ConnectorStep::Rest
    );
    broker.connector_exited(2_000);
    assert_eq!(
        broker.connector_event(2_000, WaitEvent::Tick),
        ConnectorStep::Sleep(3_000)
    );
    assert_eq!(
        broker.connector_event(3_000, WaitEvent::Tick),
        ConnectorStep::Spawn
    );
    assert!(!broker.connector_line("PortForwardingService listening on 127.0.0.1:1.", 3_100));
    assert_eq!(
        broker.connector_event(40_000, WaitEvent::Changed(40_000)),
        ConnectorStep::Rest
    );
    broker.connector_exited(41_000);
    let Connector::Down { retry_at } = broker.connector else {
        panic!("the connector is down");
    };
    assert_eq!(
        broker.connector_event(50_000, WaitEvent::Tick),
        ConnectorStep::Sleep(retry_at)
    );
}

#[test]
fn searches_go_on_until_a_manager_answers() {
    let mut search = Search::new(0);
    assert!(matches!(
        search.step(SearchEvent::Begin, 0),
        SearchAction::TryLock
    ));
    assert!(matches!(
        search.step(SearchEvent::NoLock, 0),
        SearchAction::Spawn
    ));
    assert!(matches!(
        search.step(SearchEvent::Spawned, 1),
        SearchAction::Pause(50)
    ));
    for event in [
        SearchEvent::NoLock,
        SearchEvent::Lock(LockAttempt::Taken),
        SearchEvent::Endpoint { known: false },
        SearchEvent::Connected { made: false },
        SearchEvent::Sent { done: false },
        SearchEvent::Checked(LockAttempt::Taken),
        SearchEvent::Checked(LockAttempt::Failed("e".to_string())),
        SearchEvent::Lost,
    ] {
        assert!(matches!(search.step(event, 999), SearchAction::Pause(50)));
    }
    assert!(matches!(
        search.step(SearchEvent::Lost, 1_000),
        SearchAction::Spawn
    ));
    assert!(matches!(
        search.step(SearchEvent::Lock(LockAttempt::WouldBlock), 1_100),
        SearchAction::ReadEndpoint
    ));
    assert!(matches!(
        search.step(SearchEvent::Endpoint { known: true }, 1_100),
        SearchAction::Connect { within: 300 }
    ));
    assert!(matches!(
        search.step(SearchEvent::Connected { made: true }, 1_100),
        SearchAction::Send
    ));
    assert!(matches!(
        search.step(SearchEvent::Sent { done: true }, 1_100),
        SearchAction::Receive { check: 100 }
    ));
    assert!(matches!(
        search.step(SearchEvent::Checked(LockAttempt::WouldBlock), 1_200),
        SearchAction::Receive { check: 100 }
    ));
    assert!(matches!(
        search.step(SearchEvent::Answered(respond(None)), 1_200),
        SearchAction::Open
    ));
    for (event, reason) in [
        (
            SearchEvent::Answered(respond(Some("busy".to_string()))),
            "busy",
        ),
        (
            SearchEvent::Lock(LockAttempt::Failed("no lock".to_string())),
            "no lock",
        ),
        (SearchEvent::SpawnFailed, "cannot start tunnel manager"),
    ] {
        match search.step(event, 1_200) {
            SearchAction::Fail(message) => assert_eq!(message, reason),
            other => panic!("{:?}", other),
        }
    }
}
