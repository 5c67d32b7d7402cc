use sshdt::forward::{authorize_with, forward_allowed};
use sshdt::handler::{env_allowed, ConnectionHandler};
use sshdt::server::{handle_connection, AfterGrace};
use sshdt::{ForwardDecision, ForwardRequest, Forwarder, SessionRequest};

#[test]
fn accept_env_matches_exact_and_prefix() {
    let allow = vec!["TERM".to_string(), "LANG".to_string(), "LC_*".to_string()];
    assert!(env_allowed("TERM", &allow));
    assert!(env_allowed("LANG", &allow));
    assert!(env_allowed("LC_ALL", &allow));
    assert!(env_allowed("LC_CTYPE", &allow));
    assert!(!env_allowed("PATH", &allow));
    assert!(!env_allowed("LD_PRELOAD", &allow));
}

#[test]
fn everything_is_allowed_by_a_lone_star() {
    assert!(env_allowed("ANY", &vec!["*".to_string()]));
    assert!(!env_allowed("ANY", &vec![]));
    assert!(!env_allowed("TERMINAL", &vec!["TERM".to_string()]));
    assert_eq!(sshdt::default_accept_env(), ["TERM", "LANG", "LC_*"]);
}

#[test]
fn a_channel_carries_one_session() {
    let allow = sshdt::default_accept_env();
    let mut h = ConnectionHandler::new(true);
    assert!(h.start_session(1, None).is_none());
    h.channel_open_session(1);
    h.channel_open_session(2);
    h.pty_request(1, "xterm", 80, 65536 + 24, 0, 0);
    assert!(h.env_request(1, "LANG", "de", &allow));
    assert!(!h.env_request(1, "PATH", "/", &allow));
    assert_eq!(h.window_change_request(1, 100, 40), None);
    let started = h.start_session(1, None).unwrap();
    assert_eq!(started.env, [("LANG".to_string(), "de".to_string())]);
    let pty = started.request.pty().unwrap();
    assert_eq!((pty.cols, pty.rows), (80, 24));
    assert_eq!(pty.term, "xterm");
    assert_eq!(h.window_change_request(1, 100, 40), Some((100, 40)));
    assert!(h.start_session(1, None).is_none());
    assert!(!h.subsystem_request(1, "sftp"));

    let exec = h.exec_request(2, b"echo \xff hi").unwrap();
    match exec.request {
        SessionRequest::Exec { command, pty } => {
            assert_eq!(command, "echo \u{fffd} hi");
            assert!(pty.is_none());
        }
        _ => panic!("not a command"),
    }
    assert!(!h.channel_eof(2));
    h.channel_close(2);
    assert_eq!(h.window_change_request(2, 1, 1), None);
}

#[test]
fn a_channel_can_carry_file_transfers() {
    let mut h = ConnectionHandler::new(false);
    h.channel_open_session(7);
    assert!(!h.subsystem_request(7, "other"));
    assert!(!h.channel_eof(7));
    assert!(h.subsystem_request(7, "sftp"));
    assert!(h.channel_eof(7));
    assert!(h.start_session(7, None).is_none());
    assert!(!h.subsystem_request(8, "sftp"));
}

#[test]
fn authentication_frees_the_slot() {
    let mut h = ConnectionHandler::new(true);
    assert!(h.holds_slot && !h.authed);
    assert_eq!(handle_connection(h.authed), AfterGrace::Close);
    h.mark_authenticated();
    assert!(!h.holds_slot && h.authed);
    assert_eq!(handle_connection(h.authed), AfterGrace::Continue);
}

struct Loopback;

impl Forwarder for Loopback {
    fn authorize(&self, request: &ForwardRequest) -> ForwardDecision {
        if request.host == "127.0.0.1" {
            ForwardDecision::Allow
        } else {
            ForwardDecision::Deny
        }
    }
}

#[test]
fn direct_tcpip_denied_when_forwarding_disabled() {
    let near = ForwardRequest::new("127.0.0.1", 9, "127.0.0.1", 0);
    let far = ForwardRequest::new("example.org", 65536 + 80, "127.0.0.1", 5);
    assert_eq!(near.target(), "127.0.0.1:9");
    assert_eq!(far.target(), "example.org:80");
    assert!(!forward_allowed(false, None));
    assert!(forward_allowed(true, None));
    assert!(!forward_allowed(true, Some(ForwardDecision::Deny)));
    assert!(authorize_with(true, &Loopback, &near));
    assert!(!authorize_with(true, &Loopback, &far));
    assert!(!authorize_with(false, &Loopback, &near));
}
