use sshdt::handler::ConnectionHandler;
use sshdt::paths::PathStyle;
use sshdt::session::{
    default_shell, exec_flag, exit_code_of, handler_code, run_failure, run_session,
    session_env_overrides, terminal_size, DefaultResolver, ExitStatus, ProcessEnv, PtyAction,
    PtyEvent, PtySession, Runner, Shells,
};
use sshdt::{CommandResolver, SessionCommand, SessionRequest};

fn posix(shell: Option<&str>) -> Shells {
    Shells::Posix {
        shell: shell.map(|s| s.to_string()),
    }
}

fn exec(command: &str) -> SessionRequest {
    SessionRequest::Exec {
        command: command.to_string(),
        pty: None,
    }
}

fn pair(name: &str, value: &str) -> (String, String) {
    (name.to_string(), value.to_string())
}

#[test]
fn shells_are_found_as_documented() {
    assert_eq!(default_shell(&posix(Some("/bin/zsh"))), ["/bin/zsh"]);
    assert_eq!(default_shell(&posix(Some(""))), ["/bin/sh"]);
    assert_eq!(default_shell(&posix(None)), ["/bin/sh"]);
    let windows = |pwsh, powershell| default_shell(&Shells::Windows { pwsh, powershell });
    assert_eq!(windows(true, true), ["pwsh.exe"]);
    assert_eq!(windows(false, true), ["powershell.exe"]);
    assert_eq!(windows(false, false), ["cmd.exe"]);
}

#[test]
fn commands_run_in_the_shell() {
    let r = DefaultResolver::new(Some("rmux new-session -A"), &posix(None));
    let shell = r.resolve(&SessionRequest::Shell { pty: None });
    assert_eq!(shell.program, "rmux");
    assert_eq!(shell.args, ["new-session", "-A"]);
    let command = r.resolve(&exec("echo hi"));
    assert_eq!(command.program, "rmux");
    assert_eq!(command.args, ["-c", "echo hi"]);
    assert!(command.env.is_empty());
    let blank = DefaultResolver::new(Some("  "), &posix(Some("/bin/fish")));
    assert_eq!(blank.shell_program(), "/bin/fish");
    let empty = DefaultResolver {
        shell: vec![],
        style: PathStyle::Posix,
    };
    assert_eq!(
        empty.resolve(&SessionRequest::Shell { pty: None }).program,
        "/bin/sh"
    );
    let bare = SessionCommand::new("top");
    assert_eq!(bare.program, "top");
    assert!(bare.args.is_empty() && bare.env.is_empty());
}

#[test]
fn cmd_takes_another_flag() {
    assert_eq!(exec_flag(PathStyle::Posix, "cmd"), "/C");
    assert_eq!(exec_flag(PathStyle::Posix, "/x/CMD.EXE"), "/C");
    assert_eq!(exec_flag(PathStyle::Posix, "/bin/bash"), "-c");
    assert_eq!(
        exec_flag(PathStyle::Windows, r"C:\Windows\System32\cmd.exe"),
        "/C"
    );
    assert_eq!(exec_flag(PathStyle::Windows, "C:cmd.exe"), "/C");
    assert_eq!(exec_flag(PathStyle::Windows, "pwsh.exe"), "-c");
    assert_eq!(
        exec_flag(PathStyle::Posix, r"C:\Windows\System32\cmd.exe"),
        "-c"
    );
    assert_eq!(exec_flag(PathStyle::Posix, "/"), "-c");
}

#[test]
fn session_variables_are_layered() {
    let mut h = ConnectionHandler::new(false);
    h.channel_open_session(0);
    h.pty_request(0, "xterm-256color", 80, 24, 0, 0);
    let started = h.start_session(0, None).unwrap();
    let env = ProcessEnv {
        has_home: false,
        home: Some("/home/me".to_string()),
        has_user: false,
        has_logname: true,
        user: Some("me".to_string()),
    };
    assert_eq!(
        session_env_overrides(
            "/bin/sh",
            started.request.pty(),
            &vec![pair("TERM", "dumb"), pair("A", "1")],
            &vec![pair("A", "2")],
            &env
        ),
        [
            pair("SHELL", "/bin/sh"),
            pair("HOME", "/home/me"),
            pair("USER", "me"),
            pair("TERM", "xterm-256color"),
            pair("TERM", "dumb"),
            pair("A", "1"),
            pair("A", "2"),
        ]
    );
    let full = ProcessEnv {
        has_home: true,
        home: Some("/h".to_string()),
        has_user: true,
        has_logname: false,
        user: None,
    };
    assert_eq!(
        session_env_overrides("sh", None, &vec![], &vec![], &full),
        [pair("SHELL", "sh")]
    );
}

#[test]
fn ends_are_reported_as_exit_codes() {
    let status = |code, signal| Some(ExitStatus { code, signal });
    assert_eq!(exit_code_of(status(Some(0), None)), 0);
    assert_eq!(exit_code_of(status(Some(7), None)), 7);
    assert_eq!(exit_code_of(status(Some(-1), None)), u32::MAX);
    assert_eq!(exit_code_of(status(None, Some(9))), 137);
    assert_eq!(exit_code_of(status(None, None)), 1);
    assert_eq!(exit_code_of(None), 1);
    assert_eq!(handler_code(-5), 0);
    assert_eq!(handler_code(3), 3);
    assert_eq!(
        run_failure("missing", "not found"),
        "sshdt: failed to run missing: not found\n"
    );
    assert_eq!(terminal_size(0, 0), (1, 1));
    assert_eq!(terminal_size(120, 40), (120, 40));
}

#[test]
fn runners_depend_on_the_terminal() {
    assert_eq!(run_session(&exec("x"), false), Runner::Pipe);
    assert_eq!(run_session(&exec("x"), true), Runner::Custom);
    let mut h = ConnectionHandler::new(false);
    h.channel_open_session(0);
    h.pty_request(0, "xterm", 80, 24, 0, 0);
    let started = h.start_session(0, Some("x".to_string())).unwrap();
    assert_eq!(run_session(&started.request, false), Runner::Pty);
}

#[test]
fn terminals_outlive_their_input() {
    let mut s = PtySession::new();
    assert_eq!(s.step(PtyEvent::Input), PtyAction::Write);
    assert_eq!(s.step(PtyEvent::InputEnd), PtyAction::Continue);
    assert_eq!(s.step(PtyEvent::Input), PtyAction::Continue);
    assert_eq!(s.step(PtyEvent::Output { sent: true }), PtyAction::Continue);
    assert_eq!(
        s.step(PtyEvent::Resize { cols: 0, rows: 9 }),
        PtyAction::Resize { cols: 1, rows: 9 }
    );
    assert_eq!(s.step(PtyEvent::Polled { ended: false }), PtyAction::Continue);
    assert_eq!(s.step(PtyEvent::Polled { ended: true }), PtyAction::Ended);
    assert_eq!(s.step(PtyEvent::Output { sent: false }), PtyAction::HangUp);
    assert_eq!(s.step(PtyEvent::OutputEnd), PtyAction::Wait);
}
