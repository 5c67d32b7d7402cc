use sshdt::paths::PathStyle;
use sshdt::service::{
    configured_log_path, default_log_directory, event_security_descriptor, latest_log,
    launch_at_login_enabled, launch_command, log_to_show, manage, saved_args, start, status_text,
    stop_event, wait_until_stopped, Action, Cleanup, CleanupStep, EventNames, LogFile, ReadyStep,
    ServiceStep, StartStep, Startup, StopRequest, StopStep, StoppedStep,
};
use sshdt::windows_service::{
    checkpoint, install, rollback_install, run_service, set_service_status,
    set_service_working_directory, start_service, start_type_name, state_name, stop_service,
    uninstall, wait_for_deletion, wait_for_state, AwaitStep, Control, ControlReply, ServiceState,
    StartType, StateStep,
};
use sshdt::Config;

fn s(text: &str) -> Option<String> {
    Some(text.to_string())
}

#[test]
fn events_are_global_and_scoped_to_the_user_sid() {
    let sid = "S-1-5-21-42";
    let names = EventNames::for_sid(sid);
    assert_eq!(names.running, r"Global\sshdt-service-S-1-5-21-42-running");
    assert_eq!(names.stop, r"Global\sshdt-service-S-1-5-21-42-stop");
    assert_eq!(names.ready, r"Global\sshdt-service-S-1-5-21-42-ready");
}

#[test]
fn event_acl_allows_only_system_and_the_current_user() {
    assert_eq!(
        event_security_descriptor("S-1-5-21-42"),
        "D:P(A;;GA;;;SY)(A;;GA;;;S-1-5-21-42)"
    );
}

#[test]
fn windows_run_command_uses_only_the_service_bootstrap() {
    assert_eq!(
        launch_command(r"C:\Program Files\sshdt.exe"),
        r#""C:\Program Files\sshdt.exe" --service-run"#
    );
}

#[test]
fn verbatim_paths_are_cleaned() {
    assert_eq!(
        launch_command(r"\\?\C:\x.exe"),
        r#""C:\x.exe" --service-run"#
    );
    assert_eq!(
        launch_command(r"\\?\UNC\m\s\x.exe"),
        r#""\\m\s\x.exe" --service-run"#
    );
}

#[test]
fn actions_have_their_steps() {
    let plan = |a| manage(PathStyle::Windows, a).unwrap();
    assert_eq!(
        plan(Action::Restart),
        [ServiceStep::Stop { report: false }, ServiceStep::Start]
    );
    assert_eq!(
        plan(Action::Uninstall),
        [
            ServiceStep::Stop { report: false },
            ServiceStep::Disable,
            ServiceStep::Forget
        ]
    );
    assert_eq!(plan(Action::Enable), [ServiceStep::Enable]);
    assert_eq!(plan(Action::Stop), [ServiceStep::Stop { report: true }]);
    assert_eq!(
        plan(Action::Logs { follow: true }),
        [ServiceStep::Logs { follow: true }]
    );
    assert_eq!(
        manage(PathStyle::Posix, Action::Status).unwrap_err(),
        "service management is currently supported only on Windows"
    );
}

#[test]
fn saved_options_are_read_back() {
    let stored = Some(vec![
        "--port".to_string(),
        "".to_string(),
        "22".to_string(),
        "--log-file".to_string(),
        "x.log".to_string(),
    ]);
    assert_eq!(
        saved_args(&stored).unwrap(),
        ["--port", "22", "--log-file", "x.log"]
    );
    assert_eq!(configured_log_path(&stored), s("x.log"));
    assert_eq!(
        configured_log_path(&Some(vec!["--log-file".to_string()])),
        None
    );
    assert_eq!(configured_log_path(&None), None);
    assert_eq!(
        saved_args(&None).unwrap_err(),
        "sshdt service options are not configured"
    );
}

#[test]
fn launch_at_login_needs_an_entry_and_approval() {
    assert!(launch_at_login_enabled(true, &None));
    assert!(launch_at_login_enabled(true, &Some(vec![2, 0])));
    assert!(!launch_at_login_enabled(true, &Some(vec![3])));
    assert!(!launch_at_login_enabled(true, &Some(vec![])));
    assert!(!launch_at_login_enabled(false, &None));
    assert_eq!(
        status_text(true, false),
        "sshdt launch at login is enabled; process is stopped"
    );
    assert_eq!(
        default_log_directory(PathStyle::Windows, s(r"C:\Users\me")).unwrap(),
        r"C:\Users\me\.sshdt\logs"
    );
    assert!(default_log_directory(PathStyle::Windows, None).is_err());
}

#[test]
fn starting_and_stopping_are_watched() {
    assert!(matches!(start(false, false), StartStep::Fail(_)));
    assert!(matches!(start(true, true), StartStep::AlreadyRunning));
    assert!(matches!(start(true, false), StartStep::Spawn));
    let mut w = Startup::new();
    assert_eq!(
        w.wait_for_ready(false, false, false, false),
        ReadyStep::Wait
    );
    assert_eq!(w.wait_for_ready(false, true, false, false), ReadyStep::Wait);
    assert_eq!(
        w.wait_for_ready(false, false, false, false),
        ReadyStep::Stopped
    );
    let mut w = Startup::new();
    assert_eq!(
        w.wait_for_ready(false, false, true, false),
        ReadyStep::Exited
    );
    assert_eq!(
        w.wait_for_ready(false, true, false, true),
        ReadyStep::TimedOut
    );
    assert_eq!(w.wait_for_ready(true, true, false, true), ReadyStep::Ready);
    assert!(matches!(stop_event(true, true, false), StopStep::Signal));
    assert!(matches!(
        stop_event(false, false, false),
        StopStep::NotRunning
    ));
    assert!(matches!(stop_event(false, true, false), StopStep::Wait));
    assert!(matches!(stop_event(false, true, true), StopStep::Fail(_)));
    assert!(matches!(
        wait_until_stopped(false, true),
        StoppedStep::Stopped
    ));
    assert!(matches!(wait_until_stopped(true, true), StoppedStep::Fail(_)));
    assert!(matches!(wait_until_stopped(true, false), StoppedStep::Wait));
    let mut c = Cleanup { asked: false };
    assert_eq!(
        c.cleanup_failed_start(false, StopRequest::NotYet, false),
        CleanupStep::Wait
    );
    assert_eq!(
        c.cleanup_failed_start(false, StopRequest::Sent, false),
        CleanupStep::Wait
    );
    assert_eq!(
        c.cleanup_failed_start(false, StopRequest::Failed, true),
        CleanupStep::Kill
    );
    assert_eq!(
        c.cleanup_failed_start(true, StopRequest::Failed, true),
        CleanupStep::Gone
    );
}

#[test]
fn the_newest_log_is_shown() {
    let file = |name: &str, modified| LogFile {
        name: name.to_string(),
        modified,
    };
    assert_eq!(
        latest_log(&vec![
            file("sshdt.1.log", 5),
            file("other.log", 99),
            file("sshdt.2.log", 7),
            file("sshdt.3.log", 7),
        ]),
        Some(2)
    );
    assert_eq!(latest_log(&vec![file("x", 1)]), None);
    assert_eq!(log_to_show(&s("a"), true, s("b")), s("a"));
    assert_eq!(log_to_show(&s("a"), false, s("b")), None);
    assert_eq!(log_to_show(&None, false, s("b")), s("b"));
}

#[test]
fn control_manager_states_lead_to_steps() {
    assert_eq!(
        start_service(ServiceState::Stopped).unwrap(),
        [StateStep::Start, StateStep::Await(ServiceState::Running)]
    );
    assert!(start_service(ServiceState::Running).unwrap().is_empty());
    assert_eq!(
        start_service(ServiceState::Paused).unwrap_err(),
        "cannot start the service while it is paused"
    );
    assert_eq!(
        stop_service(ServiceState::StartPending),
        [
            StateStep::Await(ServiceState::Running),
            StateStep::Stop,
            StateStep::Await(ServiceState::Stopped)
        ]
    );
    assert!(stop_service(ServiceState::Stopped).is_empty());
    assert!(matches!(
        wait_for_state(ServiceState::Running, ServiceState::Running, 99_999),
        AwaitStep::Reached
    ));
    assert!(matches!(
        wait_for_state(ServiceState::Running, ServiceState::Stopped, 0),
        AwaitStep::Fail(_)
    ));
    assert!(matches!(
        wait_for_state(ServiceState::Stopped, ServiceState::StopPending, 30_000),
        AwaitStep::Fail(m) if m == "timed out waiting for the service to become stopped (currently stopping)"
    ));
    assert!(matches!(
        wait_for_state(ServiceState::Stopped, ServiceState::StopPending, 0),
        AwaitStep::Wait
    ));
    assert_eq!(run_service(Control::Shutdown), ControlReply::Stop);
    assert_eq!(run_service(Control::Other), ControlReply::NotImplemented);
    assert_eq!(checkpoint(ServiceState::StopPending), 1);
    assert_eq!(checkpoint(ServiceState::Running), 0);
    assert_eq!(state_name(ServiceState::ContinuePending), "continuing");
}

#[test]
fn anonymous_services_are_not_installed() {
    assert!(install(&Config::default()).is_err());
    let mut c = Config::default();
    c.password = s("p");
    assert_eq!(install(&c), Ok(()));
    assert_eq!(
        set_service_working_directory(
            PathStyle::Windows,
            Some("conf"),
            r"C:\work",
            r"C:\bin\sshdt.exe"
        )
        .unwrap(),
        r"C:\work"
    );
    assert_eq!(
        set_service_working_directory(PathStyle::Windows, None, r"C:\work", r"C:\bin\sshdt.exe")
            .unwrap(),
        r"C:\bin"
    );
}

#[test]
fn services_are_removed_once_they_are_stopped() {
    assert_eq!(
        uninstall(ServiceState::StartPending),
        [
            StateStep::Await(ServiceState::Running),
            StateStep::Stop,
            StateStep::Await(ServiceState::Stopped),
        ]
    );
    assert!(uninstall(ServiceState::Stopped).is_empty());
    assert!(matches!(wait_for_deletion(true, 60_000), AwaitStep::Reached));
    assert!(matches!(wait_for_deletion(false, 29_999), AwaitStep::Wait));
    assert!(matches!(wait_for_deletion(false, 30_000), AwaitStep::Fail(_)));
    assert_eq!(
        rollback_install("a", None),
        "service installation failed and was rolled back"
    );
    assert_eq!(
        rollback_install("a", Some("b")),
        "service installation failed: a; rollback also failed: b"
    );
    assert_eq!(start_type_name(StartType::OnDemand), "manual");
}

#[test]
fn services_report_their_state() {
    let starting = set_service_status(ServiceState::StartPending, false);
    assert_eq!((starting.checkpoint, starting.wait_hint), (1, 30));
    assert!(!starting.accepts_stop);
    let running = set_service_status(ServiceState::Running, false);
    assert_eq!((running.checkpoint, running.wait_hint), (0, 0));
    assert!(running.accepts_stop);
    assert_eq!(set_service_status(ServiceState::Stopped, true).exit_code, 1);
    assert_eq!(set_service_status(ServiceState::Stopped, false).exit_code, 0);
}
