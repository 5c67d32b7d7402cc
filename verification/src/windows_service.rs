//! A service of the Windows Service Control Manager: its options, its states, and when it
//! may be installed.

use crate::cli::{
    cwd_text, each_option, option, placed_all, placed_option, push_access_options,
    push_each_path, push_option, push_path_option, push_session_options, push_switch,
    saved_access_options, saved_session_options, switch, Args,
};
use crate::config::{explicit_auth, Config};
use crate::number::{decimal, digits};
use crate::paths::{absolute, find_parent, join_path, parent, placed, PathStyle};
use crate::text::{push_text, str_text, texts};
use vstd::prelude::*;

verus! {

/// How long a change of the state may take, in milliseconds.
pub const STATE_TIMEOUT: u64 = 30_000;

/// The options about files and logs that a service is started with.
pub open spec fn service_file_options(style: PathStyle, a: Args, cwd: Seq<char>) -> Seq<Seq<char>> {
    Seq::empty() + option(
        "--port"@,
        match a.port {
            Some(n) => Some(digits(n as nat)),
            None => None,
        },
    ) + each_option("--host-key"@, placed_all(style, cwd, texts(a.host_key@))) + option(
        "--config"@,
        placed_option(style, cwd, a.config),
    ) + option("--log-file"@, placed_option(style, cwd, a.log_file)) + switch("--debug"@, a.debug)
        + switch("--verbose"@, a.verbose) + switch("--quiet"@, a.quiet)
}

/// The options that a service is started with.
pub open spec fn service_options(style: PathStyle, a: Args, cwd: Seq<char>) -> Seq<Seq<char>> {
    let files = service_file_options(style, a, cwd);
    let access = saved_access_options(style, files, a, cwd);
    saved_session_options(style, access, a, cwd).push("--windows-service"@)
}

/// Whether every path among the options of a service is absolute.
pub open spec fn service_paths_absolute(style: PathStyle, a: Args) -> bool {
    &&& forall|i: int| 0 <= i < a.host_key@.len() ==> absolute(style, (#[trigger] a.host_key@[i])@)
    &&& a.config is Some ==> absolute(style, a.config->0@)
    &&& a.log_file is Some ==> absolute(style, a.log_file->0@)
    &&& forall|i: int|
        0 <= i < a.authorized_keys@.len() ==> absolute(style, (#[trigger] a.authorized_keys@[i])@)
    &&& a.sftp_root is Some ==> absolute(style, a.sftp_root->0@)
}

fn push_service_files(style: PathStyle, v: &mut Vec<String>, a: &Args, cwd: &Option<String>) -> (r:
    bool)
    requires
        texts(old(v)@) == Seq::<Seq<char>>::empty(),
    ensures
        r == (*cwd is Some || ((forall|i: int|
            0 <= i < a.host_key@.len() ==> absolute(style, (#[trigger] a.host_key@[i])@)) && (
        a.config is Some ==> absolute(style, a.config->0@)) && (a.log_file is Some ==> absolute(
            style,
            a.log_file->0@,
        )))),
        r ==> texts(final(v)@) == service_file_options(style, *a, cwd_text(*cwd)),
{
    let port = match a.port {
        Some(n) => Some(decimal(n as u64)),
        None => None,
    };
    push_option(v, "--port", port);
    if !push_each_path(style, v, "--host-key", &a.host_key, cwd) {
        return false;
    }
    if !push_path_option(style, v, "--config", &a.config, cwd) {
        return false;
    }
    if !push_path_option(style, v, "--log-file", &a.log_file, cwd) {
        return false;
    }
    push_switch(v, "--debug", a.debug);
    push_switch(v, "--verbose", a.verbose);
    push_switch(v, "--quiet", a.quiet);
    true
}

/// The options that a service is started with. Every path is as seen from `cwd`, the
/// current directory.
pub fn service_launch_arguments(style: PathStyle, a: &Args, cwd: Option<String>) -> (r: Result<
    Vec<String>,
    String,
>)
    ensures
        r is Ok <==> cwd is Some || service_paths_absolute(style, *a),
        r matches Ok(v) ==> texts(v@) == service_options(style, *a, cwd_text(cwd)),
        r matches Err(m) ==> m@ == "could not determine the current directory"@,
{
    let mut v: Vec<String> = Vec::new();
    assert(texts(v@) =~= Seq::<Seq<char>>::empty());
    if push_service_files(style, &mut v, a, &cwd) && push_access_options(style, &mut v, a, &cwd)
        && push_session_options(style, &mut v, a, &cwd) {
        push_text(&mut v, "--windows-service");
        Ok(v)
    } else {
        Err("could not determine the current directory".to_owned())
    }
}

/// Whether a service may be installed with these settings: a service that lets anyone in
/// may not.
pub fn install(config: &Config) -> (r: Result<(), String>)
    ensures
        r is Ok <==> explicit_auth(config@),
        r matches Err(m) ==> m@
            == "refusing to install an anonymous Windows service; configure --password, --authorized-keys, or --pubkey first"@,
{
    if config.has_explicit_auth() {
        Ok(())
    } else {
        Err(
            "refusing to install an anonymous Windows service; configure --password, --authorized-keys, or --pubkey first".to_owned(),
        )
    }
}

/// The state of a service.
#[derive(Clone, Copy, Debug, PartialEq, Eq, Structural)]
pub enum ServiceState {
    Stopped,
    StartPending,
    StopPending,
    Running,
    ContinuePending,
    PausePending,
    Paused,
}

/// The name of a state.
pub open spec fn state_text(s: ServiceState) -> Seq<char> {
    match s {
        ServiceState::Stopped => "stopped"@,
        ServiceState::StartPending => "starting"@,
        ServiceState::StopPending => "stopping"@,
        ServiceState::Running => "running"@,
        ServiceState::ContinuePending => "continuing"@,
        ServiceState::PausePending => "pausing"@,
        ServiceState::Paused => "paused"@,
    }
}

/// The name of a state.
pub fn state_name(s: ServiceState) -> (r: &'static str)
    ensures
        r@ == state_text(s),
{
    match s {
        ServiceState::Stopped => "stopped",
        ServiceState::StartPending => "starting",
        ServiceState::StopPending => "stopping",
        ServiceState::Running => "running",
        ServiceState::ContinuePending => "continuing",
        ServiceState::PausePending => "pausing",
        ServiceState::Paused => "paused",
    }
}

/// One step towards another state.
#[derive(Clone, Copy, Debug, PartialEq, Eq, Structural)]
pub enum StateStep {
    /// Start the service.
    Start,
    /// Stop the service.
    Stop,
    /// Wait until it is in this state.
    Await(ServiceState),
}

/// The steps that start a service, or why it cannot be started.
pub open spec fn start_steps(s: ServiceState) -> Result<Seq<StateStep>, Seq<char>> {
    match s {
        ServiceState::Running => Ok(Seq::empty()),
        ServiceState::StartPending => Ok(seq![StateStep::Await(ServiceState::Running)]),
        ServiceState::StopPending => Ok(
            seq![
                StateStep::Await(ServiceState::Stopped),
                StateStep::Start,
                StateStep::Await(ServiceState::Running),
            ],
        ),
        ServiceState::Stopped => Ok(
            seq![StateStep::Start, StateStep::Await(ServiceState::Running)],
        ),
        _ => Err("cannot start the service while it is "@ + state_text(s)),
    }
}

/// The steps that start a service. There are none where it runs.
pub fn start_service(s: ServiceState) -> (r: Result<Vec<StateStep>, String>)
    ensures
        r is Ok <==> start_steps(s) is Ok,
        r matches Ok(v) ==> start_steps(s) == Ok::<Seq<StateStep>, Seq<char>>(v@),
        r matches Err(m) ==> start_steps(s) == Err::<Seq<StateStep>, Seq<char>>(m@),
{
    let mut v: Vec<StateStep> = Vec::new();
    match s {
        ServiceState::Running => {},
        ServiceState::StartPending => v.push(StateStep::Await(ServiceState::Running)),
        ServiceState::StopPending => {
            v.push(StateStep::Await(ServiceState::Stopped));
            v.push(StateStep::Start);
            v.push(StateStep::Await(ServiceState::Running));
        },
        ServiceState::Stopped => {
            v.push(StateStep::Start);
            v.push(StateStep::Await(ServiceState::Running));
        },
        _ => {
            let mut m = "cannot start the service while it is ".to_owned();
            m.append(state_name(s));
            return Err(m);
        },
    }
    assert(v@ =~= start_steps(s)->Ok_0);
    Ok(v)
}

/// The steps that stop a service.
pub open spec fn stop_steps(s: ServiceState) -> Seq<StateStep> {
    match s {
        ServiceState::Stopped => Seq::empty(),
        ServiceState::StopPending => seq![StateStep::Await(ServiceState::Stopped)],
        ServiceState::StartPending => seq![
            StateStep::Await(ServiceState::Running),
            StateStep::Stop,
            StateStep::Await(ServiceState::Stopped),
        ],
        _ => seq![StateStep::Stop, StateStep::Await(ServiceState::Stopped)],
    }
}

/// The steps that stop a service. There are none where it is stopped.
pub fn stop_service(s: ServiceState) -> (r: Vec<StateStep>)
    ensures
        r@ == stop_steps(s),
{
    let mut v: Vec<StateStep> = Vec::new();
    match s {
        ServiceState::Stopped => {},
        ServiceState::StopPending => v.push(StateStep::Await(ServiceState::Stopped)),
        ServiceState::StartPending => {
            v.push(StateStep::Await(ServiceState::Running));
            v.push(StateStep::Stop);
            v.push(StateStep::Await(ServiceState::Stopped));
        },
        _ => {
            v.push(StateStep::Stop);
            v.push(StateStep::Await(ServiceState::Stopped));
        },
    }
    assert(v@ =~= stop_steps(s));
    v
}

/// The steps that come before the removal of a service: it has to be stopped.
pub fn uninstall(s: ServiceState) -> (r: Vec<StateStep>)
    ensures
        r@ == stop_steps(s),
{
    stop_service(s)
}

/// Starting a service ends with waiting until it runs, unless it runs already, and stopping
/// it ends with waiting until it is stopped, unless it is stopped already. A service is asked
/// to start or to stop at most once.
pub proof fn steps_end_in_the_state(s: ServiceState)
    ensures
        start_steps(s) matches Ok(v) ==> (if s == ServiceState::Running {
            v.len() == 0
        } else {
            v.len() > 0 && v.last() == StateStep::Await(ServiceState::Running)
        }),
        start_steps(s) matches Ok(v) ==> forall|i: int, j: int|
            0 <= i < v.len() && 0 <= j < v.len() && v[i] == StateStep::Start && v[j]
                == StateStep::Start ==> i == j,
        if s == ServiceState::Stopped {
            stop_steps(s).len() == 0
        } else {
            stop_steps(s).len() > 0 && stop_steps(s).last() == StateStep::Await(
                ServiceState::Stopped,
            )
        },
        forall|i: int, j: int|
            0 <= i < stop_steps(s).len() && 0 <= j < stop_steps(s).len() && stop_steps(s)[i]
                == StateStep::Stop && stop_steps(s)[j] == StateStep::Stop ==> i == j,
{
}

/// What comes of waiting for a state.
#[derive(Debug)]
pub enum AwaitStep {
    /// The service is in the state.
    Reached,
    /// It will not be.
    Fail(String),
    /// Look again.
    Wait,
}

/// Why waiting for a state is over without it.
pub open spec fn await_fault(expected: ServiceState, s: ServiceState, elapsed: u64) -> Option<
    Seq<char>,
> {
    if s == expected {
        None
    } else if expected == ServiceState::Running && s == ServiceState::Stopped {
        Some("the service stopped before reaching the running state"@)
    } else if elapsed >= STATE_TIMEOUT {
        Some(
            "timed out waiting for the service to become "@ + state_text(expected)
                + " (currently "@ + state_text(s) + ")"@,
        )
    } else {
        None
    }
}

/// What comes of waiting for a state for `elapsed` milliseconds.
pub fn wait_for_state(expected: ServiceState, s: ServiceState, elapsed: u64) -> (r: AwaitStep)
    ensures
        r is Reached <==> s == expected,
        r is Fail <==> await_fault(expected, s, elapsed) is Some,
        r matches AwaitStep::Fail(m) ==> await_fault(expected, s, elapsed) == Some(m@),
{
    if s == expected {
        return AwaitStep::Reached;
    }
    if expected == ServiceState::Running && s == ServiceState::Stopped {
        return AwaitStep::Fail("the service stopped before reaching the running state".to_owned());
    }
    if elapsed >= STATE_TIMEOUT {
        let mut m = "timed out waiting for the service to become ".to_owned();
        m.append(state_name(expected));
        m.append(" (currently ");
        m.append(state_name(s));
        m.append(")");
        return AwaitStep::Fail(m);
    }
    AwaitStep::Wait
}

/// What comes of waiting for `elapsed` milliseconds until a removed service is gone.
pub fn wait_for_deletion(gone: bool, elapsed: u64) -> (r: AwaitStep)
    ensures
        r is Reached <==> gone,
        r is Fail <==> !gone && elapsed >= STATE_TIMEOUT,
        r matches AwaitStep::Fail(m) ==> m@
            == "the service is marked for deletion but is still in use"@,
{
    if gone {
        AwaitStep::Reached
    } else if elapsed >= STATE_TIMEOUT {
        AwaitStep::Fail("the service is marked for deletion but is still in use".to_owned())
    } else {
        AwaitStep::Wait
    }
}

/// What a user is told of an installation that failed with `error` half way, where the
/// service was removed again or could not be.
pub fn rollback_install(error: &str, removal_error: Option<&str>) -> (r: String)
    ensures
        r@ == (match removal_error {
            None => "service installation failed and was rolled back"@,
            Some(e) => "service installation failed: "@ + error@ + "; rollback also failed: "@
                + e@,
        }),
{
    match removal_error {
        None => "service installation failed and was rolled back".to_owned(),
        Some(e) => {
            let mut r = "service installation failed: ".to_owned();
            r.append(error);
            r.append("; rollback also failed: ");
            r.append(e);
            r
        },
    }
}

/// When a service is started.
#[derive(Clone, Copy, Debug, PartialEq, Eq, Structural)]
pub enum StartType {
    AutoStart,
    OnDemand,
    Disabled,
    SystemStart,
    BootStart,
}

/// The name for when a service is started.
pub fn start_type_name(t: StartType) -> (r: &'static str)
    ensures
        r@ == (match t {
            StartType::AutoStart => "automatic"@,
            StartType::OnDemand => "manual"@,
            StartType::Disabled => "disabled"@,
            StartType::SystemStart => "system"@,
            StartType::BootStart => "boot"@,
        }),
{
    match t {
        StartType::AutoStart => "automatic",
        StartType::OnDemand => "manual",
        StartType::Disabled => "disabled",
        StartType::SystemStart => "system",
        StartType::BootStart => "boot",
    }
}

/// What a service answers to the control manager.
#[derive(Clone, Copy, Debug, PartialEq, Eq, Structural)]
pub enum ControlReply {
    /// It is understood.
    NoError,
    /// It is understood, and the service stops.
    Stop,
    /// It is not understood.
    NotImplemented,
}

/// What the control manager asks of a service.
#[derive(Clone, Copy, Debug, PartialEq, Eq, Structural)]
pub enum Control {
    Interrogate,
    Stop,
    Shutdown,
    Other,
}

/// What a service answers to the control manager.
pub fn run_service(control: Control) -> (r: ControlReply)
    ensures
        r == (match control {
            Control::Interrogate => ControlReply::NoError,
            Control::Stop => ControlReply::Stop,
            Control::Shutdown => ControlReply::Stop,
            Control::Other => ControlReply::NotImplemented,
        }),
{
    match control {
        Control::Interrogate => ControlReply::NoError,
        Control::Stop => ControlReply::Stop,
        Control::Shutdown => ControlReply::Stop,
        Control::Other => ControlReply::NotImplemented,
    }
}

/// What the control manager is told of a service that is still on its way to a state.
pub fn checkpoint(s: ServiceState) -> (r: u32)
    ensures
        r == (if s == ServiceState::StartPending || s == ServiceState::StopPending {
            1u32
        } else {
            0u32
        }),
{
    if s == ServiceState::StartPending || s == ServiceState::StopPending {
        1
    } else {
        0
    }
}

/// What a service tells the control manager.
#[derive(Clone, Copy, Debug, PartialEq, Eq, Structural)]
pub struct StatusReport {
    pub state: ServiceState,
    /// Whether it can be asked to stop.
    pub accepts_stop: bool,
    /// The exit code of its own, 0 where nothing went wrong.
    pub exit_code: u32,
    pub checkpoint: u32,
    /// How long the next change may take, in seconds.
    pub wait_hint: u64,
}

/// What a service tells the control manager in a state. `failed` says whether something
/// went wrong, which counts once it has stopped.
pub fn set_service_status(s: ServiceState, failed: bool) -> (r: StatusReport)
    ensures
        r.state == s,
        r.accepts_stop == (s == ServiceState::Running),
        r.exit_code == (if s == ServiceState::Stopped && failed {
            1u32
        } else {
            0u32
        }),
        s == ServiceState::StartPending || s == ServiceState::StopPending ==> r.checkpoint == 1
            && r.wait_hint == 30,
        !(s == ServiceState::StartPending || s == ServiceState::StopPending) ==> r.checkpoint == 0
            && r.wait_hint == 0,
{
    let pending = s == ServiceState::StartPending || s == ServiceState::StopPending;
    StatusReport {
        state: s,
        accepts_stop: s == ServiceState::Running,
        exit_code: if s == ServiceState::Stopped && failed {
            1
        } else {
            0
        },
        checkpoint: checkpoint(s),
        wait_hint: if pending {
            30
        } else {
            0
        },
    }
}

/// The directory that a service runs in: that of its configuration file, or else that of
/// its program.
pub open spec fn working_directory(
    style: PathStyle,
    config: Option<Seq<char>>,
    cwd: Seq<char>,
    program: Seq<char>,
) -> Result<Seq<char>, Seq<char>> {
    match config {
        Some(path) => match parent(style, placed(style, cwd, path)) {
            Some(d) => Ok(d),
            None => Err("invalid config path "@ + path),
        },
        None => match parent(style, program) {
            Some(d) => Ok(d),
            None => Err("sshdt.exe has no parent directory"@),
        },
    }
}

/// The directory that a service runs in.
pub fn set_service_working_directory(
    style: PathStyle,
    config: Option<&str>,
    cwd: &str,
    program: &str,
) -> (r: Result<String, String>)
    ensures
        r is Ok <==> working_directory(
            style,
            str_text(config),
            cwd@,
            program@,
        ) is Ok,
        r matches Ok(d) ==> working_directory(
            style,
            str_text(config),
            cwd@,
            program@,
        ) == Ok::<Seq<char>, Seq<char>>(d@),
        r matches Err(m) ==> working_directory(
            style,
            str_text(config),
            cwd@,
            program@,
        ) == Err::<Seq<char>, Seq<char>>(m@),
{
    match config {
        Some(path) => match find_parent(style, join_path(style, cwd, path).as_str()) {
            Some(d) => Ok(d),
            None => {
                let mut m = "invalid config path ".to_owned();
                m.append(path);
                Err(m)
            },
        },
        None => match find_parent(style, program) {
            Some(d) => Ok(d),
            None => Err("sshdt.exe has no parent directory".to_owned()),
        },
    }
}

/// The steps that start a service, from each state in which it can be started: what is on its
/// way is waited for, and nothing is asked twice. What is paused or changes that cannot be.
pub proof fn how_services_are_started(s: ServiceState)
    ensures
        start_steps(ServiceState::Running) == Ok::<Seq<StateStep>, Seq<char>>(Seq::empty()),
        start_steps(ServiceState::StartPending) == Ok::<Seq<StateStep>, Seq<char>>(
            seq![StateStep::Await(ServiceState::Running)],
        ),
        start_steps(ServiceState::Stopped) == Ok::<Seq<StateStep>, Seq<char>>(
            seq![StateStep::Start, StateStep::Await(ServiceState::Running)],
        ),
        start_steps(ServiceState::StopPending) == Ok::<Seq<StateStep>, Seq<char>>(
            seq![
                StateStep::Await(ServiceState::Stopped),
                StateStep::Start,
                StateStep::Await(ServiceState::Running),
            ],
        ),
        start_steps(s) is Err <==> s == ServiceState::Paused || s == ServiceState::PausePending || s
            == ServiceState::ContinuePending,
        start_steps(s) matches Err(m) ==> m == "cannot start the service while it is "@ + state_text(
            s,
        ),
{
}

/// The steps that stop a service, from each state.
pub proof fn how_services_are_stopped(s: ServiceState)
    ensures
        stop_steps(ServiceState::Stopped) == Seq::<StateStep>::empty(),
        stop_steps(ServiceState::StopPending) == seq![StateStep::Await(ServiceState::Stopped)],
        stop_steps(ServiceState::StartPending) == seq![
            StateStep::Await(ServiceState::Running),
            StateStep::Stop,
            StateStep::Await(ServiceState::Stopped),
        ],
        s == ServiceState::Running || s == ServiceState::Paused || s == ServiceState::PausePending
            || s == ServiceState::ContinuePending ==> stop_steps(s) == seq![
            StateStep::Stop,
            StateStep::Await(ServiceState::Stopped),
        ],
{
}

/// What a user is told of each state.
pub proof fn what_states_are_called()
    ensures
        state_text(ServiceState::Stopped) == "stopped"@,
        state_text(ServiceState::StartPending) == "starting"@,
        state_text(ServiceState::StopPending) == "stopping"@,
        state_text(ServiceState::Running) == "running"@,
        state_text(ServiceState::ContinuePending) == "continuing"@,
        state_text(ServiceState::PausePending) == "pausing"@,
        state_text(ServiceState::Paused) == "paused"@,
{
}

/// Waiting for a state ends where it is reached, where a service that should run has stopped,
/// and after 30 seconds.
pub proof fn how_long_states_are_waited_for(expected: ServiceState, s: ServiceState, elapsed: u64)
    ensures
        await_fault(expected, expected, elapsed) is None,
        await_fault(ServiceState::Running, ServiceState::Stopped, elapsed) == Some(
            "the service stopped before reaching the running state"@,
        ),
        s != expected && elapsed < 30000 && !(expected == ServiceState::Running && s
            == ServiceState::Stopped) ==> await_fault(expected, s, elapsed) is None,
        s != expected && elapsed >= 30000 ==> await_fault(expected, s, elapsed) is Some,
        STATE_TIMEOUT == 30000,
{
}

/// A service runs in the directory of its configuration file, as seen from the current
/// directory, where it has one, and else in that of its program.
pub proof fn where_services_run(
    style: PathStyle,
    config: Seq<char>,
    cwd: Seq<char>,
    program: Seq<char>,
)
    ensures
        parent(style, placed(style, cwd, config)) matches Some(d) ==> working_directory(
            style,
            Some(config),
            cwd,
            program,
        ) == Ok::<Seq<char>, Seq<char>>(d),
        parent(style, placed(style, cwd, config)) is None ==> working_directory(
            style,
            Some(config),
            cwd,
            program,
        ) == Err::<Seq<char>, Seq<char>>("invalid config path "@ + config),
        parent(style, program) matches Some(d) ==> working_directory(style, None, cwd, program)
            == Ok::<Seq<char>, Seq<char>>(d),
        parent(style, program) is None ==> working_directory(style, None, cwd, program) is Err,
{
}

/// Without a current directory a service can be installed exactly where every path among its
/// options starts at the root.
pub proof fn which_services_need_the_current_directory(style: PathStyle, a: Args)
    ensures
        service_paths_absolute(style, a) <==> (a.config is Some ==> absolute(style, a.config->0@))
            && (a.log_file is Some ==> absolute(style, a.log_file->0@)) && (a.sftp_root is Some
            ==> absolute(style, a.sftp_root->0@)) && (forall|i: int|
            0 <= i < a.host_key@.len() ==> absolute(style, (#[trigger] a.host_key@[i])@)) && (
        forall|i: int|
            0 <= i < a.authorized_keys@.len() ==> absolute(
                style,
                (#[trigger] a.authorized_keys@[i])@,
            )),
{
}

} // verus!
