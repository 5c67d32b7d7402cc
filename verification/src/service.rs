//! Launch at login on Windows: what is kept for the next start, and how the process is
//! started, stopped and watched.

use crate::paths::{join_path, placed, PathStyle};
use crate::text::{
    begins, ends, ends_with, option_text, push_text, same, starts_with, strip_prefix,
    texts,
};
use vstd::prelude::*;

verus! {

/// What a user asks for.
#[derive(Clone, Copy, Debug, PartialEq, Eq, Structural)]
pub enum Action {
    Enable,
    Disable,
    Uninstall,
    Status,
    Start,
    Stop,
    Restart,
    Logs { follow: bool },
}

/// One step of what a user asks for.
#[derive(Clone, Copy, Debug, PartialEq, Eq, Structural)]
pub enum ServiceStep {
    /// Keep the options, and launch at login.
    Enable,
    /// Do not launch at login.
    Disable,
    /// Remove what was kept of the options.
    Forget,
    /// Say how things are.
    Status,
    /// Start the process.
    Start,
    /// Stop the process, and say so where `report` is set.
    Stop { report: bool },
    /// Show the log.
    Logs { follow: bool },
}

/// The steps of what a user asks for.
pub open spec fn steps(action: Action) -> Seq<ServiceStep> {
    match action {
        Action::Enable => seq![ServiceStep::Enable],
        Action::Disable => seq![ServiceStep::Disable],
        Action::Uninstall => seq![
            ServiceStep::Stop { report: false },
            ServiceStep::Disable,
            ServiceStep::Forget,
        ],
        Action::Status => seq![ServiceStep::Status],
        Action::Start => seq![ServiceStep::Start],
        Action::Stop => seq![ServiceStep::Stop { report: true }],
        Action::Restart => seq![ServiceStep::Stop { report: false }, ServiceStep::Start],
        Action::Logs { follow } => seq![ServiceStep::Logs { follow }],
    }
}

/// The steps of what a user asks for. Only Windows has them.
pub fn manage(style: PathStyle, action: Action) -> (r: Result<Vec<ServiceStep>, String>)
    ensures
        style == PathStyle::Windows ==> (r matches Ok(v) && v@ == steps(action)),
        style == PathStyle::Posix ==> (r matches Err(m) && m@
            == "service management is currently supported only on Windows"@),
{
    if style == PathStyle::Posix {
        return Err("service management is currently supported only on Windows".to_owned());
    }
    let mut v: Vec<ServiceStep> = Vec::new();
    match action {
        Action::Enable => v.push(ServiceStep::Enable),
        Action::Disable => v.push(ServiceStep::Disable),
        Action::Uninstall => {
            v.push(ServiceStep::Stop { report: false });
            v.push(ServiceStep::Disable);
            v.push(ServiceStep::Forget);
        },
        Action::Status => v.push(ServiceStep::Status),
        Action::Start => v.push(ServiceStep::Start),
        Action::Stop => v.push(ServiceStep::Stop { report: true }),
        Action::Restart => {
            v.push(ServiceStep::Stop { report: false });
            v.push(ServiceStep::Start);
        },
        Action::Logs { follow } => v.push(ServiceStep::Logs { follow }),
    }
    assert(v@ =~= steps(action));
    Ok(v)
}

/// `enable` and `disable` do not change the running process, and `start`, `stop` and
/// `restart` do not change whether it is launched at login.
pub proof fn login_and_process_are_apart(action: Action, i: int)
    requires
        0 <= i < steps(action).len(),
    ensures
        action == Action::Enable || action == Action::Disable ==> !(steps(action)[i] is Start)
            && !(steps(action)[i] is Stop),
        action == Action::Start || action == Action::Stop || action == Action::Restart ==> !(steps(
            action,
        )[i] is Enable) && !(steps(action)[i] is Disable) && !(steps(action)[i] is Forget),
{
}

/// Where the service keeps its logs.
pub fn default_log_directory(style: PathStyle, home: Option<String>) -> (r: Result<String, String>)
    ensures
        home matches Some(h) ==> (r matches Ok(d) && d@ == placed(
            style,
            placed(style, h@, ".sshdt"@),
            "logs"@,
        )),
        home is None ==> (r matches Err(m) && m@ == "could not find the home directory"@),
{
    match home {
        Some(h) => Ok(
            join_path(style, join_path(style, h.as_str(), ".sshdt").as_str(), "logs"),
        ),
        None => Err("could not find the home directory".to_owned()),
    }
}

/// A Windows path without the marks of a path that is taken as it is.
pub open spec fn clean_path(path: Seq<char>) -> Seq<char> {
    if begins(path, "\\\\?\\UNC\\"@) {
        "\\\\"@ + path.skip("\\\\?\\UNC\\"@.len() as int)
    } else if begins(path, "\\\\?\\"@) {
        path.skip("\\\\?\\"@.len() as int)
    } else {
        path
    }
}

/// The command that Windows runs at login.
pub fn launch_command(executable: &str) -> (r: String)
    ensures
        r@ == "\""@ + clean_path(executable@) + "\" --service-run"@,
{
    let clean = match strip_prefix(executable, "\\\\?\\UNC\\") {
        Some(rest) => {
            let mut p = "\\\\".to_owned();
            p.append(rest.as_str());
            p
        },
        None => match strip_prefix(executable, "\\\\?\\") {
            Some(rest) => rest,
            None => executable.to_owned(),
        },
    };
    let mut r = "\"".to_owned();
    r.append(clean.as_str());
    r.append("\" --service-run");
    r
}

/// The names of the events by which the process is watched and stopped.
#[derive(Debug)]
pub struct EventNames {
    pub running: String,
    pub stop: String,
    pub ready: String,
}

/// The name of an event of a user.
pub open spec fn event_name(sid: Seq<char>, what: Seq<char>) -> Seq<char> {
    "Global\\sshdt-service-"@ + sid + "-"@ + what
}

fn name_event(sid: &str, what: &str) -> (r: String)
    ensures
        r@ == event_name(sid@, what@),
{
    let mut r = "Global\\sshdt-service-".to_owned();
    r.append(sid);
    r.append("-");
    r.append(what);
    r
}

impl EventNames {
    /// The names for the user with this identifier.
    pub fn for_sid(sid: &str) -> (r: Self)
        ensures
            r.running@ == event_name(sid@, "running"@),
            r.stop@ == event_name(sid@, "stop"@),
            r.ready@ == event_name(sid@, "ready"@),
    {
        EventNames {
            running: name_event(sid, "running"),
            stop: name_event(sid, "stop"),
            ready: name_event(sid, "ready"),
        }
    }

    /// The names for the current user, where the user is known.
    pub fn current(sid: Result<String, String>) -> (r: Result<Self, String>)
        ensures
            sid matches Ok(s) ==> (r matches Ok(n) && n.running@ == event_name(s@, "running"@)
                && n.stop@ == event_name(s@, "stop"@) && n.ready@ == event_name(s@, "ready"@)),
            sid matches Err(e) ==> r == Err::<EventNames, String>(e),
    {
        match sid {
            Ok(s) => Ok(EventNames::for_sid(s.as_str())),
            Err(e) => Err(e),
        }
    }
}

/// The access rules of the events: the system and the user, and nobody else.
pub fn event_security_descriptor(sid: &str) -> (r: String)
    ensures
        r@ == "D:P(A;;GA;;;SY)(A;;GA;;;"@ + sid@ + ")"@,
{
    let mut r = "D:P(A;;GA;;;SY)(A;;GA;;;".to_owned();
    r.append(sid);
    r.append(")");
    r
}

/// The texts of `v` that are not empty.
pub open spec fn non_empty_texts(v: Seq<Seq<char>>) -> Seq<Seq<char>>
    decreases v.len(),
{
    if v.len() == 0 {
        v
    } else if v.last().len() > 0 {
        non_empty_texts(v.drop_last()).push(v.last())
    } else {
        non_empty_texts(v.drop_last())
    }
}

fn keep_non_empty(v: &Vec<String>) -> (r: Vec<String>)
    ensures
        texts(r@) == non_empty_texts(texts(v@)),
{
    let ghost all = texts(v@);
    let mut r: Vec<String> = Vec::new();
    let mut i: usize = 0;
    assert(all.take(0) =~= Seq::<Seq<char>>::empty());
    assert(texts(r@) =~= Seq::<Seq<char>>::empty());
    while i < v.len()
        invariant
            all == texts(v@),
            i <= v@.len(),
            texts(r@) == non_empty_texts(all.take(i as int)),
        decreases v@.len() - i,
    {
        proof {
            assert(all.take(i + 1).drop_last() =~= all.take(i as int));
            assert(all.take(i + 1).last() == v@[i as int]@);
        }
        if !v[i].as_str().is_empty() {
            push_text(&mut r, v[i].as_str());
        }
        i = i + 1;
    }
    assert(all.take(i as int) =~= all);
    r
}

/// The options that were kept, from what the registry holds.
pub fn saved_args(stored: &Option<Vec<String>>) -> (r: Result<Vec<String>, String>)
    ensures
        *stored matches Some(v) ==> (r matches Ok(a) && texts(a@) == non_empty_texts(texts(v@))),
        *stored is None ==> (r matches Err(m) && m@ == "sshdt service options are not configured"@),
{
    match stored {
        Some(v) => Ok(keep_non_empty(v)),
        None => Err("sshdt service options are not configured".to_owned()),
    }
}

/// The value of the first `--log-file` among options.
pub open spec fn log_file_of(args: Seq<Seq<char>>, i: int) -> Option<Seq<char>>
    decreases args.len() - i,
{
    if i + 1 >= args.len() {
        None
    } else if args[i] == "--log-file"@ {
        Some(args[i + 1])
    } else {
        log_file_of(args, i + 1)
    }
}

fn find_log_file(args: &Vec<String>) -> (r: Option<String>)
    ensures
        option_text(r) == log_file_of(texts(args@), 0),
{
    let ghost all = texts(args@);
    let mut i: usize = 0;
    while i < args.len() && args.len() - i > 1
        invariant
            all == texts(args@),
            i <= args@.len(),
            log_file_of(all, 0) == log_file_of(all, i as int),
        decreases args@.len() - i,
    {
        assert(all[i as int] == args@[i as int]@);
        assert(all[i + 1] == args@[i + 1]@);
        if same(args[i].as_str(), "--log-file") {
            return Some(args[i + 1].clone());
        }
        i = i + 1;
    }
    None
}

/// The log file that was chosen, from what the registry holds.
pub fn configured_log_path(stored: &Option<Vec<String>>) -> (r: Option<String>)
    ensures
        option_text(r) == (match *stored {
            Some(v) => log_file_of(non_empty_texts(texts(v@)), 0),
            None => None,
        }),
{
    match stored {
        Some(v) => find_log_file(&keep_non_empty(v)),
        None => None,
    }
}

/// Whether Windows launches programs that have this mark: `None` stands for no mark.
pub open spec fn approved(mark: Option<Seq<u8>>) -> bool {
    match mark {
        None => true,
        Some(bytes) => bytes.len() > 0 && bytes[0] == 2,
    }
}

/// Whether the process is launched at login.
pub fn launch_at_login_enabled(has_run_entry: bool, mark: &Option<Vec<u8>>) -> (r: bool)
    ensures
        r == (has_run_entry && approved(
            match *mark {
                Some(v) => Some(v@),
                None => None,
            },
        )),
{
    if !has_run_entry {
        return false;
    }
    match mark {
        None => true,
        Some(v) => v.len() > 0 && v[0] == 2,
    }
}

/// What a user is told of the state of things.
pub fn status_text(enabled: bool, running: bool) -> (r: String)
    ensures
        r@ == "sshdt launch at login is "@ + (if enabled {
            "enabled"@
        } else {
            "disabled"@
        }) + "; process is "@ + (if running {
            "running"@
        } else {
            "stopped"@
        }),
{
    let mut r = "sshdt launch at login is ".to_owned();
    if enabled {
        r.append("enabled");
    } else {
        r.append("disabled");
    }
    r.append("; process is ");
    if running {
        r.append("running");
    } else {
        r.append("stopped");
    }
    r
}

/// What to do to start the process.
#[derive(Debug)]
pub enum StartStep {
    /// Say that it runs.
    AlreadyRunning,
    /// Start it.
    Spawn,
    /// Say why it cannot be started.
    Fail(String),
}

/// What to do to start the process. `configured` says whether options and the program are
/// kept.
pub fn start(configured: bool, running: bool) -> (r: StartStep)
    ensures
        r is Fail <==> !configured,
        r matches StartStep::Fail(m) ==> m@
            == "sshdt is not configured; run `sshdt service enable` first"@,
        r is AlreadyRunning <==> configured && running,
{
    if !configured {
        return StartStep::Fail(
            "sshdt is not configured; run `sshdt service enable` first".to_owned(),
        );
    }
    if running {
        return StartStep::AlreadyRunning;
    }
    StartStep::Spawn
}

/// What is known of a process that was started.
#[derive(Clone, Copy, Debug, PartialEq, Eq, Structural)]
pub struct Startup {
    /// Whether it was seen to run.
    pub observed: bool,
}

/// What comes of waiting for a process that was started.
#[derive(Clone, Copy, Debug, PartialEq, Eq, Structural)]
pub enum ReadyStep {
    /// It is ready.
    Ready,
    /// It stopped before it was ready.
    Stopped,
    /// It ended before it was ready.
    Exited,
    /// It took too long.
    TimedOut,
    /// Look again.
    Wait,
}

impl Startup {
    /// A process that was not seen to run.
    pub fn new() -> (r: Self)
        ensures
            !r.observed,
    {
        Startup { observed: false }
    }

    /// What comes of waiting, from whether the process says that it is ready, runs, has
    /// ended, and has taken too long.
    pub fn wait_for_ready(&mut self, ready: bool, running: bool, exited: bool, late: bool) -> (r:
        ReadyStep)
        ensures
            final(self).observed == (old(self).observed || (running && !ready)),
            r == (if ready {
                ReadyStep::Ready
            } else if old(self).observed && !running {
                ReadyStep::Stopped
            } else if exited {
                ReadyStep::Exited
            } else if late {
                ReadyStep::TimedOut
            } else {
                ReadyStep::Wait
            }),
    {
        if ready {
            return ReadyStep::Ready;
        }
        if running {
            self.observed = true;
        } else if self.observed {
            return ReadyStep::Stopped;
        }
        if exited {
            ReadyStep::Exited
        } else if late {
            ReadyStep::TimedOut
        } else {
            ReadyStep::Wait
        }
    }
}

/// What to do to stop the process.
#[derive(Debug)]
pub enum StopStep {
    /// Ask it to stop.
    Signal,
    /// It does not run.
    NotRunning,
    /// Say why it cannot be stopped.
    Fail(String),
    /// Look again.
    Wait,
}

/// What to do to stop the process, from whether it can be asked, whether it runs, and
/// whether that took too long.
pub fn stop_event(can_ask: bool, running: bool, late: bool) -> (r: StopStep)
    ensures
        r is Signal <==> can_ask,
        r is NotRunning <==> !can_ask && !running,
        r is Fail <==> !can_ask && running && late,
        r matches StopStep::Fail(m) ==> m@ == "sshdt is running but cannot accept a stop request"@,
{
    if can_ask {
        StopStep::Signal
    } else if !running {
        StopStep::NotRunning
    } else if late {
        StopStep::Fail("sshdt is running but cannot accept a stop request".to_owned())
    } else {
        StopStep::Wait
    }
}

/// What comes of waiting for the end of the process.
#[derive(Debug)]
pub enum StoppedStep {
    Stopped,
    Fail(String),
    Wait,
}

/// What comes of waiting for the end of the process.
pub fn wait_until_stopped(running: bool, late: bool) -> (r: StoppedStep)
    ensures
        r is Stopped <==> !running,
        r is Fail <==> running && late,
        r matches StoppedStep::Fail(m) ==> m@ == "timed out while stopping sshdt"@,
{
    if !running {
        StoppedStep::Stopped
    } else if late {
        StoppedStep::Fail("timed out while stopping sshdt".to_owned())
    } else {
        StoppedStep::Wait
    }
}

/// What could be done to ask a process to stop that was started in vain.
#[derive(Clone, Copy, Debug, PartialEq, Eq, Structural)]
pub enum StopRequest {
    /// It was asked.
    Sent,
    /// It cannot be asked yet.
    NotYet,
    /// It cannot be asked.
    Failed,
}

/// A process that was started in vain and has to go.
#[derive(Clone, Copy, Debug, PartialEq, Eq, Structural)]
pub struct Cleanup {
    /// Whether it was asked to stop.
    pub asked: bool,
}

/// What to do with a process that was started in vain.
#[derive(Clone, Copy, Debug, PartialEq, Eq, Structural)]
pub enum CleanupStep {
    /// It is gone.
    Gone,
    /// Look again.
    Wait,
    /// End it by force.
    Kill,
}

impl Cleanup {
    /// What to do next: `exited` says whether the process has ended, `request` what came
    /// of asking it to stop, where that was tried, and `late` whether the time is over.
    pub fn cleanup_failed_start(&mut self, exited: bool, request: StopRequest, late: bool) -> (r:
        CleanupStep)
        ensures
            final(self).asked == (old(self).asked || (!exited && request == StopRequest::Sent)),
            r == (if exited {
                CleanupStep::Gone
            } else if !old(self).asked && request == StopRequest::Failed {
                CleanupStep::Kill
            } else if late {
                CleanupStep::Kill
            } else {
                CleanupStep::Wait
            }),
    {
        if exited {
            return CleanupStep::Gone;
        }
        if !self.asked {
            match request {
                StopRequest::Sent => self.asked = true,
                StopRequest::Failed => return CleanupStep::Kill,
                StopRequest::NotYet => {},
            }
        }
        if late {
            CleanupStep::Kill
        } else {
            CleanupStep::Wait
        }
    }
}

/// A file in the directory of the logs, and when it was changed.
#[derive(Debug)]
pub struct LogFile {
    pub name: String,
    pub modified: u128,
}

/// Whether a file is a log of the service.
pub open spec fn service_log(name: Seq<char>) -> bool {
    begins(name, "sshdt."@) && ends(name, ".log"@)
}

/// The index of the log that was changed last, and first of those changed at the same
/// time, among the first `n` files.
pub open spec fn newest_log(files: Seq<LogFile>, n: int) -> Option<int>
    decreases n,
{
    if n <= 0 {
        None
    } else {
        let before = newest_log(files, n - 1);
        if !service_log(files[n - 1].name@) {
            before
        } else {
            match before {
                Some(i) => if files[n - 1].modified > files[i].modified {
                    Some(n - 1)
                } else {
                    before
                },
                None => Some(n - 1),
            }
        }
    }
}

/// The index of the log that was changed last.
pub fn latest_log(files: &Vec<LogFile>) -> (r: Option<usize>)
    ensures
        r is Some <==> newest_log(files@, files@.len() as int) is Some,
        r matches Some(i) ==> newest_log(files@, files@.len() as int) == Some(i as int) && i
            < files@.len(),
{
    let mut latest: Option<usize> = None;
    let mut n: usize = 0;
    while n < files.len()
        invariant
            n <= files@.len(),
            latest is Some <==> newest_log(files@, n as int) is Some,
            latest matches Some(i) ==> newest_log(files@, n as int) == Some(i as int) && i < n,
        decreases files@.len() - n,
    {
        let name = files[n].name.as_str();
        if starts_with(name, "sshdt.") && ends_with(name, ".log") {
            latest = match latest {
                Some(i) => if files[n].modified > files[i].modified {
                    Some(n)
                } else {
                    Some(i)
                },
                None => Some(n),
            };
        }
        n = n + 1;
    }
    latest
}

/// No log of the service was changed after the one that is shown.
pub proof fn shown_log_is_newest(files: Seq<LogFile>, n: int, k: int)
    requires
        0 <= k < n <= files.len(),
        service_log(files[k].name@),
    ensures
        newest_log(files, n) is Some,
        0 <= newest_log(files, n)->0 < n,
        service_log(files[newest_log(files, n)->0].name@),
        files[k].modified <= files[newest_log(files, n)->0].modified,
    decreases n,
{
    if k < n - 1 {
        shown_log_is_newest(files, n - 1, k);
    } else if newest_log(files, n - 1) is Some {
        newest_log_is_log(files, n - 1);
    }
}

proof fn newest_log_is_log(files: Seq<LogFile>, n: int)
    requires
        0 <= n <= files.len(),
        newest_log(files, n) is Some,
    ensures
        0 <= newest_log(files, n)->0 < n,
        service_log(files[newest_log(files, n)->0].name@),
    decreases n,
{
    if newest_log(files, n - 1) is Some {
        newest_log_is_log(files, n - 1);
    }
}

/// The log to show: the chosen one where it is there, and the newest where none was
/// chosen.
pub fn log_to_show(explicit: &Option<String>, exists: bool, latest: Option<String>) -> (r: Option<
    String,
>)
    ensures
        option_text(r) == (match option_text(*explicit) {
            Some(p) => if exists {
                Some(p)
            } else {
                None
            },
            None => option_text(latest),
        }),
{
    match explicit {
        Some(p) => if exists {
            Some(p.clone())
        } else {
            None
        },
        None => latest,
    }
}

/// What each action does, and in which order: whatever is removed is stopped first and not
/// launched again, and a restart stops before it starts.
pub proof fn what_actions_do(follow: bool)
    ensures
        steps(Action::Enable) == seq![ServiceStep::Enable],
        steps(Action::Disable) == seq![ServiceStep::Disable],
        steps(Action::Uninstall) == seq![
            ServiceStep::Stop { report: false },
            ServiceStep::Disable,
            ServiceStep::Forget,
        ],
        steps(Action::Status) == seq![ServiceStep::Status],
        steps(Action::Start) == seq![ServiceStep::Start],
        steps(Action::Stop) == seq![ServiceStep::Stop { report: true }],
        steps(Action::Restart) == seq![ServiceStep::Stop { report: false }, ServiceStep::Start],
        steps(Action::Logs { follow }) == seq![ServiceStep::Logs { follow }],
{
}

/// A path that is taken as it is loses its mark, a share begins with two separators again, and
/// any other path stays.
pub proof fn marks_of_paths_are_dropped(rest: Seq<char>, path: Seq<char>)
    ensures
        clean_path("\\\\?\\UNC\\"@ + rest) == "\\\\"@ + rest,
        !begins(rest, "UNC\\"@) ==> clean_path("\\\\?\\"@ + rest) == rest,
        !begins(path, "\\\\?\\"@) ==> clean_path(path) == path,
{
    let share = "\\\\?\\UNC\\"@;
    let mark = "\\\\?\\"@;
    let unc = "UNC\\"@;
    reveal_strlit("\\\\?\\UNC\\");
    reveal_strlit("\\\\?\\");
    reveal_strlit("UNC\\");
    assert(share.len() == 8 && mark.len() == 4 && unc.len() == 4);
    let s = share + rest;
    assert(s.subrange(0, 8) =~= share);
    assert(s.skip(8) =~= rest);
    let t = mark + rest;
    assert(t.subrange(0, 4) =~= mark);
    assert(t.skip(4) =~= rest);
    assert(share.subrange(0, 4) =~= mark);
    assert(share.subrange(4, 8) =~= unc);
    if begins(t, share) {
        assert(rest.subrange(0, 4) =~= t.subrange(0, 8).subrange(4, 8));
        assert(begins(rest, unc));
    }
    if begins(path, share) {
        assert(path.subrange(0, 4) =~= path.subrange(0, 8).subrange(0, 4));
        assert(begins(path, mark));
    }
}

/// The events of different users, and the events of one user, have different names.
pub proof fn events_are_told_apart(a: Seq<char>, b: Seq<char>, what: Seq<char>, other: Seq<char>)
    ensures
        event_name(a, what) == "Global\\sshdt-service-"@ + a + "-"@ + what,
        event_name(a, what) == event_name(b, what) ==> a == b,
        event_name(a, what) == event_name(a, other) ==> what == other,
{
    let start = "Global\\sshdt-service-"@;
    let n = start.len() as int;
    let s = event_name(a, what);
    if s == event_name(b, what) {
        assert(s.len() == n + a.len() + "-"@.len() + what.len());
        assert(event_name(b, what).len() == n + b.len() + "-"@.len() + what.len());
        assert(s.subrange(n, n + a.len()) =~= a);
        assert(s.subrange(n, n + a.len()) =~= b);
    }
    if s == event_name(a, other) {
        let m = (start + a + "-"@).len() as int;
        assert(s.skip(m) =~= what);
        assert(s.skip(m) =~= other);
    }
}

proof fn non_empty_of_both(a: Seq<Seq<char>>, b: Seq<Seq<char>>)
    ensures
        non_empty_texts(a + b) == non_empty_texts(a) + non_empty_texts(b),
    decreases b.len(),
{
    if b.len() == 0 {
        assert(a + b =~= a);
        assert(non_empty_texts(a) + non_empty_texts(b) =~= non_empty_texts(a));
    } else {
        non_empty_of_both(a, b.drop_last());
        assert((a + b).drop_last() =~= a + b.drop_last());
        assert((a + b).last() == b.last());
        assert(non_empty_texts(a + b) =~= non_empty_texts(a) + non_empty_texts(b));
    }
}

/// Every option that was kept is found again, in its order, but for those that are empty.
pub proof fn kept_options_are_found(a: Seq<Seq<char>>, text: Seq<char>, b: Seq<Seq<char>>)
    ensures
        text.len() > 0 ==> non_empty_texts(a + seq![text] + b) == non_empty_texts(a) + seq![text]
            + non_empty_texts(b),
        text.len() == 0 ==> non_empty_texts(a + seq![text] + b) == non_empty_texts(a)
            + non_empty_texts(b),
        non_empty_texts(Seq::empty()) == Seq::<Seq<char>>::empty(),
{
    let one = seq![text];
    non_empty_of_both(a + one, b);
    non_empty_of_both(a, one);
    assert(one.drop_last() =~= Seq::<Seq<char>>::empty());
    assert(non_empty_texts(Seq::<Seq<char>>::empty()) =~= Seq::<Seq<char>>::empty());
    if text.len() > 0 {
        assert(non_empty_texts(one) =~= one);
    } else {
        assert(non_empty_texts(a) + non_empty_texts(one) =~= non_empty_texts(a));
    }
}

proof fn log_file_behind(args: Seq<Seq<char>>, i: int, k: int)
    requires
        0 <= i <= k,
        k + 1 < args.len(),
        args[k] == "--log-file"@,
        forall|j: int| i <= j < k ==> #[trigger] args[j] != "--log-file"@,
    ensures
        log_file_of(args, i) == Some(args[k + 1]),
    decreases k - i,
{
    if i < k {
        assert(args[i] != "--log-file"@);
        log_file_behind(args, i + 1, k);
    }
}

proof fn no_log_file(args: Seq<Seq<char>>, i: int)
    requires
        0 <= i,
        forall|j: int| 0 <= j < args.len() - 1 ==> #[trigger] args[j] != "--log-file"@,
    ensures
        log_file_of(args, i) is None,
    decreases args.len() - i,
{
    if i + 1 < args.len() {
        assert(args[i] != "--log-file"@);
        no_log_file(args, i + 1);
    }
}

/// The log file that was chosen is what stands behind the first `--log-file`. Without that
/// option none was.
pub proof fn which_log_file_was_chosen(before: Seq<Seq<char>>, file: Seq<char>, behind: Seq<Seq<char>>)
    requires
        !before.contains("--log-file"@),
    ensures
        log_file_of(before + seq!["--log-file"@, file] + behind, 0) == Some(file),
        log_file_of(before, 0) is None,
{
    let all = before + seq!["--log-file"@, file] + behind;
    let k = before.len() as int;
    assert forall|j: int| 0 <= j < k implies #[trigger] all[j] != "--log-file"@ by {
        assert(all[j] == before[j]);
        assert(before.contains(before[j]));
    }
    log_file_behind(all, 0, k);
    assert forall|j: int| 0 <= j < before.len() - 1 implies #[trigger] before[j] != "--log-file"@ by {
        assert(before.contains(before[j]));
    }
    no_log_file(before, 0);
}

/// Windows launches what has no mark, and what has a mark that begins with 2.
pub proof fn which_marks_are_approved(first: u8, rest: Seq<u8>)
    ensures
        approved(None),
        approved(Some(seq![first] + rest)) <==> first == 2,
        !approved(Some(Seq::empty())),
{
    assert((seq![first] + rest)[0] == first);
}

/// Every file whose name begins with `sshdt.` and ends with `.log` is a log of the service, and
/// no other.
pub proof fn which_files_are_logs(middle: Seq<char>, name: Seq<char>)
    ensures
        service_log("sshdt."@ + middle + ".log"@),
        service_log(name) <==> begins(name, "sshdt."@) && ends(name, ".log"@),
{
    let s = "sshdt."@ + middle + ".log"@;
    let a = "sshdt."@;
    let b = ".log"@;
    assert(s.subrange(0, a.len() as int) =~= a);
    assert(s.subrange(s.len() - b.len(), s.len() as int) =~= b);
}

/// The log that is shown is one of the service, no other was changed after it, and of those
/// changed at the same time it is the first. None is shown exactly where there is none.
pub proof fn which_log_is_shown(files: Seq<LogFile>, n: int, k: int)
    requires
        0 <= k < n <= files.len(),
        service_log(files[k].name@),
    ensures
        newest_log(files, n) matches Some(i) && 0 <= i < n && service_log(files[i].name@)
            && files[k].modified <= files[i].modified && (files[k].modified == files[i].modified
            ==> i <= k),
    decreases n,
{
    if k < n - 1 {
        which_log_is_shown(files, n - 1, k);
    } else if newest_log(files, n - 1) is Some {
        newest_log_is_log(files, n - 1);
    }
}

/// Where no file is a log of the service, none is shown.
pub proof fn nothing_is_shown_without_logs(files: Seq<LogFile>, n: int)
    requires
        0 <= n <= files.len(),
        forall|k: int| 0 <= k < n ==> !service_log((#[trigger] files[k]).name@),
    ensures
        newest_log(files, n) is None,
    decreases n,
{
    if n > 0 {
        assert(!service_log(files[n - 1].name@));
        nothing_is_shown_without_logs(files, n - 1);
    }
}

} // verus!
