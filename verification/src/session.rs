//! Sessions: the command that a session runs, its environment, and how it ends.

use crate::paths::{file_name, find_file_name, PathStyle};
use crate::text::{lowered, option_text, same, str_text, texts, to_lower};
use crate::util::{command_line, split_command_line};
use vstd::prelude::*;

verus! {

/// A terminal that a client asks for.
#[derive(Debug, Clone)]
#[non_exhaustive]
pub struct PtyRequest {
    /// The kind of terminal.
    pub term: String,
    /// Its columns.
    pub cols: u16,
    /// Its rows.
    pub rows: u16,
    /// Its width in pixels, 0 where it is not known.
    pub pixel_width: u16,
    /// Its height in pixels, 0 where it is not known.
    pub pixel_height: u16,
}

/// What a client asks a session for.
#[derive(Debug, Clone)]
#[non_exhaustive]
pub enum SessionRequest {
    /// A shell.
    Shell { pty: Option<PtyRequest> },
    /// One command.
    Exec { command: String, pty: Option<PtyRequest> },
}

impl SessionRequest {
    /// The terminal that the client asks for.
    pub fn pty(&self) -> (r: Option<&PtyRequest>)
        ensures
            r == (match *self {
                SessionRequest::Shell { pty: Some(p) } => Some(&p),
                SessionRequest::Exec { pty: Some(p), .. } => Some(&p),
                _ => None,
            }),
    {
        match self {
            SessionRequest::Shell { pty } => pty.as_ref(),
            SessionRequest::Exec { pty, .. } => pty.as_ref(),
        }
    }
}

/// A command that a session runs.
#[derive(Debug, Clone)]
#[non_exhaustive]
pub struct SessionCommand {
    /// The program.
    pub program: String,
    /// Its arguments.
    pub args: Vec<String>,
    /// Environment variables that are set for it.
    pub env: Vec<(String, String)>,
}

/// The texts of a list of pairs.
pub open spec fn pairs(v: Seq<(String, String)>) -> Seq<(Seq<char>, Seq<char>)> {
    Seq::new(v.len(), |i: int| (v[i].0@, v[i].1@))
}

/// What a [`SessionCommand`] holds.
#[verifier::ext_equal]
pub struct CommandView {
    pub program: Seq<char>,
    pub args: Seq<Seq<char>>,
    pub env: Seq<(Seq<char>, Seq<char>)>,
}

impl View for SessionCommand {
    type V = CommandView;

    open spec fn view(&self) -> CommandView {
        CommandView { program: self.program@, args: texts(self.args@), env: pairs(self.env@) }
    }
}

impl SessionCommand {
    /// A program without arguments.
    pub fn new(program: &str) -> (r: Self)
        ensures
            r@ == (CommandView { program: program@, args: Seq::empty(), env: Seq::empty() }),
    {
        let r = SessionCommand { program: program.to_owned(), args: Vec::new(), env: Vec::new() };
        assert(r@ =~= CommandView { program: program@, args: Seq::empty(), env: Seq::empty() });
        r
    }
}

/// Says which command a session runs.
pub trait CommandResolver {
    /// The command for a request.
    fn resolve(&self, request: &SessionRequest) -> (r: SessionCommand);
}

/// What is known of the shells of this machine.
#[derive(Debug)]
pub enum Shells {
    /// The value of `SHELL`.
    Posix { shell: Option<String> },
    /// Which programs the search path of a Windows machine has.
    Windows { pwsh: bool, powershell: bool },
}

/// The shell where none was chosen.
pub open spec fn shell_of(shells: Shells) -> Seq<char> {
    match shells {
        Shells::Posix { shell } => match shell {
            Some(s) => if s@.len() > 0 {
                s@
            } else {
                "/bin/sh"@
            },
            None => "/bin/sh"@,
        },
        Shells::Windows { pwsh, powershell } => if pwsh {
            "pwsh.exe"@
        } else if powershell {
            "powershell.exe"@
        } else {
            "cmd.exe"@
        },
    }
}

/// The shell where none was chosen: the one that `SHELL` names or `/bin/sh`, and on
/// Windows the first of `pwsh`, `powershell` and `cmd` that is there.
pub fn default_shell(shells: &Shells) -> (r: Vec<String>)
    ensures
        texts(r@) == seq![shell_of(*shells)],
{
    let program = match shells {
        Shells::Posix { shell } => match shell {
            Some(s) => if s.as_str().is_empty() {
                "/bin/sh".to_owned()
            } else {
                s.clone()
            },
            None => "/bin/sh".to_owned(),
        },
        Shells::Windows { pwsh, powershell } => if *pwsh {
            "pwsh.exe".to_owned()
        } else if *powershell {
            "powershell.exe".to_owned()
        } else {
            "cmd.exe".to_owned()
        },
    };
    let mut r: Vec<String> = Vec::new();
    r.push(program);
    assert(texts(r@) =~= seq![shell_of(*shells)]);
    r
}

/// The option by which a shell runs one command.
pub open spec fn flag(style: PathStyle, shell: Seq<char>) -> Seq<char> {
    let name = match file_name(style, shell) {
        Some(n) => n,
        None => shell,
    };
    if lowered(name) == "cmd"@ || lowered(name) == "cmd.exe"@ {
        "/C"@
    } else {
        "-c"@
    }
}

/// The option by which a shell runs one command: `/C` for `cmd`, and `-c` for any
/// other.
pub fn exec_flag(style: PathStyle, shell: &str) -> (r: &'static str)
    ensures
        r@ == flag(style, shell@),
{
    let name = match find_file_name(style, shell) {
        Some(n) => n,
        None => shell.to_owned(),
    };
    let lower = to_lower(name.as_str());
    if same(lower.as_str(), "cmd") || same(lower.as_str(), "cmd.exe") {
        "/C"
    } else {
        "-c"
    }
}

/// The style of the paths of a machine with these shells.
pub open spec fn style_of(shells: Shells) -> PathStyle {
    match shells {
        Shells::Posix { .. } => PathStyle::Posix,
        Shells::Windows { .. } => PathStyle::Windows,
    }
}

/// Runs the chosen shell, or the one of this machine.
#[derive(Debug)]
pub struct DefaultResolver {
    /// The shell and its arguments.
    pub shell: Vec<String>,
    /// How this machine writes its paths.
    pub style: PathStyle,
}

/// The shell and its arguments: the chosen command line, or else the shell of this
/// machine.
pub open spec fn shell_words(shell: Option<Seq<char>>, shells: Shells) -> Seq<Seq<char>> {
    if shell is Some && command_line(shell->0).len() > 0 {
        command_line(shell->0)
    } else {
        seq![shell_of(shells)]
    }
}

/// The program of a shell.
pub open spec fn program_of(shell: Seq<Seq<char>>) -> Seq<char> {
    if shell.len() > 0 {
        shell[0]
    } else {
        "/bin/sh"@
    }
}

/// The command for a request: the shell with its arguments, or the shell that runs the
/// command of the client.
pub open spec fn resolved(
    style: PathStyle,
    shell: Seq<Seq<char>>,
    request: SessionRequest,
) -> CommandView {
    match request {
        SessionRequest::Shell { .. } => CommandView {
            program: program_of(shell),
            args: if shell.len() > 0 {
                shell.skip(1)
            } else {
                Seq::empty()
            },
            env: Seq::empty(),
        },
        SessionRequest::Exec { command, .. } => CommandView {
            program: program_of(shell),
            args: seq![flag(style, program_of(shell)), command@],
            env: Seq::empty(),
        },
    }
}

impl DefaultResolver {
    /// Runs the chosen command line, or else the shell of this machine.
    pub fn new(shell: Option<&str>, shells: &Shells) -> (r: Self)
        ensures
            texts(r.shell@) == shell_words(str_text(shell), *shells),
            r.style == style_of(*shells),
    {
        let style = match shells {
            Shells::Posix { .. } => PathStyle::Posix,
            Shells::Windows { .. } => PathStyle::Windows,
        };
        if let Some(s) = shell {
            let words = split_command_line(s);
            assert(texts(words@).len() == words@.len());
            if words.len() > 0 {
                return DefaultResolver { shell: words, style };
            }
        }
        DefaultResolver { shell: default_shell(shells), style }
    }

    /// The program of the shell.
    pub fn shell_program(&self) -> (r: String)
        ensures
            r@ == program_of(texts(self.shell@)),
    {
        if self.shell.len() > 0 {
            self.shell[0].clone()
        } else {
            "/bin/sh".to_owned()
        }
    }
}

impl CommandResolver for DefaultResolver {
    fn resolve(&self, request: &SessionRequest) -> (r: SessionCommand)
        ensures
            r@ == resolved(self.style, texts(self.shell@), *request),
    {
        let program = self.shell_program();
        match request {
            SessionRequest::Shell { .. } => {
                let mut args: Vec<String> = Vec::new();
                let mut i: usize = 1;
                while i < self.shell.len()
                    invariant
                        1 <= i,
                        i <= self.shell@.len() || (self.shell@.len() == 0 && i == 1),
                        args@.len() == i - 1,
                        forall|k: int| 0 <= k < i - 1 ==> (#[trigger] args@[k])@ == self.shell@[k
                            + 1]@,
                    decreases self.shell@.len() - i,
                {
                    args.push(self.shell[i].clone());
                    i = i + 1;
                }
                let r = SessionCommand { program, args, env: Vec::new() };
                assert(r@ =~= resolved(self.style, texts(self.shell@), *request));
                r
            },
            SessionRequest::Exec { command, .. } => {
                let mut args: Vec<String> = Vec::new();
                args.push(exec_flag(self.style, program.as_str()).to_owned());
                args.push(command.clone());
                let r = SessionCommand { program, args, env: Vec::new() };
                assert(r@ =~= resolved(self.style, texts(self.shell@), *request));
                r
            },
        }
    }
}

/// What is known of the environment of the server.
#[derive(Debug)]
pub struct ProcessEnv {
    /// Whether `HOME` is set.
    pub has_home: bool,
    /// The home directory.
    pub home: Option<String>,
    /// Whether `USER` is set.
    pub has_user: bool,
    /// Whether `LOGNAME` is set.
    pub has_logname: bool,
    /// The name of the user who runs the server.
    pub user: Option<String>,
}

/// One variable, where it is to be set.
pub open spec fn variable(name: Seq<char>, set: bool, value: Seq<char>) -> Seq<
    (Seq<char>, Seq<char>),
> {
    if set {
        seq![(name, value)]
    } else {
        Seq::empty()
    }
}

/// The variables that a session sets, in order: `SHELL`; `HOME`, `USER` and `LOGNAME`
/// where the server has none; `TERM` for a terminal; what the client set; and what
/// comes with the command.
pub open spec fn overrides(
    shell: Seq<char>,
    term: Option<Seq<char>>,
    client: Seq<(Seq<char>, Seq<char>)>,
    command: Seq<(Seq<char>, Seq<char>)>,
    env: ProcessEnv,
) -> Seq<(Seq<char>, Seq<char>)> {
    let home = option_text(env.home);
    let user = option_text(env.user);
    seq![("SHELL"@, shell)] + variable("HOME"@, !env.has_home && home is Some, home->0)
        + variable("USER"@, !env.has_user && user is Some, user->0) + variable(
        "LOGNAME"@,
        !env.has_logname && user is Some,
        user->0,
    ) + variable("TERM"@, term is Some && term->0.len() > 0, term->0) + client + command
}

/// The kind of the terminal that a client asks for.
pub open spec fn term_of(pty: Option<&PtyRequest>) -> Option<Seq<char>> {
    match pty {
        Some(p) => Some(p.term@),
        None => None,
    }
}

fn set(out: &mut Vec<(String, String)>, name: &str, value: &str)
    ensures
        pairs(final(out)@) == pairs(old(out)@) + seq![(name@, value@)],
{
    let ghost before = out@;
    out.push((name.to_owned(), value.to_owned()));
    assert(pairs(out@) =~= pairs(before) + seq![(name@, value@)]);
}

fn set_all(out: &mut Vec<(String, String)>, more: &Vec<(String, String)>)
    ensures
        pairs(final(out)@) == pairs(old(out)@) + pairs(more@),
{
    let ghost before = pairs(out@);
    let mut i: usize = 0;
    assert(before + pairs(more@).take(0) =~= before);
    while i < more.len()
        invariant
            i <= more@.len(),
            pairs(out@) == before + pairs(more@).take(i as int),
        decreases more@.len() - i,
    {
        set(out, more[i].0.as_str(), more[i].1.as_str());
        i = i + 1;
        assert(pairs(out@) =~= before + pairs(more@).take(i as int));
    }
    assert(pairs(more@).take(i as int) =~= pairs(more@));
}

/// The variables that a session sets over those of the server.
pub fn session_env_overrides(
    shell_program: &str,
    pty: Option<&PtyRequest>,
    client_env: &Vec<(String, String)>,
    resolver_env: &Vec<(String, String)>,
    env: &ProcessEnv,
) -> (r: Vec<(String, String)>)
    ensures
        pairs(r@) == overrides(
            shell_program@,
            term_of(pty),
            pairs(client_env@),
            pairs(resolver_env@),
            *env,
        ),
{
    let mut out: Vec<(String, String)> = Vec::new();
    assert(pairs(out@) =~= Seq::<(Seq<char>, Seq<char>)>::empty());
    set(&mut out, "SHELL", shell_program);
    assert(pairs(out@) =~= seq![("SHELL"@, shell_program@)]);
    let ghost s0 = pairs(out@);
    if !env.has_home {
        if let Some(home) = &env.home {
            set(&mut out, "HOME", home.as_str());
        }
    }
    let ghost home = option_text(env.home);
    let ghost s1 = s0 + variable("HOME"@, !env.has_home && home is Some, home->0);
    assert(pairs(out@) =~= s1);
    let ghost user = option_text(env.user);
    if !env.has_user {
        if let Some(name) = &env.user {
            set(&mut out, "USER", name.as_str());
        }
    }
    let ghost s2 = s1 + variable("USER"@, !env.has_user && user is Some, user->0);
    assert(pairs(out@) =~= s2);
    if !env.has_logname {
        if let Some(name) = &env.user {
            set(&mut out, "LOGNAME", name.as_str());
        }
    }
    let ghost s3 = s2 + variable("LOGNAME"@, !env.has_logname && user is Some, user->0);
    assert(pairs(out@) =~= s3);
    if let Some(p) = pty {
        if !p.term.as_str().is_empty() {
            set(&mut out, "TERM", p.term.as_str());
        }
    }
    let ghost term = term_of(pty);
    assert(pairs(out@) =~= s3 + variable("TERM"@, term is Some && term->0.len() > 0, term->0));
    set_all(&mut out, client_env);
    set_all(&mut out, resolver_env);
    out
}

/// The value of a variable after all of `env` was set, one after the other.
pub open spec fn effective(env: Seq<(Seq<char>, Seq<char>)>, name: Seq<char>) -> Option<Seq<char>>
    decreases env.len(),
{
    if env.len() == 0 {
        None
    } else if env.last().0 == name {
        Some(env.last().1)
    } else {
        effective(env.drop_last(), name)
    }
}

proof fn effective_last(
    a: Seq<(Seq<char>, Seq<char>)>,
    b: Seq<(Seq<char>, Seq<char>)>,
    name: Seq<char>,
)
    ensures
        effective(b, name) is Some ==> effective(a + b, name) == effective(b, name),
        effective(b, name) is None ==> effective(a + b, name) == effective(a, name),
    decreases b.len(),
{
    if b.len() == 0 {
        assert(a + b =~= a);
    } else {
        assert((a + b).drop_last() =~= a + b.drop_last());
        effective_last(a, b.drop_last(), name);
    }
}

/// What comes with the command goes before what the client set, and that before what
/// the server sets.
pub proof fn later_variables_win(
    shell: Seq<char>,
    term: Option<Seq<char>>,
    client: Seq<(Seq<char>, Seq<char>)>,
    command: Seq<(Seq<char>, Seq<char>)>,
    env: ProcessEnv,
    name: Seq<char>,
)
    ensures
        effective(command, name) is Some ==> effective(
            overrides(shell, term, client, command, env),
            name,
        ) == effective(command, name),
        effective(command, name) is None && effective(client, name) is Some ==> effective(
            overrides(shell, term, client, command, env),
            name,
        ) == effective(client, name),
{
    let own = overrides(shell, term, Seq::empty(), Seq::empty(), env);
    assert(overrides(shell, term, client, command, env) =~= (own + client) + command);
    effective_last(own + client, command, name);
    effective_last(own, client, name);
}

/// A number from -2147483648 on as 32 bits without a sign.
pub open spec fn unsigned(n: i32) -> int {
    if n >= 0 {
        n as int
    } else {
        n + 0x1_0000_0000
    }
}

/// How a process ended: its exit code, or the signal that ended it.
#[derive(Clone, Copy, Debug, PartialEq, Eq, Structural)]
pub struct ExitStatus {
    pub code: Option<i32>,
    pub signal: Option<i32>,
}

fn to_unsigned(n: i32) -> (r: u32)
    ensures
        r == unsigned(n),
{
    if n >= 0 {
        n as u32
    } else {
        (n as i64 + 0x1_0000_0000) as u32
    }
}

/// The exit code that a client is told: that of the process, or 128 and the signal that
/// ended it, or 1 where nothing is known.
pub fn exit_code_of(status: Option<ExitStatus>) -> (r: u32)
    requires
        status matches Some(s) ==> s.code is None && s.signal is Some ==> unsigned(s.signal->0)
            + 128 <= u32::MAX,
    ensures
        r == (match status {
            None => 1,
            Some(s) => match (s.code, s.signal) {
                (Some(code), _) => unsigned(code),
                (None, Some(signal)) => 128 + unsigned(signal),
                (None, None) => 1,
            },
        }),
{
    match status {
        None => 1,
        Some(s) => match s.code {
            Some(code) => to_unsigned(code),
            None => match s.signal {
                Some(signal) => 128 + to_unsigned(signal),
                None => 1,
            },
        },
    }
}

/// The exit code that a client is told of a session that no process ran.
pub fn handler_code(code: i32) -> (r: u32)
    ensures
        r == (if code > 0 {
            code as int
        } else {
            0
        }),
{
    if code > 0 {
        code as u32
    } else {
        0
    }
}

/// The exit code for a command that could not be run.
pub const NOT_RUN: u32 = 127;

/// The exit code for a terminal that could not be used.
pub const NO_TERMINAL: u32 = 1;

/// What a client is told of a command that could not be run.
pub fn run_failure(program: &str, error: &str) -> (r: String)
    ensures
        r@ == "sshdt: failed to run "@ + program@ + ": "@ + error@ + "\n"@,
{
    let mut r = "sshdt: failed to run ".to_owned();
    r.append(program);
    r.append(": ");
    r.append(error);
    r.append("\n");
    r
}

/// The size of a terminal, which has at least one column and one row.
pub fn terminal_size(cols: u16, rows: u16) -> (r: (u16, u16))
    ensures
        r.0 == (if cols == 0 {
            1u16
        } else {
            cols
        }),
        r.1 == (if rows == 0 {
            1u16
        } else {
            rows
        }),
{
    (
        if cols == 0 {
            1
        } else {
            cols
        },
        if rows == 0 {
            1
        } else {
            rows
        },
    )
}

/// Which runner a session gets.
#[derive(Clone, Copy, Debug, PartialEq, Eq, Structural)]
pub enum Runner {
    /// One that was put in place of the usual ones.
    Custom,
    /// A process on a terminal.
    Pty,
    /// A process with pipes.
    Pipe,
}

/// Which runner a session gets.
pub fn run_session(request: &SessionRequest, custom: bool) -> (r: Runner)
    ensures
        r == (if custom {
            Runner::Custom
        } else if (match *request {
            SessionRequest::Shell { pty } => pty is Some,
            SessionRequest::Exec { pty, .. } => pty is Some,
        }) {
            Runner::Pty
        } else {
            Runner::Pipe
        }),
{
    if custom {
        Runner::Custom
    } else if request.pty().is_some() {
        Runner::Pty
    } else {
        Runner::Pipe
    }
}

/// What happens while a process runs on a terminal.
#[derive(Clone, Copy, Debug, PartialEq, Eq, Structural)]
pub enum PtyEvent {
    /// The client sent bytes.
    Input,
    /// The client will send no more, or is gone.
    InputEnd,
    /// The process wrote bytes, and whether the client could be sent them.
    Output { sent: bool },
    /// The process has closed its terminal.
    OutputEnd,
    /// The terminal of the client has another size.
    Resize { cols: u16, rows: u16 },
    /// It was looked whether the process has ended.
    Polled { ended: bool },
}

/// What to do next for a process on a terminal.
#[derive(Clone, Copy, Debug, PartialEq, Eq, Structural)]
pub enum PtyAction {
    /// Go on.
    Continue,
    /// Hand the bytes to the process.
    Write,
    /// Give the terminal this size.
    Resize { cols: u16, rows: u16 },
    /// Tell the process that the client is gone, and wait for its end.
    HangUp,
    /// Wait for the end of the process.
    Wait,
    /// The process has ended.
    Ended,
}

/// A session on a terminal.
#[derive(Clone, Copy, Debug, PartialEq, Eq, Structural)]
pub struct PtySession {
    /// Whether the client may still send bytes.
    pub stdin_open: bool,
}

impl PtySession {
    /// A session that begins.
    pub fn new() -> (r: Self)
        ensures
            r.stdin_open,
    {
        PtySession { stdin_open: true }
    }

    /// Takes an event and says what to do. The end of the input does not end the
    /// session: only its output and its process do.
    pub fn step(&mut self, event: PtyEvent) -> (r: PtyAction)
        ensures
            final(self).stdin_open == (old(self).stdin_open && event != PtyEvent::InputEnd),
            r == (match event {
                PtyEvent::Input => if old(self).stdin_open {
                    PtyAction::Write
                } else {
                    PtyAction::Continue
                },
                PtyEvent::InputEnd => PtyAction::Continue,
                PtyEvent::Output { sent } => if sent {
                    PtyAction::Continue
                } else {
                    PtyAction::HangUp
                },
                PtyEvent::OutputEnd => PtyAction::Wait,
                PtyEvent::Resize { cols, rows } => PtyAction::Resize {
                    cols: if cols == 0 {
                        1
                    } else {
                        cols
                    },
                    rows: if rows == 0 {
                        1
                    } else {
                        rows
                    },
                },
                PtyEvent::Polled { ended } => if ended {
                    PtyAction::Ended
                } else {
                    PtyAction::Continue
                },
            }),
    {
        match event {
            PtyEvent::Input => if self.stdin_open {
                PtyAction::Write
            } else {
                PtyAction::Continue
            },
            PtyEvent::InputEnd => {
                self.stdin_open = false;
                PtyAction::Continue
            },
            PtyEvent::Output { sent } => if sent {
                PtyAction::Continue
            } else {
                PtyAction::HangUp
            },
            PtyEvent::OutputEnd => PtyAction::Wait,
            PtyEvent::Resize { cols, rows } => {
                let (cols, rows) = terminal_size(cols, rows);
                PtyAction::Resize { cols, rows }
            },
            PtyEvent::Polled { ended } => if ended {
                PtyAction::Ended
            } else {
                PtyAction::Continue
            },
        }
    }
}

/// Without a chosen shell a session runs the one that `SHELL` names, or else `/bin/sh`, and on
/// Windows the first of `pwsh`, `powershell` and `cmd` that is there.
pub proof fn which_shell_a_machine_has(name: String, powershell: bool)
    ensures
        name@.len() > 0 ==> shell_of(Shells::Posix { shell: Some(name) }) == name@,
        name@.len() == 0 ==> shell_of(Shells::Posix { shell: Some(name) }) == "/bin/sh"@,
        shell_of(Shells::Posix { shell: None }) == "/bin/sh"@,
        shell_of(Shells::Windows { pwsh: true, powershell }) == "pwsh.exe"@,
        shell_of(Shells::Windows { pwsh: false, powershell: true }) == "powershell.exe"@,
        shell_of(Shells::Windows { pwsh: false, powershell: false }) == "cmd.exe"@,
{
}

/// A chosen command line that names a program is what a session runs, whatever shells the
/// machine has. One that names none, and none at all, leave it to the machine.
pub proof fn chosen_shells_are_run(line: Seq<char>, shells: Shells)
    ensures
        command_line(line).len() > 0 ==> shell_words(Some(line), shells) == command_line(line),
        command_line(line).len() == 0 ==> shell_words(Some(line), shells) == seq![shell_of(shells)],
        shell_words(None, shells) == seq![shell_of(shells)],
        shells is Posix ==> style_of(shells) == PathStyle::Posix,
        shells is Windows ==> style_of(shells) == PathStyle::Windows,
{
}

/// A shell is run with its own arguments, and a command as one argument of the shell, as the
/// client sent it, behind the option for it: `/C` where the shell is `cmd` or `cmd.exe`, in any
/// mix of capitals and small letters and in any directory, and else `-c`.
pub proof fn what_sessions_run(
    style: PathStyle,
    program: Seq<char>,
    args: Seq<Seq<char>>,
    command: String,
    pty: Option<PtyRequest>,
    name: Seq<char>,
)
    ensures
        resolved(style, seq![program] + args, SessionRequest::Shell { pty }).program == program,
        resolved(style, seq![program] + args, SessionRequest::Shell { pty }).args == args,
        resolved(style, seq![program] + args, SessionRequest::Shell { pty }).env.len() == 0,
        resolved(style, seq![program] + args, SessionRequest::Exec { command, pty }).program
            == program,
        resolved(style, seq![program] + args, SessionRequest::Exec { command, pty }).args == seq![
            flag(style, program),
            command@,
        ],
        resolved(style, seq![program] + args, SessionRequest::Exec { command, pty }).env.len() == 0,
        file_name(style, program) == Some(name) ==> (flag(style, program) == "/C"@ <==> lowered(name)
            == "cmd"@ || lowered(name) == "cmd.exe"@),
        flag(style, program) == "/C"@ || flag(style, program) == "-c"@,
{
    let shell = seq![program] + args;
    assert(shell.skip(1) =~= args);
    reveal_strlit("/C");
    reveal_strlit("-c");
    assert("/C"@[0] == '/' && "-c"@[0] == '-');
}

proof fn one_variable(name: Seq<char>, set: bool, value: Seq<char>, other: Seq<char>)
    ensures
        set ==> effective(variable(name, set, value), name) == Some(value),
        !set ==> effective(variable(name, set, value), name) is None,
        other != name ==> effective(variable(name, set, value), other) is None,
{
    let v = variable(name, set, value);
    if set {
        assert(v.last() == (name, value));
        assert(v.drop_last() =~= Seq::<(Seq<char>, Seq<char>)>::empty());
        assert(effective(v.drop_last(), other) is None);
    }
}

/// Unless the client or the command sets them, a session has the shell in `SHELL`, the kind of
/// its terminal in `TERM`, and where the server has none of its own the home directory and the
/// name of the user. Nothing else is set.
pub proof fn what_sessions_have(
    shell: Seq<char>,
    term: Option<Seq<char>>,
    client: Seq<(Seq<char>, Seq<char>)>,
    command: Seq<(Seq<char>, Seq<char>)>,
    env: ProcessEnv,
    name: Seq<char>,
)
    requires
        effective(client, name) is None,
        effective(command, name) is None,
    ensures
        effective(overrides(shell, term, client, command, env), name) == (if name == "SHELL"@ {
            Some(shell)
        } else if name == "HOME"@ {
            if env.has_home {
                None
            } else {
                option_text(env.home)
            }
        } else if name == "USER"@ {
            if env.has_user {
                None
            } else {
                option_text(env.user)
            }
        } else if name == "LOGNAME"@ {
            if env.has_logname {
                None
            } else {
                option_text(env.user)
            }
        } else if name == "TERM"@ {
            if term == Some(Seq::<char>::empty()) {
                None
            } else {
                term
            }
        } else {
            None
        }),
{
    reveal_strlit("SHELL");
    reveal_strlit("HOME");
    reveal_strlit("USER");
    reveal_strlit("LOGNAME");
    reveal_strlit("TERM");
    assert("SHELL"@.len() == 5 && "LOGNAME"@.len() == 7);
    assert("HOME"@.len() == 4 && "USER"@.len() == 4 && "TERM"@.len() == 4);
    assert("HOME"@[0] == 'H' && "USER"@[0] == 'U' && "TERM"@[0] == 'T');
    let home = option_text(env.home);
    let user = option_text(env.user);
    let a = seq![("SHELL"@, shell)];
    let b = variable("HOME"@, !env.has_home && home is Some, home->0);
    let c = variable("USER"@, !env.has_user && user is Some, user->0);
    let d = variable("LOGNAME"@, !env.has_logname && user is Some, user->0);
    let e = variable("TERM"@, term is Some && term->0.len() > 0, term->0);
    assert(a =~= variable("SHELL"@, true, shell));
    one_variable("SHELL"@, true, shell, name);
    one_variable("HOME"@, !env.has_home && home is Some, home->0, name);
    one_variable("USER"@, !env.has_user && user is Some, user->0, name);
    one_variable("LOGNAME"@, !env.has_logname && user is Some, user->0, name);
    one_variable("TERM"@, term is Some && term->0.len() > 0, term->0, name);
    effective_last(a, b, name);
    effective_last(a + b, c, name);
    effective_last(a + b + c, d, name);
    effective_last(a + b + c + d, e, name);
    effective_last(a + b + c + d + e, client, name);
    effective_last(a + b + c + d + e + client, command, name);
    if term is Some && term->0.len() == 0 {
        assert(term->0 =~= Seq::<char>::empty());
    }
}

/// The value of a variable that is set more than once is the last one.
pub proof fn the_last_value_counts(
    before: Seq<(Seq<char>, Seq<char>)>,
    name: Seq<char>,
    value: Seq<char>,
    other: Seq<char>,
)
    ensures
        effective(before.push((name, value)), name) == Some(value),
        other != name ==> effective(before.push((name, value)), other) == effective(before, other),
        effective(Seq::empty(), name) is None,
{
    assert(before.push((name, value)).drop_last() =~= before);
}

/// An exit code is told as it is, where it has a sign as 32 bits without one. A command that
/// could not be run is told as 127, and a terminal that could not be used as 1.
pub proof fn what_exit_codes_are(n: i32)
    ensures
        n >= 0 ==> unsigned(n) == n,
        n < 0 ==> unsigned(n) == 4294967296 + n,
        NOT_RUN == 127,
        NO_TERMINAL == 1,
{
}

/// The kind of a terminal is the one that the client asks for, and variables are pairs of a name
/// and a value.
pub proof fn what_clients_ask_for(p: &PtyRequest, v: Seq<(String, String)>, i: int)
    ensures
        term_of(Some(p)) == Some(p.term@),
        term_of(None) is None,
        pairs(v).len() == v.len(),
        0 <= i < v.len() ==> pairs(v)[i] == (v[i].0@, v[i].1@),
{
}

} // verus!
