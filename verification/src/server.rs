//! A server: what its settings come to, and who waits for authentication.

use crate::auth::{
    anonymous_allowed, clients_without_keys, every_inline_key_counts,
    every_line_with_a_key_counts, file_texts, files_are_taken_as_they_are, first_unread,
    inline_keys, key_views, keys_in, keys_in_all, known_keys_let_clients_in, offered, openssh_key,
    AuthConfig, AuthMethod, KeyView, MethodKind, PublicKey,
};
use crate::config::{default_config, Config, ConfigView};
use crate::error::{Error, ErrorView};
use crate::handler::{decision, Gate};
use crate::net::{IpAddr, SocketAddr};
use crate::session::{shell_words, style_of, DefaultResolver, Shells};
use crate::text::{copy_texts, lines_of, option_text, push_text, str_text, texts, trimmed};
use vstd::prelude::*;

verus! {

/// The time that a client waits for a rejection, in milliseconds.
pub const REJECTION_TIME: u64 = 250;

/// The time between two signs of life, in seconds.
pub const KEEPALIVE_INTERVAL: u64 = 30;

/// How many signs of life may stay without an answer.
pub const KEEPALIVE_MAX: usize = 3;

/// A server that can be started.
#[derive(Debug)]
pub struct Server {
    /// Who is let in.
    pub gate: Gate,
    /// The ways to authenticate that clients are offered.
    pub methods: Vec<MethodKind>,
    /// The command of a session, where nothing else decides it.
    pub resolver: DefaultResolver,
    /// Whether connections are made for clients.
    pub allow_tcp_forwarding: bool,
    /// The directory that file transfers are held to.
    pub sftp_root: Option<String>,
    /// The environment variables that a client may set.
    pub accept_env: Vec<String>,
    /// The text that a client is shown before authentication.
    pub banner: Option<String>,
    /// Where the server listens.
    pub bind: SocketAddr,
    /// The number of connections that may wait for authentication at once.
    pub max_startups: u32,
    /// The time for authentication, in seconds.
    pub login_grace: u64,
}

impl Server {
    /// A builder with the default settings.
    pub fn builder() -> (r: ServerBuilder)
        ensures
            r.config@ == default_config(),
    {
        ServerBuilder::new()
    }

    /// Where the server will listen.
    pub fn bind_addr(&self) -> (r: SocketAddr)
        ensures
            r == self.bind,
    {
        self.bind
    }
}

/// Builds a server step by step.
#[derive(Debug)]
pub struct ServerBuilder {
    pub config: Config,
}

impl ServerBuilder {
    /// A builder with the default settings.
    pub fn new() -> (r: Self)
        ensures
            r.config@ == default_config(),
    {
        ServerBuilder { config: Config::default() }
    }

    /// A builder with these settings.
    pub fn from_config(config: Config) -> (r: Self)
        ensures
            r.config == config,
    {
        ServerBuilder { config }
    }

    /// Takes other settings in place of all that were made.
    pub fn config(self, config: Config) -> (r: Self)
        ensures
            r.config == config,
    {
        ServerBuilder { config }
    }

    /// Sets the address to listen on.
    pub fn bind(self, addr: IpAddr) -> (r: Self)
        ensures
            r.config@ == (ConfigView { bind: addr, ..self.config@ }),
    {
        let mut config = self.config;
        config.bind = addr;
        ServerBuilder { config }
    }

    /// Sets the port to listen on.
    pub fn port(self, port: u16) -> (r: Self)
        ensures
            r.config@ == (ConfigView { port, ..self.config@ }),
    {
        let mut config = self.config;
        config.port = port;
        ServerBuilder { config }
    }

    /// Adds a host key file.
    pub fn host_key(self, path: &str) -> (r: Self)
        ensures
            r.config@ == (ConfigView {
                host_keys: self.config@.host_keys.push(path@),
                ..self.config@
            }),
    {
        let mut config = self.config;
        push_text(&mut config.host_keys, path);
        ServerBuilder { config }
    }

    /// Sets the passphrase of an encrypted host key.
    pub fn host_key_passphrase(self, passphrase: &str) -> (r: Self)
        ensures
            r.config@ == (ConfigView {
                host_key_passphrase: Some(passphrase@),
                ..self.config@
            }),
    {
        let mut config = self.config;
        config.host_key_passphrase = Some(passphrase.to_owned());
        ServerBuilder { config }
    }

    /// Sets the password that lets a client in.
    pub fn password(self, password: &str) -> (r: Self)
        ensures
            r.config@ == (ConfigView { password: Some(password@), ..self.config@ }),
    {
        let mut config = self.config;
        config.password = Some(password.to_owned());
        ServerBuilder { config }
    }

    /// Adds a file of public keys that let a client in.
    pub fn authorized_keys(self, path: &str) -> (r: Self)
        ensures
            r.config@ == (ConfigView {
                authorized_keys: self.config@.authorized_keys.push(path@),
                ..self.config@
            }),
    {
        let mut config = self.config;
        push_text(&mut config.authorized_keys, path);
        ServerBuilder { config }
    }

    /// Adds a public key that lets a client in.
    pub fn pubkey(self, key_line: &str) -> (r: Self)
        ensures
            r.config@ == (ConfigView {
                authorized_key_lines: self.config@.authorized_key_lines.push(key_line@),
                ..self.config@
            }),
    {
        let mut config = self.config;
        push_text(&mut config.authorized_key_lines, key_line);
        ServerBuilder { config }
    }

    /// Sets the command line of a session.
    pub fn shell(self, command_line: &str) -> (r: Self)
        ensures
            r.config@ == (ConfigView { shell: Some(command_line@), ..self.config@ }),
    {
        let mut config = self.config;
        config.shell = Some(command_line.to_owned());
        ServerBuilder { config }
    }

    /// Holds file transfers to a directory.
    pub fn sftp_root(self, dir: &str) -> (r: Self)
        ensures
            r.config@ == (ConfigView { sftp_root: Some(dir@), ..self.config@ }),
    {
        let mut config = self.config;
        config.sftp_root = Some(dir.to_owned());
        ServerBuilder { config }
    }

    /// Sets whether connections are made for clients.
    pub fn allow_tcp_forwarding(self, allow: bool) -> (r: Self)
        ensures
            r.config@ == (ConfigView { allow_tcp_forwarding: allow, ..self.config@ }),
    {
        let mut config = self.config;
        config.allow_tcp_forwarding = allow;
        ServerBuilder { config }
    }

    /// Sets the time for authentication, in seconds.
    pub fn login_grace(self, seconds: u64) -> (r: Self)
        ensures
            r.config@ == (ConfigView { login_grace_secs: seconds, ..self.config@ }),
    {
        let mut config = self.config;
        config.login_grace_secs = seconds;
        ServerBuilder { config }
    }

    /// Sets the number of connections that may wait for authentication at once.
    pub fn max_startups(self, n: u32) -> (r: Self)
        ensures
            r.config@ == (ConfigView { max_startups: n, ..self.config@ }),
    {
        let mut config = self.config;
        config.max_startups = n;
        ServerBuilder { config }
    }

    /// Sets the environment variables that a client may set.
    pub fn accept_env(self, patterns: Vec<String>) -> (r: Self)
        ensures
            r.config@ == (ConfigView { accept_env: texts(patterns@), ..self.config@ }),
    {
        let mut config = self.config;
        config.accept_env = patterns;
        ServerBuilder { config }
    }

    /// Sets the text that a client is shown before authentication.
    pub fn banner(self, banner: &str) -> (r: Self)
        ensures
            r.config@ == (ConfigView { banner: Some(banner@), ..self.config@ }),
    {
        let mut config = self.config;
        config.banner = Some(banner.to_owned());
        ServerBuilder { config }
    }

    /// Sets whether the name of the user who runs the server is accepted, and others
    /// only where they were added.
    pub fn require_current_user(self, require: bool) -> (r: Self)
        ensures
            r.config@ == (ConfigView { require_current_user: require, ..self.config@ }),
    {
        let mut config = self.config;
        config.require_current_user = require;
        ServerBuilder { config }
    }

    /// Adds a name that is accepted.
    pub fn allow_user(self, user: &str) -> (r: Self)
        ensures
            r.config@ == (ConfigView {
                allow_users: self.config@.allow_users.push(user@),
                ..self.config@
            }),
    {
        let mut config = self.config;
        push_text(&mut config.allow_users, user);
        ServerBuilder { config }
    }

    /// The settings that were made.
    pub fn current_config(&self) -> (r: &Config)
        ensures
            *r == self.config,
    {
        &self.config
    }
}

impl Default for ServerBuilder {
    fn default() -> (r: Self)
        ensures
            r.config@ == default_config(),
    {
        ServerBuilder::new()
    }
}

/// The passphrase for the host keys: that of the settings, or else that of the
/// environment.
pub fn host_passphrase(config: &Config, environment: Option<String>) -> (r: Option<String>)
    ensures
        option_text(r) == (match config@.host_key_passphrase {
            Some(p) => Some(p),
            None => option_text(environment),
        }),
{
    match &config.host_key_passphrase {
        Some(p) => Some(p.clone()),
        None => environment,
    }
}

/// The time for authentication, in seconds: 0 stands for no limit.
pub fn grace(seconds: u64) -> (r: u64)
    ensures
        r == (if seconds == 0 {
            u64::MAX / 2
        } else {
            seconds
        }),
{
    if seconds == 0 {
        u64::MAX / 2
    } else {
        seconds
    }
}

/// The names that are accepted, or the failure where the name of the user who runs the
/// server was asked for and no name is known.
pub open spec fn accepted_users(c: ConfigView, current: Option<Seq<char>>) -> Result<
    Seq<Seq<char>>,
    ErrorView,
> {
    if !c.require_current_user {
        Ok(c.allow_users)
    } else {
        match current {
            Some(user) => Ok(c.allow_users.push(user)),
            None => if c.allow_users.len() == 0 {
                Err(
                    ErrorView::Config(
                        "strict-user mode is enabled but the current OS user could not be determined (USER/LOGNAME/USERNAME are unset); pass --allow-user instead"@,
                    ),
                )
            } else {
                Ok(c.allow_users)
            },
        }
    }
}

/// The names that are accepted.
pub fn allowed_users(config: &Config, current: Option<&str>) -> (r: Result<Vec<String>, Error>)
    ensures
        r is Ok <==> accepted_users(config@, str_text(current)) is Ok,
        r matches Ok(v) ==> accepted_users(config@, str_text(current)) == Ok::<
            Seq<Seq<char>>,
            ErrorView,
        >(texts(v@)),
        r matches Err(e) ==> accepted_users(config@, str_text(current)) == Err::<
            Seq<Seq<char>>,
            ErrorView,
        >(e@),
{
    let mut users = copy_texts(&config.allow_users);
    assert(texts(users@).len() == users@.len());
    if config.require_current_user {
        match current {
            Some(user) => push_text(&mut users, user),
            None => if users.len() == 0 {
                return Err(
                    Error::Config(
                        "strict-user mode is enabled but the current OS user could not be determined (USER/LOGNAME/USERNAME are unset); pass --allow-user instead".to_owned(),
                    ),
                );
            },
        }
    }
    Ok(users)
}

/// Where the name of the user who runs the server is asked for, the names that are
/// accepted are never none: not every name is accepted.
pub proof fn strict_servers_accept_some_names_only(c: ConfigView, current: Option<Seq<char>>)
    requires
        c.require_current_user,
        accepted_users(c, current) is Ok,
    ensures
        accepted_users(c, current)->Ok_0.len() > 0,
{
}

/// What the machine gives to the making of a server.
#[derive(Debug)]
pub struct Surroundings {
    /// The number of host keys that were loaded or made.
    pub host_keys: usize,
    /// What each file of authorized keys holds, or why it could not be read.
    pub key_files: Vec<Result<String, String>>,
    /// The name of the user who runs the server.
    pub user: Option<String>,
    /// The shells of this machine.
    pub shells: Shells,
    /// Whether something else decides who is let in.
    pub has_authenticator: bool,
}

/// The failure that keeps a server from being made.
pub open spec fn build_fault(c: ConfigView, s: Surroundings) -> Option<ErrorView> {
    if s.host_keys == 0 {
        Some(ErrorView::NoHostKey)
    } else if exists|i: int| first_unread(s.key_files@, i) {
        let i = choose|i: int| first_unread(s.key_files@, i);
        Some(
            ErrorView::AuthorizedKeys {
                path: c.authorized_keys[i],
                source: file_texts(s.key_files@)[i],
            },
        )
    } else {
        match inline_keys(c.authorized_key_lines) {
            Err(e) => Some(e),
            Ok(_) => match accepted_users(c, option_text(s.user)) {
                Err(e) => Some(e),
                Ok(_) => None,
            },
        }
    }
}

/// Whether `server` is what the settings `c` come to.
pub open spec fn built_from(c: ConfigView, s: Surroundings, server: Server) -> bool {
    &&& server.gate.auth.anonymous == anonymous_allowed(c)
    &&& option_text(server.gate.auth.password) == c.password
    &&& key_views(server.gate.auth.authorized_keys@) == keys_in_all(file_texts(s.key_files@))
        + inline_keys(c.authorized_key_lines)->Ok_0
    &&& server.gate.has_hook == s.has_authenticator
    &&& texts(server.gate.allowed_users@) == accepted_users(c, option_text(s.user))->Ok_0
    &&& server.methods@ == offered(server.gate.auth, s.has_authenticator)
    &&& texts(server.resolver.shell@) == shell_words(c.shell, s.shells)
    &&& server.resolver.style == style_of(s.shells)
    &&& server.allow_tcp_forwarding == c.allow_tcp_forwarding
    &&& option_text(server.sftp_root) == c.sftp_root
    &&& texts(server.accept_env@) == c.accept_env
    &&& option_text(server.banner) == c.banner
    &&& server.bind == (SocketAddr { ip: c.bind, port: c.port, scope: 0 })
    &&& server.max_startups == c.max_startups
    &&& server.login_grace == (if c.login_grace_secs == 0 {
        u64::MAX / 2
    } else {
        c.login_grace_secs
    })
}

impl Server {
    /// The server that the settings come to, where nothing keeps it from being made.
    pub fn from_config(config: Config, s: &Surroundings) -> (r: Result<Server, Error>)
        requires
            s.key_files@.len() == config.authorized_keys@.len(),
        ensures
            r is Ok <==> build_fault(config@, *s) is None,
            r matches Ok(server) ==> built_from(config@, *s, server),
            r matches Err(e) ==> build_fault(config@, *s) == Some(e@),
    {
        ServerBuilder::from_config(config).build(s)
    }
}

impl ServerBuilder {
    /// Makes the server, where nothing keeps it from being made.
    pub fn build(self, s: &Surroundings) -> (r: Result<Server, Error>)
        requires
            s.key_files@.len() == self.config.authorized_keys@.len(),
        ensures
            r is Ok <==> build_fault(self.config@, *s) is None,
            r matches Ok(server) ==> built_from(self.config@, *s, server),
            r matches Err(e) ==> build_fault(self.config@, *s) == Some(e@),
    {
        let ghost c = self.config@;
        if s.host_keys == 0 {
            return Err(Error::NoHostKey);
        }
        let auth = match AuthConfig::from_config(&self.config, &s.key_files) {
            Ok(a) => a,
            Err(e) => return Err(e),
        };
        let methods = auth.method_set(s.has_authenticator);
        let user = match &s.user {
            Some(u) => Some(u.as_str()),
            None => None,
        };
        let users = match allowed_users(&self.config, user) {
            Ok(u) => u,
            Err(e) => return Err(e),
        };
        let config = self.config;
        let shell = match &config.shell {
            Some(line) => Some(line.as_str()),
            None => None,
        };
        let resolver = DefaultResolver::new(shell, &s.shells);
        Ok(
            Server {
                gate: Gate { auth, allowed_users: users, has_hook: s.has_authenticator },
                methods,
                resolver,
                allow_tcp_forwarding: config.allow_tcp_forwarding,
                sftp_root: config.sftp_root,
                accept_env: config.accept_env,
                banner: config.banner,
                bind: SocketAddr { ip: config.bind, port: config.port, scope: 0 },
                max_startups: config.max_startups,
                login_grace: grace(config.login_grace_secs),
            },
        )
    }
}

/// The connections that wait for authentication.
#[derive(Clone, Copy, Debug, PartialEq, Eq, Structural)]
pub struct Startups {
    pub limit: u32,
    pub waiting: u32,
}

impl Startups {
    /// Whether no more connections wait than may.
    pub open spec fn wf(self) -> bool {
        1 <= self.limit && self.waiting <= self.limit
    }

    /// No connection waits. At least one always may.
    pub fn new(max_startups: u32) -> (r: Self)
        ensures
            r.wf(),
            r.waiting == 0,
            r.limit == (if max_startups == 0 {
                1
            } else {
                max_startups
            }),
    {
        Startups {
            limit: if max_startups == 0 {
                1
            } else {
                max_startups
            },
            waiting: 0,
        }
    }

    /// Takes another connection, where one more may wait.
    pub fn begin(&mut self) -> (r: bool)
        requires
            old(self).wf(),
        ensures
            final(self).wf(),
            final(self).limit == old(self).limit,
            r == (old(self).waiting < old(self).limit),
            final(self).waiting == old(self).waiting + (if r {
                1int
            } else {
                0int
            }),
    {
        if self.waiting < self.limit {
            self.waiting = self.waiting + 1;
            true
        } else {
            false
        }
    }

    /// Lets a connection go, which was let in or has ended.
    pub fn end(&mut self)
        requires
            old(self).wf(),
            old(self).waiting > 0,
        ensures
            final(self).wf(),
            final(self).limit == old(self).limit,
            final(self).waiting == old(self).waiting - 1,
    {
        self.waiting = self.waiting - 1;
    }
}

/// What becomes of a connection when the time for authentication is over.
#[derive(Clone, Copy, Debug, PartialEq, Eq, Structural)]
pub enum AfterGrace {
    /// It goes on.
    Continue,
    /// It is closed.
    Close,
}

/// What becomes of a connection when the time for authentication is over: only a client
/// that was let in stays.
pub fn handle_connection(authed: bool) -> (r: AfterGrace)
    ensures
        r == AfterGrace::Continue <==> authed,
{
    if authed {
        AfterGrace::Continue
    } else {
        AfterGrace::Close
    }
}

/// The names that are accepted are those of the settings and, where it is asked for, that of the
/// user who runs the server. Where that is not known, the others are enough, and without any no
/// server is made.
pub proof fn which_users_are_accepted(c: ConfigView, current: Seq<char>)
    ensures
        !c.require_current_user ==> accepted_users(c, Some(current)) == Ok::<
            Seq<Seq<char>>,
            ErrorView,
        >(c.allow_users),
        !c.require_current_user ==> accepted_users(c, None) == Ok::<Seq<Seq<char>>, ErrorView>(
            c.allow_users,
        ),
        c.require_current_user ==> accepted_users(c, Some(current)) == Ok::<
            Seq<Seq<char>>,
            ErrorView,
        >(c.allow_users.push(current)),
        c.require_current_user && c.allow_users.len() > 0 ==> accepted_users(c, None) == Ok::<
            Seq<Seq<char>>,
            ErrorView,
        >(c.allow_users),
        c.require_current_user && c.allow_users.len() == 0 ==> accepted_users(c, None) is Err,
{
}

/// A server that is made has every setting as it was made: where it listens, what it shows, what
/// it accepts, and how long it waits, without end where that is 0.
pub proof fn servers_follow_their_settings(c: ConfigView, s: Surroundings, server: Server)
    requires
        built_from(c, s, server),
    ensures
        server.bind.ip == c.bind,
        server.bind.port == c.port,
        server.bind.scope == 0,
        server.max_startups == c.max_startups,
        c.login_grace_secs > 0 ==> server.login_grace == c.login_grace_secs,
        c.login_grace_secs == 0 ==> server.login_grace == u64::MAX / 2,
        server.allow_tcp_forwarding == c.allow_tcp_forwarding,
        option_text(server.sftp_root) == c.sftp_root,
        option_text(server.banner) == c.banner,
        texts(server.accept_env@) == c.accept_env,
        option_text(server.gate.auth.password) == c.password,
        server.gate.has_hook == s.has_authenticator,
        !c.require_current_user ==> texts(server.gate.allowed_users@) == c.allow_users,
        c.require_current_user && s.user is Some ==> texts(server.gate.allowed_users@)
            == c.allow_users.push(s.user->0@),
        REJECTION_TIME == 250,
        KEEPALIVE_INTERVAL == 30,
        KEEPALIVE_MAX == 3,
{
}

/// A server that is made lets in, under a name that it accepts and where nothing else decides:
/// anyone where that is allowed and nothing asks for proof, whoever knows the password, and
/// whoever has a key that stands on a line of one of the files of keys or in the settings, on
/// whichever line it stands.
pub proof fn servers_let_in_whom_their_settings_name(
    c: ConfigView,
    s: Surroundings,
    server: Server,
    user: Seq<char>,
    password: String,
    key: PublicKey,
)
    requires
        built_from(c, s, server),
        inline_keys(c.authorized_key_lines) is Ok,
        server.gate.allowed_users@.len() == 0,
    ensures
        decision(server.gate, user, AuthMethod::Anonymous, None) is Accept <==> c.allow_anonymous
            && c.password is None && c.authorized_keys.len() == 0 && c.authorized_key_lines.len()
            == 0,
        decision(server.gate, user, AuthMethod::Password(password), None) is Accept <==> c.password
            == Some(password@),
        forall|f: int, i: int, k: KeyView|
            0 <= f < s.key_files@.len() && s.key_files@[f] is Ok && 0 <= i < lines_of(
                s.key_files@[f]->Ok_0@,
            ).len() && trimmed(lines_of(s.key_files@[f]->Ok_0@)[i]).len() > 0 && trimmed(
                lines_of(s.key_files@[f]->Ok_0@)[i],
            )[0] != '#' && #[trigger] openssh_key(trimmed(lines_of(s.key_files@[f]->Ok_0@)[i])) == Ok::<
                KeyView,
                Seq<char>,
            >(k) && #[trigger] k.data == key.data@ ==> decision(
                server.gate,
                user,
                AuthMethod::PublicKey(key),
                None,
            ) is Accept,
        forall|i: int, k: KeyView|
            0 <= i < c.authorized_key_lines.len() && openssh_key(
                trimmed(#[trigger] c.authorized_key_lines[i]),
            ) == Ok::<KeyView, Seq<char>>(k) && #[trigger] k.data == key.data@ ==> decision(
                server.gate,
                user,
                AuthMethod::PublicKey(key),
                None,
            ) is Accept,
{
    let a = server.gate.auth;
    let files = file_texts(s.key_files@);
    let inline = inline_keys(c.authorized_key_lines)->Ok_0;
    assert(texts(server.gate.allowed_users@).len() == 0);
    clients_without_keys(c, a, password);
    known_keys_let_clients_in(a, files, inline, key);
    every_inline_key_counts(c.authorized_key_lines, 0);
    assert forall|f: int, i: int, k: KeyView|
        0 <= f < s.key_files@.len() && s.key_files@[f] is Ok && 0 <= i < lines_of(
            s.key_files@[f]->Ok_0@,
        ).len() && trimmed(lines_of(s.key_files@[f]->Ok_0@)[i]).len() > 0 && trimmed(
            lines_of(s.key_files@[f]->Ok_0@)[i],
        )[0] != '#' && #[trigger] openssh_key(trimmed(lines_of(s.key_files@[f]->Ok_0@)[i])) == Ok::<
            KeyView,
            Seq<char>,
        >(k) && #[trigger] k.data == key.data@ implies decision(
        server.gate,
        user,
        AuthMethod::PublicKey(key),
        None,
    ) is Accept by {
        files_are_taken_as_they_are(s.key_files@, f);
        every_line_with_a_key_counts(files[f], k);
        assert(trimmed(lines_of(files[f])[i]).len() > 0);
        assert(keys_in(files[f]).contains(k));
    }
    assert forall|i: int, k: KeyView|
        0 <= i < c.authorized_key_lines.len() && openssh_key(
            trimmed(#[trigger] c.authorized_key_lines[i]),
        ) == Ok::<KeyView, Seq<char>>(k) && #[trigger] k.data == key.data@ implies decision(
        server.gate,
        user,
        AuthMethod::PublicKey(key),
        None,
    ) is Accept by {
        assert(inline[i] == k);
    }
}

/// A server is made exactly where there is a host key, every file of keys could be read, every
/// key of the settings is one, and some name is accepted.
pub proof fn when_servers_are_made(c: ConfigView, s: Surroundings)
    ensures
        build_fault(c, s) is None <==> s.host_keys > 0 && (forall|i: int|
            0 <= i < s.key_files@.len() ==> #[trigger] s.key_files@[i] is Ok) && (forall|i: int|
            0 <= i < c.authorized_key_lines.len() ==> openssh_key(
                trimmed(#[trigger] c.authorized_key_lines[i]),
            ) is Ok) && !(c.require_current_user && s.user is None && c.allow_users.len() == 0),
        s.host_keys == 0 ==> build_fault(c, s) == Some(ErrorView::NoHostKey),
{
    every_inline_key_counts(c.authorized_key_lines, 0);
    if exists|i: int| 0 <= i < s.key_files@.len() && !(#[trigger] s.key_files@[i] is Ok) {
        let i = choose|i: int| 0 <= i < s.key_files@.len() && !(#[trigger] s.key_files@[i] is Ok);
        let k = first_of_the_unread(s.key_files@, i);
        assert(first_unread(s.key_files@, k));
    }
}

proof fn first_of_the_unread(files: Seq<Result<String, String>>, i: int) -> (k: int)
    requires
        0 <= i < files.len(),
        files[i] is Err,
    ensures
        first_unread(files, k),
    decreases i,
{
    if exists|j: int| 0 <= j < i && files[j] is Err {
        let j = choose|j: int| 0 <= j < i && files[j] is Err;
        first_of_the_unread(files, j)
    } else {
        i
    }
}

} // verus!
