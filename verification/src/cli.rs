//! The command line: what its options make of the settings, and what is kept of them
//! for the next start.

use crate::config::{
    dev_tunnel_fault, parse_tunnel_timeout, timeout, Config, ConfigView, DevTunnelConfig,
    DevTunnelView,
};
use crate::error::{error_text, ErrorView};
use crate::net::{ip_text, IpAddr};
use crate::number::{self, decimal, digits, digits_are_read, number_up_to, numbers_are_read};
use crate::paths::{
    absolute, file_name, find_file_name, is_absolute, join_path, placed, PathStyle,
};
use crate::text::{
    append_texts, chars, copy_texts, digit, find_last_char, last_char, last_char_bounds,
    option_text, push_text, same, str_text, text, texts, trim, trimmed,
};
use vstd::prelude::*;

verus! {

/// The options of the command line.
#[derive(Debug)]
pub struct Args {
    /// The port to listen on.
    pub port: Option<u16>,
    /// Host key files.
    pub host_key: Vec<String>,
    /// The configuration file.
    pub config: Option<String>,
    /// Read no configuration file.
    pub no_config: bool,
    /// The file that logs are written to.
    pub log_file: Option<String>,
    /// Log for debugging.
    pub debug: bool,
    /// The same as `debug`.
    pub verbose: bool,
    /// Log errors only.
    pub quiet: bool,
    /// The address to listen on.
    pub bind: Option<IpAddr>,
    /// The passphrase of an encrypted host key.
    pub host_key_passphrase: Option<String>,
    /// The password that lets a client in.
    pub password: Option<String>,
    /// Files of public keys that let a client in.
    pub authorized_keys: Vec<String>,
    /// Public keys that let a client in.
    pub pubkey: Vec<String>,
    /// The command line of a session.
    pub shell: Option<String>,
    /// The directory that file transfers are held to.
    pub sftp_root: Option<String>,
    /// Accept the name of the user who runs the server.
    pub strict_user: bool,
    /// The names of users that are accepted.
    pub allow_user: Vec<String>,
    /// Make no connections for clients.
    pub no_forward: bool,
    /// The time for authentication, in seconds.
    pub login_grace: Option<u64>,
    /// The number of connections that may wait for authentication at once.
    pub max_startups: Option<u32>,
    /// Host a tunnel.
    pub devtunnel_enable: bool,
    /// Host no tunnel, whatever the configuration file says.
    pub devtunnel_disable: bool,
    /// The tunnel.
    pub devtunnel_id: Option<String>,
    /// Labels of the tunnel.
    pub devtunnel_label: Vec<String>,
    /// The path of the tunnel program.
    pub devtunnel_bin: Option<String>,
    /// Create a missing tunnel and port.
    pub devtunnel_auto_create: bool,
    /// The time for one attempt at the setup of the tunnel.
    pub devtunnel_timeout: Option<String>,
}

/// Whether no option is given.
pub open spec fn no_options(a: Args) -> bool {
    &&& a.port is None
    &&& a.host_key@.len() == 0
    &&& a.config is None
    &&& !a.no_config
    &&& a.log_file is None
    &&& !a.debug
    &&& !a.verbose
    &&& !a.quiet
    &&& a.bind is None
    &&& a.host_key_passphrase is None
    &&& a.password is None
    &&& a.authorized_keys@.len() == 0
    &&& a.pubkey@.len() == 0
    &&& a.shell is None
    &&& a.sftp_root is None
    &&& !a.strict_user
    &&& a.allow_user@.len() == 0
    &&& !a.no_forward
    &&& a.login_grace is None
    &&& a.max_startups is None
    &&& !a.devtunnel_enable
    &&& !a.devtunnel_disable
    &&& a.devtunnel_id is None
    &&& a.devtunnel_label@.len() == 0
    &&& a.devtunnel_bin is None
    &&& !a.devtunnel_auto_create
    &&& a.devtunnel_timeout is None
}

impl Default for Args {
    fn default() -> (r: Self)
        ensures
            no_options(r),
    {
        Args {
            port: None,
            host_key: Vec::new(),
            config: None,
            no_config: false,
            log_file: None,
            debug: false,
            verbose: false,
            quiet: false,
            bind: None,
            host_key_passphrase: None,
            password: None,
            authorized_keys: Vec::new(),
            pubkey: Vec::new(),
            shell: None,
            sftp_root: None,
            strict_user: false,
            allow_user: Vec::new(),
            no_forward: false,
            login_grace: None,
            max_startups: None,
            devtunnel_enable: false,
            devtunnel_disable: false,
            devtunnel_id: None,
            devtunnel_label: Vec::new(),
            devtunnel_bin: None,
            devtunnel_auto_create: false,
            devtunnel_timeout: None,
        }
    }
}

/// The value given by an option, or else the one there was before.
pub open spec fn given<T>(option: Option<T>, before: T) -> T {
    match option {
        Some(v) => v,
        None => before,
    }
}

/// The text given by an option, or else the one there was before.
pub open spec fn given_text(option: Option<String>, before: Option<Seq<char>>) -> Option<Seq<char>> {
    match option {
        Some(v) => Some(v@),
        None => before,
    }
}

/// The texts given by an option, or else those there were before.
pub open spec fn given_texts(option: Vec<String>, before: Seq<Seq<char>>) -> Seq<Seq<char>> {
    if option@.len() > 0 {
        texts(option@)
    } else {
        before
    }
}

/// The settings of the tunnel `d` with the options of `a` over them.
pub open spec fn tunnel_with_options(d: DevTunnelView, a: Args) -> DevTunnelView {
    DevTunnelView {
        enabled: !a.devtunnel_disable && (a.devtunnel_enable || d.enabled),
        id: given_text(a.devtunnel_id, d.id),
        labels: given_texts(a.devtunnel_label, d.labels),
        bin: given_text(a.devtunnel_bin, d.bin),
        auto_create: a.devtunnel_auto_create || d.auto_create,
        timeout_secs: match a.devtunnel_timeout {
            Some(t) => timeout(t@)->0 as u64,
            None => d.timeout_secs,
        },
    }
}

/// The settings `c` with the options of `a` over them. Keys and names of users are
/// added to those of `c`; everything else that is given takes the place of what `c`
/// has.
pub open spec fn with_options(c: ConfigView, a: Args) -> ConfigView {
    ConfigView {
        dev_tunnel: tunnel_with_options(c.dev_tunnel, a),
        port: given(a.port, c.port),
        bind: given(a.bind, c.bind),
        host_keys: given_texts(a.host_key, c.host_keys),
        host_key_passphrase: given_text(a.host_key_passphrase, c.host_key_passphrase),
        password: given_text(a.password, c.password),
        authorized_keys: c.authorized_keys + texts(a.authorized_keys@),
        authorized_key_lines: c.authorized_key_lines + texts(a.pubkey@),
        shell: given_text(a.shell, c.shell),
        sftp_root: given_text(a.sftp_root, c.sftp_root),
        require_current_user: a.strict_user || c.require_current_user,
        allow_users: c.allow_users + texts(a.allow_user@),
        allow_tcp_forwarding: !a.no_forward && c.allow_tcp_forwarding,
        login_grace_secs: given(a.login_grace, c.login_grace_secs),
        max_startups: given(a.max_startups, c.max_startups),
        ..c
    }
}

/// The message about options that exclude each other.
pub open spec fn conflict(a: Args) -> Option<Seq<char>> {
    if a.config is Some && a.no_config {
        Some("--config and --no-config cannot be used together"@)
    } else if a.devtunnel_enable && a.devtunnel_disable {
        Some("--devtunnel-enable and --devtunnel-disable cannot be used together"@)
    } else {
        None
    }
}

/// The settings of the server: the options of `a` over `c`, which a configuration file
/// gave or which are the defaults. Or the message about what is wrong with them.
pub open spec fn built(c: ConfigView, a: Args) -> Result<ConfigView, Seq<char>> {
    if conflict(a) is Some {
        Err(conflict(a)->0)
    } else if a.devtunnel_timeout is Some && timeout(a.devtunnel_timeout->0@) is None {
        Err("timeout must be a positive duration such as 30s or 2m"@)
    } else {
        let all = with_options(c, a);
        match dev_tunnel_fault(all.dev_tunnel) {
            Some(message) => Err(error_text(ErrorView::Config(message))),
            None => Ok(all),
        }
    }
}

/// Checks that no options exclude each other.
pub fn check_options(a: &Args) -> (r: Result<(), String>)
    ensures
        r is Ok <==> conflict(*a) is None,
        r matches Err(m) ==> conflict(*a) == Some(m@),
{
    if a.config.is_some() && a.no_config {
        return Err("--config and --no-config cannot be used together".to_owned());
    }
    if a.devtunnel_enable && a.devtunnel_disable {
        return Err("--devtunnel-enable and --devtunnel-disable cannot be used together".to_owned());
    }
    Ok(())
}

fn pick_text(option: &Option<String>, before: Option<String>) -> (r: Option<String>)
    ensures
        option_text(r) == given_text(*option, option_text(before)),
{
    match option {
        Some(v) => Some(v.clone()),
        None => before,
    }
}

fn pick_texts(option: &Vec<String>, before: Vec<String>) -> (r: Vec<String>)
    ensures
        texts(r@) == given_texts(*option, texts(before@)),
{
    if option.len() > 0 {
        copy_texts(option)
    } else {
        before
    }
}

fn add_texts(before: Vec<String>, more: &Vec<String>) -> (r: Vec<String>)
    ensures
        texts(r@) == texts(before@) + texts(more@),
{
    let mut r = before;
    append_texts(&mut r, copy_texts(more));
    r
}

/// The settings of the tunnel `d` with the options of `a` over them.
fn build_tunnel(a: &Args, d: DevTunnelConfig) -> (r: Result<DevTunnelConfig, String>)
    requires
        conflict(*a) is None,
    ensures
        r is Err <==> a.devtunnel_timeout is Some && timeout(a.devtunnel_timeout->0@) is None,
        r matches Ok(t) ==> t@ == tunnel_with_options(d@, *a),
        r matches Err(m) ==> m@ == "timeout must be a positive duration such as 30s or 2m"@,
{
    let timeout_secs: u64 = match &a.devtunnel_timeout {
        Some(t) => match parse_tunnel_timeout(t.as_str()) {
            Ok(n) => n,
            Err(m) => return Err(m),
        },
        None => d.timeout_secs,
    };
    Ok(
        DevTunnelConfig {
            enabled: !a.devtunnel_disable && (a.devtunnel_enable || d.enabled),
            id: pick_text(&a.devtunnel_id, d.id),
            labels: pick_texts(&a.devtunnel_label, d.labels),
            bin: pick_text(&a.devtunnel_bin, d.bin),
            auto_create: a.devtunnel_auto_create || d.auto_create,
            timeout_secs,
        },
    )
}

/// The settings of the server: the options over `file`, which a configuration file
/// gave or which are the defaults.
pub fn build_config(a: &Args, file: Config) -> (r: Result<Config, String>)
    ensures
        r is Ok <==> built(file@, *a) is Ok,
        r matches Ok(c) ==> built(file@, *a) == Ok::<ConfigView, Seq<char>>(c@),
        r matches Err(m) ==> built(file@, *a) == Err::<ConfigView, Seq<char>>(m@),
{
    match check_options(a) {
        Ok(_) => {},
        Err(m) => return Err(m),
    }
    let dev_tunnel = match build_tunnel(a, file.dev_tunnel) {
        Ok(d) => d,
        Err(m) => return Err(m),
    };
    let c = Config {
        dev_tunnel,
        bind: a.bind.unwrap_or(file.bind),
        port: a.port.unwrap_or(file.port),
        host_keys: pick_texts(&a.host_key, file.host_keys),
        host_key_passphrase: pick_text(&a.host_key_passphrase, file.host_key_passphrase),
        password: pick_text(&a.password, file.password),
        authorized_keys: add_texts(file.authorized_keys, &a.authorized_keys),
        authorized_key_lines: add_texts(file.authorized_key_lines, &a.pubkey),
        allow_anonymous: file.allow_anonymous,
        shell: pick_text(&a.shell, file.shell),
        sftp_root: pick_text(&a.sftp_root, file.sftp_root),
        allow_tcp_forwarding: !a.no_forward && file.allow_tcp_forwarding,
        login_grace_secs: a.login_grace.unwrap_or(file.login_grace_secs),
        max_startups: a.max_startups.unwrap_or(file.max_startups),
        accept_env: file.accept_env,
        banner: file.banner,
        require_current_user: a.strict_user || file.require_current_user,
        allow_users: add_texts(file.allow_users, &a.allow_user),
    };
    assert(c@ == with_options(file@, *a));
    match c.validate_dev_tunnel() {
        Ok(_) => Ok(c),
        Err(e) => Err(e.to_string()),
    }
}

/// Without options the settings of the configuration file stand.
pub proof fn no_options_keep_the_file(c: ConfigView, a: Args)
    requires
        no_options(a),
        dev_tunnel_fault(c.dev_tunnel) is None,
    ensures
        built(c, a) == Ok::<ConfigView, Seq<char>>(c),
{
    assert(with_options(c, a).dev_tunnel =~= c.dev_tunnel);
    assert(with_options(c, a) =~= c);
}

/// Whatever the configuration file says, labels on the command line take the place of
/// its labels, and `--devtunnel-disable` switches hosting off.
pub proof fn options_win(c: ConfigView, a: Args)
    requires
        built(c, a) is Ok,
    ensures
        a.devtunnel_label@.len() > 0 ==> built(c, a)->Ok_0.dev_tunnel.labels == texts(
            a.devtunnel_label@,
        ),
        a.devtunnel_disable ==> !built(c, a)->Ok_0.dev_tunnel.enabled,
        a.devtunnel_enable ==> built(c, a)->Ok_0.dev_tunnel.enabled,
        a.port is Some ==> built(c, a)->Ok_0.port == a.port->0,
        a.bind is Some ==> built(c, a)->Ok_0.bind == a.bind->0,
        a.no_forward ==> !built(c, a)->Ok_0.allow_tcp_forwarding,
{
}

/// Whatever the configuration file says, every option with a value of its own that is given is
/// the setting.
pub proof fn given_options_are_the_settings(c: ConfigView, a: Args)
    requires
        built(c, a) is Ok,
    ensures
        a.port matches Some(v) ==> built(c, a)->Ok_0.port == v,
        a.bind matches Some(v) ==> built(c, a)->Ok_0.bind == v,
        a.shell matches Some(v) ==> built(c, a)->Ok_0.shell == Some(v@),
        a.password matches Some(v) ==> built(c, a)->Ok_0.password == Some(v@),
        a.host_key_passphrase matches Some(v) ==> built(c, a)->Ok_0.host_key_passphrase == Some(v@),
        a.sftp_root matches Some(v) ==> built(c, a)->Ok_0.sftp_root == Some(v@),
        a.login_grace matches Some(v) ==> built(c, a)->Ok_0.login_grace_secs == v,
        a.max_startups matches Some(v) ==> built(c, a)->Ok_0.max_startups == v,
        a.devtunnel_id matches Some(v) ==> built(c, a)->Ok_0.dev_tunnel.id == Some(v@),
        a.devtunnel_bin matches Some(v) ==> built(c, a)->Ok_0.dev_tunnel.bin == Some(v@),
        a.devtunnel_timeout matches Some(v) ==> timeout(v@) == Some(
            built(c, a)->Ok_0.dev_tunnel.timeout_secs as nat,
        ),
{
}

/// Of the options that may be given more than once, host keys and the labels of the tunnel take
/// the place of those of the configuration file.
pub proof fn given_lists_are_the_settings(c: ConfigView, a: Args)
    requires
        built(c, a) is Ok,
    ensures
        a.host_key@.len() > 0 ==> built(c, a)->Ok_0.host_keys.len() == a.host_key@.len(),
        forall|i: int|
            0 <= i < a.host_key@.len() ==> (#[trigger] built(c, a)->Ok_0.host_keys[i])
                == a.host_key@[i]@,
        a.devtunnel_label@.len() > 0 ==> built(c, a)->Ok_0.dev_tunnel.labels.len()
            == a.devtunnel_label@.len(),
        forall|i: int|
            0 <= i < a.devtunnel_label@.len() ==> (#[trigger] built(
                c,
                a,
            )->Ok_0.dev_tunnel.labels[i]) == a.devtunnel_label@[i]@,
{
}

proof fn both_lists(before: Seq<Seq<char>>, more: Seq<String>, all: Seq<Seq<char>>)
    requires
        all == before + texts(more),
    ensures
        one_behind_the_other(before, more, all),
{
}

/// Whether `all` holds the texts of `before` and behind them those of `more`.
pub open spec fn one_behind_the_other(
    before: Seq<Seq<char>>,
    more: Seq<String>,
    all: Seq<Seq<char>>,
) -> bool {
    &&& all.len() == before.len() + more.len()
    &&& forall|i: int| 0 <= i < before.len() ==> #[trigger] all[i] == before[i]
    &&& forall|i: int| 0 <= i < more.len() ==> all[before.len() + i] == (#[trigger] more[i])@
}

/// Keys, files of keys and names of users that are given stand behind those of the
/// configuration file, of which none is lost.
pub proof fn keys_and_names_are_added(c: ConfigView, a: Args)
    requires
        built(c, a) is Ok,
    ensures
        one_behind_the_other(
            c.authorized_keys,
            a.authorized_keys@,
            built(c, a)->Ok_0.authorized_keys,
        ),
        one_behind_the_other(
            c.authorized_key_lines,
            a.pubkey@,
            built(c, a)->Ok_0.authorized_key_lines,
        ),
        one_behind_the_other(c.allow_users, a.allow_user@, built(c, a)->Ok_0.allow_users),
{
    let r = built(c, a)->Ok_0;
    both_lists(c.authorized_keys, a.authorized_keys@, r.authorized_keys);
    both_lists(c.authorized_key_lines, a.pubkey@, r.authorized_key_lines);
    both_lists(c.allow_users, a.allow_user@, r.allow_users);
}

/// A switch changes one setting where it is given, and nothing where it is not.
pub proof fn switches_change_their_settings(c: ConfigView, a: Args)
    requires
        built(c, a) is Ok,
    ensures
        a.strict_user ==> built(c, a)->Ok_0.require_current_user,
        !a.strict_user ==> built(c, a)->Ok_0.require_current_user == c.require_current_user,
        a.no_forward ==> !built(c, a)->Ok_0.allow_tcp_forwarding,
        !a.no_forward ==> built(c, a)->Ok_0.allow_tcp_forwarding == c.allow_tcp_forwarding,
        a.devtunnel_auto_create ==> built(c, a)->Ok_0.dev_tunnel.auto_create,
        !a.devtunnel_auto_create ==> built(c, a)->Ok_0.dev_tunnel.auto_create
            == c.dev_tunnel.auto_create,
        a.devtunnel_enable ==> built(c, a)->Ok_0.dev_tunnel.enabled,
        a.devtunnel_disable ==> !built(c, a)->Ok_0.dev_tunnel.enabled,
        !a.devtunnel_enable && !a.devtunnel_disable ==> built(c, a)->Ok_0.dev_tunnel.enabled
            == c.dev_tunnel.enabled,
{
}

/// Each setting whose option is not given is that of the configuration file, whatever other
/// options are given.
pub proof fn other_settings_stay(c: ConfigView, a: Args)
    requires
        built(c, a) is Ok,
    ensures
        a.port is None ==> built(c, a)->Ok_0.port == c.port,
        a.bind is None ==> built(c, a)->Ok_0.bind == c.bind,
        a.shell is None ==> built(c, a)->Ok_0.shell == c.shell,
        a.password is None ==> built(c, a)->Ok_0.password == c.password,
        a.host_key_passphrase is None ==> built(c, a)->Ok_0.host_key_passphrase
            == c.host_key_passphrase,
        a.sftp_root is None ==> built(c, a)->Ok_0.sftp_root == c.sftp_root,
        a.login_grace is None ==> built(c, a)->Ok_0.login_grace_secs == c.login_grace_secs,
        a.max_startups is None ==> built(c, a)->Ok_0.max_startups == c.max_startups,
        a.host_key@.len() == 0 ==> built(c, a)->Ok_0.host_keys == c.host_keys,
        a.devtunnel_id is None ==> built(c, a)->Ok_0.dev_tunnel.id == c.dev_tunnel.id,
        a.devtunnel_bin is None ==> built(c, a)->Ok_0.dev_tunnel.bin == c.dev_tunnel.bin,
        a.devtunnel_label@.len() == 0 ==> built(c, a)->Ok_0.dev_tunnel.labels
            == c.dev_tunnel.labels,
        a.devtunnel_timeout is None ==> built(c, a)->Ok_0.dev_tunnel.timeout_secs
            == c.dev_tunnel.timeout_secs,
        built(c, a)->Ok_0.allow_anonymous == c.allow_anonymous,
        built(c, a)->Ok_0.accept_env == c.accept_env,
        built(c, a)->Ok_0.banner == c.banner,
{
}

/// Options are refused exactly where a configuration file is both given and declined, hosting
/// is both asked for and declined, the timeout of the tunnel is none, or something is wrong
/// with the settings of the tunnel that they make.
pub proof fn options_are_refused(c: ConfigView, a: Args)
    ensures
        a.config is Some && a.no_config ==> built(c, a) == Err::<ConfigView, Seq<char>>(
            "--config and --no-config cannot be used together"@,
        ),
        !(a.config is Some && a.no_config) && a.devtunnel_enable && a.devtunnel_disable ==> built(
            c,
            a,
        ) == Err::<ConfigView, Seq<char>>(
            "--devtunnel-enable and --devtunnel-disable cannot be used together"@,
        ),
        a.devtunnel_timeout is Some && timeout(a.devtunnel_timeout->0@) is None ==> built(
            c,
            a,
        ) is Err,
        !(a.config is Some && a.no_config) && !(a.devtunnel_enable && a.devtunnel_disable) && (
        a.devtunnel_timeout is Some ==> timeout(a.devtunnel_timeout->0@) is Some)
            && dev_tunnel_fault(tunnel_with_options(c.dev_tunnel, a)) is None ==> built(c, a) is Ok,
        built(c, a) is Ok ==> dev_tunnel_fault(built(c, a)->Ok_0.dev_tunnel) is None,
{
}

/// A switch, where it is on.
pub open spec fn switch(name: Seq<char>, on: bool) -> Seq<Seq<char>> {
    if on {
        seq![name]
    } else {
        Seq::empty()
    }
}

/// An option and its value, where it has one.
pub open spec fn option(name: Seq<char>, value: Option<Seq<char>>) -> Seq<Seq<char>> {
    match value {
        Some(v) => seq![name, v],
        None => Seq::empty(),
    }
}

/// An option once for each of its values.
pub open spec fn each_option(name: Seq<char>, values: Seq<Seq<char>>) -> Seq<Seq<char>>
    decreases values.len(),
{
    if values.len() == 0 {
        Seq::empty()
    } else {
        each_option(name, values.drop_last()) + seq![name, values.last()]
    }
}

/// Paths as seen from the directory `cwd`.
pub open spec fn placed_all(style: PathStyle, cwd: Seq<char>, paths: Seq<Seq<char>>) -> Seq<Seq<char>> {
    Seq::new(paths.len(), |i: int| placed(style, cwd, paths[i]))
}

/// An optional path as seen from the directory `cwd`.
pub open spec fn placed_option(style: PathStyle, cwd: Seq<char>, path: Option<String>) -> Option<
    Seq<char>,
> {
    match path {
        Some(p) => Some(placed(style, cwd, p@)),
        None => None,
    }
}

/// The digits of an optional number.
pub open spec fn digits_option(n: Option<u64>) -> Option<Seq<char>> {
    match n {
        Some(k) => Some(digits(k as nat)),
        None => None,
    }
}

/// The texts of `before`, and behind them the options about the tunnel that are kept for the
/// next start.
pub open spec fn saved_tunnel_options(
    style: PathStyle,
    before: Seq<Seq<char>>,
    a: Args,
    cwd: Seq<char>,
) -> Seq<Seq<char>> {
    before + switch("--devtunnel-enable"@, a.devtunnel_enable) + switch(
        "--devtunnel-disable"@,
        a.devtunnel_disable,
    ) + option("--devtunnel-id"@, option_text(a.devtunnel_id)) + each_option(
        "--devtunnel-label"@,
        texts(a.devtunnel_label@),
    ) + option("--devtunnel-bin"@, placed_option(style, cwd, a.devtunnel_bin)) + switch(
        "--devtunnel-auto-create"@,
        a.devtunnel_auto_create,
    ) + option("--devtunnel-timeout"@, option_text(a.devtunnel_timeout))
}

/// The texts of `before`, and behind them the options about files and logs that are kept for the
/// next start.
pub open spec fn saved_file_options(
    style: PathStyle,
    before: Seq<Seq<char>>,
    a: Args,
    cwd: Seq<char>,
) -> Seq<Seq<char>> {
    before + option(
        "--port"@,
        match a.port {
            Some(n) => Some(digits(n as nat)),
            None => None,
        },
    ) + each_option("--host-key"@, placed_all(style, cwd, texts(a.host_key@))) + option(
        "--config"@,
        placed_option(style, cwd, a.config),
    ) + switch("--no-config"@, a.no_config) + option("--log-file"@, placed_option(style, cwd, a.log_file))
        + switch("--debug"@, a.debug) + switch("--verbose"@, a.verbose) + switch(
        "--quiet"@,
        a.quiet,
    )
}

/// The texts of `before`, and behind them the options about who may connect that are kept for the
/// next start.
pub open spec fn saved_access_options(
    style: PathStyle,
    before: Seq<Seq<char>>,
    a: Args,
    cwd: Seq<char>,
) -> Seq<Seq<char>> {
    before + option(
        "--bind"@,
        match a.bind {
            Some(ip) => Some(ip_text(ip)),
            None => None,
        },
    ) + option("--host-key-passphrase"@, option_text(a.host_key_passphrase)) + option(
        "--password"@,
        option_text(a.password),
    ) + each_option("--authorized-keys"@, placed_all(style, cwd, texts(a.authorized_keys@)))
        + each_option("--pubkey"@, texts(a.pubkey@))
}

/// The texts of `before`, and behind them the options about sessions and limits that are kept for the
/// next start.
pub open spec fn saved_session_options(
    style: PathStyle,
    before: Seq<Seq<char>>,
    a: Args,
    cwd: Seq<char>,
) -> Seq<Seq<char>> {
    before + option("--shell"@, option_text(a.shell)) + option(
        "--sftp-root"@,
        placed_option(style, cwd, a.sftp_root),
    ) + switch("--strict-user"@, a.strict_user) + each_option(
        "--allow-user"@,
        texts(a.allow_user@),
    ) + switch("--no-forward"@, a.no_forward) + option(
        "--login-grace"@,
        digits_option(a.login_grace),
    ) + option(
        "--max-startups"@,
        match a.max_startups {
            Some(n) => Some(digits(n as nat)),
            None => None,
        },
    )
}

/// The options of `a` as they are kept for the next start, with every path as seen
/// from the directory `cwd`.
pub open spec fn saved_options(style: PathStyle, a: Args, cwd: Seq<char>) -> Seq<Seq<char>> {
    let tunnel = saved_tunnel_options(style, Seq::empty(), a, cwd);
    let files = saved_file_options(style, tunnel, a, cwd);
    let access = saved_access_options(style, files, a, cwd);
    saved_session_options(style, access, a, cwd)
}

/// Whether every path among the options starts at the root.
pub open spec fn all_absolute(style: PathStyle, a: Args) -> bool {
    &&& a.devtunnel_bin is Some ==> absolute(style, a.devtunnel_bin->0@)
    &&& forall|i: int| 0 <= i < a.host_key@.len() ==> absolute(style, (#[trigger] a.host_key@[i])@)
    &&& a.config is Some ==> absolute(style, a.config->0@)
    &&& a.log_file is Some ==> absolute(style, a.log_file->0@)
    &&& forall|i: int|
        0 <= i < a.authorized_keys@.len() ==> absolute(style, (#[trigger] a.authorized_keys@[i])@)
    &&& a.sftp_root is Some ==> absolute(style, a.sftp_root->0@)
}

/// Adds a switch, where it is on.
pub fn push_switch(result: &mut Vec<String>, name: &str, enabled: bool)
    ensures
        texts(final(result)@) == texts(old(result)@) + switch(name@, enabled),
{
    let ghost before = result@;
    if enabled {
        push_text(result, name);
    }
    assert(texts(result@) =~= texts(before) + switch(name@, enabled));
}

/// Adds an option and its value, where it has one.
pub fn push_option(result: &mut Vec<String>, name: &str, value: Option<String>)
    ensures
        texts(final(result)@) == texts(old(result)@) + option(name@, option_text(value)),
{
    let ghost before = result@;
    if let Some(v) = &value {
        push_text(result, name);
        push_text(result, v.as_str());
    }
    assert(texts(result@) =~= texts(before) + option(name@, option_text(value)));
}

/// Adds an option once for each of its values.
fn push_each(result: &mut Vec<String>, name: &str, values: &Vec<String>)
    ensures
        texts(final(result)@) == texts(old(result)@) + each_option(name@, texts(values@)),
{
    let ghost before = texts(result@);
    let ghost all = texts(values@);
    let mut i: usize = 0;
    assert(all.take(0) =~= Seq::<Seq<char>>::empty());
    assert(before + each_option(name@, all.take(0)) =~= before);
    while i < values.len()
        invariant
            all == texts(values@),
            i <= values@.len(),
            texts(result@) == before + each_option(name@, all.take(i as int)),
        decreases values@.len() - i,
    {
        push_text(result, name);
        push_text(result, values[i].as_str());
        proof {
            assert(all.take(i + 1).drop_last() =~= all.take(i as int));
            assert(texts(result@) =~= before + each_option(name@, all.take(i + 1)));
        }
        i = i + 1;
    }
    assert(all.take(i as int) =~= all);
}

/// A path as seen from the directory `cwd`, which may be missing where the path starts
/// at the root.
fn place(style: PathStyle, path: &str, cwd: &Option<String>) -> (r: Option<String>)
    ensures
        r is None <==> !absolute(style, path@) && *cwd is None,
        r matches Some(p) ==> p@ == placed(style, cwd_text(*cwd), path@),
{
    if is_absolute(style, path) {
        Some(path.to_owned())
    } else {
        match cwd {
            Some(base) => Some(join_path(style, base.as_str(), path)),
            None => None,
        }
    }
}

/// The text of the current directory.
pub open spec fn cwd_text(cwd: Option<String>) -> Seq<char> {
    match cwd {
        Some(d) => d@,
        None => Seq::empty(),
    }
}

/// Adds an option whose value is a path, where it has one. `false` where the path
/// needs the current directory and there is none.
pub(crate) fn push_path_option(
    style: PathStyle,
    result: &mut Vec<String>,
    name: &str,
    path: &Option<String>,
    cwd: &Option<String>,
) -> (r: bool)
    ensures
        r == !(*cwd is None && *path is Some && !absolute(style, path->0@)),
        r ==> texts(final(result)@) == texts(old(result)@) + option(
            name@,
            placed_option(style, cwd_text(*cwd), *path),
        ),
{
    match path {
        None => {
            assert(texts(result@) + Seq::<Seq<char>>::empty() =~= texts(result@));
            true
        },
        Some(p) => match place(style, p.as_str(), cwd) {
            None => false,
            Some(q) => {
                push_option(result, name, Some(q));
                true
            },
        },
    }
}

/// Adds an option once for each path. `false` where a path needs the current directory
/// and there is none.
pub(crate) fn push_each_path(
    style: PathStyle,
    result: &mut Vec<String>,
    name: &str,
    paths: &Vec<String>,
    cwd: &Option<String>,
) -> (r: bool)
    ensures
        r == !(*cwd is None && exists|i: int|
            0 <= i < paths@.len() && !absolute(style, (#[trigger] paths@[i])@)),
        r ==> texts(final(result)@) == texts(old(result)@) + each_option(
            name@,
            placed_all(style, cwd_text(*cwd), texts(paths@)),
        ),
{
    let mut found: Vec<String> = Vec::new();
    let mut i: usize = 0;
    while i < paths.len()
        invariant
            i <= paths@.len(),
            found@.len() == i,
            *cwd is None ==> forall|k: int| 0 <= k < i ==> absolute(style, (#[trigger] paths@[k])@),
            forall|k: int|
                0 <= k < i ==> (#[trigger] found@[k])@ == placed(style, cwd_text(*cwd), paths@[k]@),
        decreases paths@.len() - i,
    {
        match place(style, paths[i].as_str(), cwd) {
            None => return false,
            Some(q) => found.push(q),
        }
        i = i + 1;
    }
    assert(texts(found@) =~= placed_all(style, cwd_text(*cwd), texts(paths@)));
    push_each(result, name, &found);
    true
}

fn to_decimal(n: Option<u64>) -> (r: Option<String>)
    ensures
        option_text(r) == digits_option(n),
{
    match n {
        Some(k) => Some(decimal(k)),
        None => None,
    }
}

fn copy_option(s: &Option<String>) -> (r: Option<String>)
    ensures
        option_text(r) == option_text(*s),
{
    match s {
        Some(t) => Some(t.clone()),
        None => None,
    }
}

fn push_tunnel_options(style: PathStyle, v: &mut Vec<String>, a: &Args, cwd: &Option<String>) -> (r: bool)
    ensures
        r == (*cwd is Some || (a.devtunnel_bin is Some ==> absolute(style, a.devtunnel_bin->0@))),
        r ==> texts(final(v)@) == saved_tunnel_options(style, texts(old(v)@), *a, cwd_text(*cwd)),
{
    push_switch(v, "--devtunnel-enable", a.devtunnel_enable);
    push_switch(v, "--devtunnel-disable", a.devtunnel_disable);
    push_option(v, "--devtunnel-id", copy_option(&a.devtunnel_id));
    push_each(v, "--devtunnel-label", &a.devtunnel_label);
    if !push_path_option(style, v, "--devtunnel-bin", &a.devtunnel_bin, cwd) {
        return false;
    }
    push_switch(v, "--devtunnel-auto-create", a.devtunnel_auto_create);
    push_option(v, "--devtunnel-timeout", copy_option(&a.devtunnel_timeout));
    true
}

fn push_file_options(style: PathStyle, v: &mut Vec<String>, a: &Args, cwd: &Option<String>) -> (r: bool)
    ensures
        r == (*cwd is Some || ((forall|i: int|
            0 <= i < a.host_key@.len() ==> absolute(style, (#[trigger] a.host_key@[i])@)) && (
        a.config is Some ==> absolute(style, a.config->0@)) && (a.log_file is Some ==> absolute(
            style,
            a.log_file->0@,
        )))),
        r ==> texts(final(v)@) == saved_file_options(style, texts(old(v)@), *a, cwd_text(*cwd)),
{
    let port = match a.port {
        Some(n) => Some(decimal(n as u64)),
        None => None,
    };
    push_option(v, "--port", port);
    if !push_each_path(style, v, "--host-key", &a.host_key, cwd) {
        return false;
    }
    if !push_path_option(style, v, "--config", &a.config, cwd) {
        return false;
    }
    push_switch(v, "--no-config", a.no_config);
    if !push_path_option(style, v, "--log-file", &a.log_file, cwd) {
        return false;
    }
    push_switch(v, "--debug", a.debug);
    push_switch(v, "--verbose", a.verbose);
    push_switch(v, "--quiet", a.quiet);
    true
}

pub(crate) fn push_access_options(style: PathStyle, v: &mut Vec<String>, a: &Args, cwd: &Option<String>) -> (r: bool)
    ensures
        r == (*cwd is Some || forall|i: int|
            0 <= i < a.authorized_keys@.len() ==> absolute(style, (#[trigger] a.authorized_keys@[i])@)),
        r ==> texts(final(v)@) == saved_access_options(style, texts(old(v)@), *a, cwd_text(*cwd)),
{
    let bind = match a.bind {
        Some(ip) => Some(ip.to_string()),
        None => None,
    };
    push_option(v, "--bind", bind);
    push_option(v, "--host-key-passphrase", copy_option(&a.host_key_passphrase));
    push_option(v, "--password", copy_option(&a.password));
    if !push_each_path(style, v, "--authorized-keys", &a.authorized_keys, cwd) {
        return false;
    }
    push_each(v, "--pubkey", &a.pubkey);
    true
}

pub(crate) fn push_session_options(style: PathStyle, v: &mut Vec<String>, a: &Args, cwd: &Option<String>) -> (r: bool)
    ensures
        r == (*cwd is Some || (a.sftp_root is Some ==> absolute(style, a.sftp_root->0@))),
        r ==> texts(final(v)@) == saved_session_options(style, texts(old(v)@), *a, cwd_text(*cwd)),
{
    push_option(v, "--shell", copy_option(&a.shell));
    if !push_path_option(style, v, "--sftp-root", &a.sftp_root, cwd) {
        return false;
    }
    push_switch(v, "--strict-user", a.strict_user);
    push_each(v, "--allow-user", &a.allow_user);
    push_switch(v, "--no-forward", a.no_forward);
    push_option(v, "--login-grace", to_decimal(a.login_grace));
    let max = match a.max_startups {
        Some(n) => Some(decimal(n as u64)),
        None => None,
    };
    push_option(v, "--max-startups", max);
    true
}

/// The options of `a` as they are kept for the next start, which begins in another
/// directory: every path is as seen from `cwd`, the current directory.
pub fn startup_args(style: PathStyle, a: &Args, cwd: Option<String>) -> (r: Result<
    Vec<String>,
    String,
>)
    ensures
        r is Ok <==> cwd is Some || all_absolute(style, *a),
        r matches Ok(v) ==> texts(v@) == saved_options(style, *a, cwd_text(cwd)),
        r matches Err(m) ==> m@ == "failed to resolve the current directory"@,
{
    let mut v: Vec<String> = Vec::new();
    assert(texts(v@) =~= Seq::<Seq<char>>::empty());
    if push_tunnel_options(style, &mut v, a, &cwd) && push_file_options(style, &mut v, a, &cwd)
        && push_access_options(style, &mut v, a, &cwd) && push_session_options(style, &mut v, a, &cwd) {
        Ok(v)
    } else {
        Err("failed to resolve the current directory".to_owned())
    }
}

/// Where no option is given, none is kept: the configuration file that is read without
/// being asked for is not among them.
pub proof fn nothing_given_nothing_saved(style: PathStyle, a: Args, cwd: Seq<char>)
    requires
        no_options(a),
    ensures
        saved_options(style, a, cwd) == Seq::<Seq<char>>::empty(),
{
    assert(saved_options(style, a, cwd) =~= Seq::<Seq<char>>::empty());
}

/// The configuration file that is read without being asked for.
pub open spec fn implicit_path(style: PathStyle, home: Seq<char>) -> Seq<char> {
    placed(style, placed(style, home, ".ssh"@), "sshdt_config"@)
}

/// The configuration file that is read without being asked for.
pub fn implicit_config_path(style: PathStyle, home: &str) -> (r: String)
    ensures
        r@ == implicit_path(style, home@),
{
    join_path(style, join_path(style, home, ".ssh").as_str(), "sshdt_config")
}

/// The configuration file to read: the one asked for, or else the one in the home
/// directory, where it is there and was not declined.
pub open spec fn selected_path(
    style: PathStyle,
    explicit: Option<Seq<char>>,
    no_config: bool,
    home: Option<Seq<char>>,
    exists: bool,
) -> Option<Seq<char>> {
    match (explicit, home) {
        (Some(p), _) => Some(p),
        (None, Some(h)) => if !no_config && exists {
            Some(implicit_path(style, h))
        } else {
            None
        },
        (None, None) => None,
    }
}

/// The configuration file to read. `exists` says whether the one in the home directory
/// is there.
pub fn select_config_path(
    style: PathStyle,
    explicit: Option<String>,
    no_config: bool,
    home: Option<String>,
    exists: bool,
) -> (r: Option<String>)
    ensures
        option_text(r) == selected_path(
            style,
            option_text(explicit),
            no_config,
            option_text(home),
            exists,
        ),
{
    match explicit {
        Some(p) => Some(p),
        None => match home {
            Some(h) => if !no_config && exists {
                Some(implicit_config_path(style, h.as_str()))
            } else {
                None
            },
            None => None,
        },
    }
}

/// The format of a configuration file.
#[derive(Clone, Copy, Debug, PartialEq, Eq, Structural)]
pub enum Format {
    /// TOML.
    Toml,
    /// One directive on each line.
    Directives,
}

/// The extension of the last part of a path: what stands behind its last dot, where
/// something stands before that dot.
pub open spec fn extension(style: PathStyle, path: Seq<char>) -> Option<Seq<char>> {
    match file_name(style, path) {
        Some(name) => {
            let dot = last_char(name, '.', name.len() as int);
            if dot > 0 {
                Some(name.skip(dot + 1))
            } else {
                None
            }
        },
        None => None,
    }
}

/// A file with the extension `toml` holds TOML, any other holds directives.
pub open spec fn format_of(style: PathStyle, path: Seq<char>) -> Format {
    if extension(style, path) == Some("toml"@) {
        Format::Toml
    } else {
        Format::Directives
    }
}

/// The format of a configuration file, by its extension.
pub fn config_format(style: PathStyle, path: &str) -> (r: Format)
    ensures
        r == format_of(style, path@),
{
    match find_file_name(style, path) {
        None => Format::Directives,
        Some(name) => {
            let v = chars(name.as_str());
            match find_last_char(&v, '.') {
                None => Format::Directives,
                Some(dot) => {
                    if dot == 0 {
                        return Format::Directives;
                    }
                    let len: usize = v.len();
                    let ext = text(&v, dot + 1, len);
                    assert(ext@ =~= v@.skip(dot + 1));
                    if same(ext.as_str(), "toml") {
                        Format::Toml
                    } else {
                        Format::Directives
                    }
                },
            }
        },
    }
}

/// The least important events that are logged.
pub open spec fn level(quiet: bool, debug: bool, verbose: bool) -> Seq<char> {
    if quiet {
        "error"@
    } else if debug || verbose {
        "debug"@
    } else {
        "info"@
    }
}

/// The filter of the log, where the environment gives none: this server at the level
/// that the options ask for, and everything else from warnings on.
pub fn log_filter(a: &Args) -> (r: String)
    ensures
        r@ == "sshdt="@ + level(a.quiet, a.debug, a.verbose) + ",warn"@,
{
    let mut r = "sshdt=".to_owned();
    if a.quiet {
        r.append("error");
    } else if a.debug || a.verbose {
        r.append("debug");
    } else {
        r.append("info");
    }
    r.append(",warn");
    r
}

/// Where the log is written to.
#[derive(Debug)]
pub enum LogTarget {
    /// Daily files in the directory of the service.
    Daily,
    /// One file.
    File(String),
    /// The error output.
    Stderr,
}

/// Where the log is written to: to the file that was asked for, or else to daily files
/// for a service and to the error output for any other server.
pub fn log_target(a: &Args, service_mode: bool) -> (r: LogTarget)
    ensures
        r is Daily <==> service_mode && a.log_file is None,
        r is Stderr <==> !service_mode && a.log_file is None,
        r matches LogTarget::File(p) ==> a.log_file is Some && p@ == a.log_file->0@,
{
    match &a.log_file {
        Some(p) => LogTarget::File(p.clone()),
        None => if service_mode {
            LogTarget::Daily
        } else {
            LogTarget::Stderr
        },
    }
}

/// A local port: any that is free, or one that was asked for.
pub open spec fn local_port(s: Seq<char>) -> Result<Option<u16>, ()> {
    if s == "auto"@ {
        Ok(None)
    } else {
        match number_up_to(s, u16::MAX as nat) {
            Some(n) => Ok(Some(n as u16)),
            None => Err(()),
        }
    }
}

/// What an option for a local port asks for: `auto` for any port that is free, or the
/// number of one.
pub fn parse_local_port(value: &str) -> (r: Result<Option<u16>, String>)
    ensures
        r is Ok <==> local_port(value@) is Ok,
        r matches Ok(p) ==> local_port(value@) == Ok::<Option<u16>, ()>(p),
        r matches Err(m) ==> m@ == "local port must be auto or a number"@,
{
    if same(value, "auto") {
        return Ok(None);
    }
    match number::parse(value, 0xffff) {
        Some(n) => Ok(Some(n as u16)),
        None => Err("local port must be auto or a number".to_owned()),
    }
}

/// Whose log to show: that of the tunnel host or that of the tunnel client, where one of
/// them was asked for, and else that of the service.
pub fn log_role(devtunnel: bool, devtunnel_client: bool) -> (r: Result<
    Option<&'static str>,
    String,
>)
    ensures
        r is Err <==> devtunnel && devtunnel_client,
        r matches Err(m) ==> m@ == "choose --devtunnel or --devtunnel-client"@,
        r matches Ok(role) ==> str_text(role) == (if devtunnel {
            Some("host"@)
        } else if devtunnel_client {
            Some("client"@)
        } else {
            None
        }),
{
    if devtunnel && devtunnel_client {
        return Err("choose --devtunnel or --devtunnel-client".to_owned());
    }
    if devtunnel {
        Ok(Some("host"))
    } else if devtunnel_client {
        Ok(Some("client"))
    } else {
        Ok(None)
    }
}

/// The message about options that were kept and cannot be read, from what the reading of
/// options says.
pub fn saved_options_error(output: &str) -> (r: String)
    ensures
        r@ == "invalid saved sshdt service options: "@ + trimmed(output@),
{
    let mut r = "invalid saved sshdt service options: ".to_owned();
    r.append(trim(output).as_str());
    r
}

/// A configuration file that is asked for is read in any case. Else the one in the home
/// directory is, where it is there and was not declined.
pub proof fn which_file_is_read(
    style: PathStyle,
    explicit: Seq<char>,
    no_config: bool,
    home: Option<Seq<char>>,
    exists: bool,
)
    ensures
        selected_path(style, Some(explicit), no_config, home, exists) == Some(explicit),
        selected_path(style, None, true, home, exists) is None,
        selected_path(style, None, no_config, home, false) is None,
        selected_path(style, None, no_config, None, exists) is None,
        home matches Some(h) ==> selected_path(style, None, false, home, true) == Some(
            placed(style, placed(style, h, ".ssh"@), "sshdt_config"@),
        ),
{
}

/// A file whose name ends in `.toml`, with something before it, holds TOML, and every other
/// file holds directives.
pub proof fn which_files_hold_toml(style: PathStyle, path: Seq<char>)
    ensures
        format_of(style, path) == Format::Toml <==> (file_name(style, path) matches Some(name)
            && name.len() > 5 && name.skip(name.len() - 5) == seq!['.', 't', 'o', 'm', 'l']),
{
    reveal_strlit("toml");
    assert("toml"@ =~= seq!['t', 'o', 'm', 'l']);
    if let Some(name) = file_name(style, path) {
        let n = name.len() as int;
        last_char_bounds(name, '.', n);
        let dot = last_char(name, '.', n);
        if format_of(style, path) == Format::Toml {
            assert(name.skip(dot + 1).len() == 4);
            assert(n == dot + 5);
            assert(name.skip(n - 5) =~= seq!['.'] + name.skip(dot + 1));
            assert(seq!['.'] + "toml"@ =~= seq!['.', 't', 'o', 'm', 'l']);
        }
        if n > 5 && name.skip(n - 5) == seq!['.', 't', 'o', 'm', 'l'] {
            let tail = name.skip(n - 5);
            assert(name[n - 5] == tail[0]);
            assert(name[n - 4] == tail[1] && name[n - 3] == tail[2] && name[n - 2] == tail[3]
                && name[n - 1] == tail[4]);
            assert(dot == n - 5);
            assert(name.skip(dot + 1) =~= "toml"@);
        }
    }
}

/// What is logged: errors only where quiet is asked for, whatever else is, and else more where
/// either of the two options for debugging is given.
pub proof fn how_much_is_logged(debug: bool, verbose: bool)
    ensures
        level(true, debug, verbose) == "error"@,
        debug || verbose ==> level(false, debug, verbose) == "debug"@,
        !debug && !verbose ==> level(false, debug, verbose) == "info"@,
{
}

/// The word `auto` asks for any free port, every number up to 65535 for that port, and nothing
/// else is a local port.
pub proof fn what_local_ports_are(n: u16, s: Seq<char>)
    ensures
        local_port("auto"@) == Ok::<Option<u16>, ()>(None),
        local_port(digits(n as nat)) == Ok::<Option<u16>, ()>(Some(n)),
        local_port(s) == Ok::<Option<u16>, ()>(Some(n)) <==> s != "auto"@ && number::number(s)
            == Some(n as nat),
        local_port(s) is Err <==> s != "auto"@ && (number::number(s) is None || number::number(s)->0
            > 65535),
{
    numbers_are_read(n as nat, u16::MAX as nat);
    digits_are_read(n as nat);
    reveal_strlit("auto");
    assert(digits(n as nat) != "auto"@) by {
        assert("auto"@[0] == 'a');
        assert(digit(digits(n as nat)[0]));
    }
}

/// Every path that is kept is as seen from the current directory, so that it is found from any
/// other, and every number is kept with its digits.
pub proof fn kept_values(
    style: PathStyle,
    cwd: Seq<char>,
    paths: Seq<Seq<char>>,
    path: String,
    n: u64,
)
    ensures
        placed_all(style, cwd, paths).len() == paths.len(),
        forall|i: int|
            0 <= i < paths.len() ==> #[trigger] placed_all(style, cwd, paths)[i] == placed(
                style,
                cwd,
                paths[i],
            ),
        placed_option(style, cwd, Some(path)) == Some(placed(style, cwd, path@)),
        placed_option(style, cwd, None) is None,
        digits_option(Some(n)) == Some(digits(n as nat)),
        digits_option(None) is None,
{
}

/// Without a current directory the options can be kept exactly where every path among them
/// starts at the root.
pub proof fn which_options_need_the_current_directory(style: PathStyle, a: Args)
    ensures
        all_absolute(style, a) <==> (a.devtunnel_bin is Some ==> absolute(
            style,
            a.devtunnel_bin->0@,
        )) && (a.config is Some ==> absolute(style, a.config->0@)) && (a.log_file is Some
            ==> absolute(style, a.log_file->0@)) && (a.sftp_root is Some ==> absolute(
            style,
            a.sftp_root->0@,
        )) && (forall|i: int|
            0 <= i < a.host_key@.len() ==> absolute(style, (#[trigger] a.host_key@[i])@)) && (
        forall|i: int|
            0 <= i < a.authorized_keys@.len() ==> absolute(
                style,
                (#[trigger] a.authorized_keys@[i])@,
            )),
{
}

/// The current directory is the one that is given.
pub proof fn what_the_current_directory_is(cwd: String)
    ensures
        cwd_text(Some(cwd)) == cwd@,
{
}

} // verus!
