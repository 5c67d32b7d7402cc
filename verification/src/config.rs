//! The settings of a server.

use crate::error::{Error, ErrorView};
use crate::net::IpAddr;
use crate::number;
use crate::text::{
    alphanumeric, chars, digit, is_alphanumeric, is_digit, joined, joined_of_pieces, option_text,
    pieces, pieces_of_joined, same, split_char,
    text, texts,
};
use vstd::prelude::*;

verus! {

/// The port of a server that none was chosen for.
pub const DEFAULT_PORT: u16 = 2222;

/// The time for authentication, in seconds.
pub const DEFAULT_LOGIN_GRACE_SECS: u64 = 60;

/// The number of connections that may wait for authentication at once.
pub const DEFAULT_MAX_STARTUPS: u32 = 32;

/// The address of a server that none was chosen for: this machine only.
pub fn default_bind() -> (r: IpAddr)
    ensures
        r == IpAddr::V4(127, 0, 0, 1),
{
    IpAddr::V4(127, 0, 0, 1)
}

/// Settings for hosting a developer tunnel through its command line program.
#[derive(Debug, Clone, PartialEq, Eq)]
pub struct DevTunnelConfig {
    /// Start hosting. Missing credentials do not stop the server.
    pub enabled: bool,
    /// The tunnel, with or without its region.
    pub id: Option<String>,
    /// Labels to add to the tunnel.
    pub labels: Vec<String>,
    /// The path of the tunnel program.
    pub bin: Option<String>,
    /// Create a missing tunnel and port.
    pub auto_create: bool,
    /// The time for one attempt at the setup, in seconds.
    pub timeout_secs: u64,
}

/// What a [`DevTunnelConfig`] holds.
#[verifier::ext_equal]
pub struct DevTunnelView {
    pub enabled: bool,
    pub id: Option<Seq<char>>,
    pub labels: Seq<Seq<char>>,
    pub bin: Option<Seq<char>>,
    pub auto_create: bool,
    pub timeout_secs: u64,
}

impl View for DevTunnelConfig {
    type V = DevTunnelView;

    open spec fn view(&self) -> DevTunnelView {
        DevTunnelView {
            enabled: self.enabled,
            id: option_text(self.id),
            labels: texts(self.labels@),
            bin: option_text(self.bin),
            auto_create: self.auto_create,
            timeout_secs: self.timeout_secs,
        }
    }
}

/// Hosting is off, and an attempt at the setup may take 30 seconds.
pub open spec fn default_dev_tunnel() -> DevTunnelView {
    DevTunnelView {
        enabled: false,
        id: None,
        labels: Seq::empty(),
        bin: None,
        auto_create: false,
        timeout_secs: 30,
    }
}

impl Default for DevTunnelConfig {
    fn default() -> (r: Self)
        ensures
            r@ == default_dev_tunnel(),
    {
        let r = DevTunnelConfig {
            enabled: false,
            id: None,
            labels: Vec::new(),
            bin: None,
            auto_create: false,
            timeout_secs: 30,
        };
        assert(r@ =~= default_dev_tunnel());
        r
    }
}

/// Whether `s` is one part of the name of a tunnel: from `min` to `max` small letters,
/// digits and hyphens, with no hyphen at either end.
pub open spec fn tunnel_label(s: Seq<char>, min: int, max: int) -> bool {
    &&& min <= s.len() <= max
    &&& s.len() > 0
    &&& s[0] != '-'
    &&& s.last() != '-'
    &&& forall|i: int|
        0 <= i < s.len() ==> 'a' <= #[trigger] s[i] <= 'z' || digit(s[i]) || s[i] == '-'
}

/// Whether `s` names a tunnel: a name, or a name, a dot and a region.
pub open spec fn tunnel_id(s: Seq<char>) -> bool {
    let p = pieces(s, '.');
    &&& 1 <= p.len() <= 2
    &&& tunnel_label(p[0], 3, 49)
    &&& p.len() == 2 ==> tunnel_label(p[1], 1, 32)
}

fn is_tunnel_label(s: &str, min: usize, max: usize) -> (r: bool)
    ensures
        r == tunnel_label(s@, min as int, max as int),
{
    let v = chars(s);
    let n: usize = v.len();
    if n < min || n > max || n == 0 || v[0] == '-' || v[n - 1] == '-' {
        return false;
    }
    let mut i: usize = 0;
    while i < n
        invariant
            v@ == s@,
            i <= n == v@.len(),
            forall|k: int|
                0 <= k < i ==> 'a' <= #[trigger] s@[k] <= 'z' || digit(s@[k]) || s@[k] == '-',
        decreases n - i,
    {
        let c = v[i];
        if !('a' <= c && c <= 'z') && !is_digit(c) && c != '-' {
            assert(!('a' <= s@[i as int] <= 'z' || digit(s@[i as int]) || s@[i as int] == '-'));
            return false;
        }
        i = i + 1;
    }
    true
}

/// Whether `value` names a tunnel, with or without a region.
pub fn valid_tunnel_id(value: &str) -> (r: bool)
    ensures
        r == tunnel_id(value@),
{
    let p = split_char(value, '.');
    assert(pieces(value@, '.').len() == p@.len());
    assert(forall|i: int| 0 <= i < p@.len() ==> #[trigger] pieces(value@, '.')[i] == p@[i]@);
    if p.len() > 2 || !is_tunnel_label(p[0].as_str(), 3, 49) {
        return false;
    }
    p.len() == 1 || is_tunnel_label(p[1].as_str(), 1, 32)
}

/// Check that `value` names a tunnel, with or without a region.
pub fn validate_tunnel_id(value: &str) -> (r: Result<(), String>)
    ensures
        r is Ok <==> tunnel_id(value@),
        r matches Err(e) ==> e@
            == "invalid Dev Tunnels ID; use lowercase letters, digits and hyphens"@,
{
    if valid_tunnel_id(value) {
        Ok(())
    } else {
        Err("invalid Dev Tunnels ID; use lowercase letters, digits and hyphens".to_owned())
    }
}

/// The seconds that the unit at the end of `s` stands for, where there is one.
pub open spec fn unit(s: Seq<char>) -> Option<nat> {
    if s.len() == 0 {
        None
    } else if s.last() == 's' || s.last() == 'S' {
        Some(1)
    } else if s.last() == 'm' || s.last() == 'M' {
        Some(60)
    } else if s.last() == 'h' || s.last() == 'H' {
        Some(3600)
    } else {
        None
    }
}

/// The seconds that `s` stands for: a number of seconds, or a number and a unit.
pub open spec fn timeout(s: Seq<char>) -> Option<nat> {
    let (n, seconds) = match unit(s) {
        Some(u) => (number::number(s.drop_last()), u),
        None => (number::number(s), 1nat),
    };
    match n {
        Some(k) => if 0 < k * seconds <= u64::MAX {
            Some(k * seconds)
        } else {
            None
        },
        None => None,
    }
}

/// The seconds that the unit at the end of `v` stands for, where there is one.
pub fn find_unit(v: &Vec<char>) -> (r: Option<u64>)
    ensures
        r is Some <==> unit(v@) is Some,
        r matches Some(u) ==> unit(v@) == Some(u as nat) && (u == 1 || u == 60 || u == 3600)
            && v@.len() > 0,
{
    if v.len() == 0 {
        return None;
    }
    match v[v.len() - 1] {
        's' => Some(1),
        'S' => Some(1),
        'm' => Some(60),
        'M' => Some(60),
        'h' => Some(3600),
        'H' => Some(3600),
        _ => None,
    }
}

/// `n` times `seconds`, where it can be held.
pub fn times(n: u64, seconds: u64) -> (r: Option<u64>)
    ensures
        r is Some <==> n * seconds <= u64::MAX,
        r matches Some(k) ==> k == n * seconds,
{
    n.checked_mul(seconds)
}

/// Parse a positive timeout in seconds, minutes or hours.
pub fn parse_tunnel_timeout(value: &str) -> (r: Result<u64, String>)
    ensures
        r is Ok <==> timeout(value@) is Some,
        r matches Ok(n) ==> timeout(value@) == Some(n as nat),
        r matches Err(e) ==> e@ == "timeout must be a positive duration such as 30s or 2m"@,
{
    let v = chars(value);
    let (digits, seconds): (String, u64) = match find_unit(&v) {
        Some(u) => {
            let n: usize = v.len() - 1;
            assert(value@.subrange(0, n as int) =~= value@.drop_last());
            (text(&v, 0, n), u)
        },
        None => (value.to_owned(), 1),
    };
    proof {
        if let Some(k) = number::number(digits@) {
            assert(k * seconds >= k) by (nonlinear_arith)
                requires
                    seconds >= 1,
                    k >= 0,
            ;
        }
    }
    if let Some(n) = number::parse(digits.as_str(), u64::MAX) {
        if let Some(k) = times(n, seconds) {
            if k > 0 {
                return Ok(k);
            }
        }
    }
    Err("timeout must be a positive duration such as 30s or 2m".to_owned())
}

/// The settings of a server.
#[derive(Debug, Clone)]
#[non_exhaustive]
pub struct Config {
    /// Hosting of a developer tunnel.
    pub dev_tunnel: DevTunnelConfig,
    /// The address to listen on.
    pub bind: IpAddr,
    /// The port to listen on.
    pub port: u16,
    /// Host key files. Where there are none, a key is made and kept.
    pub host_keys: Vec<String>,
    /// The passphrase of an encrypted host key.
    pub host_key_passphrase: Option<String>,
    /// The password that lets a client in.
    pub password: Option<String>,
    /// Files of public keys that let a client in.
    pub authorized_keys: Vec<String>,
    /// Public keys that let a client in, each as one line of text.
    pub authorized_key_lines: Vec<String>,
    /// Whether a client may come in without proof of who it is, where no password and
    /// no key is set.
    pub allow_anonymous: bool,
    /// The command line of a session.
    pub shell: Option<String>,
    /// The directory that file transfers are held to.
    pub sftp_root: Option<String>,
    /// Whether a client may have connections made for it.
    pub allow_tcp_forwarding: bool,
    /// The time for authentication, in seconds.
    pub login_grace_secs: u64,
    /// The number of connections that may wait for authentication at once.
    pub max_startups: u32,
    /// The environment variables that a client may set. An entry that ends in `*`
    /// stands for every name that begins with the rest of it.
    pub accept_env: Vec<String>,
    /// The text that a client is shown before authentication.
    pub banner: Option<String>,
    /// Accept the name of the user who runs the server.
    pub require_current_user: bool,
    /// The names of users that are accepted. Where there are none, every name is.
    pub allow_users: Vec<String>,
}

/// What a [`Config`] holds.
#[verifier::ext_equal]
pub struct ConfigView {
    pub dev_tunnel: DevTunnelView,
    pub bind: IpAddr,
    pub port: u16,
    pub host_keys: Seq<Seq<char>>,
    pub host_key_passphrase: Option<Seq<char>>,
    pub password: Option<Seq<char>>,
    pub authorized_keys: Seq<Seq<char>>,
    pub authorized_key_lines: Seq<Seq<char>>,
    pub allow_anonymous: bool,
    pub shell: Option<Seq<char>>,
    pub sftp_root: Option<Seq<char>>,
    pub allow_tcp_forwarding: bool,
    pub login_grace_secs: u64,
    pub max_startups: u32,
    pub accept_env: Seq<Seq<char>>,
    pub banner: Option<Seq<char>>,
    pub require_current_user: bool,
    pub allow_users: Seq<Seq<char>>,
}

impl View for Config {
    type V = ConfigView;

    open spec fn view(&self) -> ConfigView {
        ConfigView {
            dev_tunnel: self.dev_tunnel@,
            bind: self.bind,
            port: self.port,
            host_keys: texts(self.host_keys@),
            host_key_passphrase: option_text(self.host_key_passphrase),
            password: option_text(self.password),
            authorized_keys: texts(self.authorized_keys@),
            authorized_key_lines: texts(self.authorized_key_lines@),
            allow_anonymous: self.allow_anonymous,
            shell: option_text(self.shell),
            sftp_root: option_text(self.sftp_root),
            allow_tcp_forwarding: self.allow_tcp_forwarding,
            login_grace_secs: self.login_grace_secs,
            max_startups: self.max_startups,
            accept_env: texts(self.accept_env@),
            banner: option_text(self.banner),
            require_current_user: self.require_current_user,
            allow_users: texts(self.allow_users@),
        }
    }
}

/// The environment variables that a client may set where nothing else was chosen.
pub open spec fn accept_env_defaults() -> Seq<Seq<char>> {
    seq!["TERM"@, "LANG"@, "LC_*"@]
}

/// A server on this machine only, which lets anyone in and makes its own host key.
pub open spec fn default_config() -> ConfigView {
    ConfigView {
        dev_tunnel: default_dev_tunnel(),
        bind: IpAddr::V4(127, 0, 0, 1),
        port: DEFAULT_PORT,
        host_keys: Seq::empty(),
        host_key_passphrase: None,
        password: None,
        authorized_keys: Seq::empty(),
        authorized_key_lines: Seq::empty(),
        allow_anonymous: true,
        shell: None,
        sftp_root: None,
        allow_tcp_forwarding: true,
        login_grace_secs: DEFAULT_LOGIN_GRACE_SECS,
        max_startups: DEFAULT_MAX_STARTUPS,
        accept_env: accept_env_defaults(),
        banner: None,
        require_current_user: false,
        allow_users: Seq::empty(),
    }
}

/// The environment variables that a client may set where nothing else was chosen:
/// `TERM`, `LANG` and `LC_*`.
pub fn default_accept_env() -> (r: Vec<String>)
    ensures
        texts(r@) == accept_env_defaults(),
{
    let mut r: Vec<String> = Vec::new();
    r.push("TERM".to_owned());
    r.push("LANG".to_owned());
    r.push("LC_*".to_owned());
    assert(texts(r@) =~= accept_env_defaults());
    r
}

impl Default for Config {
    fn default() -> (r: Self)
        ensures
            r@ == default_config(),
    {
        let r = Config {
            dev_tunnel: DevTunnelConfig::default(),
            bind: default_bind(),
            port: DEFAULT_PORT,
            host_keys: Vec::new(),
            host_key_passphrase: None,
            password: None,
            authorized_keys: Vec::new(),
            authorized_key_lines: Vec::new(),
            allow_anonymous: true,
            shell: None,
            sftp_root: None,
            allow_tcp_forwarding: true,
            login_grace_secs: DEFAULT_LOGIN_GRACE_SECS,
            max_startups: DEFAULT_MAX_STARTUPS,
            accept_env: default_accept_env(),
            banner: None,
            require_current_user: false,
            allow_users: Vec::new(),
        };
        assert(r@ =~= default_config());
        r
    }
}

/// Whether `s` can be a label of a tunnel: 1 to 50 ASCII letters, digits, underscores,
/// hyphens and equals signs.
pub open spec fn custom_label(s: Seq<char>) -> bool {
    &&& 1 <= s.len() <= 50
    &&& forall|i: int|
        0 <= i < s.len() ==> alphanumeric(#[trigger] s[i]) || s[i] == '_' || s[i] == '-' || s[i]
            == '='
}

/// What is wrong with the settings of a tunnel.
pub open spec fn dev_tunnel_fault(d: DevTunnelView) -> Option<Seq<char>> {
    if d.timeout_secs == 0 {
        Some("DevTunnelTimeout must be greater than zero"@)
    } else if d.id is Some && !tunnel_id(d.id->0) {
        Some("invalid DevTunnelId"@)
    } else if exists|i: int| 0 <= i < d.labels.len() && !custom_label(#[trigger] d.labels[i]) {
        Some(
            "DevTunnelLabel must contain 1 to 50 ASCII letters, digits, underscores, hyphens or equals signs"@,
        )
    } else if d.labels.to_set().len() > 100 {
        Some("DevTunnelLabel supports at most 100 unique labels"@)
    } else {
        None
    }
}

fn is_custom_label(s: &str) -> (r: bool)
    ensures
        r == custom_label(s@),
{
    let v = chars(s);
    let n: usize = v.len();
    if n < 1 || n > 50 {
        return false;
    }
    let mut i: usize = 0;
    while i < n
        invariant
            v@ == s@,
            i <= n == v@.len(),
            forall|k: int|
                0 <= k < i ==> alphanumeric(#[trigger] s@[k]) || s@[k] == '_' || s@[k] == '-'
                    || s@[k] == '=',
        decreases n - i,
    {
        let c = v[i];
        if !is_alphanumeric(c) && c != '_' && c != '-' && c != '=' {
            assert(!(alphanumeric(s@[i as int]) || s@[i as int] == '_' || s@[i as int] == '-'
                || s@[i as int] == '='));
            return false;
        }
        i = i + 1;
    }
    true
}

/// Whether `s` is one of the first `n` texts of `v`.
pub fn among(v: &Vec<String>, n: usize, s: &str) -> (r: bool)
    requires
        n <= v@.len(),
    ensures
        r == texts(v@).take(n as int).contains(s@),
{
    let ghost all = texts(v@).take(n as int);
    let mut i: usize = 0;
    while i < n
        invariant
            i <= n <= v@.len(),
            all == texts(v@).take(n as int),
            forall|k: int| 0 <= k < i ==> #[trigger] all[k] != s@,
        decreases n - i,
    {
        if same(v[i].as_str(), s) {
            assert(all[i as int] == s@);
            return true;
        }
        i = i + 1;
    }
    false
}

/// The number of different texts in `v`.
fn count_unique(v: &Vec<String>) -> (r: usize)
    ensures
        r == texts(v@).to_set().len(),
{
    let mut r: usize = 0;
    let mut i: usize = 0;
    let ghost all = texts(v@);
    assert(all.take(0).to_set() =~= Set::<Seq<char>>::empty());
    while i < v.len()
        invariant
            all == texts(v@),
            i <= v@.len(),
            r <= i,
            r == all.take(i as int).to_set().len(),
            all.take(i as int).to_set().finite(),
        decreases v@.len() - i,
    {
        let fresh = !among(v, i, v[i].as_str());
        proof {
            let x = all[i as int];
            let before = all.take(i as int);
            let after = all.take(i + 1);
            assert(after =~= before.push(x));
            assert(after.to_set() =~= before.to_set().insert(x)) by {
                assert forall|y: Seq<char>| after.to_set().contains(y) implies before.to_set().insert(
                    x,
                ).contains(y) by {
                    let k = choose|k: int| 0 <= k < after.len() && after[k] == y;
                    if k < i {
                        assert(before[k] == y);
                    }
                }
                assert forall|y: Seq<char>| before.to_set().insert(x).contains(y) implies after.to_set().contains(
                    y,
                ) by {
                    if y == x {
                        assert(after[i as int] == x);
                    } else {
                        let k = choose|k: int| 0 <= k < before.len() && before[k] == y;
                        assert(after[k] == y);
                    }
                }
            }
            assert(before.to_set().contains(x) == before.contains(x));
        }
        if fresh {
            r = r + 1;
        }
        i = i + 1;
    }
    assert(all.take(i as int) =~= all);
    r
}

impl Config {
    /// Check the settings of the tunnel.
    pub fn validate_dev_tunnel(&self) -> (r: Result<(), Error>)
        ensures
            r is Ok <==> dev_tunnel_fault(self@.dev_tunnel) is None,
            r matches Err(e) ==> dev_tunnel_fault(self@.dev_tunnel) is Some && e@
                == ErrorView::Config(dev_tunnel_fault(self@.dev_tunnel)->0),
    {
        let d = &self.dev_tunnel;
        let ghost labels = texts(d.labels@);
        if d.timeout_secs == 0 {
            return Err(Error::Config("DevTunnelTimeout must be greater than zero".to_owned()));
        }
        if let Some(id) = &d.id {
            if !valid_tunnel_id(id.as_str()) {
                return Err(Error::Config("invalid DevTunnelId".to_owned()));
            }
        }
        let mut i: usize = 0;
        while i < d.labels.len()
            invariant
                labels == texts(d.labels@),
                i <= d.labels@.len(),
                *d == self.dev_tunnel,
                d.timeout_secs != 0,
                d.id is Some ==> tunnel_id(d.id->0@),
                forall|k: int| 0 <= k < i ==> custom_label(#[trigger] labels[k]),
            decreases d.labels@.len() - i,
        {
            if !is_custom_label(d.labels[i].as_str()) {
                assert(!custom_label(labels[i as int]));
                return Err(
                    Error::Config(
                        "DevTunnelLabel must contain 1 to 50 ASCII letters, digits, underscores, hyphens or equals signs".to_owned(),
                    ),
                );
            }
            i = i + 1;
        }
        if count_unique(&d.labels) > 100 {
            return Err(
                Error::Config("DevTunnelLabel supports at most 100 unique labels".to_owned()),
            );
        }
        Ok(())
    }

    /// Whether a password or a key is set.
    pub fn has_explicit_auth(&self) -> (r: bool)
        ensures
            r == explicit_auth(self@),
    {
        self.password.is_some() || self.authorized_keys.len() > 0
            || self.authorized_key_lines.len() > 0
    }
}

/// Whether a password or a key is set.
pub open spec fn explicit_auth(c: ConfigView) -> bool {
    c.password is Some || c.authorized_keys.len() > 0 || c.authorized_key_lines.len() > 0
}

/// A server that nothing was chosen for listens on port 2222 of this machine only, lets anyone
/// in, makes connections for its clients, gives them a minute to prove who they are, of whom 32
/// may do so at once, and takes `TERM`, `LANG` and the variables of the locale from them. It
/// hosts no tunnel.
pub proof fn what_the_defaults_are()
    ensures
        default_config().bind == IpAddr::V4(127, 0, 0, 1),
        default_config().port == 2222,
        default_config().host_keys.len() == 0,
        default_config().host_key_passphrase is None,
        default_config().password is None,
        default_config().authorized_keys.len() == 0,
        default_config().authorized_key_lines.len() == 0,
        default_config().allow_anonymous,
        default_config().shell is None,
        default_config().sftp_root is None,
        default_config().allow_tcp_forwarding,
        default_config().login_grace_secs == 60,
        default_config().max_startups == 32,
        default_config().accept_env == seq!["TERM"@, "LANG"@, "LC_*"@],
        default_config().banner is None,
        !default_config().require_current_user,
        default_config().allow_users.len() == 0,
        !default_config().dev_tunnel.enabled,
        default_config().dev_tunnel.id is None,
        default_config().dev_tunnel.labels.len() == 0,
        default_config().dev_tunnel.bin is None,
        !default_config().dev_tunnel.auto_create,
        default_config().dev_tunnel.timeout_secs == 30,
{
}

/// A timeout is a number of seconds, or of seconds, minutes or hours where a unit stands behind
/// it. It is never zero.
pub proof fn timeouts_are_read(n: nat, s: Seq<char>)
    ensures
        0 < n <= u64::MAX ==> timeout(number::digits(n)) == Some(n),
        0 < n <= u64::MAX ==> timeout(number::digits(n).push('s')) == Some(n),
        0 < n <= u64::MAX ==> timeout(number::digits(n).push('S')) == Some(n),
        0 < n && n * 60 <= u64::MAX ==> timeout(number::digits(n).push('m')) == Some(n * 60),
        0 < n && n * 60 <= u64::MAX ==> timeout(number::digits(n).push('M')) == Some(n * 60),
        0 < n && n * 3600 <= u64::MAX ==> timeout(number::digits(n).push('h')) == Some(n * 3600),
        0 < n && n * 3600 <= u64::MAX ==> timeout(number::digits(n).push('H')) == Some(n * 3600),
        timeout(s) matches Some(k) ==> 0 < k <= u64::MAX && (number::number(s) is Some
            || number::number(s.drop_last()) is Some),
{
    let d = number::digits(n);
    number::digits_are_read(n);
    assert(digit(d[d.len() - 1]));
    assert(d.last() == d[d.len() - 1]);
    assert(unit(d) is None);
    assert(d.push('s').drop_last() =~= d);
    assert(d.push('S').drop_last() =~= d);
    assert(d.push('m').drop_last() =~= d);
    assert(d.push('M').drop_last() =~= d);
    assert(d.push('h').drop_last() =~= d);
    assert(d.push('H').drop_last() =~= d);
    assert(n * 1 == n);
}

/// Whether `s` is of small letters, digits and hyphens, with no hyphen at either end.
pub open spec fn tunnel_word(s: Seq<char>) -> bool {
    &&& s.len() > 0
    &&& s[0] != '-'
    &&& s[s.len() - 1] != '-'
    &&& forall|i: int|
        0 <= i < s.len() ==> 'a' <= #[trigger] s[i] <= 'z' || '0' <= s[i] <= '9' || s[i] == '-'
}

/// Every name of 3 to 49 small letters, digits and hyphens, with no hyphen at either end, names
/// a tunnel, with or without a dot and a region of 1 to 32 of them behind it. Nothing else
/// does.
pub proof fn what_tunnels_are_called(name: Seq<char>, region: Seq<char>, s: Seq<char>)
    ensures
        tunnel_word(name) && 3 <= name.len() <= 49 ==> tunnel_id(name),
        tunnel_word(name) && 3 <= name.len() <= 49 && tunnel_word(region) && region.len() <= 32
            ==> tunnel_id(name + seq!['.'] + region),
        tunnel_id(s) ==> tunnel_word(s) && 3 <= s.len() <= 49 || exists|k: int|
            3 <= k <= 49 && k < s.len() && s[k] == '.' && tunnel_word(#[trigger] s.take(k))
                && tunnel_word(s.skip(k + 1)) && s.len() - k - 1 <= 32,
{
    if tunnel_word(name) && 3 <= name.len() <= 49 {
        let one = seq![name];
        assert forall|i: int, j: int|
            0 <= i < one.len() && 0 <= j < one[i].len() implies #[trigger] one[i][j] != '.' by {
            assert(one[i][j] == name[j]);
        }
        pieces_of_joined(one, '.');
        assert(name.last() == name[name.len() - 1]);
        if tunnel_word(region) && region.len() <= 32 {
            let two = seq![name, region];
            assert forall|i: int, j: int|
                0 <= i < two.len() && 0 <= j < two[i].len() implies #[trigger] two[i][j] != '.' by {
                if i == 0 {
                    assert(two[i][j] == name[j]);
                } else {
                    assert(two[i][j] == region[j]);
                }
            }
            pieces_of_joined(two, '.');
            assert(two.drop_last() =~= one);
            assert(joined(two, seq!['.']) == name + seq!['.'] + region);
        }
    }
    if tunnel_id(s) {
        let p = pieces(s, '.');
        joined_of_pieces(s, '.');
        if p.len() == 1 {
            assert(s == p[0]);
        } else {
            assert(p.drop_last() =~= seq![p[0]]);
            assert(joined(p.drop_last(), seq!['.']) == p[0]);
            assert(p.last() == p[1]);
            assert(s == p[0] + seq!['.'] + p[1]);
            let k = p[0].len() as int;
            assert(s.take(k) =~= p[0]);
            assert(s.skip(k + 1) =~= p[1]);
            assert(tunnel_word(s.take(k)));
        }
    }
}

/// Nothing is wrong with the settings of a tunnel exactly where an attempt has time, its name is
/// one that a tunnel can have, each label is of 1 to 50 letters, digits, underscores, hyphens
/// and equals signs, and there are at most 100 different ones.
pub proof fn what_is_right_with_a_tunnel(d: DevTunnelView)
    ensures
        dev_tunnel_fault(d) is None <==> d.timeout_secs > 0 && (d.id is Some ==> tunnel_id(d.id->0))
            && (forall|i: int|
            0 <= i < d.labels.len() ==> 1 <= (#[trigger] d.labels[i]).len() <= 50) && (forall|
            i: int,
            j: int,
        |
            0 <= i < d.labels.len() && 0 <= j < d.labels[i].len() ==> '0' <= #[trigger]
                d.labels[i][j] <= '9' || 'a' <= d.labels[i][j] <= 'z' || 'A' <= d.labels[i][j]
                <= 'Z' || d.labels[i][j] == '_' || d.labels[i][j] == '-' || d.labels[i][j] == '=')
            && d.labels.to_set().len() <= 100,
{
    if dev_tunnel_fault(d) is None {
        assert forall|i: int, j: int|
            0 <= i < d.labels.len() && 0 <= j < d.labels[i].len() implies '0' <= #[trigger]
            d.labels[i][j] <= '9' || 'a' <= d.labels[i][j] <= 'z' || 'A' <= d.labels[i][j] <= 'Z'
            || d.labels[i][j] == '_' || d.labels[i][j] == '-' || d.labels[i][j] == '=' by {
            assert(custom_label(d.labels[i]));
            assert(alphanumeric(d.labels[i][j]) || d.labels[i][j] == '_' || d.labels[i][j] == '-'
                || d.labels[i][j] == '=');
        }
    } else if d.timeout_secs > 0 && (d.id is Some ==> tunnel_id(d.id->0))
        && d.labels.to_set().len() <= 100 {
        let i = choose|i: int| 0 <= i < d.labels.len() && !custom_label(#[trigger] d.labels[i]);
        if 1 <= d.labels[i].len() <= 50 {
            let j = choose|j: int|
                0 <= j < d.labels[i].len() && !(alphanumeric(#[trigger] d.labels[i][j])
                    || d.labels[i][j] == '_' || d.labels[i][j] == '-' || d.labels[i][j] == '=');
            assert(!alphanumeric(d.labels[i][j]));
        }
    }
}

/// A password, a key or a file of keys is enough to ask clients for proof of who they are.
pub proof fn what_asks_for_proof(c: ConfigView)
    ensures
        c.password is Some ==> explicit_auth(c),
        c.authorized_keys.len() > 0 ==> explicit_auth(c),
        c.authorized_key_lines.len() > 0 ==> explicit_auth(c),
        c.password is None && c.authorized_keys.len() == 0 && c.authorized_key_lines.len() == 0
            ==> !explicit_auth(c),
{
}

} // verus!
