//! The configuration file: one directive on each line, in the format of `sshd_config`.
//!
//! Directives that the server does not know are passed over, so that files written for
//! other servers can be read.

use crate::config::{
    default_config, find_unit, parse_tunnel_timeout, timeout, times, unit, Config, ConfigView,
    DevTunnelConfig, DevTunnelView,
};
use crate::error::{Error, ErrorView};
use crate::net::{
    address, addresses_have_no_port, group, groups, ip_text, ip_text_chars, ip_text_is_read,
    parse_ip, IpAddr,
};
use crate::number::{
    self, all_digits, decimal, digits, digits_are_read, hex_digit, number, number_up_to,
    numbers_are_read, what_numbers_are,
};
use crate::paths::{
    absolute, drive_len, is_absolute, join_path, placed, placed_is_absolute, PathStyle,
};
use crate::text::{
    append_texts, black_end, black_end_bounds, blank, chars, digit, find_char, find_last_char,
    find_white, first_at_bounds, is_white, last_char, last_char_bounds, lines, lines_of, lower,
    lowered, next_black, next_bounds, next_char, next_char_bounds, next_white, option_text,
    pieces, push_text, same, split_char, split_words, str_text, text, texts, to_lower, trim,
    trimmed, trimming_takes_white_space_away, white, words, words_are_found_one_by_one,
};
use vstd::prelude::*;

verus! {

/// What the standard library writes for a text in quotes, with `{:?}`.
pub uninterp spec fn debug_text(s: Seq<char>) -> Seq<char>;

/// Writes `s` with the `Debug` format of `str`: in quotes, and with the characters
/// escaped that the standard library escapes. The text depends on `s` alone.
#[verifier::external_body]
fn quoted(s: &str) -> (r: String)
    ensures
        r@ == debug_text(s@),
{
    format!("{:?}", s)
}

/// Where a comment begins in `s`, looking from `i` on: at a `#` that stands at the
/// start of the line or behind white space. The length of `s` where there is none.
pub open spec fn comment_start(s: Seq<char>, i: int) -> int
    decreases s.len() - i,
{
    if i >= s.len() {
        s.len() as int
    } else if s[i] == '#' && (i == 0 || white(s[i - 1])) {
        i
    } else {
        comment_start(s, i + 1)
    }
}

/// `s` without its comment.
pub open spec fn without_comment(s: Seq<char>) -> Seq<char> {
    s.take(comment_start(s, 0))
}

proof fn comment_start_bounds(s: Seq<char>, i: int)
    requires
        0 <= i <= s.len(),
    ensures
        i <= comment_start(s, i) <= s.len(),
        forall|k: int|
            i <= k < comment_start(s, i) ==> !(#[trigger] s[k] == '#' && (k == 0 || white(
                s[k - 1],
            ))),
    decreases s.len() - i,
{
    if i < s.len() {
        comment_start_bounds(s, i + 1);
    }
}

/// The line without its comment. A `#` begins a comment only at the start of the line
/// or behind white space, so that a `#` inside a value is kept.
pub fn strip_comment(line: &str) -> (r: String)
    ensures
        r@ == without_comment(line@),
{
    let v = chars(line);
    let mut i: usize = 0;
    proof {
        comment_start_bounds(line@, 0);
    }
    while i < v.len()
        invariant
            v@ == line@,
            i <= v@.len(),
            comment_start(line@, 0) == comment_start(line@, i as int),
        decreases v@.len() - i,
    {
        if v[i] == '#' && (i == 0 || is_white(v[i - 1])) {
            assert(line@.subrange(0, i as int) =~= line@.take(i as int));
            return text(&v, 0, i);
        }
        i = i + 1;
    }
    assert(line@.take(i as int) =~= line@);
    line.to_owned()
}

/// A line without a comment is left as it is.
pub proof fn comment_is_gone(s: Seq<char>)
    ensures
        without_comment(without_comment(s)) == without_comment(s),
{
    comment_start_bounds(s, 0);
    let t = without_comment(s);
    comment_start_bounds(t, 0);
    let k = comment_start(t, 0);
    if k < t.len() {
        comment_found(t, 0);
        assert(s[k] == t[k]);
        if k > 0 {
            assert(s[k - 1] == t[k - 1]);
        }
    }
    assert(t.take(t.len() as int) =~= t);
}

proof fn comment_found(s: Seq<char>, i: int)
    requires
        0 <= i <= s.len(),
        comment_start(s, i) < s.len(),
    ensures
        s[comment_start(s, i)] == '#',
        comment_start(s, i) == 0 || white(s[comment_start(s, i) - 1]),
    decreases s.len() - i,
{
    if i < s.len() && !(s[i] == '#' && (i == 0 || white(s[i - 1]))) {
        comment_found(s, i + 1);
    }
}

/// What `yes` and `no` stand for, in any mix of capitals and small letters.
pub open spec fn yes_no(s: Seq<char>) -> Option<bool> {
    if lowered(s) == "yes"@ {
        Some(true)
    } else if lowered(s) == "no"@ {
        Some(false)
    } else {
        None
    }
}

/// What `yes` and `no` stand for, in any mix of capitals and small letters.
pub fn parse_yes_no(value: &str) -> (r: Option<bool>)
    ensures
        r == yes_no(value@),
{
    let lower = to_lower(value);
    if same(lower.as_str(), "yes") {
        Some(true)
    } else if same(lower.as_str(), "no") {
        Some(false)
    } else {
        None
    }
}

/// The address in a `ListenAddress`: `address`, `address:port` or `[address]:port`.
pub open spec fn listen_address(s: Seq<char>) -> Option<IpAddr> {
    let v = trimmed(s);
    let colon = last_char(v, ':', v.len() as int);
    if v.len() > 0 && v[0] == '[' {
        let rest = v.skip(1);
        address(rest.take(next_char(rest, ']', 0)))
    } else if address(v) is Some {
        address(v)
    } else if colon >= 0 {
        address(v.take(colon))
    } else {
        None
    }
}

/// The address in a `ListenAddress`: `address`, `address:port` or `[address]:port`.
pub fn parse_listen_address(value: &str) -> (r: Option<IpAddr>)
    ensures
        r == listen_address(value@),
{
    let trimmed_value = trim(value);
    let v = chars(trimmed_value.as_str());
    if v.len() > 0 && v[0] == '[' {
        let len: usize = v.len();
        let rest = chars(text(&v, 1, len).as_str());
        assert(rest@ =~= v@.skip(1));
        let close: usize = find_char(&rest, ']', 0);
        assert(rest@.subrange(0, close as int) =~= rest@.take(close as int));
        return parse_ip(text(&rest, 0, close).as_str());
    }
    if let Some(addr) = parse_ip(trimmed_value.as_str()) {
        return Some(addr);
    }
    match find_last_char(&v, ':') {
        Some(colon) => {
            assert(v@.subrange(0, colon as int) =~= v@.take(colon as int));
            parse_ip(text(&v, 0, colon).as_str())
        },
        None => None,
    }
}

/// The seconds that a time stands for: a number of seconds, or a number and a unit,
/// with or without white space between them.
pub open spec fn time(s: Seq<char>) -> Option<nat> {
    let v = trimmed(s);
    match number_up_to(v, u64::MAX as nat) {
        Some(n) => Some(n),
        None => match unit(v) {
            None => None,
            Some(seconds) => match number::number(trimmed(v.drop_last())) {
                Some(n) => if n * seconds <= u64::MAX {
                    Some(n * seconds)
                } else {
                    None
                },
                None => None,
            },
        },
    }
}

/// The seconds that a time stands for, where they can be counted.
pub fn parse_time(value: &str) -> (r: Option<u64>)
    ensures
        r is Some <==> time(value@) is Some,
        r matches Some(n) ==> time(value@) == Some(n as nat),
{
    let trimmed_value = trim(value);
    if let Some(secs) = number::parse(trimmed_value.as_str(), u64::MAX) {
        return Some(secs);
    }
    let v = chars(trimmed_value.as_str());
    match find_unit(&v) {
        None => None,
        Some(seconds) => {
            let n: usize = v.len() - 1;
            assert(v@.subrange(0, n as int) =~= v@.drop_last());
            let front = trim(text(&v, 0, n).as_str());
            proof {
                if let Some(k) = number::number(front@) {
                    assert(k * seconds >= k) by (nonlinear_arith)
                        requires
                            seconds >= 1,
                            k >= 0,
                    ;
                }
            }
            match number::parse(front.as_str(), u64::MAX) {
                Some(k) => times(k, seconds),
                None => None,
            }
        },
    }
}

/// The text that a `Banner` directive stands for: what the file that it names holds,
/// or else the value itself.
pub open spec fn banner_text(value: Seq<char>, file: Option<Seq<char>>) -> Seq<char> {
    match file {
        Some(t) => t,
        None => value,
    }
}

/// The text that a `Banner` directive stands for, given what could be read of the
/// file that it names.
pub fn read_banner(value: &str, file: Option<String>) -> (r: String)
    ensures
        r@ == banner_text(value@, option_text(file)),
{
    match file {
        Some(t) => t,
        None => value.to_owned(),
    }
}

/// What has been read of a configuration file.
#[verifier::ext_equal]
pub struct ReadingView {
    pub config: ConfigView,
    /// Whether an `AcceptEnv` was read.
    pub env_seen: bool,
    /// Whether authentication by password was switched off.
    pub password_off: bool,
    /// Whether authentication by key was switched off.
    pub keys_off: bool,
}

/// What is read where nothing was read yet.
pub open spec fn nothing_read() -> ReadingView {
    ReadingView {
        config: default_config(),
        env_seen: false,
        password_off: false,
        keys_off: false,
    }
}

/// What one directive changes in the settings of the tunnel. The error is the name of
/// the directive, where its value is not valid.
pub open spec fn tunnel_directive(
    d: DevTunnelView,
    key: Seq<char>,
    value: Seq<char>,
) -> Result<DevTunnelView, Seq<char>> {
    if key == "devtunnelenable"@ {
        match yes_no(value) {
            Some(b) => Ok(DevTunnelView { enabled: b, ..d }),
            None => Err("DevTunnelEnable"@),
        }
    } else if key == "devtunnelautocreate"@ {
        match yes_no(value) {
            Some(b) => Ok(DevTunnelView { auto_create: b, ..d }),
            None => Err("DevTunnelAutoCreate"@),
        }
    } else if key == "devtunnelid"@ {
        Ok(DevTunnelView { id: Some(value), ..d })
    } else if key == "devtunneltimeout"@ {
        match timeout(value) {
            Some(n) => Ok(DevTunnelView { timeout_secs: n as u64, ..d }),
            None => Err("DevTunnelTimeout"@),
        }
    } else if key == "devtunnellabel"@ {
        Ok(DevTunnelView { labels: d.labels.push(value), ..d })
    } else if key == "devtunnelbin"@ {
        Ok(DevTunnelView { bin: Some(value), ..d })
    } else {
        Ok(d)
    }
}

/// What one directive changes. The error is the name of the directive, where its
/// value is not valid.
pub open spec fn directive(
    st: ReadingView,
    key: Seq<char>,
    value: Seq<char>,
) -> Result<ReadingView, Seq<char>> {
    let c = st.config;
    if key == "port"@ {
        match number_up_to(value, u16::MAX as nat) {
            Some(n) => Ok(ReadingView { config: ConfigView { port: n as u16, ..c }, ..st }),
            None => Err("Port"@),
        }
    } else if key == "listenaddress"@ {
        match listen_address(value) {
            Some(ip) => Ok(ReadingView { config: ConfigView { bind: ip, ..c }, ..st }),
            None => Err("ListenAddress"@),
        }
    } else if key == "hostkey"@ {
        Ok(
            ReadingView {
                config: ConfigView { host_keys: c.host_keys.push(value), ..c },
                ..st
            },
        )
    } else if key == "authorizedkeysfile"@ {
        Ok(
            ReadingView {
                config: ConfigView { authorized_keys: c.authorized_keys + words(value), ..c },
                ..st
            },
        )
    } else if key == "passwordauthentication"@ {
        Ok(
            ReadingView {
                config: ConfigView {
                    allow_anonymous: c.allow_anonymous && yes_no(value) is None,
                    ..c
                },
                password_off: st.password_off || yes_no(value) == Some(false),
                ..st
            },
        )
    } else if key == "pubkeyauthentication"@ {
        Ok(
            ReadingView {
                config: ConfigView {
                    allow_anonymous: c.allow_anonymous && yes_no(value) is None,
                    ..c
                },
                keys_off: st.keys_off || yes_no(value) == Some(false),
                ..st
            },
        )
    } else if key == "allowtcpforwarding"@ {
        Ok(
            ReadingView {
                config: ConfigView { allow_tcp_forwarding: lowered(value) != "no"@, ..c },
                ..st
            },
        )
    } else if key == "logingracetime"@ {
        match time(value) {
            Some(n) => Ok(
                ReadingView { config: ConfigView { login_grace_secs: n as u64, ..c }, ..st },
            ),
            None => Err("LoginGraceTime"@),
        }
    } else if key == "maxstartups"@ {
        match number_up_to(pieces(value, ':')[0], u32::MAX as nat) {
            Some(n) => Ok(ReadingView { config: ConfigView { max_startups: n as u32, ..c }, ..st }),
            None => Err("MaxStartups"@),
        }
    } else if key == "acceptenv"@ {
        let before = if st.env_seen {
            c.accept_env
        } else {
            Seq::empty()
        };
        Ok(
            ReadingView {
                config: ConfigView { accept_env: before + words(value), ..c },
                env_seen: true,
                ..st
            },
        )
    } else if key == "forcecommand"@ || key == "shell"@ {
        Ok(ReadingView { config: ConfigView { shell: Some(value), ..c }, ..st })
    } else if key == "banner"@ {
        Ok(ReadingView { config: ConfigView { banner: Some(value), ..c }, ..st })
    } else {
        match tunnel_directive(st.config.dev_tunnel, key, value) {
            Ok(d) => Ok(ReadingView { config: ConfigView { dev_tunnel: d, ..c }, ..st }),
            Err(name) => Err(name),
        }
    }
}

/// The directive on a line, in small letters, and its value. `None` where the line
/// holds no directive.
pub open spec fn key_value(line: Seq<char>) -> Option<(Seq<char>, Seq<char>)> {
    let t = trimmed(without_comment(line));
    let space = next_white(t, 0);
    if t.len() == 0 {
        None
    } else if space >= t.len() {
        Some((lowered(t), Seq::empty()))
    } else {
        Some((lowered(t.take(space)), trimmed(t.skip(space + 1))))
    }
}

/// The message about a value that is not valid, on the line with index `n`.
pub open spec fn invalid_text(n: int, name: Seq<char>, value: Seq<char>) -> Seq<char> {
    "line "@ + digits((n + 1) as nat) + ": invalid "@ + name + " value "@ + debug_text(value)
}

/// What the lines from index `n` on make of what was read before them, or the message
/// about the first value that is not valid.
pub open spec fn read_from(
    all: Seq<Seq<char>>,
    n: int,
    st: ReadingView,
) -> Result<ReadingView, Seq<char>>
    decreases all.len() - n,
{
    if n >= all.len() {
        Ok(st)
    } else {
        match key_value(all[n]) {
            None => read_from(all, n + 1, st),
            Some((key, value)) => match directive(st, key, value) {
                Ok(next) => read_from(all, n + 1, next),
                Err(name) => Err(invalid_text(n, name, value)),
            },
        }
    }
}

/// The settings that remain when authentication by password or by key is off.
pub open spec fn settled(st: ReadingView) -> ConfigView {
    let c = st.config;
    let c1 = if st.password_off {
        ConfigView { password: None, ..c }
    } else {
        c
    };
    if st.keys_off {
        ConfigView { authorized_keys: Seq::empty(), authorized_key_lines: Seq::empty(), ..c1 }
    } else {
        c1
    }
}

/// The failure that a message about a configuration file stands for.
pub open spec fn file_error(message: Seq<char>) -> ErrorView {
    ErrorView::ConfigFile { path: "<sshd_config>"@, message }
}

/// The settings that a configuration file stands for.
pub open spec fn parsed(input: Seq<char>) -> Result<ConfigView, ErrorView> {
    match read_from(lines_of(input), 0, nothing_read()) {
        Ok(st) => Ok(settled(st)),
        Err(message) => Err(file_error(message)),
    }
}

/// What has been read of a configuration file.
struct Reading {
    config: Config,
    env_seen: bool,
    password_off: bool,
    keys_off: bool,
}

impl View for Reading {
    type V = ReadingView;

    closed spec fn view(&self) -> ReadingView {
        ReadingView {
            config: self.config@,
            env_seen: self.env_seen,
            password_off: self.password_off,
            keys_off: self.keys_off,
        }
    }
}

/// Applies one directive about the tunnel. The error is the name of the directive.
fn apply_tunnel(d: &mut DevTunnelConfig, key: &str, value: &str) -> (r: Result<(), String>)
    ensures
        r is Ok <==> tunnel_directive(old(d)@, key@, value@) is Ok,
        r is Ok ==> tunnel_directive(old(d)@, key@, value@) == Ok::<DevTunnelView, Seq<char>>(
            final(d)@,
        ),
        r matches Err(name) ==> tunnel_directive(old(d)@, key@, value@) == Err::<
            DevTunnelView,
            Seq<char>,
        >(name@),
{
    let ghost before = d@;
    if same(key, "devtunnelenable") {
        match parse_yes_no(value) {
            Some(b) => d.enabled = b,
            None => return Err("DevTunnelEnable".to_owned()),
        }
    } else if same(key, "devtunnelautocreate") {
        match parse_yes_no(value) {
            Some(b) => d.auto_create = b,
            None => return Err("DevTunnelAutoCreate".to_owned()),
        }
    } else if same(key, "devtunnelid") {
        d.id = Some(value.to_owned());
    } else if same(key, "devtunneltimeout") {
        match parse_tunnel_timeout(value) {
            Ok(n) => d.timeout_secs = n,
            Err(_) => return Err("DevTunnelTimeout".to_owned()),
        }
    } else if same(key, "devtunnellabel") {
        push_text(&mut d.labels, value);
    } else if same(key, "devtunnelbin") {
        d.bin = Some(value.to_owned());
    }
    proof {
        if let Ok(next) = tunnel_directive(before, key@, value@) {
            assert(d@ =~= next);
        }
    }
    Ok(())
}

impl Reading {
    /// Applies one directive. The error is the name of the directive.
    #[verifier::rlimit(40)]
    fn apply(&mut self, key: &str, value: &str) -> (r: Result<(), String>)
        ensures
            r is Ok <==> directive(old(self)@, key@, value@) is Ok,
            r is Ok ==> directive(old(self)@, key@, value@) == Ok::<ReadingView, Seq<char>>(
                final(self)@,
            ),
            r matches Err(name) ==> directive(old(self)@, key@, value@) == Err::<
                ReadingView,
                Seq<char>,
            >(name@),
    {
        let ghost before = self@;
        if same(key, "port") {
            match number::parse(value, 0xffff) {
                Some(n) => self.config.port = n as u16,
                None => return Err("Port".to_owned()),
            }
        } else if same(key, "listenaddress") {
            match parse_listen_address(value) {
                Some(ip) => self.config.bind = ip,
                None => return Err("ListenAddress".to_owned()),
            }
        } else if same(key, "hostkey") {
            push_text(&mut self.config.host_keys, value);
        } else if same(key, "authorizedkeysfile") {
            append_texts(&mut self.config.authorized_keys, split_words(value));
        } else if same(key, "passwordauthentication") {
            match parse_yes_no(value) {
                Some(enabled) => {
                    self.config.allow_anonymous = false;
                    if !enabled {
                        self.password_off = true;
                    }
                },
                None => {},
            }
        } else if same(key, "pubkeyauthentication") {
            match parse_yes_no(value) {
                Some(enabled) => {
                    self.config.allow_anonymous = false;
                    if !enabled {
                        self.keys_off = true;
                    }
                },
                None => {},
            }
        } else if same(key, "allowtcpforwarding") {
            let lower = to_lower(value);
            self.config.allow_tcp_forwarding = !same(lower.as_str(), "no");
        } else if same(key, "logingracetime") {
            match parse_time(value) {
                Some(n) => self.config.login_grace_secs = n,
                None => return Err("LoginGraceTime".to_owned()),
            }
        } else if same(key, "maxstartups") {
            let parts = split_char(value, ':');
            assert(pieces(value@, ':')[0] == parts@[0]@);
            match number::parse(parts[0].as_str(), 0xffff_ffff) {
                Some(n) => self.config.max_startups = n as u32,
                None => return Err("MaxStartups".to_owned()),
            }
        } else if same(key, "acceptenv") {
            if !self.env_seen {
                self.config.accept_env = Vec::new();
                self.env_seen = true;
            }
            append_texts(&mut self.config.accept_env, split_words(value));
            assert(!before.env_seen ==> texts(Seq::<String>::empty()) =~= Seq::<Seq<char>>::empty());
        } else if same(key, "forcecommand") || same(key, "shell") {
            self.config.shell = Some(value.to_owned());
        } else if same(key, "banner") {
            self.config.banner = Some(value.to_owned());
        } else {
            match apply_tunnel(&mut self.config.dev_tunnel, key, value) {
                Ok(_) => {},
                Err(name) => return Err(name),
            }
        }
        proof {
            if let Ok(next) = directive(before, key@, value@) {
                assert(self@.config =~= next.config);
                assert(self@ =~= next);
            }
        }
        Ok(())
    }
}

/// The directive on a line, in small letters, and its value.
fn split_directive(line: &str) -> (r: Option<(String, String)>)
    ensures
        r is Some <==> key_value(line@) is Some,
        r matches Some(p) ==> key_value(line@) == Some((p.0@, p.1@)),
{
    let t = trim(strip_comment(line).as_str());
    let v = chars(t.as_str());
    let len: usize = v.len();
    if len == 0 {
        return None;
    }
    let space: usize = find_white(&v, 0);
    if space >= len {
        let empty = String::new();
        assert(empty@ =~= Seq::<char>::empty());
        return Some((to_lower(t.as_str()), empty));
    }
    assert(v@.subrange(0, space as int) =~= v@.take(space as int));
    assert(v@.subrange(space + 1, len as int) =~= v@.skip(space + 1));
    Some(
        (
            to_lower(text(&v, 0, space).as_str()),
            trim(text(&v, space + 1, len).as_str()),
        ),
    )
}

/// The failure about a value that is not valid, on the line with index `n`.
fn invalid(n: usize, name: &str, value: &str) -> (r: Error)
    requires
        n < usize::MAX,
    ensures
        r@ == file_error(invalid_text(n as int, name@, value@)),
{
    let mut message = "line ".to_owned();
    message.append(decimal(n as u64 + 1).as_str());
    message.append(": invalid ");
    message.append(name);
    message.append(" value ");
    message.append(quoted(value).as_str());
    Error::ConfigFile { path: "<sshd_config>".to_owned(), message }
}

/// Read a configuration file, starting from the default settings. The banner is left
/// as the file has it: see [`read_banner`].
pub fn parse(input: &str) -> (r: Result<Config, Error>)
    ensures
        r is Ok <==> parsed(input@) is Ok,
        r matches Ok(c) ==> parsed(input@) == Ok::<ConfigView, ErrorView>(c@),
        r matches Err(e) ==> parsed(input@) == Err::<ConfigView, ErrorView>(e@),
{
    let all = lines(input);
    let ghost view = lines_of(input@);
    let mut st = Reading {
        config: Config::default(),
        env_seen: false,
        password_off: false,
        keys_off: false,
    };
    assert(st@ =~= nothing_read());
    let mut n: usize = 0;
    while n < all.len()
        invariant
            view == lines_of(input@),
            view == texts(all@),
            n <= all@.len(),
            read_from(view, 0, nothing_read()) == read_from(view, n as int, st@),
        decreases all@.len() - n,
    {
        assert(view[n as int] == all@[n as int]@);
        if let Some((key, value)) = split_directive(all[n].as_str()) {
            match st.apply(key.as_str(), value.as_str()) {
                Ok(_) => {},
                Err(name) => return Err(invalid(n, name.as_str(), value.as_str())),
            }
        }
        n = n + 1;
    }
    let ghost read = st@;
    let mut config = st.config;
    if st.password_off {
        config.password = None;
    }
    if st.keys_off {
        config.authorized_keys = Vec::new();
        config.authorized_key_lines = Vec::new();
        assert(texts(Seq::<String>::empty()) =~= Seq::<Seq<char>>::empty());
    }
    assert(config@ =~= settled(read));
    Ok(config)
}

/// Whether the server knows a directive.
pub open spec fn known(key: Seq<char>) -> bool {
    ||| key == "port"@
    ||| key == "listenaddress"@
    ||| key == "hostkey"@
    ||| key == "authorizedkeysfile"@
    ||| key == "passwordauthentication"@
    ||| key == "pubkeyauthentication"@
    ||| key == "allowtcpforwarding"@
    ||| key == "logingracetime"@
    ||| key == "maxstartups"@
    ||| key == "acceptenv"@
    ||| key == "forcecommand"@
    ||| key == "shell"@
    ||| key == "banner"@
    ||| key == "subsystem"@
    ||| known_tunnel(key)
}

/// Whether the server knows a directive about the tunnel.
pub open spec fn known_tunnel(key: Seq<char>) -> bool {
    ||| key == "devtunnelenable"@
    ||| key == "devtunnelautocreate"@
    ||| key == "devtunnelid"@
    ||| key == "devtunneltimeout"@
    ||| key == "devtunnellabel"@
    ||| key == "devtunnelbin"@
}

/// Whether the server knows a directive.
pub fn is_known(key: &str) -> (r: bool)
    ensures
        r == known(key@),
{
    same(key, "port") || same(key, "listenaddress") || same(key, "hostkey") || same(
        key,
        "authorizedkeysfile",
    ) || same(key, "passwordauthentication") || same(key, "pubkeyauthentication") || same(
        key,
        "allowtcpforwarding",
    ) || same(key, "logingracetime") || same(key, "maxstartups") || same(key, "acceptenv") || same(
        key,
        "forcecommand",
    ) || same(key, "shell") || same(key, "banner") || same(key, "subsystem") || same(
        key,
        "devtunnelenable",
    ) || same(key, "devtunnelautocreate") || same(key, "devtunnelid") || same(
        key,
        "devtunneltimeout",
    ) || same(key, "devtunnellabel") || same(key, "devtunnelbin")
}

/// The directives of the lines `all` that the server does not know.
pub open spec fn unknown_keys(all: Seq<Seq<char>>) -> Seq<Seq<char>>
    decreases all.len(),
{
    if all.len() == 0 {
        all
    } else {
        let front = unknown_keys(all.drop_last());
        match key_value(all.last()) {
            Some((key, _)) => if known(key) {
                front
            } else {
                front.push(key)
            },
            None => front,
        }
    }
}

/// The directives of a configuration file that the server does not know, in small
/// letters. They are passed over, and a user is warned of them.
pub fn unsupported_directives(input: &str) -> (r: Vec<String>)
    ensures
        texts(r@) == unknown_keys(lines_of(input@)),
{
    let all = lines(input);
    let ghost view = lines_of(input@);
    let mut r: Vec<String> = Vec::new();
    let mut n: usize = 0;
    assert(view.take(0) =~= Seq::<Seq<char>>::empty());
    assert(texts(r@) =~= Seq::<Seq<char>>::empty());
    while n < all.len()
        invariant
            view == texts(all@),
            n <= all@.len(),
            texts(r@) == unknown_keys(view.take(n as int)),
        decreases all@.len() - n,
    {
        proof {
            assert(view.take(n + 1).drop_last() =~= view.take(n as int));
            assert(view.take(n + 1).last() == all@[n as int]@);
        }
        if let Some((key, _)) = split_directive(all[n].as_str()) {
            if !is_known(key.as_str()) {
                push_text(&mut r, key.as_str());
            }
        }
        n = n + 1;
    }
    assert(view.take(n as int) =~= view);
    r
}

/// A directive that the server does not know changes nothing, whatever its value is.
pub proof fn unknown_directives_change_nothing(st: ReadingView, key: Seq<char>, value: Seq<char>)
    requires
        !known(key),
    ensures
        directive(st, key, value) == Ok::<ReadingView, Seq<char>>(st),
{
    assert(tunnel_directive(st.config.dev_tunnel, key, value) == Ok::<DevTunnelView, Seq<char>>(
        st.config.dev_tunnel,
    ));
    let same_config = ConfigView { dev_tunnel: st.config.dev_tunnel, ..st.config };
    assert(same_config =~= st.config);
    assert((ReadingView { config: same_config, ..st }) =~= st);
}

/// The paths `p` as seen from the home directory, or the first of them that needs a
/// home directory where there is none.
pub open spec fn at_home(
    style: PathStyle,
    p: Seq<Seq<char>>,
    home: Option<Seq<char>>,
) -> Result<Seq<Seq<char>>, Seq<char>>
    decreases p.len(),
{
    if p.len() == 0 {
        Ok(Seq::empty())
    } else {
        match at_home(style, p.drop_last(), home) {
            Err(path) => Err(path),
            Ok(front) => if absolute(style, p.last()) {
                Ok(front.push(p.last()))
            } else {
                match home {
                    Some(h) => Ok(front.push(placed(style, h, p.last()))),
                    None => Err(p.last()),
                }
            },
        }
    }
}

/// The settings that a configuration file stands for, with the files of authorized
/// keys as seen from the home directory.
pub open spec fn parsed_for(
    style: PathStyle,
    input: Seq<char>,
    home: Option<Seq<char>>,
) -> Result<ConfigView, ErrorView> {
    match parsed(input) {
        Err(e) => Err(e),
        Ok(c) => match at_home(style, c.authorized_keys, home) {
            Ok(keys) => Ok(ConfigView { authorized_keys: keys, ..c }),
            Err(path) => Err(
                file_error(
                    "cannot resolve relative AuthorizedKeysFile "@ + path
                        + " without a home directory"@,
                ),
            ),
        },
    }
}

/// An error on the first paths is the error on all of them.
proof fn at_home_stops(style: PathStyle, p: Seq<Seq<char>>, home: Option<Seq<char>>, n: int)
    requires
        0 <= n <= p.len(),
        at_home(style, p.take(n), home) is Err,
    ensures
        at_home(style, p, home) == at_home(style, p.take(n), home),
    decreases p.len() - n,
{
    if n < p.len() {
        assert(p.take(n + 1).drop_last() =~= p.take(n));
        at_home_stops(style, p, home, n + 1);
    } else {
        assert(p.take(n) =~= p);
    }
}

/// Read a configuration file. Files of authorized keys that do not start at the root
/// are looked for in the home directory.
pub fn parse_for_user(style: PathStyle, input: &str, home: Option<&str>) -> (r: Result<
    Config,
    Error,
>)
    ensures
        r is Ok <==> parsed_for(style, input@, str_text(home)) is Ok,
        r matches Ok(c) ==> parsed_for(style, input@, str_text(home)) == Ok::<ConfigView, ErrorView>(
            c@,
        ),
        r matches Err(e) ==> parsed_for(style, input@, str_text(home)) == Err::<ConfigView, ErrorView>(
            e@,
        ),
{
    let mut config = match parse(input) {
        Ok(c) => c,
        Err(e) => return Err(e),
    };
    let ghost c = config@;
    let ghost all = config@.authorized_keys;
    let ghost h = str_text(home);
    let mut keys: Vec<String> = Vec::new();
    let mut i: usize = 0;
    assert(texts(keys@) =~= Seq::<Seq<char>>::empty());
    assert(all.take(0) =~= Seq::<Seq<char>>::empty());
    while i < config.authorized_keys.len()
        invariant
            parsed(input@) == Ok::<ConfigView, ErrorView>(c),
            c == config@,
            all == texts(config.authorized_keys@),
            all == c.authorized_keys,
            h == str_text(home),
            i <= config.authorized_keys@.len(),
            at_home(style, all.take(i as int), h) == Ok::<Seq<Seq<char>>, Seq<char>>(texts(keys@)),
        decreases config.authorized_keys@.len() - i,
    {
        let path = config.authorized_keys[i].as_str();
        let ghost before = keys@;
        proof {
            assert(all.take(i + 1).drop_last() =~= all.take(i as int));
            assert(all.take(i + 1).last() == path@);
        }
        let found = if is_absolute(style, path) {
            path.to_owned()
        } else {
            match home {
                Some(base) => join_path(style, base, path),
                None => {
                    proof {
                        at_home_stops(style, all, h, i + 1);
                    }
                    let mut message = "cannot resolve relative AuthorizedKeysFile ".to_owned();
                    message.append(path);
                    message.append(" without a home directory");
                    return Err(Error::ConfigFile { path: "<sshd_config>".to_owned(), message });
                },
            }
        };
        keys.push(found);
        assert(texts(keys@) =~= texts(before).push(found@));
        i = i + 1;
    }
    assert(all.take(i as int) =~= all);
    config.authorized_keys = keys;
    assert(config@ =~= ConfigView { authorized_keys: texts(keys@), ..c });
    Ok(config)
}

/// Whether a line changes nothing: one that is blank or holds only a comment, one with the
/// directive `Subsystem`, and one with a directive that the server does not know.
pub open spec fn passed_over(line: Seq<char>) -> bool {
    match key_value(line) {
        None => true,
        Some((key, _)) => !known(key) || key == "subsystem"@,
    }
}

/// Where the directive on a line ends.
pub open spec fn key_end(line: Seq<char>) -> int {
    let s = without_comment(line);
    next_white(s, next_black(s, 0))
}

/// Whether two lines are the same but for capitals and small letters in the directive.
pub open spec fn recased(a: Seq<char>, b: Seq<char>) -> bool {
    a.len() == b.len() && forall|i: int|
        0 <= i < a.len() ==> lower(#[trigger] a[i]) == lower(b[i]) && (i >= key_end(a) ==> a[i]
            == b[i])
}

/// Whether `y` is `x` with lines put in that change nothing, at any place, and with other
/// capitals and small letters in the directives.
pub open spec fn same_but_for_lines(x: Seq<Seq<char>>, y: Seq<Seq<char>>) -> bool
    decreases y.len(),
{
    if y.len() == 0 {
        x.len() == 0
    } else {
        ||| passed_over(y[0]) && same_but_for_lines(x, y.skip(1))
        ||| x.len() > 0 && recased(x[0], y[0]) && same_but_for_lines(x.skip(1), y.skip(1))
    }
}

proof fn subsystem_changes_nothing(st: ReadingView, value: Seq<char>)
    ensures
        directive(st, "subsystem"@, value) == Ok::<ReadingView, Seq<char>>(st),
{
    let key = "subsystem"@;
    reveal_strlit("subsystem");
    reveal_strlit("port");
    reveal_strlit("listenaddress");
    reveal_strlit("hostkey");
    reveal_strlit("authorizedkeysfile");
    reveal_strlit("passwordauthentication");
    reveal_strlit("pubkeyauthentication");
    reveal_strlit("allowtcpforwarding");
    reveal_strlit("logingracetime");
    reveal_strlit("maxstartups");
    reveal_strlit("acceptenv");
    reveal_strlit("forcecommand");
    reveal_strlit("shell");
    reveal_strlit("banner");
    reveal_strlit("devtunnelenable");
    reveal_strlit("devtunnelautocreate");
    reveal_strlit("devtunnelid");
    reveal_strlit("devtunneltimeout");
    reveal_strlit("devtunnellabel");
    reveal_strlit("devtunnelbin");
    assert(key.len() == 9 && key[0] == 's' && "acceptenv"@[0] == 'a');
    assert(key != "acceptenv"@);
    assert("port"@.len() == 4 && "listenaddress"@.len() == 13 && "hostkey"@.len() == 7
        && "authorizedkeysfile"@.len() == 18 && "passwordauthentication"@.len() == 22
        && "pubkeyauthentication"@.len() == 20 && "allowtcpforwarding"@.len() == 18
        && "logingracetime"@.len() == 14 && "maxstartups"@.len() == 11 && "forcecommand"@.len()
        == 12 && "shell"@.len() == 5 && "banner"@.len() == 6);
    assert("devtunnelenable"@.len() == 15 && "devtunnelautocreate"@.len() == 19
        && "devtunnelid"@.len() == 11 && "devtunneltimeout"@.len() == 16 && "devtunnellabel"@.len()
        == 14 && "devtunnelbin"@.len() == 12);
    assert(tunnel_directive(st.config.dev_tunnel, key, value) == Ok::<DevTunnelView, Seq<char>>(
        st.config.dev_tunnel,
    ));
    let same_config = ConfigView { dev_tunnel: st.config.dev_tunnel, ..st.config };
    assert(same_config =~= st.config);
    assert((ReadingView { config: same_config, ..st }) =~= st);
}

/// A line that is passed over changes nothing.
proof fn passed_over_changes_nothing(line: Seq<char>, st: ReadingView)
    requires
        passed_over(line),
    ensures
        key_value(line) matches Some((key, value)) ==> directive(st, key, value) == Ok::<
            ReadingView,
            Seq<char>,
        >(st),
{
    if let Some((key, value)) = key_value(line) {
        if known(key) {
            subsystem_changes_nothing(st, value);
        } else {
            unknown_directives_change_nothing(st, key, value);
        }
    }
}

proof fn case_keeps_the_comment(a: Seq<char>, b: Seq<char>, i: int)
    requires
        0 <= i <= a.len() == b.len(),
        forall|k: int| 0 <= k < a.len() ==> lower(#[trigger] a[k]) == lower(b[k]),
    ensures
        comment_start(a, i) == comment_start(b, i),
    decreases a.len() - i,
{
    if i < a.len() {
        assert(lower(a[i]) == lower(b[i]));
        if i > 0 {
            assert(lower(a[i - 1]) == lower(b[i - 1]));
        }
        case_keeps_the_comment(a, b, i + 1);
    }
}

proof fn case_keeps_white_space(a: Seq<char>, b: Seq<char>, i: int)
    requires
        0 <= i <= a.len() == b.len(),
        forall|k: int| 0 <= k < a.len() ==> lower(#[trigger] a[k]) == lower(b[k]),
    ensures
        next_white(a, i) == next_white(b, i),
        next_black(a, i) == next_black(b, i),
    decreases a.len() - i,
{
    if i < a.len() {
        assert(lower(a[i]) == lower(b[i]));
        case_keeps_white_space(a, b, i + 1);
    }
}

proof fn case_keeps_the_end(a: Seq<char>, b: Seq<char>, n: int)
    requires
        0 <= n <= a.len() == b.len(),
        forall|k: int| 0 <= k < a.len() ==> lower(#[trigger] a[k]) == lower(b[k]),
    ensures
        black_end(a, n) == black_end(b, n),
    decreases n,
{
    if n > 0 {
        assert(lower(a[n - 1]) == lower(b[n - 1]));
        case_keeps_the_end(a, b, n - 1);
    }
}

/// Capitals and small letters in the directive make no difference.
proof fn case_makes_no_difference(a: Seq<char>, b: Seq<char>)
    requires
        recased(a, b),
    ensures
        key_value(a) == key_value(b),
{
    case_keeps_the_comment(a, b, 0);
    comment_start_bounds(a, 0);
    let n = comment_start(a, 0);
    let ca = without_comment(a);
    let cb = without_comment(b);
    assert forall|k: int| 0 <= k < ca.len() implies lower(#[trigger] ca[k]) == lower(cb[k]) by {
        assert(lower(a[k]) == lower(b[k]));
    }
    case_keeps_white_space(ca, cb, 0);
    next_bounds(ca, 0);
    let start = next_black(ca, 0);
    let sa = ca.skip(start);
    let sb = cb.skip(start);
    assert forall|k: int| 0 <= k < sa.len() implies lower(#[trigger] sa[k]) == lower(sb[k]) by {
        assert(lower(ca[start + k]) == lower(cb[start + k]));
    }
    case_keeps_the_end(sa, sb, sa.len() as int);
    black_end_bounds(sa, sa.len() as int);
    let m = black_end(sa, sa.len() as int);
    let ta = trimmed(ca);
    let tb = trimmed(cb);
    assert(ta == sa.take(m) && tb == sb.take(m));
    assert forall|k: int| 0 <= k < ta.len() implies lower(#[trigger] ta[k]) == lower(tb[k]) by {
        assert(lower(sa[k]) == lower(sb[k]));
    }
    case_keeps_white_space(ta, tb, 0);
    let space = next_white(ta, 0);
    next_bounds(ta, 0);
    if space >= ta.len() {
        assert(lowered(ta) =~= lowered(tb));
    } else {
        assert(lowered(ta.take(space)) =~= lowered(tb.take(space))) by {
            assert forall|k: int| 0 <= k < space implies lower(ta.take(space)[k]) == lower(
                #[trigger] tb.take(space)[k],
            ) by {
                assert(lower(ta[k]) == lower(tb[k]));
            }
        }
        next_bounds(ca, start);
        let end = next_white(ca, start);
        assert(end <= start + space) by {
            if end > start + space {
                assert(!white(ca[start + space]));
                assert(ta[space] == ca[start + space]);
            }
        }
        assert(ta.skip(space + 1) =~= tb.skip(space + 1)) by {
            assert forall|k: int| 0 <= k < ta.len() - space - 1 implies ta.skip(space + 1)[k]
                == #[trigger] tb.skip(space + 1)[k] by {
                let i = start + space + 1 + k;
                assert(ta[space + 1 + k] == a[i]);
                assert(tb[space + 1 + k] == b[i]);
                assert(lower(a[i]) == lower(b[i]));
            }
        }
    }
}

/// What is read from line `n` of `x` on and from line `m` of `y` on.
proof fn read_alike(x: Seq<Seq<char>>, n: int, y: Seq<Seq<char>>, m: int, st: ReadingView)
    requires
        0 <= n <= x.len(),
        0 <= m <= y.len(),
        same_but_for_lines(x.skip(n), y.skip(m)),
    ensures
        read_from(x, n, st) is Ok <==> read_from(y, m, st) is Ok,
        read_from(x, n, st) is Ok ==> read_from(x, n, st) == read_from(y, m, st),
    decreases y.len() - m,
{
    let xs = x.skip(n);
    let ys = y.skip(m);
    if m < y.len() {
        assert(ys[0] == y[m]);
        assert(ys.skip(1) =~= y.skip(m + 1));
        if passed_over(ys[0]) && same_but_for_lines(xs, ys.skip(1)) {
            passed_over_changes_nothing(y[m], st);
            read_alike(x, n, y, m + 1, st);
        } else {
            assert(xs[0] == x[n]);
            assert(xs.skip(1) =~= x.skip(n + 1));
            case_makes_no_difference(x[n], y[m]);
            match key_value(x[n]) {
                None => read_alike(x, n + 1, y, m + 1, st),
                Some((key, value)) => if let Ok(next) = directive(st, key, value) {
                    read_alike(x, n + 1, y, m + 1, next);
                },
            }
        }
    }
}

/// Lines put in at any place that are blank, hold only a comment, the directive `Subsystem` or
/// one that the server does not know, and other capitals and small letters in the directives,
/// change nothing in what a configuration file stands for.
pub proof fn other_lines_change_nothing(x: Seq<char>, y: Seq<char>)
    requires
        same_but_for_lines(lines_of(x), lines_of(y)),
    ensures
        parsed(x) is Ok <==> parsed(y) is Ok,
        parsed(x) is Ok ==> parsed(x) == parsed(y),
{
    assert(lines_of(x).skip(0) =~= lines_of(x));
    assert(lines_of(y).skip(0) =~= lines_of(y));
    read_alike(lines_of(x), 0, lines_of(y), 0, nothing_read());
}

/// A file of lines that change nothing gives the default settings.
pub proof fn other_lines_give_the_defaults(input: Seq<char>)
    requires
        forall|i: int| 0 <= i < lines_of(input).len() ==> passed_over(#[trigger] lines_of(input)[i]),
    ensures
        parsed(input) == Ok::<ConfigView, ErrorView>(default_config()),
{
    other_lines_keep(lines_of(input), 0, nothing_read());
}

proof fn other_lines_keep(all: Seq<Seq<char>>, n: int, st: ReadingView)
    requires
        0 <= n <= all.len(),
        forall|i: int| n <= i < all.len() ==> passed_over(#[trigger] all[i]),
    ensures
        read_from(all, n, st) == Ok::<ReadingView, Seq<char>>(st),
    decreases all.len() - n,
{
    if n < all.len() {
        passed_over_changes_nothing(all[n], st);
        other_lines_keep(all, n + 1, st);
    }
}

/// What stays as it is once a directive has set it: that a client needs proof of who
/// it is, and that keys are not accepted.
proof fn directives_keep_closed(st: ReadingView, key: Seq<char>, value: Seq<char>)
    requires
        directive(st, key, value) is Ok,
    ensures
        !st.config.allow_anonymous ==> !directive(st, key, value)->Ok_0.config.allow_anonymous,
        st.keys_off ==> directive(st, key, value)->Ok_0.keys_off,
{
}

proof fn lines_keep_closed(all: Seq<Seq<char>>, n: int, st: ReadingView)
    requires
        0 <= n,
        read_from(all, n, st) is Ok,
    ensures
        !st.config.allow_anonymous ==> !read_from(all, n, st)->Ok_0.config.allow_anonymous,
        st.keys_off ==> read_from(all, n, st)->Ok_0.keys_off,
    decreases all.len() - n,
{
    if n < all.len() {
        match key_value(all[n]) {
            None => lines_keep_closed(all, n + 1, st),
            Some((key, value)) => {
                directives_keep_closed(st, key, value);
                lines_keep_closed(all, n + 1, directive(st, key, value)->Ok_0);
            },
        }
    }
}

proof fn line_takes_effect(
    all: Seq<Seq<char>>,
    n: int,
    st: ReadingView,
    k: int,
    key: Seq<char>,
    value: Seq<char>,
)
    requires
        0 <= n <= k < all.len(),
        key_value(all[k]) == Some((key, value)),
        key == "passwordauthentication"@ || key == "pubkeyauthentication"@,
        read_from(all, n, st) is Ok,
    ensures
        yes_no(value) is Some ==> !read_from(all, n, st)->Ok_0.config.allow_anonymous,
        key == "pubkeyauthentication"@ && yes_no(value) == Some(false) ==> read_from(
            all,
            n,
            st,
        )->Ok_0.keys_off,
    decreases all.len() - n,
{
    if n == k {
        reveal_strlit("port");
        reveal_strlit("listenaddress");
        reveal_strlit("hostkey");
        reveal_strlit("authorizedkeysfile");
        reveal_strlit("passwordauthentication");
        reveal_strlit("pubkeyauthentication");
        assert("port"@.len() == 4 && "listenaddress"@.len() == 13 && "hostkey"@.len() == 7
            && "authorizedkeysfile"@.len() == 18 && "passwordauthentication"@.len() == 22
            && "pubkeyauthentication"@.len() == 20);
        lines_keep_closed(all, n + 1, directive(st, key, value)->Ok_0);
    } else {
        match key_value(all[n]) {
            None => line_takes_effect(all, n + 1, st, k, key, value),
            Some((other, v)) => {
                line_takes_effect(all, n + 1, directive(st, other, v)->Ok_0, k, key, value);
            },
        }
    }
}

/// Once a configuration file switches authentication by password or by key on or off,
/// on any of its lines, a client without proof of who it is is not let in.
pub proof fn authentication_directives_close_access(
    input: Seq<char>,
    k: int,
    key: Seq<char>,
    value: Seq<char>,
)
    requires
        0 <= k < lines_of(input).len(),
        key_value(lines_of(input)[k]) == Some((key, value)),
        key == "passwordauthentication"@ || key == "pubkeyauthentication"@,
        yes_no(value) is Some,
        parsed(input) is Ok,
    ensures
        !parsed(input)->Ok_0.allow_anonymous,
{
    line_takes_effect(lines_of(input), 0, nothing_read(), k, key, value);
}

/// Once a configuration file switches authentication by key off, on any of its lines,
/// no key that it names is accepted.
pub proof fn keys_switched_off_are_gone(input: Seq<char>, k: int, value: Seq<char>)
    requires
        0 <= k < lines_of(input).len(),
        key_value(lines_of(input)[k]) == Some(("pubkeyauthentication"@, value)),
        yes_no(value) == Some(false),
        parsed(input) is Ok,
    ensures
        parsed(input)->Ok_0.authorized_keys.len() == 0,
        parsed(input)->Ok_0.authorized_key_lines.len() == 0,
{
    line_takes_effect(
        lines_of(input),
        0,
        nothing_read(),
        k,
        "pubkeyauthentication"@,
        value,
    );
}

/// The directives differ.
proof fn directives_are_told_apart()
    ensures
        "listenaddress"@ != "port"@,
        "hostkey"@ != "port"@,
        "authorizedkeysfile"@ != "port"@,
        "passwordauthentication"@ != "port"@,
        "pubkeyauthentication"@ != "port"@,
        "allowtcpforwarding"@ != "port"@,
        "logingracetime"@ != "port"@,
        "maxstartups"@ != "port"@,
        "acceptenv"@ != "port"@,
        "forcecommand"@ != "port"@,
        "shell"@ != "port"@,
        "banner"@ != "port"@,
        "devtunnelenable"@ != "port"@,
        "devtunnelautocreate"@ != "port"@,
        "devtunnelid"@ != "port"@,
        "devtunneltimeout"@ != "port"@,
        "devtunnellabel"@ != "port"@,
        "devtunnelbin"@ != "port"@,
        "subsystem"@ != "port"@,
        "hostkey"@ != "listenaddress"@,
        "authorizedkeysfile"@ != "listenaddress"@,
        "passwordauthentication"@ != "listenaddress"@,
        "pubkeyauthentication"@ != "listenaddress"@,
        "allowtcpforwarding"@ != "listenaddress"@,
        "logingracetime"@ != "listenaddress"@,
        "maxstartups"@ != "listenaddress"@,
        "acceptenv"@ != "listenaddress"@,
        "forcecommand"@ != "listenaddress"@,
        "shell"@ != "listenaddress"@,
        "banner"@ != "listenaddress"@,
        "devtunnelenable"@ != "listenaddress"@,
        "devtunnelautocreate"@ != "listenaddress"@,
        "devtunnelid"@ != "listenaddress"@,
        "devtunneltimeout"@ != "listenaddress"@,
        "devtunnellabel"@ != "listenaddress"@,
        "devtunnelbin"@ != "listenaddress"@,
        "subsystem"@ != "listenaddress"@,
        "authorizedkeysfile"@ != "hostkey"@,
        "passwordauthentication"@ != "hostkey"@,
        "pubkeyauthentication"@ != "hostkey"@,
        "allowtcpforwarding"@ != "hostkey"@,
        "logingracetime"@ != "hostkey"@,
        "maxstartups"@ != "hostkey"@,
        "acceptenv"@ != "hostkey"@,
        "forcecommand"@ != "hostkey"@,
        "shell"@ != "hostkey"@,
        "banner"@ != "hostkey"@,
        "devtunnelenable"@ != "hostkey"@,
        "devtunnelautocreate"@ != "hostkey"@,
        "devtunnelid"@ != "hostkey"@,
        "devtunneltimeout"@ != "hostkey"@,
        "devtunnellabel"@ != "hostkey"@,
        "devtunnelbin"@ != "hostkey"@,
        "subsystem"@ != "hostkey"@,
        "passwordauthentication"@ != "authorizedkeysfile"@,
        "pubkeyauthentication"@ != "authorizedkeysfile"@,
        "allowtcpforwarding"@ != "authorizedkeysfile"@,
        "logingracetime"@ != "authorizedkeysfile"@,
        "maxstartups"@ != "authorizedkeysfile"@,
        "acceptenv"@ != "authorizedkeysfile"@,
        "forcecommand"@ != "authorizedkeysfile"@,
        "shell"@ != "authorizedkeysfile"@,
        "banner"@ != "authorizedkeysfile"@,
        "devtunnelenable"@ != "authorizedkeysfile"@,
        "devtunnelautocreate"@ != "authorizedkeysfile"@,
        "devtunnelid"@ != "authorizedkeysfile"@,
        "devtunneltimeout"@ != "authorizedkeysfile"@,
        "devtunnellabel"@ != "authorizedkeysfile"@,
        "devtunnelbin"@ != "authorizedkeysfile"@,
        "subsystem"@ != "authorizedkeysfile"@,
        "pubkeyauthentication"@ != "passwordauthentication"@,
        "allowtcpforwarding"@ != "passwordauthentication"@,
        "logingracetime"@ != "passwordauthentication"@,
        "maxstartups"@ != "passwordauthentication"@,
        "acceptenv"@ != "passwordauthentication"@,
        "forcecommand"@ != "passwordauthentication"@,
        "shell"@ != "passwordauthentication"@,
        "banner"@ != "passwordauthentication"@,
        "devtunnelenable"@ != "passwordauthentication"@,
        "devtunnelautocreate"@ != "passwordauthentication"@,
        "devtunnelid"@ != "passwordauthentication"@,
        "devtunneltimeout"@ != "passwordauthentication"@,
        "devtunnellabel"@ != "passwordauthentication"@,
        "devtunnelbin"@ != "passwordauthentication"@,
        "subsystem"@ != "passwordauthentication"@,
        "allowtcpforwarding"@ != "pubkeyauthentication"@,
        "logingracetime"@ != "pubkeyauthentication"@,
        "maxstartups"@ != "pubkeyauthentication"@,
        "acceptenv"@ != "pubkeyauthentication"@,
        "forcecommand"@ != "pubkeyauthentication"@,
        "shell"@ != "pubkeyauthentication"@,
        "banner"@ != "pubkeyauthentication"@,
        "devtunnelenable"@ != "pubkeyauthentication"@,
        "devtunnelautocreate"@ != "pubkeyauthentication"@,
        "devtunnelid"@ != "pubkeyauthentication"@,
        "devtunneltimeout"@ != "pubkeyauthentication"@,
        "devtunnellabel"@ != "pubkeyauthentication"@,
        "devtunnelbin"@ != "pubkeyauthentication"@,
        "subsystem"@ != "pubkeyauthentication"@,
        "logingracetime"@ != "allowtcpforwarding"@,
        "maxstartups"@ != "allowtcpforwarding"@,
        "acceptenv"@ != "allowtcpforwarding"@,
        "forcecommand"@ != "allowtcpforwarding"@,
        "shell"@ != "allowtcpforwarding"@,
        "banner"@ != "allowtcpforwarding"@,
        "devtunnelenable"@ != "allowtcpforwarding"@,
        "devtunnelautocreate"@ != "allowtcpforwarding"@,
        "devtunnelid"@ != "allowtcpforwarding"@,
        "devtunneltimeout"@ != "allowtcpforwarding"@,
        "devtunnellabel"@ != "allowtcpforwarding"@,
        "devtunnelbin"@ != "allowtcpforwarding"@,
        "subsystem"@ != "allowtcpforwarding"@,
        "maxstartups"@ != "logingracetime"@,
        "acceptenv"@ != "logingracetime"@,
        "forcecommand"@ != "logingracetime"@,
        "shell"@ != "logingracetime"@,
        "banner"@ != "logingracetime"@,
        "devtunnelenable"@ != "logingracetime"@,
        "devtunnelautocreate"@ != "logingracetime"@,
        "devtunnelid"@ != "logingracetime"@,
        "devtunneltimeout"@ != "logingracetime"@,
        "devtunnellabel"@ != "logingracetime"@,
        "devtunnelbin"@ != "logingracetime"@,
        "subsystem"@ != "logingracetime"@,
        "acceptenv"@ != "maxstartups"@,
        "forcecommand"@ != "maxstartups"@,
        "shell"@ != "maxstartups"@,
        "banner"@ != "maxstartups"@,
        "devtunnelenable"@ != "maxstartups"@,
        "devtunnelautocreate"@ != "maxstartups"@,
        "devtunnelid"@ != "maxstartups"@,
        "devtunneltimeout"@ != "maxstartups"@,
        "devtunnellabel"@ != "maxstartups"@,
        "devtunnelbin"@ != "maxstartups"@,
        "subsystem"@ != "maxstartups"@,
        "forcecommand"@ != "acceptenv"@,
        "shell"@ != "acceptenv"@,
        "banner"@ != "acceptenv"@,
        "devtunnelenable"@ != "acceptenv"@,
        "devtunnelautocreate"@ != "acceptenv"@,
        "devtunnelid"@ != "acceptenv"@,
        "devtunneltimeout"@ != "acceptenv"@,
        "devtunnellabel"@ != "acceptenv"@,
        "devtunnelbin"@ != "acceptenv"@,
        "subsystem"@ != "acceptenv"@,
        "shell"@ != "forcecommand"@,
        "banner"@ != "forcecommand"@,
        "devtunnelenable"@ != "forcecommand"@,
        "devtunnelautocreate"@ != "forcecommand"@,
        "devtunnelid"@ != "forcecommand"@,
        "devtunneltimeout"@ != "forcecommand"@,
        "devtunnellabel"@ != "forcecommand"@,
        "devtunnelbin"@ != "forcecommand"@,
        "subsystem"@ != "forcecommand"@,
        "banner"@ != "shell"@,
        "devtunnelenable"@ != "shell"@,
        "devtunnelautocreate"@ != "shell"@,
        "devtunnelid"@ != "shell"@,
        "devtunneltimeout"@ != "shell"@,
        "devtunnellabel"@ != "shell"@,
        "devtunnelbin"@ != "shell"@,
        "subsystem"@ != "shell"@,
        "devtunnelenable"@ != "banner"@,
        "devtunnelautocreate"@ != "banner"@,
        "devtunnelid"@ != "banner"@,
        "devtunneltimeout"@ != "banner"@,
        "devtunnellabel"@ != "banner"@,
        "devtunnelbin"@ != "banner"@,
        "subsystem"@ != "banner"@,
        "devtunnelautocreate"@ != "devtunnelenable"@,
        "devtunnelid"@ != "devtunnelenable"@,
        "devtunneltimeout"@ != "devtunnelenable"@,
        "devtunnellabel"@ != "devtunnelenable"@,
        "devtunnelbin"@ != "devtunnelenable"@,
        "subsystem"@ != "devtunnelenable"@,
        "devtunnelid"@ != "devtunnelautocreate"@,
        "devtunneltimeout"@ != "devtunnelautocreate"@,
        "devtunnellabel"@ != "devtunnelautocreate"@,
        "devtunnelbin"@ != "devtunnelautocreate"@,
        "subsystem"@ != "devtunnelautocreate"@,
        "devtunneltimeout"@ != "devtunnelid"@,
        "devtunnellabel"@ != "devtunnelid"@,
        "devtunnelbin"@ != "devtunnelid"@,
        "subsystem"@ != "devtunnelid"@,
        "devtunnellabel"@ != "devtunneltimeout"@,
        "devtunnelbin"@ != "devtunneltimeout"@,
        "subsystem"@ != "devtunneltimeout"@,
        "devtunnelbin"@ != "devtunnellabel"@,
        "subsystem"@ != "devtunnellabel"@,
        "subsystem"@ != "devtunnelbin"@,
{
    reveal_strlit("port");
    reveal_strlit("listenaddress");
    reveal_strlit("hostkey");
    reveal_strlit("authorizedkeysfile");
    reveal_strlit("passwordauthentication");
    reveal_strlit("pubkeyauthentication");
    reveal_strlit("allowtcpforwarding");
    reveal_strlit("logingracetime");
    reveal_strlit("maxstartups");
    reveal_strlit("acceptenv");
    reveal_strlit("forcecommand");
    reveal_strlit("shell");
    reveal_strlit("banner");
    reveal_strlit("devtunnelenable");
    reveal_strlit("devtunnelautocreate");
    reveal_strlit("devtunnelid");
    reveal_strlit("devtunneltimeout");
    reveal_strlit("devtunnellabel");
    reveal_strlit("devtunnelbin");
    reveal_strlit("subsystem");
    assert("port"@.len() == 4);
    assert("listenaddress"@.len() == 13);
    assert("hostkey"@.len() == 7);
    assert("authorizedkeysfile"@.len() == 18);
    assert("passwordauthentication"@.len() == 22);
    assert("pubkeyauthentication"@.len() == 20);
    assert("allowtcpforwarding"@.len() == 18);
    assert("logingracetime"@.len() == 14);
    assert("maxstartups"@.len() == 11);
    assert("acceptenv"@.len() == 9);
    assert("forcecommand"@.len() == 12);
    assert("shell"@.len() == 5);
    assert("banner"@.len() == 6);
    assert("devtunnelenable"@.len() == 15);
    assert("devtunnelautocreate"@.len() == 19);
    assert("devtunnelid"@.len() == 11);
    assert("devtunneltimeout"@.len() == 16);
    assert("devtunnellabel"@.len() == 14);
    assert("devtunnelbin"@.len() == 12);
    assert("subsystem"@.len() == 9);
    assert("authorizedkeysfile"@[1] == 'u' && "allowtcpforwarding"@[1] == 'l');
    assert("logingracetime"@[0] == 'l' && "devtunnellabel"@[0] == 'd');
    assert("maxstartups"@[0] == 'm' && "devtunnelid"@[0] == 'd');
    assert("acceptenv"@[0] == 'a' && "subsystem"@[0] == 's');
    assert("forcecommand"@[0] == 'f' && "devtunnelbin"@[0] == 'd');
}


/// Each directive with a number, an address or a time sets that setting, and no other.
pub proof fn directives_with_one_value(
    st: ReadingView,
    port: u16,
    ip: IpAddr,
    max: u32,
    rest: Seq<char>,
    seconds: u64,
)
    ensures
        directive(st, "port"@, digits(port as nat)) == Ok::<
            ReadingView,
            Seq<char>,
        >(
            ReadingView {
                config: ConfigView { port, ..st.config },
                ..st
            },
        ),
        directive(st, "listenaddress"@, ip_text(ip)) == Ok::<
            ReadingView,
            Seq<char>,
        >(
            ReadingView {
                config: ConfigView { bind: ip, ..st.config },
                ..st
            },
        ),
        directive(st, "maxstartups"@, digits(max as nat)) == Ok::<
            ReadingView,
            Seq<char>,
        >(
            ReadingView {
                config: ConfigView { max_startups: max, ..st.config },
                ..st
            },
        ),
        directive(st, "maxstartups"@, digits(max as nat) + seq![':'] + rest) == Ok::<
            ReadingView,
            Seq<char>,
        >(
            ReadingView {
                config: ConfigView { max_startups: max, ..st.config },
                ..st
            },
        ),
        directive(st, "logingracetime"@, digits(seconds as nat)) == Ok::<
            ReadingView,
            Seq<char>,
        >(
            ReadingView {
                config: ConfigView { login_grace_secs: seconds, ..st.config },
                ..st
            },
        ),
{
    directives_are_told_apart();
    numbers_are_read(port as nat, u16::MAX as nat);
    numbers_are_read(max as nat, u32::MAX as nat);
    addresses_are_listened_at(ip);
    times_are_read(seconds as nat, Seq::empty());
    digits_are_read(max as nat);
    let d = digits(max as nat);
    let s = d + seq![':'] + rest;
    next_char_bounds(d, ':', 0);
    if next_char(d, ':', 0) < d.len() {
        assert(digit(d[next_char(d, ':', 0)]));
    }
    next_char_bounds(s, ':', 0);
    let k = next_char(s, ':', 0);
    assert(s[d.len() as int] == ':');
    if k < d.len() {
        assert(s[k] == d[k]);
        assert(digit(d[k]));
    }
    assert(s.take(k) =~= d);
}

/// Each directive with a text sets that setting, and no other: the last one counts. Host keys,
/// and the files of keys among the words of a value, are added to those there were.
pub proof fn directives_with_texts(st: ReadingView, value: Seq<char>)
    ensures
        directive(st, "hostkey"@, value) == Ok::<
            ReadingView,
            Seq<char>,
        >(
            ReadingView {
                config: ConfigView { host_keys: st.config.host_keys.push(value), ..st.config },
                ..st
            },
        ),
        directive(st, "authorizedkeysfile"@, value) == Ok::<
            ReadingView,
            Seq<char>,
        >(
            ReadingView {
                config: ConfigView {
                    authorized_keys: st.config.authorized_keys + words(value),
                    ..st.config
                },
                ..st
            },
        ),
        directive(st, "forcecommand"@, value) == Ok::<
            ReadingView,
            Seq<char>,
        >(
            ReadingView {
                config: ConfigView { shell: Some(value), ..st.config },
                ..st
            },
        ),
        directive(st, "shell"@, value) == Ok::<
            ReadingView,
            Seq<char>,
        >(
            ReadingView {
                config: ConfigView { shell: Some(value), ..st.config },
                ..st
            },
        ),
        directive(st, "banner"@, value) == Ok::<
            ReadingView,
            Seq<char>,
        >(
            ReadingView {
                config: ConfigView { banner: Some(value), ..st.config },
                ..st
            },
        ),
        st.env_seen ==> directive(st, "acceptenv"@, value) == Ok::<
            ReadingView,
            Seq<char>,
        >(
            ReadingView {
                config: ConfigView { accept_env: st.config.accept_env + words(value), ..st.config },
                ..st
            },
        ),
        !st.env_seen ==> directive(st, "acceptenv"@, value) == Ok::<
            ReadingView,
            Seq<char>,
        >(
            ReadingView {
                config: ConfigView { accept_env: words(value), ..st.config },
                env_seen: true,
                ..st
            },
        ),
{
    directives_are_told_apart();
    assert(Seq::<Seq<char>>::empty() + words(value) =~= words(value));
}

/// What `yes` and `no` change, in any mix of capitals and small letters. Forwarding is only
/// switched off by `no`.
pub proof fn directives_with_switches(st: ReadingView, value: Seq<char>)
    ensures
        directive(st, "allowtcpforwarding"@, value) == Ok::<
            ReadingView,
            Seq<char>,
        >(
            ReadingView {
                config: ConfigView { allow_tcp_forwarding: yes_no(value) != Some(false), ..st.config },
                ..st
            },
        ),
        yes_no(value) is Some ==> directive(st, "passwordauthentication"@, value) == Ok::<
            ReadingView,
            Seq<char>,
        >(
            ReadingView {
                config: ConfigView { allow_anonymous: false, ..st.config },
                password_off: st.password_off || !yes_no(value)->0,
                ..st
            },
        ),
        yes_no(value) is Some ==> directive(st, "pubkeyauthentication"@, value) == Ok::<
            ReadingView,
            Seq<char>,
        >(
            ReadingView {
                config: ConfigView { allow_anonymous: false, ..st.config },
                keys_off: st.keys_off || !yes_no(value)->0,
                ..st
            },
        ),
        yes_no(value) is None ==> directive(st, "passwordauthentication"@, value) == Ok::<
            ReadingView,
            Seq<char>,
        >(st),
        yes_no(value) is None ==> directive(st, "pubkeyauthentication"@, value) == Ok::<
            ReadingView,
            Seq<char>,
        >(st),
{
    directives_are_told_apart();
    reveal_strlit("yes");
    reveal_strlit("no");
    assert("yes"@.len() == 3 && "no"@.len() == 2);
    let same_config = ConfigView { allow_anonymous: st.config.allow_anonymous, ..st.config };
    assert(same_config =~= st.config);
}

/// Each directive about the tunnel sets that setting, and no other. Labels are added to those
/// there were.
pub proof fn directives_about_the_tunnel(st: ReadingView, value: Seq<char>)
    ensures
        yes_no(value) is Some ==> directive(st, "devtunnelenable"@, value) == Ok::<
            ReadingView,
            Seq<char>,
        >(
            ReadingView {
                config: ConfigView {
                    dev_tunnel: DevTunnelView {
                        enabled: yes_no(value)->0,
                        ..st.config.dev_tunnel
                    },
                    ..st.config
                },
                ..st
            },
        ),
        yes_no(value) is Some ==> directive(st, "devtunnelautocreate"@, value) == Ok::<
            ReadingView,
            Seq<char>,
        >(
            ReadingView {
                config: ConfigView {
                    dev_tunnel: DevTunnelView {
                        auto_create: yes_no(value)->0,
                        ..st.config.dev_tunnel
                    },
                    ..st.config
                },
                ..st
            },
        ),
        directive(st, "devtunnelid"@, value) == Ok::<
            ReadingView,
            Seq<char>,
        >(
            ReadingView {
                config: ConfigView {
                    dev_tunnel: DevTunnelView {
                        id: Some(value),
                        ..st.config.dev_tunnel
                    },
                    ..st.config
                },
                ..st
            },
        ),
        directive(st, "devtunnelbin"@, value) == Ok::<
            ReadingView,
            Seq<char>,
        >(
            ReadingView {
                config: ConfigView {
                    dev_tunnel: DevTunnelView {
                        bin: Some(value),
                        ..st.config.dev_tunnel
                    },
                    ..st.config
                },
                ..st
            },
        ),
        directive(st, "devtunnellabel"@, value) == Ok::<
            ReadingView,
            Seq<char>,
        >(
            ReadingView {
                config: ConfigView {
                    dev_tunnel: DevTunnelView {
                        labels: st.config.dev_tunnel.labels.push(value),
                        ..st.config.dev_tunnel
                    },
                    ..st.config
                },
                ..st
            },
        ),
        timeout(value) is Some ==> directive(st, "devtunneltimeout"@, value) == Ok::<
            ReadingView,
            Seq<char>,
        >(
            ReadingView {
                config: ConfigView {
                    dev_tunnel: DevTunnelView {
                        timeout_secs: timeout(value)->0 as u64,
                        ..st.config.dev_tunnel
                    },
                    ..st.config
                },
                ..st
            },
        ),
{
    directives_are_told_apart();
}

/// A value that is none is refused, with the name of its directive.
pub proof fn values_are_refused(st: ReadingView, value: Seq<char>)
    ensures
        number(value) is None || number(value)->0 > u16::MAX ==> directive(st, "port"@, value)
            == Err::<ReadingView, Seq<char>>("Port"@),
        listen_address(value) is None ==> directive(st, "listenaddress"@, value) == Err::<
            ReadingView,
            Seq<char>,
        >("ListenAddress"@),
        time(value) is None ==> directive(st, "logingracetime"@, value) == Err::<
            ReadingView,
            Seq<char>,
        >("LoginGraceTime"@),
        number(pieces(value, ':')[0]) is None || number(pieces(value, ':')[0])->0 > u32::MAX
            ==> directive(st, "maxstartups"@, value) == Err::<ReadingView, Seq<char>>(
            "MaxStartups"@,
        ),
        yes_no(value) is None ==> directive(st, "devtunnelenable"@, value) == Err::<
            ReadingView,
            Seq<char>,
        >("DevTunnelEnable"@),
        yes_no(value) is None ==> directive(st, "devtunnelautocreate"@, value) == Err::<
            ReadingView,
            Seq<char>,
        >("DevTunnelAutoCreate"@),
        timeout(value) is None ==> directive(st, "devtunneltimeout"@, value) == Err::<
            ReadingView,
            Seq<char>,
        >("DevTunnelTimeout"@),
{
    directives_are_told_apart();
}

proof fn small_letter(c: char, small: char, capital: char)
    requires
        'A' <= capital <= 'Z',
        small as int == capital as int + 32,
    ensures
        lower(c) == small <==> c == small || c == capital,
{
    if 'A' <= c <= 'Z' {
        assert(lower(c) as int == c as int + 32);
    }
}

/// The words `yes` and `no` are known in any mix of capitals and small letters, and nothing
/// else is.
pub proof fn what_yes_and_no_are(s: Seq<char>)
    ensures
        yes_no(s) == Some(true) <==> s.len() == 3 && (s[0] == 'y' || s[0] == 'Y') && (s[1] == 'e'
            || s[1] == 'E') && (s[2] == 's' || s[2] == 'S'),
        yes_no(s) == Some(false) <==> s.len() == 2 && (s[0] == 'n' || s[0] == 'N') && (s[1] == 'o'
            || s[1] == 'O'),
{
    reveal_strlit("yes");
    reveal_strlit("no");
    let t = lowered(s);
    assert("yes"@.len() == 3 && "no"@.len() == 2);
    if s.len() == 3 {
        small_letter(s[0], 'y', 'Y');
        small_letter(s[1], 'e', 'E');
        small_letter(s[2], 's', 'S');
        assert(t[0] == lower(s[0]) && t[1] == lower(s[1]) && t[2] == lower(s[2]));
        if lower(s[0]) == 'y' && lower(s[1]) == 'e' && lower(s[2]) == 's' {
            assert(t =~= "yes"@);
        }
    }
    if s.len() == 2 {
        small_letter(s[0], 'n', 'N');
        small_letter(s[1], 'o', 'O');
        assert(t[0] == lower(s[0]) && t[1] == lower(s[1]));
        if lower(s[0]) == 'n' && lower(s[1]) == 'o' {
            assert(t =~= "no"@);
        }
    }
}

/// A server listens at the address that is given, with or without white space around it, with
/// or without brackets around it and something behind them, and with or without a port where
/// that does not read as an address itself.
pub proof fn addresses_are_listened_at(ip: IpAddr)
    ensures
        listen_address(ip_text(ip)) == Some(ip),
        forall|rest: Seq<char>|
            rest.len() == 0 || !white(rest.last()) ==> #[trigger] listen_address(
                seq!['['] + ip_text(ip) + seq![']'] + rest,
            ) == Some(ip),
        forall|port: Seq<char>|
            all_digits(port) && address(ip_text(ip) + seq![':'] + port) is None
                ==> #[trigger] listen_address(ip_text(ip) + seq![':'] + port) == Some(ip),
{
    let t = ip_text(ip);
    ip_text_is_read(ip);
    ip_text_chars(ip);
    let none = Seq::<char>::empty();
    assert(!white(t[0]) && !white(t.last())) by {
        assert(t.last() == t[t.len() - 1]);
    }
    trimming_takes_white_space_away(none, t, none);
    assert(none + t + none =~= t);
    assert forall|rest: Seq<char>|
        rest.len() == 0 || !white(rest.last()) implies #[trigger] listen_address(
        seq!['['] + t + seq![']'] + rest,
    ) == Some(ip) by {
        let s = seq!['['] + t + seq![']'] + rest;
        assert(s[0] == '[');
        assert(s.last() == (if rest.len() == 0 {
            ']'
        } else {
            rest.last()
        }));
        trimming_takes_white_space_away(none, s, none);
        assert(none + s + none =~= s);
        let inner = s.skip(1);
        next_char_bounds(inner, ']', 0);
        let k = next_char(inner, ']', 0);
        assert(inner[t.len() as int] == ']');
        if k < t.len() {
            assert(inner[k] == t[k]);
        }
        assert(inner.take(k) =~= t);
    }
    assert forall|port: Seq<char>|
        all_digits(port) && address(t + seq![':'] + port) is None implies #[trigger] listen_address(
        t + seq![':'] + port,
    ) == Some(ip) by {
        let s = t + seq![':'] + port;
        assert(s[0] == t[0]);
        assert(s.last() == port[port.len() - 1]);
        trimming_takes_white_space_away(none, s, none);
        assert(none + s + none =~= s);
        let n = s.len() as int;
        last_char_bounds(s, ':', n);
        let colon = last_char(s, ':', n);
        assert(s[t.len() as int] == ':');
        if colon > t.len() {
            assert(s[colon] == port[colon - t.len() - 1]);
            assert(digit(port[colon - t.len() - 1]));
        }
        assert(s.take(colon) =~= t);
    }
}

/// The times of a configuration file are seconds, or seconds, minutes and hours where a unit
/// stands behind them, with or without white space between.
pub proof fn times_are_read(n: nat, gap: Seq<char>)
    requires
        blank(gap),
    ensures
        n <= u64::MAX ==> time(digits(n)) == Some(n),
        n <= u64::MAX ==> time(digits(n) + gap + seq!['s']) == Some(n),
        n * 60 <= u64::MAX ==> time(digits(n) + gap + seq!['m']) == Some(n * 60),
        n * 3600 <= u64::MAX ==> time(digits(n) + gap + seq!['h']) == Some(n * 3600),
        n * 60 > u64::MAX ==> time(digits(n) + gap + seq!['m']) is None,
        n * 3600 > u64::MAX ==> time(digits(n) + gap + seq!['h']) is None,
{
    let d = digits(n);
    digits_are_read(n);
    let none = Seq::<char>::empty();
    assert(digit(d[0]) && digit(d[d.len() - 1]));
    trimming_takes_white_space_away(none, d, none);
    assert(none + d + none =~= d);
    trimming_takes_white_space_away(none, d, gap);
    assert(none + d + gap =~= d + gap);
    time_with_unit(d, gap, 's');
    time_with_unit(d, gap, 'm');
    time_with_unit(d, gap, 'h');
    assert(unit(d + gap + seq!['s']) == Some(1nat));
    assert(unit(d + gap + seq!['m']) == Some(60nat));
    assert(unit(d + gap + seq!['h']) == Some(3600nat));
    assert(n * 1 == n);
}

proof fn time_with_unit(d: Seq<char>, gap: Seq<char>, u: char)
    requires
        blank(gap),
        all_digits(d),
        !white(u),
        !digit(u),
    ensures
        trimmed(d + gap + seq![u]) == d + gap + seq![u],
        trimmed((d + gap + seq![u]).drop_last()) == d,
        (d + gap + seq![u]).last() == u,
        number(d + gap + seq![u]) is None,
{
    let s = d + gap + seq![u];
    let none = Seq::<char>::empty();
    assert(digit(d[0]) && digit(d[d.len() - 1]));
    assert(s[0] == d[0]);
    trimming_takes_white_space_away(none, s, none);
    assert(none + s + none =~= s);
    assert(s.drop_last() =~= none + d + gap);
    trimming_takes_white_space_away(none, d, gap);
    assert(!digit(s[s.len() - 1]));
    what_numbers_are(s, u);
    if s[0] == '+' {
        assert(digit('+'));
    }
}

/// A line with a directive and its value is read as these two, whatever white space stands
/// around and between them.
pub proof fn directives_are_found(
    lead: Seq<char>,
    key: Seq<char>,
    gap: Seq<char>,
    value: Seq<char>,
    trail: Seq<char>,
)
    requires
        blank(lead),
        blank(gap),
        blank(trail),
        gap.len() > 0,
        key.len() > 0,
        key[0] != '#',
        forall|i: int| 0 <= i < key.len() ==> !white(#[trigger] key[i]),
        value.len() > 0,
        !white(value[0]),
        !white(value.last()),
        forall|i: int|
            0 <= i < value.len() && #[trigger] value[i] == '#' ==> i > 0 && !white(value[i - 1]),
    ensures
        key_value(lead + key + gap + value + trail) == Some((lowered(key), value)),
        key_value(lead + key + trail) == Some((lowered(key), Seq::<char>::empty())),
        key_value(lead) is None,
{
    let line = lead + key + gap + value + trail;
    let body = key + gap + value;
    assert(line =~= lead + body + trail);
    assert forall|k: int| 0 <= k < line.len() && #[trigger] line[k] == '#' implies k > 0 && !white(
        line[k - 1],
    ) by {
        let a = lead.len() as int;
        let b = a + key.len();
        let c = b + gap.len();
        let d = c + value.len();
        if k < a {
            assert(white(lead[k]));
        } else if k < b {
            assert(line[k] == key[k - a]);
            assert(line[k - 1] == key[k - a - 1]);
        } else if k < c {
            assert(white(gap[k - b]));
        } else if k < d {
            assert(line[k] == value[k - c]);
            assert(line[k - 1] == value[k - c - 1]);
        } else {
            assert(white(trail[k - d]));
        }
    }
    no_comment(line);
    assert(body[0] == key[0] && body.last() == value.last());
    trimming_takes_white_space_away(lead, body, trail);
    next_bounds(body, 0);
    let space = next_white(body, 0);
    assert(body[key.len() as int] == gap[0]);
    if space < key.len() {
        assert(body[space] == key[space]);
    }
    assert(body.take(space) =~= key);
    let rest = body.skip(space + 1);
    let none = Seq::<char>::empty();
    assert(rest =~= gap.skip(1) + value + none);
    trimming_takes_white_space_away(gap.skip(1), value, none);
    let bare = lead + key + trail;
    assert forall|k: int| 0 <= k < bare.len() && #[trigger] bare[k] == '#' implies k > 0 && !white(
        bare[k - 1],
    ) by {
        let a = lead.len() as int;
        let b = a + key.len();
        if k < a {
            assert(white(lead[k]));
        } else if k < b {
            assert(bare[k] == key[k - a]);
            assert(bare[k - 1] == key[k - a - 1]);
        } else {
            assert(white(trail[k - b]));
        }
    }
    no_comment(bare);
    assert(key.last() == key[key.len() - 1]);
    trimming_takes_white_space_away(lead, key, trail);
    next_bounds(key, 0);
    if next_white(key, 0) < key.len() {
        assert(!white(key[next_white(key, 0)]));
    }
    assert forall|k: int| 0 <= k < lead.len() && #[trigger] lead[k] == '#' implies k > 0 && !white(
        lead[k - 1],
    ) by {
        assert(white(lead[k]));
    }
    no_comment(lead);
    trimming_takes_white_space_away(lead, none, none);
    assert(lead + none + none =~= lead);
}

proof fn no_comment(s: Seq<char>)
    requires
        forall|k: int|
            0 <= k < s.len() && #[trigger] s[k] == '#' ==> k > 0 && !white(s[k - 1]),
    ensures
        without_comment(s) == s,
{
    comment_start_bounds(s, 0);
    if comment_start(s, 0) < s.len() {
        comment_found(s, 0);
    }
    assert(s.take(s.len() as int) =~= s);
}

/// A `#` at the start of a line or behind white space begins a comment, which says nothing:
/// the line is read as what stands before it.
pub proof fn comments_say_nothing(s: Seq<char>, comment: Seq<char>)
    requires
        s.len() == 0 || white(s.last()),
    ensures
        key_value(s + seq!['#'] + comment) == key_value(s),
{
    let line = s + seq!['#'] + comment;
    comment_start_bounds(line, 0);
    comment_start_bounds(s, 0);
    let k = comment_start(line, 0);
    let m = comment_start(s, 0);
    assert(line[s.len() as int] == '#');
    if s.len() > 0 {
        assert(line[s.len() - 1] == s.last());
    }
    assert(k <= s.len());
    comment_found(line, 0);
    assert(line.take(k) =~= s.take(m)) by {
        if m < s.len() {
            comment_found(s, 0);
            assert(line[m] == s[m]);
            if m > 0 {
                assert(line[m - 1] == s[m - 1]);
            }
        }
        if k < s.len() {
            assert(line[k] == s[k]);
            if k > 0 {
                assert(line[k - 1] == s[k - 1]);
            }
        }
        assert(k == m);
    }
}

proof fn read_in_two(a: Seq<Seq<char>>, b: Seq<Seq<char>>, n: int, st: ReadingView)
    requires
        0 <= n <= a.len(),
    ensures
        read_from(a, n, st) matches Ok(mid) ==> read_from(a + b, n, st) == read_from(
            a + b,
            a.len() as int,
            mid,
        ),
        read_from(a, n, st) is Err ==> read_from(a + b, n, st) == read_from(a, n, st),
    decreases a.len() - n,
{
    if n < a.len() {
        assert((a + b)[n] == a[n]);
        match key_value(a[n]) {
            None => read_in_two(a, b, n + 1, st),
            Some((key, value)) => if let Ok(next) = directive(st, key, value) {
                read_in_two(a, b, n + 1, next);
            },
        }
    }
}

/// Every line of a configuration file counts, from the first to the last: what its directive
/// makes of what was read before is what was read, or the message about its value, with the
/// number of the line.
pub proof fn every_line_counts(a: Seq<Seq<char>>, line: Seq<char>, mid: ReadingView)
    requires
        read_from(a, 0, nothing_read()) == Ok::<ReadingView, Seq<char>>(mid),
    ensures
        key_value(line) is None ==> read_from(a.push(line), 0, nothing_read()) == Ok::<
            ReadingView,
            Seq<char>,
        >(mid),
        key_value(line) matches Some((key, value)) ==> (directive(mid, key, value) matches Ok(next)
            ==> read_from(a.push(line), 0, nothing_read()) == Ok::<ReadingView, Seq<char>>(next)),
        key_value(line) matches Some((key, value)) ==> (directive(mid, key, value) matches Err(name)
            ==> read_from(a.push(line), 0, nothing_read()) == Err::<ReadingView, Seq<char>>(
            "line "@ + digits(a.len() + 1) + ": invalid "@ + name + " value "@ + debug_text(value),
        )),
{
    read_in_two(a, seq![line], 0, nothing_read());
    assert(a + seq![line] =~= a.push(line));
    let all = a.push(line);
    assert(all[a.len() as int] == line);
    reveal_with_fuel(read_from, 2);
}

/// The first value that is not valid decides the message about a configuration file.
pub proof fn the_first_fault_counts(a: Seq<Seq<char>>, b: Seq<Seq<char>>)
    requires
        read_from(a, 0, nothing_read()) is Err,
    ensures
        read_from(a + b, 0, nothing_read()) == read_from(a, 0, nothing_read()),
{
    read_in_two(a, b, 0, nothing_read());
}

/// What a configuration file stands for is what was read of its lines, or else the message. A
/// password and keys count unless authentication by them is off; nothing else is changed.
pub proof fn what_was_read_is_the_settings(input: Seq<char>)
    ensures
        read_from(lines_of(input), 0, nothing_read()) matches Err(message) ==> parsed(input)
            == Err::<ConfigView, ErrorView>(
            ErrorView::ConfigFile { path: "<sshd_config>"@, message },
        ),
        read_from(lines_of(input), 0, nothing_read()) matches Ok(st) ==> parsed(input) == Ok::<
            ConfigView,
            ErrorView,
        >(
            ConfigView {
                password: if st.password_off {
                    None
                } else {
                    st.config.password
                },
                authorized_keys: if st.keys_off {
                    Seq::empty()
                } else {
                    st.config.authorized_keys
                },
                authorized_key_lines: if st.keys_off {
                    Seq::empty()
                } else {
                    st.config.authorized_key_lines
                },
                ..st.config
            },
        ),
{
}

proof fn every_path_at_home(style: PathStyle, p: Seq<Seq<char>>, home: Option<Seq<char>>)
    ensures
        at_home(style, p, home) is Ok <==> home is Some || forall|i: int|
            0 <= i < p.len() ==> absolute(style, #[trigger] p[i]),
        at_home(style, p, home) matches Ok(r) ==> r.len() == p.len() && forall|i: int|
            0 <= i < p.len() ==> #[trigger] r[i] == (if absolute(style, p[i]) {
                p[i]
            } else {
                placed(style, home->0, p[i])
            }),
    decreases p.len(),
{
    if p.len() > 0 {
        let front = p.drop_last();
        every_path_at_home(style, front, home);
        assert(p.last() == p[p.len() - 1]);
        assert forall|i: int| 0 <= i < front.len() implies front[i] == #[trigger] p[i] by {}
        if at_home(style, p, home) is Ok {
            let r = at_home(style, p, home)->Ok_0;
            assert forall|i: int| 0 <= i < p.len() implies #[trigger] r[i] == (if absolute(
                style,
                p[i],
            ) {
                p[i]
            } else {
                placed(style, home->0, p[i])
            }) by {
                if i < front.len() {
                    assert(front[i] == p[i]);
                }
            }
        } else if home is None && at_home(style, front, home) is Ok {
            assert(!absolute(style, p[p.len() - 1]));
        } else if home is None {
            let i = choose|i: int| 0 <= i < front.len() && !absolute(style, #[trigger] front[i]);
            assert(!absolute(style, p[i]));
        }
    }
}

/// Every file of authorized keys that does not start at the root is looked for in the home
/// directory, and every other is left as it is. Nothing else changes. Without a home directory
/// such a file is refused, and where the home directory starts at the root, so does every file
/// that names no drive.
pub proof fn key_files_start_at_home(style: PathStyle, input: Seq<char>, home: Option<Seq<char>>)
    requires
        parsed(input) is Ok,
    ensures
        parsed_for(style, input, home) is Ok <==> home is Some || forall|i: int|
            0 <= i < parsed(input)->Ok_0.authorized_keys.len() ==> absolute(
                style,
                #[trigger] parsed(input)->Ok_0.authorized_keys[i],
            ),
        parsed_for(style, input, home) matches Ok(c) ==> c == (ConfigView {
            authorized_keys: c.authorized_keys,
            ..parsed(input)->Ok_0
        }),
        parsed_for(style, input, home) matches Ok(c) ==> c.authorized_keys.len() == parsed(
            input,
        )->Ok_0.authorized_keys.len() && forall|i: int|
            0 <= i < c.authorized_keys.len() ==> #[trigger] c.authorized_keys[i] == (if absolute(
                style,
                parsed(input)->Ok_0.authorized_keys[i],
            ) {
                parsed(input)->Ok_0.authorized_keys[i]
            } else {
                placed(style, home->0, parsed(input)->Ok_0.authorized_keys[i])
            }),
        parsed_for(style, input, home) matches Ok(c) ==> (home matches Some(h) && absolute(style, h)
            ==> forall|i: int|
            0 <= i < c.authorized_keys.len() && drive_len(
                style,
                parsed(input)->Ok_0.authorized_keys[i],
            ) == 0 ==> absolute(style, #[trigger] c.authorized_keys[i])),
{
    let p = parsed(input)->Ok_0.authorized_keys;
    every_path_at_home(style, p, home);
    if let Ok(c) = parsed_for(style, input, home) {
        if home is Some && absolute(style, home->0) {
            assert forall|i: int|
                0 <= i < c.authorized_keys.len() && drive_len(style, p[i]) == 0 implies absolute(
                style,
                #[trigger] c.authorized_keys[i],
            ) by {
                placed_is_absolute(style, home->0, p[i]);
            }
        }
    }
}

/// Without a home directory the message names the first file of authorized keys that does not
/// start at the root.
pub proof fn key_files_without_a_home(style: PathStyle, input: Seq<char>, n: int)
    requires
        parsed(input) is Ok,
        0 <= n < parsed(input)->Ok_0.authorized_keys.len(),
        !absolute(style, parsed(input)->Ok_0.authorized_keys[n]),
        forall|i: int|
            0 <= i < n ==> absolute(style, #[trigger] parsed(input)->Ok_0.authorized_keys[i]),
    ensures
        parsed_for(style, input, None) == Err::<ConfigView, ErrorView>(
            ErrorView::ConfigFile {
                path: "<sshd_config>"@,
                message: "cannot resolve relative AuthorizedKeysFile "@ + parsed(
                    input,
                )->Ok_0.authorized_keys[n] + " without a home directory"@,
            },
        ),
{
    let p = parsed(input)->Ok_0.authorized_keys;
    let front = p.take(n);
    assert forall|i: int| 0 <= i < front.len() implies absolute(style, #[trigger] front[i]) by {
        assert(front[i] == p[i]);
    }
    every_path_at_home(style, front, None);
    assert(p.take(n + 1).drop_last() =~= front);
    assert(p.take(n + 1).last() == p[n]);
    at_home_stops(style, p, None, n + 1);
}

/// A user is warned of every line with a directive that the server does not know, in the order
/// of the lines, and of no other line.
pub proof fn unknown_directives_are_reported(
    a: Seq<Seq<char>>,
    line: Seq<char>,
    key: Seq<char>,
    value: Seq<char>,
)
    requires
        key_value(line) == Some((key, value)),
    ensures
        (exists|st: ReadingView| #[trigger] directive(st, key, value) != Ok::<
            ReadingView,
            Seq<char>,
        >(st)) ==> unknown_keys(a.push(line)) == unknown_keys(a),
        key == "subsystem"@ ==> unknown_keys(a.push(line)) == unknown_keys(a),
        !known(key) ==> unknown_keys(a.push(line)) == unknown_keys(a).push(key),
{
    assert(a.push(line).drop_last() =~= a);
    if !known(key) {
        assert forall|st: ReadingView| #[trigger] directive(st, key, value) == Ok::<
            ReadingView,
            Seq<char>,
        >(st) by {
            unknown_directives_change_nothing(st, key, value);
        }
    }
}

/// A directive that the server knows is one that it acts on, or `Subsystem`.
pub proof fn known_directives_count(st: ReadingView, key: Seq<char>)
    requires
        known(key),
        key != "subsystem"@,
    ensures
        exists|before: ReadingView, value: Seq<char>| #[trigger] directive(before, key, value)
            != Ok::<ReadingView, Seq<char>>(before),
{
    let x = seq!['x'];
    let dx = st.config.dev_tunnel;
    assert(!digit(x[0]));
    let tunnel = DevTunnelView { id: None, bin: None, ..dx };
    let config = ConfigView {
        allow_anonymous: true,
        allow_tcp_forwarding: false,
        shell: None,
        banner: None,
        accept_env: seq![x],
        dev_tunnel: tunnel,
        ..st.config
    };
    let before = ReadingView { config, env_seen: false, ..st };
    directives_with_texts(before, x);
    directives_with_switches(before, x);
    directives_about_the_tunnel(before, x);
    values_are_refused(before, x);
    what_numbers_are(x, '0');
    what_yes_and_no_are(x);
    one_letter_is_nothing(x);
    let yes = seq!['y', 'e', 's'];
    what_yes_and_no_are(yes);
    directives_with_switches(before, yes);
    let none = Seq::<char>::empty();
    words_are_found_one_by_one(none, x, none);
    assert(none + x + none =~= x);
    assert(words(x).len() == 1);
    if key == "port"@ || key == "listenaddress"@ || key == "logingracetime"@ || key
        == "maxstartups"@ || key == "devtunnelenable"@ || key == "devtunnelautocreate"@ || key
        == "devtunneltimeout"@ {
        assert(directive(before, key, x) is Err);
    } else if key == "passwordauthentication"@ || key == "pubkeyauthentication"@ {
        let after = directive(before, key, yes)->Ok_0;
        assert(!after.config.allow_anonymous);
    } else {
        let after = directive(before, key, x)->Ok_0;
        if key == "hostkey"@ {
            assert(after.config.host_keys.len() == config.host_keys.len() + 1);
        } else if key == "authorizedkeysfile"@ {
            assert(after.config.authorized_keys.len() == config.authorized_keys.len() + 1);
        } else if key == "devtunnellabel"@ {
            assert(after.config.dev_tunnel.labels.len() == tunnel.labels.len() + 1);
        } else if key == "acceptenv"@ {
            assert(after.env_seen);
        }
        assert(after != before);
    }
}

proof fn one_letter_is_nothing(x: Seq<char>)
    requires
        x == seq!['x'],
    ensures
        number(x) is None,
        time(x) is None,
        timeout(x) is None,
        listen_address(x) is None,
        pieces(x, ':') == seq![x],
{
    let none = Seq::<char>::empty();
    trimming_takes_white_space_away(none, x, none);
    assert(none + x + none =~= x);
    assert(!digit(x[0]));
    next_char_bounds(x, ':', 0);
    last_char_bounds(x, ':', 1);
    assert(pieces(x, ':') =~= seq![x]);
    next_char_bounds(x, '.', 0);
    assert(pieces(x, '.').len() == 1);
    first_at_bounds(x, seq![':', ':'], 0);
    assert(!hex_digit(x[0]));
    assert(group(x) is None);
    assert(seq![x].drop_last() =~= Seq::<Seq<char>>::empty());
    assert(groups(seq![x], true) is None);
}

/// The text of the banner is what the file holds that the directive names, and the value
/// itself only where there is no such file.
pub proof fn banners_come_from_files(value: Seq<char>, text: Seq<char>)
    ensures
        banner_text(value, Some(text)) == text,
        banner_text(value, None) == value,
{
}

/// A server listens at an address of version 4 that a port stands behind.
pub proof fn addresses_with_ports_are_listened_at(a: u8, b: u8, c: u8, d: u8, port: nat)
    ensures
        listen_address(ip_text(IpAddr::V4(a, b, c, d)) + seq![':'] + digits(port)) == Some(
            IpAddr::V4(a, b, c, d),
        ),
{
    let ip = IpAddr::V4(a, b, c, d);
    digits_are_read(port);
    addresses_have_no_port(a, b, c, d, digits(port));
    addresses_are_listened_at(ip);
    let s = ip_text(ip) + seq![':'] + digits(port);
    assert(all_digits(digits(port)) && address(s) is None);
    assert(listen_address(s) == Some(ip));
}

/// What stands before a comment is kept as it is, and a `#` inside a word begins none.
pub proof fn what_is_left_without_comments(s: Seq<char>, comment: Seq<char>)
    requires
        forall|k: int|
            0 <= k < s.len() && #[trigger] s[k] == '#' ==> k > 0 && !white(s[k - 1]),
    ensures
        without_comment(s) == s,
        s.len() == 0 || white(s.last()) ==> without_comment(s + seq!['#'] + comment) == s,
{
    no_comment(s);
    if s.len() == 0 || white(s.last()) {
        let line = s + seq!['#'] + comment;
        comment_start_bounds(line, 0);
        let k = comment_start(line, 0);
        assert(line[s.len() as int] == '#');
        if s.len() > 0 {
            assert(line[s.len() - 1] == s.last());
        }
        comment_found(line, 0);
        if k < s.len() {
            assert(line[k] == s[k]);
            if k > 0 {
                assert(line[k - 1] == s[k - 1]);
            }
        }
        assert(line.take(k) =~= s);
    }
}

/// Every value that can be read as what its directive asks for is taken, however it is written.
pub proof fn directives_take_every_value(st: ReadingView, value: Seq<char>)
    ensures
        number(value) matches Some(n) ==> (n <= u16::MAX ==> directive(st, "port"@, value) == Ok::<
            ReadingView,
            Seq<char>,
        >(ReadingView { config: ConfigView { port: n as u16, ..st.config }, ..st })),
        listen_address(value) matches Some(ip) ==> directive(st, "listenaddress"@, value) == Ok::<
            ReadingView,
            Seq<char>,
        >(ReadingView { config: ConfigView { bind: ip, ..st.config }, ..st }),
        time(value) matches Some(n) ==> directive(st, "logingracetime"@, value) == Ok::<
            ReadingView,
            Seq<char>,
        >(ReadingView { config: ConfigView { login_grace_secs: n as u64, ..st.config }, ..st }),
        number(pieces(value, ':')[0]) matches Some(n) ==> (n <= u32::MAX ==> directive(
            st,
            "maxstartups"@,
            value,
        ) == Ok::<ReadingView, Seq<char>>(
            ReadingView { config: ConfigView { max_startups: n as u32, ..st.config }, ..st },
        )),
{
    directives_are_told_apart();
}

} // verus!
