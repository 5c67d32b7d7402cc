//! Connecting through a tunnel: the requests of a proxy, and what the tunnel program
//! and the server behind it write.

use crate::auth::same_secret;
use crate::config::{tunnel_id, valid_tunnel_id};
use crate::devtunnel::ipc::{Endpoint, Request, Response, VERSION};
use crate::devtunnel::network::{later, later_by};
use crate::net::{
    address, ip_text, ip_text_chars, ip_text_is_read, parse_ip, parse_socket, socket_address,
    socket_text, socket_text_is_read, SocketAddr,
};
use crate::number::{
    self, digits, digits_are_read, digits_up_to, hex_char, hex_digit, hex_digit_char,
    hex_digit_value, number_up_to, numbers_are_read,
};
use crate::text::{
    begins, blank, chars, contains, cut, digit, find_last_char, first_at, first_at_bounds, holds,
    last_char, last_char_bounds, next_char, next_char_bounds, option_text, split_once, stands_at,
    strip_prefix, text, trim, trimmed, trimming_takes_white_space_away, what_trimming_takes_away,
    white,
};
use vstd::prelude::*;

verus! {

/// A connection that a proxy is asked for. The time is in seconds.
#[derive(Debug)]
pub struct ProxyRequest {
    pub tunnel: String,
    pub remote_port: u16,
    pub local_port: Option<u16>,
    pub timeout: u64,
}

/// The time that a request may wait where none is given, in seconds.
pub const DEFAULT_PROXY_TIMEOUT: u64 = 300;

/// Whether the ports of a request can be ports.
pub open spec fn ports_valid(remote_port: u16, local_port: Option<u16>) -> bool {
    remote_port != 0 && local_port != Some(0u16)
}

/// What is wrong with a request.
pub open spec fn request_fault(r: ProxyRequest) -> Option<Seq<char>> {
    if !tunnel_id(r.tunnel@) {
        Some("invalid Dev Tunnels ID; use lowercase letters, digits and hyphens"@)
    } else if !ports_valid(r.remote_port, r.local_port) {
        Some("port must be between 1 and 65535"@)
    } else if r.timeout == 0 {
        Some("timeout must be positive"@)
    } else {
        None
    }
}

/// Checks a request before anything is done for it.
pub fn proxy(request: &ProxyRequest) -> (r: Result<(), String>)
    ensures
        r is Ok <==> request_fault(*request) is None,
        r matches Err(m) ==> request_fault(*request) == Some(m@),
{
    if !valid_tunnel_id(request.tunnel.as_str()) {
        return Err(
            "invalid Dev Tunnels ID; use lowercase letters, digits and hyphens".to_owned(),
        );
    }
    if request.remote_port == 0 || request.local_port == Some(0) {
        return Err("port must be between 1 and 65535".to_owned());
    }
    if request.timeout == 0 {
        return Err("timeout must be positive".to_owned());
    }
    Ok(())
}

/// The file that says where the manager of a tunnel listens.
pub fn endpoint_name(tunnel: &str) -> (r: String)
    ensures
        r@ == tunnel@ + ".json"@,
{
    let mut r = tunnel.to_owned();
    r.append(".json");
    r
}

/// The lock that the manager of a tunnel holds.
pub fn lock_name(tunnel: &str) -> (r: String)
    ensures
        r@ == tunnel@ + ".lock"@,
{
    let mut r = tunnel.to_owned();
    r.append(".lock");
    r
}

/// What a proxy says to the manager of its tunnel.
pub fn hello(endpoint: &Endpoint, request: &ProxyRequest) -> (r: Request)
    ensures
        r.version == VERSION,
        r.token@ == endpoint.token@,
        r.remote_port == request.remote_port,
        r.local_port == request.local_port,
{
    Request {
        version: VERSION,
        token: endpoint.token.clone(),
        remote_port: request.remote_port,
        local_port: request.local_port,
    }
}

/// What an answer of the manager has against a connection.
pub open spec fn response_fault(r: Response) -> Option<Seq<char>> {
    if r.version != VERSION {
        Some("incompatible sshdt tunnel manager; close existing sessions before retrying"@)
    } else {
        match r.error {
            Some(e) => Some(e@),
            None => None,
        }
    }
}

/// Whether an answer of the manager opens the connection.
pub fn check_response(response: Response) -> (r: Result<(), String>)
    ensures
        r is Ok <==> response_fault(response) is None,
        r matches Err(m) ==> response_fault(response) == Some(m@),
{
    if response.version != VERSION {
        return Err(
            "incompatible sshdt tunnel manager; close existing sessions before retrying".to_owned(),
        );
    }
    match response.error {
        Some(e) => Err(e),
        None => Ok(()),
    }
}

/// What came of trying to take a lock.
#[derive(Debug)]
pub enum LockAttempt {
    /// The lock was free, and is taken now.
    Taken,
    /// Another process holds it.
    WouldBlock,
    /// It could not be tried.
    Failed(String),
}

/// Whether another process holds the lock of a manager.
pub fn broker_lock_held(attempt: LockAttempt) -> (r: Result<bool, String>)
    ensures
        attempt is Taken ==> r == Ok::<bool, String>(false),
        attempt is WouldBlock ==> r == Ok::<bool, String>(true),
        attempt matches LockAttempt::Failed(e) ==> r == Err::<bool, String>(e),
{
    match attempt {
        LockAttempt::Taken => Ok(false),
        LockAttempt::WouldBlock => Ok(true),
        LockAttempt::Failed(e) => Err(e),
    }
}

/// The least time between two starts of a manager, in milliseconds.
pub const SPAWN_INTERVAL: u64 = 1_000;

/// The time between two looks for a manager, in milliseconds.
pub const SEARCH_PAUSE: u64 = 50;

/// How long a proxy waits for a connection to a manager, in milliseconds.
pub const CONNECT_TIME: u64 = 300;

/// The time between two looks whether a manager that has to answer still runs, in
/// milliseconds.
pub const ANSWER_CHECK: u64 = 100;

/// A proxy in search of the manager of its tunnel.
#[derive(Clone, Copy, Debug, PartialEq, Eq, Structural)]
pub struct Search {
    /// When a manager may be started again.
    pub next_spawn: u64,
}

/// What happens in a search.
#[derive(Debug)]
pub enum SearchEvent {
    /// The search begins, or goes on after a pause.
    Begin,
    /// The lock of the manager could not be opened.
    NoLock,
    /// The lock of the manager was tried.
    Lock(LockAttempt),
    /// Where the manager listens could be read, or could not.
    Endpoint { known: bool },
    /// The manager could be connected to, or could not.
    Connected { made: bool },
    /// The manager could be told what is asked for, or could not.
    Sent { done: bool },
    /// The lock of the manager was tried again before it has answered.
    Checked(LockAttempt),
    /// The manager was gone before it has answered.
    Lost,
    /// The manager has answered.
    Answered(Response),
    /// A manager was started.
    Spawned,
    /// No manager could be started.
    SpawnFailed,
}

/// What to do next in a search.
#[derive(Debug)]
pub enum SearchAction {
    /// Open the lock of the manager, and try it.
    TryLock,
    /// Read where the manager listens.
    ReadEndpoint,
    /// Connect to the manager, within this time.
    Connect { within: u64 },
    /// Tell the manager what is asked for.
    Send,
    /// Wait for the answer of the manager, and look after this time whether it still runs.
    Receive { check: u64 },
    /// The connection is open.
    Open,
    /// Start a manager.
    Spawn,
    /// Pause for this time, and go on.
    Pause(u64),
    /// Give up, for this reason.
    Fail(String),
}

/// What to do next in a search.
pub enum SearchView {
    TryLock,
    ReadEndpoint,
    Connect { within: u64 },
    Send,
    Receive { check: u64 },
    Open,
    Spawn,
    Pause(u64),
    Fail(Seq<char>),
}

impl View for SearchAction {
    type V = SearchView;

    open spec fn view(&self) -> SearchView {
        match self {
            SearchAction::TryLock => SearchView::TryLock,
            SearchAction::ReadEndpoint => SearchView::ReadEndpoint,
            SearchAction::Connect { within } => SearchView::Connect { within: *within },
            SearchAction::Send => SearchView::Send,
            SearchAction::Receive { check } => SearchView::Receive { check: *check },
            SearchAction::Open => SearchView::Open,
            SearchAction::Spawn => SearchView::Spawn,
            SearchAction::Pause(t) => SearchView::Pause(*t),
            SearchAction::Fail(m) => SearchView::Fail(m@),
        }
    }
}

/// What a search does where no manager could be reached: it starts one, but not too often,
/// and goes on.
pub open spec fn not_reached(s: Search, now: u64) -> (Search, SearchView) {
    if now >= s.next_spawn {
        (Search { next_spawn: later(now, SPAWN_INTERVAL) }, SearchView::Spawn)
    } else {
        (s, SearchView::Pause(SEARCH_PAUSE))
    }
}

/// What an event at the time `now` leads to. Only a lock that cannot be tried, an answer that
/// refuses the connection, and a manager that cannot be started end a search in vain.
pub open spec fn search_step(s: Search, event: SearchEvent, now: u64) -> (Search, SearchView) {
    match event {
        SearchEvent::Begin => (s, SearchView::TryLock),
        SearchEvent::NoLock => not_reached(s, now),
        SearchEvent::Lock(LockAttempt::Taken) => not_reached(s, now),
        SearchEvent::Lock(LockAttempt::WouldBlock) => (s, SearchView::ReadEndpoint),
        SearchEvent::Lock(LockAttempt::Failed(e)) => (s, SearchView::Fail(e@)),
        SearchEvent::Endpoint { known } => if known {
            (s, SearchView::Connect { within: CONNECT_TIME })
        } else {
            not_reached(s, now)
        },
        SearchEvent::Connected { made } => if made {
            (s, SearchView::Send)
        } else {
            not_reached(s, now)
        },
        SearchEvent::Sent { done } => if done {
            (s, SearchView::Receive { check: ANSWER_CHECK })
        } else {
            not_reached(s, now)
        },
        SearchEvent::Checked(LockAttempt::WouldBlock) => (
            s,
            SearchView::Receive { check: ANSWER_CHECK },
        ),
        SearchEvent::Checked(_) => not_reached(s, now),
        SearchEvent::Lost => not_reached(s, now),
        SearchEvent::Answered(r) => match response_fault(r) {
            Some(m) => (s, SearchView::Fail(m)),
            None => (s, SearchView::Open),
        },
        SearchEvent::Spawned => (s, SearchView::Pause(SEARCH_PAUSE)),
        SearchEvent::SpawnFailed => (s, SearchView::Fail("cannot start tunnel manager"@)),
    }
}

impl Search {
    /// A search that begins at the time `now`.
    pub fn new(now: u64) -> (r: Self)
        ensures
            r.next_spawn == now,
    {
        Search { next_spawn: now }
    }

    /// Whether to start a manager at the time `now`, where none could be reached.
    pub fn acquire(&mut self, now: u64) -> (r: bool)
        ensures
            r == (now >= old(self).next_spawn),
            final(self).next_spawn == (if r {
                later(now, SPAWN_INTERVAL)
            } else {
                old(self).next_spawn
            }),
    {
        if now >= self.next_spawn {
            self.next_spawn = later_by(now, SPAWN_INTERVAL);
            true
        } else {
            false
        }
    }

    fn miss(&mut self, now: u64) -> (r: SearchAction)
        ensures
            (*final(self), r@) == not_reached(*old(self), now),
    {
        if self.acquire(now) {
            SearchAction::Spawn
        } else {
            SearchAction::Pause(SEARCH_PAUSE)
        }
    }

    /// Takes an event at the time `now`, and says what to do next.
    pub fn step(&mut self, event: SearchEvent, now: u64) -> (r: SearchAction)
        ensures
            (*final(self), r@) == search_step(*old(self), event, now),
    {
        match event {
            SearchEvent::Begin => SearchAction::TryLock,
            SearchEvent::NoLock => self.miss(now),
            SearchEvent::Lock(attempt) => match broker_lock_held(attempt) {
                Ok(true) => SearchAction::ReadEndpoint,
                Ok(false) => self.miss(now),
                Err(e) => SearchAction::Fail(e),
            },
            SearchEvent::Endpoint { known } => if known {
                SearchAction::Connect { within: CONNECT_TIME }
            } else {
                self.miss(now)
            },
            SearchEvent::Connected { made } => if made {
                SearchAction::Send
            } else {
                self.miss(now)
            },
            SearchEvent::Sent { done } => if done {
                SearchAction::Receive { check: ANSWER_CHECK }
            } else {
                self.miss(now)
            },
            SearchEvent::Checked(attempt) => match broker_lock_held(attempt) {
                Ok(true) => SearchAction::Receive { check: ANSWER_CHECK },
                _ => self.miss(now),
            },
            SearchEvent::Lost => self.miss(now),
            SearchEvent::Answered(response) => match check_response(response) {
                Ok(_) => SearchAction::Open,
                Err(m) => SearchAction::Fail(m),
            },
            SearchEvent::Spawned => SearchAction::Pause(SEARCH_PAUSE),
            SearchEvent::SpawnFailed => SearchAction::Fail("cannot start tunnel manager".to_owned()),
        }
    }
}

/// A manager that is not reached never ends a search: the proxy tries again.
pub proof fn lost_managers_keep_the_search_going(s: Search, event: SearchEvent, now: u64)
    requires
        search_step(s, event, now).1 is Fail,
    ensures
        event is SpawnFailed || (event matches SearchEvent::Lock(a) && a is Failed) || (
        event matches SearchEvent::Answered(r) && response_fault(r) is Some),
{
}

/// Whether a line of the connector says that it failed to forward a port at its start.
pub open spec fn forwarding_failed(line: Seq<char>) -> bool {
    holds(line, "System.InvalidOperationException: Port "@) && holds(
        line,
        " is not being forwarded."@,
    )
}

/// Whether a line of the connector says that it failed to forward a port at its start.
pub fn startup_forwarding_failure(line: &str) -> (r: bool)
    ensures
        r == forwarding_failed(line@),
{
    contains(line, "System.InvalidOperationException: Port ") && contains(
        line,
        " is not being forwarded.",
    )
}

/// A line of the connector without white space around it and without the name of the
/// part that wrote it.
pub open spec fn message(line: Seq<char>) -> Seq<char> {
    let t = trimmed(line);
    if begins(t, "SSH: "@) {
        t.skip("SSH: "@.len() as int)
    } else {
        t
    }
}

fn read_message(line: &str) -> (r: String)
    ensures
        r@ == message(line@),
{
    let t = trim(line);
    match strip_prefix(t.as_str(), "SSH: ") {
        Some(rest) => rest,
        None => t,
    }
}

/// `s` without the dot at its end.
pub open spec fn without_dot(s: Seq<char>) -> Option<Seq<char>> {
    if s.len() > 0 && s.last() == '.' {
        Some(s.drop_last())
    } else {
        None
    }
}

fn drop_dot(s: &str) -> (r: Option<String>)
    ensures
        option_text(r) == without_dot(s@),
{
    let v = chars(s);
    if v.len() > 0 && v[v.len() - 1] == '.' {
        let n: usize = v.len() - 1;
        assert(v@.subrange(0, n as int) =~= v@.drop_last());
        Some(text(&v, 0, n))
    } else {
        None
    }
}

/// A local address that the connector can listen on: one of this machine, with a port.
pub open spec fn local(a: Option<SocketAddr>) -> Option<SocketAddr> {
    match a {
        Some(s) => if s.ip.loopback() && s.port != 0 {
            Some(s)
        } else {
            None
        },
        None => None,
    }
}

/// An address and a port with a colon between them, where the address stands without
/// brackets.
pub open spec fn loose_address(s: Seq<char>) -> Option<SocketAddr> {
    let colon = last_char(s, ':', s.len() as int);
    if colon < 0 {
        None
    } else {
        match (address(s.take(colon)), number_up_to(s.skip(colon + 1), u16::MAX as nat)) {
            (Some(ip), Some(port)) => Some(SocketAddr { ip, port: port as u16, scope: 0 }),
            _ => None,
        }
    }
}

/// What follows the words about listening.
pub open spec fn listening_part(m: Seq<char>) -> Option<Seq<char>> {
    let first = "PortForwardingService listening on "@;
    let other = "PortForwardingService also listening on "@;
    if begins(m, first) {
        Some(m.skip(first.len() as int))
    } else if begins(m, other) {
        Some(m.skip(other.len() as int))
    } else {
        None
    }
}

/// The local address that a line of the connector says it listens on.
pub open spec fn listening(line: Seq<char>) -> Option<SocketAddr> {
    match listening_part(message(line)) {
        None => None,
        Some(part) => match without_dot(part) {
            None => None,
            Some(s) => match socket_address(s) {
                Some(a) => local(Some(a)),
                None => local(loose_address(s)),
            },
        },
    }
}

fn parse_loose(s: &str) -> (r: Option<SocketAddr>)
    ensures
        r == loose_address(s@),
{
    let v = chars(s);
    let len: usize = v.len();
    match find_last_char(&v, ':') {
        None => None,
        Some(colon) => {
            assert(v@.subrange(0, colon as int) =~= v@.take(colon as int));
            assert(v@.subrange(colon + 1, len as int) =~= v@.skip(colon + 1));
            match (
                parse_ip(text(&v, 0, colon).as_str()),
                number::parse(text(&v, colon + 1, len).as_str(), 0xffff),
            ) {
                (Some(ip), Some(port)) => Some(SocketAddr { ip, port: port as u16, scope: 0 }),
                _ => None,
            }
        },
    }
}

fn keep_local(a: Option<SocketAddr>) -> (r: Option<SocketAddr>)
    ensures
        r == local(a),
{
    match a {
        Some(s) => if s.ip.is_loopback() && s.port != 0 {
            Some(s)
        } else {
            None
        },
        None => None,
    }
}

/// The local address that a line of the connector says it listens on.
pub fn listening_line(line: &str) -> (r: Option<SocketAddr>)
    ensures
        r == listening(line@),
{
    let m = read_message(line);
    let part = match strip_prefix(m.as_str(), "PortForwardingService listening on ") {
        Some(p) => p,
        None => match strip_prefix(m.as_str(), "PortForwardingService also listening on ") {
            Some(p) => p,
            None => return None,
        },
    };
    match drop_dot(part.as_str()) {
        None => None,
        Some(s) => match parse_socket(s.as_str()) {
            Some(a) => keep_local(Some(a)),
            None => keep_local(parse_loose(s.as_str())),
        },
    }
}

/// The remote port and the local address that a line of the connector says it forwards.
pub open spec fn forwarding(line: Seq<char>) -> Option<(u16, SocketAddr)> {
    let m = message(line);
    let start = "Forwarding from "@;
    if !begins(m, start) {
        None
    } else {
        match cut(m.skip(start.len() as int), " to host port "@) {
            None => None,
            Some((from, to)) => {
                let number = match without_dot(to) {
                    Some(s) => s,
                    None => to,
                };
                match (local(socket_address(from)), number_up_to(number, u16::MAX as nat)) {
                    (Some(a), Some(port)) => if port != 0 {
                        Some((port as u16, a))
                    } else {
                        None
                    },
                    _ => None,
                }
            },
        }
    }
}

/// The remote port and the local address that a line of the connector says it forwards.
pub fn forwarding_line(line: &str) -> (r: Option<(u16, SocketAddr)>)
    ensures
        r == forwarding(line@),
{
    let m = read_message(line);
    let rest = match strip_prefix(m.as_str(), "Forwarding from ") {
        Some(rest) => rest,
        None => return None,
    };
    let (from, to) = match split_once(rest.as_str(), " to host port ") {
        Some(p) => p,
        None => return None,
    };
    let number = match drop_dot(to.as_str()) {
        Some(s) => s,
        None => to,
    };
    match (keep_local(parse_socket(from.as_str())), number::parse(number.as_str(), 0xffff)) {
        (Some(a), Some(port)) => if port != 0 {
            Some((port as u16, a))
        } else {
            None
        },
        _ => None,
    }
}

/// Whatever the connector writes, only addresses of this machine are used.
pub proof fn only_local_addresses(line: Seq<char>)
    ensures
        listening(line) matches Some(a) ==> a.ip.loopback() && a.port != 0,
        forwarding(line) matches Some((port, a)) ==> a.ip.loopback() && a.port != 0 && port != 0,
{
}

/// How many bytes a server may send before it must have said which protocol it speaks.
pub const LONGEST_GREETING: usize = 8192;

/// Whether `s` begins with `p`.
pub open spec fn bytes_begin(s: Seq<u8>, p: Seq<u8>) -> bool {
    p.len() <= s.len() && s.take(p.len() as int) == p
}

/// `SSH-2.0-`.
pub open spec fn version_two() -> Seq<u8> {
    seq![83u8, 83, 72, 45, 50, 46, 48, 45]
}

/// `SSH-1.99-`.
pub open spec fn version_both() -> Seq<u8> {
    seq![83u8, 83, 72, 45, 49, 46, 57, 57, 45]
}

/// Whether a line, with its line feed, says which protocol a server speaks.
pub open spec fn identification(line: Seq<u8>) -> bool {
    (bytes_begin(line, version_two()) || bytes_begin(line, version_both())) && line.len() <= 255
}

/// The start of the line that the last byte of `s` stands in.
pub open spec fn line_start(s: Seq<u8>, n: int) -> int
    decreases n,
{
    if n <= 0 || s[n - 1] == 10 {
        n
    } else {
        line_start(s, n - 1)
    }
}

/// Whether `s` ends with a line that says which protocol a server speaks.
pub open spec fn greeting_ends(s: Seq<u8>) -> bool {
    s.len() > 0 && s.last() == 10 && identification(s.skip(line_start(s, s.len() - 1)))
}

/// Whether `s` is a greeting: its last line says which protocol a server speaks, no
/// earlier one does, and it is not too long.
pub open spec fn greeting(s: Seq<u8>) -> bool {
    &&& s.len() <= LONGEST_GREETING
    &&& greeting_ends(s)
    &&& forall|n: int| 0 <= n < s.len() ==> !greeting_ends(#[trigger] s.take(n))
}

/// Reads the greeting of a server.
pub struct GreetingReader {
    prefix: Vec<u8>,
    start: usize,
}

/// What has come of reading a greeting.
#[derive(Debug)]
pub enum GreetingStep {
    /// More bytes are needed.
    More,
    /// The greeting is there.
    Done,
    /// The server does not speak this protocol.
    Invalid,
}

fn starts_at(s: &Vec<u8>, from: usize, p: &[u8]) -> (r: bool)
    requires
        from <= s@.len(),
    ensures
        r == bytes_begin(s@.skip(from as int), p@),
{
    if p.len() > s.len() - from {
        return false;
    }
    let ghost t = s@.skip(from as int);
    let mut i: usize = 0;
    while i < p.len()
        invariant
            i <= p@.len(),
            from + p@.len() <= s@.len() <= usize::MAX,
            t == s@.skip(from as int),
            forall|k: int| 0 <= k < i ==> t[k] == p@[k],
        decreases p@.len() - i,
    {
        if s[from + i] != p[i] {
            assert(t.take(p@.len() as int)[i as int] != p@[i as int]);
            return false;
        }
        i = i + 1;
    }
    assert(t.take(p@.len() as int) =~= p@);
    true
}

proof fn line_start_bounds(s: Seq<u8>, n: int)
    requires
        0 <= n <= s.len(),
    ensures
        0 <= line_start(s, n) <= n,
    decreases n,
{
    if n > 0 {
        line_start_bounds(s, n - 1);
    }
}

proof fn line_start_prefix(s: Seq<u8>, t: Seq<u8>, n: int)
    requires
        0 <= n <= s.len(),
        n <= t.len(),
        s.take(n) == t.take(n),
    ensures
        line_start(s, n) == line_start(t, n),
    decreases n,
{
    if n > 0 {
        assert(s[n - 1] == s.take(n)[n - 1]);
        assert(t[n - 1] == t.take(n)[n - 1]);
        assert(s.take(n - 1) =~= s.take(n).take(n - 1));
        assert(t.take(n - 1) =~= t.take(n).take(n - 1));
        line_start_prefix(s, t, n - 1);
    }
}

impl GreetingReader {
    /// What has been read.
    pub closed spec fn read(self) -> Seq<u8> {
        self.prefix@
    }

    /// Whether more bytes may be read: none of the lines was a greeting, and there are
    /// not too many.
    pub closed spec fn wf(self) -> bool {
        &&& self.prefix@.len() < LONGEST_GREETING
        &&& self.start == line_start(self.prefix@, self.prefix@.len() as int)
        &&& forall|n: int|
            0 <= n <= self.prefix@.len() ==> !greeting_ends(#[trigger] self.prefix@.take(n))
    }

    /// A reader that has read nothing.
    pub fn new() -> (r: Self)
        ensures
            r.wf(),
            r.read() == Seq::<u8>::empty(),
    {
        let r = GreetingReader { prefix: Vec::new(), start: 0 };
        assert(r.prefix@.take(0) =~= Seq::<u8>::empty());
        r
    }

    /// Takes the next byte of the server.
    pub fn push(&mut self, byte: u8) -> (r: GreetingStep)
        requires
            old(self).wf(),
        ensures
            final(self).read() == old(self).read().push(byte),
            r is Done <==> greeting(final(self).read()),
            r is Invalid <==> !greeting(final(self).read()) && final(self).read().len()
                == LONGEST_GREETING,
            r is More ==> final(self).wf(),
    {
        let ghost before = self.prefix@;
        self.prefix.push(byte);
        let ghost s = self.prefix@;
        let n: usize = self.prefix.len();
        proof {
            assert(s.take(before.len() as int) =~= before);
            assert(before.take(before.len() as int) =~= before);
            line_start_bounds(before, before.len() as int);
            line_start_prefix(before, s, before.len() as int);
            assert forall|k: int| 0 <= k < s.len() implies !greeting_ends(#[trigger] s.take(k)) by {
                assert(s.take(k) =~= before.take(k));
            }
            assert(s.take(s.len() as int) =~= s);
        }
        if byte == 10 {
            let two: [u8; 8] = [83, 83, 72, 45, 50, 46, 48, 45];
            let both: [u8; 9] = [83, 83, 72, 45, 49, 46, 57, 57, 45];
            assert(two@ =~= version_two());
            assert(both@ =~= version_both());
            let named = starts_at(&self.prefix, self.start, two.as_slice()) || starts_at(
                &self.prefix,
                self.start,
                both.as_slice(),
            );
            if named && n - self.start <= 255 {
                return GreetingStep::Done;
            }
            self.start = n;
        }
        assert(!greeting_ends(s));
        if n >= LONGEST_GREETING {
            return GreetingStep::Invalid;
        }
        GreetingStep::More
    }

    /// The greeting, as it is passed on.
    pub fn finish(self) -> (r: Vec<u8>)
        ensures
            r@ == self.read(),
    {
        self.prefix
    }
}

/// Whether two texts are the same, in a time that depends on their lengths alone.
pub fn same_token(a: &str, b: &str) -> (r: bool)
    ensures
        r == (a@ == b@),
{
    same_secret(a, b)
}

/// The two small hexadecimal digits of each byte.
pub open spec fn hex_text(bytes: Seq<u8>) -> Seq<char>
    decreases bytes.len(),
{
    if bytes.len() == 0 {
        Seq::empty()
    } else {
        hex_text(bytes.drop_last()).push(hex_char((bytes.last() / 16) as int)).push(
            hex_char((bytes.last() % 16) as int),
        )
    }
}

/// The two small hexadecimal digits of each byte.
pub fn token_text(bytes: &[u8]) -> (r: String)
    ensures
        r@ == hex_text(bytes@),
        r@.len() == 2 * bytes@.len(),
{
    let mut r = String::new();
    let mut i: usize = 0;
    assert(bytes@.take(0) =~= Seq::<u8>::empty());
    while i < bytes.len()
        invariant
            i <= bytes@.len(),
            r@ == hex_text(bytes@.take(i as int)),
            r@.len() == 2 * i,
        decreases bytes@.len() - i,
    {
        let b = bytes[i];
        proof {
            assert(bytes@.take(i + 1).drop_last() =~= bytes@.take(i as int));
        }
        r.push(hex_digit_char((b / 16) as u16));
        r.push(hex_digit_char((b % 16) as u16));
        i = i + 1;
    }
    assert(bytes@.take(i as int) =~= bytes@);
    r
}

/// `rand::random` for 32 bytes. Nothing is known of them.
#[verifier::external_body]
fn random_bytes() -> (r: [u8; 32]) {
    rand::random()
}

/// A new token: the 64 hexadecimal digits of 32 random bytes.
pub fn new_token() -> (r: String)
    ensures
        r@.len() == 64,
        exists|bytes: Seq<u8>| bytes.len() == 32 && r@ == #[trigger] hex_text(bytes),
{
    let bytes = random_bytes();
    assert(bytes@.len() == 32);
    token_text(bytes.as_slice())
}

/// A connection is asked for exactly where the tunnel can be one, both ports can be ports, and
/// there is time.
pub proof fn which_requests_are_made(r: ProxyRequest)
    ensures
        request_fault(r) is None <==> tunnel_id(r.tunnel@) && r.remote_port > 0 && r.local_port
            != Some(0u16) && r.timeout > 0,
        !tunnel_id(r.tunnel@) ==> request_fault(r) == Some(
            "invalid Dev Tunnels ID; use lowercase letters, digits and hyphens"@,
        ),
        tunnel_id(r.tunnel@) && (r.remote_port == 0 || r.local_port == Some(0u16)) ==> request_fault(
            r,
        ) == Some("port must be between 1 and 65535"@),
        DEFAULT_PROXY_TIMEOUT == 300,
{
}

/// An answer opens the connection exactly where the manager speaks the same version and has
/// nothing against it. What it has against it is told as it is.
pub proof fn which_answers_open_connections(r: Response)
    ensures
        response_fault(r) is None <==> r.version == 1 && r.error is None,
        r.version == 1 && r.error is Some ==> response_fault(r) == Some(r.error->0@),
        r.version != 1 ==> response_fault(r) == Some(
            "incompatible sshdt tunnel manager; close existing sessions before retrying"@,
        ),
{
}

/// A search for a manager that runs goes from its lock over its address, the connection and the
/// request to its answer, and starts no manager.
pub proof fn searches_find_running_managers(s: Search, now: u64, answer: Response)
    ensures
        search_step(s, SearchEvent::Begin, now) == (s, SearchView::TryLock),
        search_step(s, SearchEvent::Lock(LockAttempt::WouldBlock), now) == (
            s,
            SearchView::ReadEndpoint,
        ),
        search_step(s, SearchEvent::Endpoint { known: true }, now) == (
            s,
            SearchView::Connect { within: 300 },
        ),
        search_step(s, SearchEvent::Connected { made: true }, now) == (s, SearchView::Send),
        search_step(s, SearchEvent::Sent { done: true }, now) == (
            s,
            SearchView::Receive { check: 100 },
        ),
        search_step(s, SearchEvent::Checked(LockAttempt::WouldBlock), now) == (
            s,
            SearchView::Receive { check: 100 },
        ),
        search_step(s, SearchEvent::Spawned, now) == (s, SearchView::Pause(50)),
        answer.version == 1 && answer.error is None ==> search_step(
            s,
            SearchEvent::Answered(answer),
            now,
        ) == (s, SearchView::Open),
        answer.version == 1 && answer.error is Some ==> search_step(
            s,
            SearchEvent::Answered(answer),
            now,
        ) == (s, SearchView::Fail(answer.error->0@)),
{
}

/// Whether an event says that no manager was reached.
pub open spec fn missed(event: SearchEvent) -> bool {
    ||| event is NoLock
    ||| event is Lost
    ||| event matches SearchEvent::Lock(a) && a is Taken
    ||| event matches SearchEvent::Endpoint { known } && !known
    ||| event matches SearchEvent::Connected { made } && !made
    ||| event matches SearchEvent::Sent { done } && !done
    ||| event matches SearchEvent::Checked(a) && !(a is WouldBlock)
}

/// Where no manager was reached, one is started, but none within a second of the start before.
pub proof fn missing_managers_are_started(s: Search, event: SearchEvent, now: u64)
    ensures
        missed(event) && now >= s.next_spawn ==> search_step(s, event, now).1 is Spawn,
        missed(event) && now < s.next_spawn ==> search_step(s, event, now) == (
            s,
            SearchView::Pause(50),
        ),
        search_step(s, event, now).1 is Spawn ==> missed(event) && now >= s.next_spawn
            && search_step(s, event, now).0.next_spawn == (if now + 1000 > u64::MAX {
            u64::MAX
        } else {
            (now + 1000) as u64
        }),
        !(search_step(s, event, now).1 is Spawn) ==> search_step(s, event, now).0 == s,
{
}

/// Two managers are started a second apart at the least, as far as times can be counted.
pub proof fn managers_are_started_apart(s: Search, a: SearchEvent, t: u64, b: SearchEvent, u: u64)
    requires
        search_step(s, a, t).1 is Spawn,
        search_step(search_step(s, a, t).0, b, u).1 is Spawn,
    ensures
        u >= t + 1000 || u == u64::MAX,
{
}

/// A line of the connector is known to say that a port was not forwarded, whatever port it is
/// and whatever stands around.
pub proof fn failures_to_forward_are_seen(
    before: Seq<char>,
    port: Seq<char>,
    behind: Seq<char>,
    line: Seq<char>,
)
    ensures
        forwarding_failed(
            before + "System.InvalidOperationException: Port "@ + port
                + " is not being forwarded."@ + behind,
        ),
        forwarding_failed(line) ==> holds(line, "System.InvalidOperationException: Port "@)
            && holds(line, " is not being forwarded."@),
{
    let a = "System.InvalidOperationException: Port "@;
    let b = " is not being forwarded."@;
    let s = before + a + port + b + behind;
    let i = before.len() as int;
    let j = (before + a + port).len() as int;
    assert(s.subrange(i, i + a.len()) =~= a);
    assert(s.subrange(j, j + b.len()) =~= b);
    assert(stands_at(s, a, i));
    assert(stands_at(s, b, j));
}

/// Whether a line is the text `m`, with or without `SSH: ` before it and white space around it.
pub open spec fn says(line: Seq<char>, m: Seq<char>) -> bool {
    exists|a: Seq<char>, named: bool, b: Seq<char>|
        blank(a) && blank(b) && line == #[trigger] written(a, named, m, b)
}

/// The text `m` as it stands in a line, between white space, with or without `SSH: ` before it.
pub open spec fn written(a: Seq<char>, named: bool, m: Seq<char>, b: Seq<char>) -> Seq<char> {
    if named {
        a + ("SSH: "@ + m) + b
    } else {
        a + m + b
    }
}

/// What a line of the connector says is read without the name of the part that wrote it, and
/// without white space around it.
pub proof fn messages_are_read(line: Seq<char>, m: Seq<char>)
    requires
        says(line, m),
        m.len() > 0,
        !white(m[0]),
        !white(m.last()),
        !begins(m, "SSH: "@),
    ensures
        message(line) == m,
{
    let (a, named, b) = choose|a: Seq<char>, named: bool, b: Seq<char>|
        blank(a) && blank(b) && line == #[trigger] written(a, named, m, b);
    reveal_strlit("SSH: ");
    if named {
        let t = "SSH: "@ + m;
        assert(t[0] == 'S');
        assert(t.last() == m.last());
        trimming_takes_white_space_away(a, t, b);
        assert(t.subrange(0, 5) =~= "SSH: "@);
        assert(t.skip(5) =~= m);
    } else {
        trimming_takes_white_space_away(a, m, b);
    }
}

proof fn address_has_no_space(a: SocketAddr)
    ensures
        socket_text(a).len() > 0,
        forall|k: int| 0 <= k < socket_text(a).len() ==> #[trigger] socket_text(a)[k] != ' ',
{
    let t = socket_text(a);
    let ip = ip_text(a.ip);
    let port = digits(a.port as nat);
    let scope = digits(a.scope as nat);
    ip_text_chars(a.ip);
    digits_are_read(a.port as nat);
    digits_are_read(a.scope as nat);
    assert forall|k: int| 0 <= k < t.len() implies #[trigger] t[k] != ' ' by {
        if a.ip is V4 {
            if k < ip.len() {
                assert(t[k] == ip[k]);
            } else if k > ip.len() {
                assert(t[k] == port[k - ip.len() - 1]);
                assert(digit(port[k - ip.len() - 1]));
            }
        } else {
            let n: int = if a.scope == 0 {
                0
            } else {
                scope.len() as int + 1
            };
            let end = 1 + ip.len() + n;
            if k == 0 {
            } else if k < 1 + ip.len() {
                assert(t[k] == ip[k - 1]);
            } else if k < end {
                if k > 1 + ip.len() {
                    assert(t[k] == scope[k - 2 - ip.len()]);
                    assert(digit(scope[k - 2 - ip.len()]));
                }
            } else if k >= end + 2 {
                assert(t[k] == port[k - end - 2]);
                assert(digit(port[k - end - 2]));
            }
        }
    }
}

/// The connector is heard where it says which port it forwards: for every address of this
/// machine with a port and every remote port, with or without the dot at the end.
pub proof fn forwarded_ports_are_heard(line: Seq<char>, a: SocketAddr, n: u16, dot: bool)
    requires
        a.ip is V4 ==> a.scope == 0,
        a.ip.loopback(),
        a.port != 0,
        n != 0,
        says(
            line,
            "Forwarding from "@ + socket_text(a) + " to host port "@ + digits(n as nat) + (if dot {
                seq!['.']
            } else {
                Seq::empty()
            }),
        ),
    ensures
        forwarding(line) == Some((n, a)),
{
    let d = digits(n as nat);
    let end = if dot {
        seq!['.']
    } else {
        Seq::empty()
    };
    let start = "Forwarding from "@;
    let mid = " to host port "@;
    let from = socket_text(a);
    let m = start + from + mid + d + end;
    reveal_strlit("Forwarding from ");
    reveal_strlit(" to host port ");
    reveal_strlit("SSH: ");
    digits_are_read(n as nat);
    numbers_are_read(n as nat, u16::MAX as nat);
    socket_text_is_read(a);
    address_has_no_space(a);
    assert(digit(d[d.len() - 1]));
    assert(m[0] == 'F');
    assert(!begins(m, "SSH: "@)) by {
        if begins(m, "SSH: "@) {
            assert(m.subrange(0, 5)[0] == m[0]);
            assert("SSH: "@[0] == 'S');
        }
    }
    assert(!white(m.last())) by {
        if dot {
            assert(m.last() == '.');
        } else {
            assert(m.last() == d[d.len() - 1]);
        }
    }
    messages_are_read(line, m);
    assert(m.subrange(0, start.len() as int) =~= start);
    let rest = m.skip(start.len() as int);
    assert(rest =~= from + mid + (d + end));
    assert(mid[0] == ' ');
    cut_at_the_words(from, mid, d + end);
    let to = d + end;
    if dot {
        assert(to.last() == '.');
        assert(to.drop_last() =~= d);
    } else {
        assert(to =~= d);
        assert(to.last() == d[d.len() - 1]);
    }
}

proof fn cut_at_the_words(from: Seq<char>, mid: Seq<char>, to: Seq<char>)
    requires
        mid.len() > 0,
        forall|k: int| 0 <= k < from.len() ==> #[trigger] from[k] != mid[0],
    ensures
        cut(from + mid + to, mid) == Some((from, to)),
{
    let rest = from + mid + to;
    first_at_bounds(rest, mid, 0);
    let i = from.len() as int;
    assert(rest.subrange(i, i + mid.len()) =~= mid);
    assert(stands_at(rest, mid, i));
    let k = first_at(rest, mid, 0)->0;
    if k < i {
        assert(rest.subrange(k, k + mid.len())[0] == rest[k]);
        assert(rest[k] == from[k]);
    }
    assert(rest.take(i) =~= from);
    assert(rest.skip(i + mid.len()) =~= to);
}

/// The connector is heard where it says at which address it listens: at every address of this
/// machine with a port, for the first time and again, with or without brackets around the
/// address.
pub proof fn listening_addresses_are_heard(line: Seq<char>, a: SocketAddr, also: bool, loose: bool)
    requires
        a.ip is V4 ==> a.scope == 0,
        loose ==> a.scope == 0,
        a.ip.loopback(),
        a.port != 0,
        says(
            line,
            (if also {
                "PortForwardingService also listening on "@
            } else {
                "PortForwardingService listening on "@
            }) + (if loose {
                ip_text(a.ip) + seq![':'] + digits(a.port as nat)
            } else {
                socket_text(a)
            }) + seq!['.'],
        ),
    ensures
        listening(line) == Some(a),
{
    let first = "PortForwardingService listening on "@;
    let other = "PortForwardingService also listening on "@;
    let start = if also {
        other
    } else {
        first
    };
    let text = if loose {
        ip_text(a.ip) + seq![':'] + digits(a.port as nat)
    } else {
        socket_text(a)
    };
    let m = start + text + seq!['.'];
    reveal_strlit("PortForwardingService listening on ");
    reveal_strlit("PortForwardingService also listening on ");
    reveal_strlit("SSH: ");
    assert(m[0] == 'P');
    assert(!begins(m, "SSH: "@)) by {
        if begins(m, "SSH: "@) {
            assert(m.subrange(0, 5)[0] == m[0]);
            assert("SSH: "@[0] == 'S');
        }
    }
    assert(m.last() == '.');
    messages_are_read(line, m);
    assert(first[22] == 'l' && other[22] == 'a');
    assert(m[22] == start[22]);
    assert(m.subrange(0, start.len() as int) =~= start);
    if also && begins(m, first) {
        assert(m.subrange(0, first.len() as int)[22] == m[22]);
    }
    let part = m.skip(start.len() as int);
    assert(part =~= text + seq!['.']);
    assert(part.drop_last() =~= text);
    socket_text_is_read(a);
    if loose {
        loose_text_is_read(a);
    }
}

proof fn loose_text_is_read(a: SocketAddr)
    requires
        a.scope == 0,
    ensures
        ({
            let s = ip_text(a.ip) + seq![':'] + digits(a.port as nat);
            socket_address(s) == Some(a) || (socket_address(s) is None && loose_address(s) == Some(
                a,
            ))
        }),
{
    let t = ip_text(a.ip);
    let d = digits(a.port as nat);
    let s = t + seq![':'] + d;
    ip_text_chars(a.ip);
    ip_text_is_read(a.ip);
    digits_are_read(a.port as nat);
    numbers_are_read(a.port as nat, u16::MAX as nat);
    if a.ip is V4 {
        socket_text_is_read(a);
    } else {
        assert(s[0] == t[0]);
        next_char_bounds(s, ':', 0);
        let first = next_char(s, ':', 0);
        let k = choose|k: int| 0 <= k < t.len() && t[k] == ':';
        assert(s[k] == ':');
        assert(first <= k);
        let rest = s.skip(first + 1);
        assert(rest[t.len() - first - 1] == s[t.len() as int]);
        assert(!digit(rest[t.len() - first - 1]));
        assert(digits_up_to(rest, u16::MAX as nat) is None);
        assert(socket_address(s) is None);
        let n = s.len() as int;
        last_char_bounds(s, ':', n);
        let colon = last_char(s, ':', n);
        assert(s[t.len() as int] == ':');
        if colon > t.len() {
            assert(s[colon] == d[colon - t.len() - 1]);
            assert(digit(d[colon - t.len() - 1]));
        }
        assert(s.take(colon) =~= t);
        assert(s.skip(colon + 1) =~= d);
    }
}

/// What stands in a message stands in its line.
proof fn held_by_the_line(line: Seq<char>, p: Seq<char>, k: int)
    requires
        stands_at(message(line), p, k),
    ensures
        holds(line, p),
{
    let m = message(line);
    let (a, b) = what_trimming_takes_away(line);
    let t = trimmed(line);
    let n = "SSH: "@.len() as int;
    let cut_off: int = if begins(t, "SSH: "@) {
        n
    } else {
        0
    };
    assert(m =~= t.skip(cut_off));
    let at = a.len() + cut_off + k;
    assert(line.subrange(at, at + p.len()) =~= m.subrange(k, k + p.len()));
    assert(stands_at(line, p, at));
}

proof fn held_further_on(s: Seq<char>, n: int, p: Seq<char>, k: int)
    requires
        0 <= n <= s.len(),
        stands_at(s.skip(n), p, k),
    ensures
        stands_at(s, p, n + k),
{
    assert(s.subrange(n + k, n + k + p.len()) =~= s.skip(n).subrange(k, k + p.len()));
}

proof fn held_at_the_start(s: Seq<char>, start: Seq<char>, p: Seq<char>, k: int)
    requires
        begins(s, start),
        stands_at(start, p, k),
    ensures
        stands_at(s, p, k),
{
    assert(s.subrange(k, k + p.len()) =~= s.subrange(0, start.len() as int).subrange(
        k,
        k + p.len(),
    ));
}

/// What a line of the connector is about is in the line: one without these words announces
/// nothing.
pub proof fn other_lines_announce_nothing(line: Seq<char>)
    ensures
        !holds(line, "Forwarding from "@) ==> forwarding(line) is None,
        !holds(line, " to host port "@) ==> forwarding(line) is None,
        !holds(line, "listening on "@) ==> listening(line) is None,
{
    let m = message(line);
    let from = "Forwarding from "@;
    let mid = " to host port "@;
    if begins(m, from) {
        held_by_the_line(line, from, 0);
        let rest = m.skip(from.len() as int);
        first_at_bounds(rest, mid, 0);
        if let Some(k) = first_at(rest, mid, 0) {
            held_further_on(m, from.len() as int, mid, k);
            held_by_the_line(line, mid, from.len() + k);
        }
    }
    let words = "listening on "@;
    let first = "PortForwardingService listening on "@;
    let other = "PortForwardingService also listening on "@;
    reveal_strlit("listening on ");
    reveal_strlit("PortForwardingService listening on ");
    reveal_strlit("PortForwardingService also listening on ");
    if begins(m, first) {
        assert(first.subrange(22, 35) =~= words);
        held_at_the_start(m, first, words, 22);
        held_by_the_line(line, words, 22);
    } else if begins(m, other) {
        assert(other.subrange(27, 40) =~= words);
        held_at_the_start(m, other, words, 27);
        held_by_the_line(line, words, 27);
    }
}

proof fn line_starts_behind(s: Seq<u8>, start: int, n: int)
    requires
        0 <= start <= n <= s.len(),
        start == 0 || s[start - 1] == 10,
        forall|k: int| start <= k < n ==> #[trigger] s[k] != 10,
    ensures
        line_start(s, n) == start,
    decreases n,
{
    if n > start {
        line_starts_behind(s, start, n - 1);
    }
}

/// The greeting of a server ends with the first line, of at most 255 bytes, that begins with
/// `SSH-2.0-` or `SSH-1.99-`, whatever lines stand before it, as long as all of it has at most
/// 8192 bytes.
pub proof fn greetings_end_with_the_protocol(
    before: Seq<u8>,
    two: bool,
    name: Seq<u8>,
)
    requires
        before.len() == 0 || before.last() == 10,
        forall|n: int| 0 <= n <= before.len() ==> !greeting_ends(#[trigger] before.take(n)),
        forall|k: int| 0 <= k < name.len() ==> #[trigger] name[k] != 10,
        name.len() <= (if two {
            246int
        } else {
            245
        }),
        before.len() + name.len() + (if two {
            9int
        } else {
            10
        }) <= 8192,
    ensures
        greeting(
            before + (if two {
                seq![83u8, 83, 72, 45, 50, 46, 48, 45]
            } else {
                seq![83u8, 83, 72, 45, 49, 46, 57, 57, 45]
            }) + name + seq![10u8],
        ),
{
    let start = if two {
        seq![83u8, 83, 72, 45, 50, 46, 48, 45]
    } else {
        seq![83u8, 83, 72, 45, 49, 46, 57, 57, 45]
    };
    let s = before + start + name + seq![10u8];
    let b = before.len() as int;
    let n = s.len() as int;
    if b > 0 {
        assert(s[b - 1] == before.last());
    }
    assert forall|k: int| b <= k < n - 1 implies #[trigger] s[k] != 10 by {
        if k < b + start.len() {
            assert(s[k] == start[k - b]);
        } else {
            assert(s[k] == name[k - b - start.len()]);
        }
    }
    line_starts_behind(s, b, n - 1);
    let line = s.skip(b);
    assert(line.take(start.len() as int) =~= start);
    assert(start =~= (if two {
        version_two()
    } else {
        version_both()
    }));
    assert forall|k: int| 0 <= k < n implies !greeting_ends(#[trigger] s.take(k)) by {
        if k <= b {
            assert(s.take(k) =~= before.take(k));
        } else {
            assert(s.take(k).last() == s[k - 1]);
        }
    }
}

/// A greeting ends with a line that begins with `SSH-`, so nothing else is taken for one.
pub proof fn nothing_else_is_a_greeting(s: Seq<u8>)
    requires
        greeting(s),
    ensures
        s.len() <= 8192,
        s.last() == 10,
        exists|b: int|
            0 <= b <= s.len() - 9 && #[trigger] s[b] == 83 && s[b + 1] == 83 && s[b + 2] == 72 && s[b
                + 3] == 45 && s.len() - b <= 255 && (b == 0 || s[b - 1] == 10),
{
    let n = s.len() - 1;
    line_start_bounds(s, n);
    line_start_is_a_start(s, n);
    let b = line_start(s, n);
    let line = s.skip(b);
    if bytes_begin(line, version_two()) {
        let p = line.take(8);
        assert(p[0] == line[0] && p[1] == line[1] && p[2] == line[2] && p[3] == line[3]);
        assert(line[7] == p[7]);
    } else {
        let p = line.take(9);
        assert(p[0] == line[0] && p[1] == line[1] && p[2] == line[2] && p[3] == line[3]);
        assert(line[8] == p[8]);
    }
    assert(s[b] == line[0] && s[b + 1] == line[1] && s[b + 2] == line[2] && s[b + 3] == line[3]);
    assert(line.len() >= 9) by {
        if line.len() == 8 {
            assert(line.take(8)[7] == line[7]);
            assert(line[7] == s.last());
        }
    }
}

proof fn line_start_is_a_start(s: Seq<u8>, n: int)
    requires
        0 <= n <= s.len(),
    ensures
        line_start(s, n) == 0 || s[line_start(s, n) - 1] == 10,
    decreases n,
{
    if n > 0 && s[n - 1] != 10 {
        line_start_is_a_start(s, n - 1);
    }
}

/// The text of a token has two hexadecimal digits for each byte, from which the byte can be
/// read.
pub proof fn tokens_hold_their_bytes(bytes: Seq<u8>, i: int)
    requires
        0 <= i < bytes.len(),
    ensures
        hex_text(bytes).len() == 2 * bytes.len(),
        hex_digit(hex_text(bytes)[2 * i]),
        hex_digit(hex_text(bytes)[2 * i + 1]),
        hex_digit_value(hex_text(bytes)[2 * i]) * 16 + hex_digit_value(hex_text(bytes)[2 * i + 1])
            == bytes[i],
    decreases bytes.len(),
{
    let front = bytes.drop_last();
    if front.len() == 0 {
        assert(hex_text(front) =~= Seq::<char>::empty());
    } else {
        tokens_hold_their_bytes(front, if i < front.len() {
            i
        } else {
            0
        });
    }
    let x = bytes.last();
    let high = hex_char((x / 16) as int);
    let low = hex_char((x % 16) as int);
    assert(hex_digit(high) && hex_digit_value(high) == x / 16);
    assert(hex_digit(low) && hex_digit_value(low) == x % 16);
    if i < front.len() {
        assert(front[i] == bytes[i]);
    }
}

} // verus!
