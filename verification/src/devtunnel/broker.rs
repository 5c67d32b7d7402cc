//! The manager of a connector: it keeps the connector of one tunnel running as long as
//! proxies need it, and tells them where to connect. Times are in milliseconds.

use crate::devtunnel::client::{
    forwarding, forwarding_failed, forwarding_line, listening, listening_line, ports_valid,
    same_token, startup_forwarding_failure, LockAttempt,
};
use crate::devtunnel::ipc::{Request, Response, VERSION};
use crate::devtunnel::network::{
    early_at, later, later_by, noted, wait_step, NetworkChanges, WaitEvent, WaitStep,
};
use crate::devtunnel::retry::{after_failed, after_ready, delay_at, fresh, Retry};
use crate::net::{IpAddr, SocketAddr};
use crate::number::{decimal, digits};
use crate::text::option_text;
use std::collections::HashMap;
use vstd::prelude::*;
use vstd::std_specs::hash::group_hash_axioms;

verus! {

broadcast use group_hash_axioms;

/// What becomes of a manager that begins.
#[derive(Debug)]
pub enum ManagerStart {
    /// It manages the tunnel.
    Run,
    /// Another manages the tunnel, and this one ends.
    Quit,
    /// It cannot manage the tunnel, for this reason.
    Fail(String),
}

/// What becomes of a manager that begins, from what came of trying the lock of its tunnel.
pub fn manager_start(lock: LockAttempt) -> (r: ManagerStart)
    ensures
        r is Run <==> lock is Taken,
        r is Quit <==> lock is WouldBlock,
        r matches ManagerStart::Fail(m) ==> (lock matches LockAttempt::Failed(e) && m@ == e@),
{
    match lock {
        LockAttempt::Taken => ManagerStart::Run,
        LockAttempt::WouldBlock => ManagerStart::Quit,
        LockAttempt::Failed(e) => ManagerStart::Fail(e),
    }
}

/// How long a manager stays without a session.
pub const IDLE_TIME: u64 = 5_000;

/// The sessions of a manager.
#[derive(Clone, Copy, Debug, PartialEq, Eq, Structural)]
pub struct Leases {
    /// How many there are.
    pub count: usize,
    /// Up to when the manager stays without one.
    pub idle_until: u64,
    /// Whether the manager stops.
    pub stopping: bool,
}

impl Leases {
    /// A manager that stops has no session.
    pub open spec fn wf(self) -> bool {
        self.stopping ==> self.count == 0
    }

    /// No session, at the time `now`.
    pub fn new(now: u64) -> (r: Self)
        ensures
            r == (Leases { count: 0, idle_until: later(now, IDLE_TIME), stopping: false }),
            r.wf(),
    {
        Leases { count: 0, idle_until: later_by(now, IDLE_TIME), stopping: false }
    }

    /// Begins a session, where the manager does not stop.
    pub fn acquire(&mut self) -> (r: bool)
        requires
            old(self).wf(),
            old(self).count < usize::MAX,
        ensures
            final(self).wf(),
            r == !old(self).stopping,
            *final(self) == (if r {
                Leases { count: (old(self).count + 1) as usize, ..*old(self) }
            } else {
                *old(self)
            }),
    {
        if self.stopping {
            return false;
        }
        self.count = self.count + 1;
        true
    }

    /// Ends a session at the time `now`.
    pub fn release(&mut self, now: u64)
        requires
            old(self).wf(),
            old(self).count > 0,
        ensures
            final(self).wf(),
            *final(self) == (Leases {
                count: (old(self).count - 1) as usize,
                idle_until: if old(self).count == 1 {
                    later(now, IDLE_TIME)
                } else {
                    old(self).idle_until
                },
                ..*old(self)
            }),
    {
        self.count = self.count - 1;
        if self.count == 0 {
            self.idle_until = later_by(now, IDLE_TIME);
        }
    }

    /// Whether the manager stops at the time `now`: it does once it was without a session
    /// for long enough, and then for good.
    pub fn begin_idle_shutdown(&mut self, now: u64) -> (r: bool)
        requires
            old(self).wf(),
        ensures
            final(self).wf(),
            r == idle(*old(self), now),
            *final(self) == (Leases { stopping: r, ..*old(self) }),
    {
        if self.count == 0 && now >= self.idle_until {
            self.stopping = true;
        }
        self.stopping
    }
}

/// Whether a manager stops at the time `now`.
pub open spec fn idle(l: Leases, now: u64) -> bool {
    l.stopping || (l.count == 0 && now >= l.idle_until)
}

/// What happens to the sessions of a manager.
pub enum LeaseEvent {
    Acquire,
    Release(u64),
    Check(u64),
}

/// The sessions after an event.
pub open spec fn lease_step(l: Leases, e: LeaseEvent) -> Leases {
    match e {
        LeaseEvent::Acquire => if l.stopping {
            l
        } else {
            Leases { count: (l.count + 1) as usize, ..l }
        },
        LeaseEvent::Release(now) => if l.count == 0 {
            l
        } else {
            Leases {
                count: (l.count - 1) as usize,
                idle_until: if l.count == 1 {
                    later(now, IDLE_TIME)
                } else {
                    l.idle_until
                },
                ..l
            }
        },
        LeaseEvent::Check(now) => Leases { stopping: idle(l, now), ..l },
    }
}

/// The sessions after `events`.
pub open spec fn after_leases(l: Leases, events: Seq<LeaseEvent>) -> Leases
    decreases events.len(),
{
    if events.len() == 0 {
        l
    } else {
        lease_step(after_leases(l, events.drop_last()), events.last())
    }
}

/// Whatever happens after a manager began to stop, no session begins: it stops with none.
pub proof fn stopped_managers_take_no_session(l: Leases, events: Seq<LeaseEvent>)
    requires
        l.wf(),
        l.stopping,
    ensures
        after_leases(l, events) == l,
    decreases events.len(),
{
    if events.len() > 0 {
        stopped_managers_take_no_session(l, events.drop_last());
    }
}

/// A manager never stops under a session, nor before the time without a session is over.
pub proof fn sessions_keep_the_manager(l: Leases, now: u64)
    requires
        !l.stopping,
    ensures
        l.count > 0 ==> !idle(l, now),
        now < l.idle_until ==> !idle(l, now),
{
}

/// Where the ports of the tunnel can be reached.
#[derive(Debug)]
pub struct Forwarding {
    /// The local address of each remote port.
    pub ports: HashMap<u16, SocketAddr>,
    /// Why the manager gave up.
    pub error: Option<String>,
    /// How often the connector was lost.
    pub generation: u64,
}

/// A local address that stands for a remote port.
#[derive(Clone, Copy, Debug, PartialEq, Eq, Structural)]
pub struct Announcement {
    pub local: SocketAddr,
    pub remote: u16,
}

/// What addresses are ordered by: version 4 before version 6, then the address, the port
/// and the scope.
pub open spec fn address_key(a: SocketAddr) -> Seq<u32> {
    match a.ip {
        IpAddr::V4(p, q, r, s) => seq![
            0u32,
            p as u32,
            q as u32,
            r as u32,
            s as u32,
            a.port as u32,
            a.scope,
        ],
        IpAddr::V6(p, q, r, s, t, u, v, w) => seq![
            1u32,
            p as u32,
            q as u32,
            r as u32,
            s as u32,
            t as u32,
            u as u32,
            v as u32,
            w as u32,
            a.port as u32,
            a.scope,
        ],
    }
}

/// Whether `a` stands before `b`, number by number.
pub open spec fn before(a: Seq<u32>, b: Seq<u32>) -> bool
    decreases a.len(),
{
    if a.len() == 0 {
        b.len() > 0
    } else if b.len() == 0 {
        false
    } else if a[0] != b[0] {
        a[0] < b[0]
    } else {
        before(a.skip(1), b.skip(1))
    }
}

/// `all` with an announcement put in, in the order of the addresses. An earlier one for
/// the same address is replaced.
pub open spec fn announced(all: Seq<Announcement>, x: Announcement) -> Seq<Announcement>
    decreases all.len(),
{
    if all.len() == 0 || before(address_key(all.last().local), address_key(x.local)) {
        all.push(x)
    } else if all.last().local == x.local {
        all.drop_last().push(x)
    } else {
        announced(all.drop_last(), x).push(all.last())
    }
}

/// Whether an address is one of version 4.
pub open spec fn version_four(a: SocketAddr) -> bool {
    a.ip is V4
}

/// The ports after the first announcements were taken, where something listens: the first
/// address of a port stays, but one of version 4 takes its place.
pub open spec fn published(
    ports: Map<u16, SocketAddr>,
    all: Seq<Announcement>,
    listeners: Seq<SocketAddr>,
) -> Map<u16, SocketAddr>
    decreases all.len(),
{
    if all.len() == 0 {
        ports
    } else {
        let front = published(ports, all.drop_last(), listeners);
        let x = all.last();
        if listeners.contains(x.local) && (!front.contains_key(x.remote) || version_four(
            x.local,
        )) {
            front.insert(x.remote, x.local)
        } else {
            front
        }
    }
}

/// A port that something listens for on an address of version 4 is reached through such
/// an address.
pub proof fn version_four_is_preferred(
    ports: Map<u16, SocketAddr>,
    all: Seq<Announcement>,
    listeners: Seq<SocketAddr>,
    i: int,
)
    requires
        0 <= i < all.len(),
        listeners.contains(all[i].local),
        version_four(all[i].local),
    ensures
        published(ports, all, listeners).contains_key(all[i].remote),
        version_four(published(ports, all, listeners)[all[i].remote]),
    decreases all.len(),
{
    if i < all.len() - 1 {
        version_four_is_preferred(ports, all.drop_last(), listeners, i);
    }
}

/// A port is reached only where it was reached before, or where something listens on an
/// address that was announced for it.
pub proof fn only_announced_listeners_are_used(
    ports: Map<u16, SocketAddr>,
    all: Seq<Announcement>,
    listeners: Seq<SocketAddr>,
    port: u16,
)
    requires
        published(ports, all, listeners).contains_key(port),
    ensures
        (ports.contains_key(port) && ports[port] == published(ports, all, listeners)[port])
            || exists|i: int|
            0 <= i < all.len() && (#[trigger] all[i]).remote == port && all[i].local == published(
                ports,
                all,
                listeners,
            )[port] && listeners.contains(all[i].local),
    decreases all.len(),
{
    if all.len() > 0 {
        let front = all.drop_last();
        let was = published(ports, front, listeners);
        let now = published(ports, all, listeners);
        if was.contains_key(port) && was[port] == now[port] {
            only_announced_listeners_are_used(ports, front, listeners, port);
            if exists|i: int|
                0 <= i < front.len() && (#[trigger] front[i]).remote == port && front[i].local
                    == now[port] && listeners.contains(front[i].local) {
                let i = choose|i: int|
                    0 <= i < front.len() && (#[trigger] front[i]).remote == port && front[i].local
                        == now[port] && listeners.contains(front[i].local);
                assert(all[i] == front[i]);
            }
        } else {
            assert(all[all.len() - 1] == all.last());
        }
    }
}

fn key_of(a: &SocketAddr) -> (r: Vec<u32>)
    ensures
        r@ == address_key(*a),
{
    let mut v: Vec<u32> = Vec::new();
    match a.ip {
        IpAddr::V4(p, q, r, s) => {
            v.push(0);
            v.push(p as u32);
            v.push(q as u32);
            v.push(r as u32);
            v.push(s as u32);
        },
        IpAddr::V6(p, q, r, s, t, u, x, w) => {
            v.push(1);
            v.push(p as u32);
            v.push(q as u32);
            v.push(r as u32);
            v.push(s as u32);
            v.push(t as u32);
            v.push(u as u32);
            v.push(x as u32);
            v.push(w as u32);
        },
    }
    v.push(a.port as u32);
    v.push(a.scope);
    assert(v@ =~= address_key(*a));
    v
}

fn stands_before(a: &SocketAddr, b: &SocketAddr) -> (r: bool)
    ensures
        r == before(address_key(*a), address_key(*b)),
{
    let v = key_of(a);
    let w = key_of(b);
    let mut i: usize = 0;
    assert(v@.skip(0) =~= v@);
    assert(w@.skip(0) =~= w@);
    while i < v.len() && i < w.len()
        invariant
            i <= v@.len(),
            i <= w@.len(),
            before(address_key(*a), address_key(*b)) == before(
                v@.skip(i as int),
                w@.skip(i as int),
            ),
        decreases v@.len() - i,
    {
        assert(v@.skip(i as int)[0] == v@[i as int]);
        assert(w@.skip(i as int)[0] == w@[i as int]);
        if v[i] != w[i] {
            return v[i] < w[i];
        }
        assert(v@.skip(i as int).skip(1) =~= v@.skip(i + 1));
        assert(w@.skip(i as int).skip(1) =~= w@.skip(i + 1));
        i = i + 1;
    }
    i < w.len()
}

fn announce(all: &mut Vec<Announcement>, x: Announcement)
    ensures
        final(all)@ == announced(old(all)@, x),
{
    let ghost s = all@;
    let mut n: usize = all.len();
    assert(s.take(n as int) =~= s);
    assert(announced(s.take(n as int), x) + s.skip(n as int) =~= announced(s, x));
    while n > 0
        invariant
            s == all@,
            s == old(all)@,
            n <= all@.len(),
            announced(s, x) == announced(s.take(n as int), x) + s.skip(n as int),
        decreases n,
    {
        let last = all[n - 1];
        let ghost t = s.take(n as int);
        proof {
            assert(t.last() == last);
            assert(t.drop_last() =~= s.take(n - 1));
        }
        if stands_before(&last.local, &x.local) {
            assert(s.take(n as int).push(x) + s.skip(n as int) =~= s.insert(n as int, x));
            all.insert(n, x);
            return;
        }
        if last.local == x.local {
            assert(s.take(n - 1).push(x) + s.skip(n as int) =~= s.update(n - 1, x));
            all.set(n - 1, x);
            return;
        }
        proof {
            assert(announced(t, x) + s.skip(n as int) =~= announced(s.take(n - 1), x) + s.skip(
                n - 1,
            ));
        }
        n = n - 1;
    }
    assert(s.take(0).push(x) + s.skip(0) =~= s.insert(0, x));
    all.insert(0, x);
}

fn listens(listeners: &Vec<SocketAddr>, a: SocketAddr) -> (r: bool)
    ensures
        r == listeners@.contains(a),
{
    let mut i: usize = 0;
    while i < listeners.len()
        invariant
            i <= listeners@.len(),
            forall|k: int| 0 <= k < i ==> listeners@[k] != a,
        decreases listeners@.len() - i,
    {
        if listeners[i] == a {
            return true;
        }
        i = i + 1;
    }
    false
}

fn publish(
    ports: &mut HashMap<u16, SocketAddr>,
    all: &Vec<Announcement>,
    listeners: &Vec<SocketAddr>,
)
    ensures
        final(ports)@ == published(old(ports)@, all@, listeners@),
{
    let ghost start = ports@;
    let mut i: usize = 0;
    assert(all@.take(0) =~= Seq::<Announcement>::empty());
    while i < all.len()
        invariant
            i <= all@.len(),
            ports@ == published(start, all@.take(i as int), listeners@),
        decreases all@.len() - i,
    {
        let x = all[i];
        proof {
            assert(all@.take(i + 1).drop_last() =~= all@.take(i as int));
            assert(all@.take(i + 1).last() == x);
        }
        let four = match x.local.ip {
            IpAddr::V4(..) => true,
            IpAddr::V6(..) => false,
        };
        if listens(listeners, x.local) && (!ports.contains_key(&x.remote) || four) {
            ports.insert(x.remote, x.local);
        }
        i = i + 1;
    }
    assert(all@.take(i as int) =~= all@);
}

/// Where the connector stands.
#[derive(Clone, Copy, Debug, PartialEq, Eq, Structural)]
pub enum Connector {
    /// It does not run, and may be started at this time.
    Down { retry_at: u64 },
    /// It runs since this time. `ready` says whether it listens on a local address.
    Up { since: u64, ready: bool },
    /// It is being ended, to be started again. `ready` says whether it listened before.
    Restarting { ready: bool },
}

/// How long a connector may run without listening on a local address.
pub const LISTEN_TIME: u64 = 30_000;

/// How many sessions a manager takes at once.
pub const MOST_SESSIONS: usize = 256;

/// The manager of a connector.
#[derive(Debug)]
pub struct Broker {
    pub leases: Leases,
    pub forwarding: Forwarding,
    pub announcements: Vec<Announcement>,
    pub listeners: Vec<SocketAddr>,
    /// Whether a proxy has asked for a port.
    pub wanted: bool,
    pub connector: Connector,
    pub retry: Retry,
    pub network: NetworkChanges,
    /// The connections of proxies.
    pub sessions: usize,
}

/// What a [`Broker`] holds.
#[verifier::ext_equal]
pub struct BrokerView {
    pub leases: Leases,
    pub ports: Map<u16, SocketAddr>,
    pub error: Option<Seq<char>>,
    pub generation: u64,
    pub announcements: Seq<Announcement>,
    pub listeners: Seq<SocketAddr>,
    pub wanted: bool,
    pub connector: Connector,
    pub retry: Retry,
    pub network: NetworkChanges,
    pub sessions: usize,
}

impl View for Broker {
    type V = BrokerView;

    open spec fn view(&self) -> BrokerView {
        BrokerView {
            leases: self.leases,
            ports: self.forwarding.ports@,
            error: option_text(self.forwarding.error),
            generation: self.forwarding.generation,
            announcements: self.announcements@,
            listeners: self.listeners@,
            wanted: self.wanted,
            connector: self.connector,
            retry: self.retry,
            network: self.network,
            sessions: self.sessions,
        }
    }
}

/// What to do about the connector.
#[derive(Clone, Copy, Debug, PartialEq, Eq, Structural)]
pub enum ConnectorStep {
    /// Start it.
    Spawn,
    /// Look again at this time.
    Sleep(u64),
    /// There is nothing to do.
    Rest,
}

/// `b` without anything that is known of the ports. Sessions that use them end.
pub open spec fn lost(b: BrokerView) -> BrokerView {
    BrokerView {
        ports: Map::empty(),
        generation: (b.generation + 1) as u64,
        announcements: Seq::empty(),
        listeners: Seq::empty(),
        ..b
    }
}

/// What an event of the clock or of the network leads to. The connector is started once a
/// proxy has asked for a port and the time for it has come.
pub open spec fn connector_step(b: BrokerView, now: u64, event: WaitEvent) -> (
    BrokerView,
    ConnectorStep,
) {
    match b.connector {
        Connector::Down { retry_at } => if b.wanted {
            let (network, step) = wait_step(b.network, retry_at, now, event);
            match step {
                WaitStep::Sleep(t) => (BrokerView { network, ..b }, ConnectorStep::Sleep(t)),
                _ => (
                    BrokerView {
                        network: NetworkChanges { pending: None, ..network },
                        connector: Connector::Up { since: now, ready: false },
                        ..b
                    },
                    ConnectorStep::Spawn,
                ),
            }
        } else {
            (BrokerView { network: noted(b.network, event), ..b }, ConnectorStep::Rest)
        },
        _ => (BrokerView { network: noted(b.network, event), ..b }, ConnectorStep::Rest),
    }
}

/// What a line of the connector leads to, and whether the connector is to be ended.
pub open spec fn line_step(b: BrokerView, line: Seq<char>, now: u64) -> (BrokerView, bool) {
    match b.connector {
        Connector::Up { since, ready } => if forwarding_failed(line) {
            (BrokerView { connector: Connector::Restarting { ready }, ..lost(b) }, true)
        } else {
            let b1 = match forwarding(line) {
                Some((remote, local)) => BrokerView {
                    announcements: announced(b.announcements, Announcement { local, remote }),
                    ..b
                },
                None => b,
            };
            let b2 = match listening(line) {
                Some(a) => BrokerView {
                    listeners: if b1.listeners.contains(a) {
                        b1.listeners
                    } else {
                        b1.listeners.push(a)
                    },
                    connector: Connector::Up { since, ready: true },
                    retry: after_ready(b1.retry, now),
                    ..b1
                },
                None => b1,
            };
            (b2, false)
        },
        _ => (b, false),
    }
}

/// Whether a connector listened on a local address.
pub open spec fn was_ready(c: Connector) -> bool {
    match c {
        Connector::Up { ready, .. } => ready,
        Connector::Restarting { ready } => ready,
        Connector::Down { .. } => false,
    }
}

/// What the end of the connector leads to: it is started again after the delay that the
/// schedule asks for. A change of the network that came while it was started is kept, and
/// one that came while it was ready is not.
pub open spec fn exit_step(b: BrokerView, now: u64) -> BrokerView {
    let b1 = if b.connector is Up {
        lost(b)
    } else {
        b
    };
    BrokerView {
        connector: Connector::Down { retry_at: later(now, delay_at(b.retry, now)) },
        retry: after_failed(b.retry, now),
        network: if was_ready(b.connector) {
            NetworkChanges { pending: None, ..b.network }
        } else {
            b.network
        },
        ..b1
    }
}

/// What a manager does at regular times.
#[derive(Clone, Copy, Debug, PartialEq, Eq, Structural)]
pub enum TickStep {
    /// Go on.
    Continue,
    /// End the connector, to start it again.
    Restart,
    /// Stop.
    Shutdown,
}

/// What a manager does at the time `now`: it stops once it was without a session for long
/// enough; it ends a connector that has not listened in time; and it publishes the ports
/// that something listens for.
pub open spec fn tick_step(b: BrokerView, now: u64) -> (BrokerView, TickStep) {
    let b1 = BrokerView { leases: Leases { stopping: idle(b.leases, now), ..b.leases }, ..b };
    if idle(b.leases, now) {
        (b1, TickStep::Shutdown)
    } else {
        match b.connector {
            Connector::Up { since, ready } => if !ready && now - since >= LISTEN_TIME {
                (
                    BrokerView { connector: Connector::Restarting { ready: false }, ..lost(b1) },
                    TickStep::Restart,
                )
            } else {
                (
                    BrokerView { ports: published(b.ports, b.announcements, b.listeners), ..b1 },
                    TickStep::Continue,
                )
            },
            Connector::Restarting { .. } => (b1, TickStep::Continue),
            Connector::Down { .. } => (
                BrokerView { ports: published(b.ports, b.announcements, b.listeners), ..b1 },
                TickStep::Continue,
            ),
        }
    }
}

impl Broker {
    /// A manager that begins at the time `now`. `watching` says whether changes of the
    /// network will be reported.
    pub fn new(now: u64, watching: bool) -> (r: Self)
        ensures
            r@ == (BrokerView {
                leases: Leases { count: 0, idle_until: later(now, IDLE_TIME), stopping: false },
                ports: Map::empty(),
                error: None,
                generation: 0,
                announcements: Seq::empty(),
                listeners: Seq::empty(),
                wanted: false,
                connector: Connector::Down { retry_at: now },
                retry: fresh(),
                network: NetworkChanges { watching, pending: None, next_allowed: now },
                sessions: 0,
            }),
    {
        Broker {
            leases: Leases::new(now),
            forwarding: Forwarding { ports: HashMap::new(), error: None, generation: 0 },
            announcements: Vec::new(),
            listeners: Vec::new(),
            wanted: false,
            connector: Connector::Down { retry_at: now },
            retry: Retry::default(),
            network: NetworkChanges::new(now, watching),
            sessions: 0,
        }
    }

    /// Takes the connection of another proxy, where there are not too many.
    pub fn accept(&mut self) -> (r: bool)
        ensures
            r == (old(self).sessions < MOST_SESSIONS),
            final(self)@ == (BrokerView {
                sessions: if r {
                    (old(self).sessions + 1) as usize
                } else {
                    old(self).sessions
                },
                ..old(self)@
            }),
    {
        if self.sessions >= MOST_SESSIONS {
            return false;
        }
        self.sessions = self.sessions + 1;
        true
    }

    /// Notes that the connection of a proxy has ended.
    pub fn session_ended(&mut self)
        requires
            old(self).sessions > 0,
        ensures
            final(self)@ == (BrokerView {
                sessions: (old(self).sessions - 1) as usize,
                ..old(self)@
            }),
    {
        self.sessions = self.sessions - 1;
    }

    /// Notes that a proxy has asked for a port.
    pub fn request(&mut self)
        ensures
            final(self)@ == (BrokerView { wanted: true, ..old(self)@ }),
    {
        self.wanted = true;
    }

    /// Takes an event of the clock or of the network at the time `now`: what to do about
    /// the connector.
    pub fn connector_event(&mut self, now: u64, event: WaitEvent) -> (r: ConnectorStep)
        ensures
            (final(self)@, r) == connector_step(old(self)@, now, event),
    {
        let ghost b = self@;
        if let Connector::Down { retry_at } = self.connector {
            if self.wanted {
                match self.network.wait_until(retry_at, now, event) {
                    WaitStep::Sleep(t) => {
                        assert(self@ =~= connector_step(b, now, event).0);
                        return ConnectorStep::Sleep(t);
                    },
                    _ => {
                        self.network.begin_wait();
                        self.connector = Connector::Up { since: now, ready: false };
                        assert(self@ =~= connector_step(b, now, event).0);
                        return ConnectorStep::Spawn;
                    },
                }
            }
        }
        self.network.note(event);
        assert(self@ =~= connector_step(b, now, event).0);
        ConnectorStep::Rest
    }

    /// Notes that the connector could not be started: the manager gives up, and says so to
    /// every proxy that waits.
    pub fn spawn_failed(&mut self)
        ensures
            final(self)@ == (BrokerView {
                error: Some("cannot start devtunnel; check installation and login"@),
                ..old(self)@
            }),
    {
        self.forwarding.error =
        Some("cannot start devtunnel; check installation and login".to_owned());
    }

    fn lose(&mut self)
        requires
            old(self).forwarding.generation < u64::MAX,
        ensures
            final(self)@ == lost(old(self)@),
    {
        self.announcements = Vec::new();
        self.listeners = Vec::new();
        self.forwarding.ports = HashMap::new();
        self.forwarding.generation = self.forwarding.generation + 1;
        assert(self@ =~= lost(old(self)@));
    }

    /// Takes a line of the connector at the time `now`. `true` where the connector is to
    /// be ended, to be started again.
    pub fn connector_line(&mut self, line: &str, now: u64) -> (r: bool)
        requires
            old(self).forwarding.generation < u64::MAX,
        ensures
            (final(self)@, r) == line_step(old(self)@, line@, now),
    {
        let ghost b = self@;
        if let Connector::Up { since, ready } = self.connector {
            if startup_forwarding_failure(line) {
                self.lose();
                self.connector = Connector::Restarting { ready };
                assert(self@ =~= line_step(b, line@, now).0);
                return true;
            }
            if let Some((remote, local)) = forwarding_line(line) {
                announce(&mut self.announcements, Announcement { local, remote });
            }
            if let Some(a) = listening_line(line) {
                if !listens(&self.listeners, a) {
                    self.listeners.push(a);
                }
                self.connector = Connector::Up { since, ready: true };
                self.retry.ready(now);
            }
        }
        assert(self@ =~= line_step(b, line@, now).0);
        false
    }

    /// Notes at the time `now` that the connector has ended.
    pub fn connector_exited(&mut self, now: u64)
        requires
            old(self).forwarding.generation < u64::MAX,
        ensures
            final(self)@ == exit_step(old(self)@, now),
    {
        let ghost b = self@;
        if matches!(self.connector, Connector::Up { .. }) {
            self.lose();
        }
        let ready = match self.connector {
            Connector::Up { ready, .. } => ready,
            Connector::Restarting { ready } => ready,
            Connector::Down { .. } => false,
        };
        let delay: u64 = self.retry.failed(now);
        self.connector = Connector::Down { retry_at: later_by(now, delay) };
        if ready {
            self.network.begin_wait();
        }
        assert(self@ =~= exit_step(b, now));
    }

    /// What the manager does at the time `now`.
    pub fn tick(&mut self, now: u64) -> (r: TickStep)
        requires
            old(self).leases.wf(),
            old(self).forwarding.generation < u64::MAX,
        ensures
            (final(self)@, r) == tick_step(old(self)@, now),
    {
        let ghost b = self@;
        if self.leases.begin_idle_shutdown(now) {
            assert(self@ =~= tick_step(b, now).0);
            return TickStep::Shutdown;
        }
        match self.connector {
            Connector::Up { since, ready } => {
                if !ready && now >= since && now - since >= LISTEN_TIME {
                    self.lose();
                    self.connector = Connector::Restarting { ready: false };
                    assert(self@ =~= tick_step(b, now).0);
                    return TickStep::Restart;
                }
            },
            Connector::Restarting { .. } => {
                assert(self@ =~= tick_step(b, now).0);
                return TickStep::Continue;
            },
            Connector::Down { .. } => {},
        }
        publish(&mut self.forwarding.ports, &self.announcements, &self.listeners);
        assert(self@ =~= tick_step(b, now).0);
        TickStep::Continue
    }
}

/// A connector that is lost is started again after the delay that the schedule asks for,
/// and the proxies that wait go on waiting: no failure is reported to them.
pub proof fn lost_connectors_come_back(b: BrokerView, now: u64)
    requires
        b.wanted,
        b.error is None,
        b.connector is Up,
        now + delay_at(b.retry, now) <= u64::MAX,
    ensures
        ({
            let down = exit_step(b, now);
            let at = (now + delay_at(b.retry, now)) as u64;
            &&& down.error is None
            &&& down.ports == Map::<u16, SocketAddr>::empty()
            &&& down.connector == (Connector::Down { retry_at: at })
            &&& connector_step(down, at, WaitEvent::Tick).1 == ConnectorStep::Spawn
            &&& was_ready(b.connector) || b.network.pending is None ==> forall|t: u64|
                #![trigger connector_step(down, t, WaitEvent::Tick)]
                t < at ==> connector_step(down, t, WaitEvent::Tick).1 == ConnectorStep::Sleep(at)
        }),
{
}

/// A change of the network that came while a connector was started is kept where the start
/// fails, and brings the next start forward once the network has settled. One that came while
/// the connector was ready does not.
pub proof fn changes_during_a_failed_start_count(b: BrokerView, now: u64, t: u64)
    requires
        b.wanted,
        now + delay_at(b.retry, now) <= u64::MAX,
        t < now + delay_at(b.retry, now),
    ensures
        !was_ready(b.connector) ==> exit_step(b, now).network == b.network,
        !was_ready(b.connector) && early_at(b.network) is Some && early_at(b.network)->0 <= t
            ==> connector_step(exit_step(b, now), t, WaitEvent::Tick).1 == ConnectorStep::Spawn,
        was_ready(b.connector) ==> connector_step(exit_step(b, now), t, WaitEvent::Tick).1
            == ConnectorStep::Sleep((now + delay_at(b.retry, now)) as u64),
{
}

/// Changes of the network neither end a connector that runs nor change the delays.
pub proof fn changes_leave_connectors_alone(b: BrokerView, now: u64, event: WaitEvent)
    ensures
        connector_step(b, now, event).0.retry == b.retry,
        b.connector is Up ==> connector_step(b, now, event).0.connector == b.connector,
{
}

/// Without a request no connector is started.
pub proof fn no_request_no_connector(b: BrokerView, now: u64, event: WaitEvent)
    requires
        !b.wanted,
    ensures
        connector_step(b, now, event).1 == ConnectorStep::Rest,
        connector_step(b, now, event).0.connector == b.connector,
{
}

/// What a manager does with a request.
#[derive(Debug)]
pub enum Admission {
    /// Close the connection without an answer, for this reason.
    Deny(String),
    /// Close the connection without an answer: the manager stops.
    Close,
    /// Answer with this failure.
    Refuse(String),
    /// Look for the port.
    Open,
}

/// What is wrong with a request that comes with the right token.
pub open spec fn refusal(r: Request) -> Option<Seq<char>> {
    if r.version != VERSION {
        Some("incompatible sshdt tunnel manager"@)
    } else if !ports_valid(r.remote_port, r.local_port) {
        Some("invalid port"@)
    } else {
        None
    }
}

/// What a manager does with a request. `leased` says whether a session could begin for
/// it.
pub fn check_request(request: &Request, token: &str, leased: bool) -> (r: Admission)
    ensures
        r is Deny <==> request.token@ != token@,
        r matches Admission::Deny(m) ==> m@ == "invalid tunnel manager capability"@,
        r is Close <==> request.token@ == token@ && !leased,
        r is Refuse <==> request.token@ == token@ && leased && refusal(*request) is Some,
        r matches Admission::Refuse(m) ==> refusal(*request) == Some(m@),
{
    if !same_token(request.token.as_str(), token) {
        return Admission::Deny("invalid tunnel manager capability".to_owned());
    }
    if !leased {
        return Admission::Close;
    }
    if request.version != VERSION {
        return Admission::Refuse("incompatible sshdt tunnel manager".to_owned());
    }
    if request.remote_port == 0 || request.local_port == Some(0) {
        return Admission::Refuse("invalid port".to_owned());
    }
    Admission::Open
}

/// What a manager does for a request that waits.
#[derive(Debug)]
pub enum OpenStep {
    /// Answer with this failure.
    Fail(String),
    /// Connect to this address.
    Connect(SocketAddr),
    /// Wait until something changes.
    Wait,
}

/// The address to connect to for a port: the fixed local one, where one was asked for, or
/// else the one that the connector listens on.
pub open spec fn destination(local_port: Option<u16>, found: SocketAddr) -> SocketAddr {
    match local_port {
        Some(port) => SocketAddr { ip: IpAddr::V4(127, 0, 0, 1), port, scope: 0 },
        None => found,
    }
}

impl Forwarding {
    /// What a manager does for a request that waits.
    pub fn serve(&self, remote_port: u16, local_port: Option<u16>) -> (r: OpenStep)
        ensures
            r is Fail <==> self.error is Some,
            r matches OpenStep::Fail(m) ==> self.error is Some && m@ == self.error->0@,
            r is Connect <==> self.error is None && self.ports@.contains_key(remote_port),
            r matches OpenStep::Connect(a) ==> a == destination(
                local_port,
                self.ports@[remote_port],
            ),
    {
        if let Some(e) = &self.error {
            return OpenStep::Fail(e.clone());
        }
        match self.ports.get(&remote_port) {
            None => OpenStep::Wait,
            Some(found) => match local_port {
                Some(port) => OpenStep::Connect(
                    SocketAddr { ip: IpAddr::V4(127, 0, 0, 1), port, scope: 0 },
                ),
                None => OpenStep::Connect(*found),
            },
        }
    }

    /// Whether the connector that a session began with is gone.
    pub fn session_over(&self, generation: u64) -> (r: bool)
        ensures
            r == (self.error is Some || self.generation != generation),
    {
        self.error.is_some() || self.generation != generation
    }

    /// Whether a connection that was made while the connector was that of `generation`
    /// can be used.
    pub fn connected(&self, made: bool, generation: u64) -> (r: bool)
        ensures
            r == (made && self.generation == generation),
    {
        made && self.generation == generation
    }

    /// The address that a fixed local port leads to.
    pub fn relay_target(&self, remote_port: u16) -> (r: Option<SocketAddr>)
        ensures
            r == (if self.ports@.contains_key(remote_port) {
                Some(self.ports@[remote_port])
            } else {
                None
            }),
    {
        match self.ports.get(&remote_port) {
            Some(a) => Some(*a),
            None => None,
        }
    }
}

/// The answer of a manager, with the failure where there is one.
pub fn respond(error: Option<String>) -> (r: Response)
    ensures
        r.version == VERSION,
        option_text(r.error) == option_text(error),
{
    Response { version: VERSION, error }
}

/// A fixed local port that leads to a remote one.
#[derive(Clone, Copy, Debug, PartialEq, Eq, Structural)]
pub struct Relay {
    pub remote_port: u16,
    /// How many requests use it.
    pub users: usize,
}

/// The fixed local ports.
#[derive(Debug)]
pub struct Relays {
    pub ports: HashMap<u16, Relay>,
}

/// What to do for a request with a fixed local port.
#[derive(Debug)]
pub enum RelayStep {
    /// It is there already.
    Reuse,
    /// It leads elsewhere.
    Conflict(String),
    /// Listen on it.
    Bind,
}

/// The message about a local port that leads elsewhere.
pub open spec fn conflict_text(port: u16) -> Seq<char> {
    "local port "@ + digits(port as nat) + " already routes to a different destination"@
}

/// The message about a local port that cannot be had.
pub fn unavailable(port: u16) -> (r: String)
    ensures
        r@ == "local port "@ + digits(port as nat) + " is unavailable"@,
{
    let mut r = "local port ".to_owned();
    r.append(decimal(port as u64).as_str());
    r.append(" is unavailable");
    r
}

impl Relays {
    /// Every port that is there is used.
    pub open spec fn wf(self) -> bool {
        forall|port: u16| #[trigger]
            self.ports@.contains_key(port) ==> self.ports@[port].users > 0
    }

    /// No fixed local port.
    pub fn new() -> (r: Self)
        ensures
            r.wf(),
            r.ports@ == Map::<u16, Relay>::empty(),
    {
        Relays { ports: HashMap::new() }
    }

    /// What to do for a request with the fixed local port `port`.
    pub fn ensure_relay(&mut self, port: u16, remote_port: u16) -> (r: RelayStep)
        requires
            old(self).wf(),
            old(self).ports@.contains_key(port) ==> old(self).ports@[port].users < usize::MAX,
        ensures
            final(self).wf(),
            r is Bind <==> !old(self).ports@.contains_key(port),
            r is Conflict <==> old(self).ports@.contains_key(port) && old(self).ports@[port].remote_port != remote_port,
            r matches RelayStep::Conflict(m) ==> m@ == conflict_text(port),
            final(self).ports@ == (if r is Reuse {
                old(self).ports@.insert(
                    port,
                    Relay { remote_port, users: (old(self).ports@[port].users + 1) as usize },
                )
            } else {
                old(self).ports@
            }),
    {
        let found = match self.ports.get(&port) {
            None => return RelayStep::Bind,
            Some(relay) => *relay,
        };
        if found.remote_port != remote_port {
            let mut m = "local port ".to_owned();
            m.append(decimal(port as u64).as_str());
            m.append(" already routes to a different destination");
            return RelayStep::Conflict(m);
        }
        self.ports.insert(port, Relay { remote_port, users: found.users + 1 });
        RelayStep::Reuse
    }

    /// Notes that the manager listens on `port` for a first request.
    pub fn bound(&mut self, port: u16, remote_port: u16)
        requires
            old(self).wf(),
        ensures
            final(self).wf(),
            final(self).ports@ == old(self).ports@.insert(port, Relay { remote_port, users: 1 }),
    {
        self.ports.insert(port, Relay { remote_port, users: 1 });
    }

    /// Notes that a request has ended. `true` where it was the last, so that the port is
    /// let go.
    pub fn release(&mut self, port: u16) -> (r: bool)
        requires
            old(self).wf(),
            old(self).ports@.contains_key(port),
        ensures
            final(self).wf(),
            r == (old(self).ports@[port].users == 1),
            final(self).ports@ == (if r {
                old(self).ports@.remove(port)
            } else {
                old(self).ports@.insert(
                    port,
                    Relay {
                        users: (old(self).ports@[port].users - 1) as usize,
                        ..old(self).ports@[port]
                    },
                )
            }),
    {
        let found = match self.ports.get(&port) {
            None => return false,
            Some(relay) => *relay,
        };
        if found.users == 1 {
            self.ports.remove(&port);
            true
        } else {
            self.ports.insert(
                port,
                Relay { remote_port: found.remote_port, users: found.users - 1 },
            );
            false
        }
    }
}

/// A manager stays for five seconds after its last session has ended, and then stops. A session
/// that begins keeps it, and one that ends beside others changes nothing else.
pub proof fn how_long_managers_stay(l: Leases, now: u64, t: u64)
    requires
        !l.stopping,
        now + 5000 <= u64::MAX,
    ensures
        l.count == 1 ==> (idle(lease_step(l, LeaseEvent::Release(now)), t) <==> t >= now + 5000),
        l.count > 1 ==> lease_step(l, LeaseEvent::Release(now)) == (Leases {
            count: (l.count - 1) as usize,
            idle_until: l.idle_until,
            stopping: false,
        }),
        l.count < usize::MAX ==> lease_step(l, LeaseEvent::Acquire) == (Leases {
            count: (l.count + 1) as usize,
            idle_until: l.idle_until,
            stopping: false,
        }),
        l.count == 0 && t >= l.idle_until ==> lease_step(l, LeaseEvent::Check(t)).stopping,
        l.count > 0 || t < l.idle_until ==> lease_step(l, LeaseEvent::Check(t)) == l,
        IDLE_TIME == 5000,
{
}

/// What happens to the sessions of a manager happens in its order.
pub proof fn sessions_happen_one_after_the_other(l: Leases, events: Seq<LeaseEvent>, e: LeaseEvent)
    ensures
        after_leases(l, Seq::empty()) == l,
        after_leases(l, events.push(e)) == lease_step(after_leases(l, events), e),
{
    assert(events.push(e).drop_last() =~= events);
}

proof fn same_numbers_first(p: Seq<u32>, a: Seq<u32>, b: Seq<u32>)
    ensures
        before(p + a, p + b) == before(a, b),
    decreases p.len(),
{
    if p.len() == 0 {
        assert(p + a =~= a);
        assert(p + b =~= b);
    } else {
        same_numbers_first(p.skip(1), a, b);
        assert((p + a).skip(1) =~= p.skip(1) + a);
        assert((p + b).skip(1) =~= p.skip(1) + b);
        assert((p + a)[0] == p[0] && (p + b)[0] == p[0]);
    }
}

/// The first number in which two addresses differ decides which one stands before the other.
/// Every address of version 4 stands before every one of version 6.
pub proof fn how_addresses_are_ordered(
    p: Seq<u32>,
    m: u32,
    n: u32,
    a: Seq<u32>,
    b: Seq<u32>,
    x: SocketAddr,
    y: SocketAddr,
)
    requires
        m < n,
    ensures
        before(p + seq![m] + a, p + seq![n] + b),
        !before(p + seq![n] + b, p + seq![m] + a),
        x.ip is V4 && y.ip is V6 ==> before(address_key(x), address_key(y)),
        x.ip is V4 && y.ip is V6 ==> !before(address_key(y), address_key(x)),
        address_key(x) == address_key(y) ==> x == y,
{
    let u = seq![m] + a;
    let v = seq![n] + b;
    assert(p + seq![m] + a =~= p + u);
    assert(p + seq![n] + b =~= p + v);
    same_numbers_first(p, u, v);
    same_numbers_first(p, v, u);
    assert(u[0] == m && v[0] == n);
    if address_key(x) == address_key(y) {
        address_key_differs(x, y);
    }
}

proof fn address_key_differs(x: SocketAddr, y: SocketAddr)
    requires
        address_key(x) == address_key(y),
    ensures
        x == y,
{
    let k = address_key(x);
    let l = address_key(y);
    match (x.ip, y.ip) {
        (IpAddr::V4(..), IpAddr::V4(..)) => {
            assert(k[1] == l[1] && k[2] == l[2] && k[3] == l[3] && k[4] == l[4] && k[5] == l[5]
                && k[6] == l[6]);
        },
        (IpAddr::V6(..), IpAddr::V6(..)) => {
            assert(k[1] == l[1] && k[2] == l[2] && k[3] == l[3] && k[4] == l[4] && k[5] == l[5]
                && k[6] == l[6] && k[7] == l[7] && k[8] == l[8] && k[9] == l[9] && k[10] == l[10]);
        },
        _ => {
            assert(k.len() == l.len());
        },
    }
}

proof fn before_is_strict(a: Seq<u32>, b: Seq<u32>, c: Seq<u32>)
    ensures
        !before(a, a),
        a != b ==> before(a, b) || before(b, a),
        before(a, b) && before(b, c) ==> before(a, c),
    decreases a.len(),
{
    if a.len() > 0 {
        let d = if b.len() > 0 {
            b.skip(1)
        } else {
            b
        };
        let e = if c.len() > 0 {
            c.skip(1)
        } else {
            c
        };
        before_is_strict(a.skip(1), d, e);
        if b.len() > 0 && a[0] == b[0] && a.skip(1) == b.skip(1) {
            assert(a =~= seq![a[0]] + a.skip(1));
            assert(b =~= seq![b[0]] + b.skip(1));
        }
    } else if b.len() == 0 {
        assert(a =~= b);
    }
}

/// Whether announcements stand in the order of their addresses, with one for each.
pub open spec fn in_address_order(all: Seq<Announcement>) -> bool {
    forall|i: int, j: int|
        0 <= i < j < all.len() ==> before(
            address_key((#[trigger] all[i]).local),
            address_key((#[trigger] all[j]).local),
        )
}

/// What is announced is known from then on, and everything else that was announced stays, but for
/// what was announced for the same address. Announcements stay in the order of their addresses.
pub proof fn announcements_are_kept(all: Seq<Announcement>, x: Announcement)
    requires
        in_address_order(all),
    ensures
        announced(all, x).contains(x),
        in_address_order(announced(all, x)),
        forall|i: int|
            0 <= i < all.len() && (#[trigger] all[i]).local != x.local ==> announced(
                all,
                x,
            ).contains(all[i]),
        forall|i: int|
            0 <= i < announced(all, x).len() ==> (#[trigger] announced(all, x)[i] == x || (
            announced(all, x)[i].local != x.local && all.contains(announced(all, x)[i]))),
    decreases all.len(),
{
    let r = announced(all, x);
    let k = address_key(x.local);
    if all.len() == 0 || before(address_key(all.last().local), k) {
        assert(r[all.len() as int] == x);
        assert forall|i: int, j: int| 0 <= i < j < r.len() implies before(
            address_key((#[trigger] r[i]).local),
            address_key((#[trigger] r[j]).local),
        ) by {
            if j == all.len() && i < all.len() - 1 {
                assert(before(
                    address_key(all[i].local),
                    address_key(all[all.len() - 1].local),
                ));
                before_is_strict(
                    address_key(all[i].local),
                    address_key(all[all.len() - 1].local),
                    k,
                );
            }
        }
        assert forall|i: int| 0 <= i < all.len() implies r.contains(#[trigger] all[i]) by {
            assert(r[i] == all[i]);
        }
        assert forall|i: int| 0 <= i < all.len() implies (#[trigger] r[i]).local != x.local
            && all.contains(r[i]) by {
            assert(r[i] == all[i]);
            assert(before(address_key(r[i].local), address_key(r[all.len() as int].local)));
            before_is_strict(k, k, k);
        }
    } else if all.last().local == x.local {
        let front = all.drop_last();
        assert(r[front.len() as int] == x);
        assert forall|i: int, j: int| 0 <= i < j < r.len() implies before(
            address_key((#[trigger] r[i]).local),
            address_key((#[trigger] r[j]).local),
        ) by {
            assert(before(address_key(all[i].local), address_key(all[j].local)));
        }
        assert forall|i: int| 0 <= i < all.len() && (#[trigger] all[i]).local
            != x.local implies r.contains(all[i]) by {
            assert(r[i] == all[i]);
        }
        assert forall|i: int| 0 <= i < front.len() implies (#[trigger] r[i]).local != x.local
            && all.contains(r[i]) by {
            assert(r[i] == all[i]);
            assert(before(address_key(r[i].local), address_key(r[front.len() as int].local)));
            before_is_strict(k, k, k);
        }
    } else {
        let front = all.drop_last();
        let last = all.last();
        assert forall|i: int, j: int| 0 <= i < j < front.len() implies before(
            address_key((#[trigger] front[i]).local),
            address_key((#[trigger] front[j]).local),
        ) by {
            assert(before(address_key(all[i].local), address_key(all[j].local)));
        }
        announcements_are_kept(front, x);
        let q = announced(front, x);
        if address_key(last.local) == k {
            address_key_differs(last.local, x.local);
        }
        before_is_strict(address_key(last.local), k, k);
        let at = choose|i: int| 0 <= i < q.len() && q[i] == x;
        assert(r[at] == x);
        assert forall|i: int, j: int| 0 <= i < j < r.len() implies before(
            address_key((#[trigger] r[i]).local),
            address_key((#[trigger] r[j]).local),
        ) by {
            if j < q.len() {
                assert(r[i] == q[i] && r[j] == q[j]);
            } else {
                assert(r[i] == q[i]);
                if q[i] != x {
                    assert(front.contains(q[i]));
                    let m = choose|m: int| 0 <= m < front.len() && front[m] == q[i];
                    assert(all[m] == q[i]);
                    assert(before(
                        address_key(all[m].local),
                        address_key(all[all.len() - 1].local),
                    ));
                }
            }
        }
        assert forall|i: int| 0 <= i < all.len() && (#[trigger] all[i]).local
            != x.local implies r.contains(all[i]) by {
            if i < front.len() {
                assert(front[i] == all[i]);
                let m = choose|m: int| 0 <= m < q.len() && q[m] == all[i];
                assert(r[m] == all[i]);
            } else {
                assert(r[q.len() as int] == all[i]);
            }
        }
        assert forall|i: int| 0 <= i < r.len() implies (#[trigger] r[i] == x || (r[i].local
            != x.local && all.contains(r[i]))) by {
            if i < q.len() {
                assert(r[i] == q[i]);
                if q[i] != x {
                    let m = choose|m: int| 0 <= m < front.len() && front[m] == q[i];
                    assert(all[m] == q[i]);
                }
            } else {
                assert(r[i] == all[all.len() - 1]);
            }
        }
    }
}

/// Every port that something listens for is published, whichever announcement it is, and no port
/// that was published is lost.
pub proof fn announced_listeners_are_published(
    ports: Map<u16, SocketAddr>,
    all: Seq<Announcement>,
    listeners: Seq<SocketAddr>,
    i: int,
    port: u16,
)
    ensures
        0 <= i < all.len() && listeners.contains(all[i].local) ==> published(
            ports,
            all,
            listeners,
        ).contains_key(all[i].remote),
        ports.contains_key(port) ==> published(ports, all, listeners).contains_key(port),
        ports.contains_key(port) && (forall|k: int|
            0 <= k < all.len() && (#[trigger] all[k]).remote == port ==> !(all[k].local.ip is V4)
                || !listeners.contains(all[k].local)) ==> published(ports, all, listeners)[port]
            == ports[port],
    decreases all.len(),
{
    if all.len() > 0 {
        let front = all.drop_last();
        announced_listeners_are_published(ports, front, listeners, i, port);
        if ports.contains_key(port) && (forall|k: int|
            0 <= k < all.len() && (#[trigger] all[k]).remote == port ==> !(all[k].local.ip is V4)
                || !listeners.contains(all[k].local)) {
            assert forall|k: int| 0 <= k < front.len() && (#[trigger] front[k]).remote
                == port implies !(front[k].local.ip is V4) || !listeners.contains(
                front[k].local,
            ) by {
                assert(front[k] == all[k]);
            }
            assert(all[all.len() - 1] == all.last());
        }
    }
}

/// A connector that is asked for is started once its time has come, and not while it runs.
pub proof fn when_connectors_are_started(b: BrokerView, now: u64, event: WaitEvent, retry_at: u64)
    ensures
        b.connector == (Connector::Down { retry_at }) && b.wanted && now >= retry_at
            ==> connector_step(b, now, event).1 == ConnectorStep::Spawn && connector_step(
            b,
            now,
            event,
        ).0.connector == (Connector::Up { since: now, ready: false }),
        b.connector == (Connector::Down { retry_at }) && b.wanted && now < retry_at
            && b.network.pending is None && event is Tick ==> connector_step(b, now, event).1
            == ConnectorStep::Sleep(retry_at),
        !(b.connector is Down) ==> connector_step(b, now, event).1 == ConnectorStep::Rest,
        connector_step(b, now, event).0.ports == b.ports,
        connector_step(b, now, event).0.announcements == b.announcements,
        connector_step(b, now, event).0.listeners == b.listeners,
        connector_step(b, now, event).0.leases == b.leases,
        connector_step(b, now, event).0.generation == b.generation,
        connector_step(b, now, event).0.error == b.error,
        connector_step(b, now, event).0.wanted == b.wanted,
        connector_step(b, now, event).0.sessions == b.sessions,
{
}

/// What the connector says counts while it runs: which port it forwards, at which address it
/// listens, which makes it ready, and that it failed to forward one, which ends it. Any other
/// line changes nothing.
pub proof fn what_lines_of_the_connector_do(
    b: BrokerView,
    line: Seq<char>,
    now: u64,
    since: u64,
    ready: bool,
)
    requires
        b.connector == (Connector::Up { since, ready }),
    ensures
        forwarding_failed(line) ==> line_step(b, line, now).1 && line_step(b, line, now).0.connector
            == (Connector::Restarting { ready }) && line_step(b, line, now).0.ports == Map::<
            u16,
            SocketAddr,
        >::empty(),
        !forwarding_failed(line) ==> !line_step(b, line, now).1,
        !forwarding_failed(line) ==> (listening(line) matches Some(a) ==> line_step(
            b,
            line,
            now,
        ).0.listeners.contains(a) && line_step(b, line, now).0.connector == (Connector::Up {
            since,
            ready: true,
        })),
        !forwarding_failed(line) && listening(line) is None ==> line_step(b, line, now).0.connector
            == b.connector && line_step(b, line, now).0.listeners == b.listeners,
        !forwarding_failed(line) && forwarding(line) is None ==> line_step(
            b,
            line,
            now,
        ).0.announcements == b.announcements,
        !forwarding_failed(line) ==> (forwarding(line) matches Some((n, a)) ==> line_step(
            b,
            line,
            now,
        ).0.announcements == announced(b.announcements, Announcement { local: a, remote: n })),
        !forwarding_failed(line) && forwarding(line) is None && listening(line) is None
            ==> line_step(b, line, now).0 == b,
        !forwarding_failed(line) ==> forall|i: int|
            0 <= i < b.listeners.len() ==> line_step(b, line, now).0.listeners.contains(
                #[trigger] b.listeners[i],
            ),
        line_step(b, line, now).0.leases == b.leases,
        line_step(b, line, now).0.error == b.error,
        line_step(b, line, now).0.sessions == b.sessions,
        line_step(b, line, now).0.wanted == b.wanted,
{
    if !forwarding_failed(line) {
        if let Some(a) = listening(line) {
            let c = line_step(b, line, now).0;
            if !b.listeners.contains(a) {
                assert(c.listeners[b.listeners.len() as int] == a);
            }
            assert forall|i: int| 0 <= i < b.listeners.len() implies c.listeners.contains(
                #[trigger] b.listeners[i],
            ) by {
                assert(c.listeners[i] == b.listeners[i]);
            }
        } else {
            assert forall|i: int| 0 <= i < b.listeners.len() implies line_step(
                b,
                line,
                now,
            ).0.listeners.contains(#[trigger] b.listeners[i]) by {}
        }
    }
}

/// A port can be reached once the connector has said that it forwards the port to an address and
/// that it listens there, whatever stood before.
pub proof fn forwarded_ports_can_be_reached(
    b: BrokerView,
    first: Seq<char>,
    t: u64,
    second: Seq<char>,
    u: u64,
    now: u64,
    n: u16,
    a: SocketAddr,
)
    requires
        b.connector is Up,
        in_address_order(b.announcements),
        !forwarding_failed(first),
        !forwarding_failed(second),
        forwarding(first) == Some((n, a)),
        forwarding(second) is None,
        listening(second) == Some(a),
        !idle(b.leases, now),
    ensures
        ({
            let heard = line_step(line_step(b, first, t).0, second, u).0;
            let end = tick_step(heard, now);
            end.1 == TickStep::Continue && end.0.ports.contains_key(n)
        }),
{
    let x = Announcement { local: a, remote: n };
    let one = line_step(b, first, t).0;
    let heard = line_step(one, second, u).0;
    announcements_are_kept(b.announcements, x);
    let all = heard.announcements;
    assert(all == announced(b.announcements, x));
    let i = choose|i: int| 0 <= i < all.len() && all[i] == x;
    if !one.listeners.contains(a) {
        assert(heard.listeners[one.listeners.len() as int] == a);
    }
    assert(heard.listeners.contains(a));
    announced_listeners_are_published(heard.ports, all, heard.listeners, i, n);
}

/// With a connector that is lost, nothing is known of the ports any more, and sessions that began
/// with it end.
pub proof fn what_is_lost_with_a_connector(b: BrokerView, now: u64)
    requires
        b.generation < u64::MAX,
    ensures
        b.connector is Up ==> exit_step(b, now).ports == Map::<u16, SocketAddr>::empty(),
        b.connector is Up ==> exit_step(b, now).announcements.len() == 0,
        b.connector is Up ==> exit_step(b, now).listeners.len() == 0,
        b.connector is Up ==> exit_step(b, now).generation == b.generation + 1,
        lost(b).ports == Map::<u16, SocketAddr>::empty(),
        lost(b).announcements.len() == 0,
        lost(b).listeners.len() == 0,
        lost(b).generation == b.generation + 1,
        lost(b).connector == b.connector,
        lost(b).retry == b.retry,
        lost(b).network == b.network,
        exit_step(b, now).connector is Down,
        exit_step(b, now).retry == after_failed(b.retry, now),
        exit_step(b, now).wanted == b.wanted,
        exit_step(b, now).leases == b.leases,
        exit_step(b, now).error == b.error,
        exit_step(b, now).sessions == b.sessions,
{
}

/// At regular times a manager stops exactly where it was without a session for long enough, ends
/// a connector exactly where it has not listened within 30 seconds, and else publishes the ports
/// that something listens for.
pub proof fn what_managers_do_at_regular_times(b: BrokerView, now: u64)
    ensures
        tick_step(b, now).1 == TickStep::Shutdown <==> b.leases.stopping || (b.leases.count == 0
            && now >= b.leases.idle_until),
        tick_step(b, now).1 == TickStep::Restart <==> !idle(b.leases, now)
            && (b.connector matches Connector::Up { since, ready } && !ready && now - since
            >= 30000),
        tick_step(b, now).1 == TickStep::Continue && !(b.connector is Restarting) ==> tick_step(
            b,
            now,
        ).0.ports == published(b.ports, b.announcements, b.listeners),
        tick_step(b, now).1 == TickStep::Continue ==> tick_step(b, now).0.connector == b.connector,
        tick_step(b, now).1 == TickStep::Restart ==> tick_step(b, now).0.connector
            == (Connector::Restarting { ready: false }),
        tick_step(b, now).0.leases.count == b.leases.count,
        tick_step(b, now).0.retry == b.retry,
        tick_step(b, now).0.error == b.error,
        tick_step(b, now).0.sessions == b.sessions,
        LISTEN_TIME == 30000,
        MOST_SESSIONS == 256,
{
}

/// A request with the right token is refused exactly where it speaks another version or one of
/// its ports is 0. A fixed local port leads to that port of this machine, and else the connection
/// goes where the connector listens.
pub proof fn which_requests_are_refused(r: Request, port: u16, found: SocketAddr)
    ensures
        refusal(r) is None <==> r.version == 1 && r.remote_port > 0 && r.local_port != Some(0u16),
        r.version != 1 ==> refusal(r) == Some("incompatible sshdt tunnel manager"@),
        r.version == 1 && (r.remote_port == 0 || r.local_port == Some(0u16)) ==> refusal(r) == Some(
            "invalid port"@,
        ),
        destination(None, found) == found,
        destination(Some(port), found) == (SocketAddr {
            ip: IpAddr::V4(127, 0, 0, 1),
            port,
            scope: 0,
        }),
        conflict_text(port) == "local port "@ + digits(port as nat)
            + " already routes to a different destination"@,
{
}

} // verus!
