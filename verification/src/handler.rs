//! One connection: who is let in, and what its channels do.

use crate::auth::{
    key_fits, lets_in, offered, AuthConfig, AuthMethod, AuthResult, MethodKind, PublicKey,
};
use crate::config::among;
use crate::devtunnel::process::{from_utf8_lossy, lossy_text};
use crate::forward::{cut_to_16, low_16};
use crate::session::{pairs, PtyRequest, SessionRequest};
use crate::text::{begins, chars, same, starts_with, text, texts};
use std::collections::HashMap;
use vstd::prelude::*;
use vstd::std_specs::hash::group_hash_axioms;

verus! {

broadcast use group_hash_axioms;

/// Whether an entry of the list of accepted variables stands for `name`. One that ends
/// in `*` stands for every name that begins with the rest of it.
pub open spec fn pattern_fits(pattern: Seq<char>, name: Seq<char>) -> bool {
    if pattern.len() > 0 && pattern.last() == '*' {
        begins(name, pattern.drop_last())
    } else {
        name == pattern
    }
}

/// Whether a client may set a variable.
pub open spec fn variable_allowed(name: Seq<char>, allowlist: Seq<Seq<char>>) -> bool {
    exists|i: int| 0 <= i < allowlist.len() && pattern_fits(#[trigger] allowlist[i], name)
}

/// Whether a client may set a variable.
pub fn env_allowed(name: &str, allowlist: &Vec<String>) -> (r: bool)
    ensures
        r == variable_allowed(name@, texts(allowlist@)),
{
    let ghost all = texts(allowlist@);
    let mut i: usize = 0;
    while i < allowlist.len()
        invariant
            all == texts(allowlist@),
            i <= allowlist@.len(),
            forall|k: int| 0 <= k < i ==> !pattern_fits(#[trigger] all[k], name@),
        decreases allowlist@.len() - i,
    {
        let v = chars(allowlist[i].as_str());
        assert(all[i as int] == v@);
        let fits = if v.len() > 0 && v[v.len() - 1] == '*' {
            let n: usize = v.len() - 1;
            assert(v@.subrange(0, n as int) =~= v@.drop_last());
            starts_with(name, text(&v, 0, n).as_str())
        } else {
            same(name, allowlist[i].as_str())
        };
        if fits {
            return true;
        }
        i = i + 1;
    }
    false
}

/// What a client is answered.
#[derive(Debug)]
pub enum Auth {
    /// It is let in.
    Accept,
    /// It is not, and may go on with these methods.
    Reject { methods: Vec<MethodKind>, partial_success: bool },
}

/// What a client is answered.
pub enum AuthView {
    Accept,
    Reject { methods: Seq<MethodKind>, partial_success: bool },
}

impl View for Auth {
    type V = AuthView;

    open spec fn view(&self) -> AuthView {
        match self {
            Auth::Accept => AuthView::Accept,
            Auth::Reject { methods, partial_success } => AuthView::Reject {
                methods: methods@,
                partial_success: *partial_success,
            },
        }
    }
}

/// Who is let in, and under which names.
#[derive(Debug)]
pub struct Gate {
    /// Who is let in.
    pub auth: AuthConfig,
    /// The names that are accepted. Where there are none, every name is.
    pub allowed_users: Vec<String>,
    /// Whether something else decides who is let in.
    pub has_hook: bool,
}

/// Whether a name is accepted.
pub open spec fn user_accepted(allowed: Seq<Seq<char>>, user: Seq<char>) -> bool {
    allowed.len() == 0 || allowed.contains(user)
}

/// A rejection that leaves the client every method.
pub open spec fn rejected(g: Gate) -> AuthView {
    AuthView::Reject { methods: offered(g.auth, g.has_hook), partial_success: false }
}

/// What a client is answered. `answer` is what something else decided, where there is
/// such a thing: it takes the place of the settings.
pub open spec fn decision(
    g: Gate,
    user: Seq<char>,
    method: AuthMethod,
    answer: Option<AuthResult>,
) -> AuthView {
    if !user_accepted(texts(g.allowed_users@), user) {
        rejected(g)
    } else {
        match answer {
            Some(AuthResult::Accept) => AuthView::Accept,
            Some(AuthResult::Partial) => AuthView::Reject {
                methods: offered(g.auth, true),
                partial_success: true,
            },
            Some(AuthResult::Reject) => rejected(g),
            None => if lets_in(g.auth, method) {
                AuthView::Accept
            } else {
                rejected(g)
            },
        }
    }
}

impl Gate {
    /// Whether a name is accepted. The match is exact.
    pub fn user_allowed(&self, user: &str) -> (r: bool)
        ensures
            r == user_accepted(texts(self.allowed_users@), user@),
    {
        let n: usize = self.allowed_users.len();
        assert(texts(self.allowed_users@).take(n as int) =~= texts(self.allowed_users@));
        n == 0 || among(&self.allowed_users, n, user)
    }

    fn reject(&self) -> (r: Auth)
        ensures
            r@ == rejected(*self),
    {
        Auth::Reject { methods: self.auth.method_set(self.has_hook), partial_success: false }
    }

    /// Whether something else is asked about a client with this name.
    pub fn asks_hook(&self, user: &str) -> (r: bool)
        ensures
            r == (self.has_hook && user_accepted(texts(self.allowed_users@), user@)),
    {
        self.has_hook && self.user_allowed(user)
    }

    /// What a client is answered. `answer` is what something else decided, where it was
    /// asked.
    pub fn decide(&self, user: &str, method: &AuthMethod, answer: Option<AuthResult>) -> (r: Auth)
        requires
            answer is Some <==> self.has_hook && user_accepted(texts(self.allowed_users@), user@),
        ensures
            r@ == decision(*self, user@, *method, answer),
    {
        if !self.user_allowed(user) {
            return self.reject();
        }
        match answer {
            Some(AuthResult::Accept) => Auth::Accept,
            Some(AuthResult::Partial) => Auth::Reject {
                methods: self.auth.method_set(true),
                partial_success: true,
            },
            Some(AuthResult::Reject) => self.reject(),
            None => if self.auth.check(method) {
                Auth::Accept
            } else {
                self.reject()
            },
        }
    }

    /// Whether a client may sign with a key that it offers. Where something else decides,
    /// it decides once the client has signed.
    pub fn auth_publickey_offered(&self, user: &str, key: &PublicKey) -> (r: Auth)
        ensures
            r@ == (if user_accepted(texts(self.allowed_users@), user@) && (self.has_hook
                || key_fits(self.auth, key.data@)) {
                AuthView::Accept
            } else {
                rejected(*self)
            }),
    {
        if !self.user_allowed(user) {
            self.reject()
        } else if self.has_hook || self.auth.check_publickey(key) {
            Auth::Accept
        } else {
            self.reject()
        }
    }
}

/// No client is let in under a name that is not accepted, whatever it offers and
/// whatever something else decides.
pub proof fn other_names_are_shut_out(
    g: Gate,
    user: Seq<char>,
    method: AuthMethod,
    answer: Option<AuthResult>,
)
    requires
        g.allowed_users@.len() > 0,
        !texts(g.allowed_users@).contains(user),
    ensures
        !(decision(g, user, method, answer) is Accept),
{
}

/// Without something else that decides, a client with an accepted name is let in exactly
/// where what it offers lets it in: any one method is enough.
pub proof fn one_method_is_enough(g: Gate, user: Seq<char>, method: AuthMethod)
    requires
        user_accepted(texts(g.allowed_users@), user),
    ensures
        decision(g, user, method, None) is Accept <==> lets_in(g.auth, method),
{
}

/// A rejection never takes away a method: the client may try again.
pub proof fn rejections_leave_every_method(
    g: Gate,
    user: Seq<char>,
    method: AuthMethod,
    answer: Option<AuthResult>,
)
    requires
        answer is Some ==> g.has_hook,
    ensures
        decision(g, user, method, answer) matches AuthView::Reject { methods, .. } ==> methods
            == offered(g.auth, g.has_hook),
{
}

/// A channel of a connection.
#[derive(Debug)]
pub struct ChannelState {
    /// Whether the channel has not been given to a session yet.
    pub free: bool,
    /// The terminal that the client asked for.
    pub pty: Option<PtyRequest>,
    /// The variables that the client set.
    pub env: Vec<(String, String)>,
    /// Whether a session runs that can be told about another size.
    pub running: bool,
    /// Whether the channel carries file transfers.
    pub sftp: bool,
}

/// A channel that was just opened.
pub open spec fn opened(s: ChannelState) -> bool {
    s.free && s.pty is None && s.env@.len() == 0 && !s.running && !s.sftp
}

/// A session that begins.
#[derive(Debug)]
pub struct Started {
    pub request: SessionRequest,
    pub env: Vec<(String, String)>,
}

fn copy_pty(pty: &Option<PtyRequest>) -> (r: Option<PtyRequest>)
    ensures
        r == *pty,
{
    match pty {
        Some(p) => Some(
            PtyRequest {
                term: p.term.clone(),
                cols: p.cols,
                rows: p.rows,
                pixel_width: p.pixel_width,
                pixel_height: p.pixel_height,
            },
        ),
        None => None,
    }
}

/// One connection.
#[derive(Debug)]
pub struct ConnectionHandler {
    /// Its channels.
    pub channels: HashMap<u32, ChannelState>,
    /// Whether the client was let in.
    pub authed: bool,
    /// Whether it counts as one that waits for authentication.
    pub holds_slot: bool,
}

impl ConnectionHandler {
    /// A connection that begins.
    pub fn new(holds_slot: bool) -> (r: Self)
        ensures
            r.channels@ == Map::<u32, ChannelState>::empty(),
            !r.authed,
            r.holds_slot == holds_slot,
    {
        ConnectionHandler { channels: HashMap::new(), authed: false, holds_slot }
    }

    /// Notes that the client was let in.
    pub fn mark_authenticated(&mut self)
        ensures
            final(self).authed,
            !final(self).holds_slot,
            final(self).channels@ == old(self).channels@,
    {
        self.authed = true;
        self.holds_slot = false;
    }

    /// Opens a channel.
    pub fn channel_open_session(&mut self, id: u32)
        ensures
            final(self).channels@.dom() == old(self).channels@.dom().insert(id),
            opened(final(self).channels@[id]),
            forall|k: u32|
                k != id && old(self).channels@.contains_key(k) ==> #[trigger] final(self).channels@[k] == old(self).channels@[k],
            final(self).authed == old(self).authed,
            final(self).holds_slot == old(self).holds_slot,
    {
        self.channels.insert(
            id,
            ChannelState { free: true, pty: None, env: Vec::new(), running: false, sftp: false },
        );
        assert(self.channels@.dom() =~= old(self).channels@.dom().insert(id));
    }

    /// Notes the terminal that a client asks for.
    pub fn pty_request(
        &mut self,
        id: u32,
        term: &str,
        col_width: u32,
        row_height: u32,
        pix_width: u32,
        pix_height: u32,
    )
        ensures
            final(self).channels@.dom() == old(self).channels@.dom(),
            forall|k: u32|
                k != id && old(self).channels@.contains_key(k) ==> #[trigger] final(self).channels@[k] == old(self).channels@[k],
            old(self).channels@.contains_key(id) ==> ({
                let before = old(self).channels@[id];
                let after = final(self).channels@[id];
                &&& after.pty matches Some(p) && p.term@ == term@ && p.cols == cut_to_16(col_width)
                    && p.rows == cut_to_16(row_height) && p.pixel_width == cut_to_16(pix_width)
                    && p.pixel_height == cut_to_16(pix_height)
                &&& after == (ChannelState { pty: after.pty, ..before })
            }),
            final(self).authed == old(self).authed,
            final(self).holds_slot == old(self).holds_slot,
    {
        if let Some(state) = self.channels.remove(&id) {
            let mut state = state;
            state.pty = Some(
                PtyRequest {
                    term: term.to_owned(),
                    cols: low_16(col_width),
                    rows: low_16(row_height),
                    pixel_width: low_16(pix_width),
                    pixel_height: low_16(pix_height),
                },
            );
            self.channels.insert(id, state);
        }
        assert(self.channels@.dom() =~= old(self).channels@.dom());
    }

    /// Notes a variable that a client sets, and says whether it may set it.
    pub fn env_request(
        &mut self,
        id: u32,
        name: &str,
        value: &str,
        accept_env: &Vec<String>,
    ) -> (r: bool)
        ensures
            r == variable_allowed(name@, texts(accept_env@)),
            final(self).channels@.dom() == old(self).channels@.dom(),
            forall|k: u32|
                (k != id || !r) && old(self).channels@.contains_key(k) ==> #[trigger] final(self).channels@[k] == old(self).channels@[k],
            r && old(self).channels@.contains_key(id) ==> ({
                let before = old(self).channels@[id];
                let after = final(self).channels@[id];
                &&& pairs(after.env@) == pairs(before.env@).push((name@, value@))
                &&& after == (ChannelState { env: after.env, ..before })
            }),
            final(self).authed == old(self).authed,
            final(self).holds_slot == old(self).holds_slot,
    {
        if !env_allowed(name, accept_env) {
            return false;
        }
        if let Some(state) = self.channels.remove(&id) {
            let mut state = state;
            let ghost before = state.env@;
            state.env.push((name.to_owned(), value.to_owned()));
            assert(pairs(state.env@) =~= pairs(before).push((name@, value@)));
            self.channels.insert(id, state);
        }
        assert(self.channels@.dom() =~= old(self).channels@.dom());
        true
    }

    /// The size to tell the session of a channel, where one runs.
    pub fn window_change_request(&self, id: u32, col_width: u32, row_height: u32) -> (r: Option<
        (u16, u16),
    >)
        ensures
            r == (if self.channels@.contains_key(id) && self.channels@[id].running {
                Some((cut_to_16(col_width), cut_to_16(row_height)))
            } else {
                None
            }),
    {
        match self.channels.get(&id) {
            Some(state) => if state.running {
                Some((low_16(col_width), low_16(row_height)))
            } else {
                None
            },
            None => None,
        }
    }

    /// Begins a session on a channel that is free: for `command`, or for a shell. The
    /// variables that the client set go to the session.
    pub fn start_session(&mut self, id: u32, command: Option<String>) -> (r: Option<Started>)
        ensures
            r is Some <==> old(self).channels@.contains_key(id) && old(self).channels@[id].free,
            r matches Some(s) ==> ({
                let before = old(self).channels@[id];
                let after = final(self).channels@[id];
                &&& s.env@ == before.env@
                &&& command is None ==> s.request == (SessionRequest::Shell { pty: before.pty })
                &&& command matches Some(c) ==> s.request == (SessionRequest::Exec {
                    command: c,
                    pty: before.pty,
                })
                &&& after.env@.len() == 0
                &&& after == (ChannelState {
                    free: false,
                    running: true,
                    env: after.env,
                    ..before
                })
            }),
            r is None ==> final(self).channels@ == old(self).channels@,
            final(self).channels@.dom() == old(self).channels@.dom(),
            forall|k: u32|
                k != id && old(self).channels@.contains_key(k) ==> #[trigger] final(self).channels@[k] == old(self).channels@[k],
            final(self).authed == old(self).authed,
            final(self).holds_slot == old(self).holds_slot,
    {
        let free = match self.channels.get(&id) {
            Some(state) => state.free,
            None => false,
        };
        if !free {
            return None;
        }
        match self.channels.remove(&id) {
            None => None,
            Some(state) => {
                self.channels.insert(
                    id,
                    ChannelState {
                        free: false,
                        pty: copy_pty(&state.pty),
                        env: Vec::new(),
                        running: true,
                        sftp: state.sftp,
                    },
                );
                assert(self.channels@.dom() =~= old(self).channels@.dom());
                let request = match command {
                    None => SessionRequest::Shell { pty: state.pty },
                    Some(command) => SessionRequest::Exec { command, pty: state.pty },
                };
                Some(Started { request, env: state.env })
            },
        }
    }

    /// Begins a session for the command that a client sent as bytes.
    pub fn exec_request(&mut self, id: u32, data: &[u8]) -> (r: Option<Started>)
        ensures
            r is Some <==> old(self).channels@.contains_key(id) && old(self).channels@[id].free,
            r matches Some(s) ==> ({
                let before = old(self).channels@[id];
                let after = final(self).channels@[id];
                &&& s.env@ == before.env@
                &&& s.request matches SessionRequest::Exec { command, pty } && command@
                    == lossy_text(data@) && pty == before.pty
                &&& after.env@.len() == 0
                &&& after == (ChannelState {
                    free: false,
                    running: true,
                    env: after.env,
                    ..before
                })
            }),
            r is None ==> final(self).channels@ == old(self).channels@,
            final(self).channels@.dom() == old(self).channels@.dom(),
            forall|k: u32|
                k != id && old(self).channels@.contains_key(k) ==> #[trigger] final(self).channels@[k] == old(self).channels@[k],
            final(self).authed == old(self).authed,
            final(self).holds_slot == old(self).holds_slot,
    {
        self.start_session(id, Some(from_utf8_lossy(data)))
    }

    /// Begins file transfers on a channel that is free. `false` where the client asks
    /// for anything else, or the channel is not free.
    pub fn subsystem_request(&mut self, id: u32, name: &str) -> (r: bool)
        ensures
            r == (name@ == "sftp"@ && old(self).channels@.contains_key(id) && old(self).channels@[id].free),
            name@ == "sftp"@ && old(self).channels@.contains_key(id) ==> final(self).channels@[id] == (ChannelState { free: false, sftp: true, ..old(self).channels@[id]
            }),
            name@ != "sftp"@ ==> final(self).channels@ == old(self).channels@,
            final(self).channels@.dom() == old(self).channels@.dom(),
            forall|k: u32|
                k != id && old(self).channels@.contains_key(k) ==> #[trigger] final(self).channels@[k] == old(self).channels@[k],
            final(self).authed == old(self).authed,
            final(self).holds_slot == old(self).holds_slot,
    {
        if !same(name, "sftp") {
            return false;
        }
        let mut taken = false;
        if let Some(state) = self.channels.remove(&id) {
            let mut state = state;
            taken = state.free;
            state.free = false;
            state.sftp = true;
            self.channels.insert(id, state);
        }
        assert(self.channels@.dom() =~= old(self).channels@.dom());
        taken
    }

    /// Whether to report a clean end when a client says that it will send no more: a
    /// channel with file transfers has no process that could report one.
    pub fn channel_eof(&self, id: u32) -> (r: bool)
        ensures
            r == (self.channels@.contains_key(id) && self.channels@[id].sftp),
    {
        match self.channels.get(&id) {
            Some(state) => state.sftp,
            None => false,
        }
    }

    /// Closes a channel.
    pub fn channel_close(&mut self, id: u32)
        ensures
            final(self).channels@ == old(self).channels@.remove(id),
            final(self).authed == old(self).authed,
            final(self).holds_slot == old(self).holds_slot,
    {
        self.channels.remove(&id);
        assert(self.channels@ =~= old(self).channels@.remove(id));
    }
}

/// A client may set exactly the variables that are in the list, and those that begin with
/// something that is in the list with a `*` behind it.
pub proof fn which_variables_are_accepted(
    name: Seq<char>,
    rest: Seq<char>,
    allowlist: Seq<Seq<char>>,
)
    ensures
        allowlist.contains(name) ==> variable_allowed(name, allowlist),
        allowlist.contains(name.push('*')) ==> variable_allowed(name + rest, allowlist),
        variable_allowed(name, allowlist) ==> allowlist.contains(name) || exists|k: int|
            0 <= k <= name.len() && allowlist.contains((#[trigger] name.take(k)).push('*')),
{
    if allowlist.contains(name) {
        let i = choose|i: int| 0 <= i < allowlist.len() && allowlist[i] == name;
        if name.len() > 0 && name.last() == '*' {
            let n = name.len() - 1;
            assert(name.subrange(0, n) =~= name.drop_last());
        }
        assert(pattern_fits(allowlist[i], name));
    }
    if allowlist.contains(name.push('*')) {
        let i = choose|i: int| 0 <= i < allowlist.len() && allowlist[i] == name.push('*');
        assert(name.push('*').drop_last() =~= name);
        assert((name + rest).subrange(0, name.len() as int) =~= name);
        assert(pattern_fits(allowlist[i], name + rest));
    }
    if variable_allowed(name, allowlist) && !allowlist.contains(name) {
        let i = choose|i: int|
            0 <= i < allowlist.len() && pattern_fits(#[trigger] allowlist[i], name);
        let p = allowlist[i];
        assert(p.len() > 0 && p.last() == '*');
        let k = p.len() - 1;
        assert(name.take(k) =~= name.subrange(0, k));
        assert(name.take(k).push('*') =~= p);
    }
}

/// Where no names are listed, every name is accepted, and else exactly those that are listed.
pub proof fn which_names_are_accepted(allowed: Seq<Seq<char>>, user: Seq<char>)
    ensures
        allowed.len() == 0 ==> user_accepted(allowed, user),
        allowed.len() > 0 ==> (user_accepted(allowed, user) <==> exists|i: int|
            0 <= i < allowed.len() && #[trigger] allowed[i] == user),
{
}

/// A client is let in exactly where its name is accepted and what decides lets it in: something
/// else that does where it was asked, and what it offers where it was not. An attempt that
/// succeeded in part leaves every method.
pub proof fn who_is_let_in(
    g: Gate,
    user: Seq<char>,
    method: AuthMethod,
    answer: Option<AuthResult>,
)
    ensures
        decision(g, user, method, answer) is Accept <==> (g.allowed_users@.len() == 0 || exists|
            i: int,
        |
            0 <= i < g.allowed_users@.len() && (#[trigger] g.allowed_users@[i])@ == user) && (
        answer == Some(AuthResult::Accept) || (answer is None && lets_in(g.auth, method))),
        decision(g, user, method, answer) matches AuthView::Reject { partial_success, .. } ==> (
        partial_success <==> answer == Some(AuthResult::Partial) && (g.allowed_users@.len() == 0
            || exists|i: int|
            0 <= i < g.allowed_users@.len() && (#[trigger] g.allowed_users@[i])@ == user)),
{
    let all = texts(g.allowed_users@);
    assert(all.len() == g.allowed_users@.len());
    if exists|i: int| 0 <= i < g.allowed_users@.len() && (#[trigger] g.allowed_users@[i])@ == user {
        let i = choose|i: int|
            0 <= i < g.allowed_users@.len() && (#[trigger] g.allowed_users@[i])@ == user;
        assert(all[i] == user);
    }
    if all.contains(user) {
        let i = choose|i: int| 0 <= i < all.len() && all[i] == user;
        assert(g.allowed_users@[i]@ == user);
    }
}

/// A channel that was just opened is free, and nothing was asked for on it.
pub proof fn what_new_channels_are(s: ChannelState)
    ensures
        opened(s) <==> s.free && s.pty is None && s.env@.len() == 0 && !s.running && !s.sftp,
{
}

} // verus!
