//! Hosting a tunnel: the setup of the tunnel through its command line program, and
//! keeping the program running.

use crate::config::{among, tunnel_id, valid_tunnel_id, DevTunnelConfig, DevTunnelView};
use crate::devtunnel::json::{
    field, json_at, look_up, object_text, write_object, Json, JsonView,
};
use crate::devtunnel::logs::{sanitize, sanitized};
use crate::devtunnel::network::{
    later, later_by, noted, wait_step, wake_at, NetworkChanges, WaitEvent, WaitStep,
};
use crate::devtunnel::process::ProcessEvent;
use crate::devtunnel::retry::{after_failed, after_ready, delay_at, fresh, Retry};
use crate::net::SocketAddr;
use crate::number::{decimal, digits};
use crate::text::{
    append_texts, begins, contains, ends, ends_with, holds, lowered, option_text, push_text, same,
    stands_at, starts_with, str_text, texts, to_lower,
};
use vstd::prelude::*;
use vstd::utf8::encode_utf8;

verus! {

/// What a command of the tunnel program wrote, and how it ended.
#[derive(Debug)]
pub struct Output {
    pub success: bool,
    pub code: Option<i32>,
    pub stdout: String,
    pub stderr: String,
}

/// What an [`Output`] holds.
#[verifier::ext_equal]
pub struct OutputView {
    pub success: bool,
    pub code: Option<i32>,
    pub stdout: Seq<char>,
    pub stderr: Seq<char>,
}

impl View for Output {
    type V = OutputView;

    open spec fn view(&self) -> OutputView {
        OutputView {
            success: self.success,
            code: self.code,
            stdout: self.stdout@,
            stderr: self.stderr@,
        }
    }
}

/// The text of an exit code, with a minus sign where it is negative.
pub open spec fn code_digits(code: i32) -> Seq<char> {
    if code < 0 {
        seq!['-'] + digits((-code) as nat)
    } else {
        digits(code as nat)
    }
}

/// The text of an optional exit code.
pub open spec fn code_text(code: Option<i32>) -> Seq<char> {
    match code {
        Some(c) => "Some("@ + code_digits(c) + ")"@,
        None => "None"@,
    }
}

/// The text of an optional exit code: `Some(2)` or `None`.
pub fn describe_code(code: Option<i32>) -> (r: String)
    ensures
        r@ == code_text(code),
{
    match code {
        Some(c) => {
            let mut r = "Some(".to_owned();
            let ghost start = r@;
            if c < 0 {
                r.push('-');
                r.append(decimal((-(c as i64)) as u64).as_str());
            } else {
                r.append(decimal(c as u64).as_str());
            }
            assert(r@ =~= start + code_digits(c));
            r.append(")");
            r
        },
        None => "None".to_owned(),
    }
}

/// Whether the program says that there is no such tunnel.
pub open spec fn missing_tunnel(o: OutputView) -> bool {
    o.code == Some(2i32) && holds(lowered(o.stdout + o.stderr), "tunnel not found"@)
}

/// Whether the program says that there is no such tunnel.
pub fn not_found(output: &Output) -> (r: bool)
    ensures
        r == missing_tunnel(output@),
{
    if output.code != Some(2) {
        return false;
    }
    let mut all = output.stdout.clone();
    all.append(output.stderr.as_str());
    contains(to_lower(all.as_str()).as_str(), "tunnel not found")
}

/// What to say where the account is not logged in.
pub open spec fn login_required() -> Seq<char> {
    "login required; run devtunnel user login under the SSH server account"@
}

/// Whether a message, in small letters, is about the login.
pub open spec fn about_login(lower: Seq<char>) -> bool {
    ||| holds(lower, "login"@)
    ||| holds(lower, "not logged"@)
    ||| holds(lower, "unauthorized"@)
    ||| holds(lower, "authentication"@)
}

/// What to say of a command that failed.
pub open spec fn failure_text(o: OutputView) -> Seq<char> {
    let all = o.stderr + " "@ + o.stdout;
    if about_login(lowered(all)) {
        login_required()
    } else {
        "Dev Tunnel CLI failed with code "@ + code_text(o.code) + ": "@ + sanitized(all)
    }
}

/// What to say of a command that failed.
pub fn failure(output: &Output) -> (r: String)
    ensures
        r@ == failure_text(output@),
{
    let mut all = output.stderr.clone();
    all.append(" ");
    all.append(output.stdout.as_str());
    let lower = to_lower(all.as_str());
    let l = lower.as_str();
    if contains(l, "login") || contains(l, "not logged") || contains(l, "unauthorized") || contains(
        l,
        "authentication",
    ) {
        return "login required; run devtunnel user login under the SSH server account".to_owned();
    }
    let mut r = "Dev Tunnel CLI failed with code ".to_owned();
    r.append(describe_code(output.code).as_str());
    r.append(": ");
    r.append(sanitize(all.as_str()).as_str());
    r
}

/// What the details of a tunnel say of one port.
#[derive(Debug)]
pub struct PortEntry {
    pub number: Option<u64>,
    pub protocol: Option<String>,
}

/// What the program says of a tunnel.
#[derive(Debug)]
pub struct TunnelDetails {
    pub ports: Vec<PortEntry>,
    pub labels: Vec<String>,
}

/// What the details of a tunnel say of one port.
pub struct PortView {
    pub number: Option<u64>,
    pub protocol: Option<Seq<char>>,
}

/// What the program says of a tunnel.
#[verifier::ext_equal]
pub struct DetailsView {
    pub ports: Seq<PortView>,
    pub labels: Seq<Seq<char>>,
}

impl View for PortEntry {
    type V = PortView;

    open spec fn view(&self) -> PortView {
        PortView { number: self.number, protocol: option_text(self.protocol) }
    }
}

impl View for TunnelDetails {
    type V = DetailsView;

    open spec fn view(&self) -> DetailsView {
        DetailsView {
            ports: Seq::new(self.ports@.len(), |i: int| self.ports@[i]@),
            labels: texts(self.labels@),
        }
    }
}

/// The number at a place, where there is one.
pub open spec fn number_of(j: JsonView) -> Option<u64> {
    match j {
        JsonView::Number(n) => n,
        _ => None,
    }
}

/// The text at a place, where there is one.
pub open spec fn text_of(j: JsonView) -> Option<Seq<char>> {
    match j {
        JsonView::Text(s) => Some(s),
        _ => None,
    }
}

/// The number of values of the array at a place, 0 where there is none.
pub open spec fn items_of(j: JsonView) -> usize {
    match j {
        JsonView::Items(n) => n,
        _ => 0,
    }
}

/// The place of the tunnel in what the program says: under `tunnel`, or at the top.
pub open spec fn tunnel_place(text: Seq<char>) -> Seq<char> {
    if json_at(text, "/tunnel"@) is Missing {
        ""@
    } else {
        "/tunnel"@
    }
}

/// The place of the port with index `i`.
pub open spec fn port_place(text: Seq<char>, i: int) -> Seq<char> {
    tunnel_place(text) + "/ports/"@ + digits(i as nat)
}

/// What the program says of the port with index `i`.
pub open spec fn port_at(text: Seq<char>, i: int) -> PortView {
    PortView {
        number: number_of(json_at(text, port_place(text, i) + "/portNumber"@)),
        protocol: text_of(json_at(text, port_place(text, i) + "/protocol"@)),
    }
}

/// What the program says of the label with index `i`.
pub open spec fn label_at(text: Seq<char>, i: int) -> Option<Seq<char>> {
    text_of(json_at(text, tunnel_place(text) + "/labels/"@ + digits(i as nat)))
}

/// The first `n` labels, without those that are no text.
pub open spec fn labels_up_to(text: Seq<char>, n: int) -> Seq<Seq<char>>
    decreases n,
{
    if n <= 0 {
        Seq::empty()
    } else {
        match label_at(text, n - 1) {
            Some(s) => labels_up_to(text, n - 1).push(s),
            None => labels_up_to(text, n - 1),
        }
    }
}

/// What a text of the program says of a tunnel. `None` where it is no JSON.
pub open spec fn details(text: Seq<char>) -> Option<DetailsView> {
    if json_at(text, "/tunnel"@) is Invalid {
        None
    } else {
        let place = tunnel_place(text);
        Some(
            DetailsView {
                ports: Seq::new(
                    items_of(json_at(text, place + "/ports"@)) as nat,
                    |i: int| port_at(text, i),
                ),
                labels: labels_up_to(text, items_of(json_at(text, place + "/labels"@)) as int),
            },
        )
    }
}

fn read_number(text: &str, pointer: &str) -> (r: Option<u64>)
    ensures
        r == number_of(json_at(text@, pointer@)),
{
    match look_up(text, pointer) {
        Json::Number(n) => n,
        _ => None,
    }
}

fn read_text(text: &str, pointer: &str) -> (r: Option<String>)
    ensures
        option_text(r) == text_of(json_at(text@, pointer@)),
{
    match look_up(text, pointer) {
        Json::Text(s) => Some(s),
        _ => None,
    }
}

fn read_items(text: &str, pointer: &str) -> (r: usize)
    ensures
        r == items_of(json_at(text@, pointer@)),
{
    match look_up(text, pointer) {
        Json::Items(n) => n,
        _ => 0,
    }
}

fn concat(a: &str, b: &str) -> (r: String)
    ensures
        r@ == a@ + b@,
{
    let mut r = a.to_owned();
    r.append(b);
    r
}

/// What a text of the program says of a tunnel.
pub fn read_details(text: &str) -> (r: Option<TunnelDetails>)
    ensures
        r is Some <==> details(text@) is Some,
        r matches Some(d) ==> details(text@) == Some(d@),
{
    let place = match look_up(text, "/tunnel") {
        Json::Invalid => return None,
        Json::Missing => "".to_owned(),
        _ => "/tunnel".to_owned(),
    };
    let n: usize = read_items(text, concat(place.as_str(), "/ports").as_str());
    let mut ports: Vec<PortEntry> = Vec::new();
    let mut i: usize = 0;
    while i < n
        invariant
            i <= n,
            place@ == tunnel_place(text@),
            ports@.len() == i,
            forall|k: int| 0 <= k < i ==> (#[trigger] ports@[k])@ == port_at(text@, k),
        decreases n - i,
    {
        let mut port = concat(place.as_str(), "/ports/");
        port.append(decimal(i as u64).as_str());
        let number = read_number(text, concat(port.as_str(), "/portNumber").as_str());
        let protocol = read_text(text, concat(port.as_str(), "/protocol").as_str());
        ports.push(PortEntry { number, protocol });
        i = i + 1;
    }
    let m: usize = read_items(text, concat(place.as_str(), "/labels").as_str());
    let mut labels: Vec<String> = Vec::new();
    let mut j: usize = 0;
    assert(texts(labels@) =~= Seq::<Seq<char>>::empty());
    while j < m
        invariant
            j <= m,
            place@ == tunnel_place(text@),
            texts(labels@) == labels_up_to(text@, j as int),
        decreases m - j,
    {
        let mut label = concat(place.as_str(), "/labels/");
        label.append(decimal(j as u64).as_str());
        if let Some(s) = read_text(text, label.as_str()) {
            push_text(&mut labels, s.as_str());
        }
        j = j + 1;
    }
    let r = TunnelDetails { ports, labels };
    assert(r@ =~= details(text@)->0);
    Some(r)
}

/// Whether a tunnel has the port `port` with the protocol `auto`.
pub open spec fn port_ready(d: DetailsView, port: u16) -> bool {
    exists|i: int|
        0 <= i < d.ports.len() && #[trigger] d.ports[i].number == Some(port as u64)
            && d.ports[i].protocol == Some("auto"@)
}

/// Whether a tunnel has the port `port` with any protocol.
pub open spec fn port_taken(d: DetailsView, port: u16) -> bool {
    exists|i: int| 0 <= i < d.ports.len() && #[trigger] d.ports[i].number == Some(port as u64)
}

/// Whether a tunnel has the port `port` with the protocol `auto`.
pub fn has_port(d: &TunnelDetails, port: u16) -> (r: bool)
    ensures
        r == port_ready(d@, port),
{
    let mut i: usize = 0;
    while i < d.ports.len()
        invariant
            i <= d.ports@.len(),
            forall|k: int|
                0 <= k < i ==> !(#[trigger] d@.ports[k].number == Some(port as u64)
                    && d@.ports[k].protocol == Some("auto"@)),
        decreases d.ports@.len() - i,
    {
        assert(d@.ports[i as int] == d.ports@[i as int]@);
        if let Some(n) = d.ports[i].number {
            if let Some(p) = &d.ports[i].protocol {
                if n == port as u64 && same(p.as_str(), "auto") {
                    assert(d@.ports[i as int].number == Some(port as u64));
                    return true;
                }
            }
        }
        i = i + 1;
    }
    false
}

/// Whether a tunnel has the port `port` with any protocol.
pub fn has_port_number(d: &TunnelDetails, port: u16) -> (r: bool)
    ensures
        r == port_taken(d@, port),
{
    let mut i: usize = 0;
    while i < d.ports.len()
        invariant
            i <= d.ports@.len(),
            forall|k: int| 0 <= k < i ==> #[trigger] d@.ports[k].number != Some(port as u64),
        decreases d.ports@.len() - i,
    {
        assert(d@.ports[i as int] == d.ports@[i as int]@);
        if let Some(n) = d.ports[i].number {
            if n == port as u64 {
                assert(d@.ports[i as int].number == Some(port as u64));
                return true;
            }
        }
        i = i + 1;
    }
    false
}

/// The labels of `wanted` that are not among `have`, each once.
pub open spec fn missing_labels(wanted: Seq<Seq<char>>, have: Seq<Seq<char>>) -> Seq<Seq<char>>
    decreases wanted.len(),
{
    if wanted.len() == 0 {
        Seq::empty()
    } else {
        let before = missing_labels(wanted.drop_last(), have);
        if have.contains(wanted.last()) || before.contains(wanted.last()) {
            before
        } else {
            before.push(wanted.last())
        }
    }
}

fn is_among(v: &Vec<String>, s: &str) -> (r: bool)
    ensures
        r == texts(v@).contains(s@),
{
    let n: usize = v.len();
    assert(texts(v@).take(n as int) =~= texts(v@));
    among(v, n, s)
}

/// The labels of `wanted` that are not among `have`, each once.
pub fn labels_to_add(wanted: &Vec<String>, have: &Vec<String>) -> (r: Vec<String>)
    ensures
        texts(r@) == missing_labels(texts(wanted@), texts(have@)),
{
    let ghost all = texts(wanted@);
    let mut r: Vec<String> = Vec::new();
    let mut i: usize = 0;
    assert(all.take(0) =~= Seq::<Seq<char>>::empty());
    assert(texts(r@) =~= Seq::<Seq<char>>::empty());
    while i < wanted.len()
        invariant
            all == texts(wanted@),
            i <= wanted@.len(),
            texts(r@) == missing_labels(all.take(i as int), texts(have@)),
        decreases wanted@.len() - i,
    {
        let label = wanted[i].as_str();
        proof {
            assert(all.take(i + 1).drop_last() =~= all.take(i as int));
            assert(all.take(i + 1).last() == label@);
        }
        if !is_among(have, label) && !is_among(&r, label) {
            push_text(&mut r, label);
        }
        i = i + 1;
    }
    assert(all.take(i as int) =~= all);
    r
}

/// Adding the missing labels gives the tunnel every label that is wanted.
pub proof fn every_label_is_there(wanted: Seq<Seq<char>>, have: Seq<Seq<char>>, i: int)
    requires
        0 <= i < wanted.len(),
    ensures
        have.contains(wanted[i]) || missing_labels(wanted, have).contains(wanted[i]),
    decreases wanted.len(),
{
    let before = missing_labels(wanted.drop_last(), have);
    if i < wanted.len() - 1 {
        every_label_is_there(wanted.drop_last(), have, i);
        if before.contains(wanted[i]) {
            let k = choose|k: int| 0 <= k < before.len() && before[k] == wanted[i];
            assert(missing_labels(wanted, have)[k] == wanted[i]);
        }
    } else if !have.contains(wanted.last()) && !before.contains(wanted.last()) {
        assert(missing_labels(wanted, have).last() == wanted[i]);
        assert(missing_labels(wanted, have)[before.len() as int] == wanted[i]);
    }
}

/// The command that the setup waits for.
#[derive(Clone, Copy, Debug, PartialEq, Eq, Structural)]
pub enum Step {
    /// Who is logged in.
    User,
    /// What the tunnel is.
    Show,
    /// Create the tunnel.
    Create,
    /// What the tunnel is, once it was created.
    Reshow,
    /// Create the port.
    PortCreate,
    /// What the tunnel is, once its port was created.
    PortShow,
    /// Add labels.
    Label,
}

/// What the setup does next.
#[derive(Debug)]
pub enum Next {
    /// Run a command, and go on with what it gives.
    Run { step: Step, args: Vec<String> },
    /// Start hosting.
    Host { args: Vec<String> },
    /// Give up.
    Fail { reason: String },
}

/// What the setup does next.
#[verifier::ext_equal]
pub enum NextView {
    Run { step: Step, args: Seq<Seq<char>> },
    Host { args: Seq<Seq<char>> },
    Fail { reason: Seq<char> },
}

impl View for Next {
    type V = NextView;

    open spec fn view(&self) -> NextView {
        match self {
            Next::Run { step, args } => NextView::Run { step: *step, args: texts(args@) },
            Next::Host { args } => NextView::Host { args: texts(args@) },
            Next::Fail { reason } => NextView::Fail { reason: reason@ },
        }
    }
}

/// The first command of the setup.
pub open spec fn first_step() -> NextView {
    NextView::Run { step: Step::User, args: seq!["user"@, "show"@, "--json"@] }
}

/// Show the tunnel.
pub open spec fn show_tunnel(step: Step, id: Seq<char>) -> NextView {
    NextView::Run { step, args: seq!["show"@, id, "--json"@] }
}

/// Host the tunnel, or first add the labels that it lacks.
pub open spec fn then_host(id: Seq<char>, wanted: Seq<Seq<char>>, have: Seq<Seq<char>>) -> NextView {
    let missing = missing_labels(wanted, have);
    if missing.len() == 0 {
        NextView::Host { args: seq!["host"@, id] }
    } else {
        NextView::Run { step: Step::Label, args: seq!["update"@, id, "--add-labels"@] + missing }
    }
}

/// What follows from the account: `node` is what stands at `status`.
pub open spec fn after_account_view(id: Seq<char>, node: JsonView) -> NextView {
    if node is Invalid {
        NextView::Fail { reason: "invalid Dev Tunnel login response"@ }
    } else if node == JsonView::Text("Logged in"@) {
        show_tunnel(Step::Show, id)
    } else {
        NextView::Fail { reason: login_required() }
    }
}

/// What follows from the details of the tunnel. `again` says whether its port has been
/// created.
pub open spec fn after_details_view(
    id: Seq<char>,
    wanted: Seq<Seq<char>>,
    auto_create: bool,
    port: u16,
    again: bool,
    d: DetailsView,
) -> NextView {
    let number = digits(port as nat);
    if port_ready(d, port) {
        then_host(id, wanted, d.labels)
    } else if again {
        NextView::Fail {
            reason: "tunnel port "@ + number + " is missing or has an incompatible protocol"@,
        }
    } else if port_taken(d, port) {
        NextView::Fail {
            reason: "tunnel port "@ + number
                + " has an incompatible protocol; update it explicitly with devtunnel"@,
        }
    } else if !auto_create {
        NextView::Fail {
            reason: "tunnel "@ + id + " lacks port "@ + number
                + " with protocol auto; DevTunnelAutoCreate is disabled"@,
        }
    } else {
        NextView::Run {
            step: Step::PortCreate,
            args: seq![
                "port"@,
                "create"@,
                id,
                "-p"@,
                number,
                "--protocol"@,
                "auto"@,
                "--json"@,
            ],
        }
    }
}

/// What follows from the output of a command that shows the tunnel.
pub open spec fn after_shown_view(
    id: Seq<char>,
    c: DevTunnelView,
    port: u16,
    again: bool,
    o: OutputView,
) -> NextView {
    if !o.success {
        NextView::Fail { reason: failure_text(o) }
    } else {
        match details(o.stdout) {
            None => NextView::Fail {
                reason: if again {
                    "invalid Dev Tunnel port details"@
                } else {
                    "invalid Dev Tunnel details"@
                },
            },
            Some(d) => after_details_view(id, c.labels, c.auto_create, port, again, d),
        }
    }
}

/// What the setup of the tunnel does after the command `step` gave `o`.
pub open spec fn after_output(c: DevTunnelView, port: u16, step: Step, o: OutputView) -> NextView {
    let id = c.id->0;
    match step {
        Step::User => if !o.success {
            NextView::Fail { reason: failure_text(o) }
        } else {
            after_account_view(id, json_at(o.stdout, "/status"@))
        },
        Step::Show => if !o.success && missing_tunnel(o) && c.auto_create {
            NextView::Run { step: Step::Create, args: seq!["create"@, id, "--json"@] }
        } else {
            after_shown_view(id, c, port, false, o)
        },
        Step::Create => show_tunnel(Step::Reshow, id),
        Step::Reshow => after_shown_view(id, c, port, false, o),
        Step::PortCreate => show_tunnel(Step::PortShow, id),
        Step::PortShow => after_shown_view(id, c, port, true, o),
        Step::Label => if !o.success {
            NextView::Fail { reason: failure_text(o) }
        } else {
            NextView::Host { args: seq!["host"@, id] }
        },
    }
}

/// The first command of the setup.
pub fn begin_attempt() -> (r: Next)
    ensures
        r@ == first_step(),
{
    let mut args: Vec<String> = Vec::new();
    args.push("user".to_owned());
    args.push("show".to_owned());
    args.push("--json".to_owned());
    assert(texts(args@) =~= seq!["user"@, "show"@, "--json"@]);
    Next::Run { step: Step::User, args }
}

fn run_show(step: Step, id: &str) -> (r: Next)
    ensures
        r@ == show_tunnel(step, id@),
{
    let mut args: Vec<String> = Vec::new();
    args.push("show".to_owned());
    args.push(id.to_owned());
    args.push("--json".to_owned());
    assert(texts(args@) =~= seq!["show"@, id@, "--json"@]);
    Next::Run { step, args }
}

fn run_host(id: &str) -> (r: Next)
    ensures
        r@ == (NextView::Host { args: seq!["host"@, id@] }),
{
    let mut args: Vec<String> = Vec::new();
    args.push("host".to_owned());
    args.push(id.to_owned());
    assert(texts(args@) =~= seq!["host"@, id@]);
    Next::Host { args }
}

/// What follows from the account: `node` is what stands at `status` in what the program
/// says of it.
pub fn after_account(id: &str, node: &Json) -> (r: Next)
    ensures
        r@ == after_account_view(id@, node@),
{
    match node {
        Json::Invalid => Next::Fail { reason: "invalid Dev Tunnel login response".to_owned() },
        Json::Text(s) => if same(s.as_str(), "Logged in") {
            run_show(Step::Show, id)
        } else {
            Next::Fail {
                reason:
                    "login required; run devtunnel user login under the SSH server account".to_owned(),
            }
        },
        _ => Next::Fail {
            reason:
                "login required; run devtunnel user login under the SSH server account".to_owned(),
        },
    }
}

/// What follows from the details of the tunnel. `again` says whether its port has been
/// created.
pub fn after_details(
    id: &str,
    wanted: &Vec<String>,
    auto_create: bool,
    port: u16,
    again: bool,
    d: &TunnelDetails,
) -> (r: Next)
    ensures
        r@ == after_details_view(id@, texts(wanted@), auto_create, port, again, d@),
{
    let number = decimal(port as u64);
    if has_port(d, port) {
        let missing = labels_to_add(wanted, &d.labels);
        assert(texts(missing@).len() == missing@.len());
        if missing.len() == 0 {
            return run_host(id);
        }
        let mut args: Vec<String> = Vec::new();
        args.push("update".to_owned());
        args.push(id.to_owned());
        args.push("--add-labels".to_owned());
        assert(texts(args@) =~= seq!["update"@, id@, "--add-labels"@]);
        append_texts(&mut args, missing);
        return Next::Run { step: Step::Label, args };
    }
    if again {
        let mut reason = "tunnel port ".to_owned();
        reason.append(number.as_str());
        reason.append(" is missing or has an incompatible protocol");
        return Next::Fail { reason };
    }
    if has_port_number(d, port) {
        let mut reason = "tunnel port ".to_owned();
        reason.append(number.as_str());
        reason.append(" has an incompatible protocol; update it explicitly with devtunnel");
        return Next::Fail { reason };
    }
    if !auto_create {
        let mut reason = "tunnel ".to_owned();
        reason.append(id);
        reason.append(" lacks port ");
        reason.append(number.as_str());
        reason.append(" with protocol auto; DevTunnelAutoCreate is disabled");
        return Next::Fail { reason };
    }
    let mut args: Vec<String> = Vec::new();
    args.push("port".to_owned());
    args.push("create".to_owned());
    args.push(id.to_owned());
    args.push("-p".to_owned());
    args.push(number);
    args.push("--protocol".to_owned());
    args.push("auto".to_owned());
    args.push("--json".to_owned());
    assert(texts(args@) =~= seq![
        "port"@,
        "create"@,
        id@,
        "-p"@,
        number@,
        "--protocol"@,
        "auto"@,
        "--json"@,
    ]);
    Next::Run { step: Step::PortCreate, args }
}

fn after_shown(id: &str, c: &DevTunnelConfig, port: u16, again: bool, output: &Output) -> (r: Next)
    ensures
        r@ == after_shown_view(id@, c@, port, again, output@),
{
    if !output.success {
        return Next::Fail { reason: failure(output) };
    }
    match read_details(output.stdout.as_str()) {
        None => if again {
            Next::Fail { reason: "invalid Dev Tunnel port details".to_owned() }
        } else {
            Next::Fail { reason: "invalid Dev Tunnel details".to_owned() }
        },
        Some(d) => after_details(id, &c.labels, c.auto_create, port, again, &d),
    }
}

/// What the setup of the tunnel does after the command `step` gave `output`.
pub fn attempt(c: &DevTunnelConfig, port: u16, step: Step, output: &Output) -> (r: Next)
    requires
        c.id is Some,
    ensures
        r@ == after_output(c@, port, step, output@),
{
    let id = match &c.id {
        Some(id) => id.as_str(),
        None => "",
    };
    match step {
        Step::User => if !output.success {
            Next::Fail { reason: failure(output) }
        } else {
            after_account(id, &look_up(output.stdout.as_str(), "/status"))
        },
        Step::Show => if !output.success && not_found(output) && c.auto_create {
            let mut args: Vec<String> = Vec::new();
            args.push("create".to_owned());
            args.push(id.to_owned());
            args.push("--json".to_owned());
            assert(texts(args@) =~= seq!["create"@, id@, "--json"@]);
            Next::Run { step: Step::Create, args }
        } else {
            after_shown(id, c, port, false, output)
        },
        Step::Create => run_show(Step::Reshow, id),
        Step::Reshow => after_shown(id, c, port, false, output),
        Step::PortCreate => run_show(Step::PortShow, id),
        Step::PortShow => after_shown(id, c, port, true, output),
        Step::Label => if !output.success {
            Next::Fail { reason: failure(output) }
        } else {
            run_host(id)
        },
    }
}

/// Nothing is created unasked: a command that creates a tunnel or a port runs only where
/// that was allowed, and a tunnel is created only where the program says that there is
/// none.
pub proof fn nothing_is_created_unasked(c: DevTunnelView, port: u16, step: Step, o: OutputView)
    ensures
        after_output(c, port, step, o) matches NextView::Run { step: next, args } ==> {
            &&& next == Step::Create ==> c.auto_create && step == Step::Show && missing_tunnel(o)
            &&& next == Step::PortCreate ==> c.auto_create
        },
{
}

/// A tunnel is hosted only once it has the port with the protocol `auto`, and either every
/// label that is wanted or a command that added those that it lacked. That command runs only
/// once the tunnel has the port.
pub proof fn hosted_tunnels_are_set_up(c: DevTunnelView, port: u16, step: Step, o: OutputView)
    ensures
        after_output(c, port, step, o) is Host ==> o.success,
        after_output(c, port, step, o) is Host && step != Step::Label ==> ({
            &&& details(o.stdout) is Some
            &&& port_ready(details(o.stdout)->0, port)
            &&& missing_labels(c.labels, details(o.stdout)->0.labels).len() == 0
        }),
        after_output(c, port, step, o) matches NextView::Run { step: Step::Label, args } ==> ({
            &&& o.success
            &&& details(o.stdout) is Some
            &&& port_ready(details(o.stdout)->0, port)
            &&& args == seq!["update"@, c.id->0, "--add-labels"@] + missing_labels(
                c.labels,
                details(o.stdout)->0.labels,
            )
        }),
{
}

/// The most that is kept of one output of a command, in bytes.
pub const LONGEST_OUTPUT: usize = 1_048_576;

/// Gathers what a command writes.
#[derive(Debug)]
pub struct Collector {
    pub stdout: String,
    pub stderr: String,
}

/// `before` with a line put behind it.
pub open spec fn with_line(before: Seq<char>, line: Seq<char>) -> Seq<char> {
    before + line + seq!['\n']
}

/// Whether a line still fits behind `before`.
pub open spec fn line_fits(before: Seq<char>, line: Seq<char>) -> bool {
    encode_utf8(before).len() + encode_utf8(line).len() <= LONGEST_OUTPUT
}

impl Collector {
    /// A collector of a command that has written nothing.
    pub fn new() -> (r: Self)
        ensures
            r.stdout@ == Seq::<char>::empty(),
            r.stderr@ == Seq::<char>::empty(),
    {
        let r = Collector { stdout: String::new(), stderr: String::new() };
        assert(r.stdout@ =~= Seq::<char>::empty());
        assert(r.stderr@ =~= Seq::<char>::empty());
        r
    }

    /// Takes a line of `stdout` or of another stream.
    pub fn push(&mut self, stream: &str, line: &str) -> (r: Result<(), String>)
        ensures
            r is Ok <==> line_fits(
                if stream@ == "stdout"@ {
                    old(self).stdout@
                } else {
                    old(self).stderr@
                },
                line@,
            ),
            r is Ok && stream@ == "stdout"@ ==> final(self).stdout@ == with_line(
                old(self).stdout@,
                line@,
            ) && final(self).stderr == old(self).stderr,
            r is Ok && stream@ != "stdout"@ ==> final(self).stderr@ == with_line(
                old(self).stderr@,
                line@,
            ) && final(self).stdout == old(self).stdout,
            r is Err ==> *final(self) == *old(self),
            r matches Err(m) ==> m@ == "Dev Tunnel command output exceeds limit"@,
    {
        let on_stdout = same(stream, "stdout");
        let have: usize = if on_stdout {
            self.stdout.as_str().as_bytes().len()
        } else {
            self.stderr.as_str().as_bytes().len()
        };
        let more: usize = line.as_bytes().len();
        if have > LONGEST_OUTPUT || more > LONGEST_OUTPUT - have {
            return Err("Dev Tunnel command output exceeds limit".to_owned());
        }
        if on_stdout {
            self.stdout.append(line);
            self.stdout.push('\n');
            assert(self.stdout@ =~= with_line(old(self).stdout@, line@));
        } else {
            self.stderr.append(line);
            self.stderr.push('\n');
            assert(self.stderr@ =~= with_line(old(self).stderr@, line@));
        }
        Ok(())
    }

    /// What the command wrote and how it ended.
    pub fn finish(self, success: bool, code: Option<i32>) -> (r: Output)
        ensures
            r@ == (OutputView { success, code, stdout: self.stdout@, stderr: self.stderr@ }),
    {
        Output { success, code, stdout: self.stdout, stderr: self.stderr }
    }
}

/// Whether a line of a command is logged: what a command answers in JSON is not.
pub fn logs_line(json_output: bool, stream: &str) -> (r: bool)
    ensures
        r == (!json_output || stream@ != "stdout"@),
{
    !json_output || !same(stream, "stdout")
}

/// What is logged of a command that failed, where the setup goes on all the same.
pub fn tolerated_failure(step: Step, success: bool) -> (r: Option<&'static str>)
    ensures
        r is Some <==> !success && (step == Step::Create || step == Step::PortCreate),
        r is Some && step == Step::Create ==> r->0@
            == "creation failed; checking for a concurrent creator"@,
        r is Some && step == Step::PortCreate ==> r->0@
            == "port creation failed; checking current configuration"@,
{
    if success {
        return None;
    }
    match step {
        Step::Create => Some("creation failed; checking for a concurrent creator"),
        Step::PortCreate => Some("port creation failed; checking current configuration"),
        _ => None,
    }
}

/// What is known of a host process that was started.
#[derive(Debug)]
pub enum Readiness {
    /// Not ready yet.
    Pending,
    /// It accepts connections.
    Ready,
    /// It will not.
    Failed(String),
}

/// Whether a line of the host process says that it accepts connections.
pub open spec fn ready_line(line: Seq<char>) -> bool {
    holds(line, "Ready to accept connections for tunnel:"@)
}

/// What an event of the host process says of its readiness. `None` stands for the end
/// of its events.
pub fn host_readiness(event: &Option<ProcessEvent>) -> (r: Readiness)
    ensures
        r is Ready <==> (*event matches Some(ProcessEvent::Line { line, .. }) && ready_line(line@)),
        r is Pending <==> (*event matches Some(ProcessEvent::Line { line, .. }) && !ready_line(
            line@,
        )),
        *event matches Some(ProcessEvent::Exited { code, .. }) ==> (r matches Readiness::Failed(
            m,
        ) && m@ == "Dev Tunnel host exited before readiness with code "@ + code_text(code)),
        *event is None ==> (r matches Readiness::Failed(m) && m@
            == "Dev Tunnel host ended before readiness"@),
{
    match event {
        Some(ProcessEvent::Line { line, .. }) => if contains(
            line.as_str(),
            "Ready to accept connections for tunnel:",
        ) {
            Readiness::Ready
        } else {
            Readiness::Pending
        },
        Some(ProcessEvent::Exited { code, .. }) => {
            let mut m = "Dev Tunnel host exited before readiness with code ".to_owned();
            m.append(describe_code(*code).as_str());
            Readiness::Failed(m)
        },
        None => Readiness::Failed("Dev Tunnel host ended before readiness".to_owned()),
    }
}

/// Whether a setup that failed with this reason is not worth an early attempt.
pub open spec fn permanent(reason: Seq<char>) -> bool {
    ||| holds(reason, "login required"@)
    ||| holds(reason, "DevTunnelAutoCreate"@)
    ||| holds(reason, "Tunnel not found"@)
    ||| holds(reason, "No such file"@)
    ||| holds(reason, "not found"@)
    ||| holds(reason, "incompatible protocol"@)
}

/// Whether a setup that failed with this reason is not worth an early attempt.
pub fn is_permanent(reason: &str) -> (r: bool)
    ensures
        r == permanent(reason@),
{
    contains(reason, "login required") || contains(reason, "DevTunnelAutoCreate") || contains(
        reason,
        "Tunnel not found",
    ) || contains(reason, "No such file") || contains(reason, "not found") || contains(
        reason,
        "incompatible protocol",
    )
}

/// The pause after a permanent failure of the setup, in milliseconds.
pub const PERMANENT_PAUSE: u64 = 60_000;

/// What a server says of the tunnel that it hosts.
#[derive(Clone, Copy, Debug, PartialEq, Eq, Structural)]
pub enum HostState {
    Skipped,
    Starting,
    Connected,
    Retrying,
    Stopped,
}

/// The name of a state.
pub open spec fn state_name(s: HostState) -> Seq<char> {
    match s {
        HostState::Skipped => "skipped"@,
        HostState::Starting => "starting"@,
        HostState::Connected => "connected"@,
        HostState::Retrying => "retrying"@,
        HostState::Stopped => "stopped"@,
    }
}

impl HostState {
    /// The name of the state.
    pub fn name(&self) -> (r: &'static str)
        ensures
            r@ == state_name(*self),
    {
        match self {
            HostState::Skipped => "skipped",
            HostState::Starting => "starting",
            HostState::Connected => "connected",
            HostState::Retrying => "retrying",
            HostState::Stopped => "stopped",
        }
    }
}

/// Why a tunnel cannot be hosted, with these settings and a server at this address.
pub open spec fn start_fault(c: DevTunnelView, addr: SocketAddr) -> Option<Seq<char>> {
    if c.id is None || !tunnel_id(c.id->0) {
        Some("DevTunnelId must contain an explicit valid tunnel ID"@)
    } else if !addr.ip.loopback() && !addr.ip.unspecified() {
        Some("SSH listener must accept loopback connections"@)
    } else if c.timeout_secs == 0 {
        Some("DevTunnelTimeout must be greater than zero"@)
    } else {
        None
    }
}

/// Whether a tunnel is to be hosted.
#[derive(Debug)]
pub enum Start {
    /// Hosting is off.
    Disabled,
    /// It cannot be hosted, for this reason. The tunnel is named where its name is
    /// valid.
    Skip { named: bool, reason: String },
    /// It can be hosted by the process that holds this lock.
    Host { lock: String },
}

/// Whether a tunnel is to be hosted, with these settings and a server at this address.
pub fn start(c: &DevTunnelConfig, addr: &SocketAddr) -> (r: Start)
    ensures
        r is Disabled <==> !c.enabled,
        r is Skip <==> c.enabled && start_fault(c@, *addr) is Some,
        r matches Start::Skip { named, reason } ==> start_fault(c@, *addr) == Some(reason@)
            && named == (c.id is Some && tunnel_id(c.id->0@)),
        r matches Start::Host { lock } ==> c.id is Some && lock@ == "devtunnel-host-"@ + c.id->0@
            + ".lock"@,
{
    if !c.enabled {
        return Start::Disabled;
    }
    let id = match &c.id {
        Some(id) => id.as_str(),
        None => return Start::Skip {
            named: false,
            reason: "DevTunnelId must contain an explicit valid tunnel ID".to_owned(),
        },
    };
    if !valid_tunnel_id(id) {
        return Start::Skip {
            named: false,
            reason: "DevTunnelId must contain an explicit valid tunnel ID".to_owned(),
        };
    }
    if !addr.ip.is_loopback() && !addr.ip.is_unspecified() {
        return Start::Skip {
            named: true,
            reason: "SSH listener must accept loopback connections".to_owned(),
        };
    }
    if c.timeout_secs == 0 {
        return Start::Skip {
            named: true,
            reason: "DevTunnelTimeout must be greater than zero".to_owned(),
        };
    }
    let mut lock = "devtunnel-host-".to_owned();
    lock.append(id);
    lock.append(".lock");
    Start::Host { lock }
}

/// What the lock of a tunnel says against hosting it: `locked` is whether the lock could
/// be taken, or why it could not be opened.
pub fn lock_fault(locked: Result<bool, String>) -> (r: Option<String>)
    ensures
        locked == Ok::<bool, String>(true) ==> r is None,
        locked == Ok::<bool, String>(false) ==> (r matches Some(m) && m@
            == "another sshdt process already hosts this tunnel"@),
        locked matches Err(e) ==> (r matches Some(m) && m@ == e@),
{
    match locked {
        Ok(true) => None,
        Ok(false) => Some("another sshdt process already hosts this tunnel".to_owned()),
        Err(e) => Some(e),
    }
}

/// Where the hosting of a tunnel stands.
#[derive(Clone, Copy, Debug, PartialEq, Eq, Structural)]
pub enum Phase {
    /// An attempt at the setup is under way.
    Setup,
    /// The host process runs.
    Hosting,
    /// The next attempt is waited for. `early` says whether a change of the network may
    /// bring it forward.
    Pausing { deadline: u64, early: bool },
    /// Hosting is over.
    Stopped,
}

/// The hosting of a tunnel.
#[derive(Clone, Copy, Debug, PartialEq, Eq, Structural)]
pub struct Host {
    pub phase: Phase,
    pub retry: Retry,
    pub network: NetworkChanges,
}

/// What happens while a tunnel is hosted.
#[derive(Debug)]
pub enum HostEvent {
    /// The setup failed for this reason.
    SetupFailed(String),
    /// The host process accepts connections.
    Ready,
    /// The host process ended.
    Exited(Option<i32>),
    /// The host process is gone, and nothing is known of its end.
    Gone,
    /// The server stops.
    Cancelled,
    /// Time has passed or the network changed.
    Wait(WaitEvent),
}

/// What to do next.
#[derive(Clone, Copy, Debug, PartialEq, Eq, Structural)]
pub enum HostAction {
    /// Begin an attempt at the setup.
    Attempt,
    /// Wait for what happens.
    Watch,
    /// Wait for what happens, up to this time.
    Sleep(u64),
    /// End the host process, and wait up to this time.
    CloseAndSleep(u64),
    /// Hosting is over.
    Finish,
    /// End the host process; then hosting is over.
    CloseAndFinish,
}

/// A state to report, and the reason for it.
pub type ReportView = Option<(HostState, Seq<char>)>;

/// A pause after a failure at the time `now`, and the delays after it.
pub open spec fn paused(h: Host, now: u64, keeps: bool) -> Host {
    let delay = if keeps {
        PERMANENT_PAUSE
    } else {
        delay_at(h.retry, now)
    };
    Host {
        phase: Phase::Pausing { deadline: later(now, delay), early: !keeps },
        retry: after_failed(h.retry, now),
        ..h
    }
}

/// When a pause has to be looked at again.
pub open spec fn pause_end(h: Host) -> u64 {
    match h.phase {
        Phase::Pausing { deadline, early } => if early {
            wake_at(h.network, deadline)
        } else {
            deadline
        },
        _ => 0,
    }
}

/// `h` at the start of an attempt. Changes of the network from here on count.
pub open spec fn attempting(h: Host) -> Host {
    Host {
        phase: Phase::Setup,
        network: NetworkChanges { pending: None, ..h.network },
        ..h
    }
}

/// The report at the start of an attempt.
pub open spec fn starting() -> ReportView {
    Some((HostState::Starting, "checking tunnel configuration"@))
}

/// What an event in a pause leads to.
pub open spec fn pause_step(
    h: Host,
    deadline: u64,
    early: bool,
    now: u64,
    event: WaitEvent,
) -> (Host, ReportView, HostAction) {
    let (network, step) = wait_step(h.network, deadline, now, event);
    let kept = noted(h.network, event);
    if !early {
        if now >= deadline {
            (attempting(Host { network: kept, ..h }), starting(), HostAction::Attempt)
        } else {
            (Host { network: kept, ..h }, None, HostAction::Sleep(deadline))
        }
    } else {
        match step {
            WaitStep::Sleep(t) => (Host { network, ..h }, None, HostAction::Sleep(t)),
            _ => (attempting(Host { network, ..h }), starting(), HostAction::Attempt),
        }
    }
}

/// What an event at the time `now` leads to.
pub open spec fn host_step(h: Host, event: HostEvent, now: u64) -> (Host, ReportView, HostAction) {
    match (h.phase, event) {
        (Phase::Stopped, _) => (h, None, HostAction::Finish),
        (Phase::Hosting, HostEvent::Cancelled) => (
            Host { phase: Phase::Stopped, ..h },
            Some((HostState::Stopped, "SSH server stopped"@)),
            HostAction::CloseAndFinish,
        ),
        (_, HostEvent::Cancelled) => (
            Host { phase: Phase::Stopped, ..h },
            Some((HostState::Stopped, "SSH server stopped"@)),
            HostAction::Finish,
        ),
        (Phase::Setup, HostEvent::SetupFailed(reason)) => {
            let next = paused(h, now, permanent(reason@));
            let state = if permanent(reason@) {
                HostState::Skipped
            } else {
                HostState::Retrying
            };
            (next, Some((state, reason@)), HostAction::Sleep(pause_end(next)))
        },
        (Phase::Setup, HostEvent::Ready) => (
            Host { phase: Phase::Hosting, retry: after_ready(h.retry, now), ..h },
            Some((HostState::Connected, "tunnel ready"@)),
            HostAction::Watch,
        ),
        (Phase::Hosting, HostEvent::Exited(code)) => {
            let quiet = Host { network: NetworkChanges { pending: None, ..h.network }, ..h };
            let next = paused(quiet, now, false);
            (
                next,
                Some(
                    (HostState::Retrying, "host process exited with code "@ + code_text(code)),
                ),
                HostAction::CloseAndSleep(pause_end(next)),
            )
        },
        (Phase::Hosting, HostEvent::Gone) => {
            let quiet = Host { network: NetworkChanges { pending: None, ..h.network }, ..h };
            let next = paused(quiet, now, false);
            (next, None, HostAction::CloseAndSleep(pause_end(next)))
        },
        (Phase::Pausing { deadline, early }, HostEvent::Wait(e)) => pause_step(
            h,
            deadline,
            early,
            now,
            e,
        ),
        (Phase::Pausing { deadline, early }, _) => (h, None, HostAction::Sleep(pause_end(h))),
        (_, HostEvent::Wait(e)) => (
            Host { network: noted(h.network, e), ..h },
            None,
            HostAction::Watch,
        ),
        (_, _) => (h, None, HostAction::Watch),
    }
}

/// A state to report, and the reason for it.
#[derive(Debug)]
pub struct Report {
    pub state: HostState,
    pub reason: String,
}

/// What a report says.
pub open spec fn report_view(r: Option<Report>) -> ReportView {
    match r {
        Some(x) => Some((x.state, x.reason@)),
        None => None,
    }
}

fn report(state: HostState, reason: &str) -> (r: Option<Report>)
    ensures
        report_view(r) == Some((state, reason@)),
{
    Some(Report { state, reason: reason.to_owned() })
}

impl Host {
    /// The hosting of a tunnel at the time `now`, with its first attempt. `watching`
    /// says whether changes of the network will be reported.
    pub fn new(now: u64, watching: bool) -> (r: (Host, Option<Report>, HostAction))
        ensures
            r.0.phase == Phase::Setup,
            r.0.retry == fresh(),
            r.0.network == (NetworkChanges { watching, pending: None, next_allowed: now }),
            report_view(r.1) == starting(),
            r.2 == HostAction::Attempt,
    {
        (
            Host {
                phase: Phase::Setup,
                retry: Retry::default(),
                network: NetworkChanges::new(now, watching),
            },
            report(HostState::Starting, "checking tunnel configuration"),
            HostAction::Attempt,
        )
    }

    fn pause(&mut self, now: u64, keeps: bool) -> (r: u64)
        ensures
            *final(self) == paused(*old(self), now, keeps),
            r == pause_end(*final(self)),
    {
        let delay: u64 = self.retry.failed(now);
        let deadline: u64 = later_by(now, if keeps {
            PERMANENT_PAUSE
        } else {
            delay
        });
        self.phase = Phase::Pausing { deadline, early: !keeps };
        if keeps {
            deadline
        } else {
            self.network.wake_time(deadline)
        }
    }

    fn in_pause(&mut self, deadline: u64, early: bool, now: u64, event: WaitEvent) -> (r: (
        Option<Report>,
        HostAction,
    ))
        ensures
            (*final(self), report_view(r.0), r.1) == pause_step(
                *old(self),
                deadline,
                early,
                now,
                event,
            ),
    {
        if early {
            match self.network.wait_until(deadline, now, event) {
                WaitStep::Sleep(t) => return (None, HostAction::Sleep(t)),
                _ => {},
            }
        } else {
            self.network.note(event);
            if now < deadline {
                return (None, HostAction::Sleep(deadline));
            }
        }
        self.phase = Phase::Setup;
        self.network.begin_wait();
        (
            report(HostState::Starting, "checking tunnel configuration"),
            HostAction::Attempt,
        )
    }

    /// Takes an event at the time `now`: what to report and what to do next.
    pub fn step(&mut self, event: HostEvent, now: u64) -> (r: (Option<Report>, HostAction))
        ensures
            (*final(self), report_view(r.0), r.1) == host_step(*old(self), event, now),
    {
        match self.phase {
            Phase::Stopped => (None, HostAction::Finish),
            Phase::Setup => match event {
                HostEvent::Cancelled => {
                    self.phase = Phase::Stopped;
                    (report(HostState::Stopped, "SSH server stopped"), HostAction::Finish)
                },
                HostEvent::SetupFailed(reason) => {
                    let keeps = is_permanent(reason.as_str());
                    let until: u64 = self.pause(now, keeps);
                    let state = if keeps {
                        HostState::Skipped
                    } else {
                        HostState::Retrying
                    };
                    (Some(Report { state, reason }), HostAction::Sleep(until))
                },
                HostEvent::Ready => {
                    self.phase = Phase::Hosting;
                    self.retry.ready(now);
                    (report(HostState::Connected, "tunnel ready"), HostAction::Watch)
                },
                HostEvent::Wait(e) => {
                    self.network.note(e);
                    (None, HostAction::Watch)
                },
                _ => (None, HostAction::Watch),
            },
            Phase::Hosting => match event {
                HostEvent::Cancelled => {
                    self.phase = Phase::Stopped;
                    (report(HostState::Stopped, "SSH server stopped"), HostAction::CloseAndFinish)
                },
                HostEvent::Exited(code) => {
                    self.network.begin_wait();
                    let until: u64 = self.pause(now, false);
                    let mut reason = "host process exited with code ".to_owned();
                    reason.append(describe_code(code).as_str());
                    (
                        Some(Report { state: HostState::Retrying, reason }),
                        HostAction::CloseAndSleep(until),
                    )
                },
                HostEvent::Gone => {
                    self.network.begin_wait();
                    let until: u64 = self.pause(now, false);
                    (None, HostAction::CloseAndSleep(until))
                },
                HostEvent::Wait(e) => {
                    self.network.note(e);
                    (None, HostAction::Watch)
                },
                _ => (None, HostAction::Watch),
            },
            Phase::Pausing { deadline, early } => match event {
                HostEvent::Cancelled => {
                    self.phase = Phase::Stopped;
                    (report(HostState::Stopped, "SSH server stopped"), HostAction::Finish)
                },
                HostEvent::Wait(e) => self.in_pause(deadline, early, now, e),
                _ => {
                    let until: u64 = if early {
                        self.network.wake_time(deadline)
                    } else {
                        deadline
                    };
                    (None, HostAction::Sleep(until))
                },
            },
        }
    }
}

/// When the server stops, hosting is over at once, whatever it was doing, and a host
/// process that runs is ended.
pub proof fn stopping_ends_hosting(h: Host, now: u64)
    ensures
        host_step(h, HostEvent::Cancelled, now).0.phase == Phase::Stopped,
        host_step(h, HostEvent::Cancelled, now).2 == HostAction::CloseAndFinish <==> h.phase
            == Phase::Hosting,
        host_step(h, HostEvent::Cancelled, now).2 == HostAction::Finish <==> h.phase
            != Phase::Hosting,
{
}

/// No event brings a stopped host back.
pub proof fn stopped_stays_stopped(h: Host, event: HostEvent, now: u64)
    requires
        h.phase == Phase::Stopped,
    ensures
        host_step(h, event, now).0 == h,
        host_step(h, event, now).2 == HostAction::Finish,
{
}

/// A permanent failure keeps its delay: until the pause is over, nothing but the end of
/// the server ends it.
pub proof fn permanent_failures_keep_their_delay(h: Host, reason: String, event: HostEvent, now: u64, later_now: u64)
    requires
        h.phase == Phase::Setup,
        permanent(reason@),
        now + PERMANENT_PAUSE <= u64::MAX,
        later_now < now + PERMANENT_PAUSE,
        !(event is Cancelled),
    ensures
        host_step(h, HostEvent::SetupFailed(reason), now).2 == HostAction::Sleep(
            (now + PERMANENT_PAUSE) as u64,
        ),
        ({
            let h1 = host_step(h, HostEvent::SetupFailed(reason), now).0;
            host_step(h1, event, later_now).0.phase == h1.phase && host_step(
                h1,
                event,
                later_now,
            ).2 == HostAction::Sleep((now + PERMANENT_PAUSE) as u64)
        }),
{
}

/// Readiness is the only way into hosting, and a change of the network never ends it.
pub proof fn hosting_begins_with_readiness(h: Host, event: HostEvent, now: u64)
    ensures
        h.phase != Phase::Hosting && host_step(h, event, now).0.phase == Phase::Hosting
            ==> event is Ready && h.phase == Phase::Setup,
        h.phase == Phase::Hosting && event is Wait ==> host_step(h, event, now).0.phase
            == Phase::Hosting && host_step(h, event, now).2 == HostAction::Watch,
{
}

/// The delays of the host are those of the schedule: an event changes them only as a
/// failure or as readiness does.
pub proof fn host_follows_the_schedule(h: Host, event: HostEvent, now: u64)
    ensures
        ({
            let next = host_step(h, event, now).0;
            ||| next.retry == h.retry
            ||| next.retry == after_ready(h.retry, now) && next.phase == Phase::Hosting
            ||| next.retry == after_failed(h.retry, now) && next.phase is Pausing
        }),
        ({
            let next = host_step(h, event, now).0;
            !(h.phase is Pausing) && next.phase is Pausing && next.phase->early ==> next.phase->deadline
                == later(now, delay_at(h.retry, now))
        }),
{
}

/// The file of a server that says how its tunnel is.
pub open spec fn status_file(pid: u32) -> Seq<char> {
    "devtunnel-host-"@ + digits(pid as nat) + ".json"@
}

/// The lock that a server holds as long as its file says how its tunnel is.
pub open spec fn instance_lock(pid: u64) -> Seq<char> {
    "devtunnel-instance-"@ + digits(pid as nat) + ".lock"@
}

/// The lock of the server with this process number.
pub fn instance_lock_name(pid: u64) -> (r: String)
    ensures
        r@ == instance_lock(pid),
{
    let mut r = "devtunnel-instance-".to_owned();
    r.append(decimal(pid).as_str());
    r.append(".lock");
    r
}

/// What a server writes of its tunnel.
#[derive(Debug)]
pub struct StatusRecord {
    /// The name of the file.
    pub file: String,
    /// What the file holds.
    pub json: String,
    /// The reason as it is logged.
    pub reason: String,
}

/// What the server with the number `pid` writes of its tunnel.
pub fn status(pid: u32, id: Option<&str>, state: HostState, reason: &str) -> (r: StatusRecord)
    ensures
        r.file@ == status_file(pid),
        r.reason@ == sanitized(reason@),
        r.json@ == object_text(
            ("pid"@, pid as u64),
            ("id"@, str_text(id)),
            ("state"@, state_name(state)),
            ("reason"@, sanitized(reason@)),
        ),
        json_at(r.json@, "/pid"@) == JsonView::Number(Some(pid as u64)),
        json_at(r.json@, "/id"@) == (match id {
            Some(s) => JsonView::Text(s@),
            None => JsonView::Null,
        }),
        json_at(r.json@, "/state"@) == JsonView::Text(state_name(state)),
        json_at(r.json@, "/reason"@) == JsonView::Text(sanitized(reason@)),
{
    let mut file = "devtunnel-host-".to_owned();
    file.append(decimal(pid as u64).as_str());
    file.append(".json");
    let reason = sanitize(reason);
    proof {
        reveal_strlit("pid");
        reveal_strlit("id");
        reveal_strlit("state");
        reveal_strlit("reason");
        reveal_strlit("/pid");
        reveal_strlit("/id");
        reveal_strlit("/state");
        reveal_strlit("/reason");
        assert("pid"@.len() == 3 && "id"@.len() == 2 && "state"@.len() == 5 && "reason"@.len()
            == 6);
        assert(field("pid"@) =~= "/pid"@);
        assert(field("id"@) =~= "/id"@);
        assert(field("state"@) =~= "/state"@);
        assert(field("reason"@) =~= "/reason"@);
    }
    let json = write_object(
        ("pid", pid as u64),
        ("id", id),
        ("state", state.name()),
        ("reason", reason.as_str()),
    );
    StatusRecord { file, json, reason }
}

/// Whether a file is one that says how a tunnel is.
pub fn is_status_file(name: &str) -> (r: bool)
    ensures
        r == (begins(name@, "devtunnel-host-"@) && ends(name@, ".json"@)),
{
    starts_with(name, "devtunnel-host-") && ends_with(name, ".json")
}

/// The process number of the server that wrote a status.
pub fn status_pid(json: &str) -> (r: Option<u64>)
    ensures
        r == number_of(json_at(json@, "/pid"@)),
{
    read_number(json, "/pid")
}

/// The text at a place, or another where there is none.
pub open spec fn text_or(j: JsonView, other: Seq<char>) -> Seq<char> {
    match text_of(j) {
        Some(s) => s,
        None => other,
    }
}

/// The line that says how a tunnel is.
pub open spec fn status_text(id: JsonView, state: JsonView, reason: JsonView) -> Seq<char> {
    "Dev Tunnel "@ + text_or(id, "not configured"@) + ": "@ + text_or(state, "unknown"@) + " ("@
        + text_or(reason, ""@) + ")"@
}

fn read_or(json: &str, pointer: &str, other: &str) -> (r: String)
    ensures
        r@ == text_or(json_at(json@, pointer@), other@),
{
    match read_text(json, pointer) {
        Some(s) => s,
        None => other.to_owned(),
    }
}

/// The line that says how a tunnel is, from what its server wrote.
pub fn status_line(json: &str) -> (r: String)
    ensures
        r@ == status_text(
            json_at(json@, "/id"@),
            json_at(json@, "/state"@),
            json_at(json@, "/reason"@),
        ),
{
    let mut r = "Dev Tunnel ".to_owned();
    r.append(read_or(json, "/id", "not configured").as_str());
    r.append(": ");
    r.append(read_or(json, "/state", "unknown").as_str());
    r.append(" (");
    r.append(read_or(json, "/reason", "").as_str());
    r.append(")");
    r
}

/// The text of an exit code is the code with its sign.
pub proof fn how_exit_codes_are_written(code: i32)
    ensures
        code >= 0 ==> code_text(Some(code)) == "Some("@ + digits(code as nat) + ")"@,
        code < 0 ==> code_text(Some(code)) == "Some("@ + (seq!['-'] + digits((-code) as nat))
            + ")"@,
        code_text(None) == "None"@,
{
}

/// A tunnel is missing exactly where the program says so, in any mix of capitals and small
/// letters and on either stream, and ends with 2.
pub proof fn which_tunnels_are_missing(o: OutputView)
    ensures
        missing_tunnel(o) <==> o.code == Some(2i32) && holds(
            lowered(o.stdout + o.stderr),
            "tunnel not found"@,
        ),
{
}

proof fn word_is_held(a: Seq<char>, p: Seq<char>, b: Seq<char>)
    ensures
        holds(a + p + b, p),
{
    let s = a + p + b;
    let i = a.len() as int;
    assert(s.subrange(i, i + p.len()) =~= p);
    assert(stands_at(s, p, i));
}

/// A command that failed over the login asks for one, whatever else it says, and what any other
/// command wrote is told without secrets.
pub proof fn what_is_said_of_failures(o: OutputView, a: Seq<char>, b: Seq<char>)
    ensures
        lowered(o.stderr + " "@ + o.stdout) == a + "login"@ + b || lowered(
            o.stderr + " "@ + o.stdout,
        ) == a + "not logged"@ + b || lowered(o.stderr + " "@ + o.stdout) == a + "unauthorized"@ + b
            || lowered(o.stderr + " "@ + o.stdout) == a + "authentication"@ + b ==> failure_text(o)
            == "login required; run devtunnel user login under the SSH server account"@,
        !holds(lowered(o.stderr + " "@ + o.stdout), "login"@) && !holds(
            lowered(o.stderr + " "@ + o.stdout),
            "not logged"@,
        ) && !holds(lowered(o.stderr + " "@ + o.stdout), "unauthorized"@) && !holds(
            lowered(o.stderr + " "@ + o.stdout),
            "authentication"@,
        ) ==> failure_text(o) == "Dev Tunnel CLI failed with code "@ + code_text(o.code) + ": "@
            + sanitized(o.stderr + " "@ + o.stdout),
{
    word_is_held(a, "login"@, b);
    word_is_held(a, "not logged"@, b);
    word_is_held(a, "unauthorized"@, b);
    word_is_held(a, "authentication"@, b);
}

proof fn labels_grow(text: Seq<char>, n: int)
    requires
        0 <= n,
    ensures
        forall|i: int|
            0 <= i < n ==> (#[trigger] label_at(text, i) matches Some(s) ==> labels_up_to(
                text,
                n,
            ).contains(s)),
        forall|k: int|
            0 <= k < labels_up_to(text, n).len() ==> exists|i: int|
                0 <= i < n && #[trigger] label_at(text, i) == Some(
                    #[trigger] labels_up_to(text, n)[k],
                ),
    decreases n,
{
    if n > 0 {
        labels_grow(text, n - 1);
        let before = labels_up_to(text, n - 1);
        let all = labels_up_to(text, n);
        assert forall|i: int| 0 <= i < n implies (#[trigger] label_at(text, i) matches Some(s)
            ==> all.contains(s)) by {
            if let Some(s) = label_at(text, i) {
                if i < n - 1 {
                    let k = choose|k: int| 0 <= k < before.len() && before[k] == s;
                    assert(all[k] == s);
                } else {
                    assert(all[before.len() as int] == s);
                }
            }
        }
        assert forall|k: int| 0 <= k < all.len() implies exists|i: int|
            0 <= i < n && #[trigger] label_at(text, i) == Some(#[trigger] all[k]) by {
            if k < before.len() {
                assert(all[k] == before[k]);
                let i = choose|i: int|
                    0 <= i < n - 1 && #[trigger] label_at(text, i) == Some(before[k]);
                assert(label_at(text, i) == Some(all[k]));
            } else {
                assert(label_at(text, n - 1) == Some(all[k]));
            }
        }
    }
}

/// What the program says of a tunnel is read under `tunnel`, or at the top where there is no such
/// field: every port with its number and its protocol, and every label that is a text.
pub proof fn what_details_hold(text: Seq<char>, place: Seq<char>, n: usize, m: usize, i: int)
    requires
        place == (if json_at(text, "/tunnel"@) is Missing {
            ""@
        } else {
            "/tunnel"@
        }),
        json_at(text, place + "/ports"@) == JsonView::Items(n),
        json_at(text, place + "/labels"@) == JsonView::Items(m),
    ensures
        details(text) is None <==> json_at(text, "/tunnel"@) is Invalid,
        details(text) matches Some(d) ==> d.ports.len() == n,
        details(text) matches Some(d) ==> (0 <= i < n ==> (json_at(
            text,
            place + "/ports/"@ + digits(i as nat) + "/portNumber"@,
        ) matches JsonView::Number(k) ==> d.ports[i].number == k)),
        details(text) matches Some(d) ==> (0 <= i < n ==> (json_at(
            text,
            place + "/ports/"@ + digits(i as nat) + "/protocol"@,
        ) matches JsonView::Text(s) ==> d.ports[i].protocol == Some(s))),
        details(text) matches Some(d) ==> (0 <= i < m ==> (json_at(
            text,
            place + "/labels/"@ + digits(i as nat),
        ) matches JsonView::Text(s) ==> d.labels.contains(s))),
        details(text) matches Some(d) ==> forall|k: int|
            0 <= k < d.labels.len() ==> exists|j: int|
                0 <= j < m && #[trigger] json_at(text, place + "/labels/"@ + digits(j as nat))
                    == JsonView::Text(#[trigger] d.labels[k]),
{
    labels_grow(text, m as int);
    assert(place == tunnel_place(text));
    if let Some(d) = details(text) {
        if 0 <= i < m {
            assert(label_at(text, i) is Some ==> d.labels.contains(label_at(text, i)->0));
        }
        assert forall|k: int| 0 <= k < d.labels.len() implies exists|j: int|
            0 <= j < m && #[trigger] json_at(text, place + "/labels/"@ + digits(j as nat))
                == JsonView::Text(#[trigger] d.labels[k]) by {
            let j = choose|j: int| 0 <= j < m && #[trigger] label_at(text, j) == Some(d.labels[k]);
            assert(json_at(text, place + "/labels/"@ + digits(j as nat)) == JsonView::Text(
                d.labels[k],
            ));
        }
    }
}

/// What stands at a place counts only where it is of the right kind.
pub proof fn what_places_hold(n: Option<u64>, s: Seq<char>, k: usize, j: JsonView)
    ensures
        number_of(JsonView::Number(n)) == n,
        !(j is Number) ==> number_of(j) is None,
        text_of(JsonView::Text(s)) == Some(s),
        !(j is Text) ==> text_of(j) is None,
        items_of(JsonView::Items(k)) == k,
        !(j is Items) ==> items_of(j) == 0,
{
}

/// A port is ready exactly where one of those of the tunnel has its number and the protocol
/// `auto`, and taken where one has its number.
pub proof fn which_ports_are_ready(d: DetailsView, port: u16, i: int)
    ensures
        0 <= i < d.ports.len() && d.ports[i].number == Some(port as u64) ==> port_taken(d, port),
        0 <= i < d.ports.len() && d.ports[i].number == Some(port as u64) && d.ports[i].protocol
            == Some("auto"@) ==> port_ready(d, port),
        (forall|k: int| 0 <= k < d.ports.len() ==> #[trigger] d.ports[k].number != Some(port as u64))
            ==> !port_taken(d, port) && !port_ready(d, port),
        (forall|k: int| 0 <= k < d.ports.len() ==> (#[trigger] d.ports[k]).protocol != Some("auto"@))
            ==> !port_ready(d, port),
{
}

/// The labels to add are exactly those that are wanted and not there, each once.
pub proof fn which_labels_are_added(
    wanted: Seq<Seq<char>>,
    have: Seq<Seq<char>>,
    label: Seq<char>,
)
    ensures
        missing_labels(wanted, have).contains(label) <==> wanted.contains(label) && !have.contains(
            label,
        ),
        missing_labels(wanted, have).no_duplicates(),
    decreases wanted.len(),
{
    let all = missing_labels(wanted, have);
    if wanted.len() > 0 {
        let front = wanted.drop_last();
        let last = wanted.last();
        let before = missing_labels(front, have);
        which_labels_are_added(front, have, label);
        which_labels_are_added(front, have, last);
        assert(wanted[wanted.len() - 1] == last);
        if wanted.contains(label) {
            let i = choose|i: int| 0 <= i < wanted.len() && wanted[i] == label;
            if i < front.len() {
                assert(front[i] == label);
            }
        }
        if front.contains(label) {
            let i = choose|i: int| 0 <= i < front.len() && front[i] == label;
            assert(wanted[i] == label);
        }
        if !have.contains(last) && !before.contains(last) {
            assert(all[before.len() as int] == last);
            if before.contains(label) {
                let i = choose|i: int| 0 <= i < before.len() && before[i] == label;
                assert(all[i] == label);
            }
            if all.contains(label) {
                let i = choose|i: int| 0 <= i < all.len() && all[i] == label;
                if i < before.len() {
                    assert(before[i] == label);
                }
            }
            assert forall|i: int, j: int| 0 <= i < all.len() && 0 <= j < all.len() && i
                != j implies all[i] != all[j] by {
                if i < before.len() && j < before.len() {
                    assert(before[i] == all[i] && before[j] == all[j]);
                } else if i < before.len() {
                    assert(before[i] == all[i]);
                } else {
                    assert(before[j] == all[j]);
                }
            }
        }
    }
}

/// The setup of a tunnel goes from the account over the tunnel and its port to its labels and to
/// hosting, and creates what is missing where that is allowed.
pub proof fn how_tunnels_are_set_up(c: DevTunnelView, port: u16, o: OutputView, d: DetailsView)
    requires
        o.success,
    ensures
        first_step() == (NextView::Run {
            step: Step::User,
            args: seq!["user"@, "show"@, "--json"@],
        }),
        json_at(o.stdout, "/status"@) == JsonView::Text("Logged in"@) ==> after_output(
            c,
            port,
            Step::User,
            o,
        ) == (NextView::Run { step: Step::Show, args: seq!["show"@, c.id->0, "--json"@] }),
        details(o.stdout) == Some(d) && port_ready(d, port) && missing_labels(
            c.labels,
            d.labels,
        ).len() == 0 ==> after_output(c, port, Step::Show, o) == (NextView::Host {
            args: seq!["host"@, c.id->0],
        }),
        details(o.stdout) == Some(d) && port_ready(d, port) && missing_labels(
            c.labels,
            d.labels,
        ).len() > 0 ==> after_output(c, port, Step::Show, o) == (NextView::Run {
            step: Step::Label,
            args: seq!["update"@, c.id->0, "--add-labels"@] + missing_labels(c.labels, d.labels),
        }),
        details(o.stdout) == Some(d) && !port_taken(d, port) && c.auto_create ==> after_output(
            c,
            port,
            Step::Show,
            o,
        ) == (NextView::Run {
            step: Step::PortCreate,
            args: seq![
                "port"@,
                "create"@,
                c.id->0,
                "-p"@,
                digits(port as nat),
                "--protocol"@,
                "auto"@,
                "--json"@,
            ],
        }),
        after_output(c, port, Step::Reshow, o) == after_output(c, port, Step::Show, o),
        details(o.stdout) == Some(d) && port_ready(d, port) ==> after_output(
            c,
            port,
            Step::PortShow,
            o,
        ) == after_output(c, port, Step::Show, o),
        after_output(c, port, Step::Label, o) == (NextView::Host { args: seq!["host"@, c.id->0] }),
{
    if port_ready(d, port) {
        let i = choose|i: int|
            0 <= i < d.ports.len() && #[trigger] d.ports[i].number == Some(port as u64)
                && d.ports[i].protocol == Some("auto"@);
        assert(d.ports[i].number == Some(port as u64));
    }
}

/// A tunnel that is missing is created where that is allowed, and whatever comes of that, as of
/// the creation of a port, it is looked again. Any other command that fails ends the setup.
pub proof fn what_failed_commands_lead_to(c: DevTunnelView, port: u16, step: Step, o: OutputView)
    ensures
        !o.success && missing_tunnel(o) && c.auto_create ==> after_output(c, port, Step::Show, o) == (
        NextView::Run { step: Step::Create, args: seq!["create"@, c.id->0, "--json"@] }),
        after_output(c, port, Step::Create, o) == (NextView::Run {
            step: Step::Reshow,
            args: seq!["show"@, c.id->0, "--json"@],
        }),
        after_output(c, port, Step::PortCreate, o) == (NextView::Run {
            step: Step::PortShow,
            args: seq!["show"@, c.id->0, "--json"@],
        }),
        !o.success && step != Step::Create && step != Step::PortCreate && !(step == Step::Show
            && missing_tunnel(o) && c.auto_create) ==> after_output(c, port, step, o) == (
        NextView::Fail { reason: failure_text(o) }),
{
}

/// Why the setup of a tunnel is given up where its commands succeed.
pub proof fn why_setups_are_given_up(c: DevTunnelView, port: u16, o: OutputView, d: DetailsView)
    requires
        o.success,
    ensures
        json_at(o.stdout, "/status"@) is Invalid ==> after_output(c, port, Step::User, o) == (
        NextView::Fail { reason: "invalid Dev Tunnel login response"@ }),
        !(json_at(o.stdout, "/status"@) is Invalid) && json_at(o.stdout, "/status"@)
            != JsonView::Text("Logged in"@) ==> after_output(c, port, Step::User, o) == (
        NextView::Fail {
            reason: "login required; run devtunnel user login under the SSH server account"@,
        }),
        details(o.stdout) is None ==> after_output(c, port, Step::Show, o) == (NextView::Fail {
            reason: "invalid Dev Tunnel details"@,
        }),
        details(o.stdout) is None ==> after_output(c, port, Step::PortShow, o) == (NextView::Fail {
            reason: "invalid Dev Tunnel port details"@,
        }),
        details(o.stdout) == Some(d) && !port_ready(d, port) && port_taken(d, port)
            ==> after_output(c, port, Step::Show, o) == (NextView::Fail {
            reason: "tunnel port "@ + digits(port as nat)
                + " has an incompatible protocol; update it explicitly with devtunnel"@,
        }),
        details(o.stdout) == Some(d) && !port_ready(d, port) && !port_taken(d, port)
            && !c.auto_create ==> after_output(c, port, Step::Show, o) == (NextView::Fail {
            reason: "tunnel "@ + c.id->0 + " lacks port "@ + digits(port as nat)
                + " with protocol auto; DevTunnelAutoCreate is disabled"@,
        }),
        details(o.stdout) == Some(d) && !port_ready(d, port) ==> after_output(
            c,
            port,
            Step::PortShow,
            o,
        ) == (NextView::Fail {
            reason: "tunnel port "@ + digits(port as nat)
                + " is missing or has an incompatible protocol"@,
        }),
{
}

/// Lines are kept one behind the other, each with its line feed, as long as they fit into a
/// megabyte.
pub proof fn how_much_output_is_kept(before: Seq<char>, line: Seq<char>)
    ensures
        with_line(before, line) == before + line + seq!['\n'],
        line_fits(before, line) <==> encode_utf8(before).len() + encode_utf8(line).len()
            <= 1048576,
{
}

/// A host process is ready once it says so in a line, whatever stands around the words.
pub proof fn which_lines_say_ready(a: Seq<char>, b: Seq<char>, line: Seq<char>)
    ensures
        ready_line(a + "Ready to accept connections for tunnel:"@ + b),
        ready_line(line) ==> holds(line, "Ready to accept connections for tunnel:"@),
{
    word_is_held(a, "Ready to accept connections for tunnel:"@, b);
}

/// A failure that time does not mend is known by its words, and no other is one.
pub proof fn which_failures_are_permanent(a: Seq<char>, b: Seq<char>, s: Seq<char>)
    ensures
        permanent(a + "login required"@ + b),
        permanent(a + "DevTunnelAutoCreate"@ + b),
        permanent(a + "Tunnel not found"@ + b),
        permanent(a + "No such file"@ + b),
        permanent(a + "not found"@ + b),
        permanent(a + "incompatible protocol"@ + b),
        permanent(s) ==> holds(s, "login required"@) || holds(s, "DevTunnelAutoCreate"@) || holds(
            s,
            "Tunnel not found"@,
        ) || holds(s, "No such file"@) || holds(s, "not found"@) || holds(s, "incompatible protocol"@),
{
    word_is_held(a, "login required"@, b);
    word_is_held(a, "DevTunnelAutoCreate"@, b);
    word_is_held(a, "Tunnel not found"@, b);
    word_is_held(a, "No such file"@, b);
    word_is_held(a, "not found"@, b);
    word_is_held(a, "incompatible protocol"@, b);
}

/// A tunnel can be hosted exactly where it has a valid name, the server can be reached from this
/// machine, and an attempt has time.
pub proof fn which_tunnels_can_be_hosted(c: DevTunnelView, addr: SocketAddr)
    ensures
        start_fault(c, addr) is None <==> c.id is Some && tunnel_id(c.id->0) && (
        addr.ip.loopback() || addr.ip.unspecified()) && c.timeout_secs > 0,
        c.id is None || !tunnel_id(c.id->0) ==> start_fault(c, addr) == Some(
            "DevTunnelId must contain an explicit valid tunnel ID"@,
        ),
        c.id is Some && tunnel_id(c.id->0) && !addr.ip.loopback() && !addr.ip.unspecified()
            ==> start_fault(c, addr) == Some("SSH listener must accept loopback connections"@),
{
}

/// What a server does while it hosts a tunnel: it watches a process that is ready, pauses after a
/// failure for as long as the schedule asks for, or for a minute where time does not mend it, and
/// ends a process before it pauses.
pub proof fn what_hosts_do(h: Host, now: u64, reason: String, code: Option<i32>)
    ensures
        h.phase == Phase::Setup ==> host_step(h, HostEvent::Ready, now) == (
            Host { phase: Phase::Hosting, retry: after_ready(h.retry, now), network: h.network },
            Some((HostState::Connected, "tunnel ready"@)),
            HostAction::Watch,
        ),
        h.phase == Phase::Setup && !permanent(reason@) ==> host_step(
            h,
            HostEvent::SetupFailed(reason),
            now,
        ).1 == Some((HostState::Retrying, reason@)),
        h.phase == Phase::Setup && !permanent(reason@) ==> host_step(
            h,
            HostEvent::SetupFailed(reason),
            now,
        ).0.phase == (Phase::Pausing { deadline: later(now, delay_at(h.retry, now)), early: true }),
        h.phase == Phase::Setup && permanent(reason@) ==> host_step(
            h,
            HostEvent::SetupFailed(reason),
            now,
        ).1 == Some((HostState::Skipped, reason@)),
        h.phase == Phase::Setup && permanent(reason@) && now + 60000 <= u64::MAX ==> host_step(
            h,
            HostEvent::SetupFailed(reason),
            now,
        ).0.phase == (Phase::Pausing { deadline: (now + 60000) as u64, early: false }),
        h.phase == Phase::Setup ==> host_step(h, HostEvent::SetupFailed(reason), now).0.retry
            == after_failed(h.retry, now),
        h.phase == Phase::Hosting ==> host_step(h, HostEvent::Exited(code), now).1 == Some(
            (HostState::Retrying, "host process exited with code "@ + code_text(code)),
        ),
        h.phase == Phase::Hosting ==> host_step(h, HostEvent::Exited(code), now).0 == (Host {
            phase: Phase::Pausing { deadline: later(now, delay_at(h.retry, now)), early: true },
            retry: after_failed(h.retry, now),
            network: NetworkChanges { pending: None, ..h.network },
        }),
        h.phase == Phase::Hosting ==> host_step(h, HostEvent::Exited(code), now).2
            == HostAction::CloseAndSleep(later(now, delay_at(h.retry, now))),
        h.phase == Phase::Hosting ==> host_step(h, HostEvent::Gone, now).0 == host_step(
            h,
            HostEvent::Exited(code),
            now,
        ).0,
        h.phase == Phase::Hosting ==> host_step(h, HostEvent::Gone, now).2 == host_step(
            h,
            HostEvent::Exited(code),
            now,
        ).2,
        host_step(h, HostEvent::Cancelled, now).1 == (if h.phase == Phase::Stopped {
            None
        } else {
            Some((HostState::Stopped, "SSH server stopped"@))
        }),
{
}

/// A pause ends with another attempt once its time has come, and before that only where a change
/// of the network brings it forward, which it may not after a failure that time does not mend.
pub proof fn how_pauses_end(h: Host, deadline: u64, early: bool, now: u64)
    requires
        h.phase == (Phase::Pausing { deadline, early }),
    ensures
        now >= deadline ==> host_step(h, HostEvent::Wait(WaitEvent::Tick), now).2
            == HostAction::Attempt && host_step(h, HostEvent::Wait(WaitEvent::Tick), now).0.phase
            == Phase::Setup && host_step(h, HostEvent::Wait(WaitEvent::Tick), now).1 == Some(
            (HostState::Starting, "checking tunnel configuration"@),
        ) && host_step(h, HostEvent::Wait(WaitEvent::Tick), now).0.network.pending is None,
        now < deadline && (!early || h.network.pending is None) ==> host_step(
            h,
            HostEvent::Wait(WaitEvent::Tick),
            now,
        ) == (h, None::<(HostState, Seq<char>)>, HostAction::Sleep(deadline)),
        now < deadline && early && wait_step(h.network, deadline, now, WaitEvent::Tick).1 is Early
            ==> host_step(h, HostEvent::Wait(WaitEvent::Tick), now).2 == HostAction::Attempt,
        host_step(h, HostEvent::Wait(WaitEvent::Tick), now).0.retry == h.retry,
        PERMANENT_PAUSE == 60000,
{
}

/// The files and locks of a server are named by its process, and what it writes of its tunnel is
/// told with words for what is missing.
pub proof fn what_servers_say_of_their_tunnel(
    pid: u32,
    number: u64,
    id: Seq<char>,
    state: Seq<char>,
    reason: Seq<char>,
)
    ensures
        status_file(pid) == "devtunnel-host-"@ + digits(pid as nat) + ".json"@,
        instance_lock(number) == "devtunnel-instance-"@ + digits(number as nat) + ".lock"@,
        status_text(JsonView::Text(id), JsonView::Text(state), JsonView::Text(reason))
            == "Dev Tunnel "@ + id + ": "@ + state + " ("@ + reason + ")"@,
        status_text(JsonView::Null, JsonView::Missing, JsonView::Missing) == "Dev Tunnel "@
            + "not configured"@ + ": "@ + "unknown"@ + " ("@ + ""@ + ")"@,
        state_name(HostState::Skipped) == "skipped"@,
        state_name(HostState::Starting) == "starting"@,
        state_name(HostState::Connected) == "connected"@,
        state_name(HostState::Retrying) == "retrying"@,
        state_name(HostState::Stopped) == "stopped"@,
{
}

/// Whatever JSON the program writes says something of a tunnel: without a list of ports or labels
/// it has none.
pub proof fn what_is_missing_from_details(text: Seq<char>)
    ensures
        details(text) is None <==> json_at(text, "/tunnel"@) is Invalid,
        details(text) matches Some(d) ==> (!(json_at(text, "/tunnel"@) is Missing) && !(json_at(
            text,
            "/tunnel"@ + "/ports"@,
        ) is Items) ==> d.ports.len() == 0),
        details(text) matches Some(d) ==> (!(json_at(text, "/tunnel"@) is Missing) && !(json_at(
            text,
            "/tunnel"@ + "/labels"@,
        ) is Items) ==> d.labels.len() == 0),
        details(text) matches Some(d) ==> (json_at(text, "/tunnel"@) is Missing && !(json_at(
            text,
            ""@ + "/ports"@,
        ) is Items) ==> d.ports.len() == 0),
        details(text) matches Some(d) ==> (json_at(text, "/tunnel"@) is Missing && !(json_at(
            text,
            ""@ + "/labels"@,
        ) is Items) ==> d.labels.len() == 0),
{
}

} // verus!
