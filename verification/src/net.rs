//! Internet addresses and their text.

use crate::number::{
    all_digits, decimal, digits, digits_are_read, digits_are_written_in_one_way, digits_shape,
    digits_up_to, hex, hex_digit,
    hex_digits, hex_digits_are_read, hex_value, numbers_are_read, parse_digits, parse_hex_digit,
    value,
};
use crate::text::{
    chars, cut, digit, find_char, first_at, first_at_bounds, join, joined, joined_chars,
    joined_front, joined_of_pieces, next_char, next_char_bounds, pieces, pieces_of_joined,
    split_char, split_once,
    stands_at, text, texts,
};
use vstd::prelude::*;

verus! {

/// An internet address: the four bytes of a version 4 address, or the eight groups
/// of a version 6 address.
#[derive(Clone, Copy, Debug, PartialEq, Eq, Structural)]
pub enum IpAddr {
    V4(u8, u8, u8, u8),
    V6(u16, u16, u16, u16, u16, u16, u16, u16),
}

/// An address and a port. The scope is that of a version 6 address, and 0 elsewhere.
#[derive(Clone, Copy, Debug, PartialEq, Eq, Structural)]
pub struct SocketAddr {
    pub ip: IpAddr,
    pub port: u16,
    pub scope: u32,
}

/// The byte that one part of a version 4 address stands for: one to three decimal
/// digits, without a zero in front.
pub open spec fn octet(s: Seq<char>) -> Option<u8> {
    if s.len() <= 3 && all_digits(s) && (s.len() == 1 || s[0] != '0') && value(s) <= 255 {
        Some(value(s) as u8)
    } else {
        None
    }
}

/// The version 4 address that `s` is the text of: four parts with dots between them.
pub open spec fn v4_address(s: Seq<char>) -> Option<(u8, u8, u8, u8)> {
    let p = pieces(s, '.');
    if p.len() == 4 {
        match (octet(p[0]), octet(p[1]), octet(p[2]), octet(p[3])) {
            (Some(a), Some(b), Some(c), Some(d)) => Some((a, b, c, d)),
            _ => None,
        }
    } else {
        None
    }
}

/// The number that one group of a version 6 address stands for: one to four
/// hexadecimal digits.
pub open spec fn group(s: Seq<char>) -> Option<u16> {
    if 1 <= s.len() <= 4 && forall|i: int| 0 <= i < s.len() ==> hex_digit(#[trigger] s[i]) {
        Some(hex_value(s) as u16)
    } else {
        None
    }
}

/// The groups that `parts` stand for. Where `dotted` is set, the last part may be a
/// version 4 address, which stands for two groups.
pub open spec fn groups(parts: Seq<Seq<char>>, dotted: bool) -> Option<Seq<u16>>
    decreases parts.len(),
{
    if parts.len() == 0 {
        Some(Seq::empty())
    } else {
        match groups(parts.drop_last(), false) {
            None => None,
            Some(front) => match (group(parts.last()), v4_address(parts.last())) {
                (Some(g), _) => Some(front.push(g)),
                (None, Some((a, b, c, d))) => if dotted {
                    Some(front.push(pair(a, b)).push(pair(c, d)))
                } else {
                    None
                },
                (None, None) => None,
            },
        }
    }
}

/// Two bytes as one group.
pub open spec fn pair(a: u8, b: u8) -> u16 {
    (a * 256 + b) as u16
}

/// The groups on one side of a `::`.
pub open spec fn side(s: Seq<char>, dotted: bool) -> Option<Seq<u16>> {
    if s.len() == 0 {
        Some(Seq::empty())
    } else {
        groups(pieces(s, ':'), dotted)
    }
}

/// `n` groups of zero.
pub open spec fn zeros(n: int) -> Seq<u16> {
    Seq::new(n as nat, |i: int| 0u16)
}

/// The eight groups of the version 6 address that `s` is the text of: groups with
/// colons between them, where the first `::` stands for one or more groups of zero.
pub open spec fn v6_groups(s: Seq<char>) -> Option<Seq<u16>> {
    match cut(s, seq![':', ':']) {
        None => match groups(pieces(s, ':'), true) {
            Some(all) => if all.len() == 8 {
                Some(all)
            } else {
                None
            },
            None => None,
        },
        Some((before, after)) => match (side(before, false), side(after, true)) {
            (Some(head), Some(tail)) => if head.len() + tail.len() <= 7 {
                Some(head + zeros(8 - head.len() - tail.len()) + tail)
            } else {
                None
            },
            _ => None,
        },
    }
}

/// The version 6 address of eight groups.
pub open spec fn v6(g: Seq<u16>) -> IpAddr {
    IpAddr::V6(g[0], g[1], g[2], g[3], g[4], g[5], g[6], g[7])
}

/// The address that `s` is the text of.
pub open spec fn address(s: Seq<char>) -> Option<IpAddr> {
    match v4_address(s) {
        Some((a, b, c, d)) => Some(IpAddr::V4(a, b, c, d)),
        None => match v6_groups(s) {
            Some(g) => Some(v6(g)),
            None => None,
        },
    }
}

/// The address and port that `s` is the text of: a version 4 address, a colon and a
/// port, or a version 6 address in brackets, which a percent sign and a scope may
/// end, a colon and a port.
pub open spec fn socket_address(s: Seq<char>) -> Option<SocketAddr> {
    if s.len() > 0 && s[0] == '[' {
        let close = next_char(s, ']', 1);
        let inner = s.subrange(1, close);
        let percent = next_char(inner, '%', 0);
        let scope = if percent >= inner.len() {
            Some(0nat)
        } else {
            digits_up_to(inner.skip(percent + 1), u32::MAX as nat)
        };
        if close + 1 >= s.len() || s[close + 1] != ':' {
            None
        } else {
            match (
                v6_groups(inner.take(percent)),
                scope,
                digits_up_to(s.skip(close + 2), u16::MAX as nat),
            ) {
                (Some(g), Some(n), Some(port)) => Some(
                    SocketAddr { ip: v6(g), port: port as u16, scope: n as u32 },
                ),
                _ => None,
            }
        }
    } else {
        let colon = next_char(s, ':', 0);
        if colon >= s.len() {
            None
        } else {
            match (v4_address(s.take(colon)), digits_up_to(s.skip(colon + 1), u16::MAX as nat)) {
                (Some((a, b, c, d)), Some(port)) => Some(
                    SocketAddr { ip: IpAddr::V4(a, b, c, d), port: port as u16, scope: 0 },
                ),
                _ => None,
            }
        }
    }
}

fn parse_octet(s: &str) -> (r: Option<u8>)
    ensures
        r == octet(s@),
{
    let v = chars(s);
    if v.len() == 0 || v.len() > 3 || (v[0] == '0' && v.len() != 1) {
        return None;
    }
    match parse_digits(s, 255) {
        Some(n) => Some(n as u8),
        None => None,
    }
}

fn parse_v4(s: &str) -> (r: Option<(u8, u8, u8, u8)>)
    ensures
        r == v4_address(s@),
{
    let p = split_char(s, '.');
    assert(pieces(s@, '.').len() == p@.len());
    if p.len() != 4 {
        return None;
    }
    assert(forall|i: int| 0 <= i < 4 ==> #[trigger] pieces(s@, '.')[i] == p@[i]@);
    match (
        parse_octet(p[0].as_str()),
        parse_octet(p[1].as_str()),
        parse_octet(p[2].as_str()),
        parse_octet(p[3].as_str()),
    ) {
        (Some(a), Some(b), Some(c), Some(d)) => Some((a, b, c, d)),
        _ => None,
    }
}

fn parse_group(s: &str) -> (r: Option<u16>)
    ensures
        r == group(s@),
{
    let v = chars(s);
    if v.len() == 0 || v.len() > 4 {
        return None;
    }
    let mut n: u16 = 0;
    let mut i: usize = 0;
    let ghost power: int = 1;
    assert(s@.take(0) =~= Seq::<char>::empty());
    while i < v.len()
        invariant
            v@ == s@,
            i <= v@.len() <= 4,
            n == hex_value(s@.take(i as int)),
            0 <= n < power,
            i == 0 ==> power == 1,
            i == 1 ==> power == 16,
            i == 2 ==> power == 256,
            i == 3 ==> power == 4096,
            i == 4 ==> power == 65536,
            forall|k: int| 0 <= k < i ==> hex_digit(#[trigger] s@[k]),
        decreases v@.len() - i,
    {
        match parse_hex_digit(v[i]) {
            None => {
                assert(!hex_digit(s@[i as int]));
                return None;
            },
            Some(d) => {
                assert(s@.take(i + 1).drop_last() =~= s@.take(i as int));
                n = n * 16 + d;
                proof {
                    power = power * 16;
                }
                i = i + 1;
            },
        }
    }
    assert(s@.take(i as int) =~= s@);
    Some(n)
}

/// The groups that `parts` up to `n` stand for, none of them dotted.
fn parse_plain_groups(parts: &Vec<String>, n: usize) -> (r: Option<Vec<u16>>)
    requires
        n <= parts@.len(),
    ensures
        r is Some <==> groups(texts(parts@).take(n as int), false) is Some,
        r matches Some(g) ==> groups(texts(parts@).take(n as int), false) == Some(g@) && g@.len()
            == n,
    decreases n,
{
    let ghost p = texts(parts@).take(n as int);
    if n == 0 {
        return Some(Vec::new());
    }
    assert(p.drop_last() =~= texts(parts@).take(n - 1));
    assert(p.last() == parts@[n - 1]@);
    match parse_plain_groups(parts, n - 1) {
        None => None,
        Some(front) => {
            let mut all = front;
            match parse_group(parts[n - 1].as_str()) {
                None => None,
                Some(g) => {
                    all.push(g);
                    Some(all)
                },
            }
        },
    }
}

fn parse_groups(parts: &Vec<String>, dotted: bool) -> (r: Option<Vec<u16>>)
    ensures
        r is Some <==> groups(texts(parts@), dotted) is Some,
        r matches Some(g) ==> groups(texts(parts@), dotted) == Some(g@) && g@.len() <= parts@.len()
            + 1,
{
    let n: usize = parts.len();
    let ghost p = texts(parts@);
    if n == 0 {
        return Some(Vec::new());
    }
    assert(p.drop_last() =~= p.take(n - 1));
    assert(p.last() == parts@[n - 1]@);
    match parse_plain_groups(parts, n - 1) {
        None => None,
        Some(front) => {
            let mut all = front;
            match parse_group(parts[n - 1].as_str()) {
                Some(g) => {
                    all.push(g);
                    Some(all)
                },
                None => {
                    if !dotted {
                        return None;
                    }
                    match parse_v4(parts[n - 1].as_str()) {
                        None => None,
                        Some((a, b, c, d)) => {
                            all.push(a as u16 * 256 + b as u16);
                            all.push(c as u16 * 256 + d as u16);
                            Some(all)
                        },
                    }
                },
            }
        },
    }
}

fn parse_side(s: &str, dotted: bool) -> (r: Option<Vec<u16>>)
    ensures
        r is Some <==> side(s@, dotted) is Some,
        r matches Some(g) ==> side(s@, dotted) == Some(g@),
{
    let v = chars(s);
    if v.len() == 0 {
        let r: Vec<u16> = Vec::new();
        return Some(r);
    }
    parse_groups(&split_char(s, ':'), dotted)
}

fn parse_v6(s: &str) -> (r: Option<Vec<u16>>)
    ensures
        r is Some <==> v6_groups(s@) is Some,
        r matches Some(g) ==> v6_groups(s@) == Some(g@) && g@.len() == 8,
{
    proof {
        reveal_strlit("::");
        assert("::"@ =~= seq![':', ':']);
    }
    match split_once(s, "::") {
        None => match parse_groups(&split_char(s, ':'), true) {
            Some(all) => if all.len() == 8 {
                Some(all)
            } else {
                None
            },
            None => None,
        },
        Some((before, after)) => {
            let head = match parse_side(before.as_str(), false) {
                Some(g) => g,
                None => return None,
            };
            let tail = match parse_side(after.as_str(), true) {
                Some(g) => g,
                None => return None,
            };
            if head.len() > 7 || tail.len() > 7 - head.len() {
                return None;
            }
            let mut all = head;
            let n: usize = 8 - all.len() - tail.len();
            let ghost h = all@;
            let mut i: usize = 0;
            while i < n
                invariant
                    i <= n,
                    all@ == h + zeros(i as int),
                decreases n - i,
            {
                all.push(0);
                i = i + 1;
                assert(all@ =~= h + zeros(i as int));
            }
            let mut rest = tail;
            all.append(&mut rest);
            Some(all)
        },
    }
}

fn from_groups(g: &Vec<u16>) -> (r: IpAddr)
    requires
        g@.len() == 8,
    ensures
        r == v6(g@),
{
    IpAddr::V6(g[0], g[1], g[2], g[3], g[4], g[5], g[6], g[7])
}

/// The address that `s` is the text of.
pub fn parse_ip(s: &str) -> (r: Option<IpAddr>)
    ensures
        r == address(s@),
{
    match parse_v4(s) {
        Some((a, b, c, d)) => Some(IpAddr::V4(a, b, c, d)),
        None => match parse_v6(s) {
            Some(g) => Some(from_groups(&g)),
            None => None,
        },
    }
}

/// The address and port that `s` is the text of.
pub fn parse_socket(s: &str) -> (r: Option<SocketAddr>)
    ensures
        r == socket_address(s@),
{
    let v = chars(s);
    let len: usize = v.len();
    if len > 0 && v[0] == '[' {
        let close: usize = find_char(&v, ']', 1);
        if close >= len || close + 1 >= len || v[close + 1] != ':' {
            return None;
        }
        let ghost inner = s@.subrange(1, close as int);
        let inside = chars(text(&v, 1, close).as_str());
        let percent: usize = find_char(&inside, '%', 0);
        let n: usize = inside.len();
        let scope: u64 = if percent >= n {
            0
        } else {
            assert(inner.subrange(percent + 1, n as int) =~= inner.skip(percent + 1));
            match parse_digits(text(&inside, percent + 1, n).as_str(), 0xffff_ffff) {
                Some(k) => k,
                None => return None,
            }
        };
        assert(inner.subrange(0, percent as int) =~= inner.take(percent as int));
        let g = match parse_v6(text(&inside, 0, percent).as_str()) {
            Some(g) => g,
            None => return None,
        };
        assert(s@.subrange(close + 2, len as int) =~= s@.skip(close + 2));
        match parse_digits(text(&v, close + 2, len).as_str(), 0xffff) {
            Some(port) => Some(
                SocketAddr { ip: from_groups(&g), port: port as u16, scope: scope as u32 },
            ),
            None => None,
        }
    } else {
        let colon: usize = find_char(&v, ':', 0);
        if colon >= len {
            return None;
        }
        assert(s@.subrange(0, colon as int) =~= s@.take(colon as int));
        assert(s@.subrange(colon + 1, len as int) =~= s@.skip(colon + 1));
        match (
            parse_v4(text(&v, 0, colon).as_str()),
            parse_digits(text(&v, colon + 1, len).as_str(), 0xffff),
        ) {
            (Some((a, b, c, d)), Some(port)) => Some(
                SocketAddr { ip: IpAddr::V4(a, b, c, d), port: port as u16, scope: 0 },
            ),
            _ => None,
        }
    }
}

/// The text of a version 4 address.
pub open spec fn v4_text(a: u8, b: u8, c: u8, d: u8) -> Seq<char> {
    joined(seq![digits(a as nat), digits(b as nat), digits(c as nat), digits(d as nat)], seq!['.'])
}

/// How many groups of zero stand in `g` from `i` on.
pub open spec fn zero_run(g: Seq<u16>, i: int) -> int
    decreases g.len() - i,
{
    if i < 0 || i >= g.len() || g[i] != 0 {
        0
    } else {
        1 + zero_run(g, i + 1)
    }
}

/// The start of the first of the longest runs of zero that start before `n`.
pub open spec fn longest_run(g: Seq<u16>, n: int) -> int
    decreases n,
{
    if n <= 0 {
        0
    } else {
        let before = longest_run(g, n - 1);
        if zero_run(g, n - 1) > zero_run(g, before) {
            n - 1
        } else {
            before
        }
    }
}

/// Groups in hexadecimal with colons between them.
pub open spec fn groups_text(g: Seq<u16>) -> Seq<char> {
    joined(Seq::new(g.len(), |i: int| hex_digits(g[i] as nat)), seq![':'])
}

/// Whether eight groups hold a version 4 address behind five groups of zero and one
/// of ones.
pub open spec fn mapped(g: Seq<u16>) -> bool {
    g.len() == 8 && zero_run(g, 0) == 5 && g[5] == 0xffff
}

/// The text of a version 6 address: the first of the longest runs of two or more
/// groups of zero is written `::`.
pub open spec fn v6_text(g: Seq<u16>) -> Seq<char> {
    let start = longest_run(g, g.len() as int);
    let run = zero_run(g, start);
    if mapped(g) {
        seq![':', ':', 'f', 'f', 'f', 'f', ':'] + v4_text(
            (g[6] / 256) as u8,
            (g[6] % 256) as u8,
            (g[7] / 256) as u8,
            (g[7] % 256) as u8,
        )
    } else if run > 1 {
        groups_text(g.take(start)) + seq![':', ':'] + groups_text(g.skip(start + run))
    } else {
        groups_text(g)
    }
}

/// The groups of a version 6 address.
pub open spec fn groups_of(ip: IpAddr) -> Seq<u16> {
    match ip {
        IpAddr::V4(..) => Seq::empty(),
        IpAddr::V6(a, b, c, d, e, f, g, h) => seq![a, b, c, d, e, f, g, h],
    }
}

/// The text of an address.
pub open spec fn ip_text(ip: IpAddr) -> Seq<char> {
    match ip {
        IpAddr::V4(a, b, c, d) => v4_text(a, b, c, d),
        IpAddr::V6(..) => v6_text(groups_of(ip)),
    }
}

/// The text of an address and a port.
pub open spec fn socket_text(s: SocketAddr) -> Seq<char> {
    match s.ip {
        IpAddr::V4(..) => ip_text(s.ip) + seq![':'] + digits(s.port as nat),
        IpAddr::V6(..) => {
            let scope = if s.scope == 0 {
                Seq::empty()
            } else {
                seq!['%'] + digits(s.scope as nat)
            };
            seq!['['] + ip_text(s.ip) + scope + seq![']', ':'] + digits(s.port as nat)
        },
    }
}

proof fn zero_run_bounds(g: Seq<u16>, i: int)
    requires
        0 <= i <= g.len(),
    ensures
        0 <= zero_run(g, i) <= g.len() - i,
        forall|k: int| i <= k < i + zero_run(g, i) ==> #[trigger] g[k] == 0,
    decreases g.len() - i,
{
    if i < g.len() {
        zero_run_bounds(g, i + 1);
    }
}

proof fn longest_run_bounds(g: Seq<u16>, n: int)
    requires
        0 <= n <= g.len(),
        g.len() > 0,
    ensures
        0 <= longest_run(g, n) < g.len(),
    decreases n,
{
    if n > 0 {
        longest_run_bounds(g, n - 1);
    }
}

fn v4_to_text(a: u8, b: u8, c: u8, d: u8) -> (r: String)
    ensures
        r@ == v4_text(a, b, c, d),
{
    let mut parts: Vec<String> = Vec::new();
    parts.push(decimal(a as u64));
    parts.push(decimal(b as u64));
    parts.push(decimal(c as u64));
    parts.push(decimal(d as u64));
    proof {
        reveal_strlit(".");
        assert("."@ =~= seq!['.']);
        assert(texts(parts@) =~= seq![
            digits(a as nat),
            digits(b as nat),
            digits(c as nat),
            digits(d as nat),
        ]);
    }
    join(&parts, ".")
}

fn count_zeros(g: &Vec<u16>, i: usize) -> (r: usize)
    requires
        i <= g@.len(),
    ensures
        r == zero_run(g@, i as int),
{
    let mut k: usize = i;
    proof {
        zero_run_bounds(g@, i as int);
    }
    while k < g.len() && g[k] == 0
        invariant
            i <= k <= g@.len(),
            zero_run(g@, i as int) == k - i + zero_run(g@, k as int),
        decreases g@.len() - k,
    {
        k = k + 1;
    }
    k - i
}

fn groups_to_text(g: &Vec<u16>, from: usize, to: usize) -> (r: String)
    requires
        from <= to <= g@.len(),
    ensures
        r@ == groups_text(g@.subrange(from as int, to as int)),
{
    let mut parts: Vec<String> = Vec::new();
    let mut i: usize = from;
    while i < to
        invariant
            from <= i <= to <= g@.len(),
            parts@.len() == i - from,
            forall|k: int|
                0 <= k < i - from ==> (#[trigger] parts@[k])@ == hex_digits(g@[from + k] as nat),
        decreases to - i,
    {
        parts.push(hex(g[i]));
        i = i + 1;
    }
    proof {
        reveal_strlit(":");
        assert(":"@ =~= seq![':']);
        let sub = g@.subrange(from as int, to as int);
        assert(texts(parts@) =~= Seq::new(sub.len(), |i: int| hex_digits(sub[i] as nat)));
    }
    join(&parts, ":")
}

fn v6_to_text(g: &Vec<u16>) -> (r: String)
    requires
        g@.len() == 8,
    ensures
        r@ == v6_text(g@),
{
    let mut start: usize = 0;
    let mut run: usize = count_zeros(g, 0);
    if run == 5 && g[5] == 0xffff {
        let mut r = String::new();
        r.append("::ffff:");
        proof {
            reveal_strlit("::ffff:");
            assert("::ffff:"@ =~= seq![':', ':', 'f', 'f', 'f', 'f', ':']);
        }
        let v4 = v4_to_text(
            (g[6] / 256) as u8,
            (g[6] % 256) as u8,
            (g[7] / 256) as u8,
            (g[7] % 256) as u8,
        );
        r.append(v4.as_str());
        assert(r@ =~= v6_text(g@));
        return r;
    }
    let mut i: usize = 1;
    assert(longest_run(g@, 1) == 0) by {
        reveal_with_fuel(longest_run, 2);
    }
    while i < g.len()
        invariant
            1 <= i <= g@.len(),
            g@.len() == 8,
            start == longest_run(g@, i as int),
            run == zero_run(g@, start as int),
            start < g@.len(),
        decreases g@.len() - i,
    {
        let n: usize = count_zeros(g, i);
        if n > run {
            start = i;
            run = n;
        }
        i = i + 1;
    }
    proof {
        zero_run_bounds(g@, start as int);
    }
    if run > 1 {
        let mut r = groups_to_text(g, 0, start);
        let tail = groups_to_text(g, start + run, 8);
        r.append("::");
        r.append(tail.as_str());
        proof {
            reveal_strlit("::");
            assert("::"@ =~= seq![':', ':']);
            assert(g@.subrange(0, start as int) =~= g@.take(start as int));
            assert(g@.subrange(start + run, 8) =~= g@.skip(start + run));
        }
        r
    } else {
        assert(g@.subrange(0, 8) =~= g@);
        groups_to_text(g, 0, 8)
    }
}

impl IpAddr {
    /// The address as text.
    pub fn to_string(&self) -> (r: String)
        ensures
            r@ == ip_text(*self),
    {
        match *self {
            IpAddr::V4(a, b, c, d) => v4_to_text(a, b, c, d),
            IpAddr::V6(a, b, c, d, e, f, g, h) => {
                let mut all: Vec<u16> = Vec::new();
                all.push(a);
                all.push(b);
                all.push(c);
                all.push(d);
                all.push(e);
                all.push(f);
                all.push(g);
                all.push(h);
                assert(all@ =~= groups_of(*self));
                v6_to_text(&all)
            },
        }
    }

    /// Whether the address is one of `127.0.0.0/8`, or `::1`.
    pub open spec fn loopback(self) -> bool {
        match self {
            IpAddr::V4(a, b, c, d) => a == 127,
            IpAddr::V6(a, b, c, d, e, f, g, h) => self == IpAddr::V6(0, 0, 0, 0, 0, 0, 0, 1),
        }
    }

    /// Whether every bit of the address is zero.
    pub open spec fn unspecified(self) -> bool {
        self == IpAddr::V4(0, 0, 0, 0) || self == IpAddr::V6(0, 0, 0, 0, 0, 0, 0, 0)
    }

    /// Whether the address is one of `127.0.0.0/8`, or `::1`.
    pub fn is_loopback(&self) -> (r: bool)
        ensures
            r == self.loopback(),
    {
        match *self {
            IpAddr::V4(a, _, _, _) => a == 127,
            IpAddr::V6(a, b, c, d, e, f, g, h) => a == 0 && b == 0 && c == 0 && d == 0 && e == 0
                && f == 0 && g == 0 && h == 1,
        }
    }

    /// Whether every bit of the address is zero.
    pub fn is_unspecified(&self) -> (r: bool)
        ensures
            r == self.unspecified(),
    {
        match *self {
            IpAddr::V4(a, b, c, d) => a == 0 && b == 0 && c == 0 && d == 0,
            IpAddr::V6(a, b, c, d, e, f, g, h) => a == 0 && b == 0 && c == 0 && d == 0 && e == 0
                && f == 0 && g == 0 && h == 0,
        }
    }
}

impl SocketAddr {
    /// The address and the port as text.
    pub fn to_string(&self) -> (r: String)
        ensures
            r@ == socket_text(*self),
    {
        let mut r = String::new();
        let ip = self.ip.to_string();
        match self.ip {
            IpAddr::V4(..) => {
                r.append(ip.as_str());
                r.push(':');
            },
            IpAddr::V6(..) => {
                r.push('[');
                r.append(ip.as_str());
                if self.scope != 0 {
                    r.push('%');
                    r.append(decimal(self.scope as u64).as_str());
                }
                r.push(']');
                r.push(':');
            },
        }
        r.append(decimal(self.port as u64).as_str());
        assert(r@ =~= socket_text(*self));
        r
    }
}

proof fn octet_of_digits(n: u8)
    ensures
        octet(digits(n as nat)) == Some(n),
{
    digits_are_read(n as nat);
    digits_shape(n as nat);
}

proof fn group_of_hex(n: u16)
    ensures
        group(hex_digits(n as nat)) == Some(n),
{
    hex_digits_are_read(n as nat);
}

proof fn v4_text_is_read(a: u8, b: u8, c: u8, d: u8)
    ensures
        v4_address(v4_text(a, b, c, d)) == Some((a, b, c, d)),
{
    let parts = seq![digits(a as nat), digits(b as nat), digits(c as nat), digits(d as nat)];
    octet_of_digits(a);
    octet_of_digits(b);
    octet_of_digits(c);
    octet_of_digits(d);
    assert forall|i: int, j: int|
        0 <= i < parts.len() && 0 <= j < parts[i].len() implies #[trigger] parts[i][j] != '.' by {
        assert(digit(parts[i][j]));
    }
    pieces_of_joined(parts, '.');
}

/// The text of a version 4 address holds digits and dots, and so no colon.
proof fn v4_address_chars(s: Seq<char>, k: int)
    requires
        v4_address(s) is Some,
        0 <= k < s.len(),
    ensures
        digit(s[k]) || s[k] == '.',
{
    joined_of_pieces(s, '.');
    let p = pieces(s, '.');
    joined_chars(p, seq!['.'], k);
    if exists|i: int, j: int|
        0 <= i < p.len() && 0 <= j < p[i].len() && #[trigger] p[i][j] == s[k] {
        let (i, j) = choose|i: int, j: int|
            0 <= i < p.len() && 0 <= j < p[i].len() && #[trigger] p[i][j] == s[k];
        assert(octet(p[i]) is Some);
        assert(digit(p[i][j]));
    }
}

proof fn hexes_are_groups(g: Seq<u16>, dotted: bool)
    ensures
        groups(Seq::new(g.len(), |i: int| hex_digits(g[i] as nat)), dotted) == Some(g),
    decreases g.len(),
{
    let parts = Seq::new(g.len(), |i: int| hex_digits(g[i] as nat));
    if g.len() > 0 {
        hexes_are_groups(g.drop_last(), false);
        assert(parts.drop_last() =~= Seq::new(
            g.drop_last().len(),
            |i: int| hex_digits(g.drop_last()[i] as nat),
        ));
        group_of_hex(g.last());
        assert(g.drop_last().push(g.last()) =~= g);
    }
}

/// What groups with colons between them look like, and that they are read back.
proof fn groups_text_is_read(g: Seq<u16>, dotted: bool)
    ensures
        side(groups_text(g), dotted) == Some(g),
        g.len() > 0 ==> groups(pieces(groups_text(g), ':'), dotted) == Some(g),
        (groups_text(g).len() == 0) == (g.len() == 0),
{
    let parts = Seq::new(g.len(), |i: int| hex_digits(g[i] as nat));
    if g.len() > 0 {
        assert forall|i: int, j: int|
            0 <= i < parts.len() && 0 <= j < parts[i].len() implies #[trigger] parts[i][j]
            != ':' by {
            hex_digits_are_read(g[i] as nat);
            assert(hex_digit(hex_digits(g[i] as nat)[j]));
        }
        pieces_of_joined(parts, ':');
        hexes_are_groups(g, dotted);
        hex_digits_are_read(g[0] as nat);
        groups_text_shape(g);
    } else {
        assert(g =~= Seq::<u16>::empty());
    }
}

/// Groups with colons between them: no colon at either end, and no two together.
proof fn groups_text_shape(g: Seq<u16>)
    ensures
        g.len() > 0 ==> groups_text(g).len() > 0 && groups_text(g).last() != ':',
        forall|k: int|
            0 <= k < groups_text(g).len() ==> hex_digit(#[trigger] groups_text(g)[k])
                || groups_text(g)[k] == ':',
        forall|k: int|
            0 <= k < groups_text(g).len() - 1 ==> !(#[trigger] groups_text(g)[k] == ':'
                && groups_text(g)[k + 1] == ':'),
    decreases g.len(),
{
    let parts = Seq::new(g.len(), |i: int| hex_digits(g[i] as nat));
    if g.len() > 0 {
        let last = hex_digits(g.last() as nat);
        hex_digits_are_read(g.last() as nat);
        let front = groups_text(g.drop_last());
        groups_text_shape(g.drop_last());
        assert(parts.drop_last() =~= Seq::new(
            g.drop_last().len(),
            |i: int| hex_digits(g.drop_last()[i] as nat),
        ));
        let t = groups_text(g);
        if g.len() == 1 {
            assert(t == last);
        } else {
            assert(t == front + seq![':'] + last);
            assert forall|k: int| 0 <= k < t.len() implies hex_digit(#[trigger] t[k]) || t[k]
                == ':' by {
                if k < front.len() {
                    assert(t[k] == front[k]);
                } else if k > front.len() {
                    assert(t[k] == last[k - front.len() - 1]);
                }
            }
            assert forall|k: int| 0 <= k < t.len() - 1 implies !(#[trigger] t[k] == ':' && t[k + 1]
                == ':') by {
                if k < front.len() - 1 {
                    assert(t[k] == front[k] && t[k + 1] == front[k + 1]);
                } else if k == front.len() - 1 {
                    assert(t[k] == front.last());
                } else {
                    assert(t[k + 1] == last[k - front.len()]);
                }
            }
            assert(t.last() == last.last());
        }
    }
}

/// Where the first `::` is.
proof fn cut_at(s: Seq<char>, i: int)
    requires
        0 <= i <= s.len() - 2,
        s[i] == ':' && s[i + 1] == ':',
        forall|k: int| 0 <= k < i ==> !(#[trigger] s[k] == ':' && s[k + 1] == ':'),
    ensures
        cut(s, seq![':', ':']) == Some((s.take(i), s.skip(i + 2))),
{
    let p = seq![':', ':'];
    first_at_bounds(s, p, 0);
    assert(s.subrange(i, i + 2) =~= p);
    assert(stands_at(s, p, i));
    assert forall|k: int| 0 <= k < i implies !stands_at(s, p, k) by {
        if stands_at(s, p, k) {
            assert(s.subrange(k, k + 2)[0] == s[k] && s.subrange(k, k + 2)[1] == s[k + 1]);
        }
    }
}

proof fn no_cut(s: Seq<char>)
    requires
        forall|k: int| 0 <= k < s.len() - 1 ==> !(#[trigger] s[k] == ':' && s[k + 1] == ':'),
    ensures
        cut(s, seq![':', ':']) is None,
{
    let p = seq![':', ':'];
    first_at_bounds(s, p, 0);
    if let Some(k) = first_at(s, p, 0) {
        assert(s.subrange(k, k + 2)[0] == s[k] && s.subrange(k, k + 2)[1] == s[k + 1]);
    }
}

proof fn mapped_text_is_read(g: Seq<u16>)
    requires
        mapped(g),
    ensures
        v6_groups(v6_text(g)) == Some(g),
{
    let (a, b, c, d) = (
        (g[6] / 256) as u8,
        (g[6] % 256) as u8,
        (g[7] / 256) as u8,
        (g[7] % 256) as u8,
    );
    let v4 = v4_text(a, b, c, d);
    let t = v6_text(g);
    v4_text_is_read(a, b, c, d);
    zero_run_bounds(g, 0);
    cut_at(t, 0);
    let ffff = seq!['f', 'f', 'f', 'f'];
    let parts = seq![ffff, v4];
    assert(t.skip(2) =~= ffff + seq![':'] + v4);
    joined_front(parts, seq![':']);
    assert(parts.skip(1) =~= seq![v4]);
    assert(joined(parts, seq![':']) == t.skip(2));
    assert forall|i: int, j: int|
        0 <= i < parts.len() && 0 <= j < parts[i].len() implies #[trigger] parts[i][j] != ':' by {
        if i == 1 {
            v4_address_chars(v4, j);
        }
    }
    pieces_of_joined(parts, ':');
    assert(groups(parts, true) == Some(seq![0xffffu16, g[6], g[7]])) by {
        assert(parts.drop_last() =~= seq![ffff]);
        assert(seq![ffff].drop_last() =~= Seq::<Seq<char>>::empty());
        assert(hex_digits(0xffff) =~= ffff) by {
            reveal_with_fuel(hex_digits, 4);
        }
        group_of_hex(0xffff);
        assert(groups(Seq::<Seq<char>>::empty(), false) == Some(Seq::<u16>::empty()));
        assert(groups(seq![ffff], false) == Some(Seq::<u16>::empty().push(0xffffu16)));
        joined_of_pieces(v4, '.');
        let p = pieces(v4, '.');
        joined_front(p, seq!['.']);
        let dot = p[0].len() as int;
        assert(v4[dot] == '.');
        assert(group(v4) is None);
        assert(Seq::<u16>::empty().push(0xffffu16).push(pair(a, b)).push(pair(c, d)) =~= seq![
            0xffffu16,
            g[6],
            g[7],
        ]);
    }
    assert(side(t.skip(2), true) == Some(seq![0xffffu16, g[6], g[7]]));
    assert(t.take(0) =~= Seq::<char>::empty());
    assert(Seq::<u16>::empty() + zeros(5) + seq![0xffffu16, g[6], g[7]] =~= g);
}

proof fn v6_text_is_read(g: Seq<u16>)
    requires
        g.len() == 8,
    ensures
        v6_groups(v6_text(g)) == Some(g),
        exists|k: int| 0 <= k < v6_text(g).len() && v6_text(g)[k] == ':',
{
    let start = longest_run(g, 8);
    let run = zero_run(g, start);
    let t = v6_text(g);
    longest_run_bounds(g, 8);
    zero_run_bounds(g, start);
    if mapped(g) {
        mapped_text_is_read(g);
        assert(t[0] == ':');
    } else if run > 1 {
        let head = g.take(start);
        let tail = g.skip(start + run);
        let h = groups_text(head);
        groups_text_is_read(head, false);
        groups_text_is_read(tail, true);
        groups_text_shape(head);
        assert forall|k: int| 0 <= k < h.len() implies !(#[trigger] t[k] == ':' && t[k + 1]
            == ':') by {
            assert(t[k] == h[k]);
            if k + 1 < h.len() {
                assert(t[k + 1] == h[k + 1]);
            }
        }
        assert(t[h.len() as int] == ':');
        cut_at(t, h.len() as int);
        assert(t.take(h.len() as int) =~= h);
        assert(t.skip(h.len() as int + 2) =~= groups_text(tail));
        assert(head + zeros(run) + tail =~= g);
    } else {
        groups_text_is_read(g, true);
        groups_text_shape(g);
        no_cut(t);
        let parts = Seq::new(g.len(), |i: int| hex_digits(g[i] as nat));
        joined_front(parts, seq![':']);
        assert(t[parts[0].len() as int] == ':');
    }
}

/// Reading the text of an address gives the address.
pub proof fn ip_text_is_read(ip: IpAddr)
    ensures
        address(ip_text(ip)) == Some(ip),
{
    match ip {
        IpAddr::V4(a, b, c, d) => {
            v4_text_is_read(a, b, c, d);
        },
        IpAddr::V6(..) => {
            let g = groups_of(ip);
            v6_text_is_read(g);
            let t = v6_text(g);
            let k = choose|k: int| 0 <= k < t.len() && t[k] == ':';
            if v4_address(t) is Some {
                v4_address_chars(t, k);
            }
        },
    }
}

/// The text of an address is of hexadecimal digits, colons and dots.
pub proof fn ip_text_chars(ip: IpAddr)
    ensures
        ip_text(ip).len() > 0,
        forall|k: int|
            0 <= k < ip_text(ip).len() ==> hex_digit(#[trigger] ip_text(ip)[k]) || ip_text(ip)[k]
                == ':' || ip_text(ip)[k] == '.',
        ip is V4 ==> forall|k: int|
            0 <= k < ip_text(ip).len() ==> digit(#[trigger] ip_text(ip)[k]) || ip_text(ip)[k]
                == '.',
        ip is V6 ==> exists|k: int| 0 <= k < ip_text(ip).len() && ip_text(ip)[k] == ':',
{
    let t = ip_text(ip);
    match ip {
        IpAddr::V4(a, b, c, d) => {
            v4_text_is_read(a, b, c, d);
            assert forall|k: int| 0 <= k < t.len() implies digit(#[trigger] t[k]) || t[k] == '.' by {
                v4_address_chars(t, k);
            }
            joined_of_pieces(t, '.');
            if t.len() == 0 {
                next_char_bounds(t, '.', 0);
                assert(pieces(t, '.').len() == 1);
            }
        },
        IpAddr::V6(..) => {
            let g = groups_of(ip);
            v6_text_is_read(g);
            let start = longest_run(g, 8);
            let run = zero_run(g, start);
            longest_run_bounds(g, 8);
            zero_run_bounds(g, start);
            if mapped(g) {
                let (a, b, c, d) = (
                    (g[6] / 256) as u8,
                    (g[6] % 256) as u8,
                    (g[7] / 256) as u8,
                    (g[7] % 256) as u8,
                );
                let v4 = v4_text(a, b, c, d);
                v4_text_is_read(a, b, c, d);
                assert forall|k: int| 0 <= k < t.len() implies hex_digit(#[trigger] t[k]) || t[k]
                    == ':' || t[k] == '.' by {
                    if k >= 7 {
                        assert(t[k] == v4[k - 7]);
                        v4_address_chars(v4, k - 7);
                    }
                }
            } else if run > 1 {
                let h = groups_text(g.take(start));
                let u = groups_text(g.skip(start + run));
                groups_text_shape(g.take(start));
                groups_text_shape(g.skip(start + run));
                assert forall|k: int| 0 <= k < t.len() implies hex_digit(#[trigger] t[k]) || t[k]
                    == ':' || t[k] == '.' by {
                    if k < h.len() {
                        assert(t[k] == h[k]);
                    } else if k >= h.len() + 2 {
                        assert(t[k] == u[k - h.len() - 2]);
                    }
                }
            } else {
                groups_text_shape(g);
            }
        },
    }
}

/// The text of a version 4 address is its four numbers with dots between them.
pub proof fn v4_text_is_four_numbers(a: u8, b: u8, c: u8, d: u8)
    ensures
        ip_text(IpAddr::V4(a, b, c, d)) == digits(a as nat) + seq!['.'] + digits(b as nat)
            + seq!['.'] + digits(c as nat) + seq!['.'] + digits(d as nat),
{
    let parts = seq![digits(a as nat), digits(b as nat), digits(c as nat), digits(d as nat)];
    let p3 = parts.drop_last();
    let p2 = p3.drop_last();
    assert(p2.drop_last() =~= seq![digits(a as nat)]);
    assert(joined(p2.drop_last(), seq!['.']) == digits(a as nat));
    assert(joined(p2, seq!['.']) == digits(a as nat) + seq!['.'] + digits(b as nat));
    assert(joined(p3, seq!['.']) == joined(p2, seq!['.']) + seq!['.'] + digits(c as nat));
}

proof fn v4_socket_text_is_read(a: u8, b: u8, c: u8, d: u8, port: u16)
    ensures
        ({
            let s = SocketAddr { ip: IpAddr::V4(a, b, c, d), port, scope: 0 };
            socket_address(socket_text(s)) == Some(s)
        }),
{
    let s = SocketAddr { ip: IpAddr::V4(a, b, c, d), port, scope: 0 };
    let t = socket_text(s);
    let ip = v4_text(a, b, c, d);
    let number = digits(port as nat);
    ip_text_chars(s.ip);
    numbers_are_read(port as nat, u16::MAX as nat);
    v4_text_is_read(a, b, c, d);
    assert(t == ip + seq![':'] + number);
    assert(t[0] == ip[0]);
    next_char_bounds(t, ':', 0);
    let colon = next_char(t, ':', 0);
    assert(t[ip.len() as int] == ':');
    if colon < ip.len() {
        assert(t[colon] == ip[colon]);
    }
    assert(t.take(colon) =~= ip);
    assert(t.skip(colon + 1) =~= number);
}

/// Where the bracket behind an address closes.
proof fn bracket_closes(ip: Seq<char>, scope: Seq<char>, port: Seq<char>)
    requires
        forall|k: int| 0 <= k < ip.len() ==> #[trigger] ip[k] != ']' && ip[k] != '%',
        scope.len() == 0 || scope[0] == '%',
        forall|k: int| 0 < k < scope.len() ==> digit(#[trigger] scope[k]),
    ensures
        ({
            let t = seq!['['] + ip + scope + seq![']', ':'] + port;
            let close = (1 + ip.len() + scope.len()) as int;
            &&& next_char(t, ']', 1) == close
            &&& t.subrange(1, close) == ip + scope
            &&& t[close + 1] == ':'
            &&& t.skip(close + 2) == port
            &&& next_char(ip + scope, '%', 0) == ip.len()
            &&& (ip + scope).take(ip.len() as int) == ip
        }),
{
    let middle = ip + scope;
    let t = seq!['['] + ip + scope + seq![']', ':'] + port;
    next_char_bounds(t, ']', 1);
    let at = next_char(t, ']', 1);
    let close = (1 + ip.len() + scope.len()) as int;
    assert(t[close] == ']');
    assert forall|k: int| 0 <= k < middle.len() implies #[trigger] middle[k] != ']' by {
        if k < ip.len() {
            assert(middle[k] == ip[k]);
        } else {
            assert(middle[k] == scope[k - ip.len()]);
            if k > ip.len() {
                assert(digit(scope[k - ip.len()]));
            }
        }
    }
    if at < close {
        assert(t[at] == middle[at - 1]);
    }
    assert(t.subrange(1, close) =~= middle);
    assert(t.skip(close + 2) =~= port);
    next_char_bounds(middle, '%', 0);
    let percent = next_char(middle, '%', 0);
    if percent < ip.len() {
        assert(middle[percent] == ip[percent]);
    }
    if scope.len() > 0 {
        assert(middle[ip.len() as int] == '%');
    }
    assert(middle.take(ip.len() as int) =~= ip);
}

proof fn v6_socket_text_is_read(s: SocketAddr)
    requires
        s.ip is V6,
    ensures
        socket_address(socket_text(s)) == Some(s),
{
    let t = socket_text(s);
    let ip = ip_text(s.ip);
    let port = digits(s.port as nat);
    let number = digits(s.scope as nat);
    let g = groups_of(s.ip);
    let scope = if s.scope == 0 {
        Seq::empty()
    } else {
        seq!['%'] + number
    };
    ip_text_chars(s.ip);
    v6_text_is_read(g);
    numbers_are_read(s.port as nat, u16::MAX as nat);
    numbers_are_read(s.scope as nat, u32::MAX as nat);
    digits_are_read(s.scope as nat);
    assert forall|k: int| 0 < k < scope.len() implies digit(#[trigger] scope[k]) by {
        assert(scope[k] == number[k - 1]);
    }
    assert(t == seq!['['] + ip + scope + seq![']', ':'] + port);
    assert(t[0] == '[');
    bracket_closes(ip, scope, port);
    let inner = ip + scope;
    if s.scope != 0 {
        assert(inner.skip(ip.len() as int + 1) =~= number);
    }
    assert(v6(g) == s.ip);
}

/// Reading the text of an address and a port gives the address and the port.
pub proof fn socket_text_is_read(s: SocketAddr)
    requires
        s.ip is V4 ==> s.scope == 0,
    ensures
        socket_address(socket_text(s)) == Some(s),
{
    match s.ip {
        IpAddr::V4(a, b, c, d) => v4_socket_text_is_read(a, b, c, d, s.port),
        IpAddr::V6(..) => v6_socket_text_is_read(s),
    }
}

/// The addresses of this machine only are those that begin with 127, and `::1`. Every address
/// of this machine is meant by the two of zeros.
pub proof fn addresses_of_this_machine(a: u8, b: u8, c: u8, d: u8, g: Seq<u16>)
    requires
        g.len() == 8,
    ensures
        IpAddr::V4(a, b, c, d).loopback() <==> a == 127,
        v6(g).loopback() <==> g == seq![0u16, 0, 0, 0, 0, 0, 0, 1],
        IpAddr::V4(a, b, c, d).unspecified() <==> a == 0 && b == 0 && c == 0 && d == 0,
        v6(g).unspecified() <==> g == seq![0u16, 0, 0, 0, 0, 0, 0, 0],
{
    if v6(g).loopback() {
        assert(g =~= seq![0u16, 0, 0, 0, 0, 0, 0, 1]);
    }
    if v6(g).unspecified() {
        assert(g =~= seq![0u16, 0, 0, 0, 0, 0, 0, 0]);
    }
}

/// Only the text of a version 4 address is read as one: four numbers up to 255 without zeros in
/// front.
pub proof fn v4_addresses_are_written_in_one_way(s: Seq<char>)
    ensures
        v4_address(s) matches Some((a, b, c, d)) ==> s == ip_text(IpAddr::V4(a, b, c, d)),
{
    if let Some((a, b, c, d)) = v4_address(s) {
        let p = pieces(s, '.');
        joined_of_pieces(s, '.');
        digits_are_written_in_one_way(p[0]);
        digits_are_written_in_one_way(p[1]);
        digits_are_written_in_one_way(p[2]);
        digits_are_written_in_one_way(p[3]);
        assert(p =~= seq![
            digits(a as nat),
            digits(b as nat),
            digits(c as nat),
            digits(d as nat),
        ]);
    }
}

/// A version 6 address is read from its eight groups, and from groups on both sides of a `::`,
/// which stands for as many groups of zero as are missing.
pub proof fn v6_addresses_are_read_from_their_groups(head: Seq<u16>, tail: Seq<u16>, all: Seq<u16>)
    requires
        head.len() + tail.len() <= 7,
        all.len() == 8,
    ensures
        v6_groups(groups_text(all)) == Some(all),
        v6_groups(groups_text(head) + seq![':', ':'] + groups_text(tail)) == Some(
            head + zeros(8 - head.len() - tail.len()) + tail,
        ),
        groups_text(all).len() > 0,
{
    groups_text_is_read(all, true);
    groups_text_shape(all);
    no_cut(groups_text(all));
    let h = groups_text(head);
    let t = h + seq![':', ':'] + groups_text(tail);
    groups_text_is_read(head, false);
    groups_text_is_read(tail, true);
    groups_text_shape(head);
    assert forall|k: int| 0 <= k < h.len() implies !(#[trigger] t[k] == ':' && t[k + 1] == ':') by {
        assert(t[k] == h[k]);
        if k + 1 < h.len() {
            assert(t[k + 1] == h[k + 1]);
        } else {
            assert(h.last() == h[k]);
        }
    }
    assert(t[h.len() as int] == ':' && t[h.len() as int + 1] == ':');
    cut_at(t, h.len() as int);
    assert(t.take(h.len() as int) =~= h);
    assert(t.skip(h.len() as int + 2) =~= groups_text(tail));
}

/// A version 4 address with a port behind it is no address.
pub proof fn addresses_have_no_port(a: u8, b: u8, c: u8, d: u8, port: Seq<char>)
    requires
        all_digits(port),
    ensures
        address(ip_text(IpAddr::V4(a, b, c, d)) + seq![':'] + port) is None,
{
    let t = ip_text(IpAddr::V4(a, b, c, d));
    let s = t + seq![':'] + port;
    ip_text_chars(IpAddr::V4(a, b, c, d));
    assert(s[t.len() as int] == ':');
    if v4_address(s) is Some {
        v4_address_chars(s, t.len() as int);
    }
    assert forall|k: int| 0 <= k < s.len() && k != t.len() implies #[trigger] s[k] != ':' by {
        if k < t.len() {
            assert(s[k] == t[k]);
        } else {
            assert(s[k] == port[k - t.len() - 1]);
            assert(digit(port[k - t.len() - 1]));
        }
    }
    no_cut(s);
    let parts = seq![t, port];
    assert(parts.drop_last() =~= seq![t]);
    assert(joined(seq![t], seq![':']) == t);
    assert(joined(parts, seq![':']) == s);
    assert forall|i: int, j: int|
        0 <= i < parts.len() && 0 <= j < parts[i].len() implies #[trigger] parts[i][j] != ':' by {
        if i == 0 {
            assert(parts[i][j] == t[j]);
        } else {
            assert(parts[i][j] == port[j]);
            assert(digit(port[j]));
        }
    }
    pieces_of_joined(parts, ':');
    assert(group(t) is None) by {
        v4_text_is_four_numbers(a, b, c, d);
        let k = digits(a as nat).len() as int;
        assert(t[k] == '.');
        assert(!hex_digit(t[k]));
    }
    assert(seq![t].drop_last() =~= Seq::<Seq<char>>::empty());
    assert(groups(seq![t], false) is None);
    assert(groups(parts, true) is None);
}

/// One to four hexadecimal digits are a group, in capitals or in small letters and with or
/// without zeros in front, and nothing else is one.
pub proof fn what_groups_are(s: Seq<char>)
    ensures
        1 <= s.len() <= 4 && (forall|i: int| 0 <= i < s.len() ==> hex_digit(#[trigger] s[i]))
            ==> group(s) == Some(hex_value(s) as u16),
        group(s) is Some ==> 1 <= s.len() <= 4 && forall|i: int|
            0 <= i < s.len() ==> hex_digit(#[trigger] s[i]),
{
}

proof fn groups_one_by_one(parts: Seq<Seq<char>>, dotted: bool)
    requires
        forall|i: int| 0 <= i < parts.len() ==> group(#[trigger] parts[i]) is Some,
    ensures
        groups(parts, dotted) == Some(Seq::new(parts.len(), |i: int| group(parts[i])->0)),
    decreases parts.len(),
{
    let all = Seq::new(parts.len(), |i: int| group(parts[i])->0);
    if parts.len() == 0 {
        assert(all =~= Seq::<u16>::empty());
    } else {
        let front = parts.drop_last();
        assert forall|i: int| 0 <= i < front.len() implies group(#[trigger] front[i]) is Some by {
            assert(front[i] == parts[i]);
        }
        groups_one_by_one(front, false);
        assert(group(parts[parts.len() - 1]) is Some);
        let before = Seq::new(front.len(), |i: int| group(front[i])->0);
        assert(all =~= before.push(group(parts.last())->0));
    }
}

proof fn joined_groups_shape(parts: Seq<Seq<char>>)
    requires
        parts.len() > 0,
        forall|i: int| 0 <= i < parts.len() ==> group(#[trigger] parts[i]) is Some,
    ensures
        joined(parts, seq![':']).len() > 0,
        joined(parts, seq![':']).last() != ':',
        forall|k: int|
            0 <= k < joined(parts, seq![':']).len() - 1 ==> !(#[trigger] joined(
                parts,
                seq![':'],
            )[k] == ':' && joined(parts, seq![':'])[k + 1] == ':'),
    decreases parts.len(),
{
    let t = joined(parts, seq![':']);
    let last = parts.last();
    assert(group(parts[parts.len() - 1]) is Some);
    assert(hex_digit(last[0]) && hex_digit(last[last.len() - 1]));
    if parts.len() == 1 {
        assert(t == last);
        assert forall|k: int| 0 <= k < t.len() - 1 implies !(#[trigger] t[k] == ':' && t[k + 1]
            == ':') by {
            assert(hex_digit(last[k]));
        }
    } else {
        let front = parts.drop_last();
        assert forall|i: int| 0 <= i < front.len() implies group(#[trigger] front[i]) is Some by {
            assert(front[i] == parts[i]);
        }
        joined_groups_shape(front);
        let f = joined(front, seq![':']);
        assert(t == f + seq![':'] + last);
        assert forall|k: int| 0 <= k < t.len() - 1 implies !(#[trigger] t[k] == ':' && t[k + 1]
            == ':') by {
            if k < f.len() - 1 {
                assert(t[k] == f[k] && t[k + 1] == f[k + 1]);
            } else if k == f.len() - 1 {
                assert(t[k] == f.last());
            } else {
                assert(t[k + 1] == last[k - f.len()]);
                assert(hex_digit(last[k - f.len()]));
            }
        }
        assert(t.last() == last[last.len() - 1]);
    }
}

/// Eight groups with colons between them are a version 6 address, however each of them is
/// written.
pub proof fn v6_addresses_are_read_in_any_writing(parts: Seq<Seq<char>>)
    requires
        parts.len() == 8,
        forall|i: int| 0 <= i < parts.len() ==> group(#[trigger] parts[i]) is Some,
    ensures
        v6_groups(joined(parts, seq![':'])) == Some(Seq::new(8, |i: int| group(parts[i])->0)),
{
    assert forall|i: int, j: int|
        0 <= i < parts.len() && 0 <= j < parts[i].len() implies #[trigger] parts[i][j] != ':' by {
        assert(group(parts[i]) is Some);
        assert(hex_digit(parts[i][j]));
    }
    pieces_of_joined(parts, ':');
    joined_groups_shape(parts);
    no_cut(joined(parts, seq![':']));
    groups_one_by_one(parts, true);
}

} // verus!
