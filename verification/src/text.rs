//! Text on the level of characters: the functions that the parsers and the messages
//! of this library are made of, with a model of each on sequences of characters.

use vstd::prelude::*;

verus! {

/// `String::push` puts the character behind the text.
pub assume_specification[ String::push ](s: &mut String, c: char)
    ensures
        final(s)@ == old(s)@.push(c),
;

/// The texts of a list of strings.
pub open spec fn texts(v: Seq<String>) -> Seq<Seq<char>> {
    Seq::new(v.len(), |i: int| v[i]@)
}

/// The characters with the Unicode property `White_Space`.
pub open spec fn white(c: char) -> bool {
    ||| '\u{9}' <= c <= '\u{d}'
    ||| c == ' '
    ||| c == '\u{85}'
    ||| c == '\u{a0}'
    ||| c == '\u{1680}'
    ||| '\u{2000}' <= c <= '\u{200a}'
    ||| c == '\u{2028}'
    ||| c == '\u{2029}'
    ||| c == '\u{202f}'
    ||| c == '\u{205f}'
    ||| c == '\u{3000}'
}

/// The characters of the Unicode category `Cc`.
pub open spec fn control(c: char) -> bool {
    c <= '\u{1f}' || '\u{7f}' <= c <= '\u{9f}'
}

/// The decimal digits of ASCII.
pub open spec fn digit(c: char) -> bool {
    '0' <= c <= '9'
}

/// The letters and digits of ASCII.
pub open spec fn alphanumeric(c: char) -> bool {
    digit(c) || 'a' <= c <= 'z' || 'A' <= c <= 'Z'
}

/// An ASCII capital as its small letter, any other character as it is.
pub open spec fn lower(c: char) -> char {
    if 'A' <= c <= 'Z' {
        (c as u32 + 32) as char
    } else {
        c
    }
}

/// `s` with every ASCII capital made small.
pub open spec fn lowered(s: Seq<char>) -> Seq<char> {
    Seq::new(s.len(), |i: int| lower(s[i]))
}

/// Whether `c` has the Unicode property `White_Space`.
pub fn is_white(c: char) -> (r: bool)
    ensures
        r == white(c),
{
    ('\u{9}' <= c && c <= '\u{d}') || c == ' ' || c == '\u{85}' || c == '\u{a0}' || c == '\u{1680}'
        || ('\u{2000}' <= c && c <= '\u{200a}') || c == '\u{2028}' || c == '\u{2029}'
        || c == '\u{202f}' || c == '\u{205f}' || c == '\u{3000}'
}

/// Whether `c` is a control character.
pub fn is_control(c: char) -> (r: bool)
    ensures
        r == control(c),
{
    c <= '\u{1f}' || ('\u{7f}' <= c && c <= '\u{9f}')
}

/// Whether `c` is an ASCII digit.
pub fn is_digit(c: char) -> (r: bool)
    ensures
        r == digit(c),
{
    '0' <= c && c <= '9'
}

/// Whether `c` is an ASCII letter or digit.
pub fn is_alphanumeric(c: char) -> (r: bool)
    ensures
        r == alphanumeric(c),
{
    is_digit(c) || ('a' <= c && c <= 'z') || ('A' <= c && c <= 'Z')
}

/// An ASCII capital as its small letter, any other character as it is.
pub fn lower_char(c: char) -> (r: char)
    ensures
        r == lower(c),
{
    if 'A' <= c && c <= 'Z' {
        (c as u8 + 32) as char
    } else {
        c
    }
}

/// The characters of `s`.
pub fn chars(s: &str) -> (v: Vec<char>)
    ensures
        v@ == s@,
{
    let mut v: Vec<char> = Vec::new();
    for c in it: s.chars()
        invariant
            it.seq() == s@,
            v@ == s@.take(it.index()),
    {
        proof {
            assert(s@.take(it.index() + 1) =~= s@.take(it.index()).push(s@[it.index()]));
        }
        v.push(c);
    }
    assert(s@.take(s@.len() as int) =~= s@);
    v
}

/// The text of the characters from `from` up to `to`.
pub fn text(v: &Vec<char>, from: usize, to: usize) -> (s: String)
    requires
        from <= to <= v@.len(),
    ensures
        s@ == v@.subrange(from as int, to as int),
{
    let mut s = String::new();
    let mut i: usize = from;
    while i < to
        invariant
            from <= i <= to <= v@.len(),
            s@ == v@.subrange(from as int, i as int),
        decreases to - i,
    {
        s.push(v[i]);
        i = i + 1;
        assert(v@.subrange(from as int, i as int) =~= v@.subrange(from as int, i - 1).push(
            v@[i - 1],
        ));
    }
    s
}

/// Whether two texts are the same.
pub fn same(a: &str, b: &str) -> (r: bool)
    ensures
        r == (a@ == b@),
{
    a.to_owned() == b.to_owned()
}

/// `s` with every ASCII capital made small.
pub fn to_lower(s: &str) -> (r: String)
    ensures
        r@ == lowered(s@),
{
    let mut r = String::new();
    for c in it: s.chars()
        invariant
            it.seq() == s@,
            r@ == lowered(s@.take(it.index())),
    {
        proof {
            assert(lowered(s@.take(it.index() + 1)) =~= lowered(s@.take(it.index())).push(
                lower(s@[it.index()]),
            ));
        }
        r.push(lower_char(c));
    }
    assert(s@.take(s@.len() as int) =~= s@);
    r
}

/// The least index from `i` on that holds white space, or the length of `s`.
pub open spec fn next_white(s: Seq<char>, i: int) -> int
    decreases s.len() - i,
{
    if i >= s.len() || white(s[i]) {
        i
    } else {
        next_white(s, i + 1)
    }
}

/// The least index from `i` on that holds no white space, or the length of `s`.
pub open spec fn next_black(s: Seq<char>, i: int) -> int
    decreases s.len() - i,
{
    if i >= s.len() || !white(s[i]) {
        i
    } else {
        next_black(s, i + 1)
    }
}

/// The least index from `i` on that holds `c`, or the length of `s`.
pub open spec fn next_char(s: Seq<char>, c: char, i: int) -> int
    decreases s.len() - i,
{
    if i >= s.len() || s[i] == c {
        i
    } else {
        next_char(s, c, i + 1)
    }
}

/// The greatest length up to `n` at which `s` is empty or ends in something but white space.
pub open spec fn black_end(s: Seq<char>, n: int) -> int
    decreases n,
{
    if n <= 0 || !white(s[n - 1]) {
        n
    } else {
        black_end(s, n - 1)
    }
}

/// `s` without white space at its end.
pub open spec fn trimmed_end(s: Seq<char>) -> Seq<char> {
    s.take(black_end(s, s.len() as int))
}

/// `s` without white space at its start.
pub open spec fn trimmed_start(s: Seq<char>) -> Seq<char> {
    s.skip(next_black(s, 0))
}

/// `s` without white space at either end.
pub open spec fn trimmed(s: Seq<char>) -> Seq<char> {
    trimmed_end(trimmed_start(s))
}

/// The pieces of `s` between runs of white space.
pub open spec fn words(s: Seq<char>) -> Seq<Seq<char>>
    decreases s.len(),
    via words_shrink
{
    let a = next_black(s, 0);
    if a >= s.len() {
        Seq::empty()
    } else {
        let b = next_white(s, a);
        seq![s.subrange(a, b)] + words(s.skip(b))
    }
}

#[via_fn]
proof fn words_shrink(s: Seq<char>) {
    next_bounds(s, 0);
    next_bounds(s, next_black(s, 0));
}

/// The pieces of `s` between occurrences of `c`.
pub open spec fn pieces(s: Seq<char>, c: char) -> Seq<Seq<char>>
    decreases s.len(),
    via pieces_shrink
{
    let i = next_char(s, c, 0);
    if i >= s.len() {
        seq![s]
    } else {
        seq![s.take(i)] + pieces(s.skip(i + 1), c)
    }
}

#[via_fn]
proof fn pieces_shrink(s: Seq<char>, c: char) {
    next_char_bounds(s, c, 0);
}

/// `s` without one carriage return at its end.
pub open spec fn without_return(s: Seq<char>) -> Seq<char> {
    if s.len() > 0 && s.last() == '\r' {
        s.drop_last()
    } else {
        s
    }
}

/// The lines of `s`. A line ends at a line feed, or at a carriage return and a line
/// feed; the last line may lack its ending.
pub open spec fn lines_of(s: Seq<char>) -> Seq<Seq<char>>
    decreases s.len(),
    via lines_shrink
{
    let i = next_char(s, '\n', 0);
    if s.len() == 0 {
        Seq::empty()
    } else if i >= s.len() {
        seq![s]
    } else {
        seq![without_return(s.take(i))] + lines_of(s.skip(i + 1))
    }
}

#[via_fn]
proof fn lines_shrink(s: Seq<char>) {
    next_char_bounds(s, '\n', 0);
}

/// What the next index of white space and of other characters is.
pub proof fn next_bounds(s: Seq<char>, i: int)
    requires
        0 <= i <= s.len(),
    ensures
        i <= next_white(s, i) <= s.len(),
        i <= next_black(s, i) <= s.len(),
        forall|j: int| i <= j < next_white(s, i) ==> !white(#[trigger] s[j]),
        forall|j: int| i <= j < next_black(s, i) ==> white(#[trigger] s[j]),
        next_white(s, i) < s.len() ==> white(s[next_white(s, i)]),
        next_black(s, i) < s.len() ==> !white(s[next_black(s, i)]),
    decreases s.len() - i,
{
    if i < s.len() {
        next_bounds(s, i + 1);
    }
}

/// What the next index of a character is.
pub proof fn next_char_bounds(s: Seq<char>, c: char, i: int)
    requires
        0 <= i <= s.len(),
    ensures
        i <= next_char(s, c, i) <= s.len(),
        forall|j: int| i <= j < next_char(s, c, i) ==> #[trigger] s[j] != c,
        next_char(s, c, i) < s.len() ==> s[next_char(s, c, i)] == c,
    decreases s.len() - i,
{
    if i < s.len() {
        next_char_bounds(s, c, i + 1);
    }
}

/// What the end without white space is.
pub proof fn black_end_bounds(s: Seq<char>, n: int)
    requires
        0 <= n <= s.len(),
    ensures
        0 <= black_end(s, n) <= n,
        forall|j: int| black_end(s, n) <= j < n ==> white(#[trigger] s[j]),
        black_end(s, n) > 0 ==> !white(s[black_end(s, n) - 1]),
    decreases n,
{
    if n > 0 {
        black_end_bounds(s, n - 1);
    }
}

/// The next index in what is left of `s` from `k` on.
pub proof fn next_skip(s: Seq<char>, k: int, i: int)
    requires
        0 <= k <= s.len(),
        0 <= i <= s.len() - k,
    ensures
        next_white(s.skip(k), i) == next_white(s, k + i) - k,
        next_black(s.skip(k), i) == next_black(s, k + i) - k,
    decreases s.len() - k - i,
{
    if i < s.len() - k {
        next_skip(s, k, i + 1);
    }
}

/// The next index of a character in what is left of `s` from `k` on.
pub proof fn next_char_skip(s: Seq<char>, c: char, k: int, i: int)
    requires
        0 <= k <= s.len(),
        0 <= i <= s.len() - k,
    ensures
        next_char(s.skip(k), c, i) == next_char(s, c, k + i) - k,
    decreases s.len() - k - i,
{
    if i < s.len() - k {
        next_char_skip(s, c, k, i + 1);
    }
}

/// The least index from `i` on that holds white space, or the length of `s`.
pub fn find_white(s: &Vec<char>, i: usize) -> (r: usize)
    requires
        i <= s@.len(),
    ensures
        r == next_white(s@, i as int),
        i <= r <= s@.len(),
{
    proof {
        next_bounds(s@, i as int);
    }
    let mut j: usize = i;
    while j < s.len() && !is_white(s[j])
        invariant
            i <= j <= s@.len(),
            next_white(s@, i as int) == next_white(s@, j as int),
        decreases s@.len() - j,
    {
        j = j + 1;
    }
    j
}

/// The least index from `i` on that holds no white space, or the length of `s`.
pub fn find_black(s: &Vec<char>, i: usize) -> (r: usize)
    requires
        i <= s@.len(),
    ensures
        r == next_black(s@, i as int),
        i <= r <= s@.len(),
{
    proof {
        next_bounds(s@, i as int);
    }
    let mut j: usize = i;
    while j < s.len() && is_white(s[j])
        invariant
            i <= j <= s@.len(),
            next_black(s@, i as int) == next_black(s@, j as int),
        decreases s@.len() - j,
    {
        j = j + 1;
    }
    j
}

/// The least index from `i` on that holds `c`, or the length of `s`.
pub fn find_char(s: &Vec<char>, c: char, i: usize) -> (r: usize)
    requires
        i <= s@.len(),
    ensures
        r == next_char(s@, c, i as int),
        i <= r <= s@.len(),
{
    proof {
        next_char_bounds(s@, c, i as int);
    }
    let mut j: usize = i;
    while j < s.len() && s[j] != c
        invariant
            i <= j <= s@.len(),
            next_char(s@, c, i as int) == next_char(s@, c, j as int),
        decreases s@.len() - j,
    {
        j = j + 1;
    }
    j
}

/// The greatest index below `n` that holds `c`, or -1.
pub open spec fn last_char(s: Seq<char>, c: char, n: int) -> int
    decreases n,
{
    if n <= 0 || s[n - 1] == c {
        n - 1
    } else {
        last_char(s, c, n - 1)
    }
}

/// What the greatest index of a character is.
pub proof fn last_char_bounds(s: Seq<char>, c: char, n: int)
    requires
        0 <= n <= s.len(),
    ensures
        -1 <= last_char(s, c, n) < n || n == 0 && last_char(s, c, n) == -1,
        last_char(s, c, n) >= 0 ==> s[last_char(s, c, n)] == c,
        forall|j: int| last_char(s, c, n) < j < n ==> #[trigger] s[j] != c,
    decreases n,
{
    if n > 0 {
        last_char_bounds(s, c, n - 1);
    }
}

/// The greatest index of `s` that holds `c`.
pub fn find_last_char(s: &Vec<char>, c: char) -> (r: Option<usize>)
    ensures
        r is Some <==> last_char(s@, c, s@.len() as int) >= 0,
        r matches Some(i) ==> i == last_char(s@, c, s@.len() as int) && i < s@.len(),
{
    let mut n: usize = s.len();
    proof {
        last_char_bounds(s@, c, n as int);
    }
    while n > 0
        invariant
            n <= s@.len(),
            last_char(s@, c, s@.len() as int) == last_char(s@, c, n as int),
        decreases n,
    {
        if s[n - 1] == c {
            return Some(n - 1);
        }
        n = n - 1;
    }
    None
}

/// `s` without white space at its end.
pub fn trim_end(s: &str) -> (r: String)
    ensures
        r@ == trimmed_end(s@),
{
    let v = chars(s);
    let mut n: usize = v.len();
    proof {
        black_end_bounds(s@, n as int);
    }
    while n > 0 && is_white(v[n - 1])
        invariant
            n <= v@.len(),
            black_end(v@, v@.len() as int) == black_end(v@, n as int),
        decreases n,
    {
        n = n - 1;
    }
    text(&v, 0, n)
}

/// `s` without white space at either end.
pub fn trim(s: &str) -> (r: String)
    ensures
        r@ == trimmed(s@),
{
    let v = chars(s);
    let a = find_black(&v, 0);
    let rest = text(&v, a, v.len());
    assert(rest@ =~= trimmed_start(s@));
    trim_end(rest.as_str())
}

/// The pieces of `s` between runs of white space.
pub fn split_words(s: &str) -> (r: Vec<String>)
    ensures
        texts(r@) == words(s@),
{
    let v = chars(s);
    let mut r: Vec<String> = Vec::new();
    let mut i: usize = 0;
    assert(s@.skip(0) =~= s@);
    assert(texts(r@) =~= Seq::<Seq<char>>::empty());
    while i < v.len()
        invariant
            v@ == s@,
            i <= v@.len(),
            words(s@) == texts(r@) + words(s@.skip(i as int)),
        decreases v@.len() - i,
    {
        let a = find_black(&v, i);
        proof {
            next_skip(s@, i as int, 0);
            next_bounds(s@, i as int);
        }
        if a == v.len() {
            assert(texts(r@) + words(s@.skip(i as int)) =~= texts(r@));
            return r;
        }
        let b = find_white(&v, a);
        proof {
            next_skip(s@, i as int, a - i);
            next_bounds(s@, a as int);
            assert(s@.skip(i as int).skip(b - i) =~= s@.skip(b as int));
            assert(s@.skip(i as int).subrange(a - i, b - i) =~= s@.subrange(a as int, b as int));
        }
        let ghost before = r@;
        r.push(text(&v, a, b));
        assert(texts(r@) =~= texts(before).push(s@.subrange(a as int, b as int)));
        assert(texts(r@) + words(s@.skip(b as int)) =~= texts(before) + words(s@.skip(i as int)));
        i = b;
    }
    assert(words(s@.skip(i as int)) =~= Seq::<Seq<char>>::empty());
    assert(texts(r@) + words(s@.skip(i as int)) =~= texts(r@));
    r
}

/// The pieces of `s` between occurrences of `c`.
pub fn split_char(s: &str, c: char) -> (r: Vec<String>)
    ensures
        texts(r@) == pieces(s@, c),
        r@.len() > 0,
{
    let v = chars(s);
    let mut r: Vec<String> = Vec::new();
    let mut i: usize = 0;
    assert(s@.skip(0) =~= s@);
    assert(texts(r@) + pieces(s@, c) =~= pieces(s@, c));
    loop
        invariant
            v@ == s@,
            i <= v@.len(),
            pieces(s@, c) == texts(r@) + pieces(s@.skip(i as int), c),
        decreases v@.len() - i,
    {
        let j = find_char(&v, c, i);
        proof {
            next_char_skip(s@, c, i as int, 0);
            next_char_bounds(s@, c, i as int);
        }
        let ghost before = r@;
        r.push(text(&v, i, j));
        assert(texts(r@) =~= texts(before).push(s@.subrange(i as int, j as int)));
        if j == v.len() {
            assert(s@.subrange(i as int, j as int) =~= s@.skip(i as int));
            assert(texts(r@) =~= texts(before) + pieces(s@.skip(i as int), c));
            return r;
        }
        proof {
            assert(s@.skip(i as int).skip(j - i + 1) =~= s@.skip(j + 1));
            assert(s@.skip(i as int).take(j - i) =~= s@.subrange(i as int, j as int));
            assert(texts(r@) + pieces(s@.skip(j + 1), c) =~= texts(before) + pieces(
                s@.skip(i as int),
                c,
            ));
        }
        i = j + 1;
    }
}

/// The lines of `s`.
pub fn lines(s: &str) -> (r: Vec<String>)
    ensures
        texts(r@) == lines_of(s@),
{
    let v = chars(s);
    let mut r: Vec<String> = Vec::new();
    let mut i: usize = 0;
    assert(s@.skip(0) =~= s@);
    assert(texts(r@) + lines_of(s@) =~= lines_of(s@));
    while i < v.len()
        invariant
            v@ == s@,
            i <= v@.len(),
            lines_of(s@) == texts(r@) + lines_of(s@.skip(i as int)),
        decreases v@.len() - i,
    {
        let j = find_char(&v, '\n', i);
        proof {
            next_char_skip(s@, '\n', i as int, 0);
            next_char_bounds(s@, '\n', i as int);
        }
        let ghost before = r@;
        if j == v.len() {
            r.push(text(&v, i, j));
            assert(s@.subrange(i as int, j as int) =~= s@.skip(i as int));
            assert(texts(r@) =~= texts(before) + lines_of(s@.skip(i as int)));
            return r;
        }
        proof {
            assert(s@.skip(i as int).skip(j - i + 1) =~= s@.skip(j + 1));
            assert(s@.skip(i as int).take(j - i) =~= s@.subrange(i as int, j as int));
            if i < j {
                assert(s@.subrange(i as int, j as int).drop_last() =~= s@.subrange(
                    i as int,
                    j - 1,
                ));
            }
        }
        if i < j && v[j - 1] == '\r' {
            r.push(text(&v, i, j - 1));
        } else {
            r.push(text(&v, i, j));
        }
        assert(texts(r@) =~= texts(before).push(without_return(s@.subrange(i as int, j as int))));
        assert(texts(r@) + lines_of(s@.skip(j + 1)) =~= texts(before) + lines_of(
            s@.skip(i as int),
        ));
        i = j + 1;
    }
    assert(texts(r@) + lines_of(s@.skip(i as int)) =~= texts(r@));
    r
}

/// Whether `p` stands in `s` at index `i`.
pub open spec fn stands_at(s: Seq<char>, p: Seq<char>, i: int) -> bool {
    0 <= i && i + p.len() <= s.len() && s.subrange(i, i + p.len()) == p
}

/// Whether `s` begins with `p`.
pub open spec fn begins(s: Seq<char>, p: Seq<char>) -> bool {
    stands_at(s, p, 0)
}

/// Whether `s` ends with `p`.
pub open spec fn ends(s: Seq<char>, p: Seq<char>) -> bool {
    stands_at(s, p, s.len() - p.len())
}

/// Whether `p` stands anywhere in `s`.
pub open spec fn holds(s: Seq<char>, p: Seq<char>) -> bool {
    exists|i: int| stands_at(s, p, i)
}

/// The least index from `i` on at which `p` stands in `s`.
pub open spec fn first_at(s: Seq<char>, p: Seq<char>, i: int) -> Option<int>
    decreases s.len() - i + 1,
{
    if i + p.len() > s.len() {
        None
    } else if stands_at(s, p, i) {
        Some(i)
    } else {
        first_at(s, p, i + 1)
    }
}

/// What stands in `s` before and after the first `p`.
pub open spec fn cut(s: Seq<char>, p: Seq<char>) -> Option<(Seq<char>, Seq<char>)> {
    match first_at(s, p, 0) {
        Some(i) => Some((s.take(i), s.skip(i + p.len()))),
        None => None,
    }
}

/// Where `p` first stands in `s`.
pub proof fn first_at_bounds(s: Seq<char>, p: Seq<char>, i: int)
    requires
        0 <= i,
    ensures
        first_at(s, p, i) matches Some(k) ==> i <= k && stands_at(s, p, k) && forall|j: int|
            i <= j < k ==> !stands_at(s, p, j),
        first_at(s, p, i) is None ==> forall|j: int| i <= j ==> !stands_at(s, p, j),
    decreases s.len() - i + 1,
{
    if i + p.len() <= s.len() && !stands_at(s, p, i) {
        first_at_bounds(s, p, i + 1);
    }
}

/// Whether `p` stands in `s` at index `i`.
fn is_at(s: &Vec<char>, p: &Vec<char>, i: usize) -> (r: bool)
    requires
        i <= s@.len(),
    ensures
        r == stands_at(s@, p@, i as int),
{
    if p.len() > s.len() - i {
        return false;
    }
    let mut k: usize = 0;
    while k < p.len()
        invariant
            k <= p@.len(),
            i + p@.len() <= s@.len() <= usize::MAX,
            forall|j: int| 0 <= j < k ==> s@[i + j] == p@[j],
        decreases p@.len() - k,
    {
        if s[i + k] != p[k] {
            assert(s@.subrange(i as int, i + p@.len())[k as int] != p@[k as int]);
            return false;
        }
        k = k + 1;
    }
    assert(s@.subrange(i as int, i + p@.len()) =~= p@);
    true
}

/// Whether `s` begins with `p`.
pub fn starts_with(s: &str, p: &str) -> (r: bool)
    ensures
        r == begins(s@, p@),
{
    is_at(&chars(s), &chars(p), 0)
}

/// Whether `s` ends with `p`.
pub fn ends_with(s: &str, p: &str) -> (r: bool)
    ensures
        r == ends(s@, p@),
{
    let v = chars(s);
    let q = chars(p);
    q.len() <= v.len() && is_at(&v, &q, v.len() - q.len())
}

/// The least index at which `p` stands in `s`.
pub fn find(s: &str, p: &str) -> (r: Option<usize>)
    ensures
        r is Some <==> first_at(s@, p@, 0) is Some,
        r matches Some(i) ==> first_at(s@, p@, 0) == Some(i as int) && i + p@.len() <= s@.len(),
{
    let v = chars(s);
    let q = chars(p);
    let mut i: usize = 0;
    while i < v.len()
        invariant
            v@ == s@,
            q@ == p@,
            i <= v@.len(),
            first_at(s@, p@, 0) == first_at(s@, p@, i as int),
        decreases v@.len() - i,
    {
        if q.len() > v.len() - i {
            return None;
        }
        if is_at(&v, &q, i) {
            return Some(i);
        }
        i = i + 1;
    }
    if q.len() == 0 {
        assert(stands_at(s@, p@, i as int)) by {
            assert(s@.subrange(i as int, i + p@.len()) =~= p@);
        }
        Some(i)
    } else {
        None
    }
}

/// Whether `p` stands anywhere in `s`.
pub fn contains(s: &str, p: &str) -> (r: bool)
    ensures
        r == holds(s@, p@),
{
    proof {
        first_at_bounds(s@, p@, 0);
    }
    find(s, p).is_some()
}

/// What stands in `s` before and after the first `p`.
pub fn split_once(s: &str, p: &str) -> (r: Option<(String, String)>)
    ensures
        r is Some <==> cut(s@, p@) is Some,
        r matches Some(q) ==> cut(s@, p@) == Some((q.0@, q.1@)),
{
    match find(s, p) {
        None => None,
        Some(i) => {
            let v = chars(s);
            let n: usize = chars(p).len();
            proof {
                first_at_bounds(s@, p@, 0);
                assert(s@.subrange(0, i as int) =~= s@.take(i as int));
                assert(s@.subrange(i + n, s@.len() as int) =~= s@.skip(i + n));
            }
            let len: usize = v.len();
            Some((text(&v, 0, i), text(&v, i + n, len)))
        },
    }
}

/// What follows `p` at the start of `s`.
pub fn strip_prefix(s: &str, p: &str) -> (r: Option<String>)
    ensures
        r is Some <==> begins(s@, p@),
        r matches Some(t) ==> t@ == s@.skip(p@.len() as int),
{
    if starts_with(s, p) {
        let v = chars(s);
        let n: usize = chars(p).len();
        let len: usize = v.len();
        assert(s@.subrange(n as int, len as int) =~= s@.skip(n as int));
        Some(text(&v, n, len))
    } else {
        None
    }
}

/// The first `n` characters of `s`, or all of them.
pub open spec fn first_chars(s: Seq<char>, n: int) -> Seq<char> {
    if s.len() <= n {
        s
    } else {
        s.take(n)
    }
}

/// The first `n` characters of `s`, or all of them.
pub fn take_chars(s: &str, n: usize) -> (r: String)
    ensures
        r@ == first_chars(s@, n as int),
{
    let v = chars(s);
    let m: usize = if v.len() <= n { v.len() } else { n };
    assert(s@.subrange(0, m as int) =~= first_chars(s@, n as int));
    text(&v, 0, m)
}

/// `parts` one behind the other, with `sep` between each two.
pub open spec fn joined(parts: Seq<Seq<char>>, sep: Seq<char>) -> Seq<char>
    decreases parts.len(),
{
    if parts.len() == 0 {
        Seq::empty()
    } else if parts.len() == 1 {
        parts[0]
    } else {
        joined(parts.drop_last(), sep) + sep + parts.last()
    }
}

/// `parts` one behind the other, with `sep` between each two.
pub fn join(parts: &Vec<String>, sep: &str) -> (r: String)
    ensures
        r@ == joined(texts(parts@), sep@),
{
    let mut r = String::new();
    let mut i: usize = 0;
    assert(texts(parts@).take(0) =~= Seq::<Seq<char>>::empty());
    while i < parts.len()
        invariant
            i <= parts@.len(),
            r@ == joined(texts(parts@).take(i as int), sep@),
        decreases parts@.len() - i,
    {
        let ghost before = r@;
        if i > 0 {
            r.append(sep);
        }
        r.append(parts[i].as_str());
        proof {
            let all = texts(parts@);
            assert(all.take(i + 1).drop_last() =~= all.take(i as int));
            assert(all.take(i + 1).last() == parts@[i as int]@);
            if i == 0 {
                assert(r@ =~= parts@[0]@);
            }
        }
        i = i + 1;
    }
    assert(texts(parts@).take(i as int) =~= texts(parts@));
    r
}

/// Taking the first part off what is joined.
pub proof fn joined_front(parts: Seq<Seq<char>>, sep: Seq<char>)
    requires
        parts.len() >= 2,
    ensures
        joined(parts, sep) == parts[0] + sep + joined(parts.skip(1), sep),
    decreases parts.len(),
{
    if parts.len() == 2 {
        assert(parts.drop_last()[0] == parts[0]);
        assert(parts.skip(1)[0] == parts[1]);
        assert(joined(parts.drop_last(), sep) == parts[0]);
    } else {
        joined_front(parts.drop_last(), sep);
        assert(parts.drop_last().skip(1) =~= parts.skip(1).drop_last());
        assert(parts.skip(1).last() == parts.last());
        assert(joined(parts, sep) =~= parts[0] + sep + joined(parts.skip(1), sep));
    }
}

/// Parts without `c` are the pieces of what they give when joined by `c`.
pub proof fn pieces_of_joined(parts: Seq<Seq<char>>, c: char)
    requires
        parts.len() > 0,
        forall|i: int, j: int|
            0 <= i < parts.len() && 0 <= j < parts[i].len() ==> #[trigger] parts[i][j] != c,
    ensures
        pieces(joined(parts, seq![c]), c) == parts,
    decreases parts.len(),
{
    let s = joined(parts, seq![c]);
    let n = parts[0].len() as int;
    if parts.len() == 1 {
        next_char_bounds(s, c, 0);
        assert(s == parts[0]);
        assert(next_char(s, c, 0) == n) by {
            if next_char(s, c, 0) < n {
                assert(parts[0][next_char(s, c, 0)] == c);
            }
        }
        assert(pieces(s, c) =~= parts);
    } else {
        joined_front(parts, seq![c]);
        let rest = joined(parts.skip(1), seq![c]);
        assert(s[n] == c);
        next_char_bounds(s, c, 0);
        assert(next_char(s, c, 0) == n) by {
            let k = next_char(s, c, 0);
            if k < n {
                assert(parts[0][k] == s[k]);
            }
        }
        assert(s.take(n) =~= parts[0]);
        assert(s.skip(n + 1) =~= rest);
        assert forall|i: int, j: int|
            0 <= i < parts.skip(1).len() && 0 <= j < parts.skip(1)[i].len() implies #[trigger] parts.skip(
            1,
        )[i][j] != c by {
            assert(parts.skip(1)[i] == parts[i + 1]);
        }
        pieces_of_joined(parts.skip(1), c);
        assert(pieces(s, c) =~= parts);
    }
}

/// The pieces of `s` give `s` when joined by what they were split at.
pub proof fn joined_of_pieces(s: Seq<char>, c: char)
    ensures
        pieces(s, c).len() > 0,
        joined(pieces(s, c), seq![c]) == s,
    decreases s.len(),
{
    next_char_bounds(s, c, 0);
    let i = next_char(s, c, 0);
    if i < s.len() {
        joined_of_pieces(s.skip(i + 1), c);
        let p = pieces(s, c);
        joined_front(p, seq![c]);
        assert(p.skip(1) =~= pieces(s.skip(i + 1), c));
        assert(s =~= s.take(i) + seq![c] + s.skip(i + 1));
    }
}

/// Where the characters of something joined come from.
pub proof fn joined_chars(parts: Seq<Seq<char>>, sep: Seq<char>, k: int)
    requires
        0 <= k < joined(parts, sep).len(),
    ensures
        (exists|i: int, j: int|
            0 <= i < parts.len() && 0 <= j < parts[i].len() && #[trigger] parts[i][j] == joined(
                parts,
                sep,
            )[k]) || (exists|j: int| 0 <= j < sep.len() && #[trigger] sep[j] == joined(
            parts,
            sep,
        )[k]),
    decreases parts.len(),
{
    if parts.len() == 1 {
        assert(parts[0][k] == joined(parts, sep)[k]);
    } else {
        let front = joined(parts.drop_last(), sep);
        if k < front.len() {
            joined_chars(parts.drop_last(), sep, k);
            if exists|i: int, j: int|
                0 <= i < parts.drop_last().len() && 0 <= j < parts.drop_last()[i].len()
                    && #[trigger] parts.drop_last()[i][j] == front[k] {
                let (i, j) = choose|i: int, j: int|
                    0 <= i < parts.drop_last().len() && 0 <= j < parts.drop_last()[i].len()
                        && #[trigger] parts.drop_last()[i][j] == front[k];
                assert(parts[i][j] == joined(parts, sep)[k]);
            }
        } else if k < front.len() + sep.len() {
            assert(sep[k - front.len()] == joined(parts, sep)[k]);
        } else {
            assert(parts[parts.len() - 1][k - front.len() - sep.len()] == joined(parts, sep)[k]);
        }
    }
}

/// A copy of a list of strings.
pub fn copy_texts(v: &Vec<String>) -> (r: Vec<String>)
    ensures
        texts(r@) == texts(v@),
        r@ == v@,
{
    let mut r: Vec<String> = Vec::new();
    let mut i: usize = 0;
    while i < v.len()
        invariant
            i <= v@.len(),
            r@ == v@.take(i as int),
        decreases v@.len() - i,
    {
        r.push(v[i].clone());
        i = i + 1;
        assert(v@.take(i as int) =~= v@.take(i - 1).push(v@[i - 1]));
    }
    assert(v@.take(i as int) =~= v@);
    r
}

/// Puts the texts `more` behind those of `v`.
pub fn append_texts(v: &mut Vec<String>, more: Vec<String>)
    ensures
        texts(final(v)@) == texts(old(v)@) + texts(more@),
{
    let ghost before = v@;
    let mut rest = more;
    v.append(&mut rest);
    assert(texts(v@) =~= texts(before) + texts(more@));
}

/// Puts the text `s` behind those of `v`.
pub fn push_text(v: &mut Vec<String>, s: &str)
    ensures
        texts(final(v)@) == texts(old(v)@).push(s@),
{
    let ghost before = v@;
    v.push(s.to_owned());
    assert(texts(v@) =~= texts(before).push(s@));
}

/// The text of an optional string slice.
pub open spec fn str_text(s: Option<&str>) -> Option<Seq<char>> {
    match s {
        Some(t) => Some(t@),
        None => None,
    }
}

/// The text of an optional string.
pub open spec fn option_text(s: Option<String>) -> Option<Seq<char>> {
    match s {
        Some(t) => Some(t@),
        None => None,
    }
}

/// Whether `s` is white space only.
pub open spec fn blank(s: Seq<char>) -> bool {
    forall|i: int| 0 <= i < s.len() ==> white(#[trigger] s[i])
}

/// White space around a text is taken away, all of it, and nothing else is.
pub proof fn trimming_takes_white_space_away(a: Seq<char>, t: Seq<char>, b: Seq<char>)
    requires
        blank(a),
        blank(b),
        t.len() > 0 ==> !white(t[0]) && !white(t.last()),
    ensures
        trimmed(a + t + b) == t,
{
    let s = a + t + b;
    next_bounds(s, 0);
    let start = next_black(s, 0);
    if t.len() > 0 {
        assert(s[a.len() as int] == t[0]);
        if start < a.len() {
            assert(s[start] == a[start]);
        }
        let rest = trimmed_start(s);
        assert(rest =~= t + b);
        let n = rest.len() as int;
        black_end_bounds(rest, n);
        let end = black_end(rest, n);
        assert(rest[t.len() - 1] == t.last());
        if end > t.len() {
            assert(rest[end - 1] == b[end - 1 - t.len()]);
        }
        assert(trimmed(s) =~= t);
    } else {
        if start < s.len() {
            if start < a.len() {
                assert(s[start] == a[start]);
            } else {
                assert(s[start] == b[start - a.len()]);
            }
        }
        let rest = trimmed_start(s);
        assert(rest.len() == 0);
        black_end_bounds(rest, 0);
        assert(trimmed(s) =~= t);
    }
}

/// A text begins with white space, then comes what is left when it is taken away, and then
/// white space.
pub proof fn what_trimming_takes_away(s: Seq<char>) -> (r: (Seq<char>, Seq<char>))
    ensures
        blank(r.0),
        blank(r.1),
        s == r.0 + trimmed(s) + r.1,
        trimmed(s).len() > 0 ==> !white(trimmed(s)[0]) && !white(trimmed(s).last()),
{
    next_bounds(s, 0);
    let rest = trimmed_start(s);
    let n = rest.len() as int;
    black_end_bounds(rest, n);
    let end = black_end(rest, n);
    let a = s.take(next_black(s, 0));
    let b = rest.skip(end);
    assert(s =~= a + trimmed(s) + b);
    (a, b)
}

/// The words of a text are its runs of anything but white space, from the first to the last.
pub proof fn words_are_found_one_by_one(a: Seq<char>, word: Seq<char>, rest: Seq<char>)
    requires
        blank(a),
        word.len() > 0,
        forall|i: int| 0 <= i < word.len() ==> !white(#[trigger] word[i]),
        rest.len() > 0 ==> white(rest[0]),
    ensures
        words(a) == Seq::<Seq<char>>::empty(),
        words(a + word + rest) == seq![word] + words(rest),
{
    next_bounds(a, 0);
    if next_black(a, 0) < a.len() {
        assert(white(a[next_black(a, 0)]));
    }
    let s = a + word + rest;
    next_bounds(s, 0);
    let i = next_black(s, 0);
    assert(s[a.len() as int] == word[0]);
    if i < a.len() {
        assert(s[i] == a[i]);
    }
    assert(i == a.len());
    next_bounds(s, i);
    let j = next_white(s, i);
    if j < i + word.len() {
        assert(s[j] == word[j - i]);
    }
    if j > i + word.len() {
        assert(s[(i + word.len()) as int] == rest[0]);
    }
    assert(s.subrange(i, j) =~= word);
    assert(s.skip(j) =~= rest);
}

/// A text without line feeds is one line, and none where it is empty. A line feed, or a
/// carriage return and a line feed, ends a line, and the lines behind it are those of what is
/// left.
pub proof fn lines_are_found_one_by_one(line: Seq<char>, rest: Seq<char>)
    requires
        forall|i: int| 0 <= i < line.len() ==> #[trigger] line[i] != '\n',
    ensures
        line.len() == 0 ==> lines_of(line) == Seq::<Seq<char>>::empty(),
        line.len() > 0 ==> lines_of(line) == seq![line],
        (line.len() == 0 || line.last() != '\r') ==> lines_of(line + seq!['\n'] + rest) == seq![line]
            + lines_of(rest),
        lines_of(line + seq!['\r', '\n'] + rest) == seq![line] + lines_of(rest),
{
    next_char_bounds(line, '\n', 0);
    let s = line + seq!['\n'] + rest;
    next_char_bounds(s, '\n', 0);
    let i = next_char(s, '\n', 0);
    assert(s[line.len() as int] == '\n');
    if i < line.len() {
        assert(s[i] == line[i]);
    }
    assert(s.take(i) =~= line);
    assert(s.skip(i + 1) =~= rest);
    let t = line + seq!['\r', '\n'] + rest;
    next_char_bounds(t, '\n', 0);
    let j = next_char(t, '\n', 0);
    assert(t[line.len() as int + 1] == '\n');
    assert(t[line.len() as int] == '\r');
    if j < line.len() {
        assert(t[j] == line[j]);
    }
    assert(j == line.len() + 1);
    assert(t.take(j) =~= line.push('\r'));
    assert(line.push('\r').drop_last() =~= line);
    assert(t.skip(j + 1) =~= rest);
}

/// A text is cut at the first place where something stands in it, and nowhere else.
pub proof fn texts_are_cut_at_the_first_place(s: Seq<char>, p: Seq<char>)
    ensures
        cut(s, p) is Some <==> holds(s, p),
        cut(s, p) matches Some((a, b)) ==> s == a + p + b && forall|k: int|
            0 <= k < a.len() ==> !#[trigger] stands_at(s, p, k),
{
    first_at_bounds(s, p, 0);
    if let Some(i) = first_at(s, p, 0) {
        assert(stands_at(s, p, i));
        assert(s =~= s.take(i) + p + s.skip(i + p.len())) by {
            assert(s.subrange(i, i + p.len()) =~= p);
        }
    } else if holds(s, p) {
        let k = choose|k: int| stands_at(s, p, k);
        assert(0 <= k);
    }
}

/// Capitals of ASCII become their small letters, and every other character stays.
pub proof fn lowering_changes_capitals_only(s: Seq<char>, i: int)
    requires
        0 <= i < s.len(),
    ensures
        lowered(s).len() == s.len(),
        'A' <= s[i] <= 'Z' ==> lowered(s)[i] as int - 'a' as int == s[i] as int - 'A' as int,
        !('A' <= s[i] <= 'Z') ==> lowered(s)[i] == s[i],
{
}

/// Among the characters of ASCII, white space is the space, the tabulators, the line and form
/// feeds and the carriage return. Control characters are those below the space, and the last.
pub proof fn white_space_of_ascii(c: char)
    requires
        c < '\u{80}',
    ensures
        white(c) <==> c == ' ' || c == '\t' || c == '\n' || c == '\u{b}' || c == '\u{c}' || c
            == '\r',
        control(c) <==> c < ' ' || c == '\u{7f}',
{
}

/// What lists and optional texts hold is what their items hold.
pub proof fn what_lists_hold(v: Seq<String>, i: int, s: String, t: &str)
    ensures
        texts(v).len() == v.len(),
        0 <= i < v.len() ==> texts(v)[i] == v[i]@,
        option_text(Some(s)) == Some(s@),
        option_text(None) is None,
        str_text(Some(t)) == Some(t@),
        str_text(None) is None,
{
}

/// The first characters of a text are all of them where there are no more.
pub proof fn what_first_characters_are(s: Seq<char>, n: int)
    requires
        0 <= n,
    ensures
        s.len() <= n ==> first_chars(s, n) == s,
        s.len() > n ==> first_chars(s, n).len() == n && first_chars(s, n) == s.subrange(0, n),
{
    if s.len() > n {
        assert(s.take(n) =~= s.subrange(0, n));
    }
}

} // verus!
