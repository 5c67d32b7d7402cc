//! Paths as text, for systems with `/` between the parts of a path and for Windows.

use crate::text::{begins, chars, option_text, same, starts_with, text};
use vstd::prelude::*;

verus! {

/// How a system writes its paths.
#[derive(Clone, Copy, Debug, PartialEq, Eq, Structural)]
pub enum PathStyle {
    /// With `/` between the parts.
    Posix,
    /// With `\` or `/` between the parts, behind a drive or a share.
    Windows,
}

/// Whether `c` stands between the parts of a path.
pub open spec fn separator(style: PathStyle, c: char) -> bool {
    c == '/' || (style == PathStyle::Windows && c == '\\')
}

/// The length of the drive that a Windows path begins with.
pub open spec fn drive_len(style: PathStyle, p: Seq<char>) -> int {
    if style == PathStyle::Windows && p.len() >= 2 && p[1] == ':' && ('a' <= p[0] <= 'z' || 'A'
        <= p[0] <= 'Z') {
        2
    } else {
        0
    }
}

/// The least index from `i` on that holds a separator, or the length of `p`.
pub open spec fn next_separator(style: PathStyle, p: Seq<char>, i: int) -> int
    decreases p.len() - i,
{
    if i >= p.len() {
        p.len() as int
    } else if separator(style, p[i]) {
        i
    } else {
        next_separator(style, p, i + 1)
    }
}

/// Whether a Windows path begins with the name of another machine.
pub open spec fn shared(style: PathStyle, p: Seq<char>) -> bool {
    style == PathStyle::Windows && p.len() >= 2 && separator(style, p[0]) && separator(style, p[1])
}

/// Whether a Windows path begins with the mark of a share that is taken as it is.
pub open spec fn verbatim_share(style: PathStyle, p: Seq<char>) -> bool {
    style == PathStyle::Windows && begins(p, "\\\\?\\UNC\\"@)
}

/// Where the machine and its share begin that a path begins with.
pub open spec fn machine_start(style: PathStyle, p: Seq<char>) -> int {
    if verbatim_share(style, p) {
        8
    } else {
        2
    }
}

/// The length of the drive, or of the machine and its share, that a path begins with.
pub open spec fn prefix_len(style: PathStyle, p: Seq<char>) -> int {
    if shared(style, p) {
        let machine = next_separator(style, p, machine_start(style, p));
        if machine < p.len() {
            next_separator(style, p, machine + 1)
        } else {
            machine
        }
    } else {
        drive_len(style, p)
    }
}

/// Whether a path means the same in every directory.
pub open spec fn absolute(style: PathStyle, p: Seq<char>) -> bool {
    match style {
        PathStyle::Posix => p.len() > 0 && p[0] == '/',
        PathStyle::Windows => shared(style, p) || (drive_len(style, p) == 2 && p.len() > 2
            && separator(style, p[2])),
    }
}

/// `p` as seen from the directory `base`: `p` itself where it is absolute or names a
/// drive; on Windows the drive or share of `base` and `p` where `p` begins with a
/// separator; and else `base`, one separator and `p`.
pub open spec fn placed(style: PathStyle, base: Seq<char>, p: Seq<char>) -> Seq<char> {
    if absolute(style, p) || drive_len(style, p) > 0 {
        p
    } else if p.len() > 0 && separator(style, p[0]) {
        base.take(prefix_len(style, base)) + p
    } else if base.len() == 0 || separator(style, base.last()) || (drive_len(style, base) == 2
        && base.len() == 2) {
        base + p
    } else if style == PathStyle::Windows {
        base + seq!['\\'] + p
    } else {
        base + seq!['/'] + p
    }
}

/// What the next index of a separator is.
pub proof fn next_separator_bounds(style: PathStyle, p: Seq<char>, i: int)
    requires
        i <= p.len(),
    ensures
        i <= next_separator(style, p, i) <= p.len(),
        forall|k: int|
            i <= k < next_separator(style, p, i) ==> !separator(style, #[trigger] p[k]),
        next_separator(style, p, i) < p.len() ==> separator(
            style,
            p[next_separator(style, p, i)],
        ),
    decreases p.len() - i,
{
    if i < p.len() {
        next_separator_bounds(style, p, i + 1);
    }
}

/// The drive or share of a path is a part of it.
pub proof fn prefix_bounds(style: PathStyle, p: Seq<char>)
    ensures
        0 <= prefix_len(style, p) <= p.len(),
{
    if shared(style, p) {
        let start = machine_start(style, p);
        machine_bounds(style, p);
        next_separator_bounds(style, p, start);
        let machine = next_separator(style, p, start);
        if machine < p.len() {
            next_separator_bounds(style, p, machine + 1);
        }
    }
}

proof fn machine_bounds(style: PathStyle, p: Seq<char>)
    requires
        shared(style, p),
    ensures
        2 <= machine_start(style, p) <= p.len(),
{
    reveal_strlit("\\\\?\\UNC\\");
}

/// Whether `c` stands between the parts of a path.
pub fn is_separator(style: PathStyle, c: char) -> (r: bool)
    ensures
        r == separator(style, c),
{
    c == '/' || (style == PathStyle::Windows && c == '\\')
}

/// Whether a Windows path begins with a drive.
pub fn has_drive(style: PathStyle, v: &Vec<char>) -> (r: bool)
    ensures
        r == (drive_len(style, v@) == 2),
        !r ==> drive_len(style, v@) == 0,
{
    style == PathStyle::Windows && v.len() >= 2 && v[1] == ':' && (('a' <= v[0] && v[0] <= 'z')
        || ('A' <= v[0] && v[0] <= 'Z'))
}

/// Whether a Windows path begins with the name of another machine.
pub fn is_shared(style: PathStyle, v: &Vec<char>) -> (r: bool)
    ensures
        r == shared(style, v@),
{
    style == PathStyle::Windows && v.len() >= 2 && is_separator(style, v[0]) && is_separator(
        style,
        v[1],
    )
}

/// The least index from `i` on that holds a separator, or the length of the path.
pub fn find_separator(style: PathStyle, v: &Vec<char>, i: usize) -> (r: usize)
    requires
        i <= v@.len(),
    ensures
        r == next_separator(style, v@, i as int),
        i <= r <= v@.len(),
{
    let mut k: usize = i;
    while k < v.len() && !is_separator(style, v[k])
        invariant
            i <= k <= v@.len(),
            next_separator(style, v@, i as int) == next_separator(style, v@, k as int),
        decreases v@.len() - k,
    {
        k = k + 1;
    }
    k
}

/// The length of the drive, or of the machine and its share, that a path begins with.
pub fn find_prefix(style: PathStyle, v: &Vec<char>) -> (r: usize)
    ensures
        r == prefix_len(style, v@),
        r <= v@.len(),
{
    if is_shared(style, v) {
        proof {
            machine_bounds(style, v@);
        }
        let len: usize = v.len();
        let whole = text(v, 0, len);
        assert(whole@ =~= v@);
        let start: usize = if style == PathStyle::Windows && starts_with(
            whole.as_str(),
            "\\\\?\\UNC\\",
        ) {
            8
        } else {
            2
        };
        let machine: usize = find_separator(style, v, start);
        if machine < v.len() {
            find_separator(style, v, machine + 1)
        } else {
            machine
        }
    } else if has_drive(style, v) {
        2
    } else {
        0
    }
}

/// Whether a path means the same in every directory.
pub fn is_absolute(style: PathStyle, p: &str) -> (r: bool)
    ensures
        r == absolute(style, p@),
{
    let v = chars(p);
    match style {
        PathStyle::Posix => v.len() > 0 && v[0] == '/',
        PathStyle::Windows => is_shared(style, &v) || (has_drive(style, &v) && v.len() > 2
            && is_separator(style, v[2])),
    }
}

/// `p` as seen from the directory `base`.
pub fn join_path(style: PathStyle, base: &str, p: &str) -> (r: String)
    ensures
        r@ == placed(style, base@, p@),
{
    let v = chars(p);
    if is_absolute(style, p) || has_drive(style, &v) {
        return p.to_owned();
    }
    let b = chars(base);
    if v.len() > 0 && is_separator(style, v[0]) {
        let n: usize = find_prefix(style, &b);
        let mut r = text(&b, 0, n);
        assert(base@.subrange(0, n as int) =~= base@.take(n as int));
        r.append(p);
        return r;
    }
    let mut r = base.to_owned();
    if b.len() > 0 && !is_separator(style, b[b.len() - 1]) && !(has_drive(style, &b) && b.len()
        == 2) {
        if style == PathStyle::Windows {
            r.push('\\');
        } else {
            r.push('/');
        }
    }
    r.append(p);
    assert(r@ =~= placed(style, base@, p@));
    r
}

/// A path as seen from an absolute directory is absolute, unless it names a drive without
/// starting at its root.
pub proof fn placed_is_absolute(style: PathStyle, base: Seq<char>, p: Seq<char>)
    requires
        absolute(style, base),
        absolute(style, p) || drive_len(style, p) == 0,
    ensures
        absolute(style, placed(style, base, p)),
{
    let r = placed(style, base, p);
    if !absolute(style, p) {
        if style == PathStyle::Windows && p.len() > 0 && separator(style, p[0]) {
            prefix_bounds(style, base);
            if shared(style, base) {
                let start = machine_start(style, base);
                machine_bounds(style, base);
                next_separator_bounds(style, base, start);
                let machine = next_separator(style, base, start);
                if machine < base.len() {
                    next_separator_bounds(style, base, machine + 1);
                }
                assert(prefix_len(style, base) >= 2);
                assert(r[0] == base[0] && r[1] == base[1]);
            } else {
                assert(r[0] == base[0] && r[1] == base[1] && r[2] == p[0]);
            }
        } else {
            assert(r[0] == base[0]);
            if style == PathStyle::Windows {
                assert(r[1] == base[1]);
                if !shared(style, base) {
                    assert(r[2] == base[2]);
                }
            }
        }
    }
}

/// The end of `p` without trailing separators and trailing parts `.`, looking at the
/// first `n` characters and not before `low`.
pub open spec fn name_end(style: PathStyle, p: Seq<char>, low: int, n: int) -> int
    decreases n - low,
{
    if n <= low {
        low
    } else if separator(style, p[n - 1]) {
        name_end(style, p, low, n - 1)
    } else if n >= low + 2 && p[n - 1] == '.' && separator(style, p[n - 2]) {
        name_end(style, p, low, n - 1)
    } else {
        n
    }
}

/// The start of the last part of the first `n` characters of `p`.
pub open spec fn name_start(style: PathStyle, p: Seq<char>, low: int, n: int) -> int
    decreases n - low,
{
    if n <= low || separator(style, p[n - 1]) {
        n
    } else {
        name_start(style, p, low, n - 1)
    }
}

/// The last part of a path, behind its drive or share. `None` where there is none, or
/// where it is `..`.
pub open spec fn file_name(style: PathStyle, p: Seq<char>) -> Option<Seq<char>> {
    let low = prefix_len(style, p);
    let end = name_end(style, p, low, p.len() as int);
    let start = name_start(style, p, low, end);
    let name = p.subrange(start, end);
    if name.len() == 0 || name == seq!['.', '.'] || (start == low && name == seq!['.']) {
        None
    } else {
        Some(name)
    }
}

/// The last part of a path, behind its drive or share.
pub fn find_file_name(style: PathStyle, p: &str) -> (r: Option<String>)
    ensures
        option_text(r) == file_name(style, p@),
{
    let v = chars(p);
    let low: usize = find_prefix(style, &v);
    let len: usize = v.len();
    let end: usize = find_end(style, &v, low, len);
    let start: usize = find_start(style, &v, low, end);
    let name = text(&v, start, end);
    proof {
        reveal_strlit("..");
        reveal_strlit(".");
        assert(".."@ =~= seq!['.', '.']);
        assert("."@ =~= seq!['.']);
    }
    if start == end || same(name.as_str(), "..") || (start == low && same(name.as_str(), ".")) {
        None
    } else {
        Some(name)
    }
}

/// The path without its last part. `None` where there is no last part.
pub open spec fn parent(style: PathStyle, p: Seq<char>) -> Option<Seq<char>> {
    let low = prefix_len(style, p);
    let end = name_end(style, p, low, p.len() as int);
    let start = name_start(style, p, low, end);
    let cut = name_end(style, p, low, start);
    if start == end {
        None
    } else if cut == low && low < start {
        Some(p.take(low + 1))
    } else {
        Some(p.take(cut))
    }
}

fn find_end(style: PathStyle, v: &Vec<char>, low: usize, n: usize) -> (r: usize)
    requires
        low <= n <= v@.len(),
    ensures
        r == name_end(style, v@, low as int, n as int),
        low <= r <= n,
{
    let mut end: usize = n;
    while end > low && (is_separator(style, v[end - 1]) || (end - low >= 2 && v[end - 1] == '.'
        && is_separator(style, v[end - 2])))
        invariant
            low <= end <= n <= v@.len(),
            name_end(style, v@, low as int, n as int) == name_end(
                style,
                v@,
                low as int,
                end as int,
            ),
        decreases end,
    {
        end = end - 1;
    }
    end
}

fn find_start(style: PathStyle, v: &Vec<char>, low: usize, end: usize) -> (r: usize)
    requires
        low <= end <= v@.len(),
    ensures
        r == name_start(style, v@, low as int, end as int),
        low <= r <= end,
{
    let mut start: usize = end;
    while start > low && !is_separator(style, v[start - 1])
        invariant
            low <= start <= end <= v@.len(),
            name_start(style, v@, low as int, end as int) == name_start(
                style,
                v@,
                low as int,
                start as int,
            ),
        decreases start,
    {
        start = start - 1;
    }
    start
}

/// The path without its last part.
pub fn find_parent(style: PathStyle, p: &str) -> (r: Option<String>)
    ensures
        option_text(r) == parent(style, p@),
{
    let v = chars(p);
    let low: usize = find_prefix(style, &v);
    let len: usize = v.len();
    let end: usize = find_end(style, &v, low, len);
    let start: usize = find_start(style, &v, low, end);
    let cut: usize = find_end(style, &v, low, start);
    if start == end {
        return None;
    }
    let n: usize = if cut == low && low < start {
        low + 1
    } else {
        cut
    };
    assert(p@.subrange(0, n as int) =~= p@.take(n as int));
    Some(text(&v, 0, n))
}

proof fn name_starts_behind(style: PathStyle, p: Seq<char>, low: int, start: int, n: int)
    requires
        0 <= low <= start <= n <= p.len(),
        start == low || separator(style, p[start - 1]),
        forall|k: int| start <= k < n ==> !separator(style, #[trigger] p[k]),
    ensures
        name_start(style, p, low, n) == start,
    decreases n,
{
    if n > start {
        assert(!separator(style, p[n - 1]));
        name_starts_behind(style, p, low, start, n - 1);
    }
}

/// Whether `s` is a name in a directory, and not the directory itself, the one above it or a
/// drive.
pub open spec fn plain(style: PathStyle, s: Seq<char>) -> bool {
    &&& s.len() > 0
    &&& s != seq!['.']
    &&& s != seq!['.', '.']
    &&& drive_len(style, s) == 0
    &&& forall|i: int| 0 <= i < s.len() ==> !separator(style, #[trigger] s[i])
}

/// A name as seen from a directory is the directory, one separator and the name. Its last part
/// is the name, and without its last part it is the directory.
pub proof fn names_in_directories(style: PathStyle, base: Seq<char>, name: Seq<char>)
    requires
        plain(style, name),
        base.len() > 0,
        !separator(style, base.last()),
        !(base.len() >= 2 && base.last() == '.' && separator(style, base[base.len() - 2])),
        style == PathStyle::Posix || (drive_len(style, base) == 2 && base.len() > 2),
    ensures
        style == PathStyle::Posix ==> placed(style, base, name) == base + seq!['/'] + name,
        style == PathStyle::Windows ==> placed(style, base, name) == base + seq!['\\'] + name,
        file_name(style, placed(style, base, name)) == Some(name),
        parent(style, placed(style, base, name)) == Some(base),
{
    let p = placed(style, base, name);
    assert(!separator(style, name[0]));
    let low = prefix_len(style, base);
    if style == PathStyle::Windows {
        assert(p[0] == base[0] && p[1] == base[1]);
    }
    assert(prefix_len(style, p) == low);
    let b = base.len() as int;
    let n = p.len() as int;
    assert(separator(style, p[b]));
    assert forall|k: int| b + 1 <= k < n implies !separator(style, #[trigger] p[k]) by {
        assert(p[k] == name[k - b - 1]);
    }
    assert(name_end(style, p, low, n) == n) by {
        assert(!separator(style, p[n - 1]));
        if p[n - 1] == '.' && separator(style, p[n - 2]) {
            assert(n - 2 == b);
            assert(name =~= seq!['.']) by {
                assert(name[0] == p[n - 1]);
            }
        }
    }
    name_starts_behind(style, p, low, b + 1, n);
    assert(p.subrange(b + 1, n) =~= name);
    assert(p[b - 1] == base.last());
    if b >= 2 {
        assert(p[b - 2] == base[b - 2]);
    }
    assert(name_end(style, p, low, b) == b);
    assert(name_end(style, p, low, b + 1) == b);
    assert(p.take(b) =~= base);
}

/// A path that starts at the root is the same from every directory. Any other path, with `/`
/// between its parts, is as seen from a directory the directory, one separator and the path.
pub proof fn paths_in_directories(base: Seq<char>, p: Seq<char>)
    ensures
        p.len() > 0 && p[0] == '/' ==> placed(PathStyle::Posix, base, p) == p,
        (p.len() == 0 || p[0] != '/') && base.len() > 0 && base.last() != '/' ==> placed(
            PathStyle::Posix,
            base,
            p,
        ) == base + seq!['/'] + p,
        (p.len() == 0 || p[0] != '/') && base.len() > 0 && base.last() == '/' ==> placed(
            PathStyle::Posix,
            base,
            p,
        ) == base + p,
        absolute(PathStyle::Posix, p) <==> p.len() > 0 && p[0] == '/',
{
}

/// A path with a drive and a separator, or with two separators at its start, is the same from
/// every directory of Windows. A path that begins with neither a drive nor a separator is as
/// seen from a directory of a drive the directory, one separator and the path.
pub proof fn paths_in_directories_of_drives(base: Seq<char>, p: Seq<char>)
    ensures
        p.len() > 2 && ('a' <= p[0] <= 'z' || 'A' <= p[0] <= 'Z') && p[1] == ':' && (p[2] == '\\'
            || p[2] == '/') ==> absolute(PathStyle::Windows, p) && placed(
            PathStyle::Windows,
            base,
            p,
        ) == p,
        p.len() > 1 && (p[0] == '\\' || p[0] == '/') && (p[1] == '\\' || p[1] == '/') ==> absolute(
            PathStyle::Windows,
            p,
        ) && placed(PathStyle::Windows, base, p) == p,
        (p.len() < 2 || p[1] != ':') && (p.len() == 0 || (p[0] != '\\' && p[0] != '/')) ==> !absolute(
            PathStyle::Windows,
            p,
        ),
        (p.len() < 2 || p[1] != ':') && (p.len() == 0 || (p[0] != '\\' && p[0] != '/')) && base.len()
            > 2 && base.last() != '\\' && base.last() != '/' ==> placed(
            PathStyle::Windows,
            base,
            p,
        ) == base + seq!['\\'] + p,
{
}

proof fn same_end(style: PathStyle, p: Seq<char>, q: Seq<char>, n: int)
    requires
        0 <= n <= p.len(),
        n <= q.len(),
        forall|k: int| 0 <= k < n ==> #[trigger] p[k] == q[k],
    ensures
        name_end(style, p, 0, n) == name_end(style, q, 0, n),
        name_start(style, p, 0, n) == name_start(style, q, 0, n),
        0 <= name_end(style, p, 0, n) <= n,
        0 <= name_start(style, p, 0, n) <= n,
    decreases n,
{
    if n > 0 {
        assert(p[n - 1] == q[n - 1]);
        if n > 1 {
            assert(p[n - 2] == q[n - 2]);
        }
        same_end(style, p, q, n - 1);
    }
}

/// With `/` between the parts of paths, a separator at the end of a path changes neither its last
/// part nor what it is without it.
pub proof fn separators_at_the_end_change_nothing(p: Seq<char>)
    ensures
        file_name(PathStyle::Posix, p.push('/')) == file_name(PathStyle::Posix, p),
        parent(PathStyle::Posix, p.push('/')) == parent(PathStyle::Posix, p),
{
    let style = PathStyle::Posix;
    let q = p.push('/');
    let n = p.len() as int;
    same_end(style, p, q, n);
    let end = name_end(style, p, 0, n);
    assert(name_end(style, q, 0, n + 1) == end);
    same_end(style, p, q, end);
    let start = name_start(style, p, 0, end);
    same_end(style, p, q, start);
    assert(q.subrange(start, end) =~= p.subrange(start, end));
    let cut = name_end(style, p, 0, start);
    assert(q.take(cut) =~= p.take(cut));
    if start > 0 {
        assert(q.take(1) =~= p.take(1));
    }
}

} // verus!
