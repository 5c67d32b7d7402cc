//! File transfers: the paths that a client may use, and the files and directories that
//! it has open.

use crate::number::{decimal, digits, digits_are_read, digits_up_to, parse_digits};
use crate::paths::{
    drive_len, find_prefix, find_separator, has_drive, is_separator, is_shared, join_path,
    next_separator, next_separator_bounds, placed, prefix_bounds, prefix_len, separator, shared,
    PathStyle,
};
use crate::text::{
    begins, chars, joined, joined_front, lower, lowered, lowering_changes_capitals_only,
    option_text, same, starts_with, strip_prefix, text, to_lower,
};
use std::collections::HashMap;
use vstd::prelude::*;
use vstd::std_specs::hash::group_hash_axioms;

verus! {

broadcast use group_hash_axioms;

/// One part of a path.
#[derive(Debug)]
pub enum Component {
    /// A drive, or a machine and its share.
    Prefix(String),
    /// The root.
    RootDir,
    /// The directory itself: `.`.
    CurDir,
    /// The directory above: `..`.
    ParentDir,
    /// A name.
    Normal(String),
}

/// One part of a path.
pub enum ComponentView {
    Prefix(Seq<char>),
    RootDir,
    CurDir,
    ParentDir,
    Normal(Seq<char>),
}

impl View for Component {
    type V = ComponentView;

    open spec fn view(&self) -> ComponentView {
        match self {
            Component::Prefix(s) => ComponentView::Prefix(s@),
            Component::RootDir => ComponentView::RootDir,
            Component::CurDir => ComponentView::CurDir,
            Component::ParentDir => ComponentView::ParentDir,
            Component::Normal(s) => ComponentView::Normal(s@),
        }
    }
}

/// The parts of a list.
pub open spec fn parts(v: Seq<Component>) -> Seq<ComponentView> {
    Seq::new(v.len(), |i: int| v[i]@)
}

/// Whether a path starts at a root.
pub open spec fn rooted(style: PathStyle, p: Seq<char>) -> bool {
    shared(style, p) || (prefix_len(style, p) < p.len() && separator(
        style,
        p[prefix_len(style, p)],
    ))
}

/// Where the names of a path begin.
pub open spec fn body_start(style: PathStyle, p: Seq<char>) -> int {
    let n = prefix_len(style, p);
    if n < p.len() && separator(style, p[n]) {
        n + 1
    } else {
        n
    }
}

/// Whether what stands between two separators is a part of the path: nothing is not,
/// and `.` is only at the start of a path without a root.
pub open spec fn counts(s: Seq<char>, first: bool) -> bool {
    s.len() > 0 && (s != seq!['.'] || first)
}

/// From where to where the parts of `p` go, from `i` on. `first` says whether the next
/// one is the first of a path without a root.
pub open spec fn spans(style: PathStyle, p: Seq<char>, i: int, first: bool) -> Seq<(int, int)>
    decreases p.len() - i + 1,
    via spans_shrink
{
    if i > p.len() {
        Seq::empty()
    } else {
        let e = next_separator(style, p, i);
        let rest = spans(style, p, e + 1, false);
        if counts(p.subrange(i, e), first) {
            seq![(i, e)] + rest
        } else {
            rest
        }
    }
}

#[via_fn]
proof fn spans_shrink(style: PathStyle, p: Seq<char>, i: int, first: bool) {
    if i <= p.len() {
        next_separator_bounds(style, p, i);
    }
}

/// What a part of a path is.
pub open spec fn part_of(s: Seq<char>) -> ComponentView {
    if s == seq!['.', '.'] {
        ComponentView::ParentDir
    } else if s == seq!['.'] {
        ComponentView::CurDir
    } else {
        ComponentView::Normal(s)
    }
}

/// From where to where the names of `p` go.
pub open spec fn body_spans(style: PathStyle, p: Seq<char>) -> Seq<(int, int)> {
    spans(style, p, body_start(style, p), !rooted(style, p))
}

/// The drive or share of `p`, and its root.
pub open spec fn head(style: PathStyle, p: Seq<char>) -> Seq<ComponentView> {
    (if prefix_len(style, p) > 0 {
        seq![ComponentView::Prefix(p.take(prefix_len(style, p)))]
    } else {
        Seq::empty()
    }) + (if rooted(style, p) {
        seq![ComponentView::RootDir]
    } else {
        Seq::empty()
    })
}

/// The parts that `p` has at these places.
pub open spec fn parts_at(p: Seq<char>, at: Seq<(int, int)>) -> Seq<ComponentView> {
    Seq::new(at.len(), |i: int| part_of(p.subrange(at[i].0, at[i].1)))
}

/// The parts of a path.
pub open spec fn components(style: PathStyle, p: Seq<char>) -> Seq<ComponentView> {
    head(style, p) + parts_at(p, body_spans(style, p))
}

/// `out` with a name put behind it. On Windows a name that begins like a drive starts
/// another path.
pub open spec fn with_name(style: PathStyle, out: Seq<ComponentView>, s: Seq<char>) -> Seq<
    ComponentView,
> {
    if drive_len(style, s) > 0 {
        seq![ComponentView::Prefix(s.take(2))] + (if s.len() > 2 {
            seq![ComponentView::Normal(s.skip(2))]
        } else {
            Seq::empty()
        })
    } else {
        out.push(ComponentView::Normal(s))
    }
}

/// `out` and one more part of a path: `..` takes the last name away, and `.` is left
/// out.
pub open spec fn normal_step(style: PathStyle, out: Seq<ComponentView>, c: ComponentView) -> Seq<
    ComponentView,
> {
    match c {
        ComponentView::ParentDir => if out.len() > 0 && out.last() is Normal {
            out.drop_last()
        } else {
            out
        },
        ComponentView::CurDir => out,
        ComponentView::Normal(s) => with_name(style, out, s),
        _ => out.push(c),
    }
}

/// A path without `.` and `..`, as far as its text tells.
pub open spec fn normalized(style: PathStyle, p: Seq<ComponentView>) -> Seq<ComponentView>
    decreases p.len(),
{
    if p.len() == 0 {
        p
    } else {
        normal_step(style, normalized(style, p.drop_last()), p.last())
    }
}

/// Whether a prefix is a drive.
pub open spec fn is_drive(s: Seq<char>) -> bool {
    s.len() > 0 && s.last() == ':' && (s.len() == 2 || (s.len() == 6 && begins(s, "\\\\?\\"@)))
}

/// Whether two prefixes are the same. The letter of a drive may be a capital or not.
pub open spec fn same_prefix(a: Seq<char>, b: Seq<char>) -> bool {
    a == b || (is_drive(a) && is_drive(b) && lowered(a) == lowered(b))
}

/// Whether two parts of paths are the same.
pub open spec fn equal_parts(a: ComponentView, b: ComponentView) -> bool {
    match (a, b) {
        (ComponentView::Prefix(s), ComponentView::Prefix(t)) => same_prefix(s, t),
        _ => a == b,
    }
}

/// Whether a path lies in or under `root`.
pub open spec fn under(root: Seq<ComponentView>, p: Seq<ComponentView>) -> bool {
    root.len() <= p.len() && forall|i: int|
        0 <= i < root.len() ==> equal_parts(#[trigger] root[i], p[i])
}

/// The separator that paths are written with.
pub open spec fn main_separator(style: PathStyle) -> char {
    match style {
        PathStyle::Posix => '/',
        PathStyle::Windows => '\\',
    }
}

/// The text of a path.
pub open spec fn path_text(style: PathStyle, p: Seq<ComponentView>) -> Seq<char> {
    text_behind(style, Seq::empty(), p)
}

/// `start` with the parts of `p` behind it.
pub open spec fn text_behind(style: PathStyle, start: Seq<char>, p: Seq<ComponentView>) -> Seq<char>
    decreases p.len(),
{
    if p.len() == 0 {
        start
    } else {
        let front = text_behind(style, start, p.drop_last());
        match p.last() {
            ComponentView::Prefix(s) => front + s,
            ComponentView::RootDir => front.push(main_separator(style)),
            ComponentView::CurDir => placed(style, front, seq!['.']),
            ComponentView::ParentDir => placed(style, front, seq!['.', '.']),
            ComponentView::Normal(s) => placed(style, front, s),
        }
    }
}

proof fn body_bounds(style: PathStyle, p: Seq<char>)
    ensures
        0 <= prefix_len(style, p) <= body_start(style, p) <= p.len(),
{
    prefix_bounds(style, p);
}

/// Where the parts of a path are.
proof fn spans_bounds(style: PathStyle, p: Seq<char>, i: int, first: bool)
    requires
        0 <= i <= p.len() + 1,
    ensures
        forall|k: int|
            0 <= k < spans(style, p, i, first).len() ==> i <= (#[trigger] spans(
                style,
                p,
                i,
                first,
            )[k]).0 < spans(style, p, i, first)[k].1 <= p.len(),
    decreases p.len() - i + 1,
{
    if i <= p.len() {
        next_separator_bounds(style, p, i);
        let e = next_separator(style, p, i);
        spans_bounds(style, p, e + 1, false);
        let rest = spans(style, p, e + 1, false);
        let all = spans(style, p, i, first);
        assert forall|k: int| 0 <= k < all.len() implies i <= (#[trigger] all[k]).0 < all[k].1
            <= p.len() by {
            if counts(p.subrange(i, e), first) {
                if k > 0 {
                    assert(all[k] == rest[k - 1]);
                }
            } else {
                assert(all[k] == rest[k]);
            }
        }
    }
}

/// From where to where a part of a path goes.
#[derive(Clone, Copy, Debug, PartialEq, Eq, Structural)]
pub struct Span {
    pub start: usize,
    pub end: usize,
}

spec fn span_views(v: Seq<Span>) -> Seq<(int, int)> {
    Seq::new(v.len(), |i: int| (v[i].start as int, v[i].end as int))
}

fn find_body(style: PathStyle, v: &Vec<char>) -> (r: (usize, bool))
    ensures
        r.0 == body_start(style, v@),
        r.1 == rooted(style, v@),
        r.0 <= v@.len(),
{
    proof {
        body_bounds(style, v@);
    }
    let n: usize = find_prefix(style, v);
    if n < v.len() && is_separator(style, v[n]) {
        (n + 1, true)
    } else {
        (n, is_shared(style, v))
    }
}

fn is_dot(v: &Vec<char>, i: usize, e: usize) -> (r: bool)
    requires
        i <= e <= v@.len(),
    ensures
        r == (v@.subrange(i as int, e as int) == seq!['.']),
{
    let r = e - i == 1 && v[i] == '.';
    proof {
        let s = v@.subrange(i as int, e as int);
        if r {
            assert(s =~= seq!['.']);
        } else if s == seq!['.'] {
            assert(s.len() == 1 && s[0] == '.');
        }
    }
    r
}

fn find_spans(style: PathStyle, v: &Vec<char>) -> (r: Vec<Span>)
    ensures
        span_views(r@) == body_spans(style, v@),
        forall|k: int| 0 <= k < r@.len() ==> (#[trigger] r@[k]).start < r@[k].end <= v@.len(),
{
    let (start, root) = find_body(style, v);
    let mut out: Vec<Span> = Vec::new();
    let mut i: usize = start;
    let mut first = !root;
    assert(span_views(out@) + body_spans(style, v@) =~= body_spans(style, v@));
    loop
        invariant
            i <= v@.len(),
            body_spans(style, v@) == span_views(out@) + spans(style, v@, i as int, first),
            forall|k: int|
                0 <= k < out@.len() ==> (#[trigger] out@[k]).start < out@[k].end <= v@.len(),
        decreases v@.len() - i,
    {
        let e: usize = find_separator(style, v, i);
        let ghost before = out@;
        let ghost rest = spans(style, v@, e + 1, false);
        let ghost was = spans(style, v@, i as int, first);
        if e > i && (first || !is_dot(v, i, e)) {
            out.push(Span { start: i, end: e });
            proof {
                assert(counts(v@.subrange(i as int, e as int), first));
                assert(span_views(out@) =~= span_views(before).push((i as int, e as int)));
                assert(span_views(before) + was =~= span_views(out@) + rest);
            }
        } else {
            proof {
                assert(!counts(v@.subrange(i as int, e as int), first));
            }
        }
        first = false;
        if e >= v.len() {
            assert(rest =~= Seq::<(int, int)>::empty());
            assert(span_views(out@) + rest =~= span_views(out@));
            return out;
        }
        i = e + 1;
    }
}

fn part(v: &Vec<char>, s: Span) -> (r: Component)
    requires
        s.start <= s.end <= v@.len(),
    ensures
        r@ == part_of(v@.subrange(s.start as int, s.end as int)),
{
    let t = text(v, s.start, s.end);
    proof {
        reveal_strlit("..");
        reveal_strlit(".");
        assert(".."@ =~= seq!['.', '.']);
        assert("."@ =~= seq!['.']);
    }
    if same(t.as_str(), "..") {
        Component::ParentDir
    } else if same(t.as_str(), ".") {
        Component::CurDir
    } else {
        Component::Normal(t)
    }
}

/// The parts of a path.
pub fn split_path(style: PathStyle, p: &str) -> (r: Vec<Component>)
    ensures
        parts(r@) == components(style, p@),
{
    let v = chars(p);
    let n: usize = find_prefix(style, &v);
    let (_, root) = find_body(style, &v);
    let mut out: Vec<Component> = Vec::new();
    if n > 0 {
        let t = text(&v, 0, n);
        assert(p@.subrange(0, n as int) =~= p@.take(n as int));
        out.push(Component::Prefix(t));
    }
    if root {
        out.push(Component::RootDir);
    }
    assert(parts(out@) =~= head(style, p@));
    let at = find_spans(style, &v);
    let ghost all = parts_at(p@, body_spans(style, p@));
    let mut i: usize = 0;
    assert(parts(out@) + all.take(0) =~= parts(out@));
    while i < at.len()
        invariant
            v@ == p@,
            span_views(at@) == body_spans(style, p@),
            all == parts_at(p@, body_spans(style, p@)),
            i <= at@.len(),
            forall|k: int| 0 <= k < at@.len() ==> (#[trigger] at@[k]).start < at@[k].end <= v@.len(),
            parts(out@) == head(style, p@) + all.take(i as int),
        decreases at@.len() - i,
    {
        let ghost before = out@;
        proof {
            assert(span_views(at@)[i as int] == (at@[i as int].start as int, at@[i as int].end as int));
        }
        let c = part(&v, at[i]);
        out.push(c);
        assert(parts(out@) =~= parts(before).push(c@));
        assert(all.take(i + 1) =~= all.take(i as int).push(all[i as int]));
        assert(parts(out@) =~= head(style, p@) + all.take(i + 1));
        i = i + 1;
    }
    assert(all.take(i as int) =~= all);
    out
}

/// A path without `.` and `..`, as far as its text tells.
pub fn normalize_lexical(style: PathStyle, p: Vec<Component>) -> (r: Vec<Component>)
    ensures
        parts(r@) == normalized(style, parts(p@)),
{
    let ghost all = parts(p@);
    let mut out: Vec<Component> = Vec::new();
    assert(parts(out@) =~= Seq::<ComponentView>::empty());
    assert(all.take(0) =~= Seq::<ComponentView>::empty());
    for c in it: p
        invariant
            it.seq() == p@,
            all == parts(p@),
            parts(out@) == normalized(style, all.take(it.index())),
    {
        let ghost before = out@;
        proof {
            let k = it.index();
            assert(all.take(k + 1).drop_last() =~= all.take(k));
            assert(all.take(k + 1).last() == c@);
        }
        match c {
            Component::ParentDir => {
                if out.len() > 0 {
                    assert(parts(before).last() == before.last()@);
                    let is_name = match out[out.len() - 1] {
                        Component::Normal(_) => true,
                        _ => false,
                    };
                    if is_name {
                        out.pop();
                        assert(parts(out@) =~= parts(before).drop_last());
                    }
                }
            },
            Component::CurDir => {},
            Component::Normal(s) => {
                let v = chars(s.as_str());
                if has_drive(style, &v) {
                    out = Vec::new();
                    let len: usize = v.len();
                    out.push(Component::Prefix(text(&v, 0, 2)));
                    assert(s@.subrange(0, 2) =~= s@.take(2));
                    if len > 2 {
                        out.push(Component::Normal(text(&v, 2, len)));
                        assert(s@.subrange(2, len as int) =~= s@.skip(2));
                    }
                    assert(parts(out@) =~= with_name(style, parts(before), s@));
                } else {
                    out.push(Component::Normal(s));
                    assert(parts(out@) =~= with_name(style, parts(before), s@));
                }
            },
            Component::Prefix(s) => {
                out.push(Component::Prefix(s));
                assert(parts(out@) =~= parts(before).push(ComponentView::Prefix(s@)));
            },
            Component::RootDir => {
                out.push(Component::RootDir);
                assert(parts(out@) =~= parts(before).push(ComponentView::RootDir));
            },
        }
    }
    assert(all.take(all.len() as int) =~= all);
    out
}

fn drive_prefix(s: &str) -> (r: bool)
    ensures
        r == is_drive(s@),
{
    let v = chars(s);
    v.len() > 0 && v[v.len() - 1] == ':' && (v.len() == 2 || (v.len() == 6 && starts_with(
        s,
        "\\\\?\\",
    )))
}

fn same_part(a: &Component, b: &Component) -> (r: bool)
    ensures
        r == equal_parts(a@, b@),
{
    match (a, b) {
        (Component::Prefix(s), Component::Prefix(t)) => same(s.as_str(), t.as_str()) || (
        drive_prefix(s.as_str()) && drive_prefix(t.as_str()) && same(
            to_lower(s.as_str()).as_str(),
            to_lower(t.as_str()).as_str(),
        )),
        (Component::RootDir, Component::RootDir) => true,
        (Component::CurDir, Component::CurDir) => true,
        (Component::ParentDir, Component::ParentDir) => true,
        (Component::Normal(s), Component::Normal(t)) => same(s.as_str(), t.as_str()),
        _ => false,
    }
}

/// Whether a path lies in or under `root`.
pub fn is_under(root: &Vec<Component>, p: &Vec<Component>) -> (r: bool)
    ensures
        r == under(parts(root@), parts(p@)),
{
    if root.len() > p.len() {
        return false;
    }
    let mut i: usize = 0;
    while i < root.len()
        invariant
            i <= root@.len() <= p@.len(),
            forall|k: int| 0 <= k < i ==> equal_parts((#[trigger] root@[k])@, p@[k]@),
        decreases root@.len() - i,
    {
        if !same_part(&root[i], &p[i]) {
            proof {
                assert(parts(root@)[i as int] == root@[i as int]@);
                assert(parts(p@)[i as int] == p@[i as int]@);
            }
            return false;
        }
        i = i + 1;
    }
    assert forall|k: int| 0 <= k < root@.len() implies equal_parts(
        #[trigger] parts(root@)[k],
        parts(p@)[k],
    ) by {
        assert(equal_parts(root@[k]@, p@[k]@));
    }
    true
}

/// The text of a path.
pub fn render(style: PathStyle, p: &Vec<Component>) -> (r: String)
    ensures
        r@ == path_text(style, parts(p@)),
{
    let start = String::new();
    assert(start@ =~= Seq::<char>::empty());
    assert(parts(p@).subrange(0, p@.len() as int) =~= parts(p@));
    let len: usize = p.len();
    render_behind(style, start, p, 0, len)
}

/// `start` with some parts of a path behind it.
fn render_behind(style: PathStyle, start: String, p: &Vec<Component>, from: usize, to: usize) -> (r:
    String)
    requires
        from <= to <= p@.len(),
    ensures
        r@ == text_behind(style, start@, parts(p@).subrange(from as int, to as int)),
{
    let ghost all = parts(p@).subrange(from as int, to as int);
    let ghost first = start@;
    let mut r = start;
    let mut i: usize = from;
    assert(all.take(0) =~= Seq::<ComponentView>::empty());
    proof {
        reveal_strlit("..");
        reveal_strlit(".");
        assert(".."@ =~= seq!['.', '.']);
        assert("."@ =~= seq!['.']);
    }
    while i < to
        invariant
            all == parts(p@).subrange(from as int, to as int),
            from <= i <= to <= p@.len(),
            r@ == text_behind(style, first, all.take(i - from)),
            ".."@ == seq!['.', '.'],
            "."@ == seq!['.'],
        decreases to - i,
    {
        proof {
            assert(all.take(i + 1 - from).drop_last() =~= all.take(i - from));
            assert(all.take(i + 1 - from).last() == p@[i as int]@);
        }
        match &p[i] {
            Component::Prefix(s) => r.append(s.as_str()),
            Component::RootDir => r.push(match style {
                PathStyle::Posix => '/',
                PathStyle::Windows => '\\',
            }),
            Component::CurDir => r = join_path(style, r.as_str(), "."),
            Component::ParentDir => r = join_path(style, r.as_str(), ".."),
            Component::Normal(s) => r = join_path(style, r.as_str(), s.as_str()),
        }
        i = i + 1;
    }
    assert(all.take(i - from) =~= all);
    r
}

/// Whether a path has neither `.` nor `..`.
pub open spec fn is_normal(p: Seq<ComponentView>) -> bool {
    forall|i: int|
        0 <= i < p.len() ==> !(#[trigger] p[i] is CurDir) && !(p[i] is ParentDir)
}

/// Normalizing leaves neither `.` nor `..` in a path.
pub proof fn normalizing_leaves_names(style: PathStyle, p: Seq<ComponentView>)
    ensures
        is_normal(normalized(style, p)),
    decreases p.len(),
{
    if p.len() > 0 {
        normalizing_leaves_names(style, p.drop_last());
    }
}

/// Whether no name of a path begins like a drive.
pub open spec fn without_drives(style: PathStyle, p: Seq<ComponentView>) -> bool {
    forall|i: int|
        0 <= i < p.len() ==> (#[trigger] p[i] matches ComponentView::Normal(s) ==> drive_len(
            style,
            s,
        ) == 0)
}

/// A path without `.` and `..` is kept. On Windows its names must not begin like a drive.
pub proof fn plain_paths_are_kept(style: PathStyle, p: Seq<ComponentView>)
    requires
        is_normal(p),
        without_drives(style, p),
    ensures
        normalized(style, p) == p,
    decreases p.len(),
{
    if p.len() > 0 {
        let front = p.drop_last();
        assert forall|i: int| 0 <= i < front.len() implies !(#[trigger] front[i] is CurDir) && !(
        front[i] is ParentDir) && (front[i] matches ComponentView::Normal(s) ==> drive_len(
            style,
            s,
        ) == 0) by {
            assert(front[i] == p[i]);
        }
        plain_paths_are_kept(style, front);
        assert(p.last() == p[p.len() - 1]);
        assert(normalized(style, p) =~= p);
    }
}

/// Normalizing a path again changes nothing. On Windows its names must not begin like a drive
/// once they are normalized.
pub proof fn normalizing_again_changes_nothing(style: PathStyle, p: Seq<ComponentView>)
    requires
        style == PathStyle::Posix || without_drives(style, normalized(style, p)),
    ensures
        normalized(style, normalized(style, p)) == normalized(style, p),
{
    normalizing_leaves_names(style, p);
    plain_paths_are_kept(style, normalized(style, p));
}

proof fn normalized_alike(
    style: PathStyle,
    a: Seq<ComponentView>,
    b: Seq<ComponentView>,
    more: Seq<ComponentView>,
)
    requires
        normalized(style, a) == normalized(style, b),
    ensures
        normalized(style, a + more) == normalized(style, b + more),
    decreases more.len(),
{
    if more.len() == 0 {
        assert(a + more =~= a);
        assert(b + more =~= b);
    } else {
        normalized_alike(style, a, b, more.drop_last());
        assert((a + more).drop_last() =~= a + more.drop_last());
        assert((b + more).drop_last() =~= b + more.drop_last());
        assert((a + more).last() == more.last());
        assert((b + more).last() == more.last());
    }
}

/// Whether parts of a path are where it starts: drives, shares and roots.
pub open spec fn starts_only(p: Seq<ComponentView>) -> bool {
    forall|i: int| 0 <= i < p.len() ==> (#[trigger] p[i] is Prefix) || p[i] is RootDir
}

proof fn starts_are_kept(style: PathStyle, start: Seq<ComponentView>)
    requires
        starts_only(start),
    ensures
        normalized(style, start) == start,
{
    assert forall|i: int| 0 <= i < start.len() implies !(#[trigger] start[i] is CurDir) && !(
    start[i] is ParentDir) && !(start[i] is Normal) by {
        assert(start[i] is Prefix || start[i] is RootDir);
    }
    plain_paths_are_kept(style, start);
}

/// At the root `..` stays at the root.
pub proof fn above_the_root_is_the_root(
    style: PathStyle,
    start: Seq<ComponentView>,
    p: Seq<ComponentView>,
)
    requires
        starts_only(start),
    ensures
        normalized(style, start + seq![ComponentView::ParentDir] + p) == normalized(
            style,
            start + p,
        ),
{
    let up = start + seq![ComponentView::ParentDir];
    starts_are_kept(style, start);
    assert(up.drop_last() =~= start);
    assert(up.last() is ParentDir);
    assert(start.len() > 0 ==> start.last() == start[start.len() - 1]);
    assert(normalized(style, up) == start);
    normalized_alike(style, up, start, p);
}

/// A path starts where it did when it is normalized. On Windows its names must not begin like
/// a drive.
pub proof fn normalizing_keeps_the_start(
    style: PathStyle,
    start: Seq<ComponentView>,
    p: Seq<ComponentView>,
)
    requires
        starts_only(start),
        style == PathStyle::Posix || without_drives(style, p),
    ensures
        normalized(style, start + p).len() >= start.len(),
        normalized(style, start + p).take(start.len() as int) == start,
    decreases p.len(),
{
    starts_are_kept(style, start);
    if p.len() == 0 {
        assert(start + p =~= start);
        assert(start.take(start.len() as int) =~= start);
    } else {
        let front = p.drop_last();
        assert forall|i: int| 0 <= i < front.len() implies (
        #[trigger] front[i] matches ComponentView::Normal(s) ==> drive_len(style, s) == 0) by {
            assert(front[i] == p[i]);
        }
        normalizing_keeps_the_start(style, start, front);
        let before = normalized(style, start + front);
        let after = normalized(style, start + p);
        assert((start + p).drop_last() =~= start + front);
        assert((start + p).last() == p[p.len() - 1]);
        if before.len() == start.len() {
            assert(before =~= before.take(start.len() as int));
            assert(before.len() > 0 ==> before.last() == start[start.len() - 1]);
        }
        assert(after.len() >= start.len());
        assert(after.take(start.len() as int) =~= before.take(start.len() as int));
    }
}

/// What a client is told about a request.
#[derive(Clone, Copy, Debug, PartialEq, Eq, Structural)]
pub enum StatusCode {
    Done,
    Eof,
    NoSuchFile,
    PermissionDenied,
    Failure,
    OpUnsupported,
}

/// The answer to a request that succeeded.
#[derive(Debug)]
pub struct Status {
    pub id: u32,
    pub status_code: StatusCode,
    pub error_message: String,
    pub language_tag: String,
}

/// The answer to the request `id`, which succeeded.
pub fn ok_status(id: u32) -> (r: Status)
    ensures
        r.id == id,
        r.status_code == StatusCode::Done,
        r.error_message@ == "Ok"@,
        r.language_tag@ == "en-US"@,
{
    Status {
        id,
        status_code: StatusCode::Done,
        error_message: "Ok".to_owned(),
        language_tag: "en-US".to_owned(),
    }
}

/// Why something could not be done with a file.
#[derive(Clone, Copy, Debug, PartialEq, Eq, Structural)]
pub enum IoFailure {
    NotFound,
    PermissionDenied,
    Other,
}

/// What a client is told of something that could not be done with a file.
pub open spec fn failure_status(e: IoFailure) -> StatusCode {
    match e {
        IoFailure::NotFound => StatusCode::NoSuchFile,
        IoFailure::PermissionDenied => StatusCode::PermissionDenied,
        IoFailure::Other => StatusCode::Failure,
    }
}

/// What a client is told of something that could not be done with a file.
pub fn io_to_status(e: IoFailure) -> (r: StatusCode)
    ensures
        r == failure_status(e),
{
    match e {
        IoFailure::NotFound => StatusCode::NoSuchFile,
        IoFailure::PermissionDenied => StatusCode::PermissionDenied,
        IoFailure::Other => StatusCode::Failure,
    }
}

/// The least index from `i` on that holds no `/`, or the length of `s`.
pub open spec fn after_slashes(s: Seq<char>, i: int) -> int
    decreases s.len() - i,
{
    if i >= s.len() || s[i] != '/' {
        i
    } else {
        after_slashes(s, i + 1)
    }
}

/// A path of a client as seen from the directory that it is held to.
pub open spec fn inside(style: PathStyle, root: Seq<char>, path: Seq<char>) -> Seq<ComponentView> {
    normalized(
        style,
        components(style, placed(style, root, path.skip(after_slashes(path, 0)))),
    )
}

/// The path that a path of a client stands for, before links are followed.
pub open spec fn lexical(style: PathStyle, root: Option<Seq<char>>, path: Seq<char>) -> Result<
    Seq<char>,
    StatusCode,
> {
    match root {
        None => Ok(path),
        Some(r) => if under(components(style, r), inside(style, r, path)) {
            Ok(path_text(style, inside(style, r, path)))
        } else {
            Err(StatusCode::PermissionDenied)
        },
    }
}

/// What there is at a path.
#[derive(Debug)]
pub enum Probe {
    /// Something, which is at this path once links are followed.
    There(String),
    /// Nothing, not even a link.
    Nothing,
    /// A link that leads to nothing: the directory that it is in, with links followed, and
    /// where it points.
    Link { parent: String, target: String },
    /// It could not be looked: no request comes to the path either.
    Closed(IoFailure),
    /// Something, but where it is once links are followed could not be found.
    Unknown(IoFailure),
}

/// What there is at a path.
pub enum ProbeView {
    There(Seq<char>),
    Nothing,
    Link { parent: Seq<char>, target: Seq<char> },
    Closed(IoFailure),
    Unknown(IoFailure),
}

impl View for Probe {
    type V = ProbeView;

    open spec fn view(&self) -> ProbeView {
        match self {
            Probe::There(s) => ProbeView::There(s@),
            Probe::Nothing => ProbeView::Nothing,
            Probe::Link { parent, target } => ProbeView::Link {
                parent: parent@,
                target: target@,
            },
            Probe::Closed(e) => ProbeView::Closed(*e),
            Probe::Unknown(e) => ProbeView::Unknown(*e),
        }
    }
}

/// How many links that lead to nothing are followed for one path.
pub const MOST_LINKS: usize = 40;

/// The search for what a path of a client stands for.
#[derive(Debug)]
pub struct Walk {
    /// The parts of the path.
    pub parts: Vec<Component>,
    /// With how few of them it is looked.
    pub base: usize,
    /// How many of the last parts are left out where it is looked.
    pub missing: usize,
    /// How many links that lead to nothing were followed.
    pub hops: usize,
}

/// The search for what a path of a client stands for.
#[verifier::ext_equal]
pub struct WalkView {
    pub parts: Seq<ComponentView>,
    pub base: nat,
    pub missing: nat,
    pub hops: nat,
}

impl View for Walk {
    type V = WalkView;

    open spec fn view(&self) -> WalkView {
        WalkView {
            parts: parts(self.parts@),
            base: self.base as nat,
            missing: self.missing as nat,
            hops: self.hops as nat,
        }
    }
}

/// Whether no more parts are left out than there are, and no more links followed than may be.
pub open spec fn walk_valid(w: WalkView) -> bool {
    w.missing <= w.parts.len() && w.hops <= MOST_LINKS
}

/// Where it is looked.
pub open spec fn walk_at(style: PathStyle, w: WalkView) -> Seq<char> {
    path_text(style, w.parts.subrange(0, w.parts.len() - w.missing))
}

/// The parts that are left out where it is looked.
pub open spec fn walk_rest(w: WalkView) -> Seq<ComponentView> {
    w.parts.subrange(w.parts.len() - w.missing, w.parts.len() as int)
}

/// What to do to find what a path of a client stands for.
#[derive(Debug)]
pub enum Lookup {
    /// Look what there is at a path.
    Look { walk: Walk, at: String },
    /// It is found, or the request fails.
    Done(Result<String, StatusCode>),
}

/// What to do to find what a path of a client stands for.
pub enum LookupView {
    Look { walk: WalkView, at: Seq<char> },
    Done(Result<Seq<char>, StatusCode>),
}

/// What a result of finding a path holds.
pub open spec fn path_result(r: Result<String, StatusCode>) -> Result<Seq<char>, StatusCode> {
    match r {
        Ok(s) => Ok(s@),
        Err(e) => Err(e),
    }
}

impl View for Lookup {
    type V = LookupView;

    open spec fn view(&self) -> LookupView {
        match self {
            Lookup::Look { walk, at } => LookupView::Look { walk: walk@, at: at@ },
            Lookup::Done(r) => LookupView::Done(path_result(*r)),
        }
    }
}

/// Look where a search has come to.
pub open spec fn look_there(style: PathStyle, w: WalkView) -> LookupView {
    LookupView::Look { walk: w, at: walk_at(style, w) }
}

/// The search for what a path of a client stands for as it begins: with the whole path.
pub open spec fn begun_at(style: PathStyle, root: Seq<char>, path: Seq<char>) -> WalkView {
    WalkView {
        parts: inside(style, root, path),
        base: components(style, root).len(),
        missing: 0,
        hops: 0,
    }
}

/// How the search for what a path of a client stands for begins.
pub open spec fn search_begins(
    style: PathStyle,
    root: Option<Seq<char>>,
    path: Seq<char>,
) -> LookupView {
    match (lexical(style, root, path), root) {
        (Ok(_), Some(r)) => look_there(style, begun_at(style, r, path)),
        (other, _) => LookupView::Done(other),
    }
}

/// Whether parts of a path are all names.
pub open spec fn names_only(p: Seq<ComponentView>) -> bool {
    forall|i: int| 0 <= i < p.len() ==> #[trigger] p[i] is Normal
}

/// The path that is found where there is something with links followed at `existing`, and
/// nothing at the parts behind it. It has to lie in or under the directory that the client is
/// held to. Where a part behind it is not a name, it leads through a directory that is not
/// there.
pub open spec fn resolved(
    style: PathStyle,
    root: Option<Seq<char>>,
    w: WalkView,
    existing: Seq<char>,
) -> Result<Seq<char>, StatusCode> {
    if root is Some && !under(components(style, root->0), components(style, existing)) {
        Err(StatusCode::PermissionDenied)
    } else if !names_only(walk_rest(w)) {
        Err(StatusCode::NoSuchFile)
    } else {
        Ok(text_behind(style, existing, walk_rest(w)))
    }
}

/// Whether a search has come to the directory that the client is held to.
pub open spec fn at_base(w: WalkView) -> bool {
    w.hops == 0 && w.parts.len() - w.missing <= w.base
}

/// Whether it is looked with one part less: where there is nothing; or where a link leads to
/// nothing, and it is the directory that the client is held to, or it is at the whole path of
/// the client and the request is about the link `itself`.
pub open spec fn goes_up(w: WalkView, probe: ProbeView, itself: bool) -> bool {
    ||| probe is Nothing
    ||| probe is Link && (at_base(w) || (itself && w.missing == 0 && w.hops == 0))
}

/// What follows where it is looked with one part less. Where there is not even the directory
/// that the client is held to, nothing can lead out of it.
pub open spec fn one_up(style: PathStyle, w: WalkView) -> LookupView {
    if w.parts.len() - w.missing > w.base {
        look_there(style, WalkView { missing: w.missing + 1, ..w })
    } else if w.hops == 0 {
        LookupView::Done(Ok(path_text(style, w.parts)))
    } else {
        LookupView::Done(Err(StatusCode::NoSuchFile))
    }
}

/// The search behind a link that leads to nothing: where the link points, and the parts that
/// were left out.
pub open spec fn behind_link(
    style: PathStyle,
    w: WalkView,
    parent: Seq<char>,
    target: Seq<char>,
) -> WalkView {
    WalkView {
        parts: components(style, placed(style, parent, target)) + walk_rest(w),
        base: 1,
        missing: 0,
        hops: w.hops + 1,
    }
}

/// What follows from what there is where it was looked.
pub open spec fn search_goes_on(
    style: PathStyle,
    root: Option<Seq<char>>,
    w: WalkView,
    probe: ProbeView,
    itself: bool,
) -> LookupView {
    if goes_up(w, probe, itself) {
        one_up(style, w)
    } else {
        match probe {
            ProbeView::There(e) => LookupView::Done(resolved(style, root, w, e)),
            ProbeView::Closed(e) => if w.hops == 0 {
                LookupView::Done(Ok(path_text(style, w.parts)))
            } else {
                LookupView::Done(Err(failure_status(e)))
            },
            ProbeView::Unknown(e) => LookupView::Done(Err(failure_status(e))),
            ProbeView::Link { parent, target } => if w.hops >= MOST_LINKS {
                LookupView::Done(Err(StatusCode::Failure))
            } else {
                look_there(style, behind_link(style, w, parent, target))
            },
            ProbeView::Nothing => one_up(style, w),
        }
    }
}

/// What a client has open.
#[derive(Clone, Copy, Debug, PartialEq, Eq, Structural)]
pub enum HandleEntry {
    /// A file.
    File,
    /// A directory with so many entries, of which so many were read.
    Dir { entries: usize, offset: usize },
}

/// How many entries of a directory a client is sent at once.
pub const READDIR_BATCH: usize = 100;

/// The file transfers of one channel.
#[derive(Debug)]
pub struct SftpSession {
    /// The directory that the client is held to. It sees it as `/`.
    pub root: Option<String>,
    /// How this machine writes its paths.
    pub style: PathStyle,
    /// What the client has open.
    pub handles: HashMap<u64, HandleEntry>,
    /// The number of the next handle.
    pub next_handle: u64,
}

/// The handle with a number, as the client knows it.
pub open spec fn handle_text(id: u64) -> Seq<char> {
    "h"@ + digits(id as nat)
}

/// What a client has open under a handle.
pub open spec fn entry(handles: Map<u64, HandleEntry>, handle: Seq<char>) -> Option<
    (u64, HandleEntry),
> {
    if exists|id: u64| handles.contains_key(id) && handle == handle_text(id) {
        let id = choose|id: u64| handles.contains_key(id) && handle == handle_text(id);
        Some((id, handles[id]))
    } else {
        None
    }
}

/// Different numbers give different handles.
pub proof fn handles_differ(a: u64, b: u64)
    requires
        handle_text(a) == handle_text(b),
    ensures
        a == b,
{
    digits_are_read(a as nat);
    digits_are_read(b as nat);
    let n = "h"@.len() as int;
    assert(handle_text(a).skip(n) =~= digits(a as nat));
    assert(handle_text(b).skip(n) =~= digits(b as nat));
}

fn handle_name(id: u64) -> (r: String)
    ensures
        r@ == handle_text(id),
{
    let mut r = "h".to_owned();
    r.append(decimal(id).as_str());
    r
}

fn are_names(p: &Vec<Component>, from: usize) -> (r: bool)
    requires
        from <= p@.len(),
    ensures
        r == names_only(parts(p@).subrange(from as int, p@.len() as int)),
{
    let ghost behind = parts(p@).subrange(from as int, p@.len() as int);
    let mut i: usize = from;
    while i < p.len()
        invariant
            from <= i <= p@.len(),
            behind == parts(p@).subrange(from as int, p@.len() as int),
            forall|k: int| 0 <= k < i - from ==> #[trigger] behind[k] is Normal,
        decreases p@.len() - i,
    {
        assert(behind[i - from] == p@[i as int]@);
        match &p[i] {
            Component::Normal(_) => {},
            _ => {
                return false;
            },
        }
        i = i + 1;
    }
    true
}

impl SftpSession {
    /// Whether every handle that is open has a number that was given out.
    pub open spec fn wf(self) -> bool {
        forall|id: u64| #[trigger] self.handles@.contains_key(id) ==> id < self.next_handle
    }

    /// The directory that the client is held to.
    pub open spec fn jail(self) -> Option<Seq<char>> {
        option_text(self.root)
    }

    /// File transfers that begin. `root` is the directory that the client is held to, with
    /// links followed.
    pub fn new(style: PathStyle, root: Option<String>) -> (r: Self)
        ensures
            r.wf(),
            r.root == root,
            r.style == style,
            r.handles@ == Map::<u64, HandleEntry>::empty(),
            r.next_handle == 0,
    {
        SftpSession { root, style, handles: HashMap::new(), next_handle: 0 }
    }

    /// Opens a handle for something, and gives its number and its name.
    pub fn alloc_handle(&mut self, entry: HandleEntry) -> (r: (u64, String))
        requires
            old(self).wf(),
            old(self).next_handle < u64::MAX,
        ensures
            final(self).wf(),
            r.0 == old(self).next_handle,
            r.1@ == handle_text(r.0),
            !old(self).handles@.contains_key(r.0),
            final(self).handles@ == old(self).handles@.insert(r.0, entry),
            final(self).next_handle == old(self).next_handle + 1,
            final(self).root == old(self).root,
            final(self).style == old(self).style,
    {
        let id: u64 = self.next_handle;
        self.next_handle = id + 1;
        self.handles.insert(id, entry);
        (id, handle_name(id))
    }

    /// What the client has open under a handle.
    pub fn lookup(&self, handle: &str) -> (r: Option<(u64, HandleEntry)>)
        ensures
            r == entry(self.handles@, handle@),
    {
        proof {
            assert forall|a: u64, b: u64|
                handle@ == handle_text(a) && handle@ == handle_text(b) implies a == b by {
                handles_differ(a, b);
            }
            assert forall|id: u64| handle@ == handle_text(id) implies {
                let n = "h"@.len() as int;
                &&& begins(handle@, "h"@)
                &&& digits_up_to(handle@.skip(n), u64::MAX as nat) == Some(id as nat)
            } by {
                let n = "h"@.len() as int;
                digits_are_read(id as nat);
                assert(handle@.skip(n) =~= digits(id as nat));
                assert(handle@.subrange(0, n) =~= "h"@);
            }
        }
        match strip_prefix(handle, "h") {
            None => None,
            Some(number) => match parse_digits(number.as_str(), u64::MAX) {
                None => None,
                Some(id) => {
                    let name = handle_name(id);
                    if !same(name.as_str(), handle) {
                        return None;
                    }
                    match self.handles.get(&id) {
                        None => None,
                        Some(e) => Some((id, *e)),
                    }
                },
            },
        }
    }

    /// Closes a handle.
    pub fn close(&mut self, handle: &str) -> (r: Option<u64>)
        requires
            old(self).wf(),
        ensures
            final(self).wf(),
            entry(final(self).handles@, handle@) is None,
            r == (match entry(old(self).handles@, handle@) {
                Some((id, _)) => Some(id),
                None => None,
            }),
            final(self).handles@ == (match entry(old(self).handles@, handle@) {
                Some((id, _)) => old(self).handles@.remove(id),
                None => old(self).handles@,
            }),
            final(self).next_handle == old(self).next_handle,
            final(self).root == old(self).root,
            final(self).style == old(self).style,
    {
        match self.lookup(handle) {
            None => None,
            Some((id, _)) => {
                self.handles.remove(&id);
                proof {
                    assert forall|k: u64| self.handles@.contains_key(k) implies handle@
                        != handle_text(k) by {
                        if handle@ == handle_text(k) {
                            handles_differ(k, id);
                        }
                    }
                }
                Some(id)
            },
        }
    }

    /// The number of a file that the client has open.
    pub fn file(&self, handle: &str) -> (r: Result<u64, StatusCode>)
        ensures
            r == (match entry(self.handles@, handle@) {
                Some((id, HandleEntry::File)) => Ok::<u64, StatusCode>(id),
                _ => Err::<u64, StatusCode>(StatusCode::Failure),
            }),
    {
        match self.lookup(handle) {
            Some((id, HandleEntry::File)) => Ok(id),
            _ => Err(StatusCode::Failure),
        }
    }

    /// The next entries of a directory that the client has open, from which to which, and
    /// the number of its handle.
    pub fn readdir(&mut self, handle: &str) -> (r: Result<(u64, usize, usize), StatusCode>)
        requires
            old(self).wf(),
        ensures
            final(self).wf(),
            final(self).next_handle == old(self).next_handle,
            final(self).root == old(self).root,
            final(self).style == old(self).style,
            match entry(old(self).handles@, handle@) {
                Some((id, HandleEntry::Dir { entries, offset })) => if offset < entries {
                    let end = batch_end(entries, offset);
                    &&& r == Ok::<(u64, usize, usize), StatusCode>((id, offset, end))
                    &&& final(self).handles@ == old(self).handles@.insert(
                        id,
                        HandleEntry::Dir { entries, offset: end },
                    )
                } else {
                    &&& r == Err::<(u64, usize, usize), StatusCode>(StatusCode::Eof)
                    &&& final(self).handles@ == old(self).handles@
                },
                _ => {
                    &&& r == Err::<(u64, usize, usize), StatusCode>(StatusCode::Failure)
                    &&& final(self).handles@ == old(self).handles@
                },
            },
    {
        match self.lookup(handle) {
            Some((id, HandleEntry::Dir { entries, offset })) => {
                if offset >= entries {
                    return Err(StatusCode::Eof);
                }
                let end: usize = if entries - offset > READDIR_BATCH {
                    offset + READDIR_BATCH
                } else {
                    entries
                };
                self.handles.insert(id, HandleEntry::Dir { entries, offset: end });
                Ok((id, offset, end))
            },
            _ => Err(StatusCode::Failure),
        }
    }

    /// The parts of a path of a client as seen from `root`, or the failure where it does
    /// not lie in or under `root`, and how many parts `root` has.
    fn inside_parts(&self, root: &str, client_path: &str) -> (r: Result<
        (Vec<Component>, usize),
        StatusCode,
    >)
        ensures
            r is Ok <==> lexical(self.style, Some(root@), client_path@) is Ok,
            r matches Ok(found) ==> parts(found.0@) == inside(self.style, root@, client_path@)
                && found.1 == components(self.style, root@).len() && found.1 <= found.0@.len(),
            r matches Err(e) ==> e == StatusCode::PermissionDenied,
    {
        let v = chars(client_path);
        let mut i: usize = 0;
        while i < v.len() && v[i] == '/'
            invariant
                v@ == client_path@,
                i <= v@.len(),
                after_slashes(client_path@, 0) == after_slashes(client_path@, i as int),
            decreases v@.len() - i,
        {
            i = i + 1;
        }
        let len: usize = v.len();
        let rel = text(&v, i, len);
        assert(rel@ =~= client_path@.skip(i as int));
        let joined = join_path(self.style, root, rel.as_str());
        let normal = normalize_lexical(self.style, split_path(self.style, joined.as_str()));
        let base = split_path(self.style, root);
        assert(parts(base@).len() == base@.len() && parts(normal@).len() == normal@.len());
        if !is_under(&base, &normal) {
            return Err(StatusCode::PermissionDenied);
        }
        Ok((normal, base.len()))
    }

    /// How the search for what a path of a client stands for begins.
    pub fn look(&self, client_path: &str) -> (r: Lookup)
        ensures
            r@ == search_begins(self.style, self.jail(), client_path@),
            self.root is None ==> (r matches Lookup::Done(Ok(path)) && path@ == client_path@),
            r matches Lookup::Look { walk, .. } ==> walk_valid(walk@),
    {
        match &self.root {
            None => Lookup::Done(Ok(client_path.to_owned())),
            Some(root) => match self.inside_parts(root.as_str(), client_path) {
                Err(e) => Lookup::Done(Err(e)),
                Ok((normal, base)) => {
                    let walk = Walk { parts: normal, base, missing: 0, hops: 0 };
                    assert(walk@ =~= begun_at(self.style, root@, client_path@));
                    self.look_at(walk)
                },
            },
        }
    }

    fn look_at(&self, walk: Walk) -> (r: Lookup)
        requires
            walk_valid(walk@),
        ensures
            r@ == look_there(self.style, walk@),
            r matches Lookup::Look { walk: w, .. } && walk_valid(w@),
    {
        let start = String::new();
        assert(start@ =~= Seq::<char>::empty());
        assert(parts(walk.parts@).len() == walk.parts@.len());
        let to: usize = walk.parts.len() - walk.missing;
        let at = render_behind(self.style, start, &walk.parts, 0, to);
        Lookup::Look { walk, at }
    }

    fn go_up(&self, walk: Walk) -> (r: Lookup)
        requires
            walk_valid(walk@),
        ensures
            r@ == one_up(self.style, walk@),
            r matches Lookup::Look { walk: w, .. } ==> walk_valid(w@),
    {
        assert(parts(walk.parts@).len() == walk.parts@.len());
        if walk.parts.len() - walk.missing > walk.base {
            let ghost before = walk@;
            let next = Walk {
                parts: walk.parts,
                base: walk.base,
                missing: walk.missing + 1,
                hops: walk.hops,
            };
            assert(next@ =~= WalkView { missing: before.missing + 1, ..before });
            self.look_at(next)
        } else if walk.hops == 0 {
            Lookup::Done(Ok(render(self.style, &walk.parts)))
        } else {
            Lookup::Done(Err(StatusCode::NoSuchFile))
        }
    }

    /// What follows from what there is where it was looked. `itself` says whether the request
    /// is about a link at the path of the client, and not about what the link leads to.
    pub fn follow(&self, walk: Walk, probe: Probe, itself: bool) -> (r: Lookup)
        requires
            walk_valid(walk@),
        ensures
            r@ == search_goes_on(self.style, self.jail(), walk@, probe@, itself),
            r matches Lookup::Look { walk: w, .. } ==> walk_valid(w@),
    {
        assert(parts(walk.parts@).len() == walk.parts@.len());
        match probe {
            Probe::There(existing) => Lookup::Done(self.resolve(&walk, existing)),
            Probe::Nothing => self.go_up(walk),
            Probe::Closed(e) => if walk.hops == 0 {
                Lookup::Done(Ok(render(self.style, &walk.parts)))
            } else {
                Lookup::Done(Err(io_to_status(e)))
            },
            Probe::Unknown(e) => Lookup::Done(Err(io_to_status(e))),
            Probe::Link { parent, target } => {
                let n: usize = walk.parts.len() - walk.missing;
                if walk.hops == 0 && (n <= walk.base || (itself && walk.missing == 0)) {
                    self.go_up(walk)
                } else if walk.hops >= MOST_LINKS {
                    Lookup::Done(Err(StatusCode::Failure))
                } else {
                    let ghost before = walk@;
                    let hops: usize = walk.hops + 1;
                    let joined = join_path(self.style, parent.as_str(), target.as_str());
                    let mut found = split_path(self.style, joined.as_str());
                    let mut old = walk.parts;
                    let mut rest = old.split_off(n);
                    let ghost first = found@;
                    let ghost behind = rest@;
                    assert(parts(behind) =~= walk_rest(before));
                    found.append(&mut rest);
                    assert(parts(found@) =~= parts(first) + parts(behind));
                    let next = Walk { parts: found, base: 1, missing: 0, hops };
                    assert(next@ =~= behind_link(self.style, before, parent@, target@));
                    self.look_at(next)
                }
            },
        }
    }

    /// The path that is found where there is something with links followed at `existing`, and
    /// nothing at the parts behind it.
    pub fn resolve(&self, walk: &Walk, existing: String) -> (r: Result<String, StatusCode>)
        requires
            walk_valid(walk@),
        ensures
            path_result(r) == resolved(self.style, self.jail(), walk@, existing@),
    {
        if let Some(root) = &self.root {
            if !is_under(
                &split_path(self.style, root.as_str()),
                &split_path(self.style, existing.as_str()),
            ) {
                return Err(StatusCode::PermissionDenied);
            }
        }
        let len: usize = walk.parts.len();
        let n: usize = len - walk.missing;
        if !are_names(&walk.parts, n) {
            return Err(StatusCode::NoSuchFile);
        }
        Ok(render_behind(self.style, existing, &walk.parts, n, len))
    }

    /// A path as the client sees it: as seen from the directory that it is held to.
    pub fn to_client_path(&self, path: &str) -> (r: String)
        ensures
            r@ == shown(self.style, self.jail(), path@),
    {
        match &self.root {
            None => path.to_owned(),
            Some(root) => {
                let rest = strip_root(self.style, root.as_str(), path);
                let mut s = "/".to_owned();
                s.append(rest.as_str());
                if same(s.as_str(), "/.") {
                    return "/".to_owned();
                }
                s
            },
        }
    }
}

/// Up to which entry of a directory the next are sent.
pub open spec fn batch_end(entries: usize, offset: usize) -> usize {
    if entries - offset > READDIR_BATCH {
        (offset + READDIR_BATCH) as usize
    } else {
        entries
    }
}

/// Reading a directory goes on where it stopped, sends at least one and at most a
/// hundred entries, and ends with the last entry: every entry is sent once.
pub proof fn batches_cover_the_directory(entries: usize, offset: usize)
    requires
        offset < entries,
    ensures
        offset < batch_end(entries, offset) <= entries,
        batch_end(entries, offset) - offset <= READDIR_BATCH,
        batch_end(entries, offset) - offset < READDIR_BATCH ==> batch_end(entries, offset)
            == entries,
{
}

/// The text of `p` from its part with index `k` on.
pub open spec fn text_from(style: PathStyle, p: Seq<char>, k: int) -> Seq<char> {
    let at = body_spans(style, p);
    let n = k - head(style, p).len();
    if 0 <= n < at.len() {
        p.subrange(at[n].0, at.last().1)
    } else if n >= at.len() {
        Seq::empty()
    } else {
        p
    }
}

/// `p` without `root` at its start, or `p` where it does not lie under `root`.
pub open spec fn without_root(style: PathStyle, root: Seq<char>, p: Seq<char>) -> Seq<char> {
    let r = components(style, root);
    if under(r, components(style, p)) && r.len() >= head(style, p).len() {
        text_from(style, p, r.len() as int)
    } else {
        p
    }
}

/// A path as the client sees it.
pub open spec fn shown(style: PathStyle, root: Option<Seq<char>>, p: Seq<char>) -> Seq<char> {
    match root {
        None => p,
        Some(r) => if "/"@ + without_root(style, r, p) == "/."@ {
            "/"@
        } else {
            "/"@ + without_root(style, r, p)
        },
    }
}

fn strip_root(style: PathStyle, root: &str, p: &str) -> (r: String)
    ensures
        r@ == without_root(style, root@, p@),
{
    let a = split_path(style, root);
    let b = split_path(style, p);
    if !is_under(&a, &b) {
        return p.to_owned();
    }
    let v = chars(p);
    let at = find_spans(style, &v);
    assert(parts(a@).len() == a@.len());
    assert(parts(b@).len() == b@.len());
    assert(span_views(at@).len() == at@.len());
    let first: usize = b.len() - at.len();
    if a.len() < first {
        return p.to_owned();
    }
    let n: usize = a.len() - first;
    if n < at.len() {
        proof {
            assert(span_views(at@)[n as int] == (at@[n as int].start as int, at@[n as int].end as int));
            let m = at@.len() - 1;
            assert(span_views(at@)[m] == (at@[m].start as int, at@[m].end as int));
            span_order(style, p@, n as int);
        }
        text(&v, at[n].start, at[at.len() - 1].end)
    } else {
        let r = String::new();
        assert(r@ =~= Seq::<char>::empty());
        r
    }
}

proof fn spans_increase(style: PathStyle, p: Seq<char>, i: int, first: bool, n: int)
    requires
        0 <= i <= p.len() + 1,
        0 <= n < spans(style, p, i, first).len(),
    ensures
        spans(style, p, i, first)[n].0 <= spans(style, p, i, first).last().1,
    decreases p.len() - i + 1,
{
    let all = spans(style, p, i, first);
    spans_bounds(style, p, i, first);
    next_separator_bounds(style, p, i);
    let e = next_separator(style, p, i);
    let rest = spans(style, p, e + 1, false);
    spans_bounds(style, p, e + 1, false);
    if counts(p.subrange(i, e), first) {
        if rest.len() > 0 {
            assert(all.last() == rest[rest.len() - 1]);
            if n > 0 {
                assert(all[n] == rest[n - 1]);
                spans_increase(style, p, e + 1, false, n - 1);
            }
        } else {
            assert(all.last() == all[0]);
        }
    } else {
        spans_increase(style, p, e + 1, false, n);
    }
}

proof fn span_order(style: PathStyle, p: Seq<char>, n: int)
    requires
        0 <= n < body_spans(style, p).len(),
    ensures
        body_spans(style, p)[n].0 <= body_spans(style, p).last().1,
{
    body_bounds(style, p);
    spans_increase(style, p, body_start(style, p), !rooted(style, p), n);
}

/// What a client is sent of a read that gave `n` bytes: the end of the file where it
/// gave none.
pub fn read_reply(n: usize) -> (r: Result<usize, StatusCode>)
    ensures
        r == (if n == 0 {
            Err::<usize, StatusCode>(StatusCode::Eof)
        } else {
            Ok::<usize, StatusCode>(n)
        }),
{
    if n == 0 {
        Err(StatusCode::Eof)
    } else {
        Ok(n)
    }
}

/// How a file is opened beyond what the client asks for.
#[derive(Clone, Copy, Debug, PartialEq, Eq, Structural)]
pub struct OpenMode {
    /// Make the file where it is not there.
    pub create: bool,
    /// Allow reading.
    pub read: bool,
}

/// How a file is opened beyond what the client asks for: to write, it is made where it
/// is not there, and else it can be read.
pub fn open_mode(write: bool, append: bool) -> (r: OpenMode)
    ensures
        r.create == (write || append),
        r.read == !(write || append),
{
    OpenMode { create: write || append, read: !(write || append) }
}

/// The permissions that a client may set.
pub fn settable_mode(mode: u32) -> (r: u32)
    ensures
        r == mode & 0o7777,
        r <= 0o7777,
{
    assert(mode & 0o7777 <= 0o7777) by (bit_vector);
    mode & 0o7777
}

/// The path that a client asks about: the directory itself where it gives none.
pub fn asked_path(path: &str) -> (r: String)
    ensures
        r@ == (if path@.len() == 0 {
            "."@
        } else {
            path@
        }),
{
    if path.is_empty() {
        ".".to_owned()
    } else {
        path.to_owned()
    }
}

/// Whether a name can stand between two separators and means itself.
pub open spec fn plain_name(s: Seq<char>) -> bool {
    &&& s.len() > 0
    &&& s != seq!['.']
    &&& s != seq!['.', '.']
    &&& forall|i: int| 0 <= i < s.len() ==> #[trigger] s[i] != '/'
}

/// Whether a path is a root and names behind it.
pub open spec fn root_and_names(p: Seq<ComponentView>) -> bool {
    &&& p.len() > 0
    &&& p[0] is RootDir
    &&& forall|i: int|
        0 < i < p.len() ==> (#[trigger] p[i] matches ComponentView::Normal(s) && plain_name(s))
}

proof fn spans_are_plain(p: Seq<char>, i: int)
    requires
        0 <= i <= p.len() + 1,
    ensures
        forall|k: int|
            0 <= k < spans(PathStyle::Posix, p, i, false).len() ==> ({
                let s = #[trigger] spans(PathStyle::Posix, p, i, false)[k];
                let t = p.subrange(s.0, s.1);
                t.len() > 0 && t != seq!['.'] && forall|j: int|
                    0 <= j < t.len() ==> #[trigger] t[j] != '/'
            }),
    decreases p.len() - i + 1,
{
    let style = PathStyle::Posix;
    if i <= p.len() {
        next_separator_bounds(style, p, i);
        let e = next_separator(style, p, i);
        spans_are_plain(p, e + 1);
        let rest = spans(style, p, e + 1, false);
        let all = spans(style, p, i, false);
        assert forall|k: int| 0 <= k < all.len() implies ({
            let s = #[trigger] all[k];
            let t = p.subrange(s.0, s.1);
            t.len() > 0 && t != seq!['.'] && forall|j: int|
                0 <= j < t.len() ==> #[trigger] t[j] != '/'
        }) by {
            if counts(p.subrange(i, e), false) {
                if k > 0 {
                    assert(all[k] == rest[k - 1]);
                } else {
                    let t = p.subrange(i, e);
                    assert forall|j: int| 0 <= j < t.len() implies #[trigger] t[j] != '/' by {
                        assert(t[j] == p[i + j]);
                        assert(!separator(style, p[i + j]));
                    }
                }
            } else {
                assert(all[k] == rest[k]);
            }
        }
    }
}

proof fn normalized_is_root_and_names(p: Seq<ComponentView>)
    requires
        p.len() > 0,
        p[0] is RootDir,
        forall|i: int|
            0 < i < p.len() ==> (#[trigger] p[i] is ParentDir || p[i] is CurDir || (
            p[i] matches ComponentView::Normal(s) && plain_name(s))),
    ensures
        root_and_names(normalized(PathStyle::Posix, p)),
    decreases p.len(),
{
    let style = PathStyle::Posix;
    let front = p.drop_last();
    if p.len() == 1 {
        assert(normalized(style, front) =~= Seq::<ComponentView>::empty());
        assert(normalized(style, p) =~= seq![ComponentView::RootDir]);
    } else {
        assert forall|i: int| 0 < i < front.len() implies (#[trigger] front[i] is ParentDir
            || front[i] is CurDir || (front[i] matches ComponentView::Normal(s) && plain_name(
            s,
        ))) by {
            assert(front[i] == p[i]);
        }
        normalized_is_root_and_names(front);
        let out = normalized(style, front);
        let c = p[p.len() - 1];
        assert(c == p.last());
        let r = normalized(style, p);
        assert(r == normal_step(style, out, c));
        assert forall|i: int| 0 < i < r.len() implies (#[trigger] r[i] matches ComponentView::Normal(
            s,
        ) && plain_name(s)) by {
            if i < out.len() {
                assert(r[i] == out[i]);
            }
        }
    }
}

/// The text of a root and names.
proof fn text_of_names(p: Seq<ComponentView>)
    requires
        root_and_names(p),
    ensures
        path_text(PathStyle::Posix, p).len() > 0,
        path_text(PathStyle::Posix, p)[0] == '/',
        p.len() == 1 ==> path_text(PathStyle::Posix, p) == seq!['/'],
        p.len() == 2 ==> path_text(PathStyle::Posix, p) == seq!['/'] + p[1]->Normal_0,
        p.len() > 2 ==> path_text(PathStyle::Posix, p) == path_text(
            PathStyle::Posix,
            p.drop_last(),
        ) + seq!['/'] + p.last()->Normal_0,
        p.len() > 1 ==> path_text(PathStyle::Posix, p).last() != '/',
    decreases p.len(),
{
    let style = PathStyle::Posix;
    let t = path_text(style, p);
    if p.len() == 1 {
        assert(path_text(style, p.drop_last()) =~= Seq::<char>::empty());
        assert(t =~= seq!['/']);
    } else {
        let front = p.drop_last();
        assert(root_and_names(front)) by {
            assert forall|i: int| 0 < i < front.len() implies (
            #[trigger] front[i] matches ComponentView::Normal(s) && plain_name(s)) by {
                assert(front[i] == p[i]);
            }
        }
        text_of_names(front);
        assert(p[p.len() - 1] == p.last());
        let s = p.last()->Normal_0;
        assert(plain_name(s));
        assert(s[0] != '/' && s[s.len() - 1] != '/');
        assert(t == placed(style, path_text(style, front), s));
        assert(t.last() == s.last());
        if p.len() == 2 {
            assert(p[1] == p.last());
        }
    }
}

/// What a longer text adds to the parts of a path.
proof fn spans_extend(p: Seq<char>, q: Seq<char>, i: int)
    requires
        0 <= i < p.len(),
        p.last() != '/',
        forall|k: int| 0 <= k < q.len() ==> #[trigger] q[k] != '/',
        q.len() > 0,
        q != seq!['.'],
    ensures
        ({
            let t = p + seq!['/'] + q;
            spans(PathStyle::Posix, t, i, false) == spans(PathStyle::Posix, p, i, false) + seq![
                ((p.len() + 1) as int, t.len() as int),
            ]
        }),
    decreases p.len() - i,
{
    let style = PathStyle::Posix;
    let t = p + seq!['/'] + q;
    next_separator_bounds(style, p, i);
    next_separator_bounds(style, t, i);
    let e = next_separator(style, p, i);
    let f = next_separator(style, t, i);
    assert(f == e) by {
        assert(t[p.len() as int] == '/');
        assert(separator(style, t[p.len() as int]));
        if e < p.len() {
            assert(t[e] == p[e]);
        }
        if f < e {
            assert(t[f] == p[f]);
        }
        if f > e {
            if e < p.len() {
                assert(separator(style, t[e]));
            }
        }
    }
    assert(t.subrange(i, e) =~= p.subrange(i, e));
    if e < p.len() {
        assert(p[e] == '/');
        assert(e + 1 < p.len()) by {
            if e + 1 == p.len() {
                assert(p.last() == '/');
            }
        }
        spans_extend(p, q, e + 1);
        assert(spans(style, t, i, false) =~= spans(style, p, i, false) + seq![
            ((p.len() + 1) as int, t.len() as int),
        ]);
    } else {
        let b = (p.len() + 1) as int;
        assert(spans(style, p, e + 1, false) =~= Seq::<(int, int)>::empty());
        assert(t.subrange(b, t.len() as int) =~= q);
        last_span(t, b);
        assert(spans(style, t, i, false) =~= spans(style, p, i, false) + seq![
            (b, t.len() as int),
        ]);
    }
}

proof fn last_span(t: Seq<char>, b: int)
    requires
        0 <= b < t.len(),
        forall|k: int| b <= k < t.len() ==> #[trigger] t[k] != '/',
        t.subrange(b, t.len() as int) != seq!['.'],
    ensures
        spans(PathStyle::Posix, t, b, false) == seq![(b, t.len() as int)],
{
    let style = PathStyle::Posix;
    next_separator_bounds(style, t, b);
    let e = next_separator(style, t, b);
    if e < t.len() {
        assert(t[e] != '/');
    }
    assert(spans(style, t, e + 1, false) =~= Seq::<(int, int)>::empty());
    assert(t.subrange(b, e).len() > 0);
    assert(spans(style, t, b, false) =~= seq![(b, t.len() as int)]);
}

/// Reading the text of a root and names gives the root and the names.
#[verifier::spinoff_prover]
#[verifier::rlimit(60)]
proof fn text_is_read_back(p: Seq<ComponentView>)
    requires
        root_and_names(p),
    ensures
        components(PathStyle::Posix, path_text(PathStyle::Posix, p)) == p,
    decreases p.len(),
{
    let style = PathStyle::Posix;
    let t = path_text(style, p);
    text_of_names(p);
    assert(prefix_len(style, t) == 0);
    assert(rooted(style, t) && body_start(style, t) == 1);
    assert(head(style, t) =~= seq![ComponentView::RootDir]);
    if p.len() == 1 {
        next_separator_bounds(style, t, 1);
        assert(spans(style, t, 2, false) =~= Seq::<(int, int)>::empty());
        assert(body_spans(style, t) =~= Seq::<(int, int)>::empty());
        assert(components(style, t) =~= p);
    } else {
        let s = p.last()->Normal_0;
        assert(p[p.len() - 1] == p.last());
        assert(plain_name(s));
        if p.len() == 2 {
            assert(p[1] == p.last());
            assert(t.subrange(1, t.len() as int) =~= s);
            assert forall|k: int| 1 <= k < t.len() implies #[trigger] t[k] != '/' by {
                assert(t[k] == s[k - 1]);
            }
            last_span(t, 1);
            assert(parts_at(t, body_spans(style, t)) =~= seq![ComponentView::Normal(s)]);
            assert(components(style, t) =~= p);
        } else {
            let front = p.drop_last();
            assert(root_and_names(front)) by {
                assert forall|i: int| 0 < i < front.len() implies (
                #[trigger] front[i] matches ComponentView::Normal(x) && plain_name(x)) by {
                    assert(front[i] == p[i]);
                }
            }
            let u = path_text(style, front);
            text_of_names(front);
            text_is_read_back(front);
            assert(body_start(style, u) == 1 && rooted(style, u) && prefix_len(style, u) == 0);
            assert(head(style, u) =~= seq![ComponentView::RootDir]);
            assert(u.len() > 1) by {
                if u.len() == 1 {
                    assert(u.last() == u[0]);
                }
            }
            spans_extend(u, s, 1);
            spans_bounds(style, u, 1, false);
            let a = body_spans(style, u);
            let b = body_spans(style, t);
            assert(b == a + seq![((u.len() + 1) as int, t.len() as int)]);
            assert(t.subrange((u.len() + 1) as int, t.len() as int) =~= s);
            assert forall|i: int| 0 <= i < a.len() implies t.subrange(a[i].0, a[i].1)
                =~= #[trigger] u.subrange(a[i].0, a[i].1) by {}
            assert(parts_at(t, b) =~= parts_at(u, a).push(ComponentView::Normal(s)));
            assert(components(style, t) =~= components(style, u).push(ComponentView::Normal(s)));
            assert(components(style, t) =~= p);
        }
    }
}

proof fn absolute_components(p: Seq<char>)
    requires
        p.len() > 0,
        p[0] == '/',
    ensures
        components(PathStyle::Posix, p).len() > 0,
        components(PathStyle::Posix, p)[0] is RootDir,
        forall|i: int|
            0 < i < components(PathStyle::Posix, p).len() ==> (#[trigger] components(
                PathStyle::Posix,
                p,
            )[i] is ParentDir || components(PathStyle::Posix, p)[i] is CurDir || (components(
                PathStyle::Posix,
                p,
            )[i] matches ComponentView::Normal(s) && plain_name(s))),
{
    let style = PathStyle::Posix;
    spans_are_plain(p, 1);
    let at = body_spans(style, p);
    let all = components(style, p);
    assert(head(style, p) =~= seq![ComponentView::RootDir]);
    assert forall|i: int| 0 < i < all.len() implies (#[trigger] all[i] is ParentDir
        || all[i] is CurDir || (all[i] matches ComponentView::Normal(s) && plain_name(s))) by {
        assert(all[i] == part_of(p.subrange(at[i - 1].0, at[i - 1].1)));
    }
}

/// What a longer text adds to the parts of a path that ends in a separator.
proof fn spans_extend_slash(p: Seq<char>, q: Seq<char>, i: int)
    requires
        0 <= i <= p.len(),
        p.len() > 0,
        p.last() == '/',
        forall|k: int| 0 <= k < q.len() ==> #[trigger] q[k] != '/',
        q.len() > 0,
        q != seq!['.'],
    ensures
        spans(PathStyle::Posix, p + q, i, false) == spans(PathStyle::Posix, p, i, false) + seq![
            (p.len() as int, (p + q).len() as int),
        ],
    decreases p.len() - i,
{
    let style = PathStyle::Posix;
    let t = p + q;
    let b = p.len() as int;
    if i == p.len() {
        next_separator_bounds(style, p, i);
        assert(spans(style, p, i + 1, false) =~= Seq::<(int, int)>::empty());
        assert(spans(style, p, i, false) =~= Seq::<(int, int)>::empty());
        assert(t.subrange(b, t.len() as int) =~= q);
        assert forall|k: int| b <= k < t.len() implies #[trigger] t[k] != '/' by {
            assert(t[k] == q[k - b]);
        }
        last_span(t, b);
        assert(spans(style, t, i, false) =~= spans(style, p, i, false) + seq![
            (b, t.len() as int),
        ]);
    } else {
        next_separator_bounds(style, p, i);
        next_separator_bounds(style, t, i);
        let e = next_separator(style, p, i);
        let f = next_separator(style, t, i);
        assert(separator(style, p[b - 1]));
        assert(e < p.len());
        assert(t[e] == p[e]);
        assert(f == e) by {
            if f < e {
                assert(t[f] == p[f]);
            }
        }
        assert(t.subrange(i, e) =~= p.subrange(i, e));
        spans_extend_slash(p, q, e + 1);
        assert(spans(style, t, i, false) =~= spans(style, p, i, false) + seq![
            (b, t.len() as int),
        ]);
    }
}

/// A name behind a path is one more part of it.
proof fn name_is_added(e: Seq<char>, name: Seq<char>)
    requires
        e.len() > 0,
        e[0] == '/',
        plain_name(name),
    ensures
        ({
            let t = placed(PathStyle::Posix, e, name);
            &&& t[0] == '/'
            &&& t.len() > 0
            &&& components(PathStyle::Posix, t) == components(PathStyle::Posix, e).push(
                ComponentView::Normal(name),
            )
        }),
{
    let style = PathStyle::Posix;
    let t = placed(style, e, name);
    assert(name[0] != '/');
    assert(prefix_len(style, e) == 0 && prefix_len(style, t) == 0);
    let a = body_spans(style, e);
    let b = body_spans(style, t);
    spans_bounds(style, e, 1, false);
    if e.last() == '/' {
        assert(t == e + name);
        spans_extend_slash(e, name, 1);
        assert(t.subrange(e.len() as int, t.len() as int) =~= name);
    } else {
        assert(t == e + seq!['/'] + name);
        assert(e.len() > 1);
        spans_extend(e, name, 1);
        assert(t.subrange((e.len() + 1) as int, t.len() as int) =~= name);
    }
    assert(t[0] == '/');
    assert(body_start(style, t) == 1 && rooted(style, t));
    assert forall|i: int| 0 <= i < a.len() implies t.subrange(a[i].0, a[i].1)
        =~= #[trigger] e.subrange(a[i].0, a[i].1) by {}
    assert(parts_at(t, b) =~= parts_at(e, a).push(ComponentView::Normal(name)));
    assert(head(style, t) =~= head(style, e));
    assert(components(style, t) =~= components(style, e).push(ComponentView::Normal(name)));
}

proof fn names_are_added(e: Seq<char>, names: Seq<ComponentView>)
    requires
        e.len() > 0,
        e[0] == '/',
        forall|i: int|
            0 <= i < names.len() ==> (#[trigger] names[i] matches ComponentView::Normal(s)
                && plain_name(s)),
    ensures
        ({
            let t = text_behind(PathStyle::Posix, e, names);
            &&& t.len() > 0
            &&& t[0] == '/'
            &&& components(PathStyle::Posix, t) == components(PathStyle::Posix, e) + names
        }),
    decreases names.len(),
{
    let style = PathStyle::Posix;
    if names.len() == 0 {
        assert(components(style, e) + names =~= components(style, e));
    } else {
        let front = names.drop_last();
        assert forall|i: int| 0 <= i < front.len() implies (
        #[trigger] front[i] matches ComponentView::Normal(s) && plain_name(s)) by {
            assert(front[i] == names[i]);
        }
        names_are_added(e, front);
        assert(names[names.len() - 1] == names.last());
        name_is_added(text_behind(style, e, front), names.last()->Normal_0);
        assert(components(style, e) + names =~= (components(style, e) + front).push(
            names.last(),
        ));
    }
}

/// Whether the names of a path can stand between two separators and mean themselves.
pub open spec fn plain_parts(p: Seq<ComponentView>) -> bool {
    forall|i: int|
        0 <= i < p.len() ==> (#[trigger] p[i] matches ComponentView::Normal(s) ==> plain_name(s))
}

/// With `/` between the parts of paths, and a directory that starts at the root: in every
/// search, names can stand between two separators and mean themselves.
pub proof fn searches_keep_plain_names(
    root: Seq<char>,
    path: Seq<char>,
    w: WalkView,
    probe: ProbeView,
    itself: bool,
)
    requires
        root.len() > 0,
        root[0] == '/',
        walk_valid(w),
        plain_parts(w.parts),
        probe matches ProbeView::Link { parent, .. } ==> parent.len() > 0 && parent[0] == '/',
    ensures
        plain_parts(begun_at(PathStyle::Posix, root, path).parts),
        search_goes_on(
            PathStyle::Posix,
            Some(root),
            w,
            probe,
            itself,
        ) matches LookupView::Look { walk, .. } ==> plain_parts(walk.parts),
{
    let style = PathStyle::Posix;
    names_are_plain(root, path);
    if let ProbeView::Link { parent, target } = probe {
        let joined = placed(style, parent, target);
        assert(joined.len() > 0 && joined[0] == '/');
        absolute_components(joined);
        let all = components(style, joined) + walk_rest(w);
        assert forall|i: int| 0 <= i < all.len() implies (
        #[trigger] all[i] matches ComponentView::Normal(s) ==> plain_name(s)) by {
            let n = components(style, joined).len();
            if i < n {
                assert(all[i] == components(style, joined)[i]);
            } else {
                assert(all[i] == w.parts[w.parts.len() - w.missing + i - n]);
            }
        }
    }
}

/// With `/` between the parts of paths, and a directory that starts at the root: the text
/// that is found, read as a path, is what there is, and behind it the names that there is
/// nothing at. It lies in or under the directory.
pub proof fn texts_stay_inside(root: Seq<char>, w: WalkView, existing: Seq<char>)
    requires
        root.len() > 0,
        root[0] == '/',
        walk_valid(w),
        plain_parts(w.parts),
        resolved(PathStyle::Posix, Some(root), w, existing) is Ok,
    ensures
        ({
            let found = components(
                PathStyle::Posix,
                resolved(PathStyle::Posix, Some(root), w, existing)->Ok_0,
            );
            &&& found == components(PathStyle::Posix, existing) + walk_rest(w)
            &&& under(components(PathStyle::Posix, root), found)
        }),
{
    let style = PathStyle::Posix;
    absolute_components(root);
    let e = existing;
    let r = components(style, root);
    assert(equal_parts(r[0], components(style, e)[0]));
    assert(e.len() > 0 && e[0] == '/') by {
        if !rooted(style, e) {
            assert(head(style, e) =~= Seq::<ComponentView>::empty());
            let at = body_spans(style, e);
            assert(components(style, e)[0] == part_of(e.subrange(at[0].0, at[0].1)));
        }
    }
    let names = walk_rest(w);
    assert forall|i: int| 0 <= i < names.len() implies (
    #[trigger] names[i] matches ComponentView::Normal(s) && plain_name(s)) by {
        assert(names[i] == w.parts[w.parts.len() - w.missing + i]);
    }
    names_are_added(e, names);
    let found = components(style, e) + names;
    assert forall|i: int| 0 <= i < r.len() implies equal_parts(#[trigger] r[i], found[i]) by {
        assert(found[i] == components(style, e)[i]);
    }
}

/// With `/` between the parts of paths, and a directory that starts at the root: the text of
/// where it is looked for a path of a client, before a link is followed, read as a path, is
/// the path without its last names. It lies in or under the directory.
pub proof fn looks_stay_inside(root: Seq<char>, path: Seq<char>, w: WalkView)
    requires
        root.len() > 0,
        root[0] == '/',
        lexical(PathStyle::Posix, Some(root), path) is Ok,
        w == (WalkView { missing: w.missing, ..begun_at(PathStyle::Posix, root, path) }),
        w.base <= w.parts.len() - w.missing,
    ensures
        components(PathStyle::Posix, walk_at(PathStyle::Posix, w)) == w.parts.subrange(
            0,
            w.parts.len() - w.missing,
        ),
        under(
            components(PathStyle::Posix, root),
            components(PathStyle::Posix, walk_at(PathStyle::Posix, w)),
        ),
{
    let style = PathStyle::Posix;
    absolute_components(root);
    names_are_plain(root, path);
    let p = inside(style, root, path);
    let q = p.subrange(0, p.len() - w.missing);
    assert forall|i: int| 0 < i < q.len() implies (
    #[trigger] q[i] matches ComponentView::Normal(s) && plain_name(s)) by {
        assert(q[i] == p[i]);
    }
    text_is_read_back(q);
    assert forall|i: int| 0 <= i < components(style, root).len() implies equal_parts(
        #[trigger] components(style, root)[i],
        q[i],
    ) by {
        assert(q[i] == p[i]);
    }
}

proof fn names_are_plain(root: Seq<char>, path: Seq<char>)
    requires
        root.len() > 0,
        root[0] == '/',
    ensures
        root_and_names(inside(PathStyle::Posix, root, path)),
{
    let style = PathStyle::Posix;
    let rel = path.skip(after_slashes(path, 0));
    slashes_end(path, 0);
    let joined = placed(style, root, rel);
    assert(joined.len() > 0 && joined[0] == '/') by {
        if rel.len() > 0 {
            assert(rel[0] == path[after_slashes(path, 0)]);
        }
    }
    absolute_components(joined);
    normalized_is_root_and_names(components(style, joined));
}

proof fn slashes_end(s: Seq<char>, i: int)
    requires
        0 <= i <= s.len(),
    ensures
        i <= after_slashes(s, i) <= s.len(),
        after_slashes(s, i) < s.len() ==> s[after_slashes(s, i)] != '/',
    decreases s.len() - i,
{
    if i < s.len() {
        slashes_end(s, i + 1);
    }
}

/// Whether a drive or share stands only at the start, and the root only there or behind it.
pub open spec fn well_shaped(p: Seq<ComponentView>) -> bool {
    forall|i: int|
        0 <= i < p.len() ==> (#[trigger] p[i] is Prefix ==> i == 0) && (p[i] is RootDir ==> i == 0
            || (i == 1 && p[0] is Prefix))
}

proof fn components_are_well_shaped(style: PathStyle, p: Seq<char>)
    ensures
        well_shaped(components(style, p)),
{
    let all = components(style, p);
    let at = body_spans(style, p);
    let n = head(style, p).len();
    assert forall|i: int| 0 <= i < all.len() implies (#[trigger] all[i] is Prefix ==> i == 0) && (
    all[i] is RootDir ==> i == 0 || (i == 1 && all[0] is Prefix)) by {
        if i >= n {
            assert(all[i] == part_of(p.subrange(at[i - n].0, at[i - n].1)));
        } else {
            assert(all[i] == head(style, p)[i]);
            assert(all[0] == head(style, p)[0]);
        }
    }
}

proof fn normalizing_keeps_the_shape(style: PathStyle, p: Seq<ComponentView>)
    requires
        well_shaped(p),
    ensures
        well_shaped(normalized(style, p)),
    decreases p.len(),
{
    if p.len() > 0 {
        let front = p.drop_last();
        assert forall|i: int| 0 <= i < front.len() implies (#[trigger] front[i] is Prefix ==> i
            == 0) && (front[i] is RootDir ==> i == 0 || (i == 1 && front[0] is Prefix)) by {
            assert(front[i] == p[i]);
            assert(front[0] == p[0]);
        }
        normalizing_keeps_the_shape(style, front);
        let out = normalized(style, front);
        let c = p.last();
        assert(c == p[p.len() - 1]);
        let r = normalized(style, p);
        if c is Prefix || c is RootDir {
            if p.len() == 1 {
                assert(out =~= Seq::<ComponentView>::empty());
            } else {
                assert(p.len() == 2 && p[0] is Prefix);
                assert(front.drop_last() =~= Seq::<ComponentView>::empty());
                assert(front.last() == p[0]);
                assert(normalized(style, front.drop_last()) =~= Seq::<ComponentView>::empty());
                assert(out =~= seq![p[0]]);
            }
        }
        assert forall|i: int| 0 <= i < r.len() implies (#[trigger] r[i] is Prefix ==> i == 0) && (
        r[i] is RootDir ==> i == 0 || (i == 1 && r[0] is Prefix)) by {
            if i < out.len() {
                assert(out[i] is Prefix ==> i == 0);
                assert(out[i] is RootDir ==> i == 0 || (i == 1 && out[0] is Prefix));
            }
        }
    }
}

/// Behind a directory that starts at a root, a path of a client has only names.
pub proof fn own_parts_are_names(style: PathStyle, root: Seq<char>, path: Seq<char>, i: int)
    requires
        rooted(style, root),
        lexical(style, Some(root), path) is Ok,
        components(style, root).len() <= i < inside(style, root, path).len(),
    ensures
        inside(style, root, path)[i] is Normal,
{
    let joined = placed(style, root, path.skip(after_slashes(path, 0)));
    normalizing_leaves_names(style, components(style, joined));
    components_are_well_shaped(style, joined);
    normalizing_keeps_the_shape(style, components(style, joined));
    let p = inside(style, root, path);
    let r = components(style, root);
    assert(r[head(style, root).len() - 1] is RootDir);
    assert(equal_parts(r[0], p[0]));
}

/// What is found for a search in a file system, where `there` says what there is at a path.
pub open spec fn found_from(
    style: PathStyle,
    root: Option<Seq<char>>,
    w: WalkView,
    there: spec_fn(Seq<char>) -> ProbeView,
    itself: bool,
) -> Result<Seq<char>, StatusCode>
    decreases MOST_LINKS - w.hops, w.parts.len() - w.missing,
{
    match search_goes_on(style, root, w, there(walk_at(style, w)), itself) {
        LookupView::Done(r) => r,
        LookupView::Look { walk, .. } => found_from(style, root, walk, there, itself),
    }
}

/// What a path of a client stands for in a file system, where `there` says what there is at a
/// path.
pub open spec fn found(
    style: PathStyle,
    root: Option<Seq<char>>,
    path: Seq<char>,
    there: spec_fn(Seq<char>) -> ProbeView,
    itself: bool,
) -> Result<Seq<char>, StatusCode> {
    match search_begins(style, root, path) {
        LookupView::Done(r) => r,
        LookupView::Look { walk, .. } => found_from(style, root, walk, there, itself),
    }
}

/// Whether a search that has come to `w` ends with the path `p`: there is something that, with
/// links followed, lies in or under the directory, and behind it only names; or there is not
/// even the directory; or no request comes there.
pub open spec fn ends_inside(
    style: PathStyle,
    root: Seq<char>,
    w: WalkView,
    probe: ProbeView,
    itself: bool,
    p: Seq<char>,
) -> bool {
    ||| {
        &&& probe is There
        &&& under(components(style, root), components(style, probe->There_0))
        &&& names_only(walk_rest(w))
        &&& p == text_behind(style, probe->There_0, walk_rest(w))
    }
    ||| {
        &&& goes_up(w, probe, itself)
        &&& at_base(w)
        &&& p == path_text(style, w.parts)
    }
    ||| {
        &&& probe is Closed
        &&& w.hops == 0
        &&& p == path_text(style, w.parts)
    }
}

/// `w` with other parts left out.
pub open spec fn leaving_out(w: WalkView, missing: nat) -> WalkView {
    WalkView { missing, ..w }
}

proof fn searches_stay_inside(
    style: PathStyle,
    root: Seq<char>,
    w: WalkView,
    there: spec_fn(Seq<char>) -> ProbeView,
    itself: bool,
) -> (end: WalkView)
    requires
        found_from(style, Some(root), w, there, itself) is Ok,
    ensures
        ends_inside(
            style,
            root,
            end,
            there(walk_at(style, end)),
            itself,
            found_from(style, Some(root), w, there, itself)->Ok_0,
        ),
        end.hops >= w.hops,
        end.hops == w.hops ==> end == leaving_out(w, end.missing) && end.missing >= w.missing,
        forall|k: nat|
            k < end.missing && (end.hops > w.hops || k >= w.missing) ==> goes_up(
                #[trigger] leaving_out(end, k),
                there(walk_at(style, leaving_out(end, k))),
                itself,
            ),
    decreases MOST_LINKS - w.hops, w.parts.len() - w.missing,
{
    let probe = there(walk_at(style, w));
    assert(leaving_out(w, w.missing) =~= w);
    match search_goes_on(style, Some(root), w, probe, itself) {
        LookupView::Done(_) => w,
        LookupView::Look { walk, .. } => {
            let end = searches_stay_inside(style, root, walk, there, itself);
            assert forall|k: nat|
                k < end.missing && (end.hops > w.hops || k >= w.missing) implies goes_up(
                #[trigger] leaving_out(end, k),
                there(walk_at(style, leaving_out(end, k))),
                itself,
            ) by {
                if end.hops == w.hops && k == w.missing {
                    assert(leaving_out(end, k) =~= w);
                }
            }
            end
        },
    }
}

/// A client is held to its directory, in any file system, whether or not there is something at
/// the path that it gives, and wherever links lead. The search for the path comes to an end
/// where there is something that, with links followed, lies in or under the directory; the path
/// stands for that and for names behind it. At any longer part there is nothing, not even a
/// link, but for a link `itself` that the request is about. Or there is not even the directory,
/// or a part of the path is closed to every request: then the path stands for its own text,
/// which lies in or under the directory.
pub proof fn clients_stay_inside(
    style: PathStyle,
    root: Seq<char>,
    path: Seq<char>,
    there: spec_fn(Seq<char>) -> ProbeView,
    itself: bool,
) -> (end: WalkView)
    requires
        found(style, Some(root), path, there, itself) is Ok,
    ensures
        ends_inside(
            style,
            root,
            end,
            there(walk_at(style, end)),
            itself,
            found(style, Some(root), path, there, itself)->Ok_0,
        ),
        end.hops == 0 ==> end.parts == inside(style, root, path) && under(
            components(style, root),
            end.parts,
        ),
        forall|k: nat|
            k < end.missing ==> goes_up(
                #[trigger] leaving_out(end, k),
                there(walk_at(style, leaving_out(end, k))),
                itself,
            ),
{
    searches_stay_inside(style, root, begun_at(style, root, path), there, itself)
}

proof fn text_behind_parts(
    style: PathStyle,
    start: Seq<char>,
    p: Seq<ComponentView>,
    q: Seq<ComponentView>,
)
    ensures
        text_behind(style, text_behind(style, start, p), q) == text_behind(style, start, p + q),
    decreases q.len(),
{
    if q.len() == 0 {
        assert(p + q =~= p);
    } else {
        text_behind_parts(style, start, p, q.drop_last());
        assert((p + q).drop_last() =~= p + q.drop_last());
        assert((p + q).last() == q.last());
    }
}

proof fn own_text_from(
    root: Seq<char>,
    path: Seq<char>,
    missing: nat,
    there: spec_fn(Seq<char>) -> ProbeView,
    itself: bool,
)
    requires
        root.len() > 0,
        root[0] == '/',
        lexical(PathStyle::Posix, Some(root), path) is Ok,
        forall|t: Seq<char>|
            (#[trigger] there(t)) is Nothing || there(t) is Closed || there(t) == ProbeView::There(
                t,
            ),
        missing <= inside(PathStyle::Posix, root, path).len() - components(
            PathStyle::Posix,
            root,
        ).len(),
    ensures
        found_from(
            PathStyle::Posix,
            Some(root),
            leaving_out(begun_at(PathStyle::Posix, root, path), missing),
            there,
            itself,
        ) == lexical(PathStyle::Posix, Some(root), path),
    decreases inside(PathStyle::Posix, root, path).len() - missing,
{
    let style = PathStyle::Posix;
    let begun = begun_at(style, root, path);
    let w = leaving_out(begun, missing);
    let probe = there(walk_at(style, w));
    match probe {
        ProbeView::There(e) => {
            looks_stay_inside(root, path, w);
            absolute_components(root);
            assert forall|i: int| 0 <= i < walk_rest(w).len() implies (#[trigger] walk_rest(
                w,
            )[i]) is Normal by {
                own_parts_are_names(style, root, path, w.parts.len() - missing + i);
            }
            let q = w.parts.subrange(0, w.parts.len() - missing);
            text_behind_parts(style, Seq::empty(), q, walk_rest(w));
            assert(q + walk_rest(w) =~= w.parts);
        },
        ProbeView::Nothing => {
            if w.parts.len() - missing > w.base {
                own_text_from(root, path, missing + 1, there, itself);
                assert(leaving_out(begun, missing + 1) == (WalkView {
                    missing: w.missing + 1,
                    ..w
                }));
            }
        },
        _ => {},
    }
}

/// With `/` between the parts of paths, and a directory that starts at the root: where there
/// are no links, a path of a client stands for its own text, whatever there is at it and
/// whatever is closed.
pub proof fn without_links_paths_keep_their_text(
    root: Seq<char>,
    path: Seq<char>,
    there: spec_fn(Seq<char>) -> ProbeView,
    itself: bool,
)
    requires
        root.len() > 0,
        root[0] == '/',
        forall|t: Seq<char>|
            (#[trigger] there(t)) is Nothing || there(t) is Closed || there(t) == ProbeView::There(
                t,
            ),
    ensures
        found(PathStyle::Posix, Some(root), path, there, itself) == lexical(
            PathStyle::Posix,
            Some(root),
            path,
        ),
{
    let style = PathStyle::Posix;
    if lexical(style, Some(root), path) is Ok {
        own_text_from(root, path, 0, there, itself);
        assert(leaving_out(begun_at(style, root, path), 0) == begun_at(style, root, path));
    }
}

/// A path of a client that leaves its directory as far as its text tells is denied, whatever
/// there is in the file system.
pub proof fn escapes_are_denied(
    style: PathStyle,
    root: Seq<char>,
    path: Seq<char>,
    there: spec_fn(Seq<char>) -> ProbeView,
    itself: bool,
)
    requires
        !under(components(style, root), inside(style, root, path)),
    ensures
        found(style, Some(root), path, there, itself) == Err::<Seq<char>, StatusCode>(
            StatusCode::PermissionDenied,
        ),
{
}

/// Without a directory that the client is held to, every path stands for itself, whatever there
/// is at it, and is shown as it is.
pub proof fn without_a_directory_paths_stand_for_themselves(
    style: PathStyle,
    path: Seq<char>,
    there: spec_fn(Seq<char>) -> ProbeView,
    itself: bool,
)
    ensures
        search_begins(style, None, path) == LookupView::Done(Ok(path)),
        found(style, None, path, there, itself) == Ok::<Seq<char>, StatusCode>(path),
        shown(style, None, path) == path,
{
}

/// Names of files and directories as parts of a path.
pub open spec fn as_parts(names: Seq<Seq<char>>) -> Seq<ComponentView> {
    Seq::new(names.len(), |i: int| ComponentView::Normal(names[i]))
}

/// Names that can stand between two separators and mean themselves.
pub open spec fn plain_names(names: Seq<Seq<char>>) -> bool {
    forall|i: int| 0 <= i < names.len() ==> plain_name(#[trigger] names[i])
}

/// `n` times `/`.
pub open spec fn slashes(n: nat) -> Seq<char> {
    Seq::new(n, |i: int| '/')
}

proof fn text_of_placed_names(base: Seq<char>, names: Seq<Seq<char>>)
    requires
        base.len() > 0,
        names.len() > 0,
        plain_names(names),
    ensures
        text_behind(PathStyle::Posix, base, as_parts(names)) == placed(
            PathStyle::Posix,
            base,
            joined(names, seq!['/']),
        ),
        joined(names, seq!['/']).len() > 0,
        joined(names, seq!['/'])[0] != '/',
        joined(names, seq!['/']).last() != '/',
    decreases names.len(),
{
    let style = PathStyle::Posix;
    let front = names.drop_last();
    let last = names.last();
    assert(plain_name(names[names.len() - 1]));
    assert(last[0] != '/' && last[last.len() - 1] != '/');
    let p = as_parts(names);
    assert(p.drop_last() =~= as_parts(front));
    assert(p.last() == ComponentView::Normal(last));
    if names.len() == 1 {
        assert(text_behind(style, base, p.drop_last()) == base);
        assert(joined(names, seq!['/']) == last);
    } else {
        assert forall|i: int| 0 <= i < front.len() implies plain_name(#[trigger] front[i]) by {
            assert(front[i] == names[i]);
        }
        text_of_placed_names(base, front);
        let j = joined(front, seq!['/']);
        let t = placed(style, base, j);
        assert(t.last() == j.last());
        assert(text_behind(style, base, p.drop_last()) == t);
        assert(text_behind(style, base, p) == t + seq!['/'] + last);
        assert(joined(names, seq!['/']) == j + seq!['/'] + last);
        assert(t + seq!['/'] + last =~= placed(style, base, j + seq!['/'] + last));
    }
}

proof fn slashes_are_passed(n: nat, rest: Seq<char>, i: int)
    requires
        0 <= i <= n,
        rest.len() > 0 ==> rest[0] != '/',
    ensures
        after_slashes(slashes(n) + rest, i) == n,
    decreases n - i,
{
    let s = slashes(n) + rest;
    if i < n {
        assert(s[i] == '/');
        slashes_are_passed(n, rest, i + 1);
    } else if rest.len() > 0 {
        assert(s[n as int] == rest[0]);
    }
}

/// With `/` between the parts of paths, and a directory that starts at the root and has neither
/// `.` nor `..` in it: names with or without slashes before them stand for what has these names
/// in the directory, which is `/` to the client.
pub proof fn names_stand_for_what_the_directory_holds(
    root: Seq<char>,
    n: nat,
    names: Seq<Seq<char>>,
)
    requires
        root.len() > 0,
        root[0] == '/',
        is_normal(components(PathStyle::Posix, root)),
        plain_names(names),
    ensures
        inside(PathStyle::Posix, root, slashes(n) + joined(names, seq!['/'])) == components(
            PathStyle::Posix,
            root,
        ) + as_parts(names),
        lexical(PathStyle::Posix, Some(root), slashes(n) + joined(names, seq!['/'])) is Ok,
        path_text(PathStyle::Posix, components(PathStyle::Posix, root)) == root ==> lexical(
            PathStyle::Posix,
            Some(root),
            slashes(n) + joined(names, seq!['/']),
        ) == Ok::<Seq<char>, StatusCode>(
            if names.len() == 0 {
                root
            } else {
                placed(PathStyle::Posix, root, joined(names, seq!['/']))
            },
        ),
{
    let style = PathStyle::Posix;
    let rel = joined(names, seq!['/']);
    let path = slashes(n) + rel;
    let r = components(style, root);
    let p = as_parts(names);
    assert forall|i: int| 0 <= i < p.len() implies (
    #[trigger] p[i] matches ComponentView::Normal(s) && plain_name(s)) by {
        assert(plain_name(names[i]));
    }
    if names.len() > 0 {
        text_of_placed_names(root, names);
    }
    slashes_are_passed(n, rel, 0);
    assert(path.skip(n as int) =~= rel);
    names_are_added(root, p);
    if names.len() == 0 {
        assert(p =~= Seq::<ComponentView>::empty());
        let joined_root = placed(style, root, rel);
        assert(rel =~= Seq::<char>::empty());
        if root.last() != '/' {
            assert(joined_root =~= root.push('/'));
            slash_adds_nothing(root);
        } else {
            assert(joined_root =~= root);
        }
    }
    let all = r + p;
    assert(components(style, placed(style, root, rel)) =~= all);
    assert forall|i: int| 0 <= i < all.len() implies !(#[trigger] all[i] is CurDir) && !(
    all[i] is ParentDir) by {
        if i < r.len() {
            assert(all[i] == r[i]);
        } else {
            assert(all[i] == p[i - r.len()]);
        }
    }
    plain_paths_are_kept(style, all);
    text_behind_parts(style, Seq::empty(), r, p);
}

/// A separator at the end of a path is no part of it.
proof fn slash_adds_nothing(p: Seq<char>)
    requires
        p.len() > 0,
        p[0] == '/',
        p.last() != '/',
    ensures
        components(PathStyle::Posix, p.push('/')) == components(PathStyle::Posix, p),
{
    let style = PathStyle::Posix;
    let t = p.push('/');
    assert(p.len() > 1);
    spans_slash(p, 1);
    spans_bounds(style, p, 1, false);
    let a = body_spans(style, p);
    assert(body_spans(style, t) == a);
    assert forall|i: int| 0 <= i < a.len() implies t.subrange(a[i].0, a[i].1)
        =~= #[trigger] p.subrange(a[i].0, a[i].1) by {}
    assert(parts_at(t, a) =~= parts_at(p, a));
    assert(head(style, t) =~= head(style, p));
}

proof fn spans_slash(p: Seq<char>, i: int)
    requires
        0 <= i < p.len(),
        p.last() != '/',
    ensures
        spans(PathStyle::Posix, p.push('/'), i, false) == spans(PathStyle::Posix, p, i, false),
    decreases p.len() - i,
{
    let style = PathStyle::Posix;
    let t = p.push('/');
    next_separator_bounds(style, p, i);
    next_separator_bounds(style, t, i);
    let e = next_separator(style, p, i);
    let f = next_separator(style, t, i);
    assert(separator(style, t[p.len() as int]));
    assert(f == e) by {
        if e < p.len() {
            assert(t[e] == p[e]);
        }
        if f < e {
            assert(t[f] == p[f]);
        }
        if f > e && e < p.len() {
            assert(separator(style, t[e]));
        }
    }
    assert(t.subrange(i, e) =~= p.subrange(i, e));
    if e < p.len() {
        assert(e + 1 < p.len()) by {
            if e + 1 == p.len() {
                assert(p.last() == p[e]);
            }
        }
        spans_slash(p, e + 1);
    } else {
        let b = (p.len() + 1) as int;
        next_separator_bounds(style, t, b);
        assert(t.subrange(b, b).len() == 0);
        assert(next_separator(style, t, b) == b);
        assert(spans(style, t, b + 1, false) =~= Seq::<(int, int)>::empty());
        assert(spans(style, t, b, false) =~= Seq::<(int, int)>::empty());
        assert(spans(style, p, b, false) =~= Seq::<(int, int)>::empty());
    }
}

proof fn spans_of_placed_names(root: Seq<char>, names: Seq<Seq<char>>)
    requires
        root.len() > 0,
        root[0] == '/',
        names.len() > 0,
        plain_names(names),
    ensures
        ({
            let t = text_behind(PathStyle::Posix, root, as_parts(names));
            let a = body_spans(PathStyle::Posix, root);
            let b = body_spans(PathStyle::Posix, t);
            &&& t.len() > 0 && t[0] == '/' && t.last() != '/'
            &&& b.len() == a.len() + names.len()
            &&& b[a.len() as int].0 == (if root.last() == '/' {
                root.len() as int
            } else {
                root.len() as int + 1
            })
            &&& b.last().1 == t.len()
        }),
    decreases names.len(),
{
    let style = PathStyle::Posix;
    let front = names.drop_last();
    let last = names.last();
    assert(plain_name(names[names.len() - 1]));
    let p = as_parts(names);
    assert(p.drop_last() =~= as_parts(front));
    let e = text_behind(style, root, as_parts(front));
    let t = text_behind(style, root, p);
    assert(last[0] != '/' && last[last.len() - 1] != '/');
    if front.len() > 0 {
        assert forall|i: int| 0 <= i < front.len() implies plain_name(#[trigger] front[i]) by {
            assert(front[i] == names[i]);
        }
        spans_of_placed_names(root, front);
    } else {
        assert(e == root);
    }
    assert(t == placed(style, e, last));
    if e.last() == '/' {
        assert(t == e + last);
        spans_extend_slash(e, last, 1);
    } else {
        assert(t == e + seq!['/'] + last);
        assert(e.len() > 1);
        spans_extend(e, last, 1);
    }
    assert(t[0] == '/');
    assert(prefix_len(style, t) == 0 && body_start(style, t) == 1 && rooted(style, t));
    assert(prefix_len(style, e) == 0 && body_start(style, e) == 1 && rooted(style, e));
    assert(t.last() == last[last.len() - 1]);
}

/// What has names in the directory that the client is held to is shown to it as `/` and these
/// names, as it asks for it. The directory itself is `/`.
pub proof fn names_are_shown_as_they_are_asked_for(root: Seq<char>, names: Seq<Seq<char>>)
    requires
        root.len() > 0,
        root[0] == '/',
        plain_names(names),
    ensures
        names.len() > 0 ==> shown(
            PathStyle::Posix,
            Some(root),
            placed(PathStyle::Posix, root, joined(names, seq!['/'])),
        ) == seq!['/'] + joined(names, seq!['/']),
        shown(PathStyle::Posix, Some(root), root) == seq!['/'],
{
    let style = PathStyle::Posix;
    let r = components(style, root);
    reveal_strlit("/");
    reveal_strlit("/.");
    assert("/"@ =~= seq!['/']);
    assert("/."@ =~= seq!['/', '.']);
    assert(head(style, root) =~= seq![ComponentView::RootDir]);
    assert(forall|i: int| 0 <= i < r.len() ==> equal_parts(#[trigger] r[i], r[i]));
    assert(under(r, r));
    let none = Seq::<char>::empty();
    assert(without_root(style, root, root) == none);
    assert("/"@ + none =~= "/"@);
    assert("/"@ + none != "/."@) by {
        assert(("/"@ + none).len() == 1 && "/."@.len() == 2);
    }
    if names.len() > 0 {
        let p = as_parts(names);
        let rel = joined(names, seq!['/']);
        let t = placed(style, root, rel);
        text_of_placed_names(root, names);
        spans_of_placed_names(root, names);
        assert forall|i: int| 0 <= i < p.len() implies (
        #[trigger] p[i] matches ComponentView::Normal(s) && plain_name(s)) by {
            assert(plain_name(names[i]));
        }
        names_are_added(root, p);
        let all = components(style, t);
        assert forall|i: int| 0 <= i < r.len() implies equal_parts(#[trigger] r[i], all[i]) by {
            assert(all[i] == r[i]);
        }
        assert(head(style, t) =~= seq![ComponentView::RootDir]);
        let a = body_spans(style, root);
        let b = body_spans(style, t);
        assert(r.len() == a.len() + 1);
        assert(text_from(style, t, r.len() as int) == t.subrange(b[a.len() as int].0, b.last().1));
        assert(t.subrange(b[a.len() as int].0, t.len() as int) =~= rel);
        let s = "/"@ + rel;
        if s == "/."@ {
            assert(rel =~= seq!['.']) by {
                assert(s[1] == rel[0] && s.len() == 2);
            }
            dot_is_no_name(names);
        }
    }
}

proof fn dot_is_no_name(names: Seq<Seq<char>>)
    requires
        names.len() > 0,
        plain_names(names),
    ensures
        joined(names, seq!['/']) != seq!['.'],
{
    let last = names.last();
    assert(plain_name(names[names.len() - 1]));
    if names.len() > 1 {
        let j = joined(names.drop_last(), seq!['/']);
        let s = joined(names, seq!['/']);
        assert(s == j + seq!['/'] + last);
        assert(s.len() >= 2);
    }
}

proof fn up_to_what_is_there(
    style: PathStyle,
    root: Seq<char>,
    w: WalkView,
    m: nat,
    there: spec_fn(Seq<char>) -> ProbeView,
    itself: bool,
)
    requires
        w.missing <= m <= w.parts.len() - w.base,
        forall|k: nat|
            w.missing <= k < m ==> there(walk_at(style, #[trigger] leaving_out(w, k))) is Nothing,
    ensures
        found_from(style, Some(root), w, there, itself) == found_from(
            style,
            Some(root),
            leaving_out(w, m),
            there,
            itself,
        ),
    decreases m - w.missing,
{
    assert(leaving_out(w, w.missing) =~= w);
    if w.missing < m {
        let next = leaving_out(w, w.missing + 1);
        assert(next == (WalkView { missing: w.missing + 1, ..w }));
        assert forall|k: nat| next.missing <= k < m implies there(
            walk_at(style, #[trigger] leaving_out(next, k)),
        ) is Nothing by {
            assert(leaving_out(next, k) =~= leaving_out(w, k));
        }
        up_to_what_is_there(style, root, next, m, there, itself);
        assert(leaving_out(next, m) =~= leaving_out(w, m));
    }
}

/// A path of a client stands for what is there with links followed, and where there is nothing
/// at its last names, for these names behind it. What does not lie in or under the directory
/// that the client is held to is denied.
pub proof fn paths_stand_for_what_is_there(
    style: PathStyle,
    root: Seq<char>,
    path: Seq<char>,
    m: nat,
    existing: Seq<char>,
    there: spec_fn(Seq<char>) -> ProbeView,
    itself: bool,
)
    requires
        rooted(style, root),
        lexical(style, Some(root), path) is Ok,
        m <= inside(style, root, path).len() - components(style, root).len(),
        forall|k: int|
            0 <= k < m ==> there(
                #[trigger] path_text(
                    style,
                    inside(style, root, path).take(inside(style, root, path).len() - k),
                ),
            ) is Nothing,
        there(
            path_text(style, inside(style, root, path).take(inside(style, root, path).len() - m)),
        ) == ProbeView::There(existing),
    ensures
        under(components(style, root), components(style, existing)) ==> found(
            style,
            Some(root),
            path,
            there,
            itself,
        ) == Ok::<Seq<char>, StatusCode>(
            text_behind(
                style,
                existing,
                inside(style, root, path).skip(inside(style, root, path).len() - m),
            ),
        ),
        !under(components(style, root), components(style, existing)) ==> found(
            style,
            Some(root),
            path,
            there,
            itself,
        ) == Err::<Seq<char>, StatusCode>(StatusCode::PermissionDenied),
{
    let p = inside(style, root, path);
    let w = begun_at(style, root, path);
    assert forall|k: nat| 0 <= k < m implies there(
        walk_at(style, #[trigger] leaving_out(w, k)),
    ) is Nothing by {
        assert(p.subrange(0, p.len() - k) =~= p.take(p.len() - k));
        assert(there(path_text(style, p.take(p.len() - (k as int)))) is Nothing);
    }
    up_to_what_is_there(style, root, w, m, there, itself);
    let end = leaving_out(w, m);
    assert(p.subrange(0, p.len() - m) =~= p.take(p.len() - m));
    assert(walk_rest(end) =~= p.skip(p.len() - m));
    assert forall|i: int| 0 <= i < walk_rest(end).len() implies (#[trigger] walk_rest(
        end,
    )[i]) is Normal by {
        own_parts_are_names(style, root, path, p.len() - m + i);
    }
}

/// A link at the path of a client that leads to nothing is followed, unless the request is about
/// the link itself: the path stands for the name where the link points, behind what is there
/// with links followed, and is denied where that does not lie in or under the directory.
pub proof fn links_to_nothing_are_followed(
    style: PathStyle,
    root: Seq<char>,
    path: Seq<char>,
    parent: Seq<char>,
    target: Seq<char>,
    existing: Seq<char>,
    there: spec_fn(Seq<char>) -> ProbeView,
)
    requires
        lexical(style, Some(root), path) is Ok,
        inside(style, root, path).len() > components(style, root).len(),
        there(path_text(style, inside(style, root, path))) == (ProbeView::Link { parent, target }),
        components(style, placed(style, parent, target)).len() > 1,
        components(style, placed(style, parent, target)).last() is Normal,
        there(path_text(style, components(style, placed(style, parent, target)))) is Nothing,
        there(
            path_text(style, components(style, placed(style, parent, target)).drop_last()),
        ) == ProbeView::There(existing),
    ensures
        under(components(style, root), components(style, existing)) ==> found(
            style,
            Some(root),
            path,
            there,
            false,
        ) == Ok::<Seq<char>, StatusCode>(
            placed(
                style,
                existing,
                components(style, placed(style, parent, target)).last()->Normal_0,
            ),
        ),
        !under(components(style, root), components(style, existing)) ==> found(
            style,
            Some(root),
            path,
            there,
            false,
        ) == Err::<Seq<char>, StatusCode>(StatusCode::PermissionDenied),
{
    let p = inside(style, root, path);
    let w = begun_at(style, root, path);
    assert(p.subrange(0, p.len() as int) =~= p);
    let c = components(style, placed(style, parent, target));
    let v = behind_link(style, w, parent, target);
    assert(walk_rest(w) =~= Seq::<ComponentView>::empty());
    assert(v.parts =~= c);
    assert(c.subrange(0, c.len() as int) =~= c);
    let u = leaving_out(v, 1);
    assert(u == (WalkView { missing: v.missing + 1, ..v }));
    assert(c.subrange(0, c.len() - 1) =~= c.drop_last());
    let rest = walk_rest(u);
    assert(rest =~= seq![c.last()]);
    assert(rest.drop_last() =~= Seq::<ComponentView>::empty());
    assert(rest.last() == c.last());
    assert(text_behind(style, existing, rest.drop_last()) == existing);
    reveal_with_fuel(found_from, 3);
}

/// What cannot be done with a file is told by its kind, at most 40 links are followed, and at
/// most a hundred entries of a directory are sent at once.
pub proof fn what_failures_and_limits_are(entries: usize, offset: usize)
    requires
        offset < entries,
    ensures
        failure_status(IoFailure::NotFound) == StatusCode::NoSuchFile,
        failure_status(IoFailure::PermissionDenied) == StatusCode::PermissionDenied,
        failure_status(IoFailure::Other) == StatusCode::Failure,
        MOST_LINKS == 40,
        entries - offset > 100 ==> batch_end(entries, offset) == offset + 100,
        entries - offset <= 100 ==> batch_end(entries, offset) == entries,
{
}

/// What is opened is found under its handle, which is `h` and its number, until it is closed,
/// and what is open under another handle stays.
pub proof fn handles_are_kept(handles: Map<u64, HandleEntry>, id: u64, e: HandleEntry, other: u64)
    requires
        other != id,
    ensures
        handle_text(id) == seq!['h'] + digits(id as nat),
        entry(handles.insert(id, e), handle_text(id)) == Some((id, e)),
        entry(handles.insert(id, e), handle_text(other)) == entry(handles, handle_text(other)),
        entry(handles.remove(id), handle_text(id)) is None,
        entry(handles.remove(id), handle_text(other)) == entry(handles, handle_text(other)),
{
    reveal_strlit("h");
    assert("h"@ =~= seq!['h']);
    assert forall|a: u64, b: u64| #[trigger] handle_text(a) == #[trigger] handle_text(b) implies a
        == b by {
        handles_differ(a, b);
    }
    let with = handles.insert(id, e);
    let without = handles.remove(id);
    assert(with.contains_key(id) && handle_text(id) == handle_text(id));
    if handles.contains_key(other) {
        assert(with.contains_key(other) && without.contains_key(other) && handle_text(other)
            == handle_text(other));
    }
}

/// A name and `..` behind it take each other away, and `.` says nothing, wherever they stand.
pub proof fn names_and_dots_cancel(
    style: PathStyle,
    p: Seq<ComponentView>,
    name: Seq<char>,
    q: Seq<ComponentView>,
)
    requires
        drive_len(style, name) == 0,
    ensures
        normalized(style, p + seq![ComponentView::Normal(name), ComponentView::ParentDir] + q)
            == normalized(style, p + q),
        normalized(style, p + seq![ComponentView::CurDir] + q) == normalized(style, p + q),
{
    let one = p.push(ComponentView::Normal(name));
    let two = p + seq![ComponentView::Normal(name), ComponentView::ParentDir];
    assert(two.drop_last() =~= one);
    assert(one.drop_last() =~= p);
    let out = normalized(style, p);
    assert(normalized(style, one) == out.push(ComponentView::Normal(name)));
    assert(out.push(ComponentView::Normal(name)).drop_last() =~= out);
    assert(normalized(style, two) == out);
    normalized_alike(style, two, p, q);
    let dot = p + seq![ComponentView::CurDir];
    assert(dot.drop_last() =~= p);
    assert(normalized(style, dot) == out);
    normalized_alike(style, dot, p, q);
}

proof fn parent_is_added(e: Seq<char>)
    requires
        e.len() > 0,
        e[0] == '/',
        e.last() != '/',
    ensures
        components(PathStyle::Posix, e + seq!['/', '.', '.']) == components(
            PathStyle::Posix,
            e,
        ).push(ComponentView::ParentDir),
{
    let style = PathStyle::Posix;
    let up = seq!['.', '.'];
    let t = e + seq!['/', '.', '.'];
    assert(t =~= e + seq!['/'] + up);
    assert(e.len() > 1);
    assert(up[0] == '.' && up.len() == 2 && seq!['.'].len() == 1);
    spans_extend(e, up, 1);
    spans_bounds(style, e, 1, false);
    let a = body_spans(style, e);
    let b = body_spans(style, t);
    assert(t[0] == '/');
    assert(prefix_len(style, t) == 0 && body_start(style, t) == 1 && rooted(style, t));
    assert(prefix_len(style, e) == 0 && body_start(style, e) == 1 && rooted(style, e));
    assert(t.subrange((e.len() + 1) as int, t.len() as int) =~= up);
    assert forall|i: int| 0 <= i < a.len() implies t.subrange(a[i].0, a[i].1)
        =~= #[trigger] e.subrange(a[i].0, a[i].1) by {}
    assert(parts_at(t, b) =~= parts_at(e, a).push(ComponentView::ParentDir));
    assert(head(style, t) =~= head(style, e));
    assert(components(style, t) =~= components(style, e).push(ComponentView::ParentDir));
}

/// The text that a path above the directory stands for.
proof fn text_beside(root: Seq<char>, text: Seq<char>)
    requires
        root.len() > 0,
        root.last() != '/',
        text.len() > 0,
        text[0] != '/',
    ensures
        ({
            let path = seq!['/', '.', '.', '/'] + text;
            placed(PathStyle::Posix, root, path.skip(after_slashes(path, 0))) == placed(
                PathStyle::Posix,
                root + seq!['/', '.', '.'],
                text,
            )
        }),
{
    let style = PathStyle::Posix;
    let path = seq!['/', '.', '.', '/'] + text;
    let rel = seq!['.', '.', '/'] + text;
    let up = root + seq!['/', '.', '.'];
    assert(path =~= slashes(1) + rel);
    assert(rel[0] == '.');
    slashes_are_passed(1, rel, 0);
    assert(path.skip(1) =~= rel);
    assert(up.last() == '.');
    assert(placed(style, up, text) == up + seq!['/'] + text);
    assert(placed(style, root, rel) == root + seq!['/'] + rel);
    assert(up + seq!['/'] + text =~= root + seq!['/'] + rel);
}

/// The parts of a path above the directory.
proof fn parts_beside(root: Seq<char>, names: Seq<Seq<char>>)
    requires
        root.len() > 0,
        root[0] == '/',
        root.last() != '/',
        names.len() > 0,
        plain_names(names),
    ensures
        components(
            PathStyle::Posix,
            placed(PathStyle::Posix, root + seq!['/', '.', '.'], joined(names, seq!['/'])),
        ) == components(PathStyle::Posix, root).push(ComponentView::ParentDir) + as_parts(names),
{
    let p = as_parts(names);
    let up = root + seq!['/', '.', '.'];
    parent_is_added(root);
    text_of_placed_names(up, names);
    assert forall|i: int| 0 <= i < p.len() implies (
    #[trigger] p[i] matches ComponentView::Normal(s) && plain_name(s)) by {
        assert(plain_name(names[i]));
    }
    assert(up[0] == '/');
    names_are_added(up, p);
}

/// Where a path above the directory leads.
proof fn normalized_beside(r: Seq<ComponentView>, last: Seq<char>, names: Seq<Seq<char>>)
    requires
        is_normal(r),
        r.len() > 0,
        r.last() == ComponentView::Normal(last),
    ensures
        normalized(
            PathStyle::Posix,
            r.push(ComponentView::ParentDir) + as_parts(names),
        ) == r.drop_last() + as_parts(names),
{
    let style = PathStyle::Posix;
    let p = as_parts(names);
    let front = r.drop_last();
    let two = seq![ComponentView::Normal(last), ComponentView::ParentDir];
    assert(r.push(ComponentView::ParentDir) + p =~= front + two + p);
    names_and_dots_cancel(style, front, last, p);
    let all = front + p;
    assert forall|i: int| 0 <= i < all.len() implies !(#[trigger] all[i] is CurDir) && !(
    all[i] is ParentDir) by {
        if i < front.len() {
            assert(all[i] == r[i]);
        } else {
            assert(all[i] == p[i - front.len()]);
        }
    }
    plain_paths_are_kept(style, all);
}

/// With `/` between the parts of paths, and a directory that starts at the root and has neither
/// `.` nor `..` in it: a path that goes above the directory and into another one is denied,
/// whatever there is.
pub proof fn neighbours_are_denied(
    root: Seq<char>,
    names: Seq<Seq<char>>,
    there: spec_fn(Seq<char>) -> ProbeView,
    itself: bool,
)
    requires
        root.len() > 0,
        root[0] == '/',
        root.last() != '/',
        is_normal(components(PathStyle::Posix, root)),
        components(PathStyle::Posix, root).len() > 1,
        names.len() > 0,
        plain_names(names),
        components(PathStyle::Posix, root).last() != ComponentView::Normal(names[0]),
    ensures
        found(
            PathStyle::Posix,
            Some(root),
            seq!['/', '.', '.', '/'] + joined(names, seq!['/']),
            there,
            itself,
        ) == Err::<Seq<char>, StatusCode>(StatusCode::PermissionDenied),
{
    let style = PathStyle::Posix;
    let text = joined(names, seq!['/']);
    let path = seq!['/', '.', '.', '/'] + text;
    let r = components(style, root);
    let p = as_parts(names);
    text_of_placed_names(root, names);
    text_beside(root, text);
    parts_beside(root, names);
    absolute_components(root);
    assert(r[r.len() - 1] == r.last());
    normalized_beside(r, r.last()->Normal_0, names);
    let all = r.drop_last() + p;
    assert(inside(style, root, path) == all);
    assert(all[r.len() - 1] == ComponentView::Normal(names[0]));
    if under(r, all) {
        assert(equal_parts(r[r.len() - 1], all[r.len() - 1]));
    }
    escapes_are_denied(style, root, path, there, itself);
}

/// What does not lie under the directory that the client is held to is shown with `/` before it.
pub proof fn other_paths_are_shown_behind_a_slash(style: PathStyle, root: Seq<char>, p: Seq<char>)
    requires
        !under(components(style, root), components(style, p)),
        p != seq!['.'],
    ensures
        shown(style, Some(root), p) == seq!['/'] + p,
{
    reveal_strlit("/");
    reveal_strlit("/.");
    assert("/"@ =~= seq!['/']);
    let s = seq!['/'] + p;
    if s == "/."@ {
        assert(s.len() == 2 && s[1] == p[0]);
        assert(p =~= seq!['.']);
    }
}

/// Whether `s` can stand between two separators of Windows and means itself.
pub open spec fn plain_windows_name(s: Seq<char>) -> bool {
    &&& s.len() > 0
    &&& s != seq!['.']
    &&& s != seq!['.', '.']
    &&& drive_len(PathStyle::Windows, s) == 0
    &&& forall|i: int| 0 <= i < s.len() ==> #[trigger] s[i] != '/' && s[i] != '\\'
}

/// Names that can stand between two separators of Windows and mean themselves.
pub open spec fn plain_windows_names(names: Seq<Seq<char>>) -> bool {
    forall|i: int| 0 <= i < names.len() ==> plain_windows_name(#[trigger] names[i])
}

/// The parts of a path from an index on.
spec fn parts_from(p: Seq<char>, i: int) -> Seq<ComponentView> {
    parts_at(p, spans(PathStyle::Windows, p, i, false))
}

proof fn first_part(p: Seq<char>, i: int, e: int)
    requires
        0 <= i <= e <= p.len(),
        plain_windows_name(p.subrange(i, e)),
        e == p.len() || p[e] == '/' || p[e] == '\\',
    ensures
        parts_from(p, i) == seq![ComponentView::Normal(p.subrange(i, e))] + parts_from(p, e + 1),
{
    let style = PathStyle::Windows;
    let name = p.subrange(i, e);
    next_separator_bounds(style, p, i);
    let n = next_separator(style, p, i);
    if n < e {
        assert(name[n - i] == p[n]);
    }
    if n > e {
        assert(separator(style, p[e]));
    }
    let rest = spans(style, p, e + 1, false);
    let all = spans(style, p, i, false);
    assert(all == seq![(i, e)] + rest);
    assert(parts_at(p, all) =~= seq![ComponentView::Normal(name)] + parts_at(p, rest));
}

proof fn parts_of_names(p: Seq<char>, i: int, names: Seq<Seq<char>>, sep: char, j: int)
    requires
        0 <= i <= j <= p.len(),
        sep == '/' || sep == '\\',
        names.len() > 0,
        plain_windows_names(names),
        p.subrange(i, j) == joined(names, seq![sep]),
        j == p.len() || p[j] == '/' || p[j] == '\\',
    ensures
        parts_from(p, i) == as_parts(names) + parts_from(p, j + 1),
    decreases names.len(),
{
    let text = p.subrange(i, j);
    let first = names[0];
    assert(plain_windows_name(names[0]));
    if names.len() == 1 {
        first_part(p, i, j);
        assert(as_parts(names) =~= seq![ComponentView::Normal(first)]);
    } else {
        joined_front(names, seq![sep]);
        let more = names.skip(1);
        let rest = joined(more, seq![sep]);
        let e = i + first.len();
        assert(text == first + seq![sep] + rest);
        assert(p.subrange(i, e) =~= first) by {
            assert forall|k: int| 0 <= k < first.len() implies p[i + k] == #[trigger] first[k] by {
                assert(text[k] == p[i + k]);
            }
        }
        assert(p[e] == sep) by {
            assert(text[first.len() as int] == p[e]);
        }
        first_part(p, i, e);
        assert(p.subrange(e + 1, j) =~= rest) by {
            assert forall|k: int| 0 <= k < rest.len() implies p[e + 1 + k] == #[trigger] rest[k] by {
                assert(text[first.len() + 1 + k] == p[e + 1 + k]);
            }
        }
        assert forall|k: int| 0 <= k < more.len() implies plain_windows_name(#[trigger] more[k]) by {
            assert(more[k] == names[k + 1]);
        }
        parts_of_names(p, e + 1, more, sep, j);
        assert(as_parts(names) =~= seq![ComponentView::Normal(first)] + as_parts(more));
        assert(seq![ComponentView::Normal(first)] + (as_parts(more) + parts_from(p, j + 1))
            =~= as_parts(names) + parts_from(p, j + 1));
    }
}

/// The path of a drive with names behind its root.
pub open spec fn drive_path(letter: char, names: Seq<Seq<char>>) -> Seq<char> {
    seq![letter, ':', '\\'] + joined(names, seq!['\\'])
}

/// The parts of a path of a drive are the drive, its root and its names, and with more names
/// behind it, whichever separator stands between them, these too.
pub proof fn parts_of_drive_paths(
    letter: char,
    names: Seq<Seq<char>>,
    more: Seq<Seq<char>>,
    sep: char,
)
    requires
        'a' <= letter <= 'z' || 'A' <= letter <= 'Z',
        sep == '/' || sep == '\\',
        names.len() > 0,
        more.len() > 0,
        plain_windows_names(names),
        plain_windows_names(more),
    ensures
        components(PathStyle::Windows, drive_path(letter, names)) == seq![
            ComponentView::Prefix(seq![letter, ':']),
            ComponentView::RootDir,
        ] + as_parts(names),
        components(
            PathStyle::Windows,
            drive_path(letter, names) + seq!['\\'] + joined(more, seq![sep]),
        ) == seq![ComponentView::Prefix(seq![letter, ':']), ComponentView::RootDir] + as_parts(
            names,
        ) + as_parts(more),
{
    let style = PathStyle::Windows;
    let start = seq![letter, ':', '\\'];
    let p = drive_path(letter, names);
    let q = p + seq!['\\'] + joined(more, seq![sep]);
    let first = seq![ComponentView::Prefix(seq![letter, ':']), ComponentView::RootDir];
    let n = p.len() as int;
    assert(p[0] == letter && p[1] == ':' && p[2] == '\\');
    assert(q[0] == letter && q[1] == ':' && q[2] == '\\');
    assert(prefix_len(style, p) == 2 && prefix_len(style, q) == 2);
    assert(p.take(2) =~= seq![letter, ':'] && q.take(2) =~= seq![letter, ':']);
    assert(head(style, p) =~= first && head(style, q) =~= first);
    assert(p.subrange(3, n) =~= joined(names, seq!['\\']));
    parts_of_names(p, 3, names, '\\', n);
    assert(spans(style, p, n + 1, false) =~= Seq::<(int, int)>::empty());
    assert(parts_from(p, n + 1) =~= Seq::<ComponentView>::empty());
    assert(as_parts(names) + parts_from(p, n + 1) =~= as_parts(names));
    assert(q.subrange(3, n) =~= joined(names, seq!['\\']));
    assert(q[n] == '\\');
    parts_of_names(q, 3, names, '\\', n);
    let m = q.len() as int;
    assert(q.subrange(n + 1, m) =~= joined(more, seq![sep]));
    parts_of_names(q, n + 1, more, sep, m);
    assert(spans(style, q, m + 1, false) =~= Seq::<(int, int)>::empty());
    assert(parts_from(q, m + 1) =~= Seq::<ComponentView>::empty());
    assert(as_parts(more) + parts_from(q, m + 1) =~= as_parts(more));
    assert(first + (as_parts(names) + as_parts(more)) =~= first + as_parts(names) + as_parts(more));
}

proof fn joined_ends(names: Seq<Seq<char>>, sep: char)
    requires
        names.len() > 0,
        plain_windows_names(names),
    ensures
        joined(names, seq![sep]).len() > 0,
        joined(names, seq![sep])[0] == names[0][0],
        joined(names, seq![sep]).last() == names.last().last(),
        names[0].len() > 1 ==> joined(names, seq![sep]).len() > 1 && joined(names, seq![sep])[1]
            == names[0][1],
        names[0].len() == 1 && names.len() > 1 ==> joined(names, seq![sep]).len() > 1 && joined(
            names,
            seq![sep],
        )[1] == sep,
        names[0].len() == 1 && names.len() == 1 ==> joined(names, seq![sep]).len() == 1,
    decreases names.len(),
{
    assert(plain_windows_name(names[0]));
    assert(plain_windows_name(names[names.len() - 1]));
    if names.len() > 1 {
        joined_front(names, seq![sep]);
        let front = names.drop_last();
        let s = joined(names, seq![sep]);
        assert(s == joined(front, seq![sep]) + seq![sep] + names.last());
        assert(s.last() == names.last()[names.last().len() - 1]);
    }
}

/// On Windows too, names with slashes or backslashes between them stand for what has these names
/// in the directory of a drive that the client is held to.
pub proof fn names_stand_for_what_the_drive_holds(
    letter: char,
    names: Seq<Seq<char>>,
    more: Seq<Seq<char>>,
    sep: char,
)
    requires
        'a' <= letter <= 'z' || 'A' <= letter <= 'Z',
        sep == '/' || sep == '\\',
        names.len() > 0,
        more.len() > 0,
        plain_windows_names(names),
        plain_windows_names(more),
    ensures
        inside(PathStyle::Windows, drive_path(letter, names), joined(more, seq![sep]))
            == components(PathStyle::Windows, drive_path(letter, names)) + as_parts(more),
        lexical(
            PathStyle::Windows,
            Some(drive_path(letter, names)),
            joined(more, seq![sep]),
        ) is Ok,
{
    let style = PathStyle::Windows;
    let root = drive_path(letter, names);
    let rel = joined(more, seq![sep]);
    let first = seq![ComponentView::Prefix(seq![letter, ':']), ComponentView::RootDir];
    parts_of_drive_paths(letter, names, more, sep);
    joined_ends(names, '\\');
    joined_ends(more, sep);
    assert(plain_windows_name(more[0]));
    assert(plain_windows_name(names[names.len() - 1]));
    assert(rel[0] != '/' && rel[0] != '\\');
    assert(after_slashes(rel, 0) == 0);
    assert(rel.skip(0) =~= rel);
    assert(root.last() == joined(names, seq!['\\']).last());
    assert(drive_len(style, rel) == 0) by {
        if drive_len(style, rel) == 2 {
            assert(more[0].len() > 1);
            assert(drive_len(style, more[0]) == 2);
        }
    }
    assert(placed(style, root, rel) == root + seq!['\\'] + rel);
    let r = components(style, root);
    let p = as_parts(more);
    let all = r + p;
    assert(components(style, placed(style, root, rel)) =~= all);
    assert forall|i: int| 0 <= i < all.len() implies !(#[trigger] all[i] is CurDir) && !(
    all[i] is ParentDir) && (all[i] matches ComponentView::Normal(s) ==> drive_len(style, s)
        == 0) by {
        if i >= r.len() {
            assert(all[i] == p[i - r.len()]);
            assert(plain_windows_name(more[i - r.len()]));
        } else if i >= 2 {
            assert(all[i] == as_parts(names)[i - 2]);
            assert(plain_windows_name(names[i - 2]));
        } else {
            assert(all[i] == first[i]);
        }
    }
    plain_paths_are_kept(style, all);
    assert forall|i: int| 0 <= i < r.len() implies equal_parts(#[trigger] r[i], all[i]) by {
        assert(all[i] == r[i]);
    }
}

/// The letter of a drive may be a capital or not, and another letter is another drive. Anything
/// else of a path has to be the same.
pub proof fn when_drives_are_the_same(a: char, b: char, s: Seq<char>, t: Seq<char>)
    requires
        'a' <= a <= 'z' || 'A' <= a <= 'Z',
        'a' <= b <= 'z' || 'A' <= b <= 'Z',
    ensures
        equal_parts(
            ComponentView::Prefix(seq![a, ':']),
            ComponentView::Prefix(seq![b, ':']),
        ) <==> a == b || a as int == b as int + 32 || b as int == a as int + 32,
        equal_parts(ComponentView::Normal(s), ComponentView::Normal(t)) <==> s == t,
        equal_parts(ComponentView::RootDir, ComponentView::RootDir),
        !equal_parts(ComponentView::RootDir, ComponentView::Normal(s)),
{
    let x = seq![a, ':'];
    let y = seq![b, ':'];
    assert(x.last() == ':' && y.last() == ':');
    assert(lowered(x)[0] == lower(a) && lowered(y)[0] == lower(b));
    assert(x[0] == a && y[0] == b);
    lowering_changes_capitals_only(x, 0);
    lowering_changes_capitals_only(y, 0);
    if lower(a) == lower(b) {
        assert(lowered(x) =~= lowered(y));
    }
}

/// On Windows a name that begins like a drive starts another path, whatever stands before it.
pub proof fn drives_start_other_paths(p: Seq<ComponentView>, letter: char, rest: Seq<char>)
    requires
        'a' <= letter <= 'z' || 'A' <= letter <= 'Z',
    ensures
        normalized(PathStyle::Windows, p.push(ComponentView::Normal(seq![letter, ':'] + rest)))
            == seq![ComponentView::Prefix(seq![letter, ':'])] + (if rest.len() > 0 {
            seq![ComponentView::Normal(rest)]
        } else {
            Seq::empty()
        }),
{
    let s = seq![letter, ':'] + rest;
    assert(s[0] == letter && s[1] == ':');
    assert(s.take(2) =~= seq![letter, ':']);
    assert(s.skip(2) =~= rest);
    assert(p.push(ComponentView::Normal(s)).drop_last() =~= p);
}

/// A session is held to the directory that it was given, and what was found is told as it is.
pub proof fn what_sessions_are_held_to(s: SftpSession, found: String, e: StatusCode)
    ensures
        s.root matches Some(root) ==> s.jail() == Some(root@),
        s.root is None ==> s.jail() is None,
        path_result(Ok(found)) == Ok::<Seq<char>, StatusCode>(found@),
        path_result(Err(e)) == Err::<Seq<char>, StatusCode>(e),
{
}

} // verus!
