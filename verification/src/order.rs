//! The order of texts: character by character, a shorter text before its
//! continuations.

use crate::text::{chars, texts};
use vstd::prelude::*;
use vstd::seq_lib::group_to_multiset_ensures;

verus! {

/// Whether `a` stands before `b`.
pub open spec fn precedes(a: Seq<char>, b: Seq<char>) -> bool
    decreases a.len(),
{
    if a.len() == 0 {
        b.len() > 0
    } else if b.len() == 0 {
        false
    } else if a[0] != b[0] {
        a[0] < b[0]
    } else {
        precedes(a.skip(1), b.skip(1))
    }
}

/// Whether no text of `s` stands before an earlier one.
pub open spec fn in_order(s: Seq<Seq<char>>) -> bool {
    forall|i: int, j: int| 0 <= i < j < s.len() ==> !precedes(#[trigger] s[j], #[trigger] s[i])
}

/// `s` with `x` put in behind everything that it does not precede.
pub open spec fn inserted(s: Seq<Seq<char>>, x: Seq<char>) -> Seq<Seq<char>>
    decreases s.len(),
{
    if s.len() == 0 || !precedes(x, s.last()) {
        s.push(x)
    } else {
        inserted(s.drop_last(), x).push(s.last())
    }
}

/// The texts of `s` in their order.
pub open spec fn sorted(s: Seq<Seq<char>>) -> Seq<Seq<char>>
    decreases s.len(),
{
    if s.len() == 0 {
        s
    } else {
        inserted(sorted(s.drop_last()), s.last())
    }
}

proof fn precedes_once(a: Seq<char>, b: Seq<char>)
    ensures
        !(precedes(a, b) && precedes(b, a)),
    decreases a.len(),
{
    if a.len() > 0 && b.len() > 0 && a[0] == b[0] {
        precedes_once(a.skip(1), b.skip(1));
    }
}

proof fn precedes_through(a: Seq<char>, b: Seq<char>, c: Seq<char>)
    requires
        !precedes(b, a),
        !precedes(c, b),
    ensures
        !precedes(c, a),
    decreases a.len(),
{
    if a.len() > 0 && b.len() > 0 && c.len() > 0 && a[0] == b[0] && b[0] == c[0] {
        precedes_through(a.skip(1), b.skip(1), c.skip(1));
    }
}

proof fn inserted_in_order(s: Seq<Seq<char>>, x: Seq<char>)
    requires
        in_order(s),
    ensures
        in_order(inserted(s, x)),
        inserted(s, x).len() == s.len() + 1,
        inserted(s, x).to_multiset() == s.to_multiset().insert(x),
    decreases s.len(),
{
    broadcast use group_to_multiset_ensures;

    let r = inserted(s, x);
    if s.len() == 0 {
    } else if !precedes(x, s.last()) {
        assert forall|i: int, j: int| 0 <= i < j < r.len() implies !precedes(
            #[trigger] r[j],
            #[trigger] r[i],
        ) by {
            if j == s.len() && i < s.len() - 1 {
                assert(!precedes(s[s.len() - 1], s[i]));
                precedes_through(s[i], s.last(), x);
            }
        }
    } else {
        let front = s.drop_last();
        let z = s.last();
        assert(in_order(front)) by {
            assert forall|i: int, j: int| 0 <= i < j < front.len() implies !precedes(
                #[trigger] front[j],
                #[trigger] front[i],
            ) by {
                assert(front[j] == s[j] && front[i] == s[i]);
            }
        }
        inserted_in_order(front, x);
        let q = inserted(front, x);
        assert forall|i: int| 0 <= i < q.len() implies !precedes(z, #[trigger] q[i]) by {
            assert(q.to_multiset().count(q[i]) > 0);
            if q[i] == x {
                precedes_once(x, z);
            } else {
                assert(front.to_multiset().count(q[i]) > 0);
                assert(front.contains(q[i]));
                let k = choose|k: int| 0 <= k < front.len() && front[k] == q[i];
                assert(s[k] == q[i]);
                assert(!precedes(s[s.len() - 1], s[k]));
            }
        }
        assert forall|i: int, j: int| 0 <= i < j < r.len() implies !precedes(
            #[trigger] r[j],
            #[trigger] r[i],
        ) by {
            if j < q.len() {
                assert(r[j] == q[j] && r[i] == q[i]);
            } else {
                assert(r[i] == q[i]);
            }
        }
        assert(s =~= front.push(z));
        assert(r.to_multiset() =~= s.to_multiset().insert(x));
    }
}

/// Sorting keeps every text and puts them in order.
pub proof fn sorted_is_in_order(s: Seq<Seq<char>>)
    ensures
        in_order(sorted(s)),
        sorted(s).len() == s.len(),
        sorted(s).to_multiset() == s.to_multiset(),
    decreases s.len(),
{
    broadcast use group_to_multiset_ensures;

    if s.len() > 0 {
        sorted_is_in_order(s.drop_last());
        inserted_in_order(sorted(s.drop_last()), s.last());
        assert(s =~= s.drop_last().push(s.last()));
    }
}

/// Whether `a` stands before `b`.
pub fn stands_before(a: &str, b: &str) -> (r: bool)
    ensures
        r == precedes(a@, b@),
{
    let v = chars(a);
    let w = chars(b);
    let mut i: usize = 0;
    assert(a@.skip(0) =~= a@);
    assert(b@.skip(0) =~= b@);
    while i < v.len() && i < w.len()
        invariant
            v@ == a@,
            w@ == b@,
            i <= v@.len(),
            i <= w@.len(),
            precedes(a@, b@) == precedes(a@.skip(i as int), b@.skip(i as int)),
        decreases v@.len() - i,
    {
        assert(a@.skip(i as int)[0] == v@[i as int]);
        assert(b@.skip(i as int)[0] == w@[i as int]);
        if v[i] != w[i] {
            return v[i] < w[i];
        }
        assert(a@.skip(i as int).skip(1) =~= a@.skip(i + 1));
        assert(b@.skip(i as int).skip(1) =~= b@.skip(i + 1));
        i = i + 1;
    }
    i < w.len()
}

/// Puts `x` into the first texts in their order.
fn insert_text(v: &mut Vec<String>, x: String)
    ensures
        texts(final(v)@) == inserted(texts(old(v)@), x@),
{
    let ghost s = texts(v@);
    let mut n: usize = v.len();
    assert(s.take(n as int) + s.skip(n as int) =~= s);
    assert(s.take(n as int) =~= s);
    assert(inserted(s.take(n as int), x@) + s.skip(n as int) =~= inserted(s, x@));
    while n > 0 && stands_before(x.as_str(), v[n - 1].as_str())
        invariant
            s == texts(v@),
            n <= v@.len(),
            inserted(s, x@) == inserted(s.take(n as int), x@) + s.skip(n as int),
        decreases n,
    {
        proof {
            let t = s.take(n as int);
            assert(t.last() == v@[n - 1]@);
            assert(t.drop_last() =~= s.take(n - 1));
            assert(inserted(t, x@) + s.skip(n as int) =~= inserted(s.take(n - 1), x@) + s.skip(
                n - 1,
            ));
        }
        n = n - 1;
    }
    proof {
        let t = s.take(n as int);
        if n > 0 {
            assert(t.last() == v@[n - 1]@);
        }
        assert(inserted(t, x@) == t.push(x@));
        assert(texts(v@.insert(n as int, x)) =~= t.push(x@) + s.skip(n as int));
    }
    v.insert(n, x);
}

/// The texts of `v` in their order.
pub fn sort_texts(v: Vec<String>) -> (r: Vec<String>)
    ensures
        texts(r@) == sorted(texts(v@)),
{
    let mut r: Vec<String> = Vec::new();
    let mut i: usize = 0;
    let ghost s = texts(v@);
    assert(s.take(0) =~= Seq::<Seq<char>>::empty());
    assert(texts(r@) =~= Seq::<Seq<char>>::empty());
    while i < v.len()
        invariant
            s == texts(v@),
            i <= v@.len(),
            texts(r@) == sorted(s.take(i as int)),
        decreases v@.len() - i,
    {
        insert_text(&mut r, v[i].clone());
        proof {
            assert(s.take(i + 1).drop_last() =~= s.take(i as int));
            assert(s.take(i + 1).last() == v@[i as int]@);
        }
        i = i + 1;
    }
    assert(s.take(i as int) =~= s);
    r
}

proof fn same_start(p: Seq<char>, a: Seq<char>, b: Seq<char>)
    ensures
        precedes(p + a, p + b) == precedes(a, b),
    decreases p.len(),
{
    if p.len() == 0 {
        assert(p + a =~= a);
        assert(p + b =~= b);
    } else {
        same_start(p.skip(1), a, b);
        assert((p + a).skip(1) =~= p.skip(1) + a);
        assert((p + b).skip(1) =~= p.skip(1) + b);
        assert((p + a)[0] == p[0] && (p + b)[0] == p[0]);
    }
}

/// The first character in which two texts differ decides which one stands before the other, and
/// a text stands before its continuations.
pub proof fn the_first_difference_decides(
    p: Seq<char>,
    c: char,
    d: char,
    a: Seq<char>,
    b: Seq<char>,
)
    requires
        c < d,
    ensures
        precedes(p + seq![c] + a, p + seq![d] + b),
        !precedes(p + seq![d] + b, p + seq![c] + a),
        precedes(p, p + seq![c] + a),
        !precedes(p + seq![c] + a, p),
        !precedes(p, p),
{
    let x = seq![c] + a;
    let y = seq![d] + b;
    assert(p + seq![c] + a =~= p + x);
    assert(p + seq![d] + b =~= p + y);
    same_start(p, x, y);
    same_start(p, y, x);
    let none = Seq::<char>::empty();
    assert(p + none =~= p);
    same_start(p, none, x);
    same_start(p, x, none);
    same_start(p, none, none);
    assert(x[0] == c && y[0] == d);
}

} // verus!
