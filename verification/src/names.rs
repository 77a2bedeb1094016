//! The order of names: characters are compared one by one, by code point, and a
//! name comes before every longer name that it begins.

use vstd::prelude::*;

use crate::text::to_chars;

verus! {

/// `a` comes strictly before `b`.
pub open spec fn precedes(a: Seq<char>, b: Seq<char>) -> bool
    decreases a.len(),
{
    if b.len() == 0 {
        false
    } else if a.len() == 0 {
        true
    } else if a[0] != b[0] {
        (a[0] as int) < (b[0] as int)
    } else {
        precedes(a.drop_first(), b.drop_first())
    }
}

/// Every name in `q` comes strictly before all names after it.
pub open spec fn strictly_ascending(q: Seq<Seq<char>>) -> bool {
    forall|i: int, j: int| 0 <= i < j < q.len() ==> #[trigger] precedes(q[i], q[j])
}

/// `q` lists the names of `s`, each once, in ascending order.
pub open spec fn lists_in_order(q: Seq<Seq<char>>, s: Set<Seq<char>>) -> bool {
    &&& strictly_ascending(q)
    &&& q.to_set() == s
}

/// The names of a finite set in ascending order.
pub open spec fn in_order(s: Set<Seq<char>>) -> Seq<Seq<char>> {
    choose|q: Seq<Seq<char>>| lists_in_order(q, s)
}

/// No name comes before itself.
pub proof fn precedes_irreflexive(a: Seq<char>)
    ensures
        !precedes(a, a),
    decreases a.len(),
{
    if a.len() > 0 {
        precedes_irreflexive(a.drop_first());
    }
}

/// What comes before a name that comes before `c` comes before `c`.
pub proof fn precedes_transitive(a: Seq<char>, b: Seq<char>, c: Seq<char>)
    requires
        precedes(a, b),
        precedes(b, c),
    ensures
        precedes(a, c),
    decreases a.len(),
{
    if a.len() > 0 && a[0] == b[0] && b[0] == c[0] {
        precedes_transitive(a.drop_first(), b.drop_first(), c.drop_first());
    }
}

/// Of two different names one comes before the other.
pub proof fn precedes_total(a: Seq<char>, b: Seq<char>)
    ensures
        a == b || precedes(a, b) || precedes(b, a),
    decreases a.len(),
{
    if a.len() > 0 && b.len() > 0 && a[0] == b[0] {
        precedes_total(a.drop_first(), b.drop_first());
        if a.drop_first() == b.drop_first() {
            assert(a =~= seq![a[0]] + a.drop_first());
            assert(b =~= seq![b[0]] + b.drop_first());
        }
    } else if a.len() == 0 && b.len() == 0 {
        assert(a =~= b);
    }
}

/// There is at most one listing of a set in ascending order.
pub proof fn listing_unique(p: Seq<Seq<char>>, q: Seq<Seq<char>>)
    requires
        strictly_ascending(p),
        strictly_ascending(q),
        p.to_set() == q.to_set(),
    ensures
        p == q,
    decreases p.len(),
{
    if p.len() == 0 {
        if q.len() > 0 {
            assert(q.to_set().contains(q[0]));
            assert(p.contains(q[0]));
        }
        assert(p =~= q);
    } else {
        assert(p.to_set().contains(p[0]));
        assert(q.contains(p[0]));
        assert(q.to_set().contains(q[0]));
        assert(p.contains(q[0]));
        let i = choose|i: int| 0 <= i < q.len() && q[i] == p[0];
        let j = choose|j: int| 0 <= j < p.len() && p[j] == q[0];
        if i > 0 {
            assert(precedes(q[0], q[i]));
            if j > 0 {
                assert(precedes(p[0], p[j]));
                precedes_transitive(p[0], q[0], p[0]);
            }
            precedes_irreflexive(p[0]);
        }
        assert(p[0] == q[0]);
        let pr = p.drop_first();
        let qr = q.drop_first();
        assert(strictly_ascending(pr)) by {
            assert forall|a: int, b: int| 0 <= a < b < pr.len() implies #[trigger] precedes(pr[a], pr[b]) by {
                assert(precedes(p[a + 1], p[b + 1]));
            }
        }
        assert(strictly_ascending(qr)) by {
            assert forall|a: int, b: int| 0 <= a < b < qr.len() implies #[trigger] precedes(qr[a], qr[b]) by {
                assert(precedes(q[a + 1], q[b + 1]));
            }
        }
        assert(pr.to_set() =~= qr.to_set()) by {
            assert forall|x: Seq<char>| pr.to_set().contains(x) == qr.to_set().contains(x) by {
                rest_of_listing(p, x);
                rest_of_listing(q, x);
                assert(p.to_set().contains(x) == p.contains(x));
                assert(q.to_set().contains(x) == q.contains(x));
                assert(pr.to_set().contains(x) == pr.contains(x));
                assert(qr.to_set().contains(x) == qr.contains(x));
            }
        }
        listing_unique(pr, qr);
        assert(p =~= seq![p[0]] + pr);
        assert(q =~= seq![q[0]] + qr);
    }
}

/// What follows the first name of a listing is all of it but that name.
proof fn rest_of_listing(q: Seq<Seq<char>>, x: Seq<char>)
    requires
        q.len() > 0,
        strictly_ascending(q),
    ensures
        q.drop_first().contains(x) <==> q.contains(x) && x != q[0],
{
    if q.drop_first().contains(x) {
        let k = choose|k: int| 0 <= k < q.drop_first().len() && q.drop_first()[k] == x;
        assert(q[k + 1] == x);
        assert(precedes(q[0], q[k + 1]));
        precedes_irreflexive(x);
    }
    if q.contains(x) && x != q[0] {
        let k = choose|k: int| 0 <= k < q.len() && q[k] == x;
        assert(q.drop_first()[k - 1] == x);
    }
}

/// A listing with one more name put where it belongs.
proof fn listing_insert(q: Seq<Seq<char>>, x: Seq<char>) -> (r: Seq<Seq<char>>)
    requires
        strictly_ascending(q),
        !q.contains(x),
    ensures
        lists_in_order(r, q.to_set().insert(x)),
    decreases q.len(),
{
    if q.len() == 0 {
        let r = seq![x];
        assert(r.to_set() =~= q.to_set().insert(x)) by {
            assert(r[0] == x);
        }
        r
    } else {
        let last = q.last();
        let init = q.drop_last();
        assert(q =~= init.push(last));
        assert(q[q.len() - 1] == last);
        assert(strictly_ascending(init)) by {
            assert forall|a: int, b: int| 0 <= a < b < init.len() implies #[trigger] precedes(init[a], init[b]) by {
                assert(precedes(q[a], q[b]));
            }
        }
        precedes_total(x, last);
        if precedes(last, x) {
            let r = q.push(x);
            assert forall|a: int, b: int| 0 <= a < b < r.len() implies #[trigger] precedes(r[a], r[b]) by {
                if b < q.len() {
                    assert(precedes(q[a], q[b]));
                } else if a < q.len() - 1 {
                    assert(precedes(q[a], q[q.len() - 1]));
                    precedes_transitive(q[a], last, x);
                }
            }
            assert(r.to_set() =~= q.to_set().insert(x)) by {
                assert(r[q.len() as int] == x);
                assert forall|y: Seq<char>| q.contains(y) implies r.contains(y) by {
                    let k = choose|k: int| 0 <= k < q.len() && q[k] == y;
                    assert(r[k] == y);
                }
            }
            r
        } else {
            assert(!init.contains(x)) by {
                if init.contains(x) {
                    let k = choose|k: int| 0 <= k < init.len() && init[k] == x;
                    assert(q[k] == x);
                }
            }
            let s = listing_insert(init, x);
            let r = s.push(last);
            assert forall|y: Seq<char>| s.contains(y) <==> init.contains(y) || y == x by {
                assert(s.to_set().contains(y) == init.to_set().insert(x).contains(y));
            }
            assert forall|a: int, b: int| 0 <= a < b < r.len() implies #[trigger] precedes(r[a], r[b]) by {
                if b < s.len() {
                    assert(precedes(s[a], s[b]));
                } else {
                    assert(s.contains(s[a]));
                    if init.contains(s[a]) {
                        let k = choose|k: int| 0 <= k < init.len() && init[k] == s[a];
                        assert(precedes(q[k], q[q.len() - 1]));
                    }
                }
            }
            assert(r.to_set() =~= q.to_set().insert(x)) by {
                assert forall|y: Seq<char>| r.contains(y) <==> q.contains(y) || y == x by {
                    if r.contains(y) {
                        let k = choose|k: int| 0 <= k < r.len() && r[k] == y;
                        if k < s.len() {
                            assert(s.contains(s[k]));
                            if init.contains(y) {
                                let m = choose|m: int| 0 <= m < init.len() && init[m] == y;
                                assert(q[m] == y);
                            }
                        }
                    }
                    if q.contains(y) {
                        let k = choose|k: int| 0 <= k < q.len() && q[k] == y;
                        if k < init.len() {
                            assert(init[k] == y);
                            assert(s.contains(y));
                            let m = choose|m: int| 0 <= m < s.len() && s[m] == y;
                            assert(r[m] == y);
                        } else {
                            assert(r[s.len() as int] == y);
                        }
                    }
                    if y == x {
                        assert(s.contains(x));
                        let m = choose|m: int| 0 <= m < s.len() && s[m] == x;
                        assert(r[m] == x);
                    }
                }
            }
            r
        }
    }
}

/// A finite set has a listing in ascending order, and `in_order` is it.
pub proof fn in_order_lists(s: Set<Seq<char>>)
    requires
        s.finite(),
    ensures
        lists_in_order(in_order(s), s),
    decreases s.len(),
{
    let witness = listing_of(s);
    assert(lists_in_order(witness, s));
}

proof fn listing_of(s: Set<Seq<char>>) -> (q: Seq<Seq<char>>)
    requires
        s.finite(),
    ensures
        lists_in_order(q, s),
    decreases s.len(),
{
    if s.len() == 0 {
        let q = Seq::<Seq<char>>::empty();
        assert(s =~= Set::empty());
        assert(q.to_set() =~= s);
        q
    } else {
        let a = s.choose();
        let rest = listing_of(s.remove(a));
        assert(!rest.contains(a)) by {
            assert(rest.to_set().contains(a) == s.remove(a).contains(a));
        }
        let q = listing_insert(rest, a);
        assert(s.remove(a).insert(a) =~= s);
        q
    }
}

/// Whether the code point of `c` is below that of `d`.
fn lower_code_point(c: char, d: char) -> (r: bool)
    ensures
        r == ((c as int) < (d as int)),
{
    (c as u32) < (d as u32)
}

/// Whether `a` comes strictly before `b`.
pub fn comes_before(a: &str, b: &str) -> (r: bool)
    ensures
        r == precedes(a@, b@),
{
    let x = to_chars(a);
    let y = to_chars(b);
    let mut i: usize = 0;
    assert(x@.skip(0) =~= x@);
    assert(y@.skip(0) =~= y@);
    while i < x.len() && i < y.len()
        invariant
            x@ == a@,
            y@ == b@,
            i <= x.len(),
            i <= y.len(),
            precedes(x@, y@) == precedes(x@.skip(i as int), y@.skip(i as int)),
        decreases x.len() - i,
    {
        let ghost p = x@.skip(i as int);
        let ghost q = y@.skip(i as int);
        assert(p[0] == x@[i as int] && q[0] == y@[i as int]);
        if x[i] != y[i] {
            return lower_code_point(x[i], y[i]);
        }
        assert(p.drop_first() =~= x@.skip(i + 1));
        assert(q.drop_first() =~= y@.skip(i + 1));
        i = i + 1;
    }
    i < y.len()
}

} // verus!
