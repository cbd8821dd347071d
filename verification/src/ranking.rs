//! Putting things in order, largest first.

use crate::text::views;
use vstd::prelude::*;
use vstd::seq_lib::*;

verus! {

/// Something with a place in an order.
pub trait Placed: Sized {
    /// The place, by a first and then a second number.
    spec fn place(&self) -> (int, int);
}

/// Something whose place can be compared.
pub trait Ranked: Placed {
    /// Whether `self` comes before `other`: the larger one does.
    fn outranks(&self, other: &Self) -> (b: bool)
        ensures
            b == larger_place(self.place(), other.place()),
    ;
}

/// One place is above another.
pub open spec fn larger_place(a: (int, int), b: (int, int)) -> bool {
    a.0 > b.0 || (a.0 == b.0 && a.1 > b.1)
}

/// `s` with `x` behind everything that `x` does not outrank, from the back on.
pub open spec fn inserted<T: Placed>(s: Seq<T>, x: T) -> Seq<T>
    decreases s.len(),
{
    if s.len() > 0 && larger_place(x.place(), s.last().place()) {
        inserted(s.drop_last(), x).push(s.last())
    } else {
        s.push(x)
    }
}

/// `s` in order, largest first; what shares a place stays in the order it had.
pub open spec fn ordered<T: Placed>(s: Seq<T>) -> Seq<T>
    decreases s.len(),
{
    if s.len() == 0 {
        s
    } else {
        inserted(ordered(s.drop_last()), s.last())
    }
}

/// Nothing stands behind something that it outranks.
pub open spec fn in_order<T: Placed>(s: Seq<T>) -> bool {
    forall|i: int, j: int|
        #![trigger s[i], s[j]]
        0 <= i < j < s.len() ==> !larger_place(s[j].place(), s[i].place())
}

proof fn lemma_inserted<T: Placed>(s: Seq<T>, x: T)
    requires
        in_order(s),
    ensures
        in_order(inserted(s, x)),
        inserted(s, x).to_multiset() == s.to_multiset().insert(x),
        inserted(s, x).len() == s.len() + 1,
        forall|k: int|
            0 <= k < inserted(s, x).len() ==> (#[trigger] inserted(s, x)[k] == x || exists|m: int|
                0 <= m < s.len() && #[trigger] s[m] == inserted(s, x)[k]),
    decreases s.len(),
{
    broadcast use group_to_multiset_ensures;

    let r = inserted(s, x);
    if s.len() > 0 && larger_place(x.place(), s.last().place()) {
        let t = s.drop_last();
        assert(in_order(t)) by {
            assert forall|i: int, j: int|
                #![trigger t[i], t[j]]
                0 <= i < j < t.len() implies !larger_place(t[j].place(), t[i].place()) by {
                assert(!larger_place(s[j].place(), s[i].place()));
            }
        }
        lemma_inserted(t, x);
        let u = inserted(t, x);
        assert(s =~= t.push(s.last()));
        assert forall|k: int| 0 <= k < r.len() implies (#[trigger] r[k] == x || exists|m: int|
            0 <= m < s.len() && #[trigger] s[m] == r[k]) by {
            if k < u.len() {
                assert(u[k] == r[k]);
                if u[k] != x {
                    let m = choose|m: int| 0 <= m < t.len() && #[trigger] t[m] == u[k];
                    assert(s[m] == r[k]);
                }
            } else {
                assert(s[s.len() - 1] == r[k]);
            }
        }
        assert forall|i: int, j: int|
            #![trigger r[i], r[j]]
            0 <= i < j < r.len() implies !larger_place(r[j].place(), r[i].place()) by {
            if j < u.len() {
                assert(r[i] == u[i] && r[j] == u[j]);
            } else {
                assert(r[i] == u[i]);
                if u[i] != x {
                    let m = choose|m: int| 0 <= m < t.len() && #[trigger] t[m] == u[i];
                    assert(s[m] == t[m]);
                    assert(!larger_place(s[s.len() - 1].place(), s[m].place()));
                }
            }
        }
        assert(r.to_multiset() =~= s.to_multiset().insert(x));
    } else {
        assert forall|i: int, j: int|
            #![trigger r[i], r[j]]
            0 <= i < j < r.len() implies !larger_place(r[j].place(), r[i].place()) by {
            if j < s.len() {
                assert(r[i] == s[i] && r[j] == s[j]);
            } else {
                assert(r[i] == s[i]);
                assert(!larger_place(s[s.len() - 1].place(), s[i].place())) by {
                    if i < s.len() - 1 {
                        assert(!larger_place(s[s.len() - 1].place(), s[i].place()));
                    }
                }
            }
        }
        assert forall|k: int| 0 <= k < r.len() implies (#[trigger] r[k] == x || exists|m: int|
            0 <= m < s.len() && #[trigger] s[m] == r[k]) by {
            if k < s.len() {
                assert(s[k] == r[k]);
            }
        }
    }
}

/// Putting things in order loses and adds nothing, and nothing stands behind what it outranks.
pub proof fn lemma_ordered<T: Placed>(s: Seq<T>)
    ensures
        in_order(ordered(s)),
        ordered(s).to_multiset() == s.to_multiset(),
        ordered(s).len() == s.len(),
    decreases s.len(),
{
    broadcast use group_to_multiset_ensures;

    if s.len() > 0 {
        lemma_ordered(s.drop_last());
        lemma_inserted(ordered(s.drop_last()), s.last());
        assert(s =~= s.drop_last().push(s.last()));
    }
}

proof fn lemma_insert_position<T: Placed>(s: Seq<T>, x: T, k: int)
    requires
        0 <= k <= s.len(),
        forall|i: int| k <= i < s.len() ==> larger_place(x.place(), (#[trigger] s[i]).place()),
        k > 0 ==> !larger_place(x.place(), s[k - 1].place()),
    ensures
        inserted(s, x) == s.insert(k, x),
    decreases s.len(),
{
    if k < s.len() {
        let t = s.drop_last();
        assert(larger_place(x.place(), s[s.len() - 1].place()));
        assert forall|i: int| k <= i < t.len() implies larger_place(
            x.place(),
            (#[trigger] t[i]).place(),
        ) by {
            assert(t[i] == s[i]);
        }
        lemma_insert_position(t, x, k);
        assert(t.insert(k, x).push(s.last()) =~= s.insert(k, x));
    } else {
        assert(s.push(x) =~= s.insert(k, x));
    }
}

proof fn lemma_inserted_views<T: Placed + View>(s: Seq<T>, x: T) where T::V: Placed
    requires
        forall|y: T| #[trigger] y.place() == y@.place(),
    ensures
        views(inserted(s, x)) == inserted(views(s), x@),
    decreases s.len(),
{
    if s.len() > 0 {
        assert(views(s).drop_last() =~= views(s.drop_last()));
        assert(views(s).last() == s.last()@);
        assert(x.place() == x@.place() && s.last().place() == s.last()@.place());
    }
    if s.len() > 0 && larger_place(x.place(), s.last().place()) {
        lemma_inserted_views(s.drop_last(), x);
        assert(views(inserted(s, x)) =~= views(inserted(s.drop_last(), x)).push(s.last()@));
    } else {
        assert(views(inserted(s, x)) =~= views(s).push(x@));
    }
}

/// The order of things is that of their views, where both have the same places.
pub proof fn lemma_ordered_views<T: Placed + View>(s: Seq<T>) where T::V: Placed
    requires
        forall|y: T| #[trigger] y.place() == y@.place(),
    ensures
        views(ordered(s)) == ordered(views(s)),
    decreases s.len(),
{
    if s.len() > 0 {
        lemma_ordered_views(s.drop_last());
        lemma_inserted_views(ordered(s.drop_last()), s.last());
        assert(views(s).drop_last() =~= views(s.drop_last()));
        assert(views(s).last() == s.last()@);
    } else {
        assert(views(ordered(s)) =~= ordered(views(s)));
    }
}

/// Puts `v` in order, largest first; what shares a place stays in the order it had.
pub fn put_in_order<T: Ranked>(v: Vec<T>) -> (r: Vec<T>)
    ensures
        r@ == ordered(v@),
{
    let mut rest = v;
    let ghost all = rest@;
    let ghost mut done: int = 0;
    let mut out: Vec<T> = Vec::new();
    assert(all.take(0) =~= Seq::empty());
    assert(all.skip(0) =~= all);
    while rest.len() > 0
        invariant
            0 <= done <= all.len(),
            rest@ == all.skip(done),
            out@ == ordered(all.take(done)),
        decreases rest@.len(),
    {
        let x = rest.remove(0);
        proof {
            assert(x == all[done]);
            assert(rest@ =~= all.skip(done + 1));
            assert(all.take(done + 1).drop_last() =~= all.take(done));
        }
        let ghost before = out@;
        let mut k: usize = out.len();
        while k > 0 && x.outranks(&out[k - 1])
            invariant
                k <= out@.len(),
                out@ == before,
                forall|i: int|
                    k <= i < before.len() ==> larger_place(x.place(), (#[trigger] before[i]).place()),
            decreases k,
        {
            k = k - 1;
        }
        proof {
            lemma_insert_position(before, x, k as int);
        }
        out.insert(k, x);
        proof {
            done = done + 1;
        }
    }
    assert(all.take(done) =~= all);
    out
}

} // verus!
