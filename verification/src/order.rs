//! Putting things in order.

use vstd::prelude::*;

verus! {

/// Things that can be put in order.
pub trait Ranked: Sized {
    /// Whether `a` may stand before `b`.
    spec fn ranks(a: Self, b: Self) -> bool;

    proof fn ranks_transitively(a: Self, b: Self, c: Self)
        requires
            Self::ranks(a, b),
            Self::ranks(b, c),
        ensures
            Self::ranks(a, c),
    ;

    proof fn ranks_totally(a: Self, b: Self)
        ensures
            Self::ranks(a, b) || Self::ranks(b, a),
    ;

    fn may_precede(&self, other: &Self) -> (r: bool)
        ensures
            r == Self::ranks(*self, *other),
    ;
}

/// Whether `a` may stand before `b`, in rising or in falling order.
pub open spec fn leads<T: Ranked>(a: T, b: T, rising: bool) -> bool {
    if rising {
        T::ranks(a, b)
    } else {
        T::ranks(b, a)
    }
}

/// Whether things stand in rising or in falling order.
pub open spec fn ranked<T: Ranked>(v: Seq<T>, rising: bool) -> bool {
    forall|i: int, j: int| 0 <= i < j < v.len() ==> leads(#[trigger] v[i], #[trigger] v[j], rising)
}

proof fn leads_transitively<T: Ranked>(a: T, b: T, c: T, rising: bool)
    requires
        leads(a, b, rising),
        leads(b, c, rising),
    ensures
        leads(a, c, rising),
{
    if rising {
        T::ranks_transitively(a, b, c);
    } else {
        T::ranks_transitively(c, b, a);
    }
}

proof fn popped<T>(v: Seq<T>)
    requires
        v.len() > 0,
    ensures
        v.to_multiset() == v.drop_last().to_multiset().insert(v.last()),
{
    assert(v.drop_last().push(v.last()) =~= v);
    v.drop_last().to_multiset_ensures();
}

fn merge<T: Ranked>(a: Vec<T>, b: Vec<T>, rising: bool) -> (r: Vec<T>)
    requires
        ranked(a@, !rising),
        ranked(b@, !rising),
    ensures
        ranked(r@, rising),
        r@.to_multiset() == a@.to_multiset().add(b@.to_multiset()),
{
    let ghost all = a@.to_multiset().add(b@.to_multiset());
    let mut a = a;
    let mut b = b;
    let mut out: Vec<T> = Vec::new();
    assert(out@.to_multiset().add(a@.to_multiset()).add(b@.to_multiset()) =~= all) by {
        out@.to_multiset_ensures();
    }
    while a.len() > 0 || b.len() > 0
        invariant
            ranked(a@, !rising),
            ranked(b@, !rising),
            ranked(out@, rising),
            out@.to_multiset().add(a@.to_multiset()).add(b@.to_multiset()) == all,
            forall|i: int, j: int|
                0 <= i < out@.len() && 0 <= j < a@.len() ==> leads(
                    #[trigger] out@[i],
                    #[trigger] a@[j],
                    rising,
                ),
            forall|i: int, j: int|
                0 <= i < out@.len() && 0 <= j < b@.len() ==> leads(
                    #[trigger] out@[i],
                    #[trigger] b@[j],
                    rising,
                ),
        decreases a.len() + b.len(),
    {
        let left: bool = if a.len() == 0 {
            false
        } else if b.len() == 0 {
            true
        } else {
            let x = &a[a.len() - 1];
            let y = &b[b.len() - 1];
            if rising {
                x.may_precede(y)
            } else {
                y.may_precede(x)
            }
        };
        let ghost o = out@;
        let ghost a0 = a@;
        let ghost b0 = b@;
        proof {
            o.to_multiset_ensures();
        }
        if left {
            proof {
                popped(a0);
                assert forall|j: int| 0 <= j < b0.len() implies leads(
                    a0.last(),
                    #[trigger] b0[j],
                    rising,
                ) by {
                    if j < b0.len() - 1 {
                        assert(leads(b0[j], b0[b0.len() - 1], !rising));
                        leads_transitively(a0.last(), b0.last(), b0[j], rising);
                    }
                }
                assert forall|j: int| 0 <= j < a0.len() - 1 implies leads(
                    a0.last(),
                    #[trigger] a0[j],
                    rising,
                ) by {
                    assert(leads(a0[j], a0[a0.len() - 1], !rising));
                }
            }
            match a.pop() {
                Some(x) => {
                    assert(a@ =~= a0.drop_last());
                    out.push(x);
                },
                None => {},
            }
            assert(out@ == o.push(a0.last()));
            assert(out@.to_multiset().add(a@.to_multiset()).add(b@.to_multiset()) =~= all);
        } else {
            proof {
                popped(b0);
                if a0.len() > 0 {
                    T::ranks_totally(a0.last(), b0.last());
                }
                assert forall|j: int| 0 <= j < a0.len() implies leads(
                    b0.last(),
                    #[trigger] a0[j],
                    rising,
                ) by {
                    if j < a0.len() - 1 {
                        assert(leads(a0[j], a0[a0.len() - 1], !rising));
                        leads_transitively(b0.last(), a0.last(), a0[j], rising);
                    }
                }
                assert forall|j: int| 0 <= j < b0.len() - 1 implies leads(
                    b0.last(),
                    #[trigger] b0[j],
                    rising,
                ) by {
                    assert(leads(b0[j], b0[b0.len() - 1], !rising));
                }
            }
            match b.pop() {
                Some(x) => {
                    assert(b@ =~= b0.drop_last());
                    out.push(x);
                },
                None => {},
            }
            assert(out@ == o.push(b0.last()));
            assert(out@.to_multiset().add(a@.to_multiset()).add(b@.to_multiset()) =~= all);
        }
    }
    proof {
        a@.to_multiset_ensures();
        b@.to_multiset_ensures();
        assert(a@ =~= Seq::empty());
        assert(b@ =~= Seq::empty());
        assert(out@.to_multiset().add(a@.to_multiset()).add(b@.to_multiset())
            =~= out@.to_multiset());
    }
    out
}

/// The things in rising or in falling order.
pub fn sort<T: Ranked>(list: Vec<T>, rising: bool) -> (r: Vec<T>)
    ensures
        ranked(r@, rising),
        r@.to_multiset() == list@.to_multiset(),
    decreases list@.len(),
{
    if list.len() <= 1 {
        return list;
    }
    let ghost whole = list@;
    let mut front = list;
    let half: usize = front.len() / 2;
    let back = front.split_off(half);
    let ghost f = front@;
    let ghost b = back@;
    let a = sort(front, !rising);
    let z = sort(back, !rising);
    proof {
        assert(whole =~= f + b);
        vstd::seq_lib::lemma_multiset_commutative(f, b);
    }
    merge(a, z, rising)
}

} // verus!
