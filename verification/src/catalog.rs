//! Lists of named things, kept in the order of their names, each name once.

use vstd::prelude::*;

use crate::text::{at_most, before, order_is_total, order_is_transitive, precedes, same};

verus! {

/// A thing with a name.
pub trait Named: View + Sized {
    /// The name in the model of a thing.
    spec fn name_in(v: Self::V) -> Seq<char>;

    fn name_ref(&self) -> (r: &String)
        ensures
            r@ == Self::name_in(self@),
    ;
}

/// The models of a list.
pub open spec fn views<T: Named>(v: Seq<T>) -> Seq<T::V> {
    Seq::new(v.len(), |i: int| v[i]@)
}

/// How many of the leading things have an earlier name.
pub open spec fn place_of<T: Named>(v: Seq<T::V>, name: Seq<char>) -> int
    decreases v.len(),
{
    if v.len() > 0 && precedes(T::name_in(v[0]), name) {
        1 + place_of::<T>(v.skip(1), name)
    } else {
        0
    }
}

/// The list with `x` in its place: instead of what has its name, or between its neighbours.
pub open spec fn filed<T: Named>(v: Seq<T::V>, x: T::V) -> Seq<T::V> {
    let k = place_of::<T>(v, T::name_in(x));
    if k < v.len() && T::name_in(v[k]) == T::name_in(x) {
        v.update(k, x)
    } else {
        v.insert(k, x)
    }
}

/// Whether the names stand in order, each once.
pub open spec fn by_name<T: Named>(v: Seq<T::V>) -> bool {
    forall|i: int, j: int|
        0 <= i < j < v.len() ==> precedes(
            T::name_in(#[trigger] v[i]),
            T::name_in(#[trigger] v[j]),
        )
}

/// The first thing with a name.
pub open spec fn named<T: Named>(v: Seq<T::V>, name: Seq<char>) -> Option<int>
    decreases v.len(),
{
    if v.len() == 0 {
        None
    } else {
        match named::<T>(v.drop_last(), name) {
            Some(i) => Some(i),
            None => if T::name_in(v.last()) == name {
                Some(v.len() - 1)
            } else {
                None
            },
        }
    }
}

pub proof fn named_is_first<T: Named>(v: Seq<T::V>, name: Seq<char>)
    ensures
        named::<T>(v, name) matches Some(i) ==> 0 <= i < v.len() && T::name_in(v[i]) == name
            && forall|j: int| 0 <= j < i ==> T::name_in(#[trigger] v[j]) != name,
        named::<T>(v, name) is None ==> forall|j: int|
            0 <= j < v.len() ==> T::name_in(#[trigger] v[j]) != name,
    decreases v.len(),
{
    if v.len() > 0 {
        let d = v.drop_last();
        named_is_first::<T>(d, name);
        assert forall|j: int| 0 <= j < d.len() implies d[j] == v[j] by {}
    }
}

proof fn place_bound<T: Named>(v: Seq<T::V>, name: Seq<char>)
    ensures
        0 <= place_of::<T>(v, name) <= v.len(),
        forall|i: int|
            0 <= i < place_of::<T>(v, name) ==> precedes(T::name_in(#[trigger] v[i]), name),
        place_of::<T>(v, name) < v.len() ==> !precedes(
            T::name_in(v[place_of::<T>(v, name)]),
            name,
        ),
    decreases v.len(),
{
    if v.len() > 0 && precedes(T::name_in(v[0]), name) {
        let t = v.skip(1);
        place_bound::<T>(t, name);
        assert forall|i: int| 0 <= i < place_of::<T>(v, name) implies precedes(
            T::name_in(#[trigger] v[i]),
            name,
        ) by {
            if i > 0 {
                assert(t[i - 1] == v[i]);
            }
        }
    }
}

proof fn strictly_between(a: Seq<char>, b: Seq<char>, c: Seq<char>)
    requires
        precedes(a, b),
        precedes(b, c),
    ensures
        precedes(a, c),
{
    order_is_total(a, b);
    order_is_total(b, c);
    if at_most(c, a) {
        order_is_transitive(c, a, b);
    }
}

/// Filing keeps the order, and what is filed can be found.
pub proof fn filing_keeps_order<T: Named>(v: Seq<T::V>, x: T::V)
    requires
        by_name::<T>(v),
    ensures
        by_name::<T>(filed::<T>(v, x)),
        filed::<T>(v, x).contains(x),
        forall|y: T::V|
            T::name_in(y) != T::name_in(x) ==> (#[trigger] filed::<T>(v, x).contains(y)
                <==> v.contains(y)),
{
    let n = T::name_in(x);
    let k = place_of::<T>(v, n);
    let r = filed::<T>(v, x);
    place_bound::<T>(v, n);
    let replace = k < v.len() && T::name_in(v[k]) == n;
    assert(r[k] == x);
    assert forall|i: int, j: int| 0 <= i < j < r.len() implies precedes(
        T::name_in(#[trigger] r[i]),
        T::name_in(#[trigger] r[j]),
    ) by {
        if !replace {
            if k < v.len() {
                order_is_total(T::name_in(v[k]), n);
            }
            if j == k {
                assert(r[i] == v[i]);
            } else if i == k {
                assert(r[j] == v[j - 1]);
                if j - 1 > k {
                    strictly_between(n, T::name_in(v[k]), T::name_in(v[j - 1]));
                }
            } else {
                assert(r[i] == v[if i < k { i } else { i - 1 }]);
                assert(r[j] == v[if j < k { j } else { j - 1 }]);
            }
        } else {
            assert(T::name_in(r[i]) == T::name_in(v[i]));
            assert(T::name_in(r[j]) == T::name_in(v[j]));
        }
    }
    assert forall|y: T::V| T::name_in(y) != n implies (#[trigger] r.contains(y) <==> v.contains(y)) by {
        if v.contains(y) {
            let i = choose|i: int| 0 <= i < v.len() && v[i] == y;
            if replace {
                assert(i != k);
                assert(r[i] == y);
            } else {
                assert(r[if i < k { i } else { i + 1 }] == y);
            }
        }
        if r.contains(y) {
            let i = choose|i: int| 0 <= i < r.len() && r[i] == y;
            assert(i != k);
            if replace {
                assert(v[i] == y);
            } else {
                assert(v[if i < k { i } else { i - 1 }] == y);
            }
        }
    }
}

/// Puts `x` in its place.
pub fn file<T: Named>(v: &mut Vec<T>, x: T)
    ensures
        views(final(v)@) == filed::<T>(views(old(v)@), x@),
{
    let ghost s = views(v@);
    let ghost n = T::name_in(x@);
    let mut k: usize = 0;
    assert(s.skip(0) =~= s);
    while k < v.len() && before(v[k].name_ref().as_str(), x.name_ref().as_str())
        invariant
            k <= v.len(),
            s == views(v@),
            n == T::name_in(x@),
            place_of::<T>(s, n) == k + place_of::<T>(s.skip(k as int), n),
        decreases v.len() - k,
    {
        assert(s.skip(k as int)[0] == v@[k as int]@);
        assert(s.skip(k as int).skip(1) =~= s.skip(k + 1));
        k += 1;
    }
    assert(k < s.len() ==> s.skip(k as int)[0] == v@[k as int]@);
    assert(place_of::<T>(s, n) == k);
    if k < v.len() && same(v[k].name_ref().as_str(), x.name_ref().as_str()) {
        v.set(k, x);
        assert(views(v@) =~= s.update(k as int, x@));
    } else {
        v.insert(k, x);
        assert(views(v@) =~= s.insert(k as int, x@));
    }
}

/// The first thing with a name.
pub fn find_named<T: Named>(v: &Vec<T>, name: &str) -> (r: Option<usize>)
    ensures
        match r {
            Some(i) => i < v.len() && named::<T>(views(v@), name@) == Some(i as int)
                && T::name_in(v@[i as int]@) == name@,
            None => named::<T>(views(v@), name@) is None,
        },
{
    let ghost s = views(v@);
    let mut i: usize = 0;
    while i < v.len()
        invariant
            i <= v.len(),
            s == views(v@),
            forall|j: int| 0 <= j < i ==> T::name_in(#[trigger] s[j]) != name@,
        decreases v.len() - i,
    {
        assert(s[i as int] == v@[i as int]@);
        if same(v[i].name_ref().as_str(), name) {
            proof {
                named_is_first::<T>(s, name@);
                let k = named::<T>(s, name@);
                if k is None {
                    assert(T::name_in(s[i as int]) != name@);
                } else if i < k->0 {
                    assert(T::name_in(s[i as int]) != name@);
                }
            }
            return Some(i);
        }
        i += 1;
    }
    proof {
        named_is_first::<T>(s, name@);
    }
    None
}

/// What is filed is there under its name, and all else that was there stays, unless it has the same
/// name.
pub proof fn filing_forgets_no_other<T: Named>(v: Seq<T::V>, x: T::V, y: T::V)
    requires
        by_name::<T>(v),
    ensures
        filed::<T>(v, x).contains(x),
        v.contains(y) && T::name_in(y) != T::name_in(x) ==> filed::<T>(v, x).contains(y),
        filed::<T>(v, x).contains(y) ==> y == x || v.contains(y),
{
    filing_keeps_order::<T>(v, x);
    let r = filed::<T>(v, x);
    if r.contains(y) && T::name_in(y) == T::name_in(x) {
        let i = choose|i: int| 0 <= i < r.len() && r[i] == y;
        let j = choose|j: int| 0 <= j < r.len() && r[j] == x;
        order_is_total(T::name_in(x), T::name_in(x));
        if i < j {
            assert(precedes(T::name_in(r[i]), T::name_in(r[j])));
        } else if j < i {
            assert(precedes(T::name_in(r[j]), T::name_in(r[i])));
        }
    }
}

} // verus!
