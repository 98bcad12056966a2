//! Sorting that keeps the order of what ranks the same.

use vstd::prelude::*;

verus! {

/// A type whose values can be ranked. `ranks_before` is a strict order under
/// which two different values may rank the same.
pub trait Ranked: Sized {
    /// Whether `self` ranks strictly before `other`.
    spec fn ranks_before(&self, other: &Self) -> bool;

    /// Whether `self` ranks strictly before `other`.
    fn before(&self, other: &Self) -> (yes: bool)
        ensures
            yes == self.ranks_before(other),
    ;

    /// Nothing ranks before what ranks before it, and what ranks before or
    /// with a value that ranks before or with a third does not rank after it.
    proof fn ranking(a: &Self, b: &Self, c: &Self)
        ensures
            a.ranks_before(b) ==> !b.ranks_before(a),
            !b.ranks_before(a) && !c.ranks_before(b) ==> !c.ranks_before(a),
    ;
}

/// Whether `places` names each of the first `n` places once.
pub open spec fn is_rearrangement(places: Seq<int>, n: nat) -> bool {
    &&& places.len() == n
    &&& forall|i: int| 0 <= i < n ==> 0 <= #[trigger] places[i] < n
    &&& forall|i: int, j: int|
        0 <= i < j < n ==> #[trigger] places[i] != #[trigger] places[j]
}

/// Whether `sorted` is `all` put in order: every value of `all` once, none
/// before one that ranks before it, and those that rank the same in the order
/// they had.
pub open spec fn is_sorted_from<T: Ranked>(sorted: Seq<T>, all: Seq<T>) -> bool {
    exists|places: Seq<int>| #[trigger] sorted_by_places(sorted, all, places)
}

/// `is_sorted_from`, where `places[i]` is the place in `all` of the value now
/// at `i`.
pub open spec fn sorted_by_places<T: Ranked>(sorted: Seq<T>, all: Seq<T>, places: Seq<int>) -> bool {
    &&& sorted.len() == all.len()
    &&& is_rearrangement(places, all.len())
    &&& forall|i: int| 0 <= i < sorted.len() ==> sorted[i] == all[#[trigger] places[i]]
    &&& forall|i: int, j: int|
        0 <= i < j < sorted.len() ==> !(#[trigger] sorted[j]).ranks_before(#[trigger] &sorted[i])
    &&& forall|i: int, j: int|
        0 <= i < j < sorted.len() && !sorted[i].ranks_before(&sorted[j]) ==> #[trigger] places[i]
            < #[trigger] places[j]
}

/// Sort `all`, keeping the order of values that rank the same.
pub fn sort<T: Ranked>(all: Vec<T>) -> (sorted: Vec<T>)
    ensures
        is_sorted_from(sorted@, all@),
{
    let ghost input = all@;
    let n: usize = all.len();
    let mut rest = all;
    let mut sorted: Vec<T> = Vec::new();
    let ghost mut places: Seq<int> = Seq::empty();
    let mut done: usize = 0;
    // Taken from the front, one at a time, and put behind everything that
    // does not rank after it.
    while done < n
        invariant
            done <= n,
            n == input.len(),
            rest@ == input.skip(done as int),
            sorted_by_places(sorted@, input.take(done as int), places),
        decreases n - done,
    {
        let next = rest.remove(0);
        assert(rest@ =~= input.skip(done + 1));
        let mut at: usize = sorted.len();
        while at > 0 && next.before(&sorted[at - 1])
            invariant
                at <= sorted.len(),
                forall|k: int| at <= k < sorted@.len() ==> next.ranks_before(#[trigger] &sorted@[k]),
            decreases at,
        {
            at = at - 1;
        }
        let ghost old_sorted = sorted@;
        let ghost old_places = places;
        sorted.insert(at, next);
        proof {
            places = old_places.insert(at as int, done as int);
            assert(next == input[done as int]);
            lemma_insert_keeps_order(old_sorted, input, old_places, done as int, at as int);
            assert(sorted@ =~= old_sorted.insert(at as int, input[done as int]));
        }
        done = done + 1;
    }
    assert(input.take(n as int) =~= input);
    sorted
}

proof fn lemma_insert_keeps_order<T: Ranked>(
    sorted: Seq<T>,
    input: Seq<T>,
    places: Seq<int>,
    done: int,
    at: int,
)
    requires
        0 <= done < input.len(),
        0 <= at <= sorted.len(),
        sorted_by_places(sorted, input.take(done), places),
        forall|k: int| at <= k < sorted.len() ==> input[done].ranks_before(#[trigger] &sorted[k]),
        at > 0 ==> !input[done].ranks_before(&sorted[at - 1]),
    ensures
        sorted_by_places(
            sorted.insert(at, input[done]),
            input.take(done + 1),
            places.insert(at, done),
        ),
{
    let next = input[done];
    let s2 = sorted.insert(at, next);
    let p2 = places.insert(at, done);
    let all2 = input.take(done + 1);
    assert(sorted.len() == done);
    assert forall|i: int| 0 <= i < s2.len() implies s2[i] == all2[#[trigger] p2[i]] by {
        if i < at {
            assert(p2[i] == places[i]);
            assert(sorted[i] == input.take(done)[places[i]]);
        } else if i > at {
            assert(p2[i] == places[i - 1]);
            assert(sorted[i - 1] == input.take(done)[places[i - 1]]);
        }
    }
    assert forall|i: int| 0 <= i < p2.len() implies 0 <= #[trigger] p2[i] < done + 1 by {
        if i < at {
            assert(p2[i] == places[i]);
        } else if i > at {
            assert(p2[i] == places[i - 1]);
        }
    }
    assert forall|i: int, j: int| 0 <= i < j < p2.len() implies #[trigger] p2[i] != #[trigger] p2[j] by {
        let i0 = if i < at {
            i
        } else {
            i - 1
        };
        let j0 = if j < at {
            j
        } else {
            j - 1
        };
        if i != at {
            assert(p2[i] == places[i0]);
        }
        if j != at {
            assert(p2[j] == places[j0]);
        }
    }
    // Everything before `at` does not rank after the value put there.
    assert forall|k: int| 0 <= k < at implies !next.ranks_before(#[trigger] &sorted[k]) by {
        if k < at - 1 {
            assert(!sorted[at - 1].ranks_before(&sorted[k]));
            T::ranking(&sorted[k], &sorted[at - 1], &next);
        }
    }
    assert forall|i: int, j: int| 0 <= i < j < s2.len() implies !(#[trigger] s2[j]).ranks_before(
        #[trigger] &s2[i],
    ) by {
        if i == at {
            assert(s2[j] == sorted[j - 1]);
            assert(next.ranks_before(&sorted[j - 1]));
            T::ranking(&next, &sorted[j - 1], &next);
        } else if j == at {
            assert(s2[i] == sorted[i]);
        } else {
            let i0 = if i < at {
                i
            } else {
                i - 1
            };
            let j0 = if j < at {
                j
            } else {
                j - 1
            };
            assert(s2[i] == sorted[i0]);
            assert(s2[j] == sorted[j0]);
        }
    }
    assert forall|i: int, j: int|
        0 <= i < j < s2.len() && !s2[i].ranks_before(&s2[j]) implies #[trigger] p2[i]
        < #[trigger] p2[j] by {
        if i == at {
            assert(s2[j] == sorted[j - 1]);
            assert(next.ranks_before(&sorted[j - 1]));
        } else if j == at {
            assert(p2[i] == places[i]);
        } else {
            let i0 = if i < at {
                i
            } else {
                i - 1
            };
            let j0 = if j < at {
                j
            } else {
                j - 1
            };
            assert(s2[i] == sorted[i0]);
            assert(s2[j] == sorted[j0]);
            assert(p2[i] == places[i0]);
            assert(p2[j] == places[j0]);
        }
    }
}

/// Sorting settles the result: two lists sorted from the same one are equal.
pub proof fn sorting_is_settled<T: Ranked>(a: Seq<T>, b: Seq<T>, all: Seq<T>)
    requires
        is_sorted_from(a, all),
        is_sorted_from(b, all),
    ensures
        a == b,
{
    let p = choose|p: Seq<int>| #[trigger] sorted_by_places(a, all, p);
    let q = choose|q: Seq<int>| #[trigger] sorted_by_places(b, all, q);
    lemma_same_places(a, b, all, p, q, 0);
    assert(a =~= b) by {
        assert forall|i: int| 0 <= i < a.len() implies a[i] == b[i] by {
            assert(p[i] == q[i]);
        }
    }
}

/// A place in `all` that stands somewhere in a rearrangement of `all`.
proof fn lemma_rearrangement_covers(places: Seq<int>, n: nat, x: int)
    requires
        is_rearrangement(places, n),
        0 <= x < n,
    ensures
        places.contains(x),
{
    let set = places.to_set();
    assert(places.no_duplicates());
    places.unique_seq_to_set();
    vstd::set_lib::lemma_int_range(0, n as int);
    let range = vstd::set_lib::set_int_range(0, n as int);
    assert(set.subset_of(range)) by {
        assert forall|y: int| set.contains(y) implies range.contains(y) by {
            let i = places.index_of(y);
            assert(places.contains(y));
            assert(0 <= places[i] < n);
        }
    }
    vstd::set_lib::lemma_subset_equality(set, range);
    assert(set.contains(x));
}

proof fn lemma_same_places<T: Ranked>(
    a: Seq<T>,
    b: Seq<T>,
    all: Seq<T>,
    p: Seq<int>,
    q: Seq<int>,
    from: int,
)
    requires
        sorted_by_places(a, all, p),
        sorted_by_places(b, all, q),
        0 <= from <= all.len(),
        forall|k: int| 0 <= k < from ==> #[trigger] p[k] == q[k],
    ensures
        forall|k: int| 0 <= k < all.len() ==> #[trigger] p[k] == q[k],
    decreases all.len() - from,
{
    if from < all.len() {
        // The value at `from` in one list stands at or after `from` in the
        // other, so neither can come before the other.
        lemma_rearrangement_covers(q, all.len(), p[from]);
        lemma_rearrangement_covers(p, all.len(), q[from]);
        let j = choose|j: int| 0 <= j < q.len() && q[j] == p[from];
        let i = choose|i: int| 0 <= i < p.len() && p[i] == q[from];
        if p[from] != q[from] {
            if j < from {
                assert(p[j] == q[j]);
                assert(false);
            }
            if i < from {
                assert(p[i] == q[i]);
                assert(false);
            }
            assert(a[from] == all[p[from]] && b[j] == all[q[j]]);
            assert(b[from] == all[q[from]] && a[i] == all[p[i]]);
            assert(!a[i].ranks_before(&a[from]));
            assert(!b[j].ranks_before(&b[from]));
            assert(p[from] < p[i]);
            assert(q[from] < q[j]);
            assert(false);
        }
        lemma_same_places(a, b, all, p, q, from + 1);
    }
}

/// The values that references stand for.
pub open spec fn behind<T>(refs: Seq<&T>) -> Seq<T> {
    refs.map_values(|r: &T| *r)
}

impl<'a, T: Ranked> Ranked for &'a T {
    open spec fn ranks_before(&self, other: &Self) -> bool {
        (**self).ranks_before(*other)
    }

    fn before(&self, other: &Self) -> (yes: bool) {
        (**self).before(*other)
    }

    proof fn ranking(a: &Self, b: &Self, c: &Self) {
        T::ranking(*a, *b, *c);
    }
}

/// Sort references by what they refer to, keeping the order of those that
/// rank the same.
pub fn sort_refs<'a, T: Ranked>(all: Vec<&'a T>) -> (sorted: Vec<&'a T>)
    ensures
        is_sorted_from(behind(sorted@), behind(all@)),
{
    let ghost input = all@;
    let sorted = sort(all);
    proof {
        let places = choose|places: Seq<int>| #[trigger] sorted_by_places(sorted@, input, places);
        assert(sorted_by_places(behind(sorted@), behind(input), places)) by {
            let s = behind(sorted@);
            assert forall|i: int, j: int| 0 <= i < j < s.len() implies !(
            #[trigger] s[j]).ranks_before(#[trigger] &s[i]) by {
                assert(!sorted@[j].ranks_before(&sorted@[i]));
            }
            assert forall|i: int, j: int|
                0 <= i < j < s.len() && !s[i].ranks_before(&s[j]) implies #[trigger] places[i]
                < #[trigger] places[j] by {
                assert(!sorted@[i].ranks_before(&sorted@[j]));
            }
        }
    }
    sorted
}

/// What is sorted holds the same values as what it was sorted from.
pub proof fn sorting_keeps_the_values<T: Ranked>(sorted: Seq<T>, all: Seq<T>)
    requires
        is_sorted_from(sorted, all),
    ensures
        sorted.len() == all.len(),
        forall|i: int| 0 <= i < all.len() ==> sorted.contains(#[trigger] all[i]),
        forall|i: int| 0 <= i < sorted.len() ==> all.contains(#[trigger] sorted[i]),
{
    let places = choose|places: Seq<int>| #[trigger] sorted_by_places(sorted, all, places);
    assert forall|i: int| 0 <= i < all.len() implies sorted.contains(#[trigger] all[i]) by {
        lemma_rearrangement_covers(places, all.len(), i);
        let j = places.index_of(i);
        assert(sorted[j] == all[places[j]]);
    }
    assert forall|i: int| 0 <= i < sorted.len() implies all.contains(#[trigger] sorted[i]) by {
        assert(sorted[i] == all[places[i]]);
    }
}

/// Whether of any two values of `s` one ranks before the other.
pub open spec fn all_rank_apart<T: Ranked>(s: Seq<T>) -> bool {
    forall|i: int, j: int|
        0 <= i < j < s.len() ==> (#[trigger] s[i]).ranks_before(#[trigger] &s[j])
            || s[j].ranks_before(&s[i])
}

/// Where no two values rank the same, sorting does not depend on the order
/// the values came in: two lists of the same values sort to the same list.
pub proof fn sorting_ignores_the_order_of_arrival<T: Ranked>(
    a: Seq<T>,
    all: Seq<T>,
    b: Seq<T>,
    other: Seq<T>,
)
    requires
        is_sorted_from(a, all),
        is_sorted_from(b, other),
        all_rank_apart(all),
        all_rank_apart(other),
        forall|x: T| all.contains(x) <==> other.contains(x),
    ensures
        a == b,
{
    sorting_keeps_the_values(a, all);
    sorting_keeps_the_values(b, other);
    lemma_strictly_sorted(a, all);
    lemma_strictly_sorted(b, other);
    assert forall|x: T| a.contains(x) <==> b.contains(x) by {
        if a.contains(x) {
            let i = a.index_of(x);
            assert(all.contains(a[i]));
            let j = other.index_of(x);
            assert(other.contains(x));
            assert(b.contains(other[j]));
        }
        if b.contains(x) {
            let i = b.index_of(x);
            assert(other.contains(b[i]));
            let j = all.index_of(x);
            assert(all.contains(x));
            assert(a.contains(all[j]));
        }
    }
    lemma_same_values_in_order(a, b);
}

/// Whether each value of `s` ranks before those that follow it.
spec fn strictly_ranked<T: Ranked>(s: Seq<T>) -> bool {
    forall|i: int, j: int|
        0 <= i < j < s.len() ==> (#[trigger] s[i]).ranks_before(#[trigger] &s[j])
}

proof fn lemma_strictly_sorted<T: Ranked>(sorted: Seq<T>, all: Seq<T>)
    requires
        is_sorted_from(sorted, all),
        all_rank_apart(all),
    ensures
        strictly_ranked(sorted),
{
    let places = choose|places: Seq<int>| #[trigger] sorted_by_places(sorted, all, places);
    assert forall|i: int, j: int| 0 <= i < j < sorted.len() implies (
    #[trigger] sorted[i]).ranks_before(#[trigger] &sorted[j]) by {
        assert(sorted[i] == all[places[i]]);
        assert(sorted[j] == all[places[j]]);
        assert(places[i] != places[j]);
        assert(!sorted[j].ranks_before(&sorted[i]));
        if places[i] < places[j] {
            assert(all[places[i]].ranks_before(&all[places[j]]) || all[places[j]].ranks_before(
                &all[places[i]],
            ));
        } else {
            assert(all[places[j]].ranks_before(&all[places[i]]) || all[places[i]].ranks_before(
                &all[places[j]],
            ));
        }
    }
}

proof fn lemma_same_values_in_order<T: Ranked>(a: Seq<T>, b: Seq<T>)
    requires
        strictly_ranked(a),
        strictly_ranked(b),
        forall|x: T| a.contains(x) <==> b.contains(x),
    ensures
        a == b,
    decreases a.len(),
{
    if a.len() == 0 {
        if b.len() > 0 {
            assert(b.contains(b[0]));
        }
        assert(a =~= b);
    } else {
        assert(a.contains(a.last()));
        assert(b.len() > 0);
        assert(b.contains(b.last()));
        let x = a.last();
        let y = b.last();
        let i = b.index_of(x);
        let j = a.index_of(y);
        assert(b[i] == x && a[j] == y);
        if i < b.len() - 1 {
            assert(x.ranks_before(&y));
            assert(j == a.len() - 1 || y.ranks_before(&x));
            T::ranking(&x, &y, &x);
        }
        assert(x == y);
        let a1 = a.drop_last();
        let b1 = b.drop_last();
        assert forall|z: T| a1.contains(z) <==> b1.contains(z) by {
            T::ranking(&x, &x, &x);
            if a1.contains(z) {
                let k = a1.index_of(z);
                assert(a[k] == z);
                assert(a.contains(z));
                assert(z.ranks_before(&x));
                let m = b.index_of(z);
                assert(b[m] == z);
                assert(m < b.len() - 1);
                assert(b1[m] == z);
            }
            if b1.contains(z) {
                let k = b1.index_of(z);
                assert(b[k] == z);
                assert(b.contains(z));
                assert(z.ranks_before(&y));
                let m = a.index_of(z);
                assert(a[m] == z);
                assert(m < a.len() - 1);
                assert(a1[m] == z);
            }
        }
        assert(strictly_ranked(a1)) by {
            assert forall|i: int, j: int| 0 <= i < j < a1.len() implies (
            #[trigger] a1[i]).ranks_before(#[trigger] &a1[j]) by {
                assert(a[i].ranks_before(&a[j]));
            }
        }
        assert(strictly_ranked(b1)) by {
            assert forall|i: int, j: int| 0 <= i < j < b1.len() implies (
            #[trigger] b1[i]).ranks_before(#[trigger] &b1[j]) by {
                assert(b[i].ranks_before(&b[j]));
            }
        }
        lemma_same_values_in_order(a1, b1);
        assert(a =~= a1.push(x));
        assert(b =~= b1.push(y));
    }
}

/// Of two sorted values the later never ranks before the earlier, and two
/// that rank the same stand as they came.
pub proof fn sorted_values_stand_by_rank<T: Ranked>(sorted: Seq<T>, all: Seq<T>, i: int, j: int)
    requires
        is_sorted_from(sorted, all),
        0 <= i < j < sorted.len(),
    ensures
        !sorted[j].ranks_before(&sorted[i]),
        !sorted[i].ranks_before(&sorted[j]) ==> exists|a: int, b: int|
            0 <= a < b < all.len() && #[trigger] all[a] == sorted[i] && #[trigger] all[b]
                == sorted[j],
{
    let places = choose|places: Seq<int>| #[trigger] sorted_by_places(sorted, all, places);
    if !sorted[i].ranks_before(&sorted[j]) {
        assert(places[i] < places[j]);
        assert(all[places[i]] == sorted[i] && all[places[j]] == sorted[j]);
    }
}

/// What stands behind references is what they refer to, in their order.
pub proof fn what_is_behind_references_keeps_their_order<T>(refs: Seq<&T>)
    ensures
        behind(refs).len() == refs.len(),
        forall|i: int| 0 <= i < refs.len() ==> #[trigger] behind(refs)[i] == *refs[i],
{
}

} // verus!
