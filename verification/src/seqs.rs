//! Facts about sequences that the loops of this library rest on.

use vstd::prelude::*;

verus! {

/// Keeping what passes `keep` among the first `i + 1` values is keeping it
/// among the first `i`, and then the next one if it passes.
pub proof fn lemma_filter_step<A>(s: Seq<A>, keep: spec_fn(A) -> bool, i: int)
    requires
        0 <= i < s.len(),
    ensures
        s.take(i + 1).filter(keep) == (if keep(s[i]) {
            s.take(i).filter(keep).push(s[i])
        } else {
            s.take(i).filter(keep)
        }),
{
    reveal(Seq::filter);
    assert(s.take(i + 1).drop_last() =~= s.take(i));
}

/// Nothing passes among no values.
pub proof fn lemma_filter_none<A>(s: Seq<A>, keep: spec_fn(A) -> bool)
    ensures
        s.take(0).filter(keep) == Seq::<A>::empty(),
{
    reveal(Seq::filter);
    assert(s.take(0) =~= Seq::<A>::empty());
}

/// Where every value passes, all are kept.
pub proof fn lemma_filter_all<A>(s: Seq<A>, keep: spec_fn(A) -> bool)
    requires
        forall|i: int| 0 <= i < s.len() ==> keep(#[trigger] s[i]),
    ensures
        s.filter(keep) == s,
    decreases s.len(),
{
    reveal(Seq::filter);
    if s.len() > 0 {
        assert forall|i: int| 0 <= i < s.drop_last().len() implies keep(
            #[trigger] s.drop_last()[i],
        ) by {
            assert(keep(s[i]));
        }
        lemma_filter_all(s.drop_last(), keep);
        assert(s.drop_last().push(s.last()) =~= s);
    } else {
        assert(s.filter(keep) =~= s);
    }
}

/// The first value of `s` that passes `want`.
pub open spec fn find_first<A>(s: Seq<A>, want: spec_fn(A) -> bool) -> Option<A>
    decreases s.len(),
{
    if s.len() == 0 {
        None
    } else if want(s[0]) {
        Some(s[0])
    } else {
        find_first(s.skip(1), want)
    }
}

/// Where nothing before `k` passes, the first that passes is the one at `k`,
/// or none is where `k` is the end.
pub proof fn lemma_find_first<A>(s: Seq<A>, want: spec_fn(A) -> bool, k: int)
    requires
        0 <= k <= s.len(),
        forall|i: int| 0 <= i < k ==> !want(#[trigger] s[i]),
        k < s.len() ==> want(s[k]),
    ensures
        find_first(s, want) == (if k < s.len() {
            Some(s[k])
        } else {
            None
        }),
    decreases k,
{
    if k > 0 {
        assert forall|i: int| 0 <= i < k - 1 implies !want(#[trigger] s.skip(1)[i]) by {
            assert(s.skip(1)[i] == s[i + 1]);
        }
        lemma_find_first(s.skip(1), want, k - 1);
    }
}

/// What is found first passes, and is one of the values.
pub proof fn lemma_find_first_is_one<A>(s: Seq<A>, want: spec_fn(A) -> bool)
    ensures
        find_first(s, want) matches Some(a) ==> want(a) && s.contains(a),
        find_first(s, want) is None ==> forall|i: int| 0 <= i < s.len() ==> !want(#[trigger] s[i]),
    decreases s.len(),
{
    if s.len() > 0 {
        let rest = s.skip(1);
        lemma_find_first_is_one(rest, want);
        if want(s[0]) {
            assert(s.contains(s[0]));
        } else {
            if let Some(a) = find_first(rest, want) {
                let i = rest.index_of(a);
                assert(s[i + 1] == a);
            } else {
                assert forall|i: int| 0 <= i < s.len() implies !want(#[trigger] s[i]) by {
                    if i > 0 {
                        assert(rest[i - 1] == s[i]);
                    }
                }
            }
        }
    }
}

/// The first that passes is one of the values, with none before it that
/// passes; nothing is found only where none passes.
pub proof fn the_first_that_passes_is_found<A>(s: Seq<A>, want: spec_fn(A) -> bool)
    ensures
        (match find_first(s, want) {
            Some(a) => exists|i: int|
                0 <= i < s.len() && #[trigger] s[i] == a && want(s[i]) && forall|j: int|
                    0 <= j < i ==> !want(#[trigger] s[j]),
            None => forall|i: int| 0 <= i < s.len() ==> !want(#[trigger] s[i]),
        }),
    decreases s.len(),
{
    if s.len() > 0 {
        if want(s[0]) {
            assert(s[0] == s[0]);
        } else {
            let rest = s.skip(1);
            the_first_that_passes_is_found(rest, want);
            match find_first(rest, want) {
                Some(a) => {
                    let i = choose|i: int|
                        0 <= i < rest.len() && #[trigger] rest[i] == a && want(rest[i])
                            && forall|j: int| 0 <= j < i ==> !want(#[trigger] rest[j]);
                    assert(s[i + 1] == rest[i]);
                    assert forall|j: int| 0 <= j < i + 1 implies !want(#[trigger] s[j]) by {
                        if j > 0 {
                            assert(s[j] == rest[j - 1]);
                        }
                    }
                },
                None => {
                    assert forall|i: int| 0 <= i < s.len() implies !want(#[trigger] s[i]) by {
                        if i > 0 {
                            assert(s[i] == rest[i - 1]);
                        }
                    }
                },
            }
        }
    }
}

} // verus!
