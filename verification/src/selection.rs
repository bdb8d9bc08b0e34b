//! Filtering a sequence: what is kept, and in which order.

use vstd::prelude::*;

verus! {

/// A filter that every element passes keeps the whole sequence.
pub proof fn lemma_filter_keeps_all<T>(s: Seq<T>, pred: spec_fn(T) -> bool)
    requires
        forall|i: int| 0 <= i < s.len() ==> pred(#[trigger] s[i]),
    ensures
        s.filter(pred) == s,
    decreases s.len(),
{
    reveal(Seq::filter);
    if s.len() > 0 {
        let init = s.drop_last();
        assert forall|i: int| 0 <= i < init.len() implies pred(#[trigger] init[i]) by {
            assert(init[i] == s[i]);
        }
        lemma_filter_keeps_all(init, pred);
        assert(pred(s.last()));
        assert(init.push(s.last()) =~= s);
    }
}

/// The indices of the elements of `s` that pass `pred`, in rising order.
pub open spec fn kept_indices<T>(s: Seq<T>, pred: spec_fn(T) -> bool) -> Seq<int>
    decreases s.len(),
{
    if s.len() == 0 {
        Seq::empty()
    } else if pred(s.last()) {
        kept_indices(s.drop_last(), pred).push(s.len() - 1)
    } else {
        kept_indices(s.drop_last(), pred)
    }
}

/// `found` holds the elements of `s` at the indices `at`, which rise and are
/// the indices of exactly those elements of `s` that pass `pred`.
pub open spec fn is_selection<T>(
    found: Seq<T>,
    s: Seq<T>,
    pred: spec_fn(T) -> bool,
    at: Seq<int>,
) -> bool {
    &&& at.len() == found.len()
    &&& forall|i: int|
        0 <= i < at.len() ==> 0 <= #[trigger] at[i] < s.len() && found[i] == s[at[i]]
    &&& forall|i: int, j: int| 0 <= i < j < at.len() ==> #[trigger] at[i] < #[trigger] at[j]
    &&& forall|k: int| 0 <= k < s.len() ==> (pred(#[trigger] s[k]) <==> at.contains(k))
}

/// Filtering keeps exactly the elements that pass, each as often as it stands
/// in the sequence, and in the order in which they stand there.
pub proof fn lemma_filter_is_selection<T>(s: Seq<T>, pred: spec_fn(T) -> bool)
    ensures
        is_selection(s.filter(pred), s, pred, kept_indices(s, pred)),
    decreases s.len(),
{
    reveal(Seq::filter);
    let found = s.filter(pred);
    let at = kept_indices(s, pred);
    if s.len() > 0 {
        let init = s.drop_last();
        let init_found = init.filter(pred);
        let init_at = kept_indices(init, pred);
        lemma_filter_is_selection(init, pred);
        let last = s.len() - 1;
        assert forall|k: int| 0 <= k < s.len() implies (pred(#[trigger] s[k]) <==> at.contains(
            k,
        )) by {
            if k < last {
                assert(init[k] == s[k]);
                if init_at.contains(k) {
                    let i = choose|i: int| 0 <= i < init_at.len() && init_at[i] == k;
                    assert(at[i] == k);
                }
                if at.contains(k) {
                    let i = choose|i: int| 0 <= i < at.len() && at[i] == k;
                    assert(init_at[i] == k);
                }
            } else {
                if pred(s[k]) {
                    assert(at[at.len() - 1] == k);
                }
                if at.contains(k) {
                    let i = choose|i: int| 0 <= i < at.len() && at[i] == k;
                    if i < init_at.len() {
                        assert(init_at[i] < init.len());
                    }
                }
            }
        }
        assert forall|i: int| 0 <= i < at.len() implies 0 <= #[trigger] at[i] < s.len()
            && found[i] == s[at[i]] by {
            if i < init_at.len() {
                assert(at[i] == init_at[i]);
                assert(init[init_at[i]] == s[init_at[i]]);
            }
        }
        assert forall|i: int, j: int| 0 <= i < j < at.len() implies #[trigger] at[i]
            < #[trigger] at[j] by {
            assert(at[i] == init_at[i]);
            if j < init_at.len() {
                assert(at[j] == init_at[j]);
            }
        }
    }
}

/// Filtering what was filtered by a wider test leaves what the narrower test
/// alone would leave.
pub proof fn lemma_filter_of_wider_filter<T>(
    s: Seq<T>,
    wide: spec_fn(T) -> bool,
    narrow: spec_fn(T) -> bool,
)
    requires
        forall|i: int| 0 <= i < s.len() && narrow(#[trigger] s[i]) ==> wide(s[i]),
    ensures
        s.filter(wide).filter(narrow) == s.filter(narrow),
    decreases s.len(),
{
    reveal(Seq::filter);
    if s.len() > 0 {
        let init = s.drop_last();
        assert forall|i: int| 0 <= i < init.len() && narrow(#[trigger] init[i]) implies wide(
            init[i],
        ) by {
            assert(init[i] == s[i]);
        }
        lemma_filter_of_wider_filter(init, wide, narrow);
        if wide(s.last()) {
            let kept = init.filter(wide).push(s.last());
            assert(kept.drop_last() =~= init.filter(wide));
            assert(kept.last() == s.last());
        } else {
            assert(!narrow(s[s.len() - 1]));
        }
    }
}

} // verus!
