//! Run-length grouping of equal neighbours, shared by the row summaries of
//! both pipelines.

use vstd::prelude::*;

verus! {

/// The maximal runs of equal neighbours in `s`, each as its item and length.
pub open spec fn run_lengths<T>(s: Seq<T>) -> Seq<(T, nat)>
    decreases s.len(),
{
    if s.len() == 0 {
        Seq::empty()
    } else {
        let before = run_lengths(s.drop_last());
        if before.len() > 0 && before.last().0 == s.last() {
            before.update(before.len() - 1, (s.last(), before.last().1 + 1))
        } else {
            before.push((s.last(), 1nat))
        }
    }
}

/// The runs of a non-empty sequence are not empty, the last run ends in the
/// last item, and no run is longer than the sequence.
pub proof fn lemma_run_lengths_last<T>(s: Seq<T>)
    requires
        s.len() > 0,
    ensures
        run_lengths(s).len() > 0,
        run_lengths(s).len() <= s.len(),
        run_lengths(s).last().0 == s.last(),
        1 <= run_lengths(s).last().1 <= s.len(),
    decreases s.len(),
{
    let before = run_lengths(s.drop_last());
    if s.len() > 1 {
        lemma_run_lengths_last(s.drop_last());
    } else {
        assert(s.drop_last().len() == 0);
        assert(before.len() == 0);
    }
    assert(run_lengths(s) == if before.len() > 0 && before.last().0 == s.last() {
        before.update(before.len() - 1, (s.last(), before.last().1 + 1))
    } else {
        before.push((s.last(), 1nat))
    });
}

/// Reading one more item either lengthens the last run or opens a new one.
pub proof fn lemma_run_lengths_step<T>(s: Seq<T>, k: int)
    requires
        0 < k < s.len(),
    ensures
        run_lengths(s.take(k)).len() > 0,
        s[k] == s[k - 1] ==> run_lengths(s.take(k + 1)) == run_lengths(s.take(k)).update(
            run_lengths(s.take(k)).len() - 1,
            (s[k], run_lengths(s.take(k)).last().1 + 1),
        ),
        s[k] != s[k - 1] ==> run_lengths(s.take(k + 1)) == run_lengths(s.take(k)).push(
            (s[k], 1nat),
        ),
        run_lengths(s.take(k)).last().0 == s[k - 1],
{
    lemma_run_lengths_last(s.take(k));
    assert(s.take(k + 1).drop_last() =~= s.take(k));
    assert(s.take(k + 1).last() == s[k]);
    assert(s.take(k).last() == s[k - 1]);
}

} // verus!
