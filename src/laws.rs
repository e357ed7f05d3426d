//! Laws that every aggregate obeys, proved over the model.
use vstd::prelude::*;

use crate::model::{failures, gathered, has_failure, lemma_push, successes};

verus! {

/// The input positions of the failures of `s`, in increasing order.
spec fn failure_positions<A, B>(s: Seq<Result<A, B>>) -> Seq<int>
    decreases s.len(),
{
    if s.len() == 0 {
        Seq::empty()
    } else {
        let p = failure_positions(s.drop_last());
        if s.last() is Err {
            p.push(s.len() - 1)
        } else {
            p
        }
    }
}

/// The failures of `s` stand at increasing positions of `s`, one for each
/// failed outcome.
proof fn lemma_failure_positions<A, B>(s: Seq<Result<A, B>>)
    ensures
        failure_positions(s).len() == failures(s).len(),
        forall|k: int, l: int|
            0 <= k < l < failure_positions(s).len() ==> failure_positions(s)[k]
                < failure_positions(s)[l],
        forall|k: int|
            0 <= k < failure_positions(s).len() ==> 0 <= #[trigger] failure_positions(s)[k] < s.len()
                && s[failure_positions(s)[k]] == Err::<A, B>(failures(s)[k]),
        forall|i: int|
            0 <= i < s.len() && #[trigger] s[i] is Err ==> exists|k: int|
                0 <= k < failure_positions(s).len() && #[trigger] failure_positions(s)[k] == i,
    decreases s.len(),
{
    if s.len() > 0 {
        let d = s.drop_last();
        lemma_failure_positions(d);
        lemma_push(d, s.last());
        assert(d.push(s.last()) =~= s);
        let p = failure_positions(d);
        assert forall|i: int| 0 <= i < s.len() && #[trigger] s[i] is Err implies exists|k: int|
            0 <= k < failure_positions(s).len() && #[trigger] failure_positions(s)[k] == i by {
            if i < d.len() {
                assert(d[i] is Err);
                let k = choose|k: int| 0 <= k < p.len() && #[trigger] p[k] == i;
                assert(failure_positions(s)[k] == i);
            } else {
                assert(failure_positions(s)[p.len() as int] == i);
            }
        }
    }
}

/// Once the input holds a failure, its failures number at least one.
proof fn lemma_failures_nonempty<A, B>(s: Seq<Result<A, B>>)
    requires
        has_failure(s),
    ensures
        failures(s).len() >= 1,
{
    let i = choose|i: int| 0 <= i < s.len() && #[trigger] s[i] is Err;
    lemma_failure_positions(s);
    let k = choose|k: int|
        0 <= k < failure_positions(s).len() && #[trigger] failure_positions(s)[k] == i;
}

/// Without a failure, the successes of `s` are all of `s`, value for value.
proof fn lemma_all_successes<A, B>(s: Seq<Result<A, B>>)
    requires
        !has_failure(s),
    ensures
        successes(s).len() == s.len(),
        forall|i: int| 0 <= i < s.len() ==> s[i] == Ok::<A, B>(#[trigger] successes(s)[i]),
    decreases s.len(),
{
    if s.len() > 0 {
        let d = s.drop_last();
        assert(!has_failure(d)) by {
            if has_failure(d) {
                let i = choose|i: int| 0 <= i < d.len() && #[trigger] d[i] is Err;
                assert(s[i] is Err);
            }
        }
        assert(s.last() is Ok) by {
            if s.last() is Err {
                assert(s[s.len() - 1] is Err);
            }
        }
        lemma_all_successes(d);
        lemma_push(d, s.last());
        assert(d.push(s.last()) =~= s);
    }
}

/// The number of failed outcomes in `s`.
pub open spec fn failure_count<A, B>(s: Seq<Result<A, B>>) -> nat {
    s.filter(|r: Result<A, B>| r is Err).len()
}

/// The number of successful outcomes in `s`.
pub open spec fn success_count<A, B>(s: Seq<Result<A, B>>) -> nat {
    s.filter(|r: Result<A, B>| r is Ok).len()
}

proof fn lemma_counts<A, B>(s: Seq<Result<A, B>>)
    ensures
        failures(s).len() == failure_count(s),
        successes(s).len() == success_count(s),
    decreases s.len(),
{
    if s.len() > 0 {
        let d = s.drop_last();
        reveal(Seq::filter);
        lemma_counts(d);
        lemma_push(d, s.last());
        assert(d.push(s.last()) =~= s);
    }
}

/// Sizes of the aggregate: all successes keep the length of the input, which
/// is then the number of successful outcomes, and the failures are exactly as
/// many as the failed outcomes, at least one.
pub proof fn law_aggregate_lengths<A, B>(s: Seq<Result<A, B>>)
    ensures
        gathered(s) matches Ok(v) ==> v.len() == s.len() && v.len() == success_count(s)
            && failure_count(s) == 0,
        gathered(s) matches Err(e) ==> e.len() == failure_count(s) && e.len() >= 1,
{
    lemma_counts(s);
    if has_failure(s) {
        lemma_failures_nonempty(s);
    } else {
        lemma_all_successes(s);
        assert(failures(s).len() == 0) by {
            lemma_failure_positions(s);
            if failures(s).len() > 0 {
                assert(s[failure_positions(s)[0]] is Err);
            }
        }
    }
}

/// Order is kept: all successes are the input's values in place, and the
/// failures are the failed outcomes' values at increasing input positions,
/// with none left out.
pub proof fn law_aggregate_order<A, B>(s: Seq<Result<A, B>>)
    ensures
        gathered(s) matches Ok(v) ==> v.len() == s.len() && forall|i: int|
            0 <= i < s.len() ==> s[i] == Ok::<A, B>(#[trigger] v[i]),
        gathered(s) matches Err(e) ==> exists|pos: Seq<int>|
            {
                &&& pos.len() == e.len()
                &&& forall|k: int, l: int| 0 <= k < l < pos.len() ==> pos[k] < pos[l]
                &&& forall|k: int|
                    0 <= k < pos.len() ==> 0 <= #[trigger] pos[k] < s.len() && s[pos[k]]
                        == Err::<A, B>(e[k])
                &&& forall|i: int|
                    0 <= i < s.len() && #[trigger] s[i] is Err ==> exists|k: int|
                        0 <= k < pos.len() && #[trigger] pos[k] == i
            },
{
    if has_failure(s) {
        lemma_failure_positions(s);
        let pos = failure_positions(s);
        assert(pos.len() == failures(s).len());
    } else {
        lemma_all_successes(s);
    }
}

/// Aggregating the failures of a failed aggregate again, each as a failed
/// outcome, gives the same failures back.
pub proof fn law_regather_failures<A, B>(s: Seq<Result<A, B>>)
    requires
        gathered(s) is Err,
    ensures
        gathered(failures(s).map_values(|b: B| Err::<A, B>(b))) == Err::<Seq<A>, Seq<B>>(
            failures(s),
        ),
{
    let e = failures(s);
    let t = e.map_values(|b: B| Err::<A, B>(b));
    lemma_failures_nonempty(s);
    assert(t[0] is Err);
    lemma_failures_of_errs::<A, B>(e);
}

proof fn lemma_failures_of_errs<A, B>(e: Seq<B>)
    ensures
        failures(e.map_values(|b: B| Err::<A, B>(b))) == e,
    decreases e.len(),
{
    let t = e.map_values(|b: B| Err::<A, B>(b));
    if e.len() == 0 {
        assert(failures(t) =~= e);
    } else {
        let d = e.drop_last();
        lemma_failures_of_errs::<A, B>(d);
        assert(d.map_values(|b: B| Err::<A, B>(b)).push(Err::<A, B>(e.last())) =~= t);
        lemma_push(d.map_values(|b: B| Err::<A, B>(b)), Err::<A, B>(e.last()));
        assert(d.push(e.last()) =~= e);
    }
}

} // verus!
