//! The mathematical model of aggregation: which values of a sequence of
//! outcomes survive, and which variant the aggregate takes.
use vstd::prelude::*;

verus! {

/// The value of a successful outcome, if it is one.
pub open spec fn ok_of<A, B>(r: Result<A, B>) -> Option<A> {
    match r {
        Ok(a) => Some(a),
        Err(_) => None,
    }
}

/// The value of a failed outcome, if it is one.
pub open spec fn err_of<A, B>(r: Result<A, B>) -> Option<B> {
    match r {
        Ok(_) => None,
        Err(b) => Some(b),
    }
}

/// The success values of `s`, in the order in which they occur.
pub open spec fn successes<A, B>(s: Seq<Result<A, B>>) -> Seq<A> {
    s.filter_map(|r: Result<A, B>| ok_of(r))
}

/// The failure values of `s`, in the order in which they occur.
pub open spec fn failures<A, B>(s: Seq<Result<A, B>>) -> Seq<B> {
    s.filter_map(|r: Result<A, B>| err_of(r))
}

/// Whether at least one outcome of `s` is a failure.
pub open spec fn has_failure<A, B>(s: Seq<Result<A, B>>) -> bool {
    exists|i: int| 0 <= i < s.len() && #[trigger] s[i] is Err
}

/// The aggregate of `s`: every failure value if there is one, else every
/// success value.
pub open spec fn gathered<A, B>(s: Seq<Result<A, B>>) -> Result<Seq<A>, Seq<B>> {
    if has_failure(s) {
        Err(failures(s))
    } else {
        Ok(successes(s))
    }
}

/// The model of an aggregate held in vectors.
pub open spec fn gathered_view<A, B>(r: Result<Vec<A>, Vec<B>>) -> Result<Seq<A>, Seq<B>> {
    match r {
        Ok(v) => Ok(v@),
        Err(e) => Err(e@),
    }
}

/// Appending one outcome extends the successes or the failures by its value.
pub proof fn lemma_push<A, B>(s: Seq<Result<A, B>>, r: Result<A, B>)
    ensures
        successes(s.push(r)) == match r {
            Ok(a) => successes(s).push(a),
            Err(_) => successes(s),
        },
        failures(s.push(r)) == match r {
            Ok(_) => failures(s),
            Err(b) => failures(s).push(b),
        },
        has_failure(s.push(r)) == (has_failure(s) || r is Err),
{
    let t = s.push(r);
    assert(t.drop_last() =~= s);
    if has_failure(t) && r is Ok {
        let i = choose|i: int| 0 <= i < t.len() && #[trigger] t[i] is Err;
        assert(s[i] is Err);
    }
    if has_failure(s) {
        let i = choose|i: int| 0 <= i < s.len() && #[trigger] s[i] is Err;
        assert(t[i] is Err);
    }
    if r is Err {
        assert(t[s.len() as int] is Err);
    }
}

} // verus!
