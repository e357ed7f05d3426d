//! The aggregating collector and its entry points.
use vstd::prelude::*;

use crate::model::{failures, gathered, gathered_view, has_failure, lemma_push, successes};

verus! {

/// The aggregate of a sequence of outcomes: `Ok` with every success value
/// when no outcome failed, otherwise `Err` with every failure value.
pub struct Gatherr<T, E>(pub Result<T, E>);

impl<A, B> Gatherr<Vec<A>, Vec<B>> {
    /// Consumes the outcomes in order. Success values are kept only until the
    /// first failure; from then on only failure values are collected.
    pub fn from_iter(outcomes: Vec<Result<A, B>>) -> (g: Self)
        ensures
            gathered_view(g.0) == gathered(outcomes@),
    {
        let ghost input = outcomes@;
        let mut oks: Vec<A> = Vec::new();
        let mut errs: Vec<B> = Vec::new();
        let mut failed: bool = false;
        for r in it: outcomes.into_iter()
            invariant
                it.seq() == input,
                failed == has_failure(it.seq().take(it.index())),
                !failed ==> oks@ == successes(it.seq().take(it.index())),
                errs@ == failures(it.seq().take(it.index())),
        {
            proof {
                let done = it.seq().take(it.index());
                lemma_push(done, r);
                assert(it.seq().take(it.index() + 1) =~= done.push(r));
            }
            match r {
                Ok(a) => {
                    if !failed {
                        oks.push(a);
                    }
                },
                Err(b) => {
                    if !failed {
                        failed = true;
                        oks = Vec::new();
                    }
                    errs.push(b);
                },
            }
        }
        proof {
            assert(input.take(input.len() as int) =~= input);
        }
        if failed {
            Gatherr(Err(errs))
        } else {
            Gatherr(Ok(oks))
        }
    }
}

/// Collects all success or all failure values of `outcomes` into a single
/// `Result` of vectors.
pub fn gatherr<A, B>(outcomes: Vec<Result<A, B>>) -> (r: Result<Vec<A>, Vec<B>>)
    ensures
        r is Err <==> has_failure(outcomes@),
        r matches Ok(v) ==> v@ == successes(outcomes@),
        r matches Err(e) ==> e@ == failures(outcomes@),
{
    let Gatherr(result) = Gatherr::from_iter(outcomes);
    result
}

/// Aggregation called as a method on a collection of outcomes.
pub trait IterExt<A, B>: Sized {
    /// The outcomes that `self` holds, in order.
    spec fn outcomes(&self) -> Seq<Result<A, B>>;

    /// Collects all success or all failure values of `self` into a single
    /// `Result` of vectors.
    fn gatherr(self) -> (r: Result<Vec<A>, Vec<B>>)
        ensures
            gathered_view(r) == gathered(self.outcomes()),
    ;
}

impl<A, B> IterExt<A, B> for Vec<Result<A, B>> {
    open spec fn outcomes(&self) -> Seq<Result<A, B>> {
        self@
    }

    fn gatherr(self) -> (r: Result<Vec<A>, Vec<B>>) {
        let Gatherr(result) = Gatherr::from_iter(self);
        result
    }
}

} // verus!
