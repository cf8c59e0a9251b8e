//! How a batch of calls goes on, against the codes of the results.
use crate::batch::{all_succeeded, failure_is_final, models, Batch, BatchResult};
use crate::simulate::{
    CallModel, DebankSingleCallResult, DebankSingleSimulateResult, SimulateModel,
};
use vstd::prelude::*;

verus! {

/// The code of a result is the one it holds.
pub proof fn codes_are_those_of_the_results(s: SimulateModel, c: CallModel)
    ensures
        DebankSingleSimulateResult::code_of(s) == s.code,
        DebankSingleCallResult::code_of(c) == c.code,
{
}

/// A batch has stopped exactly if it is one that stops and its last call failed.
pub proof fn stopped_after_a_failure<R: BatchResult>(b: Batch<R>)
    ensures
        !b.stops_on_failure() || b@.len() == 0 ==> !b.has_stopped(),
        b.stops_on_failure() && b@.len() > 0 ==> b.has_stopped() == (R::code_of(b@[b@.len() - 1])
            != 0),
{
}

/// A batch succeeded exactly if no result has a code other than zero, and one failure is enough.
pub proof fn one_failure_fails_the_batch<R: BatchResult>(s: Seq<R::V>, m: R::V)
    ensures
        all_succeeded::<R>(seq![]),
        all_succeeded::<R>(s.push(m)) == (all_succeeded::<R>(s) && R::code_of(m) == 0),
{
    let t = s.push(m);
    if all_succeeded::<R>(t) {
        assert forall|i: int| 0 <= i < s.len() implies R::code_of(#[trigger] s[i]) == 0 by {
            assert(t[i] == s[i]);
        }
        assert(t[s.len() as int] == m);
    }
}

/// Where failure is final, all that follows a failure is that same result.
pub proof fn failure_is_repeated<R: BatchResult>(s: Seq<R::V>, i: int, j: int)
    requires
        failure_is_final::<R>(s),
        0 <= i < j < s.len(),
        R::code_of(s[i]) != 0,
    ensures
        s[j] == s[i],
        !all_succeeded::<R>(s),
{
}

/// The results are shown one by one.
pub proof fn results_are_shown_one_by_one<R: BatchResult>(s: Seq<R>, i: int)
    requires
        0 <= i < s.len(),
    ensures
        models(s).len() == s.len(),
        models(s)[i] == s[i]@,
{
}

} // verus!
