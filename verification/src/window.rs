//! The date-range filter: an inclusive, optionally open-ended time window
//! over execution start times.

use crate::model::StateMachineExecution;
use crate::timestamp::Timestamp;
use vstd::prelude::*;

verus! {

/// Operator-supplied time window. Either bound may be absent, which leaves
/// that side open. An inverted window (start after end) is not an error: it
/// simply matches nothing.
#[derive(Clone, Copy, PartialEq, Eq, Debug)]
pub struct DateWindow {
    pub start: Option<Timestamp>,
    pub end: Option<Timestamp>,
}

impl DateWindow {
    pub open spec fn well_formed(self) -> bool {
        &&& (self.start matches Some(t) ==> t.well_formed())
        &&& (self.end matches Some(t) ==> t.well_formed())
    }

    /// The inclusive-bound rule on one instant.
    pub fn contains(&self, t: &Timestamp) -> (r: bool)
        requires
            self.well_formed(),
            t.well_formed(),
        ensures
            r == in_window(*self, *t),
    {
        let lo_ok: bool = match &self.start {
            Some(s) => s.le(t),
            None => true,
        };
        let hi_ok: bool = match &self.end {
            Some(e) => t.le(e),
            None => true,
        };
        lo_ok && hi_ok
    }
}

/// `t` falls in the window: at or after a present start, at or before a
/// present end; an absent bound constrains nothing.
pub open spec fn in_window(w: DateWindow, t: Timestamp) -> bool {
    &&& (w.start matches Some(s) ==> s.as_nanos() <= t.as_nanos())
    &&& (w.end matches Some(e) ==> t.as_nanos() <= e.as_nanos())
}

/// The window rule as a predicate on executions, over their start times.
pub open spec fn window_pred(w: DateWindow) -> spec_fn(StateMachineExecution) -> bool {
    |e: StateMachineExecution| in_window(w, e.start_date)
}

/// Keeps exactly the executions whose start time falls in the window, in
/// their original order.
pub fn filter_executions(executions: Vec<StateMachineExecution>, window: &DateWindow) -> (r: Vec<
    StateMachineExecution,
>)
    requires
        window.well_formed(),
        forall|i: int|
            0 <= i < executions@.len() ==> (#[trigger] executions@[i]).start_date.well_formed(),
    ensures
        r@ == executions@.filter(window_pred(*window)),
{
    let ghost orig = executions@;
    let ghost pred = window_pred(*window);
    let mut rest: Vec<StateMachineExecution> = executions;
    let mut out: Vec<StateMachineExecution> = Vec::new();
    let ghost mut k: int = 0;
    proof {
        reveal(Seq::filter);
        assert(out@ == orig.take(0).filter(pred));
    }
    while rest.len() > 0
        invariant
            pred == window_pred(*window),
            0 <= k <= orig.len(),
            rest@ == orig.skip(k),
            out@ == orig.take(k).filter(pred),
            window.well_formed(),
            forall|i: int| 0 <= i < orig.len() ==> (#[trigger] orig[i]).start_date.well_formed(),
        decreases rest@.len(),
    {
        let e: StateMachineExecution = rest.remove(0);
        assert(e == orig[k]);
        let keep: bool = window.contains(&e.start_date);
        if keep {
            out.push(e);
        }
        proof {
            reveal(Seq::filter);
            k = k + 1;
            assert(rest@ =~= orig.skip(k));
            let prefix = orig.take(k);
            assert(prefix.len() == k);
            assert(prefix.drop_last() =~= orig.take(k - 1));
            assert(prefix.last() == orig[k - 1]);
            assert(orig[k - 1] == e);
            assert(in_window(*window, e.start_date) == keep);
            assert(pred(orig[k - 1]) == keep);
            if keep {
                assert(prefix.filter(pred) == prefix.drop_last().filter(pred).push(
                    prefix.last(),
                ));
            } else {
                assert(prefix.filter(pred) == prefix.drop_last().filter(pred));
            }
            assert(out@ == prefix.filter(pred));
        }
    }
    proof {
        assert(orig.take(orig.len() as int) =~= orig);
    }
    out
}

/// Law: a window with both bounds absent keeps every execution.
pub proof fn lemma_open_window_keeps_all(
    executions: Seq<StateMachineExecution>,
    window: DateWindow,
)
    requires
        window.start is None,
        window.end is None,
    ensures
        executions.filter(window_pred(window)) == executions,
    decreases executions.len(),
{
    let pred = window_pred(window);
    reveal(Seq::filter);
    if executions.len() == 0 {
        assert(executions.filter(pred) =~= executions);
    } else {
        lemma_open_window_keeps_all(executions.drop_last(), window);
        assert(executions =~= executions.drop_last().push(executions.last()));
        assert(executions.filter(pred) =~= executions);
    }
}

} // verus!
