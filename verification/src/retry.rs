//! The retry orchestrator: per-item decisions and the fail-fast batch.
//!
//! The remote calls themselves (describe an execution, start an execution)
//! happen outside this crate; the functions here take their outcomes as
//! plain values and decide everything else, so the whole batch rule is
//! verified for every possible outcome of every call.

use crate::model::{ExecutionInput, StateMachineExecution};
use vstd::prelude::*;

verus! {

/// Why a retry batch stopped: a remote call failed, or a described
/// execution carried no input payload (a contract violation for that item,
/// fatal for the whole batch).
#[derive(Clone, PartialEq, Debug)]
pub enum RetryError {
    /// The remote workflow service failed a call; carries its message.
    Transport(String),
    /// The described execution had no input to resubmit; carries its id.
    MissingPayload(String),
}

/// The multi-select step runs only when there is something to select.
pub fn should_prompt_selection(failed: &Vec<StateMachineExecution>) -> (r: bool)
    ensures
        r == (failed@.len() > 0),
{
    failed.len() > 0
}

/// The checklist the operator is shown: every failed execution, checked by
/// default.
pub fn pre_checked_executions(failed: &Vec<StateMachineExecution>) -> (r: Vec<
    (StateMachineExecution, bool),
>)
    ensures
        r@.len() == failed@.len(),
        forall|i: int|
            0 <= i < r@.len() ==> (#[trigger] r@[i]).0.congruent(failed@[i]) && r@[i].1,
{
    let mut out: Vec<(StateMachineExecution, bool)> = Vec::new();
    let mut i: usize = 0;
    while i < failed.len()
        invariant
            i <= failed@.len(),
            out@.len() == i,
            forall|j: int|
                0 <= j < i ==> (#[trigger] out@[j]).0.congruent(failed@[j]) && out@[j].1,
        decreases failed@.len() - i,
    {
        let e: StateMachineExecution = failed[i].clone();
        out.push((e, true));
        i = i + 1;
    }
    out
}

/// Maps operator-selected checklist positions to the executions' ids, in
/// selection order; `None` when a position lies outside the list.
pub fn selected_arns(selected: &Vec<usize>, failed: &Vec<StateMachineExecution>) -> (r: Option<
    Vec<String>,
>)
    ensures
        (r is Some) == (forall|i: int|
            0 <= i < selected@.len() ==> (#[trigger] selected@[i]) < failed@.len()),
        r matches Some(v) ==> v@.len() == selected@.len() && (forall|i: int|
            0 <= i < v@.len() ==> (#[trigger] v@[i])@ == failed@[selected@[i] as int].arn@),
{
    let mut out: Vec<String> = Vec::new();
    let mut i: usize = 0;
    while i < selected.len()
        invariant
            i <= selected@.len(),
            out@.len() == i,
            forall|j: int| 0 <= j < i ==> (#[trigger] selected@[j]) < failed@.len(),
            forall|j: int|
                0 <= j < i ==> (#[trigger] out@[j])@ == failed@[selected@[j] as int].arn@,
        decreases selected@.len() - i,
    {
        let idx: usize = selected[i];
        if idx >= failed.len() {
            return None;
        }
        out.push(failed[idx].arn.clone());
        i = i + 1;
    }
    Some(out)
}

/// The per-item decision: a described execution can be resubmitted exactly
/// when it still carries its original input payload.
pub fn plan_retry(detail: &StateMachineExecution) -> (r: Result<ExecutionInput, RetryError>)
    ensures
        detail.input matches Some(p) ==> (r matches Ok(plan) && plan.machine_arn@
            == detail.machine_arn@ && plan.input@ == p@),
        detail.input is None ==> (r matches Err(e) && e matches RetryError::MissingPayload(id)
            && id@ == detail.arn@),
{
    match &detail.input {
        Some(p) => Ok(
            ExecutionInput { machine_arn: detail.machine_arn.clone(), input: p.clone() },
        ),
        None => Err(RetryError::MissingPayload(detail.arn.clone())),
    }
}

/// One batch item goes through cleanly: the describe call succeeded, the
/// payload was present, and the start call succeeded.
pub open spec fn item_ok(d: Result<StateMachineExecution, String>, s: Result<(), String>) -> bool {
    &&& d matches Ok(detail)
    &&& (d matches Ok(detail) ==> detail.input is Some)
    &&& s is Ok
}

/// The position of the first item at which a batch stops, or the batch
/// length when every item goes through.
pub open spec fn stop_index(
    ds: Seq<Result<StateMachineExecution, String>>,
    ss: Seq<Result<(), String>>,
) -> int
    decreases ds.len(),
{
    if ds.len() == 0 {
        0
    } else if !item_ok(ds[0], ss[0]) {
        0
    } else {
        1 + stop_index(ds.skip(1), ss.skip(1))
    }
}

/// `stop_index` is the first failing position.
pub proof fn lemma_stop_index(
    ds: Seq<Result<StateMachineExecution, String>>,
    ss: Seq<Result<(), String>>,
)
    requires
        ss.len() == ds.len(),
    ensures
        0 <= stop_index(ds, ss) <= ds.len(),
        forall|i: int| 0 <= i < stop_index(ds, ss) ==> #[trigger] item_ok(ds[i], ss[i]),
        stop_index(ds, ss) < ds.len() ==> !item_ok(
            ds[stop_index(ds, ss)],
            ss[stop_index(ds, ss)],
        ),
    decreases ds.len(),
{
    if ds.len() == 0 {
    } else if !item_ok(ds[0], ss[0]) {
    } else {
        lemma_stop_index(ds.skip(1), ss.skip(1));
        assert forall|i: int| 0 <= i < stop_index(ds, ss) implies #[trigger] item_ok(
            ds[i],
            ss[i],
        ) by {
            if i > 0 {
                assert(item_ok(ds.skip(1)[i - 1], ss.skip(1)[i - 1]));
            }
        }
    }
}

/// How many start calls a batch issues: one per item before the stop, and
/// one more when the stopping item failed at its start call.
pub open spec fn spec_start_calls(
    ds: Seq<Result<StateMachineExecution, String>>,
    ss: Seq<Result<(), String>>,
) -> int {
    let k = stop_index(ds, ss);
    if k == ds.len() {
        k
    } else if ds[k] matches Ok(detail) && detail.input is Some {
        k + 1
    } else {
        k
    }
}

/// The reason a stopped batch reports, tied to the stopping item's
/// remote-call outcomes.
pub open spec fn stop_error_matches(
    e: RetryError,
    ds: Seq<Result<StateMachineExecution, String>>,
    ss: Seq<Result<(), String>>,
) -> bool {
    let k = stop_index(ds, ss);
    k < ds.len() && match ds[k] {
        Err(m) => e matches RetryError::Transport(t) && t@ == m@,
        Ok(detail) => if detail.input is None {
            e matches RetryError::MissingPayload(id) && id@ == detail.arn@
        } else {
            ss[k] matches Err(m) && e matches RetryError::Transport(t) && t@ == m@
        },
    }
}

/// The resubmitted input planned for a successfully described item.
pub open spec fn planned_input_matches(
    plan: ExecutionInput,
    d: Result<StateMachineExecution, String>,
) -> bool {
    &&& d matches Ok(detail)
    &&& (d matches Ok(detail) ==> detail.input matches Some(p) && plan.machine_arn@
        == detail.machine_arn@ && plan.input@ == p@)
}

/// The outcome of an item that went through: started, with the input the
/// describe call recovered.
pub open spec fn started_outcome_matches(
    o: RetryOutcome,
    d: Result<StateMachineExecution, String>,
) -> bool {
    o matches RetryOutcome::Started(p) && planned_input_matches(p, d)
}

/// Per-item result of one retry: the execution was resubmitted with this
/// input, or it failed for this reason.
#[derive(Clone, PartialEq, Debug)]
pub enum RetryOutcome {
    Started(ExecutionInput),
    Failed(RetryError),
}

/// The aggregated report of one retry batch: one outcome per attempted
/// item, in order, and how many start calls were issued. A failed outcome
/// is always the last one — items past it were never attempted.
pub struct BatchReport {
    pub outcomes: Vec<RetryOutcome>,
    pub start_calls: usize,
}

/// Replays one retry batch over the remote calls' outcomes: `describes[i]`
/// is what describing the `i`-th selected execution returned, `starts[i]`
/// what starting it returned. Items run strictly in selection order and the
/// first failure stops the batch: outcomes past the stop are never read.
pub fn run_retry_batch(
    describes: &Vec<Result<StateMachineExecution, String>>,
    starts: &Vec<Result<(), String>>,
) -> (r: BatchReport)
    requires
        starts@.len() == describes@.len(),
    ensures
        stop_index(describes@, starts@) == describes@.len() ==> r.outcomes@.len()
            == describes@.len(),
        stop_index(describes@, starts@) < describes@.len() ==> r.outcomes@.len() == stop_index(
            describes@,
            starts@,
        ) + 1 && (r.outcomes@.last() matches RetryOutcome::Failed(e) && stop_error_matches(
            e,
            describes@,
            starts@,
        )),
        forall|i: int|
            0 <= i < stop_index(describes@, starts@) ==> started_outcome_matches(
                #[trigger] r.outcomes@[i],
                describes@[i],
            ),
        r.start_calls == spec_start_calls(describes@, starts@),
{
    let ghost ds = describes@;
    let ghost ss = starts@;
    let n: usize = describes.len();
    let mut outcomes: Vec<RetryOutcome> = Vec::new();
    let mut i: usize = 0;
    while i < n
        invariant
            ds == describes@,
            ss == starts@,
            ss.len() == ds.len(),
            n == ds.len(),
            i <= n,
            outcomes@.len() == i,
            forall|j: int| 0 <= j < i ==> #[trigger] item_ok(ds[j], ss[j]),
            forall|j: int|
                0 <= j < i ==> started_outcome_matches(#[trigger] outcomes@[j], ds[j]),
        decreases n - i,
    {
        match &describes[i] {
            Err(m) => {
                proof {
                    lemma_stop_index(ds, ss);
                    assert(!item_ok(ds[i as int], ss[i as int]));
                    assert(stop_index(ds, ss) == i);
                }
                outcomes.push(RetryOutcome::Failed(RetryError::Transport(m.clone())));
                return BatchReport { outcomes, start_calls: i };
            },
            Ok(detail) => {
                match plan_retry(detail) {
                    Err(e) => {
                        proof {
                            lemma_stop_index(ds, ss);
                            assert(!item_ok(ds[i as int], ss[i as int]));
                            assert(stop_index(ds, ss) == i);
                        }
                        outcomes.push(RetryOutcome::Failed(e));
                        return BatchReport { outcomes, start_calls: i };
                    },
                    Ok(plan) => {
                        match &starts[i] {
                            Err(m) => {
                                proof {
                                    lemma_stop_index(ds, ss);
                                    assert(!item_ok(ds[i as int], ss[i as int]));
                                    assert(stop_index(ds, ss) == i);
                                }
                                outcomes.push(
                                    RetryOutcome::Failed(RetryError::Transport(m.clone())),
                                );
                                return BatchReport { outcomes, start_calls: i + 1 };
                            },
                            Ok(_) => {
                                proof {
                                    assert(item_ok(ds[i as int], ss[i as int]));
                                }
                                outcomes.push(RetryOutcome::Started(plan));
                                i = i + 1;
                            },
                        }
                    },
                }
            },
        }
    }
    proof {
        lemma_stop_index(ds, ss);
        assert(stop_index(ds, ss) == n);
    }
    BatchReport { outcomes, start_calls: n }
}

/// Fail-fast law: when the first `k - 1` items of a batch go through and
/// the `k`-th (1-indexed) fails at its describe call or finds no payload,
/// the batch stops there with exactly `k - 1` start calls issued — none
/// after the failure.
pub proof fn lemma_fail_fast(
    ds: Seq<Result<StateMachineExecution, String>>,
    ss: Seq<Result<(), String>>,
    k: int,
)
    requires
        ss.len() == ds.len(),
        1 <= k <= ds.len(),
        forall|j: int| 0 <= j < k - 1 ==> #[trigger] item_ok(ds[j], ss[j]),
        ds[k - 1] matches Ok(detail) ==> detail.input is None,
    ensures
        stop_index(ds, ss) == k - 1,
        spec_start_calls(ds, ss) == k - 1,
{
    lemma_stop_index(ds, ss);
    assert(!item_ok(ds[k - 1], ss[k - 1]));
}

} // verus!
