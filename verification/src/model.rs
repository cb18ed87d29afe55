//! The data the tool works on: machines, executions, and retry inputs.

use crate::timestamp::{is_rfc3339_utc_text, rfc3339_utc_value, Timestamp};
use vstd::prelude::*;

verus! {

/// A registered workflow definition, able to be executed many times.
#[derive(PartialEq, Debug)]
pub struct StateMachine {
    pub arn: String,
    pub name: String,
}

impl Clone for StateMachine {
    /// A clone keeps both fields' content.
    fn clone(&self) -> (res: Self)
        ensures
            res.arn@ == self.arn@,
            res.name@ == self.name@,
    {
        StateMachine { arn: self.arn.clone(), name: self.name.clone() }
    }
}

impl StateMachine {
    /// The display form of a machine is its name.
    pub fn display_name(&self) -> (r: String)
        ensures
            r@ == self.name@,
    {
        self.name.clone()
    }
}

/// One run of a state machine. A listing produces it without payloads;
/// describing the execution fills `input` and `output` in.
#[derive(PartialEq, Debug)]
pub struct StateMachineExecution {
    pub arn: String,
    pub machine_arn: String,
    pub name: String,
    pub start_date: Timestamp,
    pub input: Option<String>,
    pub output: Option<String>,
}

/// The two option-of-text fields carry the same text.
pub open spec fn opt_text_eq(a: Option<String>, b: Option<String>) -> bool {
    match (a, b) {
        (Some(x), Some(y)) => x@ == y@,
        (None, None) => true,
        _ => false,
    }
}

impl StateMachineExecution {
    /// Field-for-field sameness, text compared by content.
    pub open spec fn congruent(self, other: Self) -> bool {
        &&& self.arn@ == other.arn@
        &&& self.machine_arn@ == other.machine_arn@
        &&& self.name@ == other.name@
        &&& self.start_date == other.start_date
        &&& opt_text_eq(self.input, other.input)
        &&& opt_text_eq(self.output, other.output)
    }

    /// The display form of an execution: its name, then its start time
    /// rendered `YYYY-MM-DDTHH:MM:SSZ`; `None` when the year would not fit
    /// that rendering.
    pub fn display_line(&self) -> (r: Option<String>)
        ensures
            self.start_date.in_rfc3339_range() ==> (r matches Some(s) && display_line_matches(
                s@,
                self.name@,
                self.start_date.secs as int,
            )),
            !self.start_date.in_rfc3339_range() ==> r is None,
    {
        match self.start_date.to_rfc3339_utc() {
            None => None,
            Some(rendered) => {
                let mut out: String = self.name.clone();
                out.append(" : ");
                out.append(rendered.as_str());
                proof {
                    reveal_strlit(" : ");
                    assert(out@.take(self.name@.len() as int) =~= self.name@);
                    assert(out@.subrange(
                        self.name@.len() as int,
                        self.name@.len() as int + 3,
                    ) =~= seq![' ', ':', ' ']);
                    assert(out@.skip(self.name@.len() as int + 3) =~= rendered@);
                }
                Some(out)
            },
        }
    }
}

impl Clone for StateMachineExecution {
    /// A clone keeps every field's content.
    fn clone(&self) -> (res: Self)
        ensures
            res.congruent(*self),
    {
        StateMachineExecution {
            arn: self.arn.clone(),
            machine_arn: self.machine_arn.clone(),
            name: self.name.clone(),
            start_date: self.start_date,
            input: match &self.input {
                Some(s) => Some(s.clone()),
                None => None,
            },
            output: match &self.output {
                Some(s) => Some(s.clone()),
                None => None,
            },
        }
    }
}

/// `s` is `name`, then `" : "`, then a rendered instant denoting `secs`.
pub open spec fn display_line_matches(s: Seq<char>, name: Seq<char>, secs: int) -> bool {
    &&& s.len() == name.len() + 23
    &&& s.take(name.len() as int) == name
    &&& s.subrange(name.len() as int, name.len() as int + 3) == seq![' ', ':', ' ']
    &&& is_rfc3339_utc_text(s.skip(name.len() as int + 3))
    &&& rfc3339_utc_value(s.skip(name.len() as int + 3)) == secs
}

/// What a retry hands back to the workflow service: the machine to run and
/// the original input payload.
#[derive(PartialEq, Debug)]
pub struct ExecutionInput {
    pub machine_arn: String,
    pub input: String,
}

impl Clone for ExecutionInput {
    /// A clone keeps both fields' content.
    fn clone(&self) -> (res: Self)
        ensures
            res.machine_arn@ == self.machine_arn@,
            res.input@ == self.input@,
    {
        ExecutionInput { machine_arn: self.machine_arn.clone(), input: self.input.clone() }
    }
}

/// One remote execution record as the service holds it: its name and its
/// start time, keyed by execution id.
pub open spec fn reflects_service(
    e: StateMachineExecution,
    records: Map<Seq<char>, (Seq<char>, Timestamp)>,
) -> bool {
    &&& records.contains_key(e.arn@)
    &&& records[e.arn@].0 == e.name@
    &&& records[e.arn@].1 == e.start_date
}

/// Round-trip law: when a listed summary and a described execution both
/// reflect one service state and carry the same id, the description keeps
/// the summary's name and start time.
pub proof fn lemma_describe_round_trip(
    summary: StateMachineExecution,
    detail: StateMachineExecution,
    records: Map<Seq<char>, (Seq<char>, Timestamp)>,
)
    requires
        reflects_service(summary, records),
        reflects_service(detail, records),
        detail.arn@ == summary.arn@,
    ensures
        detail.name@ == summary.name@,
        detail.start_date == summary.start_date,
{
}

} // verus!
