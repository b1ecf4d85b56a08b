//! Repeatable evaluation cases: their names, held-out expected schemas and
//! deterministic criteria are checked before any case runs.
use vstd::prelude::*;
use vstd::string::StringSliceAdditionalSpecFns;
use crate::criteria::{pointer_valid, validate_pointer};
use crate::definitions::{schema_valid, validate_schema};
use crate::error::{invalid, Error, Result};
use crate::text::{blank, is_blank, utf8_len};
use crate::definitions::{json_schema_accepts, validate};
use crate::error::text;
use crate::inspection::RunView;
use crate::json::put;
use crate::models::{RunStatus, VersionRef};
use crate::primitives::{decimal, decimal_text};

verus! {

/// A criterion of a case, as far as its validity goes: the pointer it
/// addresses, and whether its numeric range (if it has one) is finite and
/// ordered. Non-range criteria have a valid range.
pub struct CriterionCheck {
    pub pointer: String,
    pub range_valid: bool,
}

/// An evaluation case: its name, the JSON input it submits, the JSON Schema
/// its output must satisfy, and its criteria.
pub struct Case {
    pub name: String,
    pub input: String,
    pub expected_schema: String,
    pub criteria: Vec<CriterionCheck>,
}

/// One case is well formed: a name of 1 to 256 bytes, not blank, a usable
/// schema, and valid criteria.
pub open spec fn case_valid(c: Case) -> bool {
    &&& !blank(c.name@) && utf8_len(c.name@) <= 256
    &&& schema_valid(c.expected_schema@)
    &&& forall|k: int| 0 <= k < c.criteria@.len() ==> (#[trigger] c.criteria@[k]).range_valid
        && pointer_valid(vstd::utf8::encode_utf8(c.criteria@[k].pointer@))
}

/// A suite: 1 to 100 well-formed cases with distinct names.
pub open spec fn cases_valid(cases: Seq<Case>) -> bool {
    &&& 1 <= cases.len() <= 100
    &&& forall|k: int| 0 <= k < cases.len() ==> case_valid(#[trigger] cases[k])
    &&& forall|a: int, b: int| 0 <= a < b < cases.len() ==> (#[trigger] cases[a]).name@ != (#[trigger] cases[b]).name@
}

/// Check deterministic criteria (of a case or of a goal): each addresses a
/// valid JSON pointer, and a numeric range is finite and ordered.
pub fn validate_criteria(v: &Vec<CriterionCheck>) -> (r: Result<()>)
    ensures
        r is Ok <==> forall|k: int| 0 <= k < v@.len() ==> (#[trigger] v@[k]).range_valid
            && pointer_valid(vstd::utf8::encode_utf8(v@[k].pointer@)),
        r is Err ==> (r matches Err(Error::Invalid(_))),
{
    let mut k: usize = 0;
    while k < v.len()
        invariant
            k <= v@.len(),
            forall|q: int| 0 <= q < k ==> (#[trigger] v@[q]).range_valid && pointer_valid(vstd::utf8::encode_utf8(v@[q].pointer@)),
        decreases v@.len() - k,
    {
        let c = &v[k];
        if !c.range_valid {
            return Err(invalid("invalid verification numeric range"));
        }
        let p = c.pointer.as_str();
        proof {
            assert(p.spec_bytes() == vstd::utf8::encode_utf8(p@));
        }
        validate_pointer(p)?;
        k = k + 1;
    }
    Ok(())
}

/// Check an evaluation suite before running it.
pub fn validate_cases(cases: &[Case]) -> (r: Result<()>)
    ensures
        r is Ok <==> cases_valid(cases@),
        r is Err ==> (r matches Err(Error::Invalid(_))),
{
    let n = cases.len();
    if n == 0 || n > 100 {
        return Err(invalid("evaluation requires 1 to 100 cases"));
    }
    let mut k: usize = 0;
    while k < n
        invariant
            n == cases@.len(),
            1 <= n <= 100,
            k <= n,
            forall|q: int| 0 <= q < k ==> case_valid(#[trigger] cases@[q]),
            forall|a: int, b: int| 0 <= a < b < k ==> (#[trigger] cases@[a]).name@ != (#[trigger] cases@[b]).name@,
        decreases n - k,
    {
        let c = &cases[k];
        if is_blank(c.name.as_str()) || crate::text::byte_length(&c.name) > 256 {
            return Err(invalid("evaluation case names must be nonempty and unique"));
        }
        let mut j: usize = 0;
        while j < k
            invariant
                k < n,
                n == cases@.len(),
                *c == cases@[k as int],
                j <= k,
                forall|a: int| 0 <= a < j ==> cases@[a].name@ != cases@[k as int].name@,
            decreases k - j,
        {
            if cases[j].name == c.name {
                return Err(invalid("evaluation case names must be nonempty and unique"));
            }
            j = j + 1;
        }
        validate_schema(c.expected_schema.as_str())?;
        validate_criteria(&c.criteria)?;
        proof {
            assert forall|a: int, b: int| 0 <= a < b < k + 1 implies (#[trigger] cases@[a]).name@ != (#[trigger] cases@[b]).name@ by {
                if b == k {
                    assert(cases@[a].name@ != cases@[k as int].name@);
                }
            }
        }
        k = k + 1;
    }
    Ok(())
}

/// What the evaluator observed of a case's run once driving stopped: the
/// failure that stopped it (if any), its status, whether the runtime's own
/// verification passed, its result as JSON text, and the position of the
/// first held-out criterion the result fails (criteria are judged by the host).
pub struct CaseObservation {
    pub error: Option<String>,
    pub status: RunStatus,
    pub assessment_passed: bool,
    pub result: Option<String>,
    pub failed_criterion: Option<u64>,
}

/// The name of a run status as Rust's `Debug` writes it.
pub open spec fn status_debug(s: RunStatus) -> Seq<char> {
    match s {
        RunStatus::Queued => "Queued"@,
        RunStatus::Running => "Running"@,
        RunStatus::Waiting => "Waiting"@,
        RunStatus::Cancelling => "Cancelling"@,
        RunStatus::Completed => "Completed"@,
        RunStatus::Failed => "Failed"@,
        RunStatus::Cancelled => "Cancelled"@,
    }
}

fn status_debug_text(s: RunStatus) -> (r: String)
    ensures
        r@ == status_debug(s),
{
    match s {
        RunStatus::Queued => text("Queued"),
        RunStatus::Running => text("Running"),
        RunStatus::Waiting => text("Waiting"),
        RunStatus::Cancelling => text("Cancelling"),
        RunStatus::Completed => text("Completed"),
        RunStatus::Failed => text("Failed"),
        RunStatus::Cancelled => text("Cancelled"),
    }
}

/// The verdict on a case: `None` when it passed, else the feedback text.
pub open spec fn case_verdict(expected_schema: Seq<char>, o: CaseObservation) -> Option<Seq<char>> {
    match o.error {
        Some(e) => Some(e@),
        None => if !(o.status is Completed) {
            Some("run did not complete: "@ + status_debug(o.status))
        } else if !o.assessment_passed {
            Some("runtime verification did not pass"@)
        } else {
            match o.result {
                None => Some("completed run has no result"@),
                Some(v) => if !json_schema_accepts(expected_schema, v@) {
                    Some("invalid: schema validation failed"@)
                } else {
                    match o.failed_criterion {
                        Some(i) => Some("held-out criterion "@ + decimal((i + 1) as nat) + " failed"@),
                        None => None,
                    }
                },
            }
        },
    }
}

/// Judge one case from what its run showed. Returns the feedback of a failed
/// case, or `Ok` when the run completed, passed the runtime's verification,
/// and its result meets the held-out schema and criteria.
pub fn assess_case(case: &Case, observation: &CaseObservation) -> (r: core::result::Result<(), String>)
    requires
        case_valid(*case),
        observation.failed_criterion matches Some(i) ==> i < u64::MAX,
    ensures
        match case_verdict(case.expected_schema@, *observation) {
            None => r is Ok,
            Some(m) => r matches Err(f) && f@ == m,
        },
{
    if let Some(e) = &observation.error {
        return Err(e.clone());
    }
    if observation.status != RunStatus::Completed {
        let mut m = text("run did not complete: ");
        let name = status_debug_text(observation.status);
        put(&mut m, name.as_str());
        return Err(m);
    }
    if !observation.assessment_passed {
        return Err(text("runtime verification did not pass"));
    }
    let value = match &observation.result {
        None => return Err(text("completed run has no result")),
        Some(v) => v,
    };
    if validate(case.expected_schema.as_str(), value.as_str()).is_err() {
        proof {
            reveal_strlit("invalid: schema validation failed");
        }
        return Err(text("invalid: schema validation failed"));
    }
    match observation.failed_criterion {
        Some(i) => {
            let mut m = text("held-out criterion ");
            let n = decimal_text(i + 1);
            put(&mut m, n.as_str());
            put(&mut m, " failed");
            Err(m)
        },
        None => Ok(()),
    }
}

/// The outcome of one case in a report.
pub struct CaseResult {
    pub elapsed_ms: u64,
    pub name: String,
    pub passed: bool,
    pub feedback: String,
    pub run: RunView,
}

/// An evaluation report: the suite's digest, the agent evaluated, whether
/// every case passed, and each case's outcome.
pub struct Report {
    pub suite_digest: String,
    pub agent: VersionRef,
    pub passed: bool,
    pub cases: Vec<CaseResult>,
}

/// Assemble a report; it passes exactly when every case passed.
pub fn evaluation_report(suite_digest: String, agent: VersionRef, cases: Vec<CaseResult>) -> (rep: Report)
    ensures
        rep.suite_digest == suite_digest,
        rep.agent == agent,
        rep.cases@ == cases@,
        rep.passed <==> forall|k: int| 0 <= k < cases@.len() ==> (#[trigger] cases@[k]).passed,
{
    let mut passed = true;
    let mut k: usize = 0;
    while k < cases.len()
        invariant
            k <= cases@.len(),
            passed <==> forall|q: int| 0 <= q < k ==> (#[trigger] cases@[q]).passed,
        decreases cases@.len() - k,
    {
        passed = passed && cases[k].passed;
        k = k + 1;
    }
    Report { suite_digest, agent, passed, cases }
}

} // verus!
