//! The outcome a management operation reports: whether it failed, how many
//! items it handled, and one line per failed item.
use vstd::prelude::*;

use crate::text::{chars_of, push_all, push_lit, string_of};

verus! {

/// What an operation reports back to the UI.
#[derive(Clone, Debug, Default, PartialEq, Eq)]
pub struct OperationOutcome {
    pub failed: bool,
    pub handled: usize,
    pub failures: Vec<String>,
    pub appledouble_removed: usize,
    pub cancelled: bool,
}

/// The line of a failed item: its name, `: ` and the reason.
pub open spec fn failure_line(name: Seq<char>, message: Seq<char>) -> Seq<char> {
    name + ": "@ + message
}

/// The failure lines of the first `n` Runtimes that are not installed.
pub open spec fn runtime_failures(names: Seq<String>, installed: Seq<bool>, message: Seq<char>, n: int) -> Seq<Seq<char>>
    decreases n,
{
    if n <= 0 {
        Seq::empty()
    } else if installed[n - 1] {
        runtime_failures(names, installed, message, n - 1)
    } else {
        runtime_failures(names, installed, message, n - 1).push(failure_line(names[n - 1]@, message))
    }
}

fn line(name: &str, message: &str) -> (r: String)
    ensures
        r@ == failure_line(name@, message@),
{
    let mut out = chars_of(name);
    push_lit(&mut out, ": ");
    push_all(&mut out, chars_of(message).as_slice());
    string_of(out.as_slice())
}

/// The outcome of a Runtime repair that failed with `message`: each Runtime
/// whose image is nevertheless installed (`installed`, one flag per name)
/// counts as handled, every other one as failed.
pub fn runtime_failure_outcome(runtime_names: &Vec<String>, message: &str, installed: &Vec<bool>) -> (r: OperationOutcome)
    requires
        installed.len() == runtime_names.len(),
    ensures
        r.failures@.map_values(|s: String| s@) == runtime_failures(runtime_names@, installed@, message@, runtime_names.len() as int),
        r.failed == (r.failures.len() > 0),
        r.handled == runtime_names.len() - r.failures.len(),
        r.appledouble_removed == 0,
        !r.cancelled,
{
    let mut failures: Vec<String> = Vec::new();
    let mut i: usize = 0;
    while i < runtime_names.len()
        invariant
            i <= runtime_names.len(),
            installed.len() == runtime_names.len(),
            failures.len() <= i,
            failures@.map_values(|s: String| s@) == runtime_failures(runtime_names@, installed@, message@, i as int),
        decreases runtime_names.len() - i,
    {
        if !installed[i] {
            let ghost before = failures@;
            failures.push(line(runtime_names[i].as_str(), message));
            assert(failures@.map_values(|s: String| s@) =~= before.map_values(|s: String| s@).push(
                failure_line(runtime_names@[i as int]@, message@),
            ));
        }
        i += 1;
    }
    let failed = failures.len() > 0;
    let handled = runtime_names.len() - failures.len();
    OperationOutcome { failed, handled, failures, appledouble_removed: 0, cancelled: false }
}

/// The outcome of a Runtime repair that the device configuration does not
/// allow: it failed, and every requested Runtime failed with
/// `capability disabled`.
pub fn runtime_repair_disabled(runtime_names: &Vec<String>) -> (r: OperationOutcome)
    ensures
        r.failed,
        r.handled == 0,
        r.failures@.map_values(|s: String| s@) == runtime_names@.map_values(|s: String| failure_line(s@, "capability disabled"@)),
        r.appledouble_removed == 0,
        !r.cancelled,
{
    let mut failures: Vec<String> = Vec::new();
    let mut i: usize = 0;
    while i < runtime_names.len()
        invariant
            i <= runtime_names.len(),
            failures@.map_values(|s: String| s@) == runtime_names@.subrange(0, i as int).map_values(
                |s: String| failure_line(s@, "capability disabled"@),
            ),
        decreases runtime_names.len() - i,
    {
        let ghost before = failures@;
        failures.push(line(runtime_names[i].as_str(), "capability disabled"));
        assert(failures@.map_values(|s: String| s@) =~= before.map_values(|s: String| s@).push(
            failure_line(runtime_names@[i as int]@, "capability disabled"@),
        ));
        assert(runtime_names@.subrange(0, i + 1) =~= runtime_names@.subrange(0, i as int).push(runtime_names@[i as int]));
        i += 1;
    }
    assert(runtime_names@.subrange(0, runtime_names.len() as int) =~= runtime_names@);
    OperationOutcome { failed: true, handled: 0, failures, appledouble_removed: 0, cancelled: false }
}

/// The texts joined with `; ` between them.
pub open spec fn joined_failures(lines: Seq<Seq<char>>) -> Seq<char>
    decreases lines.len(),
{
    if lines.len() == 0 {
        Seq::empty()
    } else if lines.len() == 1 {
        lines[0]
    } else {
        joined_failures(lines.drop_last()) + "; "@ + lines.last()
    }
}

pub open spec fn failure_report(handled: usize, failures: Seq<Seq<char>>) -> Seq<char> {
    "operation reported a failure after handling "@ + crate::text::decimal_spec(handled as nat) + " item(s)"@ + if failures.len()
        == 0 {
        Seq::empty()
    } else {
        ": "@ + joined_failures(failures)
    }
}

/// An operation that reported a failure is an error that says how many
/// items it handled and lists the failures.
pub fn outcome_result(outcome: &OperationOutcome) -> (r: Result<(), String>)
    ensures
        r is Ok <==> !outcome.failed,
        r matches Err(e) ==> e@ == failure_report(outcome.handled, outcome.failures@.map_values(|s: String| s@)),
{
    if !outcome.failed {
        return Ok(());
    }
    let ghost lines = outcome.failures@.map_values(|s: String| s@);
    let mut details: Vec<char> = Vec::new();
    let mut i: usize = 0;
    while i < outcome.failures.len()
        invariant
            i <= outcome.failures.len(),
            lines == outcome.failures@.map_values(|s: String| s@),
            details@ == joined_failures(lines.subrange(0, i as int)),
        decreases outcome.failures.len() - i,
    {
        if i > 0 {
            push_lit(&mut details, "; ");
        }
        push_all(&mut details, chars_of(outcome.failures[i].as_str()).as_slice());
        proof {
            let next = lines.subrange(0, i + 1);
            assert(next.drop_last() =~= lines.subrange(0, i as int));
            assert(next.last() == outcome.failures@[i as int]@);
            if i == 0 {
                assert(next.len() == 1);
            }
        }
        i += 1;
    }
    assert(lines.subrange(0, outcome.failures.len() as int) =~= lines);
    let mut out = chars_of("operation reported a failure after handling ");
    push_all(&mut out, crate::text::decimal(outcome.handled as u64).as_slice());
    push_lit(&mut out, " item(s)");
    if outcome.failures.len() > 0 {
        push_lit(&mut out, ": ");
        push_all(&mut out, details.as_slice());
    }
    proof {
        reveal_strlit("operation reported a failure after handling ");
    }
    Err(string_of(out.as_slice()))
}

} // verus!
