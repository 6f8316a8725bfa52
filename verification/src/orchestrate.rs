//! Orchestration decisions.
//!
//! The loop that attaches probes and polls the instrumentation runtime runs
//! outside this crate; every decision it takes is computed here. Planning
//! says which probes to build and what to attach them to; the tally says
//! whether polling is worthwhile; event handling turns each delivered
//! buffer into its display line or the error that must abort the loop.

use vstd::prelude::*;

use crate::codec::decode;
use crate::codec::render_record;
use crate::codec::spec_render_record;
use crate::codec::FIELD_LEN;
use crate::codec::RECORD_SIZE;
use crate::elf::SymbolSet;
use crate::probes::generate_probe_source;
use crate::probes::probe_name;
use crate::probes::probe_prefix;
use crate::probes::probe_source;
use crate::TraceError;

verus! {

/// One probe to attach: the probe's own name in the generated program, and
/// the library function it instruments.
pub struct ProbeSpec {
    /// Name of the generated probe.
    pub probe: String,
    /// Name of the function it attaches to.
    pub target: String,
}

/// Everything the attachment step needs: the probe program and one
/// [`ProbeSpec`] per traced function, in set order.
pub struct ProbePlan {
    /// The probe program body.
    pub source: String,
    /// The probes to attach, one per traced function.
    pub probes: Vec<ProbeSpec>,
}

/// Plans the trace for a resolved function set. An empty set yields no
/// plan: nothing to trace is a valid outcome, not an error, and no probe is
/// attached. Otherwise the plan holds the generated program and one probe
/// per function, named by [`probe_name`]'s scheme.
pub fn plan_trace(functions: &SymbolSet) -> (r: Option<ProbePlan>)
    ensures
        r is Some <==> functions.to_seq().len() > 0,
        r matches Some(plan) ==> {
            &&& plan.source@ == probe_source(functions.to_seq())
            &&& plan.probes@.len() == functions.to_seq().len()
            &&& forall|i: int|
                0 <= i < plan.probes@.len() ==> (#[trigger] plan.probes@[i].probe)@
                    == probe_prefix() + functions.to_seq()[i] && plan.probes@[i].target@
                    == functions.to_seq()[i]
        },
{
    if functions.len() == 0 {
        return None;
    }
    let source = generate_probe_source(functions);
    let names = functions.names();
    let mut probes: Vec<ProbeSpec> = Vec::new();
    let mut i: usize = 0;
    while i < names.len()
        invariant
            i <= names@.len(),
            names.deep_view() == functions.to_seq(),
            probes@.len() == i,
            forall|k: int|
                0 <= k < i ==> (#[trigger] probes@[k].probe)@ == probe_prefix()
                    + functions.to_seq()[k] && probes@[k].target@ == functions.to_seq()[k],
        decreases names@.len() - i,
    {
        let target = names[i].clone();
        let probe = probe_name(target.as_str());
        proof {
            assert(target@ == functions.to_seq()[i as int]);
        }
        probes.push(ProbeSpec { probe, target });
        i = i + 1;
    }
    Some(ProbePlan { source, probes })
}

/// How many of a sequence of attachment outcomes succeeded.
pub open spec fn count_true(s: Seq<bool>) -> int
    decreases s.len(),
{
    if s.len() == 0 {
        0int
    } else {
        count_true(s.drop_last()) + if s.last() {
            1int
        } else {
            0int
        }
    }
}

/// Counts the successful attachments. Failures are non-fatal: the caller
/// logs them and goes on with the functions that attached.
pub fn tally_attached(outcomes: &Vec<bool>) -> (n: usize)
    ensures
        n == count_true(outcomes@),
{
    proof {
        lemma_count_true_bounds(outcomes@);
    }
    let mut n: usize = 0;
    let mut i: usize = 0;
    while i < outcomes.len()
        invariant
            i <= outcomes@.len(),
            n == count_true(outcomes@.take(i as int)),
            n <= i,
        decreases outcomes@.len() - i,
    {
        proof {
            assert(outcomes@.take(i + 1).drop_last() =~= outcomes@.take(i as int));
            assert(outcomes@.take(i + 1).last() == outcomes@[i as int]);
        }
        if outcomes[i] {
            n = n + 1;
        }
        i = i + 1;
    }
    proof {
        assert(outcomes@.take(outcomes@.len() as int) =~= outcomes@);
    }
    n
}

/// The count of successes is between zero and the number of outcomes.
pub proof fn lemma_count_true_bounds(s: Seq<bool>)
    ensures
        0 <= count_true(s) <= s.len(),
    decreases s.len(),
{
    if s.len() > 0 {
        lemma_count_true_bounds(s.drop_last());
    }
}

/// Law: one success among any outcomes is enough to poll. If any
/// attachment succeeded, the tally is positive, so the orchestrator
/// proceeds to the poll loop whatever failed around it.
pub proof fn lemma_any_success_polls(s: Seq<bool>, i: int)
    requires
        0 <= i < s.len(),
        s[i],
    ensures
        count_true(s) > 0,
    decreases s.len(),
{
    lemma_count_true_bounds(s.drop_last());
    if i < s.len() - 1 {
        lemma_any_success_polls(s.drop_last(), i);
    }
}

/// Whether the poll loop should run: at least one probe attached.
pub fn should_poll(attached: usize) -> (b: bool)
    ensures
        b == (attached > 0),
{
    attached > 0
}

/// Handles one delivered event buffer: decodes it against the fixed layout
/// and renders the display line. A buffer shorter than the record layout is
/// a malformed record; that error aborts the poll loop, since it means the
/// generator and the decoder disagree, never a transient condition.
pub fn handle_event(buf: &[u8]) -> (r: Result<String, TraceError>)
    ensures
        r is Ok <==> buf@.len() >= RECORD_SIZE,
        r matches Ok(line) ==> line@ == spec_render_record(
            buf@.subrange(0, FIELD_LEN as int),
            buf@.subrange(FIELD_LEN as int, 2 * FIELD_LEN as int),
            vstd::bytes::spec_u64_from_le_bytes(buf@.subrange(40, 48)),
            vstd::bytes::spec_u64_from_le_bytes(buf@.subrange(48, 56)),
            vstd::bytes::spec_u64_from_le_bytes(buf@.subrange(56, 64)),
        ),
        r matches Err(e) ==> e == TraceError::MalformedRecord,
{
    match decode(buf) {
        Ok(rec) => Ok(render_record(&rec)),
        Err(e) => Err(e),
    }
}

} // verus!
