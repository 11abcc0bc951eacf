//! The result aggregator.
//!
//! The driver launches one probe per target and collects every outcome once
//! all probes have finished. Aggregation keeps the successful measurements
//! only, in the order the outcomes arrive, and keeps at most one measurement
//! per address, so that a target listed twice cannot appear twice in the
//! output. The laws at the end of this module state what the output owes to
//! the input: it is drawn verbatim from it, carries no duplicate address,
//! is empty when no probe got a reply, and is complete when every probe got
//! one.

use vstd::prelude::*;

use crate::classify::is_ip_text;
use crate::echo::probe_outcome;
use crate::echo::probe_outcome_spec;
use crate::echo::EchoError;
use crate::echo::OutcomeView;
use crate::echo::ProbeOutcome;
use crate::records::Measurement;
use crate::records::MeasurementView;
use crate::records::RecordWithGeolocation;

verus! {

/// The measurement views of a vector of measurements.
pub open spec fn measurement_views(ms: Seq<Measurement>) -> Seq<MeasurementView> {
    ms.map_values(|m: Measurement| m@)
}

/// The outcome views of a vector of outcomes.
pub open spec fn outcome_views(os: Seq<ProbeOutcome>) -> Seq<OutcomeView> {
    os.map_values(|o: ProbeOutcome| o@)
}

/// Whether some measurement in `ms` carries the address `ip`.
pub open spec fn has_ip(ms: Seq<MeasurementView>, ip: Seq<char>) -> bool {
    exists|i: int| 0 <= i < ms.len() && ms[i].ip == ip
}

/// The successful measurements among `outs`, in arrival order, keeping only
/// the first measurement for any address.
pub open spec fn aggregate_spec(outs: Seq<OutcomeView>) -> Seq<MeasurementView>
    decreases outs.len(),
{
    if outs.len() == 0 {
        Seq::empty()
    } else {
        let rest = aggregate_spec(outs.drop_last());
        match outs.last() {
            OutcomeView::Success(m) => if has_ip(rest, m.ip) {
                rest
            } else {
                rest.push(m)
            },
            OutcomeView::Failure(_) => rest,
        }
    }
}

/// Whether some measurement in `out` carries the address `ip`.
fn contains_ip(out: &Vec<Measurement>, ip: &String) -> (b: bool)
    ensures
        b == has_ip(measurement_views(out@), ip@),
{
    let mut i: usize = 0;
    while i < out.len()
        invariant
            i <= out@.len(),
            forall|k: int| 0 <= k < i ==> measurement_views(out@)[k].ip != ip@,
        decreases out@.len() - i,
    {
        if out[i].ip == *ip {
            proof {
                assert(measurement_views(out@)[i as int].ip == ip@);
            }
            return true;
        }
        i = i + 1;
    }
    false
}

/// Keep the successful outcomes' measurements, in arrival order, dropping
/// every failure and any measurement whose address was already kept.
pub fn aggregate_outcomes(outcomes: &Vec<ProbeOutcome>) -> (out: Vec<Measurement>)
    ensures
        measurement_views(out@) == aggregate_spec(outcome_views(outcomes@)),
{
    let ghost all = outcome_views(outcomes@);
    let mut out: Vec<Measurement> = Vec::new();
    let mut i: usize = 0;
    proof {
        assert(all.take(0) =~= Seq::<OutcomeView>::empty());
        assert(measurement_views(out@) =~= aggregate_spec(all.take(0)));
    }
    while i < outcomes.len()
        invariant
            i <= outcomes@.len(),
            all == outcome_views(outcomes@),
            measurement_views(out@) == aggregate_spec(all.take(i as int)),
        decreases outcomes@.len() - i,
    {
        proof {
            assert(all.take(i as int + 1).drop_last() =~= all.take(i as int));
            assert(all.take(i as int + 1).last() == outcomes@[i as int]@);
        }
        match &outcomes[i] {
            ProbeOutcome::Success(m) => {
                let dup = contains_ip(&out, &m.ip);
                if !dup {
                    let ghost old_out = out@;
                    out.push(
                        Measurement {
                            ip: m.ip.clone(),
                            location: m.location.clone(),
                            round_trip_nanos: m.round_trip_nanos,
                        },
                    );
                    proof {
                        assert(measurement_views(out@) =~= measurement_views(old_out).push(m@));
                    }
                }
            },
            ProbeOutcome::Failure(_) => {},
        }
        i = i + 1;
    }
    proof {
        assert(all.take(outcomes@.len() as int) =~= all);
    }
    out
}

/// The outcome each target would reach against a session that answers the
/// probe of `targets[i]` with `replies[i]`.
pub open spec fn session_outcomes(
    targets: Seq<RecordWithGeolocation>,
    replies: Seq<Result<u64, EchoError>>,
) -> Seq<OutcomeView> {
    Seq::new(targets.len(), |i: int| probe_outcome_spec(targets[i], replies[i]))
}

/// Run every target against a session whose answers are given: classify,
/// probe, and aggregate the successes. `replies[i]` is what the session
/// reports for `targets[i]`; it is ignored for a target whose address text
/// is rejected.
pub fn run_session(
    targets: &Vec<RecordWithGeolocation>,
    replies: &Vec<Result<u64, EchoError>>,
) -> (out: Vec<Measurement>)
    requires
        replies@.len() == targets@.len(),
    ensures
        measurement_views(out@) == aggregate_spec(session_outcomes(targets@, replies@)),
{
    let ghost outs = session_outcomes(targets@, replies@);
    let mut outcomes: Vec<ProbeOutcome> = Vec::new();
    let mut i: usize = 0;
    while i < targets.len()
        invariant
            i <= targets@.len(),
            replies@.len() == targets@.len(),
            outs == session_outcomes(targets@, replies@),
            outcome_views(outcomes@) == outs.take(i as int),
        decreases targets@.len() - i,
    {
        let o = probe_outcome(&targets[i], &replies[i]);
        let ghost old_views = outcome_views(outcomes@);
        let ghost ov = o@;
        outcomes.push(o);
        proof {
            assert(outcome_views(outcomes@) =~= old_views.push(ov));
            assert(outs[i as int] == ov);
            assert(outs.take(i as int + 1) =~= outs.take(i as int).push(outs[i as int]));
        }
        i = i + 1;
    }
    proof {
        assert(outs.take(targets@.len() as int) =~= outs);
    }
    aggregate_outcomes(&outcomes)
}

/// Law: aggregation fabricates nothing. Every aggregated measurement is the
/// measurement of some successful outcome, verbatim.
pub proof fn lemma_output_from_successes(outs: Seq<OutcomeView>)
    ensures
        forall|k: int|
            0 <= k < aggregate_spec(outs).len() ==> exists|j: int|
                0 <= j < outs.len() && outs[j] == OutcomeView::Success(
                    #[trigger] aggregate_spec(outs)[k],
                ),
    decreases outs.len(),
{
    if outs.len() > 0 {
        let prefix = outs.drop_last();
        lemma_output_from_successes(prefix);
        let agg = aggregate_spec(outs);
        let rest = aggregate_spec(prefix);
        assert forall|k: int| 0 <= k < agg.len() implies exists|j: int|
            0 <= j < outs.len() && outs[j] == OutcomeView::Success(#[trigger] agg[k]) by {
            if k < rest.len() {
                assert(agg[k] == rest[k]);
                let j = choose|j: int|
                    0 <= j < prefix.len() && prefix[j] == OutcomeView::Success(rest[k]);
                assert(outs[j] == OutcomeView::Success(agg[k]));
            } else {
                assert(outs.last() == OutcomeView::Success(agg[k]));
                assert(outs[outs.len() - 1] == OutcomeView::Success(agg[k]));
            }
        }
    }
}

/// Law: the output is a subset of the input. Every measurement of a run
/// copies the address and the location label of some input target verbatim,
/// and carries the round-trip time that the session reported for that
/// target.
pub proof fn lemma_output_subset_of_input(
    targets: Seq<RecordWithGeolocation>,
    replies: Seq<Result<u64, EchoError>>,
)
    requires
        replies.len() == targets.len(),
    ensures
        forall|k: int|
            0 <= k < aggregate_spec(session_outcomes(targets, replies)).len() ==> exists|j: int|
                0 <= j < targets.len() && (#[trigger] aggregate_spec(
                    session_outcomes(targets, replies),
                )[k]).ip == targets[j].ip@ && aggregate_spec(session_outcomes(targets, replies))[k].location
                    == targets[j].location@ && replies[j] == Ok::<u64, EchoError>(
                    aggregate_spec(session_outcomes(targets, replies))[k].round_trip_nanos,
                ),
{
    let outs = session_outcomes(targets, replies);
    let agg = aggregate_spec(outs);
    lemma_output_from_successes(outs);
    assert forall|k: int| 0 <= k < agg.len() implies exists|j: int|
        0 <= j < targets.len() && (#[trigger] agg[k]).ip == targets[j].ip@ && agg[k].location
            == targets[j].location@ && replies[j] == Ok::<u64, EchoError>(
            agg[k].round_trip_nanos,
        ) by {
        let j = choose|j: int| 0 <= j < outs.len() && outs[j] == OutcomeView::Success(agg[k]);
        assert(outs[j] == probe_outcome_spec(targets[j], replies[j]));
        assert(agg[k].ip == targets[j].ip@ && agg[k].location == targets[j].location@ && replies[j]
            == Ok::<u64, EchoError>(agg[k].round_trip_nanos));
    }
}

/// Law: no duplicate addresses. Two distinct aggregated measurements never
/// carry the same address, however often an address occurs in the input.
pub proof fn lemma_no_duplicate_addresses(outs: Seq<OutcomeView>)
    ensures
        forall|i: int, j: int|
            0 <= i < j < aggregate_spec(outs).len() ==> (#[trigger] aggregate_spec(outs)[i]).ip
                != (#[trigger] aggregate_spec(outs)[j]).ip,
    decreases outs.len(),
{
    if outs.len() > 0 {
        let prefix = outs.drop_last();
        lemma_no_duplicate_addresses(prefix);
        let agg = aggregate_spec(outs);
        let rest = aggregate_spec(prefix);
        assert forall|i: int, j: int| 0 <= i < j < agg.len() implies (#[trigger] agg[i]).ip
            != (#[trigger] agg[j]).ip by {
            if j < rest.len() {
                assert(agg[i] == rest[i] && agg[j] == rest[j]);
            } else if agg.len() > rest.len() {
                assert(agg[i] == rest[i]);
                match outs.last() {
                    OutcomeView::Success(m) => {
                        assert(!has_ip(rest, m.ip));
                        assert(rest[i].ip != m.ip);
                    },
                    OutcomeView::Failure(_) => {},
                }
            }
        }
    }
}

/// Law: a session that never produces a reply yields an empty output,
/// whatever the targets.
pub proof fn lemma_all_failures_empty(outs: Seq<OutcomeView>)
    requires
        forall|i: int| 0 <= i < outs.len() ==> (#[trigger] outs[i]) is Failure,
    ensures
        aggregate_spec(outs).len() == 0,
    decreases outs.len(),
{
    if outs.len() > 0 {
        lemma_all_failures_empty(outs.drop_last());
    }
}

/// Law: against a session that always times out — or fails every exchange
/// in any other way — a run yields an empty output, for any input.
pub proof fn lemma_timeouts_yield_empty(
    targets: Seq<RecordWithGeolocation>,
    replies: Seq<Result<u64, EchoError>>,
)
    requires
        replies.len() == targets.len(),
        forall|i: int| 0 <= i < replies.len() ==> (#[trigger] replies[i]) is Err,
    ensures
        aggregate_spec(session_outcomes(targets, replies)).len() == 0,
{
    let outs = session_outcomes(targets, replies);
    assert forall|i: int| 0 <= i < outs.len() implies (#[trigger] outs[i]) is Failure by {
        assert(outs[i] == probe_outcome_spec(targets[i], replies[i]));
        assert(replies[i] is Err);
    }
    lemma_all_failures_empty(outs);
}

/// Law: against a session that answers every probe with the same round-trip
/// time, a run keeps every target, in input order, each measurement copying
/// its target and carrying that time — provided every target address is
/// valid and no two targets share an address.
pub proof fn lemma_all_replies_complete(
    targets: Seq<RecordWithGeolocation>,
    replies: Seq<Result<u64, EchoError>>,
    nanos: u64,
)
    requires
        replies.len() == targets.len(),
        forall|i: int| 0 <= i < replies.len() ==> #[trigger] replies[i] == Ok::<u64, EchoError>(
            nanos,
        ),
        forall|i: int| 0 <= i < targets.len() ==> is_ip_text(#[trigger] targets[i].ip@),
        forall|i: int, j: int|
            0 <= i < j < targets.len() ==> (#[trigger] targets[i].ip@) != (#[trigger] targets[j].ip@),
    ensures
        aggregate_spec(session_outcomes(targets, replies)).len() == targets.len(),
        forall|i: int|
            0 <= i < targets.len() ==> (#[trigger] aggregate_spec(
                session_outcomes(targets, replies),
            )[i]).ip == targets[i].ip@ && aggregate_spec(session_outcomes(targets, replies))[i].location
                == targets[i].location@ && aggregate_spec(session_outcomes(targets, replies))[i].round_trip_nanos
                == nanos,
    decreases targets.len(),
{
    let outs = session_outcomes(targets, replies);
    let agg = aggregate_spec(outs);
    if targets.len() > 0 {
        let tp = targets.drop_last();
        let rp = replies.drop_last();
        lemma_all_replies_complete(tp, rp, nanos);
        let prev = session_outcomes(tp, rp);
        assert(prev =~= outs.drop_last());
        let rest = aggregate_spec(outs.drop_last());
        let last = targets[targets.len() - 1];
        assert(outs.last() == probe_outcome_spec(last, replies[targets.len() - 1]));
        assert(outs.last() == OutcomeView::Success(
            MeasurementView {
                ip: last.ip@,
                location: last.location@,
                round_trip_nanos: nanos,
            },
        ));
        assert(!has_ip(rest, last.ip@)) by {
            assert forall|k: int| 0 <= k < rest.len() implies rest[k].ip != last.ip@ by {
                assert(rest[k].ip == tp[k].ip@);
                assert(tp[k].ip@ == targets[k].ip@);
                assert(targets[k].ip@ != targets[targets.len() - 1].ip@);
            }
        }
    }
}

} // verus!
