//! Echo probes and their outcomes.
//!
//! One probe directs one echo request at one target and produces exactly one
//! outcome: a measurement on a matching reply, or a failure reason. The
//! socket exchange itself happens outside the library; what the session
//! reports for a target — a round-trip time or an echo error — is handed in
//! as a plain value, and the decision logic here is verified for every such
//! value.

use vstd::prelude::*;

use crate::classify::classify;
use crate::classify::is_ip_text;
use crate::classify::ParseError;
use crate::records::Measurement;
use crate::records::MeasurementView;
use crate::records::RecordWithGeolocation;

verus! {

/// The identifier/sequence pair carried by one echo request. The identifier
/// is randomized per probe so that concurrently in-flight probes sharing one
/// socket do not answer each other's requests; the sequence number is fixed
/// at zero, as each target gets exactly one probe.
#[derive(Debug, Clone, Copy, PartialEq, Eq, Structural)]
pub struct EchoIdentifier {
    pub id: u16,
    pub sequence: u16,
}

/// Relies on `rand::random`: an unpredictable value; nothing is assumed
/// about which value comes back.
#[verifier::external_body]
fn random_u16() -> u16 {
    rand::random()
}

impl EchoIdentifier {
    /// A fresh identifier for one probe: a randomized id and sequence zero.
    pub fn fresh() -> (r: EchoIdentifier)
        ensures
            r.sequence == 0,
    {
        EchoIdentifier { id: random_u16(), sequence: 0 }
    }
}

/// Why one echo exchange produced no measurement. A timeout is the common
/// outcome for unreachable or firewalled hosts, not a defect; a protocol
/// error is an ICMP error reply; an I/O error is a socket-level failure.
#[derive(Debug, Clone, Copy, PartialEq, Eq, Structural)]
pub enum EchoError {
    Timeout,
    ProtocolError,
    IoError,
}

/// Why one probe produced no measurement: the address text was rejected, or
/// the echo exchange failed.
#[derive(Debug, Clone, Copy, PartialEq, Eq, Structural)]
pub enum FailureReason {
    Parse(ParseError),
    Echo(EchoError),
}

/// What one probe produced: a measurement or a failure reason, never both.
#[derive(Debug, Clone)]
pub enum ProbeOutcome {
    Success(Measurement),
    Failure(FailureReason),
}

/// Mathematical image of a `ProbeOutcome`.
pub ghost enum OutcomeView {
    Success(MeasurementView),
    Failure(FailureReason),
}

impl View for ProbeOutcome {
    type V = OutcomeView;

    open spec fn view(&self) -> OutcomeView {
        match self {
            ProbeOutcome::Success(m) => OutcomeView::Success(m@),
            ProbeOutcome::Failure(r) => OutcomeView::Failure(*r),
        }
    }
}

/// The outcome of probing `target` when the echo session would answer with
/// `reply`: a parse failure for an invalid address (the session is never
/// used), a measurement copying the target's address and location verbatim
/// for a reply, and the echo error otherwise.
pub open spec fn probe_outcome_spec(
    target: RecordWithGeolocation,
    reply: Result<u64, EchoError>,
) -> OutcomeView {
    if !is_ip_text(target.ip@) {
        OutcomeView::Failure(FailureReason::Parse(ParseError))
    } else {
        match reply {
            Ok(nanos) => OutcomeView::Success(
                MeasurementView {
                    ip: target.ip@,
                    location: target.location@,
                    round_trip_nanos: nanos,
                },
            ),
            Err(e) => OutcomeView::Failure(FailureReason::Echo(e)),
        }
    }
}

/// Turn one target and what the session reported for it into the probe's
/// outcome. `reply` is the session's answer — the measured round-trip time
/// in nanoseconds, or the echo error; it is ignored when the address text is
/// rejected, since such a target never reaches the session.
pub fn probe_outcome(target: &RecordWithGeolocation, reply: &Result<u64, EchoError>) -> (out:
    ProbeOutcome)
    ensures
        out@ == probe_outcome_spec(*target, *reply),
{
    match classify(target.ip.as_str()) {
        Err(e) => ProbeOutcome::Failure(FailureReason::Parse(e)),
        Ok(_) => match reply {
            Ok(nanos) => ProbeOutcome::Success(
                Measurement {
                    ip: target.ip.clone(),
                    location: target.location.clone(),
                    round_trip_nanos: *nanos,
                },
            ),
            Err(e) => ProbeOutcome::Failure(FailureReason::Echo(*e)),
        },
    }
}

} // verus!
