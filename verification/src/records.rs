//! The records that flow through the latency pipeline.
//!
//! A site starts as a name and a URL, gains a textual IP address when its
//! host name is resolved, gains a location label from geolocation, and ends
//! as a measurement carrying the round-trip time of one echo probe. All
//! fields are plain values; the I/O that fills them lives outside the
//! library.

use vstd::prelude::*;

verus! {

/// A site to probe, as read from the input listing.
#[derive(Debug, Clone)]
pub struct Record {
    pub name: String,
    pub url: String,
}

/// A site whose host name was resolved to a textual IP address.
#[derive(Debug, Clone)]
pub struct RecordWithIp {
    pub name: String,
    pub url: String,
    pub ip: String,
}

/// A probe target: a textual IP address annotated with a location label.
#[derive(Debug, Clone)]
pub struct RecordWithGeolocation {
    pub ip: String,
    pub location: String,
}

/// A successful round-trip measurement for one target. Created only from an
/// echo reply; the address and location label are copied verbatim from the
/// target that was probed.
#[derive(Debug, Clone)]
pub struct Measurement {
    pub ip: String,
    pub location: String,
    /// Measured round-trip time, in nanoseconds.
    pub round_trip_nanos: u64,
}

/// Mathematical image of a `Measurement`: the same record over sequences of
/// characters, so that contracts can compare measurements by content.
pub ghost struct MeasurementView {
    pub ip: Seq<char>,
    pub location: Seq<char>,
    pub round_trip_nanos: u64,
}

impl View for Measurement {
    type V = MeasurementView;

    open spec fn view(&self) -> MeasurementView {
        MeasurementView {
            ip: self.ip@,
            location: self.location@,
            round_trip_nanos: self.round_trip_nanos,
        }
    }
}

/// Attach a resolved address to a record, copying its name and URL verbatim.
pub fn record_with_ip(record: &Record, ip: String) -> (r: RecordWithIp)
    ensures
        r.name@ == record.name@,
        r.url@ == record.url@,
        r.ip@ == ip@,
{
    RecordWithIp { name: record.name.clone(), url: record.url.clone(), ip }
}

} // verus!
