//! TDMS timestamps: a LabVIEW-epoch second count and a 2^-64 subsecond
//! fraction.

use vstd::prelude::*;

use crate::bytes::{signed64, word8, Endianness};
use crate::tdms_error::{TdmsError, TdmsErrorKind};
use chrono::{DateTime, Local, LocalResult, TimeZone};

verus! {

/// A civil time of the machine's time zone, carried opaquely: chrono's
/// local date-time, which this library never inspects itself.
#[verifier::external_body]
pub struct LocalDateTime {
    inner: DateTime<Local>,
}

impl LocalDateTime {
    /// Relies on chrono's `DateTime::to_rfc3339`: the carried civil time,
    /// written as an RFC 3339 string.
    #[verifier::external_body]
    pub fn to_rfc3339(&self) -> String {
        self.inner.to_rfc3339()
    }
}

/// What the machine's time zone made of an instant: one civil time, none,
/// or two.
pub enum LocalTimeResult {
    Single(LocalDateTime),
    NoLocalTime,
    Ambiguous(LocalDateTime, LocalDateTime),
}

/// Relies on chrono's `TimeZone::timestamp_opt` on `Local`: it resolves a
/// UNIX instant to the machine's civil time. The outcome depends on the
/// machine's time-zone data, so nothing is promised beyond the three-way
/// shape.
#[verifier::external_body]
fn local_time_of_unix(secs: i64, nanos: u32) -> (r: LocalTimeResult) {
    match Local.timestamp_opt(secs, nanos) {
        LocalResult::Single(t) => LocalTimeResult::Single(LocalDateTime { inner: t }),
        LocalResult::None => LocalTimeResult::NoLocalTime,
        LocalResult::Ambiguous(a, b) => LocalTimeResult::Ambiguous(
            LocalDateTime { inner: a },
            LocalDateTime { inner: b },
        ),
    }
}

/// A raw TDMS timestamp: `epoch` counts seconds from the LabVIEW epoch
/// (1904-01-01 00:00:00 UTC) and `radix` is the subsecond part in units
/// of 2^-64 of a second.
#[derive(Clone, Copy, Debug, PartialEq, Eq, Structural)]
pub struct TimeStamp {
    pub epoch: i64,
    pub radix: u64,
}

/// The timestamp denoted by sixteen bytes: the signed second count first,
/// then the fraction, each under the segment's endianness.
pub open spec fn timestamp_value(s: Seq<u8>, e: Endianness) -> TimeStamp {
    TimeStamp {
        epoch: signed64(word8(s.subrange(0, 8), e)) as i64,
        radix: word8(s.subrange(8, 16), e) as u64,
    }
}

impl TimeStamp {
    /// The UNIX instant this timestamp denotes: the second count moved
    /// from the LabVIEW epoch (1904-01-01, 2 082 844 800 seconds before
    /// the UNIX epoch) and the 2^-64 fraction turned into nanoseconds.
    /// Only a second count below the representable floor fails.
    pub fn unix_time_parts(&self) -> (r: Result<(i64, u32), TdmsError>)
        ensures
            r matches Ok(p) ==> self.epoch - 2_082_844_800 >= i64::MIN && p.0 == self.epoch
                - 2_082_844_800 && p.1 == (self.radix * 1_000_000_000) / 0x1_0000_0000_0000_0000,
            r matches Err(err) ==> err.kind == TdmsErrorKind::MalformedTimestamp && self.epoch
                - 2_082_844_800 < i64::MIN,
    {
        let secs = match self.epoch.checked_sub(2_082_844_800) {
            Some(v) => v,
            None => {
                return Err(TdmsError { kind: TdmsErrorKind::MalformedTimestamp });
            },
        };
        proof {
            assert((self.radix as u128) * 1_000_000_000 < 0x1_0000_0000_0000_0000
                * 1_000_000_000) by (nonlinear_arith)
                requires
                    self.radix < 0x1_0000_0000_0000_0000,
            ;
        }
        let scaled: u128 = (self.radix as u128) * 1_000_000_000;
        let nanos128: u128 = scaled / 0x1_0000_0000_0000_0000;
        proof {
            vstd::arithmetic::div_mod::lemma_multiply_divide_lt(
                scaled as int,
                0x1_0000_0000_0000_0000,
                1_000_000_000,
            );
            assert(nanos128 < 1_000_000_000);
        }
        Ok((secs, nanos128 as u32))
    }

    /// Resolve this timestamp to the machine's civil time: the instant
    /// of [`Self::unix_time_parts`] is handed to the machine's time
    /// zone, which decides; it fails when the zone reports no civil time
    /// or two of them.
    pub fn to_local_time(&self) -> (r: Result<LocalDateTime, TdmsError>)
        ensures
            r matches Err(err) ==> (err.kind == TdmsErrorKind::MalformedTimestamp || err.kind
                == TdmsErrorKind::AmbiguousTimestamp),
            self.epoch - 2_082_844_800 < i64::MIN ==> (r matches Err(err) && err.kind
                == TdmsErrorKind::MalformedTimestamp),
    {
        let (secs, nanos) = match self.unix_time_parts() {
            Ok(p) => p,
            Err(err) => {
                return Err(err);
            },
        };
        match local_time_of_unix(secs, nanos) {
            LocalTimeResult::Single(t) => Ok(t),
            LocalTimeResult::NoLocalTime => Err(
                TdmsError { kind: TdmsErrorKind::MalformedTimestamp },
            ),
            LocalTimeResult::Ambiguous(_, _) => Err(
                TdmsError { kind: TdmsErrorKind::AmbiguousTimestamp },
            ),
        }
    }
}

} // verus!
