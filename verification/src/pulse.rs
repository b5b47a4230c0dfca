//! The telemetry poller's record handling: each tick, the external
//! pulse file (when present) holds one comma-separated record of four
//! fields — balance, equity, drawdown, timestamp. A sample is emitted
//! only when its timestamp is strictly newer than the last emitted
//! one, so an external writer overwriting the file with an unchanged
//! or stale record is suppressed. A short or unparsable record
//! degrades to timestamp zero ("not newer") instead of an error.

use vstd::prelude::*;

verus! {

use crate::text::{parse_i64_spec, parse_i64, split_fields, split_on, trim, trim_spec, views_of};

/// One emitted account snapshot. The three amounts stay in their raw
/// textual form; only the timestamp is interpreted.
#[derive(Debug)]
pub struct PulseSample {
    pub balance: String,
    pub equity: String,
    pub drawdown: String,
    pub timestamp: i64,
}

/// The comma-separated fields of the record, after trimming the whole
/// line.
pub open spec fn record_fields(content: Seq<char>) -> Seq<Seq<char>> {
    split_fields(trim_spec(content), ',')
}

/// The timestamp a record carries: its fourth field read as a signed
/// number, or zero when the record is short or unparsable.
pub open spec fn record_timestamp(content: Seq<char>) -> i64 {
    let fields = record_fields(content);
    if fields.len() >= 4 {
        match parse_i64_spec(fields[3]) {
            Some(t) => t,
            None => 0,
        }
    } else {
        0
    }
}

/// Whether a record read now is emitted, given the last emitted
/// timestamp: it must have all four fields and be strictly newer.
pub open spec fn record_emits(content: Seq<char>, last: i64) -> bool {
    record_fields(content).len() >= 4 && record_timestamp(content) > last
}

/// De-duplicates the polled records by timestamp monotonicity.
pub struct PulseMonitor {
    last_timestamp: i64,
}

impl PulseMonitor {
    /// The timestamp of the last emitted sample; nothing emitted yet
    /// reads as zero.
    pub closed spec fn last(self) -> i64 {
        self.last_timestamp
    }

    pub fn new() -> (r: PulseMonitor)
        ensures
            r.last() == 0,
    {
        PulseMonitor { last_timestamp: 0 }
    }

    /// One poll of a present pulse file: parses the record and emits
    /// a sample exactly when it is strictly newer than the last one.
    /// An absent file is simply not observed — the caller skips the
    /// tick entirely.
    pub fn observe(&mut self, content: &str) -> (r: Option<PulseSample>)
        ensures
            record_emits(content@, old(self).last()) ==> (r matches Some(p) && {
                &&& p.balance@ == record_fields(content@)[0]
                &&& p.equity@ == record_fields(content@)[1]
                &&& p.drawdown@ == record_fields(content@)[2]
                &&& p.timestamp == record_timestamp(content@)
                &&& final(self).last() == record_timestamp(content@)
            }),
            !record_emits(content@, old(self).last()) ==> r is None && final(self).last() == old(
                self,
            ).last(),
    {
        let trimmed = trim(content);
        let fields = split_on(trimmed.as_str(), ',');
        proof {
            assert(views_of(fields@) == record_fields(content@));
        }
        if fields.len() >= 4 {
            proof {
                assert(views_of(fields@)[3] == fields@[3]@);
            }
            let timestamp = match parse_i64(fields[3].as_str()) {
                Some(t) => t,
                None => 0,
            };
            assert(timestamp == record_timestamp(content@));
            if timestamp > self.last_timestamp {
                proof {
                    assert(views_of(fields@)[0] == fields@[0]@);
                    assert(views_of(fields@)[1] == fields@[1]@);
                    assert(views_of(fields@)[2] == fields@[2]@);
                }
                let balance = fields[0].clone();
                let equity = fields[1].clone();
                let drawdown = fields[2].clone();
                self.last_timestamp = timestamp;
                Some(PulseSample { balance, equity, drawdown, timestamp })
            } else {
                None
            }
        } else {
            None
        }
    }
}

/// Law: emitted timestamps are strictly monotonic, so the very record
/// that was just emitted — or any staler one — is suppressed when the
/// file is read again unchanged.
pub proof fn lemma_pulse_dedup(content: Seq<char>, last: i64)
    requires
        record_emits(content, last),
    ensures
        !record_emits(content, record_timestamp(content)),
{
}

} // verus!
