//! Instants in UTC, as stored by the relay, and their rendering for display.

use vstd::prelude::*;

verus! {

/// Largest distance from the Unix epoch, in seconds, of an instant the relay
/// stores: about 250,000 years either way, well inside the calendar that
/// chrono renders.
pub const MAX_UNIX_SECONDS: i64 = 8_000_000_000_000;

/// Nanoseconds in one second.
pub const NANOS_PER_SECOND: u32 = 1_000_000_000;

/// Offset of the display time zone west of UTC, in seconds (UTC-5, no
/// daylight saving).
pub const DISPLAY_WEST_OFFSET: i32 = 18000;

/// How an instant is shown: `M/D/YYYY H:MMam` with no padding of month, day
/// or hour.
pub const DISPLAY_PATTERN: &'static str = "%-m/%-d/%Y %-I:%M%P";

/// A point in time in UTC: whole seconds since the Unix epoch and the
/// nanoseconds within that second.
#[derive(Clone, Copy, Debug, PartialEq, Eq, Structural)]
pub struct Timestamp {
    pub secs: i64,
    pub nanos: u32,
}

impl Timestamp {
    /// Within the range the relay stores, with the nanoseconds below one second.
    pub open spec fn wf(self) -> bool {
        -MAX_UNIX_SECONDS <= self.secs <= MAX_UNIX_SECONDS && self.nanos < NANOS_PER_SECOND
    }

    /// The instant as a number of nanoseconds since the Unix epoch.
    pub open spec fn instant(self) -> int {
        self.secs * 1_000_000_000 + self.nanos
    }

    /// The instant `secs` seconds and `nanos` nanoseconds after the epoch, if
    /// it lies within the stored range.
    pub fn from_unix(secs: i64, nanos: u32) -> (r: Option<Timestamp>)
        ensures
            r == (if -MAX_UNIX_SECONDS <= secs <= MAX_UNIX_SECONDS && nanos < NANOS_PER_SECOND {
                Some(Timestamp { secs, nanos })
            } else {
                None::<Timestamp>
            }),
            r matches Some(t) ==> t.wf(),
    {
        if -MAX_UNIX_SECONDS <= secs && secs <= MAX_UNIX_SECONDS && nanos < NANOS_PER_SECOND {
            Some(Timestamp { secs, nanos })
        } else {
            None
        }
    }

    /// Whether `self` is not later than `other`.
    pub fn not_after(&self, other: &Timestamp) -> (r: bool)
        requires
            self.wf(),
            other.wf(),
        ensures
            r == (self.instant() <= other.instant()),
    {
        proof {
            lemma_instant_order(*self, *other);
        }
        self.secs < other.secs || (self.secs == other.secs && self.nanos <= other.nanos)
    }

    /// The instant to give a message appended at the clock reading `now`
    /// after a message stamped `last`: `now`, or `last` where the clock
    /// reads no later, so that stamps never go backwards.
    pub fn stamp_after(last: Option<Timestamp>, now: Timestamp) -> (r: Timestamp)
        requires
            now.wf(),
            last matches Some(l) ==> l.wf(),
        ensures
            r == (match last {
                Some(l) => if now.instant() <= l.instant() {
                    l
                } else {
                    now
                },
                None => now,
            }),
            r.wf(),
    {
        match last {
            Some(l) => if now.not_after(&l) {
                l
            } else {
                now
            },
            None => now,
        }
    }

    /// The instant as shown to users: in UTC-5, as `M/D/YYYY H:MMam`.
    pub fn display(&self) -> (r: String)
        requires
            self.wf(),
        ensures
            r@ == display_of(*self),
    {
        render_at_offset(self.secs, DISPLAY_WEST_OFFSET, DISPLAY_PATTERN)
    }
}

/// Instants compare as their (seconds, nanoseconds) pairs compare.
proof fn lemma_instant_order(a: Timestamp, b: Timestamp)
    requires
        a.nanos < NANOS_PER_SECOND,
        b.nanos < NANOS_PER_SECOND,
    ensures
        (a.instant() <= b.instant()) == (a.secs < b.secs || (a.secs == b.secs && a.nanos
            <= b.nanos)),
{
    if a.secs < b.secs {
        assert(a.secs * 1_000_000_000 + 1_000_000_000 <= b.secs * 1_000_000_000) by (nonlinear_arith)
            requires a.secs < b.secs;
    } else if a.secs > b.secs {
        assert(b.secs * 1_000_000_000 + 1_000_000_000 <= a.secs * 1_000_000_000) by (nonlinear_arith)
            requires b.secs < a.secs;
    }
}

/// The text shown for a stored instant.
pub open spec fn display_of(t: Timestamp) -> Seq<char> {
    rendered_at_offset(t.secs as int, DISPLAY_WEST_OFFSET as int, DISPLAY_PATTERN@)
}

/// What chrono renders for the instant `secs` seconds after the epoch, seen
/// `west_offset` seconds west of UTC, with the format `pattern`.
pub uninterp spec fn rendered_at_offset(secs: int, west_offset: int, pattern: Seq<char>) -> Seq<char>;

/// Relies on chrono's `DateTime::from_timestamp` (some value for every second
/// within `MAX_UNIX_SECONDS` of the epoch), `FixedOffset::west_opt` (some
/// value for an offset of less than a day), `DateTime::with_timezone` and
/// `DateTime::format`: the text depends on the instant, the offset and the
/// pattern alone, and the pattern is one that chrono accepts.
#[verifier::external_body]
fn render_at_offset(secs: i64, west_offset: i32, pattern: &str) -> (r: String)
    requires
        -MAX_UNIX_SECONDS <= secs <= MAX_UNIX_SECONDS,
        -86_400 < west_offset < 86_400,
        pattern@ == DISPLAY_PATTERN@,
    ensures
        r@ == rendered_at_offset(secs as int, west_offset as int, pattern@),
{
    let utc = chrono::DateTime::from_timestamp(secs, 0).unwrap();
    let offset = chrono::FixedOffset::west_opt(west_offset).unwrap();
    utc.with_timezone(&offset).format(pattern).to_string()
}

} // verus!
