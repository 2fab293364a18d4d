//! Points in time as whole seconds since the Unix epoch and nanoseconds.
use vstd::prelude::*;

verus! {

/// The first second that a timestamp can name: the start of the year -262143.
pub const MIN_SECS: i64 = -8_334_601_228_800;

/// The last second that a timestamp can name: the end of the year 262142.
pub const MAX_SECS: i64 = 8_210_266_876_799;

/// A point in time in UTC.
///
/// A leap second is the second before it with `nanos` of a thousand million or more, so it
/// stands only at the end of a minute.
#[derive(Debug, Clone, Copy, PartialEq, Eq, PartialOrd, Ord, Hash, Structural)]
pub struct Timestamp {
    secs: i64,
    nanos: u32,
}

/// The pair of seconds and nanoseconds names a point in time.
pub open spec fn representable(secs: int, nanos: int) -> bool {
    &&& MIN_SECS <= secs <= MAX_SECS
    &&& 0 <= nanos < 2_000_000_000
    &&& nanos >= 1_000_000_000 ==> secs % 60 == 59
}

/// Nanoseconds from the second of the two points to the first. A leap second that lies between
/// their times of day is counted.
pub open spec fn nanos_between(later: Timestamp, earlier: Timestamp) -> int {
    let leap: int = if later.secs() % 86_400 > earlier.secs() % 86_400 && earlier.nanos()
        >= 1_000_000_000 {
        1
    } else if later.secs() % 86_400 < earlier.secs() % 86_400 && later.nanos() >= 1_000_000_000 {
        -1
    } else {
        0
    };
    (later.secs() - earlier.secs() + leap) * 1_000_000_000 + later.nanos() - earlier.nanos()
}

/// Whole milliseconds from `earlier` to `later`, rounded towards zero.
pub open spec fn millis_between(later: Timestamp, earlier: Timestamp) -> int {
    let nanos = nanos_between(later, earlier);
    if nanos >= 0 {
        nanos / 1_000_000
    } else {
        -((-nanos) / 1_000_000)
    }
}

/// The seconds and nanoseconds of the point `millis` milliseconds after `(secs, nanos)`. Inside
/// a leap second only its nanoseconds grow; a step that leaves it counts it once.
pub open spec fn parts_after(secs: int, nanos: int, millis: int) -> (int, int) {
    if nanos >= 1_000_000_000 && nanos + millis * 1_000_000 < 2_000_000_000 {
        (secs, nanos + millis * 1_000_000)
    } else {
        let base = if nanos >= 1_000_000_000 {
            nanos - 1_000_000_000
        } else {
            nanos
        };
        let total = base + millis * 1_000_000;
        (secs + total / 1_000_000_000, total % 1_000_000_000)
    }
}

/// What `chrono` reads from a text as a `DateTime<Utc>`: its seconds since the epoch and its
/// nanoseconds, or nothing where the text is no timestamp.
pub uninterp spec fn chrono_reading(text: Seq<char>) -> Option<(i64, u32)>;

/// The text that `chrono` writes for a `DateTime<Utc>` in the form of RFC 3339.
pub uninterp spec fn chrono_rfc3339(secs: i64, nanos: u32) -> Seq<char>;

/// The timestamp with the given parts.
pub closed spec fn timestamp_at(secs: i64, nanos: u32) -> Timestamp {
    Timestamp { secs, nanos }
}

/// The timestamp that a text names.
pub open spec fn timestamp_named(text: Seq<char>) -> Option<Timestamp> {
    match chrono_reading(text) {
        Some((secs, nanos)) => Some(timestamp_at(secs, nanos)),
        None => None,
    }
}

/// The parts of a timestamp are those that it was made of.
pub proof fn lemma_timestamp_has_its_parts(secs: i64, nanos: u32)
    ensures
        timestamp_at(secs, nanos).secs() == secs,
        timestamp_at(secs, nanos).nanos() == nanos,
{
}

/// Reads a timestamp. Calls the `FromStr` impl of `chrono::DateTime<Utc>` and hands out
/// `timestamp()` and `timestamp_subsec_nanos()` of the result. Which texts are accepted is left
/// to the name; that the pair is within the range of the type, with a leap second only at the
/// end of a minute, is stated.
#[verifier::external_body]
fn read_timestamp(text: &str) -> (r: Option<(i64, u32)>)
    ensures
        r == chrono_reading(text@),
        r matches Some(pair) ==> representable(pair.0 as int, pair.1 as int),
{
    match text.parse::<chrono::DateTime<chrono::Utc>>() {
        Ok(time) => Some((time.timestamp(), time.timestamp_subsec_nanos())),
        Err(_) => None,
    }
}

/// Writes a timestamp. Calls `chrono::DateTime::<Utc>::to_rfc3339` on the point that
/// `from_timestamp` makes of the two numbers.
#[verifier::external_body]
fn write_rfc3339(secs: i64, nanos: u32) -> (r: String)
    requires
        representable(secs as int, nanos as int),
    ensures
        r@ == chrono_rfc3339(secs, nanos),
{
    chrono::DateTime::<chrono::Utc>::from_timestamp(secs, nanos).unwrap().to_rfc3339()
}

/// Subtracts two points in time. Calls `chrono`'s subtraction of one `DateTime<Utc>` from
/// another and `TimeDelta::num_milliseconds`, which counts whole milliseconds towards zero.
#[verifier::external_body]
fn subtract(later: Timestamp, earlier: Timestamp) -> (r: i64)
    requires
        representable(later.secs() as int, later.nanos() as int),
        representable(earlier.secs() as int, earlier.nanos() as int),
    ensures
        r == millis_between(later, earlier),
{
    let left = chrono::DateTime::<chrono::Utc>::from_timestamp(later.secs, later.nanos).unwrap();
    let right = chrono::DateTime::<chrono::Utc>::from_timestamp(earlier.secs, earlier.nanos).unwrap();
    (left - right).num_milliseconds()
}

/// Adds milliseconds to a point in time. Calls `chrono`'s addition of
/// `TimeDelta::milliseconds` to a `DateTime<Utc>`, which panics beyond the last second; that
/// is left out. The result is handed out as seconds and nanoseconds.
#[verifier::external_body]
fn advance(secs: i64, nanos: u32, millis: i64) -> (r: (i64, u32))
    requires
        representable(secs as int, nanos as int),
        0 <= millis,
        parts_after(secs as int, nanos as int, millis as int).0 <= MAX_SECS,
    ensures
        (r.0 as int, r.1 as int) == parts_after(secs as int, nanos as int, millis as int),
{
    let start = chrono::DateTime::<chrono::Utc>::from_timestamp(secs, nanos).unwrap();
    let end = start + chrono::TimeDelta::milliseconds(millis);
    (end.timestamp(), end.timestamp_subsec_nanos())
}

impl Timestamp {
    /// The whole seconds since the Unix epoch.
    pub closed spec fn secs(self) -> i64 {
        self.secs
    }

    /// The nanoseconds after the whole second.
    pub closed spec fn nanos(self) -> u32 {
        self.nanos
    }

    #[verifier::type_invariant]
    closed spec fn in_range(self) -> bool {
        representable(self.secs as int, self.nanos as int)
    }

    /// `self` lies before `other`.
    pub open spec fn is_before(self, other: Timestamp) -> bool {
        self.secs() < other.secs() || (self.secs() == other.secs() && self.nanos() < other.nanos())
    }

    /// The timestamp with the given seconds and nanoseconds.
    pub fn from_parts(secs: i64, nanos: u32) -> (r: Option<Timestamp>)
        ensures
            r == if representable(secs as int, nanos as int) {
                Some(timestamp_at(secs, nanos))
            } else {
                None
            },
    {
        if secs < MIN_SECS || secs > MAX_SECS || nanos >= 2_000_000_000 {
            return None;
        }
        if nanos >= 1_000_000_000 {
            // Seconds before the epoch are moved up by a multiple of a minute first.
            let shifted: i64 = if secs < 0 {
                secs + 8_334_601_228_800
            } else {
                secs
            };
            if shifted % 60 != 59 {
                return None;
            }
        }
        Some(Timestamp { secs, nanos })
    }

    /// The whole seconds since the Unix epoch.
    pub fn seconds(&self) -> (r: i64)
        ensures
            r == self.secs(),
    {
        self.secs
    }

    /// The nanoseconds after the whole second.
    pub fn subsec_nanos(&self) -> (r: u32)
        ensures
            r == self.nanos(),
    {
        self.nanos
    }

    /// Reads a timestamp in (a relaxed form of) RFC 3339.
    pub fn parse(text: &str) -> (r: Option<Timestamp>)
        ensures
            r == timestamp_named(text@),
    {
        match read_timestamp(text) {
            Some((secs, nanos)) => Some(Timestamp { secs, nanos }),
            None => None,
        }
    }

    /// The timestamp in the form of RFC 3339.
    pub fn to_rfc3339(&self) -> (r: String)
        ensures
            r@ == chrono_rfc3339(self.secs(), self.nanos()),
    {
        proof {
            use_type_invariant(self);
        }
        write_rfc3339(self.secs, self.nanos)
    }

    /// Whether `self` lies before `other`.
    pub fn before(&self, other: &Timestamp) -> (r: bool)
        ensures
            r == self.is_before(*other),
    {
        self.secs < other.secs || (self.secs == other.secs && self.nanos < other.nanos)
    }

    /// Whole milliseconds from `earlier` to `self`, rounded towards zero.
    pub fn millis_since(&self, earlier: &Timestamp) -> (r: i64)
        ensures
            r == millis_between(*self, *earlier),
            -20_000_000_000_000_000 <= r <= 20_000_000_000_000_000,
            representable(self.secs() as int, self.nanos() as int),
            representable(earlier.secs() as int, earlier.nanos() as int),
    {
        proof {
            use_type_invariant(self);
            use_type_invariant(earlier);
        }
        subtract(*self, *earlier)
    }

    /// The point `millis` milliseconds after `self`.
    pub fn plus_millis(&self, millis: i64) -> (r: Timestamp)
        requires
            0 <= millis,
            parts_after(self.secs() as int, self.nanos() as int, millis as int).0 <= MAX_SECS,
        ensures
            (r.secs() as int, r.nanos() as int) == parts_after(
                self.secs() as int,
                self.nanos() as int,
                millis as int,
            ),
    {
        proof {
            use_type_invariant(self);
        }
        let (secs, nanos) = advance(self.secs, self.nanos, millis);
        Timestamp { secs, nanos }
    }
}

/// A timestamp is its seconds and its nanoseconds.
pub proof fn lemma_timestamp_is_its_parts(a: Timestamp, b: Timestamp)
    requires
        a.secs() == b.secs(),
        a.nanos() == b.nanos(),
    ensures
        a == b,
{
}

} // verus!
