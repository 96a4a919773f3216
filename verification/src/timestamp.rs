//! Points in time, in UTC, as whole seconds since 1970-01-01 00:00:00 and
//! nanoseconds within the second.
//!
//! Reading a date-time from text and writing one as text are the work of the
//! `chrono` crate. Both are taken on trust and known here only by name; the
//! order of two points in time and everything built on these is verified.

use vstd::prelude::*;

verus! {

/// What `chrono::NaiveDateTime::parse_from_str` reads from `text` under
/// `pattern`, taken as a time in UTC: the seconds since the epoch and the
/// nanoseconds within the second; `None` where `text` does not match.
pub uninterp spec fn chrono_parse(text: Seq<char>, pattern: Seq<char>) -> Option<(i64, u32)>;

/// What `chrono` writes under `pattern` for the UTC date-time that
/// `chrono::DateTime::from_timestamp` makes of `secs` and `nanos`; `None`
/// where there is no such date-time or `pattern` cannot be written.
pub uninterp spec fn chrono_format(secs: i64, nanos: u32, pattern: Seq<char>) -> Option<Seq<char>>;

/// Trusted: `chrono::NaiveDateTime::parse_from_str`, with the result read as
/// UTC by `DateTime::from_naive_utc_and_offset` and handed back through
/// `DateTime::timestamp` and `DateTime::timestamp_subsec_nanos`. The outcome
/// depends on the two texts alone.
#[verifier::external_body]
pub(crate) fn parse_with_pattern(text: &str, pattern: &str) -> (parsed: Option<(i64, u32)>)
    ensures
        parsed == chrono_parse(text@, pattern@),
{
    match chrono::NaiveDateTime::parse_from_str(text, pattern) {
        Ok(naive) => {
            let moment = chrono::DateTime::<chrono::Utc>::from_naive_utc_and_offset(naive, chrono::Utc);
            Some((moment.timestamp(), moment.timestamp_subsec_nanos()))
        },
        Err(_) => None,
    }
}

/// Trusted: `chrono::DateTime::from_timestamp`, then `DateTime::format` with
/// `pattern`, written out by `DelayedFormat::write_to`. The outcome depends on
/// the three arguments alone; it is `None` where `from_timestamp` gives no
/// date-time or the writing fails.
#[verifier::external_body]
pub(crate) fn format_with_pattern(secs: i64, nanos: u32, pattern: &str) -> (written: Option<String>)
    ensures
        match written {
            Some(text) => chrono_format(secs, nanos, pattern@) == Some(text@),
            None => chrono_format(secs, nanos, pattern@) is None,
        },
{
    let moment = chrono::DateTime::from_timestamp(secs, nanos)?;
    let mut text = String::new();
    match moment.format(pattern).write_to(&mut text) {
        Ok(()) => Some(text),
        Err(_) => None,
    }
}

/// The pattern of an hour bucket: date and hour.
pub open spec fn hour_pattern() -> Seq<char> {
    "%Y-%m-%d %H"@
}

/// Whether an hour bucket can be written for the time at `secs` and `nanos`.
pub open spec fn has_hour_key(secs: i64, nanos: u32) -> bool {
    chrono_format(secs, nanos, hour_pattern()) is Some
}

/// A point in time, in UTC. Every `Timestamp` has an hour bucket.
#[derive(Clone, Copy, Debug, PartialEq, Eq, Structural)]
pub struct Timestamp {
    secs: i64,
    nanos: u32,
}

impl Timestamp {
    #[verifier::type_invariant]
    spec fn representable(self) -> bool {
        has_hour_key(self.secs, self.nanos)
    }

    /// Seconds since 1970-01-01 00:00:00 UTC, leap seconds not counted.
    pub closed spec fn spec_secs(&self) -> i64 {
        self.secs
    }

    /// Nanoseconds since the last whole second.
    pub closed spec fn spec_nanos(&self) -> u32 {
        self.nanos
    }

    /// Whether `self` can stand in an executable value: it has an hour bucket.
    pub open spec fn well_formed(&self) -> bool {
        has_hour_key(self.spec_secs(), self.spec_nanos())
    }

    /// The hour bucket of `self`: its date and hour, as `YYYY-MM-DD HH`.
    pub open spec fn spec_hour_key(&self) -> Seq<char> {
        chrono_format(self.spec_secs(), self.spec_nanos(), hour_pattern())->0
    }

    /// `self` is no later than `other`.
    pub open spec fn spec_at_or_before(&self, other: &Timestamp) -> bool {
        self.spec_secs() < other.spec_secs() || (self.spec_secs() == other.spec_secs()
            && self.spec_nanos() <= other.spec_nanos())
    }

    /// The time at `secs` and `nanos`, where an hour bucket can be written for
    /// it.
    pub closed spec fn spec_new(secs: i64, nanos: u32) -> Option<Timestamp> {
        if has_hour_key(secs, nanos) {
            Some(Timestamp { secs, nanos })
        } else {
            None
        }
    }

    /// The time at `secs` and `nanos`, if an hour bucket can be written for it.
    #[verifier::when_used_as_spec(spec_new)]
    pub fn new(secs: i64, nanos: u32) -> (made: Option<Timestamp>)
        ensures
            made == Timestamp::spec_new(secs, nanos),
            made is Some <==> has_hour_key(secs, nanos),
            made matches Some(t) ==> t.spec_secs() == secs && t.spec_nanos() == nanos,
    {
        match format_with_pattern(secs, nanos, "%Y-%m-%d %H") {
            Some(_) => Some(Timestamp { secs, nanos }),
            None => None,
        }
    }

    /// Seconds since 1970-01-01 00:00:00 UTC, leap seconds not counted.
    #[verifier::when_used_as_spec(spec_secs)]
    pub fn secs(&self) -> (s: i64)
        ensures
            s == self.spec_secs(),
    {
        self.secs
    }

    /// Nanoseconds since the last whole second.
    #[verifier::when_used_as_spec(spec_nanos)]
    pub fn nanos(&self) -> (n: u32)
        ensures
            n == self.spec_nanos(),
    {
        self.nanos
    }

    /// The hour bucket of `self`.
    pub fn hour_key(&self) -> (key: String)
        ensures
            self.well_formed(),
            key@ == self.spec_hour_key(),
    {
        proof {
            use_type_invariant(self);
        }
        match format_with_pattern(self.secs, self.nanos, "%Y-%m-%d %H") {
            Some(key) => key,
            None => String::new(),
        }
    }

    /// Whether `self` is no later than `other`.
    #[verifier::when_used_as_spec(spec_at_or_before)]
    pub fn at_or_before(&self, other: &Timestamp) -> (b: bool)
        ensures
            b == self.spec_at_or_before(other),
    {
        self.secs < other.secs || (self.secs == other.secs && self.nanos <= other.nanos)
    }
}

/// What is read from `text` under `pattern`: a time for which an hour bucket
/// can be written, or nothing.
pub open spec fn read_with(text: Seq<char>, pattern: Seq<char>) -> Option<Timestamp> {
    match chrono_parse(text, pattern) {
        Some((secs, nanos)) => Timestamp::spec_new(secs, nanos),
        None => None,
    }
}

/// The time that `text` states. Four patterns are tried in turn: date and
/// time with a space between them, the same with a fraction of a second, date
/// and time with a `T` between them, and the same with a `Z` behind. The first
/// that reads the whole of `text` decides.
pub open spec fn timestamp_of(text: Seq<char>) -> Option<Timestamp> {
    if read_with(text, "%Y-%m-%d %H:%M:%S"@) is Some {
        read_with(text, "%Y-%m-%d %H:%M:%S"@)
    } else if read_with(text, "%Y-%m-%d %H:%M:%S%.3f"@) is Some {
        read_with(text, "%Y-%m-%d %H:%M:%S%.3f"@)
    } else if read_with(text, "%Y-%m-%dT%H:%M:%S"@) is Some {
        read_with(text, "%Y-%m-%dT%H:%M:%S"@)
    } else {
        read_with(text, "%Y-%m-%dT%H:%M:%SZ"@)
    }
}

/// Reads `text` under `pattern`.
pub fn parse_with(text: &str, pattern: &str) -> (read: Option<Timestamp>)
    ensures
        read == read_with(text@, pattern@),
{
    match parse_with_pattern(text, pattern) {
        Some((secs, nanos)) => Timestamp::new(secs, nanos),
        None => None,
    }
}

/// The time that `text` states, if it states one in a known pattern.
pub fn parse_timestamp(text: &str) -> (read: Option<Timestamp>)
    ensures
        read == timestamp_of(text@),
{
    let first = parse_with(text, "%Y-%m-%d %H:%M:%S");
    if first.is_some() {
        return first;
    }
    let second = parse_with(text, "%Y-%m-%d %H:%M:%S%.3f");
    if second.is_some() {
        return second;
    }
    let third = parse_with(text, "%Y-%m-%dT%H:%M:%S");
    if third.is_some() {
        return third;
    }
    parse_with(text, "%Y-%m-%dT%H:%M:%SZ")
}

/// The order of points in time is total: it is reflexive, transitive and
/// antisymmetric, and any two points are comparable.
pub proof fn lemma_timestamp_order(a: Timestamp, b: Timestamp, c: Timestamp)
    ensures
        a.at_or_before(&a),
        a.at_or_before(&b) || b.at_or_before(&a),
        a.at_or_before(&b) && b.at_or_before(&c) ==> a.at_or_before(&c),
        a.at_or_before(&b) && b.at_or_before(&a) ==> a == b,
{
}

} // verus!
