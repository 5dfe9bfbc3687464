//! An instant, as the whole number of nanoseconds since the Unix epoch.

use vstd::prelude::*;

verus! {

/// How far from the epoch an instant can be, in nanoseconds: four hundred thousand
/// million seconds, which takes in every year of four digits on either side.
pub const LIMIT: i128 = 400_000_000_000_000_000_000;

/// An instant, with no calendar and no time zone.
#[derive(Debug, Clone, Copy, PartialEq, Eq, Structural)]
pub struct Timestamp {
    nanos: i128,
}

impl View for Timestamp {
    type V = int;

    closed spec fn view(&self) -> int {
        self.nanos as int
    }
}

impl Timestamp {
    #[verifier::type_invariant]
    spec fn in_range(self) -> bool {
        -LIMIT <= self.nanos <= LIMIT
    }

    /// The instant `nanos` nanoseconds after the epoch, if it is within the limit.
    pub fn from_nanos(nanos: i128) -> (r: Option<Timestamp>)
        ensures
            r is Some <==> -LIMIT <= nanos <= LIMIT,
            r matches Some(t) ==> t@ == nanos,
    {
        if -LIMIT <= nanos && nanos <= LIMIT {
            Some(Timestamp { nanos })
        } else {
            None
        }
    }

    /// The instant `seconds` after the epoch, if it is within the limit.
    pub fn from_unix_timestamp(seconds: i64) -> (r: Option<Timestamp>)
        ensures
            r is Some <==> -LIMIT <= seconds * 1_000_000_000 <= LIMIT,
            r matches Some(t) ==> t@ == seconds * 1_000_000_000,
    {
        Timestamp::from_nanos(seconds as i128 * 1_000_000_000)
    }

    /// The instant in nanoseconds since the epoch.
    pub fn nanos(self) -> (n: i128)
        ensures
            n == self@,
            -LIMIT <= n <= LIMIT,
    {
        proof {
            use_type_invariant(&self);
        }
        self.nanos
    }

    /// The instant an RFC 3339 date and time names.
    pub fn parse(text: &str) -> (r: Option<Timestamp>)
        ensures
            r is Some <==> rfc3339_nanos(text@) is Some,
            r matches Some(t) ==> rfc3339_nanos(text@) == Some(t@),
    {
        match parse_rfc3339(text) {
            Some(nanos) => Timestamp::from_nanos(nanos),
            None => None,
        }
    }

    /// The instant it is now.
    pub fn now() -> (t: Timestamp)
        ensures
            -LIMIT <= t@ <= LIMIT,
    {
        let nanos: i128 = clock();
        Timestamp { nanos }
    }
}

/// What `time`'s RFC 3339 format makes of a text: the instant in nanoseconds since
/// the epoch, or nothing where the text is no such date and time.
pub uninterp spec fn rfc3339_nanos(s: Seq<char>) -> Option<int>;

/// `time::OffsetDateTime::parse` with the well-known format `Rfc3339`, and
/// `unix_timestamp_nanos` of what it gives. The result is a function of the text
/// alone. The format takes four digits of year and offsets of less than a day, so
/// the instant is within the limit.
#[verifier::external_body]
fn parse_rfc3339(text: &str) -> (r: Option<i128>)
    ensures
        r is Some <==> rfc3339_nanos(text@) is Some,
        r matches Some(n) ==> rfc3339_nanos(text@) == Some(n as int) && -LIMIT <= n <= LIMIT,
{
    let format = &time::format_description::well_known::Rfc3339;
    match time::OffsetDateTime::parse(text, format) {
        Ok(instant) => Some(instant.unix_timestamp_nanos()),
        Err(_) => None,
    }
}

/// `time::OffsetDateTime::now_utc`, in nanoseconds since the epoch. It is what the
/// clock says; a date and time of that type has a year of at most four digits, so it
/// is within the limit.
#[verifier::external_body]
fn clock() -> (n: i128)
    ensures
        -LIMIT <= n <= LIMIT,
{
    time::OffsetDateTime::now_utc().unix_timestamp_nanos()
}

} // verus!
