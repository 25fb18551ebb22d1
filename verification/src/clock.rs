//! Instants as the cache stores them: microseconds since the Unix epoch, and
//! the RFC 3339 text that stands for them in a stored row.

use vstd::prelude::*;

verus! {

/// Microseconds in one day.
pub const MICROS_PER_DAY: i64 = 86_400_000_000;

/// The RFC 3339 text of the instant `micros` microseconds after the Unix
/// epoch, in UTC, as chrono writes it; `None` where chrono has no date for it.
pub uninterp spec fn rfc3339_text(micros: int) -> Option<Seq<char>>;

/// The instant that an RFC 3339 text names, in microseconds since the Unix
/// epoch, as chrono reads it; `None` where chrono rejects the text.
pub uninterp spec fn rfc3339_micros(text: Seq<char>) -> Option<int>;

/// chrono's `DateTime::from_timestamp_micros`, then `DateTime::to_rfc3339` on
/// its result. The first gives no date for an instant outside chrono's range;
/// the second writes the date it is given, with offset `+00:00`.
#[verifier::external_body]
fn format_rfc3339(micros: i64) -> (r: Option<String>)
    ensures
        match r {
            Some(t) => rfc3339_text(micros as int) == Some(t@),
            None => rfc3339_text(micros as int) is None,
        },
{
    chrono::DateTime::from_timestamp_micros(micros).map(|at| at.to_rfc3339())
}

/// chrono's `DateTime::parse_from_rfc3339`, then `DateTime::timestamp_micros`
/// on its result: the instant that the text names, whatever its offset.
#[verifier::external_body]
pub(crate) fn parse_rfc3339(text: &str) -> (r: Option<i64>)
    ensures
        match r {
            Some(m) => rfc3339_micros(text@) == Some(m as int),
            None => rfc3339_micros(text@) is None,
        },
{
    chrono::DateTime::parse_from_rfc3339(text).ok().map(|at| at.timestamp_micros())
}

/// An instant together with its RFC 3339 text.
#[derive(Debug)]
pub struct Timestamp {
    micros: i64,
    text: String,
}

impl Timestamp {
    #[verifier::type_invariant]
    spec fn written_as_read(self) -> bool {
        rfc3339_text(self.micros as int) == Some(self.text@)
    }

    /// Microseconds since the Unix epoch.
    pub closed spec fn instant(&self) -> int {
        self.micros as int
    }

    /// The RFC 3339 text of the instant.
    pub closed spec fn written(&self) -> Seq<char> {
        self.text@
    }

    /// The instant `micros` microseconds after the Unix epoch, if it has a date.
    pub fn from_micros(micros: i64) -> (r: Option<Timestamp>)
        ensures
            match r {
                Some(t) => t.instant() == micros && rfc3339_text(micros as int) == Some(
                    t.written(),
                ),
                None => rfc3339_text(micros as int) is None,
            },
    {
        match format_rfc3339(micros) {
            Some(text) => Some(Timestamp { micros, text }),
            None => None,
        }
    }

    /// Microseconds since the Unix epoch.
    pub fn micros(&self) -> (m: i64)
        ensures
            m == self.instant(),
    {
        self.micros
    }

    /// The RFC 3339 text of the instant.
    pub fn to_rfc3339(&self) -> (text: String)
        ensures
            text@ == self.written(),
            rfc3339_text(self.instant()) == Some(text@),
    {
        proof {
            use_type_invariant(self);
        }
        self.text.clone()
    }

    /// The instant `days` days before this one, if it is within range and has
    /// a date.
    pub fn minus_days(&self, days: i64) -> (r: Option<Timestamp>)
        ensures
            match r {
                Some(t) => {
                    &&& t.instant() == self.instant() - days * MICROS_PER_DAY
                    &&& i64::MIN <= t.instant() <= i64::MAX
                    &&& rfc3339_text(t.instant()) == Some(t.written())
                },
                None => {
                    let at = self.instant() - days * MICROS_PER_DAY;
                    at < i64::MIN || at > i64::MAX || rfc3339_text(at) is None
                },
            },
    {
        let at: i128 = (self.micros as i128) - (days as i128) * (MICROS_PER_DAY as i128);
        if at < i64::MIN as i128 || at > i64::MAX as i128 {
            None
        } else {
            Timestamp::from_micros(at as i64)
        }
    }
}

} // verus!
