//! What the library has from the clock, from chance, and from the date formatter.
use vstd::prelude::*;

verus! {

/// A moment in local time: the seconds since the start of 1970 in UTC, the nanoseconds in the
/// second, and how many seconds local time is ahead of UTC.
#[derive(Debug, Clone, Copy, PartialEq, Eq, Structural)]
pub struct Moment {
    pub seconds: i64,
    pub nanos: u32,
    pub offset: i32,
}

/// The text that a date template gives at a moment, by `chrono`'s `DateTime::format`. There is none
/// if the template holds a conversion that `chrono` does not know, or if `chrono` has no such
/// moment.
pub uninterp spec fn stamp_of(seconds: i64, nanos: u32, offset: i32, template: Seq<char>) -> Option<
    Seq<char>,
>;

impl Moment {
    /// A moment that a clock can show: one from the first to the last that `chrono` has, in a time
    /// zone less than a day from UTC.
    pub open spec fn is_real(self) -> bool {
        &&& -8_334_601_228_800 <= self.seconds <= 8_210_266_876_799
        &&& self.nanos < 1_000_000_000
        &&& -86_400 < self.offset < 86_400
    }

    /// The text that a date template gives at this moment.
    pub open spec fn stamp(self, template: Seq<char>) -> Option<Seq<char>> {
        stamp_of(self.seconds, self.nanos, self.offset, template)
    }
}

/// The template can be filled at every moment that a clock can show.
pub open spec fn always_fills(template: Seq<char>) -> bool {
    forall|now: Moment| now.is_real() ==> #[trigger] now.stamp(template) is Some
}

/// `chrono::Local::now` reads the clock and the time zone of the machine: a moment between the first
/// and the last that `chrono` has, nanoseconds that make no second, and an offset of less than a day
/// either way. Which moment it is is left unsaid.
#[verifier::external_body]
pub(crate) fn local_now() -> (r: Moment)
    ensures
        r.is_real(),
{
    let now = chrono::Local::now();
    Moment {
        seconds: now.timestamp(),
        nanos: now.timestamp_subsec_nanos(),
        offset: now.offset().local_minus_utc(),
    }
}

/// `chrono::DateTime::format` fills a date template, from the moment, its offset and the template
/// alone. `DelayedFormat::write_to` fails on a conversion that it does not know.
#[verifier::external_body]
fn format_time(seconds: i64, nanos: u32, offset: i32, template: &str) -> (r: Option<String>)
    ensures
        match stamp_of(seconds, nanos, offset, template@) {
            Some(s) => r matches Some(t) && t@ == s,
            None => r is None,
        },
{
    let zone = chrono::FixedOffset::east_opt(offset)?;
    let time = chrono::TimeZone::timestamp_opt(&zone, seconds, nanos).single()?;
    let mut out = String::new();
    time.format(template).write_to(&mut out).ok()?;
    Some(out)
}

/// Fills a date template.
pub fn stamp(now: Moment, template: &str) -> (r: Option<String>)
    ensures
        match now.stamp(template@) {
            Some(s) => r matches Some(t) && t@ == s,
            None => r is None,
        },
{
    format_time(now.seconds, now.nanos, now.offset, template)
}

/// `rand::random` gives a byte by chance: any of the 256.
#[verifier::external_body]
pub(crate) fn random_byte() -> (r: u8) {
    rand::random::<u8>()
}

/// A template is filled at the moment it is asked for: its seconds, its nanoseconds and its offset.
pub proof fn stamps_are_of_the_moment(seconds: i64, nanos: u32, offset: i32, template: Seq<char>)
    ensures
        (Moment { seconds, nanos, offset }).stamp(template) == stamp_of(
            seconds,
            nanos,
            offset,
            template,
        ),
{
}

} // verus!
