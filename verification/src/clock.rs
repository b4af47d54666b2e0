//! Time and identifiers from the outside world: the current instant and
//! RFC 3339 text through chrono, and fresh task identifiers through ulid.
//! Everything computed from these values is done by verified code.
use vstd::prelude::*;
use crate::model::opt_view;

verus! {

/// The Crockford base-32 alphabet in which ULIDs are written.
pub open spec fn is_crockford(c: char) -> bool {
    ('0' <= c <= '9') || ('A' <= c <= 'H') || c == 'J' || c == 'K' || c == 'M' || c == 'N'
        || ('P' <= c <= 'T') || ('V' <= c <= 'Z')
}

/// A fresh identifier from `ulid::Ulid::new()`, written by `Ulid::to_string`.
/// Claimed, as the crate's base-32 encoder shows: 26 characters, each from the
/// Crockford alphabet. The value itself rests on the clock and on chance; no
/// uniqueness is claimed.
#[verifier::external_body]
pub(crate) fn new_ulid() -> (r: String)
    ensures
        r@.len() == 26,
        forall|i: int| 0 <= i < 26 ==> is_crockford(#[trigger] r@[i]),
{
    ulid::Ulid::new().to_string()
}

/// The system clock against the Unix epoch, from
/// `std::time::SystemTime::now().duration_since(UNIX_EPOCH)`: `Ok` with the
/// whole seconds and the nanoseconds past them since the epoch, or `Err`
/// with those of the time before it. Claimed: the nanoseconds are below one
/// billion, as `Duration::subsec_nanos` documents. Nothing is claimed of the
/// value itself: it is the clock's. This reading never panics, whatever the
/// clock says (chrono's `Utc::now` does on a clock set before 1970).
#[verifier::external_body]
pub(crate) fn system_clock() -> (r: Result<(u64, u32), (u64, u32)>)
    ensures
        match r {
            Ok((_, n)) => n < NANOS_PER_SEC,
            Err((_, n)) => n < NANOS_PER_SEC,
        },
{
    match std::time::SystemTime::now().duration_since(std::time::UNIX_EPOCH) {
        Ok(d) => Ok((d.as_secs(), d.subsec_nanos())),
        Err(e) => Err((e.duration().as_secs(), e.duration().subsec_nanos())),
    }
}

/// Nanoseconds in a second.
pub const NANOS_PER_SEC: u32 = 1_000_000_000;

/// The instant a clock reading denotes: whole seconds since the epoch
/// (negative before it) and the nanoseconds past them. A reading beyond the
/// range of `i64` seconds is held at that range's end.
pub open spec fn instant_of_reading(reading: Result<(u64, u32), (u64, u32)>) -> (int, int) {
    match reading {
        Ok((s, n)) => (if s <= i64::MAX { s as int } else { i64::MAX as int }, n as int),
        Err((s, n)) => if n == 0 {
            (if s <= 0x8000_0000_0000_0000 { -(s as int) } else { i64::MIN as int }, 0)
        } else {
            (if s < 0x8000_0000_0000_0000 { -(s as int) - 1 } else { i64::MIN as int }, NANOS_PER_SEC - n)
        },
    }
}

/// The instant of a clock reading, as [`instant_of_reading`] says.
pub fn instant_from_reading(reading: Result<(u64, u32), (u64, u32)>) -> (r: (i64, u32))
    requires
        match reading {
            Ok((_, n)) => n < NANOS_PER_SEC,
            Err((_, n)) => n < NANOS_PER_SEC,
        },
    ensures
        (r.0 as int, r.1 as int) == instant_of_reading(reading),
        r.1 < NANOS_PER_SEC,
{
    match reading {
        Ok((s, n)) => {
            let secs: i64 = if s <= 0x7fff_ffff_ffff_ffff { s as i64 } else { i64::MAX };
            (secs, n)
        },
        Err((s, n)) => {
            if n == 0 {
                let secs: i64 = if s <= 0x8000_0000_0000_0000 { (0 - (s as i128)) as i64 } else { i64::MIN };
                (secs, 0)
            } else {
                let secs: i64 = if s < 0x8000_0000_0000_0000 { (0 - (s as i128) - 1) as i64 } else { i64::MIN };
                (secs, NANOS_PER_SEC - n)
            }
        },
    }
}

/// The current instant, read from the system clock.
pub fn now_instant() -> (r: (i64, u32))
    ensures
        r.1 < NANOS_PER_SEC,
{
    instant_from_reading(system_clock())
}

/// The RFC 3339 text chrono writes for the instant `secs` seconds and
/// `nanos` nanoseconds after the epoch, or none when chrono cannot hold it.
pub uninterp spec fn spec_rfc3339_of(secs: int, nanos: int) -> Option<Seq<char>>;

/// `chrono::DateTime::<Utc>::from_timestamp(secs, nanos)` written with
/// `to_rfc3339()`. Claimed: the result is the named function of the two
/// arguments alone, and a written instant is a full date and time of at
/// least 25 characters (chrono's `write_rfc3339` writes a year of four
/// digits or more, `-MM-DDTHH:MM:SS`, and the offset `+00:00`).
#[verifier::external_body]
pub(crate) fn rfc3339_of(secs: i64, nanos: u32) -> (r: Option<String>)
    ensures
        opt_view(r) == spec_rfc3339_of(secs as int, nanos as int),
        r matches Some(t) ==> t@.len() >= 25,
{
    match chrono::DateTime::<chrono::Utc>::from_timestamp(secs, nanos) {
        Some(d) => Some(d.to_rfc3339()),
        None => None,
    }
}

/// The instant, in milliseconds since the epoch, that RFC 3339 text denotes,
/// or none when chrono does not parse it.
pub uninterp spec fn spec_parse_rfc3339_millis(s: Seq<char>) -> Option<int>;

/// `chrono::DateTime::parse_from_rfc3339(s)` read back with
/// `timestamp_millis()`. Claimed: the result is the named function of the
/// text alone.
#[verifier::external_body]
pub(crate) fn parse_rfc3339_millis(s: &str) -> (r: Option<i64>)
    ensures
        match r {
            Some(v) => spec_parse_rfc3339_millis(s@) == Some(v as int),
            None => spec_parse_rfc3339_millis(s@) is None,
        },
{
    match chrono::DateTime::parse_from_rfc3339(s) {
        Ok(d) => Some(d.timestamp_millis()),
        Err(_) => None,
    }
}

/// The current instant, as whole seconds and nanoseconds and as RFC 3339
/// text; none when the clock reads an instant chrono cannot write.
pub fn current_time() -> (r: Option<(i64, u32, String)>)
    ensures
        match r {
            Some((secs, nanos, text)) => nanos < NANOS_PER_SEC && written_instant(secs, nanos, text@)
                && text@.len() >= 25,
            None => exists|secs: i64, nanos: u32| #[trigger] unwritable_instant(secs, nanos),
        },
{
    let (secs, nanos) = now_instant();
    match rfc3339_of(secs, nanos) {
        Some(text) => Some((secs, nanos, text)),
        None => {
            assert(unwritable_instant(secs, nanos));
            None
        },
    }
}

/// chrono writes the instant `secs` seconds and `nanos` nanoseconds after
/// the epoch as `text`.
pub open spec fn written_instant(secs: i64, nanos: u32, text: Seq<char>) -> bool {
    spec_rfc3339_of(secs as int, nanos as int) == Some(text)
}

/// The text is what chrono writes for some instant: a clock reading.
pub open spec fn clock_text(text: Seq<char>) -> bool {
    exists|secs: i64, nanos: u32| #[trigger] written_instant(secs, nanos, text)
}

/// An instant that chrono cannot write as RFC 3339 text.
pub open spec fn unwritable_instant(secs: i64, nanos: u32) -> bool {
    spec_rfc3339_of(secs as int, nanos as int) is None
}

/// Integer division rounding toward zero, as Rust's `/` and chrono's
/// whole-unit counts do.
pub open spec fn div_trunc(a: int, b: int) -> int
    recommends
        b > 0,
{
    if a >= 0 {
        a / b
    } else {
        -((-a) / b)
    }
}

/// Milliseconds in a day.
pub const MILLIS_PER_DAY: i64 = 86_400_000;

/// Milliseconds in a minute.
pub const MILLIS_PER_MINUTE: i64 = 60_000;

/// The whole number of `unit`-millisecond units from `then` to `now`,
/// rounded toward zero.
pub fn whole_units_between(now: i64, then: i64, unit: i64) -> (r: i64)
    requires
        unit >= 2,
    ensures
        r == div_trunc(now - then, unit as int),
{
    let d: i128 = now as i128 - then as i128;
    let u: i128 = unit as i128;
    let a: i128 = if d >= 0 { d } else { -d };
    assert(0 <= a <= 0xffff_ffff_ffff_ffff);
    proof {
        vstd::arithmetic::div_mod::lemma_div_is_ordered_by_denominator(a as int, 2, u as int);
        vstd::arithmetic::div_mod::lemma_div_is_ordered(a as int, 0xffff_ffff_ffff_ffff, 2);
        vstd::arithmetic::div_mod::lemma_div_pos_is_pos(a as int, u as int);
    }
    let m: i128 = a / u;
    let q: i128 = if d >= 0 { m } else { -m };
    q as i64
}

} // verus!
