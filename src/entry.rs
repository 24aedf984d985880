use time::format_description::well_known::Rfc2822;
use time::{OffsetDateTime, UtcOffset};
use vstd::prelude::*;

use crate::scan::{find_open_entry, open_entry_of, NEWLINE, TAB};

verus! {

/// A point in time with the offset from UTC it is shown in.
#[derive(Clone, Copy, Debug, PartialEq, Eq, Structural)]
pub struct Instant {
    /// Whole seconds since 1970-01-01 00:00:00 UTC.
    pub unix_seconds: i64,
    /// Nanoseconds past `unix_seconds`.
    pub nanosecond: u32,
    /// The offset from UTC, in seconds east.
    pub offset_seconds: i32,
}

/// Why an operation on the log failed.
#[derive(Clone, Copy, Debug, PartialEq, Eq, Structural)]
pub enum LogError {
    /// The home directory could not be found.
    HomeDirectoryUnavailable,
    /// The `Documents` directory under home does not exist.
    DirectoryMissing,
    /// Opening, reading or writing the log failed.
    Io,
    /// The local offset from UTC could not be determined.
    Clock,
    /// The timestamp of the matched open entry is not valid RFC 2822 text.
    Parse,
    /// The timestamp could not be written as RFC 2822 text.
    Format,
    /// The desktop notifier could not be run.
    Notifier,
}

/// The RFC 2822 text of the instant `unix_seconds` shown at the offset
/// `offset_seconds`, or `None` where no such text exists.
pub uninterp spec fn rfc2822_text(unix_seconds: int, offset_seconds: int) -> Option<Seq<u8>>;

/// The instant that RFC 2822 text denotes, as unix seconds, nanosecond and
/// offset seconds, or `None` where the text is not valid RFC 2822.
pub uninterp spec fn rfc2822_fields(text: Seq<u8>) -> Option<(int, int, int)>;

pub open spec fn bytes_view(v: Option<Vec<u8>>) -> Option<Seq<u8>> {
    match v {
        Some(b) => Some(b@),
        None => None,
    }
}

pub open spec fn instant_view(t: Instant) -> (int, int, int) {
    (t.unix_seconds as int, t.nanosecond as int, t.offset_seconds as int)
}

pub open spec fn fields_view(t: Option<Instant>) -> Option<(int, int, int)> {
    match t {
        Some(i) => Some(instant_view(i)),
        None => None,
    }
}

/// Relies on `OffsetDateTime::format` with `Rfc2822`, after building the
/// value with `from_unix_timestamp`, `from_whole_seconds` and
/// `checked_to_offset`: the text depends on the two numbers alone.
#[verifier::external_body]
fn rfc2822_format(unix_seconds: i64, offset_seconds: i32) -> (r: Option<Vec<u8>>)
    ensures
        bytes_view(r) == rfc2822_text(unix_seconds as int, offset_seconds as int),
{
    let offset = UtcOffset::from_whole_seconds(offset_seconds).ok()?;
    let at = OffsetDateTime::from_unix_timestamp(unix_seconds).ok()?;
    let shown = at.checked_to_offset(offset)?;
    shown.format(&Rfc2822).ok().map(|s| s.into_bytes())
}

/// Relies on `OffsetDateTime::parse` with `Rfc2822`, after reading the bytes
/// as UTF-8: the instant depends on the text alone.
#[verifier::external_body]
fn rfc2822_parse(text: &[u8]) -> (r: Option<Instant>)
    ensures
        fields_view(r) == rfc2822_fields(text@),
{
    let s = std::str::from_utf8(text).ok()?;
    let at = OffsetDateTime::parse(s, &Rfc2822).ok()?;
    Some(Instant {
        unix_seconds: at.unix_timestamp(),
        nanosecond: at.nanosecond(),
        offset_seconds: at.offset().whole_seconds(),
    })
}

/// `a / d` rounded toward zero.
pub open spec fn trunc_div(a: int, d: int) -> int {
    if a >= 0 {
        a / d
    } else {
        -((-a) / d)
    }
}

/// An instant as nanoseconds since the unix epoch.
pub open spec fn total_nanos(t: (int, int, int)) -> int {
    t.0 * 1_000_000_000 + t.1
}

/// Whole seconds from `start` to `now`, rounded toward zero; negative when
/// `start` is later.
pub open spec fn elapsed(now: (int, int, int), start: (int, int, int)) -> int {
    trunc_div(total_nanos(now) - total_nanos(start), 1_000_000_000)
}

/// The decimal digits of `n`.
pub open spec fn decimal(n: nat) -> Seq<u8>
    decreases n,
{
    if n < 10 {
        seq![(48 + n) as u8]
    } else {
        decimal(n / 10).push((48 + n % 10) as u8)
    }
}

/// `v` in decimal, zero-padded to at least two characters, sign included.
pub open spec fn padded2(v: int) -> Seq<u8> {
    if v < 0 {
        seq![45u8] + decimal((-v) as nat)
    } else if v < 10 {
        seq![48u8] + decimal(v as nat)
    } else {
        decimal(v as nat)
    }
}

/// The duration field: whole hours, whole minutes and whole seconds of the
/// full duration, each on its own (minutes are not taken modulo 60, nor
/// seconds), separated by colons.
pub open spec fn duration_text(secs: int) -> Seq<u8> {
    padded2(trunc_div(secs, 3600)) + seq![58u8] + padded2(trunc_div(secs, 60)) + seq![58u8]
        + padded2(secs)
}

/// One line of the log: timestamp text, tab, duration field, line feed.
pub open spec fn entry_text(stamp: Seq<u8>, secs: int) -> Seq<u8> {
    stamp + seq![TAB] + duration_text(secs) + seq![NEWLINE]
}

/// Whole seconds from `start` to `now`, rounded toward zero.
pub fn elapsed_seconds(now: &Instant, start: &Instant) -> (r: i128)
    ensures
        r == elapsed(instant_view(*now), instant_view(*start)),
{
    let secs: i128 = now.unix_seconds as i128 - start.unix_seconds as i128;
    let nanos: i128 = now.nanosecond as i128 - start.nanosecond as i128;
    assert(-0x2_0000_0000_0000_0000 < secs < 0x2_0000_0000_0000_0000);
    assert(-0x2_0000_0000_0000_0000 * 1_000_000_000 <= secs * 1_000_000_000
        <= 0x2_0000_0000_0000_0000 * 1_000_000_000) by (nonlinear_arith)
        requires
            -0x2_0000_0000_0000_0000 < secs < 0x2_0000_0000_0000_0000,
    ;
    let total: i128 = secs * 1_000_000_000 + nanos;
    if total >= 0 {
        total / 1_000_000_000
    } else {
        -((-total) / 1_000_000_000)
    }
}

/// Appends the decimal digits of `n` to `out`.
fn push_decimal(out: &mut Vec<u8>, n: u128)
    ensures
        final(out)@ == old(out)@ + decimal(n as nat),
    decreases n,
{
    if n >= 10 {
        push_decimal(out, n / 10);
    }
    out.push(48 + (n % 10) as u8);
    proof {
        if n >= 10 {
            assert(final(out)@ =~= old(out)@ + decimal(n as nat));
        } else {
            assert(final(out)@ =~= old(out)@ + decimal(n as nat));
        }
    }
}

/// Appends `v` zero-padded to at least two characters.
fn push_padded2(out: &mut Vec<u8>, v: i128)
    ensures
        final(out)@ == old(out)@ + padded2(v as int),
{
    let ghost start = out@;
    if v < 0 {
        out.push(45);
        let m: u128 = if v == i128::MIN {
            0x8000_0000_0000_0000_0000_0000_0000_0000
        } else {
            (-v) as u128
        };
        push_decimal(out, m);
        assert(out@ =~= start + padded2(v as int));
    } else if v < 10 {
        out.push(48);
        push_decimal(out, v as u128);
        assert(out@ =~= start + padded2(v as int));
    } else {
        push_decimal(out, v as u128);
    }
}

/// `a / d` rounded toward zero.
fn div_toward_zero(a: i128, d: i128) -> (r: i128)
    requires
        d >= 2,
    ensures
        r == trunc_div(a as int, d as int),
{
    if a >= 0 {
        a / d
    } else {
        let m: u128 = (-(a + 1)) as u128 + 1;
        let q: u128 = m / (d as u128);
        assert(q <= m) by (nonlinear_arith)
            requires
                q == m / (d as u128),
                d >= 2,
        ;
        assert(q < 0x8000_0000_0000_0000_0000_0000_0000_0000) by (nonlinear_arith)
            requires
                q == m / (d as u128),
                m <= 0x8000_0000_0000_0000_0000_0000_0000_0000,
                d >= 2,
        ;
        -(q as i128)
    }
}

/// The duration field for `secs` seconds: whole hours, whole minutes and
/// whole seconds of the full duration, so that 5400 seconds give `01:90:5400`.
pub fn format_duration(secs: i128) -> (r: Vec<u8>)
    ensures
        r@ == duration_text(secs as int),
{
    let mut out: Vec<u8> = Vec::new();
    push_padded2(&mut out, div_toward_zero(secs, 3600));
    out.push(58);
    push_padded2(&mut out, div_toward_zero(secs, 60));
    out.push(58);
    push_padded2(&mut out, secs);
    assert(out@ =~= duration_text(secs as int));
    out
}

/// A zero duration is written as the zero sentinel `00:00:00`.
pub proof fn lemma_zero_duration_is_sentinel()
    ensures
        duration_text(0) == crate::scan::zero_sentinel(),
{
    reveal_with_fuel(decimal, 2);
    assert(duration_text(0) =~= crate::scan::zero_sentinel());
}

/// One log line: `stamp`, a tab, the duration field for `secs`, a line feed.
pub fn format_entry(stamp: &[u8], secs: i128) -> (r: Vec<u8>)
    ensures
        r@ == entry_text(stamp@, secs as int),
{
    let mut out: Vec<u8> = Vec::new();
    let mut i: usize = 0;
    while i < stamp.len()
        invariant
            i <= stamp@.len(),
            out@ == stamp@.subrange(0, i as int),
        decreases stamp@.len() - i,
    {
        out.push(stamp[i]);
        i = i + 1;
        assert(out@ =~= stamp@.subrange(0, i as int));
    }
    out.push(TAB);
    let field = format_duration(secs);
    let mut j: usize = 0;
    while j < field.len()
        invariant
            j <= field@.len(),
            field@ == duration_text(secs as int),
            out@ == stamp@ + seq![TAB] + field@.subrange(0, j as int),
        decreases field@.len() - j,
    {
        out.push(field[j]);
        j = j + 1;
        assert(out@ =~= stamp@ + seq![TAB] + field@.subrange(0, j as int));
    }
    out.push(NEWLINE);
    assert(out@ =~= entry_text(stamp@, secs as int));
    out
}

/// The RFC 2822 text of `t`, such as `Tue, 01 Jul 2025 09:15:00 +0000`.
pub fn format_timestamp(t: &Instant) -> (r: Result<Vec<u8>, LogError>)
    ensures
        match rfc2822_text(t.unix_seconds as int, t.offset_seconds as int) {
            Some(text) => r matches Ok(v) && v@ == text,
            None => r == Err::<Vec<u8>, LogError>(LogError::Format),
        },
{
    match rfc2822_format(t.unix_seconds, t.offset_seconds) {
        Some(v) => Ok(v),
        None => Err(LogError::Format),
    }
}

/// Reads RFC 2822 timestamp text.
pub fn parse_timestamp(text: &[u8]) -> (r: Result<Instant, LogError>)
    ensures
        match rfc2822_fields(text@) {
            Some(f) => r matches Ok(t) && instant_view(t) == f,
            None => r == Err::<Instant, LogError>(LogError::Parse),
        },
{
    match rfc2822_parse(text) {
        Some(t) => Ok(t),
        None => Err(LogError::Parse),
    }
}

/// The line that record-start appends: the timestamp of `now` with the zero
/// sentinel as its duration, whatever the log holds.
pub fn start_entry(now: &Instant) -> (r: Result<Vec<u8>, LogError>)
    ensures
        match rfc2822_text(now.unix_seconds as int, now.offset_seconds as int) {
            Some(text) => r matches Ok(v) && v@ == entry_text(text, 0) && v@ == text
                + seq![TAB] + crate::scan::zero_sentinel() + seq![NEWLINE],
            None => r == Err::<Vec<u8>, LogError>(LogError::Format),
        },
{
    let stamp = format_timestamp(now)?;
    proof {
        lemma_zero_duration_is_sentinel();
    }
    Ok(format_entry(stamp.as_slice(), 0))
}

/// The line that record-timestamp appends once the timestamp text of `now`
/// and the matched start, if any, are known: the duration is the time from
/// `start` to `now`, or zero without a start.
pub fn entry_after(now: &Instant, now_text: &[u8], start: Option<Instant>) -> (r: Vec<u8>)
    ensures
        r@ == entry_text(
            now_text@,
            match start {
                Some(s) => elapsed(instant_view(*now), instant_view(s)),
                None => 0,
            },
        ),
{
    let secs: i128 = match start {
        Some(s) => elapsed_seconds(now, &s),
        None => 0,
    };
    format_entry(now_text, secs)
}

/// The line that record-timestamp appends to `log` at `now`.
pub open spec fn timestamp_entry_spec(log: Seq<u8>, now: Instant) -> Result<Seq<u8>, LogError> {
    let now_text = rfc2822_text(now.unix_seconds as int, now.offset_seconds as int);
    match open_entry_of(log) {
        None => match now_text {
            Some(text) => Ok(entry_text(text, 0)),
            None => Err(LogError::Format),
        },
        Some(stamp) => match rfc2822_fields(stamp) {
            None => Err(LogError::Parse),
            Some(start) => match now_text {
                Some(text) => Ok(entry_text(text, elapsed(instant_view(now), start))),
                None => Err(LogError::Format),
            },
        },
    }
}

/// record-timestamp: the line to append to `log` at `now`. The most recent
/// open entry of the log is the start; its timestamp is parsed and the
/// duration is the time since then, or zero where the log holds no open
/// entry. The log itself is left as it is.
pub fn timestamp_entry(log: &[u8], now: &Instant) -> (r: Result<Vec<u8>, LogError>)
    ensures
        match r {
            Ok(v) => timestamp_entry_spec(log@, *now) == Ok::<Seq<u8>, LogError>(v@),
            Err(e) => timestamp_entry_spec(log@, *now) == Err::<Seq<u8>, LogError>(e),
        },
{
    let start = match find_open_entry(log) {
        Some((a, b)) => {
            let text = vstd::slice::slice_subrange(log, a, b);
            Some(parse_timestamp(text)?)
        },
        None => None,
    };
    let now_text = format_timestamp(now)?;
    Ok(entry_after(now, now_text.as_slice(), start))
}

} // verus!
