//! Compact duration renderings and the ISO-8601 instant reading they start from.

use vstd::prelude::*;
use crate::chars::{decimal, push_char, push_decimal};

verus! {

/// The instant an RFC 3339 / ISO-8601 timestamp string names, in whole milliseconds since
/// the Unix epoch (`None` when the string does not parse).
pub uninterp spec fn iso_millis(raw: Seq<char>) -> Option<int>;

/// Parse an RFC 3339 timestamp (`jiff::Timestamp`'s `FromStr`) and read it as epoch
/// milliseconds (`Timestamp::as_millisecond`). The result is named [`iso_millis`]; what
/// the parser accepts is jiff's and is not restated here.
#[verifier::external_body]
pub fn parse_iso_millis(raw: &str) -> (r: Option<i64>)
    ensures
        match r {
            Some(v) => iso_millis(raw@) == Some(v as int),
            None => iso_millis(raw@) is None,
        },
{
    raw.parse::<jiff::Timestamp>().ok().map(|t| t.as_millisecond())
}

/// Division truncating toward zero (Rust's `/` on signed integers).
pub open spec fn trunc_div(a: int, b: int) -> int
    recommends
        b > 0,
{
    if a >= 0 {
        a / b
    } else {
        -((-a) / b)
    }
}

/// Whole seconds of an epoch-millisecond instant (truncated toward zero).
pub fn millis_to_secs(ms: i64) -> (s: i64)
    ensures
        s as int == trunc_div(ms as int, 1000),
{
    let m = ms as i128;
    let r: i128 = if m >= 0 { m / 1000 } else { -((-m) / 1000) };
    r as i64
}

/// Two digits, zero-padded (`{n:02}` for `n < 100`).
pub open spec fn pad2(n: nat) -> Seq<char> {
    if n < 10 {
        seq!['0'] + decimal(n)
    } else {
        decimal(n)
    }
}

fn push_pad2(s: &mut String, n: u64)
    requires
        n < 100,
    ensures
        final(s)@ == old(s)@ + pad2(n as nat),
{
    if n < 10 {
        push_char(s, '0');
    }
    push_decimal(s, n);
    assert(final(s)@ =~= old(s)@ + pad2(n as nat));
}

/// `2h05m` / `3m20s` / `3s`: hours and minutes once an hour is reached, else minutes and
/// seconds, else seconds.
pub open spec fn spec_fmt_secs(t: nat) -> Seq<char> {
    let h = t / 3600;
    let m = (t % 3600) / 60;
    let s = t % 60;
    if h > 0 {
        decimal(h) + seq!['h'] + pad2(m) + seq!['m']
    } else if m > 0 {
        decimal(m) + seq!['m'] + pad2(s) + seq!['s']
    } else {
        decimal(s) + seq!['s']
    }
}

/// Format a whole-second duration compactly (see [`spec_fmt_secs`]).
pub fn fmt_secs(total: u64) -> (out: String)
    ensures
        out@ == spec_fmt_secs(total as nat),
{
    let h = total / 3600;
    let m = (total % 3600) / 60;
    let s = total % 60;
    let mut out = String::new();
    if h > 0 {
        push_decimal(&mut out, h);
        push_char(&mut out, 'h');
        push_pad2(&mut out, m);
        push_char(&mut out, 'm');
    } else if m > 0 {
        push_decimal(&mut out, m);
        push_char(&mut out, 'm');
        push_pad2(&mut out, s);
        push_char(&mut out, 's');
    } else {
        push_decimal(&mut out, s);
        push_char(&mut out, 's');
    }
    assert(out@ =~= spec_fmt_secs(total as nat));
    out
}

/// `1h59m50s` / `4m05s` / `9s`: every unit below the leading one, zero-padded.
pub open spec fn spec_gap_label(t: nat) -> Seq<char> {
    let h = t / 3600;
    let m = (t % 3600) / 60;
    let s = t % 60;
    if h > 0 {
        decimal(h) + seq!['h'] + pad2(m) + seq!['m'] + pad2(s) + seq!['s']
    } else if m > 0 {
        decimal(m) + seq!['m'] + pad2(s) + seq!['s']
    } else {
        decimal(s) + seq!['s']
    }
}

/// A fork's inter-child gap, compact (see [`spec_gap_label`]).
pub fn gap_label(secs: u64) -> (out: String)
    ensures
        out@ == spec_gap_label(secs as nat),
{
    let h = secs / 3600;
    let m = (secs % 3600) / 60;
    let s = secs % 60;
    let mut out = String::new();
    if h > 0 {
        push_decimal(&mut out, h);
        push_char(&mut out, 'h');
        push_pad2(&mut out, m);
        push_char(&mut out, 'm');
        push_pad2(&mut out, s);
        push_char(&mut out, 's');
    } else if m > 0 {
        push_decimal(&mut out, m);
        push_char(&mut out, 'm');
        push_pad2(&mut out, s);
        push_char(&mut out, 's');
    } else {
        push_decimal(&mut out, s);
        push_char(&mut out, 's');
    }
    assert(out@ =~= spec_gap_label(secs as nat));
    out
}

/// A millisecond duration rounded to the nearest second and shown in its top two units,
/// space-separated: `10d 17h`, `2h 3m`, `1m 5s`, `12s`.
pub open spec fn spec_fmt_ms(ms: nat) -> Seq<char> {
    let t = (ms + 500) / 1000;
    let d = t / 86400;
    let h = (t % 86400) / 3600;
    let m = (t % 3600) / 60;
    let s = t % 60;
    if d > 0 {
        decimal(d) + seq!['d', ' '] + decimal(h) + seq!['h']
    } else if h > 0 {
        decimal(h) + seq!['h', ' '] + decimal(m) + seq!['m']
    } else if m > 0 {
        decimal(m) + seq!['m', ' '] + decimal(s) + seq!['s']
    } else {
        decimal(s) + seq!['s']
    }
}

/// Render a millisecond duration (see [`spec_fmt_ms`]).
pub fn fmt_ms(ms: u64) -> (out: String)
    ensures
        out@ == spec_fmt_ms(ms as nat),
{
    let t = ms / 1000 + (if ms % 1000 >= 500 { 1 } else { 0 });
    assert(t == (ms + 500) / 1000);
    let d = t / 86400;
    let h = (t % 86400) / 3600;
    let m = (t % 3600) / 60;
    let s = t % 60;
    let mut out = String::new();
    if d > 0 {
        push_decimal(&mut out, d);
        push_char(&mut out, 'd');
        push_char(&mut out, ' ');
        push_decimal(&mut out, h);
        push_char(&mut out, 'h');
    } else if h > 0 {
        push_decimal(&mut out, h);
        push_char(&mut out, 'h');
        push_char(&mut out, ' ');
        push_decimal(&mut out, m);
        push_char(&mut out, 'm');
    } else if m > 0 {
        push_decimal(&mut out, m);
        push_char(&mut out, 'm');
        push_char(&mut out, ' ');
        push_decimal(&mut out, s);
        push_char(&mut out, 's');
    } else {
        push_decimal(&mut out, s);
        push_char(&mut out, 's');
    }
    assert(out@ =~= spec_fmt_ms(ms as nat));
    out
}

} // verus!
