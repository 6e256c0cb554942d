//! Proleptic Gregorian calendar arithmetic: day numbers of civil dates and
//! back, and the `YYYY-MM-DDTHH:MM:SSZ` timestamps the AppImage sidecars and
//! the GitHub API use.

use vstd::prelude::*;
use crate::text::{index_of, lemma_index_of, lemma_index_first, string_of, chars_of, split_once, split_once_vec, before_char, before_char_vec, trim_end_char, trim_end_char_vec};
use crate::num::{fmt_i64_padded, parse_i64, parse_i64_spec, fmt_padded, fmt_u64, pad_zeros, all_digits, is_digit, dec_digits, lemma_dec_digits_roundtrip, lemma_zero_pad_value};

verus! {

pub open spec fn in_i64(x: int) -> bool {
    i64::MIN <= x <= i64::MAX
}

// ── Civil date → day number ─────────────────────────────────────────────────

/// The year that the March-based calendar counts a date in.
pub open spec fn shifted_year(y: int, m: int) -> int {
    if m <= 2 {
        y - 1
    } else {
        y
    }
}

/// The 400-year era of a March-based year.
pub open spec fn era_of(y: int) -> int {
    y / 400
}

/// Day of the March-based year of the first day of month `m` plus `d - 1`.
pub open spec fn day_of_year(m: int, d: int) -> int {
    (153 * (if m > 2 {
        m - 3
    } else {
        m + 9
    }) + 2) / 5 + d - 1
}

/// Day of the 400-year era.
pub open spec fn day_of_era(y: int, m: int, d: int) -> int {
    let yp = shifted_year(y, m);
    let yoe = yp - era_of(yp) * 400;
    yoe * 365 + yoe / 4 - yoe / 100 + day_of_year(m, d)
}

/// Days from 1970-01-01 to the civil date `y-m-d`.
pub open spec fn civil_days(y: int, m: int, d: int) -> int {
    era_of(shifted_year(y, m)) * 146097 + day_of_era(y, m, d) - 719468
}

pub open spec fn valid_md(m: int, d: int) -> bool {
    1 <= m <= 12 && 1 <= d <= 31
}

/// The intermediate results of the day-number computation fit in `i64`.
pub open spec fn civil_fits(y: int, m: int, d: int) -> bool {
    let yp = shifted_year(y, m);
    let e = era_of(yp);
    &&& in_i64(yp)
    &&& (yp < 0 ==> in_i64(yp - 399))
    &&& in_i64(e * 146097)
    &&& in_i64(e * 146097 + day_of_era(y, m, d))
    &&& in_i64(civil_days(y, m, d))
}

/// `days_from_civil`: `None` for a month outside 1..=12 or a day outside 1..=31.
pub open spec fn days_from_civil_spec(y: int, m: int, d: int) -> Option<int> {
    if valid_md(m, d) {
        Some(civil_days(y, m, d))
    } else {
        None
    }
}

proof fn lemma_trunc_era(y: i64)
    requires
        y < 0,
        y >= i64::MIN + 399,
    ensures
        ({
            let q = (y - 399) / 400;
            // Rust truncates toward zero; for this negative numerator that is
            // the floor of y / 400.
            -((399 - y) / 400) == y / 400
        }),
{
    assert(-((399 - y) / 400) == y / 400) by (nonlinear_arith)
        requires
            y < 0,
    ;
}

#[verifier::spinoff_prover]
pub fn days_from_civil(y: i64, m: i64, d: i64) -> (r: Option<i64>)
    requires
        valid_md(m as int, d as int) ==> civil_fits(y as int, m as int, d as int),
    ensures
        match r {
            Some(v) => days_from_civil_spec(y as int, m as int, d as int) == Some(v as int),
            None => days_from_civil_spec(y as int, m as int, d as int).is_none(),
        },
{
    if !(1 <= m && m <= 12) || !(1 <= d && d <= 31) {
        return None;
    }
    let y = if m <= 2 {
        y - 1
    } else {
        y
    };
    let num: i64 = if y >= 0 {
        y
    } else {
        y - 399
    };
    let era: i64 = num / 400;
    assert(era as int == era_of(y as int)) by {
        if y < 0 {
            lemma_trunc_era(y);
        }
    }
    let yoe = y - era * 400;
    assert(0 <= yoe < 400) by {
        assert(0 <= (y as int) - era_of(y as int) * 400 < 400) by (nonlinear_arith);
    }
    let mp: i64 = if m > 2 {
        m - 3
    } else {
        m + 9
    };
    let doy = (153 * mp + 2) / 5 + d - 1;
    let doe = yoe * 365 + yoe / 4 - yoe / 100 + doy;
    Some(era * 146097 + doe - 719468)
}

// ── RFC 3339 timestamps → seconds ───────────────────────────────────────────

/// The six numeric fields of `YYYY-MM-DDTHH:MM:SS[.fff]Z`, as text: trailing
/// `Z`s are dropped, then anything from the first `.`, then the text is cut at
/// the first `T`, the date at its first two `-`, the time at its first two `:`.
pub open spec fn rfc_pieces(s: Seq<char>) -> Option<Seq<Seq<char>>> {
    let base = before_char(trim_end_char(s, 'Z'), '.');
    match split_once(base, 'T') {
        None => None,
        Some((date, time)) => match split_once(date, '-') {
            None => None,
            Some((ys, r1)) => match split_once(r1, '-') {
                None => None,
                Some((ms, ds)) => match split_once(time, ':') {
                    None => None,
                    Some((hs, r2)) => match split_once(r2, ':') {
                        None => None,
                        Some((mins, ss)) => Some(seq![ys, ms, ds, hs, mins, ss]),
                    },
                },
            },
        },
    }
}

/// The six fields parsed as `i64`, when all six parse.
pub open spec fn rfc_fields(s: Seq<char>) -> Option<Seq<int>> {
    match rfc_pieces(s) {
        None => None,
        Some(p) => if forall|i: int| 0 <= i < 6 ==> (#[trigger] parse_i64_spec(p[i])).is_some() {
            Some(Seq::new(6, |i: int| parse_i64_spec(p[i]).unwrap() as int))
        } else {
            None
        },
    }
}

pub open spec fn secs_of(f: Seq<int>) -> int {
    civil_days(f[0], f[1], f[2]) * 86400 + f[3] * 3600 + f[4] * 60 + f[5]
}

/// Seconds since the epoch that a timestamp denotes, when it parses and its
/// month and day are in range.
pub open spec fn rfc3339_epoch_spec(s: Seq<char>) -> Option<int> {
    match rfc_fields(s) {
        None => None,
        Some(f) => if valid_md(f[1], f[2]) {
            Some(secs_of(f))
        } else {
            None
        },
    }
}

/// Every intermediate result of the seconds computation fits in `i64`.
pub open spec fn rfc_fits(s: Seq<char>) -> bool {
    match rfc_fields(s) {
        None => true,
        Some(f) => valid_md(f[1], f[2]) ==> {
            let days = civil_days(f[0], f[1], f[2]);
            &&& civil_fits(f[0], f[1], f[2])
            &&& in_i64(days * 86400)
            &&& in_i64(f[3] * 3600)
            &&& in_i64(days * 86400 + f[3] * 3600)
            &&& in_i64(f[4] * 60)
            &&& in_i64(days * 86400 + f[3] * 3600 + f[4] * 60)
            &&& in_i64(secs_of(f))
        },
    }
}

/// The six fields of an RFC 3339 timestamp, when all six parse as `i64`.
#[verifier::spinoff_prover]
pub fn rfc_field_values(s: &str) -> (r: Option<(i64, i64, i64, i64, i64, i64)>)
    ensures
        match r {
            Some(t) => rfc_fields(s@) == Some(
                seq![t.0 as int, t.1 as int, t.2 as int, t.3 as int, t.4 as int, t.5 as int],
            ),
            None => rfc_fields(s@).is_none(),
        },
{
    let chars = chars_of(s);
    let base = trim_end_char_vec(&chars, 'Z');
    let base = before_char_vec(&base, '.');
    let (date, time) = match split_once_vec(&base, 'T') {
        Some(p) => p,
        None => return None,
    };
    let (ys, r1) = match split_once_vec(&date, '-') {
        Some(p) => p,
        None => return None,
    };
    let (ms, ds) = match split_once_vec(&r1, '-') {
        Some(p) => p,
        None => return None,
    };
    let (hs, r2) = match split_once_vec(&time, ':') {
        Some(p) => p,
        None => return None,
    };
    let (mins, ss) = match split_once_vec(&r2, ':') {
        Some(p) => p,
        None => return None,
    };
    let ghost pieces = seq![ys@, ms@, ds@, hs@, mins@, ss@];
    assert(rfc_pieces(s@) == Some(pieces));
    let y = match parse_i64(&ys) {
        Some(v) => v,
        None => {
            assert(parse_i64_spec(pieces[0]).is_none());
            return None;
        },
    };
    let m = match parse_i64(&ms) {
        Some(v) => v,
        None => {
            assert(parse_i64_spec(pieces[1]).is_none());
            return None;
        },
    };
    let d = match parse_i64(&ds) {
        Some(v) => v,
        None => {
            assert(parse_i64_spec(pieces[2]).is_none());
            return None;
        },
    };
    let hh = match parse_i64(&hs) {
        Some(v) => v,
        None => {
            assert(parse_i64_spec(pieces[3]).is_none());
            return None;
        },
    };
    let mm = match parse_i64(&mins) {
        Some(v) => v,
        None => {
            assert(parse_i64_spec(pieces[4]).is_none());
            return None;
        },
    };
    let sec = match parse_i64(&ss) {
        Some(v) => v,
        None => {
            assert(parse_i64_spec(pieces[5]).is_none());
            return None;
        },
    };
    let ghost f = Seq::new(6, |i: int| parse_i64_spec(pieces[i]).unwrap() as int);
    assert(forall|i: int| 0 <= i < 6 ==> (#[trigger] parse_i64_spec(pieces[i])).is_some());
    assert(rfc_fields(s@) == Some(f));
    assert(f[0] == y && f[1] == m && f[2] == d && f[3] == hh && f[4] == mm && f[5] == sec);
    assert(f =~= seq![y as int, m as int, d as int, hh as int, mm as int, sec as int]);
    Some((y, m, d, hh, mm, sec))
}

#[verifier::spinoff_prover]
pub fn rfc3339_epoch(s: &str) -> (r: Option<i64>)
    requires
        rfc_fits(s@),
    ensures
        match r {
            Some(v) => rfc3339_epoch_spec(s@) == Some(v as int),
            None => rfc3339_epoch_spec(s@).is_none(),
        },
{
    let (y, m, d, hh, mm, sec) = match rfc_field_values(s) {
        Some(t) => t,
        None => return None,
    };
    let days = match days_from_civil(y, m, d) {
        Some(v) => v,
        None => return None,
    };
    Some(days * 86400 + hh * 3600 + mm * 60 + sec)
}

proof fn lemma_trunc_era_int(y: int)
    requires
        y < 0,
    ensures
        -((399 - y) / 400) == y / 400,
{
    assert(-((399 - y) / 400) == y / 400) by (nonlinear_arith)
        requires
            y < 0,
    ;
}

/// The era and day number of a civil date, in wide arithmetic.
#[verifier::spinoff_prover]
fn civil_days_wide(y: i64, m: i64, d: i64) -> (r: (i128, i128, i128))
    requires
        valid_md(m as int, d as int),
    ensures
        r.0 == shifted_year(y as int, m as int),
        r.1 == era_of(shifted_year(y as int, m as int)) * 146097,
        r.2 == civil_days(y as int, m as int, d as int),
{
    let y = y as i128;
    let m = m as i128;
    let d = d as i128;
    let yp: i128 = if m <= 2 {
        y - 1
    } else {
        y
    };
    let num: i128 = if yp >= 0 {
        yp
    } else {
        yp - 399
    };
    let era: i128 = num / 400;
    assert(era as int == era_of(yp as int)) by {
        if yp < 0 {
            lemma_trunc_era_int(yp as int);
        }
    }
    assert(-4611686018427387904 <= era <= 4611686018427387904);
    let yoe = yp - era * 400;
    assert(0 <= yoe < 400) by {
        assert(0 <= (yp as int) - era_of(yp as int) * 400 < 400) by (nonlinear_arith);
    }
    let mp: i128 = if m > 2 {
        m - 3
    } else {
        m + 9
    };
    let doy = (153 * mp + 2) / 5 + d - 1;
    let doe = yoe * 365 + yoe / 4 - yoe / 100 + doy;
    let e1 = era * 146097;
    (yp, e1, e1 + doe - 719468)
}

/// Whether every intermediate result of reading `s` as seconds fits in
/// `i64` (see `rfc_fits`).
#[verifier::spinoff_prover]
pub fn rfc_in_range(s: &str) -> (r: bool)
    ensures
        r == rfc_fits(s@),
{
    let (y, m, d, hh, mm, sec) = match rfc_field_values(s) {
        Some(t) => t,
        None => return true,
    };
    if !(1 <= m && m <= 12 && 1 <= d && d <= 31) {
        return true;
    }
    let lo: i128 = -9223372036854775808i128;
    let hi: i128 = 9223372036854775807i128;
    let (yp, e1, days) = civil_days_wide(y, m, d);
    let doe_sum = days + 719468;
    let a = days * 86400;
    let b = (hh as i128) * 3600;
    let c = a + b;
    let dm = (mm as i128) * 60;
    let e = c + dm;
    let f = e + (sec as i128);
    let ok_y = lo <= yp && yp <= hi && (yp >= 0 || lo <= yp - 399);
    ok_y && lo <= e1 && e1 <= hi && lo <= doe_sum && doe_sum <= hi && lo <= days && days <= hi
        && lo <= a && a <= hi && lo <= b && b <= hi && lo <= c && c <= hi && lo <= dm && dm <= hi
        && lo <= e && e <= hi && lo <= f && f <= hi
}

/// Whether a release published at `published_at` is newer than the install
/// recorded at `installed_at`; an empty `installed_at` means no prior record.
pub open spec fn release_newer_spec(published_at: Seq<char>, installed_at: Seq<char>) -> bool {
    if installed_at.len() == 0 {
        true
    } else {
        match (rfc3339_epoch_spec(published_at), rfc3339_epoch_spec(installed_at)) {
            (Some(p), Some(i)) => p > i,
            _ => false,
        }
    }
}

/// True when `published_at` (RFC 3339) is newer than `installed_at`.
/// An empty `installed_at` means "no prior record" and counts as newer.
pub fn release_newer_than(published_at: &str, installed_at: &str) -> (r: bool)
    requires
        installed_at@.len() > 0 ==> rfc_fits(published_at@) && rfc_fits(installed_at@),
    ensures
        r == release_newer_spec(published_at@, installed_at@),
{
    if installed_at.is_empty() {
        return true;
    }
    match (rfc3339_epoch(published_at), rfc3339_epoch(installed_at)) {
        (Some(p), Some(i)) => p > i,
        _ => false,
    }
}

/// A release is never newer than an install recorded at its own timestamp.
pub proof fn law_release_not_newer_than_itself(t: Seq<char>)
    requires
        t.len() > 0,
    ensures
        !release_newer_spec(t, t),
{
}

/// When both timestamps read as instants, a release is newer exactly when it
/// was published at a later instant: more seconds since the epoch, so a
/// later day, hour, minute or second of the same month counts.
pub proof fn law_release_newer_by_instant(published: Seq<char>, installed: Seq<char>)
    requires
        installed.len() > 0,
        rfc3339_epoch_spec(published) is Some,
        rfc3339_epoch_spec(installed) is Some,
    ensures
        release_newer_spec(published, installed) == (rfc3339_epoch_spec(published)->0
            > rfc3339_epoch_spec(installed)->0),
{
}

/// Of two instants rendered as timestamps, the release published at the
/// later one is the newer: comparing the texts agrees with comparing the
/// instants, to the second.
pub proof fn law_release_newer_of_instants(a: int, b: int, ta: Seq<char>, tb: Seq<char>)
    requires
        0 <= a <= i64::MAX,
        0 <= b <= i64::MAX,
        is_timestamp_of(a, ta),
        is_timestamp_of(b, tb),
    ensures
        release_newer_spec(ta, tb) == (a > b),
{
    law_timestamp_roundtrip(a, ta);
    law_timestamp_roundtrip(b, tb);
    if tb.len() == 0 {
        assert(rfc3339_epoch_spec(tb) is None);
    }
}

/// An unreadable timestamp is never newer, nor older than a recorded one.
pub proof fn law_release_newer_unreadable(published: Seq<char>, installed: Seq<char>)
    requires
        installed.len() > 0,
        rfc3339_epoch_spec(published) is None || rfc3339_epoch_spec(installed) is None,
    ensures
        !release_newer_spec(published, installed),
{
}

/// Without a recorded install time every release counts as newer.
pub proof fn law_release_newer_without_record(published: Seq<char>)
    ensures
        release_newer_spec(published, Seq::empty()),
{
}

/// Of two recorded timestamps, at most one is newer than the other.
pub proof fn law_release_newer_asymmetric(a: Seq<char>, b: Seq<char>)
    requires
        a.len() > 0,
        b.len() > 0,
    ensures
        !(release_newer_spec(a, b) && release_newer_spec(b, a)),
{
}

// ── Calendar facts ──────────────────────────────────────────────────────────

pub open spec fn is_leap(y: int) -> bool {
    y % 4 == 0 && (y % 100 != 0 || y % 400 == 0)
}

pub open spec fn year_len(y: int) -> int {
    if is_leap(y) {
        366
    } else {
        365
    }
}

pub open spec fn month_len(y: int, m: int) -> int {
    if m == 2 {
        if is_leap(y) {
            29
        } else {
            28
        }
    } else if m == 4 || m == 6 || m == 9 || m == 11 {
        30
    } else {
        31
    }
}

/// A real calendar date.
pub open spec fn valid_date(y: int, m: int, d: int) -> bool {
    1 <= m <= 12 && 1 <= d <= month_len(y, m)
}

/// Days before March 1 of the March-based year `yp`, counted from March 1 of year 0.
pub open spec fn days_before_year(yp: int) -> int {
    365 * yp + yp / 4 - yp / 100 + yp / 400
}

proof fn lemma_era_days(yp: int)
    ensures
        era_of(yp) * 146097 + (yp - era_of(yp) * 400) * 365 + (yp - era_of(yp) * 400) / 4 - (yp
            - era_of(yp) * 400) / 100 == days_before_year(yp),
{
    let e = yp / 400;
    let r = yp - e * 400;
    assert(0 <= r < 400);
    assert(yp / 4 == 100 * e + r / 4);
    assert(yp / 100 == 4 * e + r / 100);
}

/// The day number written through the March-based year.
proof fn lemma_civil_days_alt(y: int, m: int, d: int)
    ensures
        civil_days(y, m, d) == days_before_year(shifted_year(y, m)) + day_of_year(m, d) - 719468,
{
    lemma_era_days(shifted_year(y, m));
}

/// January 1 of the next year is `year_len(y)` days later.
#[verifier::spinoff_prover]
pub proof fn lemma_next_year(y: int)
    ensures
        civil_days(y + 1, 1, 1) == civil_days(y, 1, 1) + year_len(y),
{
    lemma_civil_days_alt(y + 1, 1, 1);
    lemma_civil_days_alt(y, 1, 1);
    assert(y / 4 - (y - 1) / 4 == (if y % 4 == 0 {
        1int
    } else {
        0
    }));
    assert(y / 100 - (y - 1) / 100 == (if y % 100 == 0 {
        1int
    } else {
        0
    }));
    assert(y / 400 - (y - 1) / 400 == (if y % 400 == 0 {
        1int
    } else {
        0
    }));
}

/// The first of the next month is `month_len(y, m)` days later.
#[verifier::spinoff_prover]
pub proof fn lemma_next_month(y: int, m: int)
    requires
        1 <= m < 12,
    ensures
        civil_days(y, m + 1, 1) == civil_days(y, m, 1) + month_len(y, m),
{
    lemma_civil_days_alt(y, m + 1, 1);
    lemma_civil_days_alt(y, m, 1);
    if m == 2 {
        assert(y / 4 - (y - 1) / 4 == (if y % 4 == 0 {
            1int
        } else {
            0
        }));
        assert(y / 100 - (y - 1) / 100 == (if y % 100 == 0 {
            1int
        } else {
            0
        }));
        assert(y / 400 - (y - 1) / 400 == (if y % 400 == 0 {
            1int
        } else {
            0
        }));
    }
}

/// The day of the month enters the day number linearly.
pub proof fn lemma_day_offset(y: int, m: int, d: int)
    ensures
        civil_days(y, m, d) == civil_days(y, m, 1) + d - 1,
{
    lemma_civil_days_alt(y, m, d);
    lemma_civil_days_alt(y, m, 1);
}

proof fn lemma_dec_to_jan(y: int)
    ensures
        civil_days(y + 1, 1, 1) == civil_days(y, 12, 1) + 31,
{
    lemma_civil_days_alt(y + 1, 1, 1);
    lemma_civil_days_alt(y, 12, 1);
}

// ── Seconds → timestamp text ────────────────────────────────────────────────

/// `YYYY-MM-DDTHH:MM:SSZ` with every field zero-padded (the year to four digits).
pub open spec fn timestamp_text(y: int, m: int, d: int, hh: int, mi: int, ss: int) -> Seq<char> {
    fmt_padded(y, 4) + seq!['-'] + fmt_padded(m, 2) + seq!['-'] + fmt_padded(d, 2) + seq!['T']
        + fmt_padded(hh, 2) + seq![':'] + fmt_padded(mi, 2) + seq![':'] + fmt_padded(ss, 2)
        + seq!['Z']
}

/// The calendar date `(y, m, d)` of day number `days`.
pub open spec fn date_of_day(days: int, y: int, m: int, d: int) -> bool {
    valid_date(y, m, d) && civil_days(y, m, d) == days
}

/// The text of the UTC instant `secs` seconds after the epoch.
pub open spec fn is_timestamp_of(secs: int, t: Seq<char>) -> bool {
    exists|y: int, m: int, d: int|
        #![trigger date_of_day(secs / 86400, y, m, d)]
        y >= 1970 && date_of_day(secs / 86400, y, m, d) && t == timestamp_text(
            y,
            m,
            d,
            (secs / 3600) % 24,
            (secs / 60) % 60,
            secs % 60,
        )
}

fn push_all(r: &mut Vec<char>, s: &Vec<char>)
    ensures
        final(r)@ == old(r)@ + s@,
{
    let ghost r0 = r@;
    let mut i: usize = 0;
    while i < s.len()
        invariant
            i <= s@.len(),
            r@ == r0 + s@.subrange(0, i as int),
        decreases s.len() - i,
    {
        r.push(s[i]);
        i = i + 1;
        assert(r@ =~= r0 + s@.subrange(0, i as int));
    }
    assert(s@.subrange(0, s@.len() as int) =~= s@);
}

/// Render `secs` seconds after 1970-01-01T00:00:00Z as `YYYY-MM-DDTHH:MM:SSZ`.
#[verifier::spinoff_prover]
#[verifier::rlimit(40)]
pub fn format_utc_timestamp(secs: u64) -> (r: String)
    ensures
        is_timestamp_of(secs as int, r@),
{
    let sec = secs % 60;
    let s = secs / 60;
    let min = s % 60;
    let s = s / 60;
    let hour = s % 24;
    let mut days = s / 24;
    let ghost total: int = days as int;
    assert(total == secs as int / 86400);
    let mut year: u64 = 1970;
    assert(civil_days(1970, 1, 1) == 0) by {
        lemma_civil_days_alt(1970, 1, 1);
    }
    loop
        invariant
            1970 <= year,
            year - 1970 <= total - days,
            days <= total,
            total <= u64::MAX,
            civil_days(year as int, 1, 1) + days == total,
        ensures
            1970 <= year,
            civil_days(year as int, 1, 1) + days == total,
            days < year_len(year as int),
        decreases days,
    {
        let leap = year.is_multiple_of(4) && (!year.is_multiple_of(100) || year.is_multiple_of(
            400,
        ));
        let dy: u64 = if leap {
            366
        } else {
            365
        };
        assert(dy == year_len(year as int));
        if days < dy {
            break;
        }
        proof {
            lemma_next_year(year as int);
        }
        days = days - dy;
        year = year + 1;
    }
    let leap = year.is_multiple_of(4) && (!year.is_multiple_of(100) || year.is_multiple_of(400));
    let month_days: [u64; 12] = [
        31u64,
        if leap {
            29
        } else {
            28
        },
        31,
        30,
        31,
        30,
        31,
        31,
        30,
        31,
        30,
        31,
    ];
    let mut month: u64 = 1;
    let mut i: usize = 0;
    proof {
        lemma_next_year(year as int);
    }
    loop
        invariant
            i < 12,
            month == i + 1,
            forall|k: int| 0 <= k < 12 ==> #[trigger] month_days[k] == month_len(year as int, k + 1),
            civil_days(year as int, month as int, 1) + days == total,
            days < civil_days(year as int + 1, 1, 1) - civil_days(year as int, month as int, 1),
        ensures
            1 <= month <= 12,
            civil_days(year as int, month as int, 1) + days == total,
            days < month_len(year as int, month as int),
        decreases 12 - i,
    {
        let md = month_days[i];
        if days < md {
            break;
        }
        if i == 11 {
            proof {
                lemma_dec_to_jan(year as int);
            }
            assert(false);
            break;
        }
        proof {
            lemma_next_month(year as int, month as int);
        }
        days = days - md;
        month = month + 1;
        i = i + 1;
    }
    proof {
        lemma_day_offset(year as int, month as int, days + 1);
    }
    let mut r: Vec<char> = Vec::new();
    push_all(&mut r, &pad_zeros(fmt_u64(year), 4));
    r.push('-');
    push_all(&mut r, &pad_zeros(fmt_u64(month), 2));
    r.push('-');
    push_all(&mut r, &pad_zeros(fmt_u64(days + 1), 2));
    r.push('T');
    push_all(&mut r, &pad_zeros(fmt_u64(hour), 2));
    r.push(':');
    push_all(&mut r, &pad_zeros(fmt_u64(min), 2));
    r.push(':');
    push_all(&mut r, &pad_zeros(fmt_u64(sec), 2));
    r.push('Z');
    let ghost y = year as int;
    let ghost m = month as int;
    let ghost d = days + 1;
    assert(date_of_day(secs as int / 86400, y, m, d));
    assert(r@ =~= timestamp_text(
        y,
        m,
        d,
        (secs as int / 3600) % 24,
        (secs as int / 60) % 60,
        secs as int % 60,
    ));
    string_of(&r)
}

// ── Reading back a timestamp ────────────────────────────────────────────────

pub open spec fn no_char(s: Seq<char>, c: char) -> bool {
    forall|i: int| 0 <= i < s.len() ==> s[i] != c
}

proof fn lemma_split_once_at(a: Seq<char>, c: char, b: Seq<char>)
    requires
        no_char(a, c),
    ensures
        split_once(a + seq![c] + b, c) == Some((a, b)),
{
    let s = a + seq![c] + b;
    lemma_index_first(s, c, a.len() as int);
    assert(s.subrange(0, a.len() as int) =~= a);
    assert(s.subrange(a.len() as int + 1, s.len() as int) =~= b);
}

proof fn lemma_index_absent(s: Seq<char>, c: char)
    requires
        no_char(s, c),
    ensures
        index_of(s, c) < 0,
{
    lemma_index_of(s, c);
    if index_of(s, c) >= 0 {
        assert(s[index_of(s, c)] == c);
    }
}

/// The zero-padded decimal text of a non-negative number.
proof fn lemma_padded_digits(v: int, w: nat)
    requires
        0 <= v,
    ensures
        all_digits(fmt_padded(v, w)),
        fmt_padded(v, w).len() >= 1,
        v <= i64::MAX ==> parse_i64_spec(fmt_padded(v, w)) == Some(v as i64),
{
    lemma_dec_digits_roundtrip(v as nat);
    lemma_zero_pad_value(dec_digits(v as nat), w);
    let t = fmt_padded(v, w);
    assert(is_digit(t[0]));
}

proof fn lemma_digits_lack(s: Seq<char>, c: char)
    requires
        all_digits(s),
        !is_digit(c),
    ensures
        no_char(s, c),
{
    assert forall|i: int| 0 <= i < s.len() implies s[i] != c by {
        assert(is_digit(s[i]));
    }
}

proof fn lemma_no_char_concat(a: Seq<char>, b: Seq<char>, c: char)
    requires
        no_char(a, c),
        no_char(b, c),
    ensures
        no_char(a + b, c),
{
    assert forall|i: int| 0 <= i < (a + b).len() implies (a + b)[i] != c by {
        if i < a.len() {
            assert((a + b)[i] == a[i]);
        } else {
            assert((a + b)[i] == b[i - a.len()]);
        }
    }
}

/// The six fields of a rendered timestamp are cut apart again.
#[verifier::spinoff_prover]
proof fn lemma_text_pieces(y: int, m: int, d: int, hh: int, mi: int, ss: int)
    requires
        0 <= y && 0 <= m && 0 <= d && 0 <= hh && 0 <= mi && 0 <= ss,
    ensures
        rfc_pieces(timestamp_text(y, m, d, hh, mi, ss)) == Some(
            seq![
                fmt_padded(y, 4),
                fmt_padded(m, 2),
                fmt_padded(d, 2),
                fmt_padded(hh, 2),
                fmt_padded(mi, 2),
                fmt_padded(ss, 2),
            ],
        ),
{
    let t = timestamp_text(y, m, d, hh, mi, ss);
    let fy = fmt_padded(y, 4);
    let fm = fmt_padded(m, 2);
    let fd = fmt_padded(d, 2);
    let fh = fmt_padded(hh, 2);
    let fi = fmt_padded(mi, 2);
    let fs = fmt_padded(ss, 2);
    lemma_padded_digits(y, 4);
    lemma_padded_digits(m, 2);
    lemma_padded_digits(d, 2);
    lemma_padded_digits(hh, 2);
    lemma_padded_digits(mi, 2);
    lemma_padded_digits(ss, 2);
    let date = fy + seq!['-'] + fm + seq!['-'] + fd;
    let time = fh + seq![':'] + fi + seq![':'] + fs;
    let base = date + seq!['T'] + time;
    assert(t =~= base + seq!['Z']);
    assert(base.last() == fs.last());
    assert(is_digit(fs[fs.len() - 1]));
    assert(t.drop_last() =~= base);
    assert(trim_end_char(base, 'Z') == base);
    assert(trim_end_char(t, 'Z') == base);
    lemma_digits_lack(fy, '.');
    lemma_digits_lack(fm, '.');
    lemma_digits_lack(fd, '.');
    lemma_digits_lack(fh, '.');
    lemma_digits_lack(fi, '.');
    lemma_digits_lack(fs, '.');
    lemma_no_char_concat(fy, seq!['-'], '.');
    lemma_no_char_concat(fy + seq!['-'], fm, '.');
    lemma_no_char_concat(fy + seq!['-'] + fm, seq!['-'], '.');
    lemma_no_char_concat(fy + seq!['-'] + fm + seq!['-'], fd, '.');
    lemma_no_char_concat(date, seq!['T'], '.');
    lemma_no_char_concat(fh, seq![':'], '.');
    lemma_no_char_concat(fh + seq![':'], fi, '.');
    lemma_no_char_concat(fh + seq![':'] + fi, seq![':'], '.');
    lemma_no_char_concat(fh + seq![':'] + fi + seq![':'], fs, '.');
    lemma_no_char_concat(date + seq!['T'], time, '.');
    lemma_index_absent(base, '.');
    assert(before_char(base, '.') == base);
    lemma_digits_lack(fy, 'T');
    lemma_digits_lack(fm, 'T');
    lemma_digits_lack(fd, 'T');
    lemma_no_char_concat(fy, seq!['-'], 'T');
    lemma_no_char_concat(fy + seq!['-'], fm, 'T');
    lemma_no_char_concat(fy + seq!['-'] + fm, seq!['-'], 'T');
    lemma_no_char_concat(fy + seq!['-'] + fm + seq!['-'], fd, 'T');
    lemma_split_once_at(date, 'T', time);
    lemma_digits_lack(fy, '-');
    lemma_digits_lack(fm, '-');
    assert(date =~= fy + seq!['-'] + (fm + seq!['-'] + fd));
    lemma_split_once_at(fy, '-', fm + seq!['-'] + fd);
    lemma_split_once_at(fm, '-', fd);
    lemma_digits_lack(fh, ':');
    lemma_digits_lack(fi, ':');
    assert(time =~= fh + seq![':'] + (fi + seq![':'] + fs));
    lemma_split_once_at(fh, ':', fi + seq![':'] + fs);
    lemma_split_once_at(fi, ':', fs);
}

/// The six fields of a rendered timestamp parse back to their values.
proof fn lemma_text_fields(y: int, m: int, d: int, hh: int, mi: int, ss: int)
    requires
        0 <= y <= i64::MAX && 0 <= m <= i64::MAX && 0 <= d <= i64::MAX,
        0 <= hh <= i64::MAX && 0 <= mi <= i64::MAX && 0 <= ss <= i64::MAX,
    ensures
        rfc_fields(timestamp_text(y, m, d, hh, mi, ss)) == Some(seq![y, m, d, hh, mi, ss]),
{
    lemma_text_pieces(y, m, d, hh, mi, ss);
    let pieces = seq![
        fmt_padded(y, 4),
        fmt_padded(m, 2),
        fmt_padded(d, 2),
        fmt_padded(hh, 2),
        fmt_padded(mi, 2),
        fmt_padded(ss, 2),
    ];
    lemma_padded_digits(y, 4);
    lemma_padded_digits(m, 2);
    lemma_padded_digits(d, 2);
    lemma_padded_digits(hh, 2);
    lemma_padded_digits(mi, 2);
    lemma_padded_digits(ss, 2);
    assert(forall|i: int| 0 <= i < 6 ==> (#[trigger] parse_i64_spec(pieces[i])).is_some());
    let f = Seq::new(6, |i: int| parse_i64_spec(pieces[i]).unwrap() as int);
    assert(f =~= seq![y, m, d, hh, mi, ss]);
}

/// A timestamp rendered by `format_utc_timestamp` reads back, through
/// `rfc3339_epoch`, as the instant it was rendered from, without overflow.
#[verifier::spinoff_prover]
pub proof fn law_timestamp_roundtrip(secs: int, t: Seq<char>)
    requires
        0 <= secs <= i64::MAX,
        is_timestamp_of(secs, t),
    ensures
        rfc_fits(t),
        rfc3339_epoch_spec(t) == Some(secs),
{
    let days = secs / 86400;
    let (y, m, d) = choose|y: int, m: int, d: int|
        #![trigger date_of_day(days, y, m, d)]
        y >= 1970 && date_of_day(days, y, m, d) && t == timestamp_text(
            y,
            m,
            d,
            (secs / 3600) % 24,
            (secs / 60) % 60,
            secs % 60,
        );
    let hh = (secs / 3600) % 24;
    let mi = (secs / 60) % 60;
    let ss = secs % 60;
    lemma_secs_decompose(secs);
    lemma_civil_fits(y, m, d);
    lemma_text_fields(y, m, d, hh, mi, ss);
    let f = seq![y, m, d, hh, mi, ss];
    assert(f[0] == y && f[1] == m && f[2] == d && f[3] == hh && f[4] == mi && f[5] == ss);
    assert(secs_of(f) == secs);
    assert(days * 86400 <= i64::MAX);
}

proof fn lemma_secs_decompose(secs: int)
    requires
        0 <= secs,
    ensures
        (secs / 86400) * 86400 + ((secs / 3600) % 24) * 3600 + ((secs / 60) % 60) * 60 + secs % 60
            == secs,
        0 <= (secs / 3600) % 24 < 24,
        0 <= (secs / 60) % 60 < 60,
        0 <= secs % 60 < 60,
{
    let a = secs / 60;
    let b = a / 60;
    assert(secs == a * 60 + secs % 60);
    assert(a == b * 60 + a % 60);
    assert(b == (b / 24) * 24 + b % 24);
    assert(secs / 3600 == b);
    assert(secs / 86400 == b / 24);
    assert(a % 60 == (secs / 60) % 60);
}

/// A date with a day number between 0 and `i64::MAX / 86400` is computed without overflow.
proof fn lemma_civil_fits(y: int, m: int, d: int)
    requires
        y >= 1970,
        valid_date(y, m, d),
        0 <= civil_days(y, m, d) <= i64::MAX / 86400,
    ensures
        civil_fits(y, m, d),
        y <= i64::MAX,
{
    lemma_civil_days_alt(y, m, d);
    let yp = shifted_year(y, m);
    assert(days_before_year(yp) >= 365 * yp);
    assert(y <= 30000000000000);
    lemma_era_days(yp);
}

// ── Day number → civil date ─────────────────────────────────────────────────

/// `i64::div_euclid`: the quotient of Euclidean division, for which the
/// remainder is never negative.
pub assume_specification[ <i64>::div_euclid ](lhs: i64, rhs: i64) -> (q: i64)
    requires
        rhs != 0,
        !(lhs == i64::MIN && rhs == -1),
    ensures
        q as int == lhs as int / rhs as int,
;

/// `i64::rem_euclid`: the least non-negative remainder of `lhs` modulo `rhs`.
pub assume_specification[ <i64>::rem_euclid ](lhs: i64, rhs: i64) -> (r: i64)
    requires
        rhs != 0,
        !(lhs == i64::MIN && rhs == -1),
    ensures
        r as int == lhs as int % rhs as int,
;

/// The year of era of the `doe`-th day of a 400-year era.
pub open spec fn year_of_era(doe: int) -> int {
    (doe - doe / 1460 + doe / 36524 - doe / 146096) / 365
}

/// Days of the era before March 1 of its `yoe`-th year.
pub open spec fn era_year_start(yoe: int) -> int {
    365 * yoe + yoe / 4 - yoe / 100
}

/// `year_of_era` picks the year whose span holds the day.
#[verifier::spinoff_prover]
proof fn lemma_year_of_era(doe: int)
    requires
        0 <= doe < 146097,
    ensures
        0 <= year_of_era(doe) <= 399,
        era_year_start(year_of_era(doe)) <= doe,
        doe < era_year_start(year_of_era(doe) + 1) + (year_of_era(doe) + 1) / 400,
{
}

/// Month and day of the `doy`-th day of a March-based year.
#[verifier::spinoff_prover]
proof fn lemma_month_day(doy: int, yl: int)
    requires
        0 <= doy < yl,
        yl == 365 || yl == 366,
    ensures
        ({
            let mp = (5 * doy + 2) / 153;
            let d = doy - (153 * mp + 2) / 5 + 1;
            let m = if mp < 10 {
                mp + 3
            } else {
                mp - 9
            };
            &&& 0 <= mp <= 11
            &&& 1 <= m <= 12
            &&& 1 <= d
            &&& d <= (if m == 2 {
                yl - 337
            } else if m == 4 || m == 6 || m == 9 || m == 11 {
                30
            } else {
                31
            })
            &&& day_of_year(m, d) == doy
        }),
{
    let mp = (5 * doy + 2) / 153;
    assert(153 * mp <= 5 * doy + 2 < 153 * mp + 153);
    assert(0 <= mp <= 11);
}

/// The steps of the day-number-to-date computation.
pub open spec fn civil_steps(z: int) -> (int, int, int) {
    let zz = z + 719468;
    let era = zz / 146097;
    let doe = zz % 146097;
    let yoe = year_of_era(doe);
    let doy = doe - era_year_start(yoe);
    let mp = (5 * doy + 2) / 153;
    let d = doy - (153 * mp + 2) / 5 + 1;
    let m = if mp < 10 {
        mp + 3
    } else {
        mp - 9
    };
    (if m <= 2 {
        yoe + era * 400 + 1
    } else {
        yoe + era * 400
    }, m, d)
}

#[verifier::spinoff_prover]
proof fn lemma_civil_steps(z: int)
    ensures
        valid_date(civil_steps(z).0, civil_steps(z).1, civil_steps(z).2),
        civil_days(civil_steps(z).0, civil_steps(z).1, civil_steps(z).2) == z,
{
    let zz = z + 719468;
    let era = zz / 146097;
    let doe = zz % 146097;
    lemma_year_of_era(doe);
    let yoe = year_of_era(doe);
    let doy = doe - era_year_start(yoe);
    let y0 = yoe + era * 400;
    lemma_leap_shift(yoe, era);
    let yl = year_len(y0 + 1);
    lemma_month_day(doy, yl);
    let (y, m, d) = civil_steps(z);
    lemma_civil_steps_days(z, y, m, d, era, doe, yoe, doy, y0);
}

/// Leap years repeat every 400 years.
proof fn lemma_leap_shift(yoe: int, era: int)
    requires
        0 <= yoe <= 399,
    ensures
        era_year_start(yoe + 1) + (yoe + 1) / 400 - era_year_start(yoe) == year_len(
            yoe + era * 400 + 1,
        ),
{
    let x = yoe + 1;
    vstd::arithmetic::div_mod::lemma_mod_multiples_vanish(era * 100, x, 4);
    vstd::arithmetic::div_mod::lemma_mod_multiples_vanish(era * 4, x, 100);
    vstd::arithmetic::div_mod::lemma_mod_multiples_vanish(era, x, 400);
    assert(4 * (era * 100) + x == x + era * 400);
    assert(100 * (era * 4) + x == x + era * 400);
    assert(400 * era + x == x + era * 400);
}

proof fn lemma_civil_steps_days(
    z: int,
    y: int,
    m: int,
    d: int,
    era: int,
    doe: int,
    yoe: int,
    doy: int,
    y0: int,
)
    requires
        era == (z + 719468) / 146097,
        doe == (z + 719468) % 146097,
        yoe == year_of_era(doe),
        0 <= yoe <= 399,
        doy == doe - era_year_start(yoe),
        y0 == yoe + era * 400,
        (y, m, d) == civil_steps(z),
        1 <= m <= 12,
        day_of_year(m, d) == doy,
    ensures
        civil_days(y, m, d) == z,
{
    let yp = shifted_year(y, m);
    assert(yp == y0);
    lemma_civil_days_alt(y, m, d);
    lemma_era_days(yp);
    assert(era_of(yp) == era);
}

/// Days since 1970-01-01 → `(year, month, day)`.
#[verifier::spinoff_prover]
pub fn civil_from_days(z: i64) -> (r: Option<(i64, i64, i64)>)
    requires
        z <= i64::MAX - 719468,
    ensures
        r matches Some((y, m, d)) && valid_date(y as int, m as int, d as int) && civil_days(
            y as int,
            m as int,
            d as int,
        ) == z && (y as int, m as int, d as int) == civil_steps(z as int),
{
    proof {
        lemma_civil_steps(z as int);
        lemma_year_of_era((z + 719468) % 146097);
    }
    let z = z + 719_468;
    let era = z.div_euclid(146_097);
    let doe = z.rem_euclid(146_097);
    let yoe = (doe - doe / 1460 + doe / 36_524 - doe / 146_096) / 365;
    let y = yoe + era * 400;
    let doy = doe - (365 * yoe + yoe / 4 - yoe / 100);
    assert(0 <= doy <= 366);
    let mp = (5 * doy + 2) / 153;
    let d = doy - (153 * mp + 2) / 5 + 1;
    let m = if mp < 10 {
        mp + 3
    } else {
        mp - 9
    };
    let y = if m <= 2 {
        y + 1
    } else {
        y
    };
    assert((y as int, m as int, d as int) == civil_steps(z - 719468));
    Some((y, m, d))
}

/// The `YYYY-MM-DD` date (UTC) of a Unix timestamp.
pub open spec fn is_date_text_of(ts: int, t: Seq<char>) -> bool {
    exists|y: int, m: int, d: int|
        #![trigger date_of_day(ts / 86400, y, m, d)]
        date_of_day(ts / 86400, y, m, d) && t == fmt_padded(y, 4) + seq!['-'] + fmt_padded(m, 2)
            + seq!['-'] + fmt_padded(d, 2)
}

/// The `YYYY-MM-DD` text of the day of a timestamp.
#[verifier::opaque]
pub open spec fn epoch_date_spec(ts: int) -> Seq<char> {
    let (y, m, d) = civil_steps(ts / 86400);
    fmt_padded(y, 4) + seq!['-'] + fmt_padded(m, 2) + seq!['-'] + fmt_padded(d, 2)
}

/// Convert a Unix epoch timestamp (seconds) to `YYYY-MM-DD` (UTC); used for
/// `<release timestamp="...">` entries that carry no `date` attribute.
pub fn epoch_to_date(ts: i64) -> (r: Option<String>)
    ensures
        r matches Some(t) && is_date_text_of(ts as int, t@) && t@ == epoch_date_spec(ts as int),
{
    let days = ts.div_euclid(86_400);
    match civil_from_days(days) {
        Some((y, m, d)) => {
            let mut out: Vec<char> = Vec::new();
            assert(1 <= m && 1 <= d);
            push_all(&mut out, &fmt_i64_padded(y, 4));
            out.push('-');
            push_all(&mut out, &fmt_i64_padded(m, 2));
            out.push('-');
            push_all(&mut out, &fmt_i64_padded(d, 2));
            assert(date_of_day(ts as int / 86400, y as int, m as int, d as int));
            proof {
                reveal(epoch_date_spec);
            }
            assert(out@ =~= fmt_padded(y as int, 4) + seq!['-'] + fmt_padded(m as int, 2) + seq![
                '-',
            ] + fmt_padded(d as int, 2));
            Some(string_of(&out))
        },
        None => None,
    }
}

/// Turning a day number into a date and back gives the day number again.
pub proof fn law_civil_roundtrip(z: int, y: int, m: int, d: int)
    requires
        date_of_day(z, y, m, d),
    ensures
        days_from_civil_spec(y, m, d) == Some(z),
{
}

/// The calendar day after a date.
pub open spec fn next_day(y: int, m: int, d: int) -> (int, int, int) {
    if d < month_len(y, m) {
        (y, m, d + 1)
    } else if m < 12 {
        (y, m + 1, 1)
    } else {
        (y + 1, 1, 1)
    }
}

proof fn lemma_year_start_mono(a: int, b: int)
    requires
        a <= b,
    ensures
        civil_days(a, 1, 1) <= civil_days(b, 1, 1),
    decreases b - a,
{
    if a < b {
        lemma_next_year(b - 1);
        lemma_year_start_mono(a, b - 1);
    }
}

proof fn lemma_month_start_mono(y: int, a: int, b: int)
    requires
        1 <= a <= b <= 12,
    ensures
        civil_days(y, a, 1) <= civil_days(y, b, 1),
    decreases b - a,
{
    if a < b {
        lemma_next_month(y, b - 1);
        lemma_month_start_mono(y, a, b - 1);
    }
}

/// A valid date falls in its month, and its month in its year.
proof fn lemma_date_bounds(y: int, m: int, d: int)
    requires
        valid_date(y, m, d),
    ensures
        civil_days(y, m, 1) <= civil_days(y, m, d),
        m < 12 ==> civil_days(y, m, d) < civil_days(y, m + 1, 1),
        civil_days(y, 1, 1) <= civil_days(y, m, d) < civil_days(y + 1, 1, 1),
{
    lemma_day_offset(y, m, d);
    lemma_month_start_mono(y, 1, m);
    lemma_dec_to_jan(y);
    lemma_day_offset(y, 12, 31);
    if m < 12 {
        lemma_next_month(y, m);
        lemma_month_start_mono(y, m + 1, 12);
    }
}

/// Two valid dates with the same day number are the same date.
proof fn lemma_civil_days_injective(y1: int, m1: int, d1: int, y2: int, m2: int, d2: int)
    requires
        valid_date(y1, m1, d1),
        valid_date(y2, m2, d2),
        civil_days(y1, m1, d1) == civil_days(y2, m2, d2),
    ensures
        y1 == y2 && m1 == m2 && d1 == d2,
{
    lemma_date_bounds(y1, m1, d1);
    lemma_date_bounds(y2, m2, d2);
    if y1 < y2 {
        lemma_year_start_mono(y1 + 1, y2);
    } else if y2 < y1 {
        lemma_year_start_mono(y2 + 1, y1);
    } else if m1 < m2 {
        lemma_month_start_mono(y1, m1 + 1, m2);
    } else if m2 < m1 {
        lemma_month_start_mono(y1, m2 + 1, m1);
    } else {
        lemma_day_offset(y1, m1, d1);
        lemma_day_offset(y2, m2, d2);
    }
}

/// The date of day number `z + 1` is the calendar day after the date of
/// day `z`: for the dates `civil_from_days` gives (valid, with those day
/// numbers), the second is `next_day` of the first.
pub proof fn law_civil_next_day(y: int, m: int, d: int, y2: int, m2: int, d2: int)
    requires
        valid_date(y, m, d),
        valid_date(y2, m2, d2),
        civil_days(y2, m2, d2) == civil_days(y, m, d) + 1,
    ensures
        (y2, m2, d2) == next_day(y, m, d),
{
    let (ny, nm, nd) = next_day(y, m, d);
    lemma_day_offset(y, m, d);
    if d < month_len(y, m) {
        lemma_day_offset(y, m, d + 1);
    } else if m < 12 {
        lemma_next_month(y, m);
    } else {
        lemma_dec_to_jan(y);
    }
    assert(valid_date(ny, nm, nd));
    assert(civil_days(ny, nm, nd) == civil_days(y, m, d) + 1);
    lemma_civil_days_injective(y2, m2, d2, ny, nm, nd);
}

pub open spec fn ten_pow(k: nat) -> nat
    decreases k,
{
    if k == 0 {
        1
    } else {
        10 * ten_pow((k - 1) as nat)
    }
}

proof fn lemma_dec_digits_len(n: nat, k: nat)
    requires
        k >= 1,
        n < ten_pow(k),
    ensures
        dec_digits(n).len() <= k,
    decreases k,
{
    if n >= 10 {
        assert(k >= 2) by {
            if k == 1 {
                assert(ten_pow(1) == 10) by {
                    reveal_with_fuel(ten_pow, 2);
                }
            }
        }
        assert(n / 10 < ten_pow((k - 1) as nat));
        lemma_dec_digits_len(n / 10, (k - 1) as nat);
    }
}

proof fn lemma_padded_len(v: int, w: nat)
    requires
        w >= 1,
        0 <= v < ten_pow(w),
    ensures
        fmt_padded(v, w).len() == w,
{
    lemma_dec_digits_len(v as nat, w);
}

/// A rendered timestamp of a year up to 9999 has the form
/// `YYYY-MM-DDTHH:MM:SSZ`: twenty characters.
pub proof fn law_timestamp_form(secs: int, t: Seq<char>)
    requires
        0 <= secs < 253402300800,
        is_timestamp_of(secs, t),
    ensures
        t.len() == 20,
{
    let days = secs / 86400;
    let (y, m, d) = choose|y: int, m: int, d: int|
        #![trigger date_of_day(days, y, m, d)]
        y >= 1970 && date_of_day(days, y, m, d) && t == timestamp_text(
            y,
            m,
            d,
            (secs / 3600) % 24,
            (secs / 60) % 60,
            secs % 60,
        );
    lemma_date_bounds(y, m, d);
    assert(civil_days(10000, 1, 1) == 2932897);
    if y >= 10000 {
        lemma_year_start_mono(10000, y);
    }
    assert(ten_pow(2) == 100 && ten_pow(4) == 10000) by {
        reveal_with_fuel(ten_pow, 5);
    }
    lemma_padded_len(y, 4);
    lemma_padded_len(m, 2);
    lemma_padded_len(d, 2);
    lemma_padded_len((secs / 3600) % 24, 2);
    lemma_padded_len((secs / 60) % 60, 2);
    lemma_padded_len(secs % 60, 2);
}

} // verus!
