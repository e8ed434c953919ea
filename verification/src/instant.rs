//! Reconstruction: anchor + stamp -> absolute instant in UTC milliseconds.
//!
//! The calendar arithmetic (validity of a year/month/day, days since the
//! epoch, leap years) is delegated to chrono behind one trusted wrapper whose
//! result is named by the uninterpreted function [`civil_ms`].  Everything
//! around it is verified: reading the digit fields, the offset conversion,
//! and the legacy `-0700` correction.
//!
//! Offset rule (mirroring the fixed `±HHMM` format): the sign must be `+` or
//! `-` (the legacy `,` never parses), the minute part must be below 60, and
//! the whole offset must be below 24 hours.  A stamp whose second field reads
//! `60` is a leap second and stands for second 59 plus one extra second of
//! milliseconds.
//!
//! The legacy exception: a stamp whose offset suffix is exactly `-0700` gets
//! seven hours added on top of the standard offset conversion (a historical
//! logging defect; the raw offset field of such entries is not to be trusted
//! literally).

use crate::scan::anchor_at;
use crate::scan::digit_val;
use crate::scan::is_digit;
use crate::scan::stamp_at;
use vstd::prelude::*;
use vstd::string::StrSliceExecFns;

verus! {

/// Value of the two digits at `i`.
pub open spec fn num2(s: Seq<char>, i: int) -> int {
    10 * digit_val(s[i]) + digit_val(s[i + 1])
}

/// Value of the three digits at `i`.
pub open spec fn num3(s: Seq<char>, i: int) -> int {
    100 * digit_val(s[i]) + 10 * digit_val(s[i + 1]) + digit_val(s[i + 2])
}

/// Value of the four digits at `i`.
pub open spec fn num4(s: Seq<char>, i: int) -> int {
    1000 * digit_val(s[i]) + 100 * digit_val(s[i + 1]) + 10 * digit_val(s[i + 2]) + digit_val(
        s[i + 3],
    )
}

/// The stamp at `p` carries the legacy offset suffix `-0700`.
pub open spec fn legacy_suffix(s: Seq<char>, p: int) -> bool {
    &&& s[p + 12] == '-'
    &&& s[p + 13] == '0'
    &&& s[p + 14] == '7'
    &&& s[p + 15] == '0'
    &&& s[p + 16] == '0'
}

/// Milliseconds since 1970-01-01T00:00:00 UTC of the civil datetime
/// `y-mo-d h:mi:sec.ms` taken as UTC, or `None` when the fields do not form
/// a valid datetime.  Left uninterpreted: the calendar arithmetic is
/// chrono's, named here so that contracts can speak of its result.
pub uninterp spec fn civil_ms(y: u32, mo: u32, d: u32, h: u32, mi: u32, sec: u32, ms: u32) -> Option<
    i64,
>;

/// Relies on chrono: `NaiveDate::from_ymd_opt` (None exactly on an invalid
/// calendar date), `NaiveDate::and_hms_milli_opt` (None exactly when hour,
/// minute, second, millisecond are out of range; a millisecond part of
/// 1000..=1999 is accepted with second 59 as a leap second), and
/// `NaiveDateTime::and_utc().timestamp_millis()` (non-leap milliseconds
/// since 1970-01-01 UTC).  The result depends on the arguments alone.  The
/// bounds follow from the year range: 0000-01-01T00:00:00.000 is
/// -62_167_219_200_000 and 9999-12-31T23:59:59 with a leap second of 1999
/// milliseconds is 253_402_300_800_999.
#[verifier::external_body]
fn chrono_civil_ms(y: u32, mo: u32, d: u32, h: u32, mi: u32, sec: u32, ms: u32) -> (r: Option<i64>)
    requires
        y <= 9999,
        mo <= 99,
        d <= 99,
        h <= 99,
        mi <= 99,
        sec <= 99,
        ms <= 1999,
    ensures
        r == civil_ms(y, mo, d, h, mi, sec, ms),
        r matches Some(v) ==> -62_167_219_200_000 <= v <= 253_402_300_801_000,
{
    match chrono::NaiveDate::from_ymd_opt(y as i32, mo, d) {
        Some(date) => match date.and_hms_milli_opt(h, mi, sec, ms) {
            Some(dt) => Some(dt.and_utc().timestamp_millis()),
            None => None,
        },
        None => None,
    }
}

/// The UTC instant, in epoch milliseconds, of the stamp at `p` combined with
/// the anchor at `a`, or `None` when the combination does not parse.
pub open spec fn stamp_instant(s: Seq<char>, a: int, p: int) -> Option<int> {
    let sign = s[p + 12];
    let oh = num2(s, p + 13);
    let om = num2(s, p + 15);
    if sign != '+' && sign != '-' {
        None
    } else if om >= 60 || oh >= 24 {
        None
    } else {
        let sec = num2(s, p + 6);
        let ms = num3(s, p + 9);
        let sec_n = if sec == 60 {
            59
        } else {
            sec
        };
        let ms_n = if sec == 60 {
            ms + 1000
        } else {
            ms
        };
        match civil_ms(
            num4(s, a) as u32,
            num2(s, a + 5) as u32,
            num2(s, a + 8) as u32,
            num2(s, p) as u32,
            num2(s, p + 3) as u32,
            sec_n as u32,
            ms_n as u32,
        ) {
            None => None,
            Some(c) => {
                let off_min = if sign == '-' {
                    -(oh * 60 + om)
                } else {
                    oh * 60 + om
                };
                let corr: int = if legacy_suffix(s, p) {
                    25_200_000
                } else {
                    0
                };
                Some(c - off_min * 60_000 + corr)
            },
        }
    }
}

/// Lowest epoch-millisecond value a reconstructed instant can take.
pub open spec fn instant_lo() -> int {
    -62_300_000_000_000
}

/// Highest epoch-millisecond value a reconstructed instant can take.
pub open spec fn instant_hi() -> int {
    253_500_000_000_000
}

/// Read the digit at `i` as its numeric value.
fn read_digit(text: &str, i: usize) -> (d: u32)
    requires
        i < text@.len(),
        text@.len() <= usize::MAX,
        is_digit(text@[i as int]),
    ensures
        d as int == digit_val(text@[i as int]),
        d <= 9,
{
    let c: char = text.get_char(i);
    (c as u32) - 48
}

/// Read the two digits at `i` as a number.
fn read_num2(text: &str, i: usize) -> (v: u32)
    requires
        i + 2 <= text@.len(),
        text@.len() <= usize::MAX,
        is_digit(text@[i as int]),
        is_digit(text@[i as int + 1]),
    ensures
        v as int == num2(text@, i as int),
        v <= 99,
{
    10 * read_digit(text, i) + read_digit(text, i + 1)
}

/// Read the three digits at `i` as a number.
fn read_num3(text: &str, i: usize) -> (v: u32)
    requires
        i + 3 <= text@.len(),
        text@.len() <= usize::MAX,
        is_digit(text@[i as int]),
        is_digit(text@[i as int + 1]),
        is_digit(text@[i as int + 2]),
    ensures
        v as int == num3(text@, i as int),
        v <= 999,
{
    100 * read_digit(text, i) + 10 * read_digit(text, i + 1) + read_digit(text, i + 2)
}

/// Read the four digits at `i` as a number.
fn read_num4(text: &str, i: usize) -> (v: u32)
    requires
        i + 4 <= text@.len(),
        text@.len() <= usize::MAX,
        is_digit(text@[i as int]),
        is_digit(text@[i as int + 1]),
        is_digit(text@[i as int + 2]),
        is_digit(text@[i as int + 3]),
    ensures
        v as int == num4(text@, i as int),
        v <= 9999,
{
    1000 * read_digit(text, i) + 100 * read_digit(text, i + 1) + 10 * read_digit(text, i + 2)
        + read_digit(text, i + 3)
}

/// Reconstruct the UTC instant of the stamp at `p` under the anchor at `a`.
pub fn reconstruct(text: &str, a: usize, p: usize) -> (r: Option<i64>)
    requires
        text@.len() <= usize::MAX,
        anchor_at(text@, a as int),
        stamp_at(text@, p as int),
    ensures
        match r {
            Some(v) => stamp_instant(text@, a as int, p as int) == Some(v as int) && instant_lo()
                <= v <= instant_hi(),
            None => stamp_instant(text@, a as int, p as int) is None,
        },
{
    let y = read_num4(text, a);
    let mo = read_num2(text, a + 5);
    let d = read_num2(text, a + 8);
    let h = read_num2(text, p);
    let mi = read_num2(text, p + 3);
    let sec = read_num2(text, p + 6);
    let ms = read_num3(text, p + 9);
    let sign: char = text.get_char(p + 12);
    let oh = read_num2(text, p + 13);
    let om = read_num2(text, p + 15);
    if sign != '+' && sign != '-' {
        return None;
    }
    if om >= 60 || oh >= 24 {
        return None;
    }
    let sec_n: u32 = if sec == 60 {
        59
    } else {
        sec
    };
    let ms_n: u32 = if sec == 60 {
        ms + 1000
    } else {
        ms
    };
    match chrono_civil_ms(y, mo, d, h, mi, sec_n, ms_n) {
        None => None,
        Some(c) => {
            let mins: i64 = (oh * 60 + om) as i64;
            let off_min: i64 = if sign == '-' {
                -mins
            } else {
                mins
            };
            let base: i64 = c - off_min * 60_000;
            let legacy: bool = sign == '-' && text.get_char(p + 13) == '0' && text.get_char(p + 14)
                == '7' && text.get_char(p + 15) == '0' && text.get_char(p + 16) == '0';
            let v: i64 = if legacy {
                base + 25_200_000
            } else {
                base
            };
            Some(v)
        },
    }
}

/// The legacy-offset law: reconstructing a stamp whose offset suffix is the
/// legacy `-0700` marker yields the plain `+0000` reading of the same anchor
/// and wall-clock fields shifted by fourteen hours — seven from the standard
/// offset conversion and seven more from the documented correction — and the
/// two parse or fail together.
pub proof fn lemma_legacy_offset_correction(
    s1: Seq<char>,
    a1: int,
    p1: int,
    s2: Seq<char>,
    a2: int,
    p2: int,
)
    requires
        anchor_at(s1, a1),
        stamp_at(s1, p1),
        anchor_at(s2, a2),
        stamp_at(s2, p2),
        forall|k: int| 0 <= k < 10 ==> #[trigger] s1[a1 + k] == s2[a2 + k],
        forall|k: int| 0 <= k < 12 ==> #[trigger] s1[p1 + k] == s2[p2 + k],
        legacy_suffix(s1, p1),
        s2[p2 + 12] == '+',
        s2[p2 + 13] == '0',
        s2[p2 + 14] == '0',
        s2[p2 + 15] == '0',
        s2[p2 + 16] == '0',
    ensures
        (stamp_instant(s1, a1, p1) is Some) == (stamp_instant(s2, a2, p2) is Some),
        stamp_instant(s1, a1, p1) matches Some(v1) ==> stamp_instant(s2, a2, p2) == Some(
            v1 - 50_400_000,
        ),
{
    assert(s1[a1 + 0] == s2[a2 + 0]);
    assert(s1[a1 + 1] == s2[a2 + 1]);
    assert(s1[a1 + 2] == s2[a2 + 2]);
    assert(s1[a1 + 3] == s2[a2 + 3]);
    assert(s1[a1 + 5] == s2[a2 + 5]);
    assert(s1[a1 + 6] == s2[a2 + 6]);
    assert(s1[a1 + 8] == s2[a2 + 8]);
    assert(s1[a1 + 9] == s2[a2 + 9]);
    assert(s1[p1 + 0] == s2[p2 + 0]);
    assert(s1[p1 + 1] == s2[p2 + 1]);
    assert(s1[p1 + 3] == s2[p2 + 3]);
    assert(s1[p1 + 4] == s2[p2 + 4]);
    assert(s1[p1 + 6] == s2[p2 + 6]);
    assert(s1[p1 + 7] == s2[p2 + 7]);
    assert(s1[p1 + 9] == s2[p2 + 9]);
    assert(s1[p1 + 10] == s2[p2 + 10]);
    assert(s1[p1 + 11] == s2[p2 + 11]);
    assert(num4(s1, a1) == num4(s2, a2));
    assert(num2(s1, a1 + 5) == num2(s2, a2 + 5));
    assert(num2(s1, a1 + 8) == num2(s2, a2 + 8));
    assert(num2(s1, p1) == num2(s2, p2));
    assert(num2(s1, p1 + 3) == num2(s2, p2 + 3));
    assert(num2(s1, p1 + 6) == num2(s2, p2 + 6));
    assert(num3(s1, p1 + 9) == num3(s2, p2 + 9));
    assert(num2(s1, p1 + 13) == 7);
    assert(num2(s1, p1 + 15) == 0);
    assert(num2(s2, p2 + 13) == 0);
    assert(num2(s2, p2 + 15) == 0);
}

} // verus!
