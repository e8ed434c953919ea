//! Lexical layer: locating the date anchor and the event stamps.
//!
//! The anchor token is `YYYY/MM/DD` (ten characters).  A stamp token is
//! `HH:MM:SS.mmm` followed by a sign (`+`, `-`, or the legacy `,`) and four
//! digits (seventeen characters).  Stamps are collected leftmost-first and
//! without overlap, in document order; only the first anchor match counts.

use vstd::prelude::*;
use vstd::string::StrSliceExecFns;

verus! {

/// An ASCII decimal digit.
pub open spec fn is_digit(c: char) -> bool {
    48 <= c as int <= 57
}

/// Numeric value of an ASCII decimal digit.
pub open spec fn digit_val(c: char) -> int {
    c as int - 48
}

/// A date anchor `YYYY/MM/DD` starts at position `i`.
pub open spec fn anchor_at(s: Seq<char>, i: int) -> bool {
    &&& 0 <= i
    &&& i + 10 <= s.len()
    &&& is_digit(s[i])
    &&& is_digit(s[i + 1])
    &&& is_digit(s[i + 2])
    &&& is_digit(s[i + 3])
    &&& s[i + 4] == '/'
    &&& is_digit(s[i + 5])
    &&& is_digit(s[i + 6])
    &&& s[i + 7] == '/'
    &&& is_digit(s[i + 8])
    &&& is_digit(s[i + 9])
}

/// A stamp sign: `+`, `-`, or the legacy `,` seen in old logs.
pub open spec fn is_sign(c: char) -> bool {
    c == '+' || c == '-' || c == ','
}

/// An event stamp `HH:MM:SS.mmm<sign>HHMM` starts at position `i`.
pub open spec fn stamp_at(s: Seq<char>, i: int) -> bool {
    &&& 0 <= i
    &&& i + 17 <= s.len()
    &&& is_digit(s[i])
    &&& is_digit(s[i + 1])
    &&& s[i + 2] == ':'
    &&& is_digit(s[i + 3])
    &&& is_digit(s[i + 4])
    &&& s[i + 5] == ':'
    &&& is_digit(s[i + 6])
    &&& is_digit(s[i + 7])
    &&& s[i + 8] == '.'
    &&& is_digit(s[i + 9])
    &&& is_digit(s[i + 10])
    &&& is_digit(s[i + 11])
    &&& is_sign(s[i + 12])
    &&& is_digit(s[i + 13])
    &&& is_digit(s[i + 14])
    &&& is_digit(s[i + 15])
    &&& is_digit(s[i + 16])
}

/// Position of the first anchor at or after `i`, if any.
pub open spec fn first_anchor_from(s: Seq<char>, i: int) -> Option<int>
    decreases s.len() - i,
{
    if i + 10 > s.len() {
        None
    } else if anchor_at(s, i) {
        Some(i)
    } else {
        first_anchor_from(s, i + 1)
    }
}

/// Position of the first anchor in the document, if any.
pub open spec fn first_anchor(s: Seq<char>) -> Option<int> {
    first_anchor_from(s, 0)
}

/// The first anchor position really carries an anchor, and no earlier
/// position does.
pub proof fn lemma_first_anchor_props(s: Seq<char>)
    ensures
        first_anchor(s) matches Some(a) ==> anchor_at(s, a) && forall|j: int|
            0 <= j < a ==> !(#[trigger] anchor_at(s, j)),
{
    lemma_first_anchor_from_props(s, 0);
}

/// Inductive step for [`lemma_first_anchor_props`], scanning from `i`.
proof fn lemma_first_anchor_from_props(s: Seq<char>, i: int)
    requires
        0 <= i,
    ensures
        first_anchor_from(s, i) matches Some(a) ==> anchor_at(s, a) && i <= a && forall|j: int|
            i <= j < a ==> !(#[trigger] anchor_at(s, j)),
    decreases s.len() - i,
{
    if i + 10 > s.len() {
    } else if anchor_at(s, i) {
    } else {
        lemma_first_anchor_from_props(s, i + 1);
    }
}

/// Start positions of all stamps at or after `i`, leftmost-first and
/// non-overlapping: a match consumes its seventeen characters.
pub open spec fn stamp_starts_from(s: Seq<char>, i: int) -> Seq<int>
    decreases s.len() - i,
{
    if i + 17 > s.len() {
        Seq::empty()
    } else if stamp_at(s, i) {
        seq![i] + stamp_starts_from(s, i + 17)
    } else {
        stamp_starts_from(s, i + 1)
    }
}

/// Start positions of all stamps in the document, in document order.
pub open spec fn stamp_starts(s: Seq<char>) -> Seq<int> {
    stamp_starts_from(s, 0)
}

/// Every recorded stamp start really carries a stamp, lies at or after `i`,
/// and leaves room for the token.
proof fn lemma_stamp_starts_from_props(s: Seq<char>, i: int)
    ensures
        forall|k: int|
            0 <= k < stamp_starts_from(s, i).len() ==> stamp_at(
                s,
                #[trigger] stamp_starts_from(s, i)[k],
            ) && i <= stamp_starts_from(s, i)[k] && stamp_starts_from(s, i)[k] + 17 <= s.len(),
    decreases s.len() - i,
{
    if i + 17 > s.len() {
    } else if stamp_at(s, i) {
        lemma_stamp_starts_from_props(s, i + 17);
        let rest = stamp_starts_from(s, i + 17);
        assert forall|k: int| 0 <= k < stamp_starts_from(s, i).len() implies stamp_at(
            s,
            #[trigger] stamp_starts_from(s, i)[k],
        ) && i <= stamp_starts_from(s, i)[k] && stamp_starts_from(s, i)[k] + 17 <= s.len() by {
            if k == 0 {
                assert(stamp_starts_from(s, i)[k] == i);
            } else {
                assert(stamp_starts_from(s, i)[k] == rest[k - 1]);
            }
        }
    } else {
        lemma_stamp_starts_from_props(s, i + 1);
        assert forall|k: int| 0 <= k < stamp_starts_from(s, i).len() implies stamp_at(
            s,
            #[trigger] stamp_starts_from(s, i)[k],
        ) && i <= stamp_starts_from(s, i)[k] && stamp_starts_from(s, i)[k] + 17 <= s.len() by {
            assert(stamp_starts_from(s, i)[k] == stamp_starts_from(s, i + 1)[k]);
        }
    }
}

/// Every stamp start in the document carries a stamp and is in bounds.
pub proof fn lemma_stamp_starts_props(s: Seq<char>)
    ensures
        forall|k: int|
            0 <= k < stamp_starts(s).len() ==> stamp_at(s, #[trigger] stamp_starts(s)[k]) && 0
                <= stamp_starts(s)[k] && stamp_starts(s)[k] + 17 <= s.len(),
{
    lemma_stamp_starts_from_props(s, 0);
}

/// True when the ten characters at `i` form a date anchor.
fn check_anchor_at(text: &str, i: usize) -> (b: bool)
    requires
        i + 10 <= text@.len(),
        text@.len() <= usize::MAX,
    ensures
        b == anchor_at(text@, i as int),
{
    digit_at(text, i) && digit_at(text, i + 1) && digit_at(text, i + 2) && digit_at(text, i + 3)
        && text.get_char(i + 4) == '/' && digit_at(text, i + 5) && digit_at(text, i + 6)
        && text.get_char(i + 7) == '/' && digit_at(text, i + 8) && digit_at(text, i + 9)
}

/// True when the character at `i` is an ASCII decimal digit.
fn digit_at(text: &str, i: usize) -> (b: bool)
    requires
        i < text@.len(),
    ensures
        b == is_digit(text@[i as int]),
{
    let c = text.get_char(i);
    let v: u32 = c as u32;
    48 <= v && v <= 57
}

/// True when the seventeen characters at `i` form an event stamp.
fn check_stamp_at(text: &str, i: usize) -> (b: bool)
    requires
        i + 17 <= text@.len(),
        text@.len() <= usize::MAX,
    ensures
        b == stamp_at(text@, i as int),
{
    let sign = text.get_char(i + 12);
    digit_at(text, i) && digit_at(text, i + 1) && text.get_char(i + 2) == ':' && digit_at(
        text,
        i + 3,
    ) && digit_at(text, i + 4) && text.get_char(i + 5) == ':' && digit_at(text, i + 6) && digit_at(
        text,
        i + 7,
    ) && text.get_char(i + 8) == '.' && digit_at(text, i + 9) && digit_at(text, i + 10) && digit_at(
        text,
        i + 11,
    ) && (sign == '+' || sign == '-' || sign == ',') && digit_at(text, i + 13) && digit_at(
        text,
        i + 14,
    ) && digit_at(text, i + 15) && digit_at(text, i + 16)
}

/// Scan for the first date anchor in the document.
pub fn find_anchor(text: &str) -> (r: Option<usize>)
    ensures
        match r {
            Some(a) => first_anchor(text@) == Some(a as int),
            None => first_anchor(text@) is None,
        },
{
    let n: usize = text.unicode_len();
    if n < 10 {
        return None;
    }
    let mut i: usize = 0;
    while i <= n - 10
        invariant
            n == text@.len(),
            10 <= n,
            i <= n,
            first_anchor(text@) == first_anchor_from(text@, i as int),
        decreases n - i,
    {
        if check_anchor_at(text, i) {
            return Some(i);
        }
        i = i + 1;
    }
    None
}

/// Scan for every stamp in the document, leftmost-first and non-overlapping.
pub fn find_stamps(text: &str) -> (r: Vec<usize>)
    ensures
        r@.map_values(|x: usize| x as int) == stamp_starts(text@),
        17 * r@.len() <= text@.len(),
{
    let n: usize = text.unicode_len();
    let mut starts: Vec<usize> = Vec::new();
    if n < 17 {
        assert(starts@.map_values(|x: usize| x as int) =~= stamp_starts(text@));
        return starts;
    }
    let mut p: usize = 0;
    while p <= n - 17
        invariant
            n == text@.len(),
            17 <= n,
            p <= n,
            17 * starts@.len() <= p,
            stamp_starts(text@) =~= starts@.map_values(|x: usize| x as int) + stamp_starts_from(
                text@,
                p as int,
            ),
        decreases n - p,
    {
        if check_stamp_at(text, p) {
            starts.push(p);
            p = p + 17;
        } else {
            p = p + 1;
        }
        assert(stamp_starts(text@) =~= starts@.map_values(|x: usize| x as int)
            + stamp_starts_from(text@, p as int));
    }
    assert(starts@.map_values(|x: usize| x as int) =~= stamp_starts(text@));
    starts
}

} // verus!
