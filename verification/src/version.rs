//! Version strings of migration units.
//!
//! A version is a timestamp in the fixed, zero-padded textual form
//! `YYYY-MM-DD-HHMMSS`. Because every field is zero-padded to a fixed
//! width, lexicographic order on version strings coincides with
//! chronological order, so the catalog is sorted by plain string
//! comparison.

use vstd::prelude::*;

verus! {

/// An ASCII decimal digit.
pub open spec fn is_digit(c: char) -> bool {
    48 <= c as int && c as int <= 57
}

/// Numeric value of an ASCII decimal digit.
pub open spec fn digit_val(c: char) -> int {
    c as int - 48
}

/// The two-digit number written at positions `i` and `i + 1`.
pub open spec fn two_digits(s: Seq<char>, i: int) -> int {
    10 * digit_val(s[i]) + digit_val(s[i + 1])
}

/// The four-digit number written at positions `i` through `i + 3`.
pub open spec fn four_digits(s: Seq<char>, i: int) -> int {
    1000 * digit_val(s[i]) + 100 * digit_val(s[i + 1]) + 10 * digit_val(s[i + 2]) + digit_val(
        s[i + 3],
    )
}

pub open spec fn is_leap_year(y: int) -> bool {
    y % 4 == 0 && (y % 100 != 0 || y % 400 == 0)
}

pub open spec fn days_in_month(y: int, m: int) -> int {
    if m == 2 {
        if is_leap_year(y) {
            29
        } else {
            28
        }
    } else if m == 4 || m == 6 || m == 9 || m == 11 {
        30
    } else {
        31
    }
}

pub open spec fn version_year(s: Seq<char>) -> int {
    four_digits(s, 0)
}

pub open spec fn version_month(s: Seq<char>) -> int {
    two_digits(s, 5)
}

pub open spec fn version_day(s: Seq<char>) -> int {
    two_digits(s, 8)
}

pub open spec fn version_hour(s: Seq<char>) -> int {
    two_digits(s, 11)
}

pub open spec fn version_minute(s: Seq<char>) -> int {
    two_digits(s, 13)
}

pub open spec fn version_second(s: Seq<char>) -> int {
    two_digits(s, 15)
}

/// A well-formed version string: exactly `YYYY-MM-DD-HHMMSS`, and the
/// encoded fields form a real calendar date and a real time of day.
pub open spec fn valid_version(s: Seq<char>) -> bool {
    &&& s.len() == 17
    &&& forall|i: int|
        0 <= i < 17 && i != 4 && i != 7 && i != 10 ==> is_digit(#[trigger] s[i])
    &&& s[4] == '-'
    &&& s[7] == '-'
    &&& s[10] == '-'
    &&& 1 <= version_month(s) <= 12
    &&& 1 <= version_day(s) <= days_in_month(version_year(s), version_month(s))
    &&& version_hour(s) <= 23
    &&& version_minute(s) <= 59
    &&& version_second(s) <= 59
}

/// Reads the digit at position `i`.
fn digit_val_at(s: &str, i: usize) -> (d: u32)
    requires
        i < s@.len(),
        is_digit(s@[i as int]),
    ensures
        d == digit_val(s@[i as int]),
{
    let c = s.get_char(i);
    (c as u32) - 48
}

fn days_in_month_exec(y: u32, m: u32) -> (d: u32)
    requires
        1 <= m <= 12,
    ensures
        d == days_in_month(y as int, m as int),
{
    if m == 2 {
        if y % 4 == 0 && (y % 100 != 0 || y % 400 == 0) {
            29
        } else {
            28
        }
    } else if m == 4 || m == 6 || m == 9 || m == 11 {
        30
    } else {
        31
    }
}

/// Decides whether `s` is a well-formed version string.
pub fn check_version(s: &str) -> (b: bool)
    ensures
        b == valid_version(s@),
{
    let n = s.unicode_len();
    if n != 17 {
        return false;
    }
    let mut i: usize = 0;
    while i < 17
        invariant
            0 <= i <= 17,
            s@.len() == 17,
            forall|j: int|
                0 <= j < i && j != 4 && j != 7 && j != 10 ==> is_digit(#[trigger] s@[j]),
            forall|j: int| 0 <= j < i && (j == 4 || j == 7 || j == 10) ==> s@[j] == '-',
        decreases 17 - i,
    {
        let c = s.get_char(i);
        if i == 4 || i == 7 || i == 10 {
            if c != '-' {
                return false;
            }
        } else {
            let u = c as u32;
            if !(48 <= u && u <= 57) {
                return false;
            }
        }
        i = i + 1;
    }
    let year = 1000 * digit_val_at(s, 0) + 100 * digit_val_at(s, 1) + 10 * digit_val_at(s, 2)
        + digit_val_at(s, 3);
    let month = 10 * digit_val_at(s, 5) + digit_val_at(s, 6);
    let day = 10 * digit_val_at(s, 8) + digit_val_at(s, 9);
    let hour = 10 * digit_val_at(s, 11) + digit_val_at(s, 12);
    let minute = 10 * digit_val_at(s, 13) + digit_val_at(s, 14);
    let second = 10 * digit_val_at(s, 15) + digit_val_at(s, 16);
    if month < 1 || month > 12 {
        return false;
    }
    let dim = days_in_month_exec(year, month);
    day >= 1 && day <= dim && hour <= 23 && minute <= 59 && second <= 59
}

/// Lexicographic order on character sequences: `a` is a prefix of `b`,
/// or at the first differing position `a` holds the smaller character.
pub open spec fn lex_le(a: Seq<char>, b: Seq<char>) -> bool
    decreases a.len(),
{
    if a.len() == 0 {
        true
    } else if b.len() == 0 {
        false
    } else if (a[0] as int) < (b[0] as int) {
        true
    } else if (b[0] as int) < (a[0] as int) {
        false
    } else {
        lex_le(a.drop_first(), b.drop_first())
    }
}

pub proof fn lemma_lex_le_refl(a: Seq<char>)
    ensures
        lex_le(a, a),
    decreases a.len(),
{
    if a.len() > 0 {
        lemma_lex_le_refl(a.drop_first());
    }
}

pub proof fn lemma_lex_le_total(a: Seq<char>, b: Seq<char>)
    ensures
        lex_le(a, b) || lex_le(b, a),
    decreases a.len(),
{
    if a.len() > 0 && b.len() > 0 && a[0] == b[0] {
        lemma_lex_le_total(a.drop_first(), b.drop_first());
    }
}

pub proof fn lemma_lex_le_antisymmetric(a: Seq<char>, b: Seq<char>)
    requires
        lex_le(a, b),
        lex_le(b, a),
    ensures
        a == b,
    decreases a.len(),
{
    if a.len() == 0 {
        assert(b.len() == 0);
        assert(a =~= b);
    } else {
        assert(b.len() > 0);
        assert(a[0] == b[0]);
        lemma_lex_le_antisymmetric(a.drop_first(), b.drop_first());
        assert forall|i: int| 0 <= i < a.len() implies a[i] == b[i] by {
            if i > 0 {
                assert(a.drop_first()[i - 1] == b.drop_first()[i - 1]);
            }
        }
        assert(a =~= b);
    }
}

pub proof fn lemma_lex_le_transitive(a: Seq<char>, b: Seq<char>, c: Seq<char>)
    requires
        lex_le(a, b),
        lex_le(b, c),
    ensures
        lex_le(a, c),
    decreases a.len(),
{
    if a.len() > 0 && b.len() > 0 && c.len() > 0 && a[0] == b[0] && b[0] == c[0] {
        lemma_lex_le_transitive(a.drop_first(), b.drop_first(), c.drop_first());
    }
}

/// Dropping an equal prefix from both sequences does not change their
/// lexicographic order.
proof fn lemma_lex_le_skip(a: Seq<char>, b: Seq<char>, i: int)
    requires
        0 <= i <= a.len(),
        i <= b.len(),
        forall|j: int| 0 <= j < i ==> a[j] == b[j],
    ensures
        lex_le(a, b) == lex_le(a.skip(i), b.skip(i)),
    decreases i,
{
    if i > 0 {
        assert(a[0] == b[0]);
        assert(a.len() > 0 && b.len() > 0);
        lemma_lex_le_skip(a.drop_first(), b.drop_first(), i - 1);
        assert(a.drop_first().skip(i - 1) =~= a.skip(i));
        assert(b.drop_first().skip(i - 1) =~= b.skip(i));
    } else {
        assert(a.skip(0) =~= a);
        assert(b.skip(0) =~= b);
    }
}

/// Decides lexicographic order on two strings.
pub fn version_le(a: &str, b: &str) -> (r: bool)
    ensures
        r == lex_le(a@, b@),
{
    let alen = a.unicode_len();
    let blen = b.unicode_len();
    let mut i: usize = 0;
    while i < alen && i < blen
        invariant
            alen == a@.len(),
            blen == b@.len(),
            0 <= i <= alen,
            i <= blen,
            forall|j: int| 0 <= j < i ==> a@[j] == b@[j],
        decreases alen - i,
    {
        let ca = a.get_char(i);
        let cb = b.get_char(i);
        if ca != cb {
            proof {
                lemma_lex_le_skip(a@, b@, i as int);
                assert(a@.skip(i as int)[0] == a@[i as int]);
                assert(b@.skip(i as int)[0] == b@[i as int]);
            }
            return (ca as u32) < (cb as u32);
        }
        i = i + 1;
    }
    proof {
        lemma_lex_le_skip(a@, b@, i as int);
        if i < blen {
            assert(b@.skip(i as int).len() > 0);
        }
    }
    alen <= blen
}

} // verus!
