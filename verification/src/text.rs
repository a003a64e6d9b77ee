//! Character-level building blocks: whitespace trimming and decimal
//! integers, as mathematical functions on `Seq<char>` together with the
//! executable routines proved against them.

use vstd::prelude::*;
use vstd::string::StrSliceExecFns;
use vstd::string::StringExecFns;

verus! {

/// The whitespace characters the protocol strips from the ends of a line:
/// every character with the Unicode `White_Space` property, the set
/// `char::is_whitespace` recognizes.
pub open spec fn is_space(c: char) -> bool {
    c == ' ' || c == '\t' || c == '\n' || c == '\r' || c == '\u{000B}' || c == '\u{000C}'
        || c == '\u{0085}' || c == '\u{00A0}' || c == '\u{1680}' || c == '\u{2000}'
        || c == '\u{2001}' || c == '\u{2002}' || c == '\u{2003}' || c == '\u{2004}'
        || c == '\u{2005}' || c == '\u{2006}' || c == '\u{2007}' || c == '\u{2008}'
        || c == '\u{2009}' || c == '\u{200A}' || c == '\u{2028}' || c == '\u{2029}'
        || c == '\u{202F}' || c == '\u{205F}' || c == '\u{3000}'
}

/// `s` without its leading whitespace.
pub open spec fn trim_start_spec(s: Seq<char>) -> Seq<char>
    decreases s.len(),
{
    if s.len() > 0 && is_space(s[0]) {
        trim_start_spec(s.drop_first())
    } else {
        s
    }
}

/// `s` without its trailing whitespace.
pub open spec fn trim_end_spec(s: Seq<char>) -> Seq<char>
    decreases s.len(),
{
    if s.len() > 0 && is_space(s[s.len() - 1]) {
        trim_end_spec(s.drop_last())
    } else {
        s
    }
}

/// `s` without leading and trailing whitespace.
pub open spec fn trim_spec(s: Seq<char>) -> Seq<char> {
    trim_end_spec(trim_start_spec(s))
}

/// A sequence that neither starts nor ends with whitespace trims to itself.
pub proof fn lemma_trim_noop(s: Seq<char>)
    requires
        s.len() == 0 || (!is_space(s[0]) && !is_space(s[s.len() - 1])),
    ensures
        trim_spec(s) == s,
{
}

/// Decimal digit, as a character.
pub open spec fn is_digit(c: char) -> bool {
    48 <= c as int <= 57
}

/// Numeric value of a decimal digit character.
pub open spec fn digit_val(c: char) -> int {
    c as int - 48
}

/// Every character of `s` is a decimal digit.
pub open spec fn all_digits(s: Seq<char>) -> bool {
    forall|i: int| 0 <= i < s.len() ==> is_digit(#[trigger] s[i])
}

/// Value of a digit string read in base 10 (0 for the empty string).
pub open spec fn digits_val(s: Seq<char>) -> int
    decreases s.len(),
{
    if s.len() == 0 {
        0
    } else {
        digits_val(s.drop_last()) * 10 + digit_val(s.last())
    }
}

pub proof fn lemma_digits_val_nonneg(s: Seq<char>)
    requires
        all_digits(s),
    ensures
        digits_val(s) >= 0,
    decreases s.len(),
{
    if s.len() > 0 {
        assert(all_digits(s.drop_last()));
        lemma_digits_val_nonneg(s.drop_last());
    }
}

/// The integer a whole sequence denotes: an optional `+` or `-` sign
/// followed by at least one decimal digit, nothing else.
pub open spec fn int_of(s: Seq<char>) -> Option<int> {
    if s.len() == 0 {
        None
    } else if s[0] == '+' || s[0] == '-' {
        if s.len() > 1 && all_digits(s.drop_first()) {
            Some(
                if s[0] == '-' {
                    -digits_val(s.drop_first())
                } else {
                    digits_val(s.drop_first())
                },
            )
        } else {
            None
        }
    } else {
        if all_digits(s) {
            Some(digits_val(s))
        } else {
            None
        }
    }
}

/// The decimal digit character for `d` (0 through 9).
pub open spec fn digit_char(d: nat) -> char {
    if d == 0 {
        '0'
    } else if d == 1 {
        '1'
    } else if d == 2 {
        '2'
    } else if d == 3 {
        '3'
    } else if d == 4 {
        '4'
    } else if d == 5 {
        '5'
    } else if d == 6 {
        '6'
    } else if d == 7 {
        '7'
    } else if d == 8 {
        '8'
    } else {
        '9'
    }
}

/// Standard decimal rendering of a nonnegative integer: no sign, no
/// leading zeros (except for 0 itself).
pub open spec fn dec_chars(n: nat) -> Seq<char>
    decreases n,
{
    if n < 10 {
        seq![digit_char(n)]
    } else {
        dec_chars(n / 10).push(digit_char(n % 10))
    }
}

/// Standard decimal rendering of an integer: a `-` sign for negative
/// values, then the digits.
pub open spec fn int_chars(v: int) -> Seq<char> {
    if v < 0 {
        seq!['-'] + dec_chars((-v) as nat)
    } else {
        dec_chars(v as nat)
    }
}

/// The decimal rendering of `n` is made of digits and reads back as `n`.
pub proof fn lemma_dec_chars_digits(n: nat)
    ensures
        dec_chars(n).len() >= 1,
        all_digits(dec_chars(n)),
        digits_val(dec_chars(n)) == n,
    decreases n,
{
    if n < 10 {
        assert(dec_chars(n) == seq![digit_char(n)]);
        assert(is_digit(digit_char(n)) && digit_val(digit_char(n)) == n);
        assert(seq![digit_char(n)].drop_last() =~= Seq::<char>::empty());
        assert(seq![digit_char(n)].last() == digit_char(n));
        assert(digits_val(Seq::<char>::empty()) == 0);
        assert(digits_val(seq![digit_char(n)]) == digit_val(digit_char(n)));
    } else {
        lemma_dec_chars_digits(n / 10);
        let prev = dec_chars(n / 10);
        let c = digit_char((n % 10) as nat);
        assert(is_digit(c) && digit_val(c) == n % 10);
        assert(prev.push(c).drop_last() =~= prev);
        assert(prev.push(c).last() == c);
        assert(forall|i: int|
            0 <= i < prev.push(c).len() ==> is_digit(#[trigger] prev.push(c)[i]));
        assert(digits_val(prev.push(c)) == (n / 10) * 10 + n % 10);
    }
}

/// Formatting an integer and reading the text back is the identity.
pub proof fn lemma_int_of_int_chars(v: int)
    ensures
        int_of(int_chars(v)) == Some(v),
{
    if v < 0 {
        lemma_dec_chars_digits((-v) as nat);
        let s = seq!['-'] + dec_chars((-v) as nat);
        assert(s[0] == '-');
        assert(s.drop_first() =~= dec_chars((-v) as nat));
        assert(int_of(s) == Some(-digits_val(dec_chars((-v) as nat))));
    } else {
        lemma_dec_chars_digits(v as nat);
        let s = dec_chars(v as nat);
        assert(is_digit(s[0]));
        assert(s[0] != '+' && s[0] != '-');
    }
}

/// The decimal rendering of an integer starts with `-` or a digit, ends
/// with a digit, and contains neither whitespace nor commas.
pub proof fn lemma_int_chars_shape(v: int)
    ensures
        int_chars(v).len() >= 1,
        int_chars(v)[0] == '-' || is_digit(int_chars(v)[0]),
        is_digit(int_chars(v).last()),
        !is_space(int_chars(v)[0]),
        !is_space(int_chars(v).last()),
        forall|i: int| 0 <= i < int_chars(v).len() ==> #[trigger] int_chars(v)[i] != ',',
{
    let s = int_chars(v);
    if v < 0 {
        lemma_dec_chars_digits((-v) as nat);
        let d = dec_chars((-v) as nat);
        assert(s == seq!['-'] + d);
        assert(s[0] == '-');
        assert(s.last() == d.last());
        assert(is_digit(d.last()));
        assert(forall|i: int| 1 <= i < s.len() ==> s[i] == d[i - 1]);
        assert(forall|i: int| 0 <= i < s.len() ==> #[trigger] s[i] != ',') by {
            assert(forall|i: int| 1 <= i < s.len() ==> is_digit(#[trigger] s[i]));
        }
    } else {
        lemma_dec_chars_digits(v as nat);
        assert(is_digit(s[0]));
        assert(is_digit(s.last()));
    }
}

/// Decides [`is_space`] on a concrete character.
pub fn char_is_space(c: char) -> (r: bool)
    ensures
        r == is_space(c),
{
    c == ' ' || c == '\t' || c == '\n' || c == '\r' || c == '\u{000B}' || c == '\u{000C}'
        || c == '\u{0085}' || c == '\u{00A0}' || c == '\u{1680}' || c == '\u{2000}'
        || c == '\u{2001}' || c == '\u{2002}' || c == '\u{2003}' || c == '\u{2004}'
        || c == '\u{2005}' || c == '\u{2006}' || c == '\u{2007}' || c == '\u{2008}'
        || c == '\u{2009}' || c == '\u{200A}' || c == '\u{2028}' || c == '\u{2029}'
        || c == '\u{202F}' || c == '\u{205F}' || c == '\u{3000}'
}

/// Bounds of the whitespace-trimmed middle of `s[lo..hi]`.
pub fn trim_range(s: &str, lo: usize, hi: usize) -> (r: (usize, usize))
    requires
        lo <= hi <= s@.len(),
    ensures
        lo <= r.0 <= r.1 <= hi,
        trim_spec(s@.subrange(lo as int, hi as int)) == s@.subrange(r.0 as int, r.1 as int),
{
    let ghost whole = s@.subrange(lo as int, hi as int);
    let mut a: usize = lo;
    while a < hi && char_is_space(s.get_char(a))
        invariant
            lo <= a <= hi <= s@.len(),
            trim_start_spec(whole) == trim_start_spec(s@.subrange(a as int, hi as int)),
            whole == s@.subrange(lo as int, hi as int),
        decreases hi - a,
    {
        proof {
            assert(s@.subrange(a as int, hi as int).drop_first() =~= s@.subrange(
                a as int + 1,
                hi as int,
            ));
        }
        a = a + 1;
    }
    proof {
        assert(trim_start_spec(whole) == s@.subrange(a as int, hi as int));
    }
    let mut b: usize = hi;
    while b > a && char_is_space(s.get_char(b - 1))
        invariant
            lo <= a <= b <= hi <= s@.len(),
            trim_start_spec(whole) == s@.subrange(a as int, hi as int),
            trim_end_spec(s@.subrange(a as int, hi as int)) == trim_end_spec(
                s@.subrange(a as int, b as int),
            ),
            whole == s@.subrange(lo as int, hi as int),
        decreases b,
    {
        proof {
            assert(s@.subrange(a as int, b as int).drop_last() =~= s@.subrange(
                a as int,
                b as int - 1,
            ));
        }
        b = b - 1;
    }
    proof {
        assert(trim_end_spec(s@.subrange(a as int, b as int)) == s@.subrange(a as int, b as int));
    }
    (a, b)
}

/// One-character string slice for the decimal digit `d`.
pub fn digit_str(d: u64) -> (r: &'static str)
    requires
        d < 10,
    ensures
        r@ == seq![digit_char(d as nat)],
{
    let digits = "0123456789";
    proof {
        reveal_strlit("0123456789");
    }
    let r = digits.substring_char(d as usize, d as usize + 1);
    proof {
        assert(r@ =~= seq![digit_char(d as nat)]);
    }
    r
}

/// Renders `n` in decimal.
pub fn fmt_u64(n: u64) -> (r: String)
    ensures
        r@ == dec_chars(n as nat),
    decreases n,
{
    if n < 10 {
        String::from_str(digit_str(n))
    } else {
        let mut r = fmt_u64(n / 10);
        r.append(digit_str(n % 10));
        proof {
            assert(r@ =~= dec_chars(n as nat));
        }
        r
    }
}

/// Renders `v` in decimal, with a leading `-` when negative.
pub fn fmt_i64(v: i64) -> (r: String)
    ensures
        r@ == int_chars(v as int),
{
    if v >= 0 {
        fmt_u64(v as u64)
    } else {
        let m: u64 = (-(v as i128)) as u64;
        let mut r = String::from_str("-");
        let digits = fmt_u64(m);
        r.append(digits.as_str());
        proof {
            reveal_strlit("-");
            assert(r@ =~= int_chars(v as int));
        }
        r
    }
}

} // verus!
