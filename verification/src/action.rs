//! The action grammar: a decision line is `"(" <int> "," <int> ")"` after
//! trimming, each `<int>` a base-10 signed 32-bit integer with optional
//! surrounding whitespace. Anything else is rejected outright.

use vstd::prelude::*;
use vstd::string::StrSliceExecFns;
use vstd::string::StringExecFns;

use crate::text::all_digits;
use crate::text::digit_val;
use crate::text::digits_val;
use crate::text::fmt_i64;
use crate::text::int_chars;
use crate::text::int_of;
use crate::text::is_digit;
use crate::text::lemma_digits_val_nonneg;
use crate::text::lemma_int_chars_shape;
use crate::text::lemma_int_of_int_chars;
use crate::text::lemma_trim_noop;
use crate::text::trim_end_spec;
use crate::text::trim_range;
use crate::text::trim_spec;
use crate::text::trim_start_spec;

verus! {

/// Number of commas in `s`.
pub open spec fn comma_count(s: Seq<char>) -> nat
    decreases s.len(),
{
    if s.len() == 0 {
        0
    } else {
        comma_count(s.drop_last()) + if s.last() == ',' {
            1nat
        } else {
            0nat
        }
    }
}

/// Index of the first comma of `s` (`s.len()` if there is none).
pub open spec fn find_comma(s: Seq<char>) -> int
    decreases s.len(),
{
    if s.len() == 0 {
        0
    } else if s[0] == ',' {
        0
    } else {
        1 + find_comma(s.drop_first())
    }
}

/// The signed 32-bit integer a field denotes: trimmed, then read as a
/// decimal integer; a value outside the `i32` range is a failure.
pub open spec fn parse_i32_spec(s: Seq<char>) -> Option<i32> {
    match int_of(trim_spec(s)) {
        Some(v) => if -0x8000_0000 <= v <= 0x7fff_ffff {
            Some(v as i32)
        } else {
            None
        },
        None => None,
    }
}

/// The displacement a raw decision line denotes, if any: after trimming,
/// exactly `(` field `,` field `)`, both fields valid `i32` fields.
pub open spec fn parse_action_spec(s: Seq<char>) -> Option<(i32, i32)> {
    let t = trim_spec(s);
    if t.len() >= 2 && t[0] == '(' && t[t.len() - 1] == ')' {
        let inner = t.subrange(1, t.len() - 1);
        if comma_count(inner) == 1 {
            let c = find_comma(inner);
            match (parse_i32_spec(inner.subrange(0, c)), parse_i32_spec(
                inner.subrange(c + 1, inner.len() as int),
            )) {
                (Some(x), Some(y)) => Some((x, y)),
                _ => None,
            }
        } else {
            None
        }
    } else {
        None
    }
}

/// If the first comma of `s` stands at `k`, `find_comma` says so.
proof fn lemma_find_comma_at(s: Seq<char>, k: int)
    requires
        0 <= k < s.len(),
        s[k] == ',',
        forall|j: int| 0 <= j < k ==> s[j] != ',',
    ensures
        find_comma(s) == k,
    decreases k,
{
    if k > 0 {
        assert(s[0] != ',');
        assert(forall|j: int| 0 <= j < k - 1 ==> s.drop_first()[j] == s[j + 1]);
        lemma_find_comma_at(s.drop_first(), k - 1);
    }
}

/// Commas in a concatenation: one side plus the other.
proof fn lemma_comma_count_concat(a: Seq<char>, b: Seq<char>)
    ensures
        comma_count(a + b) == comma_count(a) + comma_count(b),
    decreases b.len(),
{
    if b.len() == 0 {
        assert(a + b =~= a);
    } else {
        assert((a + b).drop_last() =~= a + b.drop_last());
        assert((a + b).last() == b.last());
        lemma_comma_count_concat(a, b.drop_last());
    }
}

/// A sequence without commas counts zero of them.
proof fn lemma_comma_count_zero(s: Seq<char>)
    requires
        forall|j: int| 0 <= j < s.len() ==> s[j] != ',',
    ensures
        comma_count(s) == 0,
    decreases s.len(),
{
    if s.len() > 0 {
        lemma_comma_count_zero(s.drop_last());
    }
}

/// Reads the field `s[lo..hi]` as a signed 32-bit integer.
#[verifier::loop_isolation(false)]
fn parse_i32_range(s: &str, lo: usize, hi: usize) -> (r: Result<i32, ()>)
    requires
        lo <= hi <= s@.len(),
    ensures
        match parse_i32_spec(s@.subrange(lo as int, hi as int)) {
            Some(v) => r == Ok::<i32, ()>(v),
            None => r == Err::<i32, ()>(()),
        },
{
    let (a, b) = trim_range(s, lo, hi);
    let ghost t = s@.subrange(a as int, b as int);
    if a == b {
        return Err(());
    }
    let c0 = s.get_char(a);
    let neg = c0 == '-';
    let has_sign = c0 == '-' || c0 == '+';
    let d0: usize = if has_sign {
        a + 1
    } else {
        a
    };
    proof {
        assert(t.drop_first() =~= s@.subrange(a as int + 1, b as int));
    }
    if d0 == b {
        // a sign with no digits after it
        return Err(());
    }
    let ghost body = s@.subrange(d0 as int, b as int);
    let mut i: usize = d0;
    let mut acc: u64 = 0;
    let mut over = false;
    while i < b
        invariant
            d0 <= i <= b <= s@.len(),
            all_digits(s@.subrange(d0 as int, i as int)),
            !over ==> acc == digits_val(s@.subrange(d0 as int, i as int)) && acc <= 0x8000_0000,
            over ==> digits_val(s@.subrange(d0 as int, i as int)) > 0x8000_0000,
        decreases b - i,
    {
        let c = s.get_char(i);
        let u = c as u32;
        if !(48 <= u && u <= 57) {
            proof {
                assert(u as int == c as int);
                assert(!is_digit(c));
                assert(body[i - d0] == s@[i as int]);
                assert(!all_digits(body));
                if has_sign {
                    assert(t.drop_first() == body);
                    assert(int_of(t) is None);
                } else {
                    assert(t == body);
                    assert(int_of(t) is None);
                }
            }
            return Err(());
        }
        proof {
            let pre = s@.subrange(d0 as int, i as int);
            let ext = s@.subrange(d0 as int, i as int + 1);
            assert(ext.drop_last() =~= pre);
            assert(ext.last() == s@[i as int]);
            assert(digits_val(ext) == digits_val(pre) * 10 + digit_val(s@[i as int]));
            if over {
                lemma_digits_val_nonneg(pre);
            }
        }
        let d = (u - 48) as u64;
        if !over {
            let next = acc * 10 + d;
            if next > 0x8000_0000 {
                over = true;
            } else {
                acc = next;
            }
        }
        i = i + 1;
    }
    proof {
        assert(s@.subrange(d0 as int, i as int) =~= body);
        if has_sign {
            assert(int_of(t) == Some(
                if neg {
                    -digits_val(body)
                } else {
                    digits_val(body)
                },
            ));
        } else {
            assert(body =~= t);
            assert(int_of(t) == Some(digits_val(body)));
        }
    }
    if over {
        return Err(());
    }
    if neg {
        let v: i64 = -(acc as i64);
        Ok(v as i32)
    } else {
        if acc > 0x7fff_ffff {
            return Err(());
        }
        Ok(acc as i32)
    }
}

/// The wire form of a displacement or position: `"(x, y)"` with both
/// coordinates in standard decimal.
pub open spec fn format_action_spec(x: int, y: int) -> Seq<char> {
    seq!['('] + int_chars(x) + seq![','] + seq![' '] + int_chars(y) + seq![')']
}

/// Decodes a raw decision line into a displacement.
///
/// Succeeds exactly on the inputs [`parse_action_spec`] accepts, and then
/// returns exactly the displacement it denotes.
#[verifier::loop_isolation(false)]
#[verifier::rlimit(30)]
pub fn parse_action(output: &str) -> (r: Result<(i32, i32), ()>)
    ensures
        match parse_action_spec(output@) {
            Some(p) => r == Ok::<(i32, i32), ()>(p),
            None => r == Err::<(i32, i32), ()>(()),
        },
{
    let n = output.unicode_len();
    let (a, b) = trim_range(output, 0, n);
    let ghost t = output@.subrange(a as int, b as int);
    proof {
        assert(output@.subrange(0, n as int) =~= output@);
    }
    if b - a < 2 {
        return Err(());
    }
    if output.get_char(a) != '(' {
        return Err(());
    }
    if output.get_char(b - 1) != ')' {
        return Err(());
    }
    let lo = a + 1;
    let hi = b - 1;
    let ghost inner = t.subrange(1, t.len() - 1);
    proof {
        assert(inner =~= output@.subrange(lo as int, hi as int));
    }
    let mut i: usize = lo;
    let mut count: u64 = 0;
    let mut ci: usize = lo;
    while i < hi
        invariant
            lo <= i <= hi <= output@.len(),
            count == comma_count(output@.subrange(lo as int, i as int)),
            count <= i - lo,
            count > 0 ==> lo <= ci < i && output@[ci as int] == ',' && (forall|j: int|
                lo <= j < ci ==> output@[j] != ','),
            count == 0 ==> (forall|j: int| lo <= j < i ==> output@[j] != ','),
        decreases hi - i,
    {
        let c = output.get_char(i);
        proof {
            assert(output@.subrange(lo as int, i as int + 1).drop_last() =~= output@.subrange(
                lo as int,
                i as int,
            ));
        }
        if c == ',' {
            if count == 0 {
                ci = i;
            }
            count = count + 1;
        }
        i = i + 1;
    }
    proof {
        assert(output@.subrange(lo as int, i as int) =~= inner);
    }
    if count != 1 {
        return Err(());
    }
    proof {
        assert(inner[ci - lo] == ',');
        assert(forall|j: int| 0 <= j < ci - lo ==> inner[j] != ',');
        lemma_find_comma_at(inner, ci - lo);
        assert(inner.subrange(0, ci - lo) =~= output@.subrange(lo as int, ci as int));
        assert(inner.subrange(ci - lo + 1, inner.len() as int) =~= output@.subrange(
            ci as int + 1,
            hi as int,
        ));
    }
    let x = parse_i32_range(output, lo, ci);
    let y = parse_i32_range(output, ci + 1, hi);
    match (x, y) {
        (Ok(dx), Ok(dy)) => Ok((dx, dy)),
        _ => Err(()),
    }
}

/// Round trip: rendering any displacement in the wire form and parsing
/// the text back yields exactly that displacement.
pub proof fn lemma_format_parse_round_trip(dx: i32, dy: i32)
    ensures
        parse_action_spec(format_action_spec(dx as int, dy as int)) == Some((dx, dy)),
{
    let sx = int_chars(dx as int);
    let sy = int_chars(dy as int);
    let s = format_action_spec(dx as int, dy as int);
    lemma_int_chars_shape(dx as int);
    lemma_int_chars_shape(dy as int);

    // the rendered text trims to itself
    assert(s[0] == '(');
    assert(s.last() == ')');
    assert(s.len() == sx.len() + sy.len() + 4);
    lemma_trim_noop(s);

    // the text between the parentheses, and its single comma
    let inner = s.subrange(1, s.len() - 1);
    assert(inner =~= sx + seq![','] + seq![' '] + sy);
    let u1 = sx + seq![','];
    let u2 = u1 + seq![' '];
    assert(inner =~= u2 + sy);
    lemma_comma_count_zero(sx);
    assert(comma_count(seq![',']) == 1) by {
        assert(seq![','].drop_last() =~= Seq::<char>::empty());
        assert(comma_count(Seq::<char>::empty()) == 0);
        assert(seq![','].last() == ',');
    }
    lemma_comma_count_concat(sx, seq![',']);
    lemma_comma_count_concat(u1, seq![' ']);
    assert(comma_count(seq![' ']) == 0) by {
        assert(seq![' '].drop_last() =~= Seq::<char>::empty());
        assert(comma_count(Seq::<char>::empty()) == 0);
        assert(seq![' '].last() == ' ');
    }
    lemma_comma_count_concat(u2, sy);
    lemma_comma_count_zero(sy);
    assert(comma_count(inner) == 1);

    assert(inner[sx.len() as int] == ',');
    assert(forall|j: int| 0 <= j < sx.len() ==> inner[j] == sx[j]);
    lemma_find_comma_at(inner, sx.len() as int);

    // left field: the first coordinate exactly
    let left = inner.subrange(0, sx.len() as int);
    assert(left =~= sx);
    lemma_trim_noop(sx);
    lemma_int_of_int_chars(dx as int);
    assert(parse_i32_spec(left) == Some(dx));

    // right field: one space, then the second coordinate
    let right = inner.subrange(sx.len() as int + 1, inner.len() as int);
    assert(right =~= seq![' '] + sy);
    assert(right[0] == ' ');
    assert(right.drop_first() =~= sy);
    assert(trim_start_spec(right) == trim_start_spec(sy));
    assert(trim_start_spec(sy) == sy);
    assert(trim_spec(right) == sy) by {
        assert(trim_end_spec(sy) == sy);
    }
    lemma_int_of_int_chars(dy as int);
    assert(parse_i32_spec(right) == Some(dy));

    assert(parse_action_spec(s) == Some((dx, dy)));
}

/// Renders a displacement in the wire form `"(dx, dy)"`, the exact shape
/// [`parse_action`] reads back.
pub fn format_action(dx: i32, dy: i32) -> (r: String)
    ensures
        r@ == format_action_spec(dx as int, dy as int),
{
    format_position(dx as i64, dy as i64)
}

/// Renders a coordinate pair in the wire form `"(x, y)"`.
pub fn format_position(x: i64, y: i64) -> (r: String)
    ensures
        r@ == format_action_spec(x as int, y as int),
{
    let mut r = String::from_str("(");
    let sx = fmt_i64(x);
    r.append(sx.as_str());
    r.append(", ");
    let sy = fmt_i64(y);
    r.append(sy.as_str());
    r.append(")");
    proof {
        reveal_strlit("(");
        reveal_strlit(", ");
        reveal_strlit(")");
        assert(r@ =~= format_action_spec(x as int, y as int));
    }
    r
}

} // verus!
