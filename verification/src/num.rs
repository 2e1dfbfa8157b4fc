//! Decimal digit strings: the value a digit sequence denotes and the digit
//! sequence a number is rendered as, with executable conversions in both
//! directions.  The scanner reads integer literals and the renderers print
//! them through these functions.

use vstd::prelude::*;

verus! {

/// `c` is a decimal digit `'0'..='9'`.
pub open spec fn is_digit(c: char) -> bool {
    48 <= c as u32 && c as u32 <= 57
}

/// Numeric value of a single digit character.
pub open spec fn digit_val(c: char) -> nat {
    (c as u32 - 48) as nat
}

/// Every character of `s` is a decimal digit.
pub open spec fn is_digits(s: Seq<char>) -> bool {
    forall|i: int| 0 <= i < s.len() ==> is_digit(#[trigger] s[i])
}

/// The number denoted by the digit string `s`, most significant digit first.
pub open spec fn digits_val(s: Seq<char>) -> nat
    decreases s.len(),
{
    if s.len() == 0 {
        0
    } else {
        digits_val(s.drop_last()) * 10 + digit_val(s.last())
    }
}

/// The digit character for a value below ten.
pub open spec fn digit_char(d: nat) -> char {
    (((d + 48) as u32) as char)
}

/// Decimal rendering of `n`, without sign and without leading zeros
/// (except that zero itself renders as `"0"`).
pub open spec fn dec_text(n: nat) -> Seq<char>
    decreases n,
{
    if n < 10 {
        seq![digit_char(n)]
    } else {
        dec_text(n / 10).push(digit_char(n % 10))
    }
}

/// Decimal rendering of a signed number: a `'-'` before the magnitude when
/// negative.
pub open spec fn int_text(v: int) -> Seq<char> {
    if v < 0 {
        seq!['-'] + dec_text((-v) as nat)
    } else {
        dec_text(v as nat)
    }
}

/// Appending one digit multiplies the value by ten and adds the digit.
pub proof fn lemma_digits_val_push(s: Seq<char>, c: char)
    ensures
        digits_val(s.push(c)) == digits_val(s) * 10 + digit_val(c),
{
    assert(s.push(c).drop_last() =~= s);
    assert(s.push(c).last() == c);
}

/// A digit string's value only grows as the string is extended.
pub proof fn lemma_digits_val_prefix(s: Seq<char>, i: int)
    requires
        0 <= i <= s.len(),
    ensures
        digits_val(s.subrange(0, i)) <= digits_val(s),
    decreases s.len() - i,
{
    if i < s.len() {
        let t = s.subrange(0, i);
        let t1 = s.subrange(0, i + 1);
        assert(t1.drop_last() =~= t);
        assert(digits_val(t1) == digits_val(t) * 10 + digit_val(t1.last()));
        assert(digits_val(t) <= digits_val(t) * 10) by (nonlinear_arith);
        lemma_digits_val_prefix(s, i + 1);
    } else {
        assert(s.subrange(0, i) =~= s);
    }
}

/// Rendering a number gives digits, and reading them back gives the number.
pub proof fn lemma_dec_text_val(n: nat)
    ensures
        dec_text(n).len() >= 1,
        is_digits(dec_text(n)),
        digits_val(dec_text(n)) == n,
    decreases n,
{
    if n < 10 {
        assert(dec_text(n) =~= seq![digit_char(n)]);
        assert(digits_val(dec_text(n)) == digits_val(Seq::<char>::empty()) * 10 + digit_val(
            digit_char(n),
        )) by {
            assert(dec_text(n).drop_last() =~= Seq::<char>::empty());
        }
        assert(digit_val(digit_char(n)) == n);
    } else {
        lemma_dec_text_val(n / 10);
        let t = dec_text(n / 10);
        lemma_digits_val_push(t, digit_char(n % 10));
        assert(digits_val(t.push(digit_char(n % 10))) == (n / 10) * 10 + n % 10);
        assert((n / 10) * 10 + n % 10 == n) by (nonlinear_arith);
        assert forall|i: int| 0 <= i < dec_text(n).len() implies is_digit(
            #[trigger] dec_text(n)[i],
        ) by {
            if i < t.len() {
                assert(dec_text(n)[i] == t[i]);
            } else {
                assert(dec_text(n)[i] == digit_char(n % 10));
            }
        }
    }
}

/// Reads the digit substring `v[start..end]` as a 32-bit integer.
/// Returns `None` when the substring is empty, holds a non-digit, or
/// denotes a value above `i32::MAX`.
pub fn parse_digits(v: &Vec<char>, start: usize, end: usize) -> (r: Option<i32>)
    requires
        start <= end <= v@.len(),
    ensures
        ({
            let s = v@.subrange(start as int, end as int);
            match r {
                Some(n) => s.len() > 0 && is_digits(s) && digits_val(s) <= i32::MAX && n as int
                    == digits_val(s),
                None => !(s.len() > 0 && is_digits(s) && digits_val(s) <= i32::MAX),
            }
        }),
{
    let ghost s = v@.subrange(start as int, end as int);
    if start == end {
        return None;
    }
    let mut acc: u64 = 0;
    let mut i: usize = start;
    while i < end
        invariant
            start <= i <= end <= v@.len(),
            s == v@.subrange(start as int, end as int),
            forall|j: int| 0 <= j < i - start ==> is_digit(#[trigger] s[j]),
            acc == digits_val(s.subrange(0, i - start)),
            acc <= i32::MAX,
        decreases end - i,
    {
        let c = v[i];
        let cv = c as u32;
        proof {
            assert(s[i - start] == c);
        }
        if !(48 <= cv && cv <= 57) {
            assert(!is_digit(c));
            assert(!is_digits(s));
            return None;
        }
        let d: u64 = (cv - 48) as u64;
        let next: u64 = acc * 10 + d;
        proof {
            assert(is_digit(c));
            assert(d == digit_val(c));
            assert(s.subrange(0, i + 1 - start).drop_last() =~= s.subrange(0, i - start));
            assert(s.subrange(0, i + 1 - start).last() == c);
            assert(digits_val(s.subrange(0, i + 1 - start)) == acc * 10 + digit_val(c));
        }
        if next > 0x7fff_ffff {
            proof {
                lemma_digits_val_prefix(s, i + 1 - start);
            }
            return None;
        }
        acc = next;
        i = i + 1;
        proof {
            assert(acc == digits_val(s.subrange(0, i - start)));
        }
    }
    proof {
        assert(s.subrange(0, end - start) =~= s);
        assert(is_digits(s));
    }
    Some(acc as i32)
}

/// `true` when every character of `v[start..end]` is a decimal digit.
pub fn all_digits(v: &Vec<char>, start: usize, end: usize) -> (r: bool)
    requires
        start <= end <= v@.len(),
    ensures
        r == is_digits(v@.subrange(start as int, end as int)),
{
    let ghost s = v@.subrange(start as int, end as int);
    let mut i: usize = start;
    while i < end
        invariant
            start <= i <= end <= v@.len(),
            s == v@.subrange(start as int, end as int),
            forall|j: int| 0 <= j < i - start ==> is_digit(#[trigger] s[j]),
        decreases end - i,
    {
        let c = v[i];
        let cv = c as u32;
        proof {
            assert(s[i - start] == c);
        }
        if !(48 <= cv && cv <= 57) {
            assert(!is_digit(c));
            return false;
        }
        proof {
            assert(is_digit(c));
        }
        i = i + 1;
    }
    true
}

/// Appends the decimal rendering of `n` to `out`.
pub fn push_dec(n: u32, out: &mut Vec<char>)
    ensures
        final(out)@ == old(out)@ + dec_text(n as nat),
    decreases n,
{
    if n < 10 {
        let d: u8 = 48 + (n as u8);
        out.push(d as char);
        proof {
            assert(d as char == digit_char(n as nat));
            assert(out@ =~= old(out)@ + dec_text(n as nat));
        }
    } else {
        push_dec(n / 10, out);
        let d: u8 = 48 + ((n % 10) as u8);
        out.push(d as char);
        proof {
            assert(d as char == digit_char((n % 10) as nat));
            assert(out@ =~= old(out)@ + dec_text(n as nat));
        }
    }
}

/// Appends the decimal rendering of the signed number `v` to `out`.
pub fn push_int(v: i32, out: &mut Vec<char>)
    ensures
        final(out)@ == old(out)@ + int_text(v as int),
{
    if v < 0 {
        out.push('-');
        let m: u32 = (-(v as i64)) as u32;
        push_dec(m, out);
        proof {
            assert(out@ =~= old(out)@ + int_text(v as int));
        }
    } else {
        push_dec(v as u32, out);
    }
}

} // verus!
