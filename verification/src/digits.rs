//! Decimal digit strings: their value, parsing, and formatting.

use vstd::prelude::*;

verus! {

pub open spec fn is_digit(c: char) -> bool {
    '0' <= c && c <= '9'
}

pub open spec fn digit_val(c: char) -> int {
    c as int - '0' as int
}

pub open spec fn all_digits(s: Seq<char>) -> bool {
    forall|i: int| 0 <= i < s.len() ==> is_digit(#[trigger] s[i])
}

/// Numeric value of a digit string, most significant digit first.
pub open spec fn spec_digits_val(s: Seq<char>) -> int
    decreases s.len(),
{
    if s.len() == 0 {
        0
    } else {
        spec_digits_val(s.take(s.len() - 1)) * 10 + digit_val(s.last())
    }
}

pub proof fn lemma_digits_val_nonneg(s: Seq<char>)
    requires
        all_digits(s),
    ensures
        spec_digits_val(s) >= 0,
    decreases s.len(),
{
    if s.len() > 0 {
        assert(all_digits(s.take(s.len() - 1)));
        lemma_digits_val_nonneg(s.take(s.len() - 1));
    }
}

/// Extending a digit string to the right can only grow its value.
pub proof fn lemma_digits_val_prefix(s: Seq<char>, k: int)
    requires
        all_digits(s),
        0 <= k <= s.len(),
    ensures
        spec_digits_val(s) >= spec_digits_val(s.take(k)),
    decreases s.len() - k,
{
    if k < s.len() {
        lemma_digits_val_prefix(s, k + 1);
        let t = s.take(k + 1);
        assert(all_digits(t));
        assert(t.take(k) =~= s.take(k));
        lemma_digits_val_nonneg(s.take(k));
    } else {
        assert(s.take(k) =~= s);
    }
}

/// Parse the digit range `[lo, hi)` of `s` as a decimal number, exactly as
/// `str::parse::<usize>` would: the range must be non-empty, all digits, and
/// the value must fit in `usize`.
pub fn parse_usize_range(s: &str, lo: usize, hi: usize) -> (r: Option<usize>)
    requires
        lo <= hi <= s@.len(),
    ensures
        r is Some <==> lo < hi && all_digits(s@.subrange(lo as int, hi as int)) && spec_digits_val(
            s@.subrange(lo as int, hi as int),
        ) <= usize::MAX,
        r matches Some(v) ==> v == spec_digits_val(s@.subrange(lo as int, hi as int)),
{
    if lo == hi {
        return None;
    }
    let ghost whole = s@.subrange(lo as int, hi as int);
    let mut v: u128 = 0;
    let mut i = lo;
    while i < hi
        invariant
            lo <= i <= hi <= s@.len(),
            all_digits(s@.subrange(lo as int, i as int)),
            v == spec_digits_val(s@.subrange(lo as int, i as int)),
            v <= usize::MAX,
        decreases hi - i,
    {
        let c = s.get_char(i);
        if c < '0' || c > '9' {
            assert(s@.subrange(lo as int, hi as int)[i - lo] == c);
            return None;
        }
        let d: u128 = (c as u32 as u128) - 48;
        let next: u128 = v * 10 + d;
        proof {
            let pre = s@.subrange(lo as int, (i + 1) as int);
            assert(pre.take(pre.len() - 1) =~= s@.subrange(lo as int, i as int));
            assert(forall|j: int|
                0 <= j < pre.len() ==> is_digit(#[trigger] pre[j]) || j == pre.len() - 1);
        }
        if next > usize::MAX as u128 {
            proof {
                let pre = s@.subrange(lo as int, (i + 1) as int);
                let whole = s@.subrange(lo as int, hi as int);
                if all_digits(whole) {
                    assert(whole.take(i + 1 - lo) =~= pre);
                    lemma_digits_val_prefix(whole, i + 1 - lo);
                }
            }
            return None;
        }
        v = next;
        i = i + 1;
    }
    assert(s@.subrange(lo as int, i as int) =~= s@.subrange(lo as int, hi as int));
    Some(v as usize)
}

pub open spec fn digit_char(d: int) -> char {
    if d == 0 {
        '0'
    } else if d == 1 {
        '1'
    } else if d == 2 {
        '2'
    } else if d == 3 {
        '3'
    } else if d == 4 {
        '4'
    } else if d == 5 {
        '5'
    } else if d == 6 {
        '6'
    } else if d == 7 {
        '7'
    } else if d == 8 {
        '8'
    } else {
        '9'
    }
}

/// Decimal rendering of a non-negative number, no leading zeros
/// (a single `'0'` for zero).
pub open spec fn spec_dec_digits(n: int) -> Seq<char>
    decreases n,
{
    if n < 10 {
        seq![digit_char(n)]
    } else {
        spec_dec_digits(n / 10).push(digit_char(n % 10))
    }
}

fn digit_to_char(d: u64) -> (c: char)
    requires
        d < 10,
    ensures
        c == digit_char(d as int),
{
    if d == 0 {
        '0'
    } else if d == 1 {
        '1'
    } else if d == 2 {
        '2'
    } else if d == 3 {
        '3'
    } else if d == 4 {
        '4'
    } else if d == 5 {
        '5'
    } else if d == 6 {
        '6'
    } else if d == 7 {
        '7'
    } else if d == 8 {
        '8'
    } else {
        '9'
    }
}

/// Relies on `String::push`: appends exactly the one given character.
#[verifier::external_body]
pub fn push_char(s: &mut String, c: char)
    ensures
        final(s)@ == old(s)@.push(c),
{
    s.push(c);
}

/// Append the decimal rendering of `n` to `out`.
pub fn append_u64(out: &mut String, n: u64)
    ensures
        final(out)@ == old(out)@ + spec_dec_digits(n as int),
    decreases n,
{
    if n < 10 {
        push_char(out, digit_to_char(n));
        assert(old(out)@.push(digit_char(n as int)) =~= old(out)@ + spec_dec_digits(n as int));
    } else {
        append_u64(out, n / 10);
        push_char(out, digit_to_char(n % 10));
        assert((old(out)@ + spec_dec_digits(n as int / 10)).push(digit_char(n as int % 10))
            =~= old(out)@ + spec_dec_digits(n as int));
    }
}

/// Two-digit, zero-padded rendering, as in clock times.
pub open spec fn spec_two_digits(n: int) -> Seq<char> {
    seq![digit_char(n / 10), digit_char(n % 10)]
}

/// Append the two-digit, zero-padded rendering of `n` to `out`.
pub fn append_two_digits(out: &mut String, n: u64)
    requires
        n < 100,
    ensures
        final(out)@ == old(out)@ + spec_two_digits(n as int),
{
    push_char(out, digit_to_char(n / 10));
    push_char(out, digit_to_char(n % 10));
    assert(old(out)@.push(digit_char(n as int / 10)).push(digit_char(n as int % 10)) =~= old(
        out,
    )@ + spec_two_digits(n as int));
}

} // verus!
