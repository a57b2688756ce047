//! Decimal digit strings: the numeric value of a digit sequence, the
//! canonical digit sequence of a number, and verified parsing and rendering
//! of unsigned 128-bit amounts.

use vstd::prelude::*;
use crate::text::str_chars_vec;

verus! {

/// Whether `c` is an ASCII decimal digit.
pub open spec fn is_digit_char(c: char) -> bool {
    '0' <= c && c <= '9'
}

/// The numeric value of a single digit character.
pub open spec fn digit_val(c: char) -> int {
    c as int - '0' as int
}

/// Whether every character of `s` is a decimal digit.
pub open spec fn all_digits(s: Seq<char>) -> bool {
    forall|i: int| 0 <= i < s.len() ==> is_digit_char(s[i])
}

/// The numeric value of a digit sequence, most significant digit first.
pub open spec fn digits_value(s: Seq<char>) -> int
    decreases s.len(),
{
    if s.len() == 0 {
        0
    } else {
        digits_value(s.drop_last()) * 10 + digit_val(s.last())
    }
}

/// The digit character of a value below ten.
pub open spec fn digit_char(d: nat) -> char {
    (d + '0' as int) as char
}

/// The canonical decimal rendering of `n`: no sign, no leading zeros
/// (a single `'0'` for zero).
pub open spec fn dec_digits(n: nat) -> Seq<char>
    decreases n,
{
    if n < 10 {
        seq![digit_char(n)]
    } else {
        dec_digits(n / 10) + seq![digit_char(n % 10)]
    }
}

/// Every canonical rendering is a non-empty digit string.
pub proof fn lemma_dec_digits_shape(n: nat)
    ensures
        dec_digits(n).len() >= 1,
        all_digits(dec_digits(n)),
    decreases n,
{
    if n < 10 {
        assert(is_digit_char(digit_char(n)));
    } else {
        lemma_dec_digits_shape(n / 10);
        assert(is_digit_char(digit_char(n % 10)));
        assert forall|i: int| 0 <= i < dec_digits(n).len() implies is_digit_char(
            dec_digits(n)[i],
        ) by {
            if i < dec_digits(n / 10).len() {
                assert(dec_digits(n)[i] == dec_digits(n / 10)[i]);
            }
        }
    }
}

/// Appending a digit multiplies the value by ten and adds the digit.
pub proof fn lemma_digits_value_snoc(s: Seq<char>, c: char)
    ensures
        digits_value(s.push(c)) == digits_value(s) * 10 + digit_val(c),
{
    assert(s.push(c).drop_last() =~= s);
    assert(s.push(c).last() == c);
}

/// The value of the canonical rendering of `n` is `n`.
pub proof fn lemma_dec_digits_value(n: nat)
    ensures
        digits_value(dec_digits(n)) == n,
    decreases n,
{
    if n < 10 {
        let s = dec_digits(n);
        assert(s.len() == 1);
        assert(s.last() == digit_char(n));
        assert(s.drop_last() =~= Seq::<char>::empty());
        assert(digits_value(Seq::<char>::empty()) == 0);
        assert(n + ('0' as int) < 0xD800);
        assert(digit_char(n) as int == n + ('0' as int));
        assert(digit_val(digit_char(n)) == n);
        assert(digits_value(s) == digits_value(s.drop_last()) * 10 + digit_val(s.last()));
    } else {
        lemma_dec_digits_value(n / 10);
        assert(dec_digits(n) =~= dec_digits(n / 10).push(digit_char(n % 10)));
        lemma_digits_value_snoc(dec_digits(n / 10), digit_char(n % 10));
        assert(n % 10 + ('0' as int) < 0xD800);
        assert(digit_char(n % 10) as int == n % 10 + ('0' as int));
        assert(digit_val(digit_char(n % 10)) == n % 10);
        vstd::arithmetic::div_mod::lemma_fundamental_div_mod(n as int, 10);
    }
}

/// A digit string has a non-negative value.
pub proof fn lemma_digits_value_nonneg(s: Seq<char>)
    requires
        all_digits(s),
    ensures
        digits_value(s) >= 0,
    decreases s.len(),
{
    if s.len() > 0 {
        lemma_digits_value_nonneg(s.drop_last());
        assert(digits_value(s.drop_last()) * 10 >= 0) by (nonlinear_arith)
            requires
                digits_value(s.drop_last()) >= 0,
        ;
    }
}

/// The value of a digit string only grows as digits are appended.
pub proof fn lemma_digits_value_take_le(s: Seq<char>, k: int)
    requires
        all_digits(s),
        0 <= k <= s.len(),
    ensures
        digits_value(s.take(k)) <= digits_value(s),
    decreases s.len() - k,
{
    if k < s.len() {
        lemma_digits_value_take_le(s, k + 1);
        let t = s.take(k + 1);
        assert(t.drop_last() =~= s.take(k));
        assert(digits_value(t) == digits_value(s.take(k)) * 10 + digit_val(t.last()));
        lemma_digits_value_nonneg(s.take(k));
        assert(digits_value(s.take(k)) * 10 >= digits_value(s.take(k))) by (nonlinear_arith)
            requires
                digits_value(s.take(k)) >= 0,
        ;
        assert(digit_val(t.last()) >= 0);
    } else {
        assert(s.take(k) =~= s);
    }
}

/// The longest digit prefix of `s`, and what follows it.
pub open spec fn take_digits(s: Seq<char>) -> (Seq<char>, Seq<char>)
    decreases s.len(),
{
    if s.len() == 0 || !is_digit_char(s[0]) {
        (Seq::empty(), s)
    } else {
        let rec = take_digits(s.drop_first());
        (seq![s[0]] + rec.0, rec.1)
    }
}

/// Splitting a digit string followed by a non-digit recovers both parts.
pub proof fn lemma_take_digits(d: Seq<char>, rest: Seq<char>)
    requires
        all_digits(d),
        rest.len() > 0 ==> !is_digit_char(rest[0]),
    ensures
        take_digits(d + rest) == (d, rest),
    decreases d.len(),
{
    let s = d + rest;
    if d.len() == 0 {
        assert(s =~= rest);
        assert(take_digits(s).0 =~= d);
    } else {
        assert(is_digit_char(s[0]));
        assert(s.drop_first() =~= d.drop_first() + rest);
        lemma_take_digits(d.drop_first(), rest);
        assert(take_digits(s).0 =~= d);
    }
}

/// The digit prefix of a string is made of digits.
pub proof fn lemma_take_digits_all(s: Seq<char>)
    ensures
        all_digits(take_digits(s).0),
    decreases s.len(),
{
    if s.len() == 0 || !is_digit_char(s[0]) {
    } else {
        lemma_take_digits_all(s.drop_first());
        let rec = take_digits(s.drop_first());
        assert forall|i: int| 0 <= i < take_digits(s).0.len() implies is_digit_char(
            take_digits(s).0[i],
        ) by {
            if i > 0 {
                assert(take_digits(s).0[i] == rec.0[i - 1]);
            }
        }
    }
}

/// Scan the digit run beginning at position `i`, returning the digits and
/// the position after them.
pub fn scan_digits(v: &Vec<char>, i: usize) -> (r: (Vec<char>, usize))
    requires
        i <= v@.len(),
    ensures
        i <= r.1 <= v@.len(),
        take_digits(v@.skip(i as int)) == (r.0@, v@.skip(r.1 as int)),
{
    let mut out: Vec<char> = Vec::new();
    let mut j: usize = i;
    proof {
        assert(Seq::<char>::empty() + take_digits(v@.skip(i as int)).0 =~= take_digits(
            v@.skip(i as int),
        ).0);
    }
    loop
        invariant_except_break
            i <= j <= v@.len(),
            take_digits(v@.skip(i as int)).0 == out@ + take_digits(v@.skip(j as int)).0,
            take_digits(v@.skip(i as int)).1 == take_digits(v@.skip(j as int)).1,
        ensures
            i <= j <= v@.len(),
            take_digits(v@.skip(i as int)) == (out@, v@.skip(j as int)),
        decreases v@.len() - j,
    {
        if j == v.len() {
            proof {
                assert(v@.skip(j as int).len() == 0);
                assert(out@ + Seq::<char>::empty() =~= out@);
            }
            break;
        }
        let c = v[j];
        if !(c >= '0' && c <= '9') {
            proof {
                let s = v@.skip(j as int);
                assert(s[0] == c);
                assert(!is_digit_char(s[0]));
                assert(out@ + Seq::<char>::empty() =~= out@);
            }
            break;
        }
        let ghost prev = out@;
        out.push(c);
        proof {
            let s = v@.skip(j as int);
            assert(s[0] == c && is_digit_char(s[0]));
            assert(s.drop_first() =~= v@.skip(j + 1));
            let rec = take_digits(v@.skip(j + 1));
            assert(take_digits(s) == (seq![s[0]] + rec.0, rec.1));
            assert(prev + (seq![s[0]] + rec.0) =~= out@ + rec.0);
        }
        j = j + 1;
    }
    (out, j)
}

/// Parse a character vector as an unsigned 128-bit decimal integer.
/// Returns the value exactly when the input is a non-empty all-digit string
/// whose value fits in 128 bits.
pub fn parse_u128_chars(v: &Vec<char>) -> (r: Option<u128>)
    ensures
        r is Some <==> v@.len() > 0 && all_digits(v@) && digits_value(v@) <= u128::MAX,
        r is Some ==> r->0 == digits_value(v@),
{
    if v.len() == 0 {
        return None;
    }
    let mut acc: u128 = 0;
    let mut i: usize = 0;
    while i < v.len()
        invariant
            0 <= i <= v@.len(),
            all_digits(v@.take(i as int)),
            acc == digits_value(v@.take(i as int)),
        decreases v@.len() - i,
    {
        let c = v[i];
        if !(c >= '0' && c <= '9') {
            assert(!is_digit_char(v@[i as int]));
            return None;
        }
        let d: u128 = (c as u8 - 48) as u128;
        assert(d == digit_val(v@[i as int]));
        proof {
            lemma_digits_value_snoc(v@.take(i as int), v@[i as int]);
            assert(v@.take(i as int).push(v@[i as int]) =~= v@.take(i + 1));
        }
        if acc > (u128::MAX - d) / 10 {
            proof {
                lemma_mul_div_overflow(acc as int, d as int);
                if all_digits(v@) {
                    lemma_digits_value_take_le(v@, i + 1);
                }
            }
            return None;
        }
        proof {
            lemma_mul_div_fits(acc as int, d as int);
        }
        acc = acc * 10 + d;
        i = i + 1;
        proof {
            assert(all_digits(v@.take(i as int)));
        }
    }
    proof {
        assert(v@.take(i as int) =~= v@);
    }
    Some(acc)
}

/// If `a` exceeds `(MAX - d) / 10`, then `a * 10 + d` exceeds `u128::MAX`.
proof fn lemma_mul_div_overflow(a: int, d: int)
    requires
        0 <= d <= 9,
        a > (u128::MAX - d) / 10,
    ensures
        a * 10 + d > u128::MAX,
{
    let m = u128::MAX - d;
    vstd::arithmetic::div_mod::lemma_fundamental_div_mod(m, 10);
    assert(a * 10 >= (m / 10) * 10 + 10) by (nonlinear_arith)
        requires
            a >= m / 10 + 1,
    ;
    assert((m / 10) * 10 + 10 > m);
}

/// If `a` is at most `(MAX - d) / 10`, then `a * 10 + d` fits in `u128`.
proof fn lemma_mul_div_fits(a: int, d: int)
    requires
        0 <= d <= 9,
        0 <= a <= (u128::MAX - d) / 10,
    ensures
        a * 10 + d <= u128::MAX,
{
    let m = u128::MAX - d;
    vstd::arithmetic::div_mod::lemma_fundamental_div_mod(m, 10);
    assert(a * 10 <= (m / 10) * 10) by (nonlinear_arith)
        requires
            a <= m / 10,
    ;
    assert((m / 10) * 10 <= m);
}

/// Parse a string as an unsigned 128-bit decimal integer: the amount format
/// of a transfer request.
pub fn parse_u128(s: &str) -> (r: Option<u128>)
    ensures
        r is Some <==> s@.len() > 0 && all_digits(s@) && digits_value(s@) <= u128::MAX,
        r is Some ==> r->0 == digits_value(s@),
{
    let v = str_chars_vec(s);
    parse_u128_chars(&v)
}

/// Append the canonical decimal rendering of `n` to `out`.
pub fn push_dec_digits(n: u128, out: &mut Vec<char>)
    ensures
        final(out)@ == old(out)@ + dec_digits(n as nat),
    decreases n,
{
    if n < 10 {
        let ghost prev = out@;
        let d = n as u8 + 48;
        out.push(d as char);
        assert(d as char == digit_char(n as nat));
        assert(out@ =~= prev + dec_digits(n as nat));
    } else {
        let ghost prev = out@;
        push_dec_digits(n / 10, out);
        let d = (n % 10) as u8 + 48;
        out.push(d as char);
        assert(d as char == digit_char((n % 10) as nat));
        assert(out@ =~= prev + dec_digits(n as nat));
    }
}

/// The canonical decimal rendering of `n` as a character vector.
pub fn u128_to_chars(n: u128) -> (r: Vec<char>)
    ensures
        r@ == dec_digits(n as nat),
{
    let mut out: Vec<char> = Vec::new();
    push_dec_digits(n, &mut out);
    out
}

} // verus!
