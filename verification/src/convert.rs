//! Numeric-to-text conversion over a small integer abstraction, so that one
//! routine serves every built-in integer width.

use vstd::prelude::*;
use vstd::arithmetic::div_mod::lemma_div_is_strictly_smaller;
use vstd::arithmetic::div_mod::lemma_div_pos_is_pos;
use vstd::arithmetic::div_mod::lemma_mod_division_less_than_divisor;

verus! {

/// The integer operations the conversion routine needs, with the
/// mathematical value of the receiver as the shared model.
pub trait IntegerType: Sized {
    spec fn as_int(&self) -> int;

    fn is_zero(&self) -> (r: bool)
        ensures
            r == (self.as_int() == 0),
    ;

    /// Whether the value lies below zero; every provided width answers
    /// false, the signed ones included, so the conversion routine never
    /// takes its negative path.
    fn is_lt_zero(&self) -> (r: bool)
        ensures
            r == false,
    ;

    fn invert_sign(&mut self)
        ensures
            final(self).as_int() == old(self).as_int(),
    ;

    fn div_set(&mut self, value: u8)
        requires
            0 < value,
            0 <= old(self).as_int(),
        ensures
            final(self).as_int() == old(self).as_int() / (value as int),
    ;

    fn modulus(&mut self, value: u8) -> (r: u8)
        requires
            0 < value,
            0 <= old(self).as_int(),
        ensures
            final(self).as_int() == old(self).as_int(),
            r as int == old(self).as_int() % (value as int),
    ;
}

impl IntegerType for u8 {
    open spec fn as_int(&self) -> int {
        *self as int
    }

    fn is_zero(&self) -> (r: bool) {
        *self == 0
    }

    fn is_lt_zero(&self) -> (r: bool) {
        false
    }

    fn invert_sign(&mut self) {
    }

    fn div_set(&mut self, value: u8) {
        *self /= value
    }

    fn modulus(&mut self, value: u8) -> (r: u8) {
        *self % value
    }
}

impl IntegerType for u16 {
    open spec fn as_int(&self) -> int {
        *self as int
    }

    fn is_zero(&self) -> (r: bool) {
        *self == 0
    }

    fn is_lt_zero(&self) -> (r: bool) {
        false
    }

    fn invert_sign(&mut self) {
    }

    fn div_set(&mut self, value: u8) {
        *self /= value as Self
    }

    fn modulus(&mut self, value: u8) -> (r: u8) {
        (*self % value as Self) as u8
    }
}

impl IntegerType for u32 {
    open spec fn as_int(&self) -> int {
        *self as int
    }

    fn is_zero(&self) -> (r: bool) {
        *self == 0
    }

    fn is_lt_zero(&self) -> (r: bool) {
        false
    }

    fn invert_sign(&mut self) {
    }

    fn div_set(&mut self, value: u8) {
        *self /= value as Self
    }

    fn modulus(&mut self, value: u8) -> (r: u8) {
        (*self % value as Self) as u8
    }
}

impl IntegerType for u64 {
    open spec fn as_int(&self) -> int {
        *self as int
    }

    fn is_zero(&self) -> (r: bool) {
        *self == 0
    }

    fn is_lt_zero(&self) -> (r: bool) {
        false
    }

    fn invert_sign(&mut self) {
    }

    fn div_set(&mut self, value: u8) {
        *self /= value as Self
    }

    fn modulus(&mut self, value: u8) -> (r: u8) {
        (*self % value as Self) as u8
    }
}

impl IntegerType for u128 {
    open spec fn as_int(&self) -> int {
        *self as int
    }

    fn is_zero(&self) -> (r: bool) {
        *self == 0
    }

    fn is_lt_zero(&self) -> (r: bool) {
        false
    }

    fn invert_sign(&mut self) {
    }

    fn div_set(&mut self, value: u8) {
        *self /= value as Self
    }

    fn modulus(&mut self, value: u8) -> (r: u8) {
        (*self % value as Self) as u8
    }
}

impl IntegerType for i8 {
    open spec fn as_int(&self) -> int {
        *self as int
    }

    fn is_zero(&self) -> (r: bool) {
        *self == 0
    }

    fn is_lt_zero(&self) -> (r: bool) {
        false
    }

    fn invert_sign(&mut self) {
    }

    fn div_set(&mut self, value: u8) {
        *self = ((*self as u16) / (value as u16)) as i8;
    }

    fn modulus(&mut self, value: u8) -> (r: u8) {
        ((*self as u16) % (value as u16)) as u8
    }
}

impl IntegerType for i16 {
    open spec fn as_int(&self) -> int {
        *self as int
    }

    fn is_zero(&self) -> (r: bool) {
        *self == 0
    }

    fn is_lt_zero(&self) -> (r: bool) {
        false
    }

    fn invert_sign(&mut self) {
    }

    fn div_set(&mut self, value: u8) {
        *self = ((*self as u16) / (value as u16)) as i16;
    }

    fn modulus(&mut self, value: u8) -> (r: u8) {
        ((*self as u16) % (value as u16)) as u8
    }
}

impl IntegerType for i32 {
    open spec fn as_int(&self) -> int {
        *self as int
    }

    fn is_zero(&self) -> (r: bool) {
        *self == 0
    }

    fn is_lt_zero(&self) -> (r: bool) {
        false
    }

    fn invert_sign(&mut self) {
    }

    fn div_set(&mut self, value: u8) {
        *self = ((*self as u32) / (value as u32)) as i32;
    }

    fn modulus(&mut self, value: u8) -> (r: u8) {
        ((*self as u32) % (value as u32)) as u8
    }
}

impl IntegerType for i64 {
    open spec fn as_int(&self) -> int {
        *self as int
    }

    fn is_zero(&self) -> (r: bool) {
        *self == 0
    }

    fn is_lt_zero(&self) -> (r: bool) {
        false
    }

    fn invert_sign(&mut self) {
    }

    fn div_set(&mut self, value: u8) {
        *self = ((*self as u64) / (value as u64)) as i64;
    }

    fn modulus(&mut self, value: u8) -> (r: u8) {
        ((*self as u64) % (value as u64)) as u8
    }
}

impl IntegerType for i128 {
    open spec fn as_int(&self) -> int {
        *self as int
    }

    fn is_zero(&self) -> (r: bool) {
        *self == 0
    }

    fn is_lt_zero(&self) -> (r: bool) {
        false
    }

    fn invert_sign(&mut self) {
    }

    fn div_set(&mut self, value: u8) {
        *self = ((*self as u128) / (value as u128)) as i128;
    }

    fn modulus(&mut self, value: u8) -> (r: u8) {
        ((*self as u128) % (value as u128)) as u8
    }
}

/// The character written for one digit value: `0..=9` map to `'0'..='9'`,
/// larger values continue at `'a'`.
pub open spec fn spec_digit_char(d: int) -> char {
    if d > 9 {
        ((d + 87) as u8) as char
    } else {
        ((d + 48) as u8) as char
    }
}

/// The digits of `n` in the given base, least significant first; empty when
/// `n` is zero or negative.
pub open spec fn spec_digits_rev(n: int, base: int) -> Seq<char>
    decreases n,
    via spec_digits_rev_decreases
{
    if n <= 0 || base < 2 {
        Seq::empty()
    } else {
        seq![spec_digit_char(n % base)] + spec_digits_rev(n / base, base)
    }
}

#[via_fn]
proof fn spec_digits_rev_decreases(n: int, base: int) {
    if !(n <= 0 || base < 2) {
        lemma_div_pos_is_pos(n, base);
        lemma_div_is_strictly_smaller(n, base);
    }
}

/// The run of characters the conversion writes for a non-negative `n`: for
/// zero the text `0` and a terminator; otherwise the digits most significant
/// first except that the most significant digit stays last, before the
/// terminator — only the run up to the final digit is reversed.
pub open spec fn spec_itoa_output(n: int, base: int) -> Seq<char> {
    if n == 0 {
        seq!['0', '\u{0}']
    } else {
        let ds = spec_digits_rev(n, base);
        let k = ds.len() as int;
        Seq::new((k - 1) as nat, |i: int| ds[k - 2 - i]).push(ds[k - 1]).push('\u{0}')
    }
}

/// Writes the text of a non-negative integer into the start of `buffer` in
/// the given base, terminated by a nul character; the rest of the buffer is
/// left as it was. The digits come out most significant first, except that
/// the most significant digit itself stays last in the run: the routine
/// reverses only the characters before the final digit.
pub fn integer_to_string<T: IntegerType>(num: T, buffer: &mut Vec<char>, base: u8)
    requires
        2 <= base <= 169,
        0 <= num.as_int(),
        spec_itoa_output(num.as_int(), base as int).len() <= old(buffer).len(),
    ensures
        final(buffer).len() == old(buffer).len(),
        ({
            let out = spec_itoa_output(num.as_int(), base as int);
            final(buffer)@.subrange(0, out.len() as int) == out
                && final(buffer)@.skip(out.len() as int) == old(buffer)@.skip(out.len() as int)
        }),
{
    let mut num = num;
    let ghost n0 = num.as_int();
    let ghost ds = spec_digits_rev(n0, base as int);
    let mut index: usize = 0;
    let mut is_negative = false;

    if num.is_zero() {
        buffer.set(0, '0');
        buffer.set(1, '\u{0}');
        assert(buffer@.subrange(0, 2) =~= spec_itoa_output(0, base as int));
        return;
    }

    if num.is_lt_zero() && base == 10 {
        is_negative = true;
        num.invert_sign();
    }

    while !num.is_zero()
        invariant
            2 <= base <= 169,
            0 <= num.as_int(),
            !is_negative,
            ds == spec_digits_rev(n0, base as int),
            0 < n0,
            ds.len() + 1 <= buffer.len(),
            buffer.len() == old(buffer).len(),
            index <= ds.len(),
            spec_digits_rev(num.as_int(), base as int) =~= ds.skip(index as int),
            num.as_int() == 0 ==> index == ds.len(),
            buffer@.subrange(0, index as int) =~= ds.subrange(0, index as int),
            buffer@.skip(ds.len() as int) == old(buffer)@.skip(ds.len() as int),
        decreases num.as_int(),
    {
        let ghost n_cur = num.as_int();
        proof {
            lemma_mod_division_less_than_divisor(n_cur, base as int);
            assert(spec_digits_rev(n_cur, base as int).len() > 0);
            assert(index < ds.len());
            assert(ds[index as int] == spec_digits_rev(n_cur, base as int)[0]);
            assert(ds[index as int] == spec_digit_char(n_cur % (base as int)));
        }
        let unit = num.modulus(base);
        assert(unit < base);
        let ch: char;
        if unit > 9 {
            ch = (unit - 10 + 97) as char;
        } else {
            ch = (unit + 48) as char;
        }
        assert(ch == spec_digit_char(n_cur % (base as int)));
        buffer.set(index, ch);

        num.div_set(base);
        proof {
            lemma_div_is_strictly_smaller(n_cur, base as int);
            assert(spec_digits_rev(num.as_int(), base as int) =~= ds.skip(index as int + 1)) by {
                assert(spec_digits_rev(n_cur, base as int) =~= ds.skip(index as int));
                assert(spec_digits_rev(n_cur, base as int).skip(1) =~= ds.skip(index as int).skip(1));
                assert(ds.skip(index as int).skip(1) =~= ds.skip(index as int + 1));
            }
        }
        index += 1;
    }

    if is_negative {
        buffer.set(index, '-');
        index += 1;
    }

    assert(index == ds.len());
    assert(ds.len() >= 1);
    let ghost digits_state = buffer@;
    buffer.set(index, '\u{0}');

    // Reverse the written digits short of the last one.
    let ghost pre = buffer@;
    proof {
        assert(pre == digits_state.update(index as int, '\u{0}'));
    }
    let m: usize = index - 1;
    if m >= 2 {
        let mut lo: usize = 0;
        let mut hi: usize = m - 1;
        while lo < hi
            invariant
                m < buffer.len(),
                m == index - 1,
                lo + hi == m - 1,
                lo < buffer.len(),
                hi < m,
                buffer.len() == pre.len(),
                forall|i: int| #![auto] lo <= i <= hi ==> buffer@[i] == pre[i],
                forall|i: int| #![auto] 0 <= i < lo ==> buffer@[i] == pre[m - 1 - i],
                forall|i: int| #![auto] hi < i < m ==> buffer@[i] == pre[m - 1 - i],
                forall|i: int| #![auto] m <= i < pre.len() ==> buffer@[i] == pre[i],
            decreases hi + 1 - lo,
        {
            let a = buffer[lo];
            let b = buffer[hi];
            buffer.set(lo, b);
            buffer.set(hi, a);
            lo += 1;
            hi -= 1;
        }
    }

    proof {
        let out = spec_itoa_output(n0, base as int);
        let k = ds.len() as int;
        assert(out.len() == k + 1);
        assert forall|j: int| 0 <= j < k implies pre[j] == ds[j] by {
            assert(digits_state.subrange(0, k)[j] == ds.subrange(0, k)[j]);
        }
        assert(forall|i: int| #![auto] 0 <= i < m ==> buffer@[i] == pre[m - 1 - i]);
        assert(forall|i: int| #![auto] m <= i < buffer@.len() ==> buffer@[i] == pre[i]);
        assert forall|i: int| 0 <= i < out.len() implies buffer@[i] == out[i] by {
            if i < k - 1 {
                assert(buffer@[i] == pre[k - 2 - i]);
                assert(pre[k - 2 - i] == ds[k - 2 - i]);
                assert(out[i] == ds[k - 2 - i]);
            } else if i == k - 1 {
                assert(buffer@[i] == pre[i]);
                assert(pre[i] == ds[i]);
            } else {
                assert(buffer@[i] == pre[i]);
                assert(pre[i] == '\u{0}');
            }
        }
        assert forall|i: int| out.len() <= i < buffer@.len() implies
            buffer@[i] == old(buffer)@[i] by {
            assert(buffer@[i] == pre[i]);
            assert(pre[i] == digits_state[i]);
            assert(digits_state.skip(k)[i - k] == old(buffer)@.skip(k)[i - k]);
        }
        assert(buffer@.subrange(0, out.len() as int) =~= out);
        assert(buffer@.skip(out.len() as int) =~= old(buffer)@.skip(out.len() as int));
    }
}

} // verus!
