//! The cursor store codec: a cursor value is persisted as a fixed-width record
//! of ASCII decimal digits, and read back by folding the digits left to right
//! while every other byte is skipped.

use vstd::prelude::*;
use vstd::arithmetic::div_mod::{
    lemma_breakdown, lemma_div_basics, lemma_div_denominator, lemma_fundamental_div_mod,
    lemma_small_mod,
};

verus! {

/// Width in bytes of the on-disk cursor record.
pub const RECORD_SIZE: usize = 8;

/// ASCII code of the digit zero.
pub const ASCII_ZERO: u8 = 48;

/// ASCII code of the digit nine.
pub const ASCII_NINE: u8 = 57;

/// Whether a byte is an ASCII decimal digit.
pub open spec fn is_digit_byte(b: u8) -> bool {
    ASCII_ZERO <= b && b <= ASCII_NINE
}

/// The digit bytes of `bytes` in order, with every other byte dropped.
pub open spec fn digit_bytes(bytes: Seq<u8>) -> Seq<u8>
    decreases bytes.len(),
{
    if bytes.len() == 0 {
        Seq::empty()
    } else if is_digit_byte(bytes.last()) {
        digit_bytes(bytes.drop_last()).push(bytes.last())
    } else {
        digit_bytes(bytes.drop_last())
    }
}

/// The number that a sequence of ASCII digit bytes denotes, most significant
/// digit first.
pub open spec fn decimal_value(digits: Seq<u8>) -> nat
    decreases digits.len(),
{
    if digits.len() == 0 {
        0
    } else {
        decimal_value(digits.drop_last()) * 10 + (digits.last() - ASCII_ZERO) as nat
    }
}

/// Ten to the `n`.
pub open spec fn pow10(n: nat) -> nat
    decreases n,
{
    if n == 0 {
        1
    } else {
        10 * pow10((n - 1) as nat)
    }
}

/// Every byte of `digit_bytes(bytes)` is a digit, and no bytes are invented.
proof fn lemma_digit_bytes_shape(bytes: Seq<u8>)
    ensures
        digit_bytes(bytes).len() <= bytes.len(),
        forall|j: int|
            0 <= j < digit_bytes(bytes).len() ==> is_digit_byte(#[trigger] digit_bytes(bytes)[j]),
    decreases bytes.len(),
{
    if bytes.len() > 0 {
        lemma_digit_bytes_shape(bytes.drop_last());
    }
}

/// A digit string of length `n` denotes a value below `pow10(n)`.
proof fn lemma_decimal_value_bound(digits: Seq<u8>)
    requires
        forall|j: int| 0 <= j < digits.len() ==> is_digit_byte(#[trigger] digits[j]),
    ensures
        decimal_value(digits) < pow10(digits.len()),
    decreases digits.len(),
{
    if digits.len() > 0 {
        assert(forall|j: int|
            0 <= j < digits.drop_last().len() ==> is_digit_byte(
                #[trigger] digits.drop_last()[j],
            ));
        lemma_decimal_value_bound(digits.drop_last());
    }
}

proof fn lemma_pow10_monotone(a: nat, b: nat)
    requires
        a <= b,
    ensures
        pow10(a) <= pow10(b),
    decreases b,
{
    if a < b {
        lemma_pow10_monotone(a, (b - 1) as nat);
    }
}

/// Reads a cursor value out of a record's bytes: the decimal digits are folded
/// left to right (`value = value * 10 + digit`) and every non-digit byte is
/// ignored.
pub fn parse_lines_to_skip(file_line_buff: &[u8]) -> (result: u64)
    requires
        file_line_buff@.len() <= RECORD_SIZE,
    ensures
        result == decimal_value(digit_bytes(file_line_buff@)),
{
    let mut result: u64 = 0;
    let mut i: usize = 0;
    while i < file_line_buff.len()
        invariant
            i <= file_line_buff@.len() <= RECORD_SIZE,
            result == decimal_value(digit_bytes(file_line_buff@.take(i as int))),
        decreases file_line_buff@.len() - i,
    {
        let prefix = Ghost(file_line_buff@.take(i as int));
        let extended = Ghost(file_line_buff@.take(i + 1 as int));
        proof {
            assert(extended@.drop_last() =~= prefix@);
            assert(extended@.last() == file_line_buff@[i as int]);
            lemma_digit_bytes_shape(prefix@);
            lemma_decimal_value_bound(digit_bytes(prefix@));
            lemma_pow10_monotone(digit_bytes(prefix@).len(), (RECORD_SIZE - 1) as nat);
            assert(pow10((RECORD_SIZE - 1) as nat) == 10000000) by {
                reveal_with_fuel(pow10, 9);
            }
        }
        let digit = file_line_buff[i];
        if ASCII_ZERO <= digit && digit <= ASCII_NINE {
            proof {
                assert(digit_bytes(extended@) =~= digit_bytes(prefix@).push(digit));
                assert(digit_bytes(extended@).drop_last() =~= digit_bytes(prefix@));
            }
            result = result * 10 + (digit - ASCII_ZERO) as u64;
        } else {
            proof {
                assert(digit_bytes(extended@) =~= digit_bytes(prefix@));
            }
        }
        i = i + 1;
    }
    proof {
        assert(file_line_buff@.take(file_line_buff@.len() as int) =~= file_line_buff@);
    }
    result
}

/// Number of decimal digits in `num` (one for zero).
pub open spec fn digit_count(num: nat) -> nat
    decreases num,
{
    if num < 10 {
        1
    } else {
        1 + digit_count(num / 10)
    }
}

/// The last `w` decimal digits of `num` as ASCII bytes, least significant
/// digit last, zero digits filling the front when `num` is short.
pub open spec fn low_digits(num: nat, w: nat) -> Seq<u8>
    decreases w,
{
    if w == 0 {
        Seq::empty()
    } else {
        low_digits(num / 10, (w - 1) as nat).push((ASCII_ZERO + num % 10) as u8)
    }
}

/// The bytes of a width-`n` record holding cursor value `num`: the decimal
/// digits of `num` (only the least significant `n` of them when there are
/// more), followed by zero filler bytes up to the record width.
pub open spec fn record_bytes(num: nat, n: nat) -> Seq<u8> {
    let w = if digit_count(num) <= n {
        digit_count(num)
    } else {
        n
    };
    low_digits(num, w) + Seq::new((n - w) as nat, |j: int| 0u8)
}

proof fn lemma_pow10_pos(n: nat)
    ensures
        pow10(n) >= 1,
    decreases n,
{
    if n > 0 {
        lemma_pow10_pos((n - 1) as nat);
    }
}

/// Peeling the most significant of `w + 1` digits off the front.
proof fn lemma_low_digits_cons(num: nat, w: nat)
    ensures
        low_digits(num, (w + 1) as nat) =~= seq![
            (ASCII_ZERO + (num / pow10(w)) % 10) as u8,
        ] + low_digits(num, w),
    decreases w,
{
    lemma_pow10_pos(w);
    if w == 0 {
        lemma_div_basics(num as int);
        assert(num / pow10(0) == num);
        assert(low_digits(num / 10, 0) =~= Seq::<u8>::empty());
        assert(low_digits(num, 1) =~= seq![(ASCII_ZERO + num % 10) as u8]);
    } else {
        lemma_low_digits_cons(num / 10, (w - 1) as nat);
        lemma_div_denominator(num as int, 10, pow10((w - 1) as nat) as int);
        assert((num / 10) / pow10((w - 1) as nat) == num / pow10(w));
        let d0 = (ASCII_ZERO + num % 10) as u8;
        let h = (ASCII_ZERO + (num / pow10(w)) % 10) as u8;
        assert(low_digits(num, (w + 1) as nat) == low_digits(num / 10, w).push(d0));
        assert(low_digits(num / 10, w) =~= seq![h] + low_digits(num / 10, (w - 1) as nat));
        assert(low_digits(num, w) == low_digits(num / 10, (w - 1) as nat).push(d0));
        assert((seq![h] + low_digits(num / 10, (w - 1) as nat)).push(d0) =~= seq![h]
            + low_digits(num / 10, (w - 1) as nat).push(d0));
    }
}

/// Every byte of `low_digits` is an ASCII digit.
proof fn lemma_low_digits_shape(num: nat, w: nat)
    ensures
        low_digits(num, w).len() == w,
        forall|j: int| 0 <= j < w ==> is_digit_byte(#[trigger] low_digits(num, w)[j]),
    decreases w,
{
    if w > 0 {
        lemma_low_digits_shape(num / 10, (w - 1) as nat);
    }
}

/// `low_digits` denotes the value of `num` modulo `pow10(w)`.
proof fn lemma_low_digits_value(num: nat, w: nat)
    ensures
        decimal_value(low_digits(num, w)) == num % pow10(w),
    decreases w,
{
    lemma_pow10_pos(w);
    if w == 0 {
        lemma_small_mod(0, 1);
        lemma_fundamental_div_mod(num as int, 1);
        assert(num % 1 == 0);
    } else {
        lemma_low_digits_value(num / 10, (w - 1) as nat);
        let tail = low_digits(num / 10, (w - 1) as nat);
        let d = (ASCII_ZERO + num % 10) as u8;
        assert(low_digits(num, w) == tail.push(d));
        assert(tail.push(d).drop_last() =~= tail);
        lemma_pow10_pos((w - 1) as nat);
        lemma_breakdown(num as int, 10, pow10((w - 1) as nat) as int);
        assert(num % pow10(w) == 10 * ((num / 10) % pow10((w - 1) as nat)) + num % 10);
    }
}

/// `num` has fewer than `pow10(digit_count(num))`, and at least
/// `pow10(digit_count(num) - 1)` unless it is zero.
proof fn lemma_digit_count_bounds(num: nat)
    ensures
        digit_count(num) >= 1,
        num < pow10(digit_count(num)),
        num == 0 || num >= pow10((digit_count(num) - 1) as nat),
    decreases num,
{
    if num < 10 {
        assert(pow10(1) == 10) by {
            reveal_with_fuel(pow10, 2);
        }
    } else {
        lemma_digit_count_bounds(num / 10);
        let c = digit_count(num / 10);
        lemma_fundamental_div_mod(num as int, 10);
        assert(num == 10 * (num / 10) + num % 10);
        assert(num / 10 < pow10(c));
        assert(num < 10 * pow10(c));
        assert(pow10(c + 1) == 10 * pow10(c));
        assert(num / 10 >= pow10((c - 1) as nat));
        assert(num >= 10 * pow10((c - 1) as nat));
        assert(pow10(c) == 10 * pow10((c - 1) as nat));
    }
}

/// A value that fits the digit window `w` snugly has exactly `w` digits.
proof fn lemma_digit_count_unique(num: nat, w: nat)
    requires
        w >= 1,
        num < pow10(w),
        w == 1 || num >= pow10((w - 1) as nat),
    ensures
        digit_count(num) == w,
    decreases w,
{
    if w == 1 {
        assert(pow10(1) == 10) by {
            reveal_with_fuel(pow10, 2);
        }
    } else {
        assert(pow10((w - 1) as nat) >= pow10(1)) by {
            lemma_pow10_monotone(1, (w - 1) as nat);
        }
        assert(pow10(1) == 10) by {
            reveal_with_fuel(pow10, 2);
        }
        assert(num >= 10);
        lemma_fundamental_div_mod(num as int, 10);
        assert(pow10(w) == 10 * pow10((w - 1) as nat));
        assert(pow10((w - 1) as nat) == 10 * pow10((w - 2) as nat));
        assert(num / 10 < pow10((w - 1) as nat));
        assert(num / 10 >= pow10((w - 2) as nat));
        lemma_digit_count_unique(num / 10, (w - 1) as nat);
    }
}

/// Renders a cursor value into a fixed-width record: the decimal digits of
/// `num` are written out, least significant digit ending the run, and the
/// remaining width is left as zero bytes. When `num` has more digits than the
/// record holds, only the least significant ones are kept.
pub fn u64_to_array<const N: usize>(num: u64) -> (r: [u8; N])
    requires
        N <= RECORD_SIZE,
    ensures
        r@ == record_bytes(num as nat, N as nat),
{
    let mut buf: [u8; N] = [0u8; N];
    if N == 0 {
        proof {
            assert(buf@ =~= record_bytes(num as nat, N as nat));
        }
        return buf;
    }
    let mut n: u64 = num;
    let mut i: usize = N;
    proof {
        lemma_div_basics(num as int);
    }
    loop
        invariant_except_break
            0 < i <= N,
            n == num as nat / pow10((N - i) as nat),
            buf@ == Seq::new(i as nat, |j: int| 0u8) + low_digits(num as nat, (N - i) as nat),
            i == N || num as nat >= pow10((N - i) as nat),
        ensures
            i <= N,
            buf@ == Seq::new(i as nat, |j: int| 0u8) + low_digits(num as nat, (N - i) as nat),
            if digit_count(num as nat) <= N as nat {
                N - i == digit_count(num as nat)
            } else {
                i == 0
            },
        decreases i,
    {
        let ghost w_old = (N - i) as nat;
        proof {
            lemma_pow10_pos(w_old);
        }
        i = i - 1;
        let d = (n % 10) as u8;
        buf[i] = ASCII_ZERO + d;
        proof {
            lemma_low_digits_cons(num as nat, w_old);
            assert(buf@ =~= Seq::new(i as nat, |j: int| 0u8) + low_digits(
                num as nat,
                (N - i) as nat,
            ));
            lemma_div_denominator(num as int, pow10(w_old) as int, 10);
            assert(pow10((w_old + 1) as nat) == 10 * pow10(w_old));
            assert((num as nat / pow10(w_old)) / 10 == num as nat / pow10((w_old + 1) as nat));
        }
        n = n / 10;
        let ghost w_new = (N - i) as nat;
        if n == 0 {
            proof {
                lemma_pow10_pos(w_new);
                lemma_fundamental_div_mod(num as int, pow10(w_new) as int);
                assert((num as nat) < pow10(w_new)) by (nonlinear_arith)
                    requires
                        num as int == pow10(w_new) as int * ((num as nat / pow10(w_new)) as int)
                            + (num as nat % pow10(w_new)) as int,
                        num as nat / pow10(w_new) == 0,
                        pow10(w_new) >= 1,
                ;
                if w_new == 1 {
                    lemma_digit_count_unique(num as nat, 1);
                } else {
                    assert(num as nat >= pow10((w_new - 1) as nat));
                    lemma_digit_count_unique(num as nat, w_new);
                }
            }
            break;
        }
        if i == 0 {
            proof {
                lemma_pow10_pos(w_new);
                lemma_fundamental_div_mod(num as int, pow10(w_new) as int);
                assert(num as nat >= pow10(w_new)) by (nonlinear_arith)
                    requires
                        num as int == pow10(w_new) as int * ((num as nat / pow10(w_new)) as int)
                            + (num as nat % pow10(w_new)) as int,
                        num as nat / pow10(w_new) >= 1,
                        pow10(w_new) >= 1,
                ;
                lemma_digit_count_bounds(num as nat);
                if digit_count(num as nat) <= N as nat {
                    lemma_pow10_monotone(digit_count(num as nat), w_new);
                    assert(false);
                }
            }
            break;
        }
        proof {
            lemma_pow10_pos(w_new);
            lemma_fundamental_div_mod(num as int, pow10(w_new) as int);
            assert(num as nat >= pow10(w_new)) by (nonlinear_arith)
                requires
                    num as int == pow10(w_new) as int * ((num as nat / pow10(w_new)) as int)
                        + (num as nat % pow10(w_new)) as int,
                    num as nat / pow10(w_new) >= 1,
                    pow10(w_new) >= 1,
            ;
        }
    }
    let w = N - i;
    let mut res: [u8; N] = [0u8; N];
    proof {
        lemma_low_digits_shape(num as nat, w as nat);
        assert(res@ =~= low_digits(num as nat, w as nat).take(0) + Seq::new(
            N as nat,
            |k: int| 0u8,
        ));
    }
    let mut j: usize = 0;
    while j < w
        invariant
            j <= w <= N,
            i + w == N,
            low_digits(num as nat, w as nat).len() == w,
            buf@ == Seq::new(i as nat, |k: int| 0u8) + low_digits(num as nat, w as nat),
            res@ == low_digits(num as nat, w as nat).take(j as int) + Seq::new(
                (N - j) as nat,
                |k: int| 0u8,
            ),
        decreases w - j,
    {
        let b = buf[i + j];
        res[j] = b;
        proof {
            let digits = low_digits(num as nat, w as nat);
            assert(b == digits[j as int]);
            assert(digits.take(j + 1 as int) =~= digits.take(j as int).push(digits[j as int]));
            assert(res@ =~= digits.take(j + 1 as int) + Seq::new((N - (j + 1)) as nat, |k: int| 0u8));
        }
        j = j + 1;
    }
    proof {
        let digits = low_digits(num as nat, w as nat);
        assert(digits.take(w as int) =~= digits);
        assert(res@ =~= digits + Seq::new((N - w) as nat, |k: int| 0u8));
        assert(res@ =~= record_bytes(num as nat, N as nat));
    }
    res
}

/// LAW: saving then loading is the identity on every cursor value the record
/// can hold. A value below `pow10(RECORD_SIZE)` written by `u64_to_array` is
/// read back unchanged by `parse_lines_to_skip`.
pub proof fn lemma_cursor_round_trip(c: u64)
    requires
        c < 100000000,
    ensures
        decimal_value(digit_bytes(record_bytes(c as nat, RECORD_SIZE as nat))) == c,
{
    lemma_digit_count_bounds(c as nat);
    let dc = digit_count(c as nat);
    assert(pow10(RECORD_SIZE as nat) == 100000000) by {
        reveal_with_fuel(pow10, 9);
    }
    if dc > RECORD_SIZE as nat {
        lemma_pow10_monotone(RECORD_SIZE as nat, (dc - 1) as nat);
        assert(false);
    }
    let digits = low_digits(c as nat, dc);
    let filler = Seq::new((RECORD_SIZE - dc) as nat, |j: int| 0u8);
    assert(record_bytes(c as nat, RECORD_SIZE as nat) == digits + filler);
    lemma_low_digits_shape(c as nat, dc);
    lemma_digit_bytes_skips_fillers(digits, filler);
    lemma_digit_bytes_identity(digits);
    lemma_low_digits_value(c as nat, dc);
    lemma_small_mod(c as nat, pow10(dc));
}

/// Appending non-digit bytes leaves the extracted digits alone.
proof fn lemma_digit_bytes_skips_fillers(s: Seq<u8>, t: Seq<u8>)
    requires
        forall|j: int| 0 <= j < t.len() ==> !is_digit_byte(#[trigger] t[j]),
    ensures
        digit_bytes(s + t) == digit_bytes(s),
    decreases t.len(),
{
    if t.len() == 0 {
        assert(s + t =~= s);
    } else {
        assert((s + t).drop_last() =~= s + t.drop_last());
        assert(!is_digit_byte((s + t).last()));
        lemma_digit_bytes_skips_fillers(s, t.drop_last());
    }
}

/// A sequence that is all digits is its own digit extraction.
proof fn lemma_digit_bytes_identity(s: Seq<u8>)
    requires
        forall|j: int| 0 <= j < s.len() ==> is_digit_byte(#[trigger] s[j]),
    ensures
        digit_bytes(s) == s,
    decreases s.len(),
{
    if s.len() > 0 {
        lemma_digit_bytes_identity(s.drop_last());
        assert(digit_bytes(s) =~= s);
    }
}

} // verus!
