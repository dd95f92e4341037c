//! Reading integers, in any radix from 2 to 36, from the front of a character
//! stream. A reader consumes the characters it reads and leaves the rest.

use vstd::prelude::*;
use crate::chars::{digit_value, is_digit, to_digit};
pub use crate::stream::Peek;

verus! {

/// Why an integer could not be read (the kinds of `std::num::IntErrorKind`).
#[derive(Debug, Clone, Copy, PartialEq, Eq, Structural)]
pub enum IntErrorKind {
    /// The stream was empty.
    Empty,
    /// No digit stood where one was needed.
    InvalidDigit,
    /// The number is above the type's maximum.
    PosOverflow,
    /// The number is below the type's minimum.
    NegOverflow,
    /// The value zero was not allowed.
    Zero,
}

/// The number of digits (in `radix`) at the front of `s`.
pub open spec fn digit_run(s: Seq<char>, radix: u32) -> nat
    decreases s.len(),
{
    if s.len() > 0 && is_digit(s[0], radix) {
        1 + digit_run(s.drop_first(), radix)
    } else {
        0
    }
}

/// The number that the first `k` characters of `s` denote as digits in `radix`,
/// most significant first.
pub open spec fn digits_value(s: Seq<char>, k: nat, radix: u32) -> nat
    decreases k,
{
    if k == 0 {
        0
    } else {
        digits_value(s, (k - 1) as nat, radix) * (radix as nat) + (digit_value(
            s[k - 1],
            radix,
        )->0 as nat)
    }
}

/// The least `j` with `k < j <= n` at which the first `j` digits of `s` denote a
/// number above `max`; `n` where there is none.
pub open spec fn first_exceeding(s: Seq<char>, radix: u32, max: nat, k: nat, n: nat) -> nat
    decreases n - k,
{
    if k >= n {
        n
    } else if digits_value(s, k + 1, radix) > max {
        k + 1
    } else {
        first_exceeding(s, radix, max, k + 1, n)
    }
}

/// Reading an unsigned number no greater than `max` from the front of `s`: the
/// result, and the number of characters consumed. All leading digits are read;
/// where their number exceeds `max`, reading stops at the first digit that makes
/// it do so, that digit included.
pub open spec fn read_unsigned(s: Seq<char>, radix: u32, max: nat) -> (Result<nat, IntErrorKind>, nat) {
    let n = digit_run(s, radix);
    if n == 0 {
        (Err(IntErrorKind::InvalidDigit), 0)
    } else if digits_value(s, n, radix) <= max {
        (Ok(digits_value(s, n, radix)), n)
    } else {
        (Err(IntErrorKind::PosOverflow), first_exceeding(s, radix, max, 0, n))
    }
}

/// Reading a signed number from the front of `s`. After a `-`, digits are read
/// as a magnitude no greater than `min_magnitude` (the `-` is consumed even when
/// no digit follows). Otherwise the number is read as an unsigned one no
/// greater than `unsigned_max`, then refused with `PosOverflow` when above `max`.
pub open spec fn read_signed(
    s: Seq<char>,
    radix: u32,
    unsigned_max: nat,
    max: nat,
    min_magnitude: nat,
) -> (Result<int, IntErrorKind>, nat) {
    if s.len() == 0 {
        (Err(IntErrorKind::Empty), 0)
    } else if s[0] == '-' {
        let t = s.drop_first();
        let n = digit_run(t, radix);
        if n == 0 {
            (Err(IntErrorKind::InvalidDigit), 1)
        } else if digits_value(t, n, radix) <= min_magnitude {
            (Ok(-(digits_value(t, n, radix) as int)), 1 + n)
        } else {
            (Err(IntErrorKind::NegOverflow), 1 + first_exceeding(t, radix, min_magnitude, 0, n))
        }
    } else {
        let (r, c) = read_unsigned(s, radix, unsigned_max);
        match r {
            Ok(v) => if v <= max {
                (Ok(v as int), c)
            } else {
                (Err(IntErrorKind::PosOverflow), c)
            },
            Err(e) => (Err(e), c),
        }
    }
}

/// The leading digits are the first `digit_run` characters, and the character
/// after them, if any, is no digit.
pub proof fn lemma_digit_run(s: Seq<char>, radix: u32)
    ensures
        digit_run(s, radix) <= s.len(),
        forall|i: int| 0 <= i < digit_run(s, radix) ==> is_digit(#[trigger] s[i], radix),
        digit_run(s, radix) < s.len() ==> !is_digit(s[digit_run(s, radix) as int], radix),
    decreases s.len(),
{
    if s.len() > 0 && is_digit(s[0], radix) {
        lemma_digit_run(s.drop_first(), radix);
        assert forall|i: int| 0 <= i < digit_run(s, radix) implies is_digit(#[trigger] s[i], radix) by {
            if i > 0 {
                assert(s[i] == s.drop_first()[i - 1]);
            }
        }
    }
}

/// A longer run of digits never denotes a smaller number.
pub proof fn lemma_digits_value_monotone(s: Seq<char>, radix: u32, j: nat, k: nat)
    requires
        j <= k,
        radix >= 1,
    ensures
        digits_value(s, j, radix) <= digits_value(s, k, radix),
    decreases k - j,
{
    if j < k {
        lemma_digits_value_monotone(s, radix, j, (k - 1) as nat);
        let a = digits_value(s, (k - 1) as nat, radix);
        let d = digit_value(s[k - 1], radix)->0 as nat;
        assert(a <= a * (radix as nat) + d) by (nonlinear_arith)
            requires
                radix >= 1,
        ;
    }
}

/// The digits past `k` of a prefix that stays within `max` up to `k` decide
/// where the number first exceeds `max`.
proof fn lemma_first_exceeding(s: Seq<char>, radix: u32, max: nat, i: nat, k: nat, n: nat)
    requires
        i <= k < n,
        forall|j: nat| i < j <= k ==> digits_value(s, j, radix) <= max,
        digits_value(s, k + 1, radix) > max,
    ensures
        first_exceeding(s, radix, max, i, n) == k + 1,
    decreases k - i,
{
    if i < k {
        assert(digits_value(s, i + 1, radix) <= max);
        lemma_first_exceeding(s, radix, max, i + 1, k, n);
    }
}

/// Reads the leading digits of `peek` as an unsigned number no greater than
/// `max`, consuming what `read_unsigned` says.
pub fn read_digits<P: Peek>(peek: &mut P, radix: u32, max: u128) -> (r: Result<u128, IntErrorKind>)
    requires
        2 <= radix <= 36,
    ensures
        ({
            let (res, c) = read_unsigned(old(peek).upcoming(), radix, max as nat);
            &&& c <= old(peek).upcoming().len()
            &&& final(peek).upcoming() == old(peek).upcoming().skip(c as int)
            &&& final(peek).consumed() == old(peek).consumed() + c
            &&& match r {
                Ok(v) => res == Ok::<nat, IntErrorKind>(v as nat),
                Err(e) => res == Err::<nat, IntErrorKind>(e),
            }
        }),
{
    let ghost s0 = peek.upcoming();
    let ghost c0 = peek.consumed();
    proof { lemma_digit_run(s0, radix); }
    let ghost n = digit_run(s0, radix);
    let first = match peek.peek() {
        Some(c) => to_digit(c, radix),
        None => None,
    };
    let d = match first {
        Some(d) => d,
        None => {
            assert(s0.skip(0) =~= s0);
            return Err(IntErrorKind::InvalidDigit);
        },
    };
    peek.advance();
    let mut v: u128 = d as u128;
    let ghost mut k: nat = 1;
    assert(s0.len() > 0);
    assert(digit_value(s0[0], radix) == Some(d));
    assert(digits_value(s0, 0, radix) == 0);
    assert(digits_value(s0, 1, radix) == 0 * (radix as nat) + d);
    assert(digits_value(s0, 1, radix) == d);
    if v > max {
        proof {
            lemma_first_exceeding(s0, radix, max as nat, 0, 0, n);
            lemma_digits_value_monotone(s0, radix, 1, n);
        }
        assert(peek.upcoming() =~= s0.skip(1));
        return Err(IntErrorKind::PosOverflow);
    }
    assert(peek.upcoming() =~= s0.skip(1));
    loop
        invariant
            2 <= radix <= 36,
            s0 == old(peek).upcoming(),
            c0 == old(peek).consumed(),
            n == digit_run(s0, radix),
            n <= s0.len(),
            forall|i: int| 0 <= i < n ==> is_digit(#[trigger] s0[i], radix),
            n < s0.len() ==> !is_digit(s0[n as int], radix),
            1 <= k <= n,
            peek.upcoming() == s0.skip(k as int),
            peek.consumed() == c0 + k,
            v == digits_value(s0, k, radix),
            v <= max,
            forall|j: nat| 0 < j <= k ==> digits_value(s0, j, radix) <= max,
        ensures
            k == n,
            peek.upcoming() == s0.skip(k as int),
            peek.consumed() == c0 + k,
            v == digits_value(s0, k, radix),
            v <= max,
        decreases n - k,
    {
        let next = match peek.peek() {
            Some(c) => to_digit(c, radix),
            None => None,
        };
        let d = match next {
            Some(d) => d,
            None => {
                assert(k == n) by {
                    if k < n {
                        assert(is_digit(s0[k as int], radix));
                        assert(peek.upcoming()[0] == s0[k as int]);
                    }
                }
                break;
            },
        };
        assert(k < n) by {
            assert(peek.upcoming()[0] == s0[k as int]);
        }
        assert(s0[k as int] == peek.upcoming()[0]);
        peek.advance();
        assert(peek.upcoming() =~= s0.skip(k as int + 1));
        let ghost old_k = k;
        proof { k = k + 1; }
        assert(digits_value(s0, k, radix) == digits_value(s0, old_k, radix) * (radix as nat) + d);
        let m = v.checked_mul(radix as u128);
        let nv = match m {
            Some(m) => m.checked_add(d as u128),
            None => None,
        };
        match nv {
            Some(x) => {
                if x > max {
                    assert(x == digits_value(s0, k, radix));
                    assert(old_k < n);
                    assert(digits_value(s0, n, radix) > max) by {
                        lemma_digits_value_monotone(s0, radix, k, n);
                    }
                    proof {
                        lemma_first_exceeding(s0, radix, max as nat, 0, old_k, n);
                        lemma_digits_value_monotone(s0, radix, k, n);
                    }
                    return Err(IntErrorKind::PosOverflow);
                }
                v = x;
            },
            None => {
                proof {
                    assert(digits_value(s0, k, radix) > u128::MAX) by (nonlinear_arith)
                        requires
                            m is None ==> v * radix > u128::MAX,
                            m matches Some(mm) ==> mm == v * radix && mm + d > u128::MAX,
                            digits_value(s0, k, radix) == v * radix + d;
                    lemma_first_exceeding(s0, radix, max as nat, 0, old_k, n);
                    lemma_digits_value_monotone(s0, radix, k, n);
                }
                return Err(IntErrorKind::PosOverflow);
            },
        }
    }
    Ok(v)
}

/// Reads a signed number from the front of `peek`, consuming what `read_signed`
/// says. The result is the sign (`true` for negative) and the magnitude.
pub fn read_signed_digits<P: Peek>(
    peek: &mut P,
    radix: u32,
    unsigned_max: u128,
    max: u128,
    min_magnitude: u128,
) -> (r: Result<(bool, u128), IntErrorKind>)
    requires
        2 <= radix <= 36,
    ensures
        ({
            let (res, c) = read_signed(
                old(peek).upcoming(),
                radix,
                unsigned_max as nat,
                max as nat,
                min_magnitude as nat,
            );
            &&& c <= old(peek).upcoming().len()
            &&& final(peek).upcoming() == old(peek).upcoming().skip(c as int)
            &&& final(peek).consumed() == old(peek).consumed() + c
            &&& match r {
                Ok((neg, m)) => res == Ok::<int, IntErrorKind>(
                    if neg {
                        -(m as int)
                    } else {
                        m as int
                    },
                ),
                Err(e) => res == Err::<int, IntErrorKind>(e),
            }
        }),
{
    let ghost s0 = peek.upcoming();
    match peek.peek() {
        None => {
            assert(s0.skip(0) =~= s0);
            Err(IntErrorKind::Empty)
        },
        Some(c) => {
            if c == '-' {
                peek.advance();
                let r = read_digits(peek, radix, min_magnitude);
                proof {
                    let t = s0.drop_first();
                    let (_, cc) = read_unsigned(t, radix, min_magnitude as nat);
                    assert(t.skip(cc as int) =~= s0.skip(1 + cc as int));
                }
                match r {
                    Ok(m) => Ok((true, m)),
                    Err(IntErrorKind::PosOverflow) => Err(IntErrorKind::NegOverflow),
                    Err(e) => Err(e),
                }
            } else {
                let r = read_digits(peek, radix, unsigned_max);
                match r {
                    Ok(v) => {
                        if v <= max {
                            Ok((false, v))
                        } else {
                            Err(IntErrorKind::PosOverflow)
                        }
                    },
                    Err(e) => Err(e),
                }
            }
        },
    }
}

/// A value that can be read from the front of a character stream.
pub trait TryParseFromPeek<T>: Sized {
    /// Why a read fails.
    type Err;

    /// What the reader needs to know besides the characters (a radix, or nothing).
    type ParseContext;

    /// Whether the reader can work with `context`.
    spec fn accepts(context: Self::ParseContext) -> bool;

    /// What reading gives on `input`, and how many characters it consumes.
    spec fn reads(input: Seq<char>, context: Self::ParseContext) -> (Result<Self, Self::Err>, nat);

    /// Reads a value from the front of `peek`, consuming the characters read.
    fn try_parse_from_peek<P: Peek>(peek: &mut P, context: Self::ParseContext) -> (r: Result<
        Self,
        Self::Err,
    >)
        requires
            Self::accepts(context),
        ensures
            r == Self::reads(old(peek).upcoming(), context).0,
            Self::reads(old(peek).upcoming(), context).1 <= old(peek).upcoming().len(),
            final(peek).upcoming() == old(peek).upcoming().skip(
                Self::reads(old(peek).upcoming(), context).1 as int,
            ),
            final(peek).consumed() == old(peek).consumed() + Self::reads(
                old(peek).upcoming(),
                context,
            ).1,
    ;
}

impl TryParseFromPeek<char> for u8 {
    type Err = IntErrorKind;

    type ParseContext = u32;

    open spec fn accepts(radix: u32) -> bool {
        2 <= radix <= 36
    }

    open spec fn reads(input: Seq<char>, radix: u32) -> (Result<u8, IntErrorKind>, nat) {
        let (r, c) = read_unsigned(input, radix, u8::MAX as nat);
        (
            match r {
                Ok(v) => Ok(v as u8),
                Err(e) => Err(e),
            },
            c,
        )
    }

    fn try_parse_from_peek<P: Peek>(peek: &mut P, radix: u32) -> (r: Result<u8, IntErrorKind>) {
        match read_digits(peek, radix, u8::MAX as u128) {
            Ok(v) => Ok(v as u8),
            Err(e) => Err(e),
        }
    }
}

impl TryParseFromPeek<char> for u16 {
    type Err = IntErrorKind;

    type ParseContext = u32;

    open spec fn accepts(radix: u32) -> bool {
        2 <= radix <= 36
    }

    open spec fn reads(input: Seq<char>, radix: u32) -> (Result<u16, IntErrorKind>, nat) {
        let (r, c) = read_unsigned(input, radix, u16::MAX as nat);
        (
            match r {
                Ok(v) => Ok(v as u16),
                Err(e) => Err(e),
            },
            c,
        )
    }

    fn try_parse_from_peek<P: Peek>(peek: &mut P, radix: u32) -> (r: Result<u16, IntErrorKind>) {
        match read_digits(peek, radix, u16::MAX as u128) {
            Ok(v) => Ok(v as u16),
            Err(e) => Err(e),
        }
    }
}

impl TryParseFromPeek<char> for u32 {
    type Err = IntErrorKind;

    type ParseContext = u32;

    open spec fn accepts(radix: u32) -> bool {
        2 <= radix <= 36
    }

    open spec fn reads(input: Seq<char>, radix: u32) -> (Result<u32, IntErrorKind>, nat) {
        let (r, c) = read_unsigned(input, radix, u32::MAX as nat);
        (
            match r {
                Ok(v) => Ok(v as u32),
                Err(e) => Err(e),
            },
            c,
        )
    }

    fn try_parse_from_peek<P: Peek>(peek: &mut P, radix: u32) -> (r: Result<u32, IntErrorKind>) {
        match read_digits(peek, radix, u32::MAX as u128) {
            Ok(v) => Ok(v as u32),
            Err(e) => Err(e),
        }
    }
}

impl TryParseFromPeek<char> for u64 {
    type Err = IntErrorKind;

    type ParseContext = u32;

    open spec fn accepts(radix: u32) -> bool {
        2 <= radix <= 36
    }

    open spec fn reads(input: Seq<char>, radix: u32) -> (Result<u64, IntErrorKind>, nat) {
        let (r, c) = read_unsigned(input, radix, u64::MAX as nat);
        (
            match r {
                Ok(v) => Ok(v as u64),
                Err(e) => Err(e),
            },
            c,
        )
    }

    fn try_parse_from_peek<P: Peek>(peek: &mut P, radix: u32) -> (r: Result<u64, IntErrorKind>) {
        match read_digits(peek, radix, u64::MAX as u128) {
            Ok(v) => Ok(v as u64),
            Err(e) => Err(e),
        }
    }
}

impl TryParseFromPeek<char> for u128 {
    type Err = IntErrorKind;

    type ParseContext = u32;

    open spec fn accepts(radix: u32) -> bool {
        2 <= radix <= 36
    }

    open spec fn reads(input: Seq<char>, radix: u32) -> (Result<u128, IntErrorKind>, nat) {
        let (r, c) = read_unsigned(input, radix, u128::MAX as nat);
        (
            match r {
                Ok(v) => Ok(v as u128),
                Err(e) => Err(e),
            },
            c,
        )
    }

    fn try_parse_from_peek<P: Peek>(peek: &mut P, radix: u32) -> (r: Result<u128, IntErrorKind>) {
        match read_digits(peek, radix, u128::MAX as u128) {
            Ok(v) => Ok(v as u128),
            Err(e) => Err(e),
        }
    }
}

impl TryParseFromPeek<char> for usize {
    type Err = IntErrorKind;

    type ParseContext = u32;

    open spec fn accepts(radix: u32) -> bool {
        2 <= radix <= 36
    }

    open spec fn reads(input: Seq<char>, radix: u32) -> (Result<usize, IntErrorKind>, nat) {
        let (r, c) = read_unsigned(input, radix, usize::MAX as nat);
        (
            match r {
                Ok(v) => Ok(v as usize),
                Err(e) => Err(e),
            },
            c,
        )
    }

    fn try_parse_from_peek<P: Peek>(peek: &mut P, radix: u32) -> (r: Result<usize, IntErrorKind>) {
        match read_digits(peek, radix, usize::MAX as u128) {
            Ok(v) => Ok(v as usize),
            Err(e) => Err(e),
        }
    }
}

impl TryParseFromPeek<char> for i8 {
    type Err = IntErrorKind;

    type ParseContext = u32;

    open spec fn accepts(radix: u32) -> bool {
        2 <= radix <= 36
    }

    /// A positive number is read as a `u8` first.
    open spec fn reads(input: Seq<char>, radix: u32) -> (Result<i8, IntErrorKind>, nat) {
        let (r, c) = read_signed(
            input,
            radix,
            u8::MAX as nat,
            i8::MAX as nat,
            (i8::MAX as nat + 1) as nat,
        );
        (
            match r {
                Ok(v) => Ok(v as i8),
                Err(e) => Err(e),
            },
            c,
        )
    }

    fn try_parse_from_peek<P: Peek>(peek: &mut P, radix: u32) -> (r: Result<i8, IntErrorKind>) {
        let r = read_signed_digits(
            peek,
            radix,
            u8::MAX as u128,
            i8::MAX as u128,
            i8::MAX as u128 + 1,
        );
        match r {
            Ok((neg, m)) => {
                if neg {
                    Ok((0i128 - m as i128) as i8)
                } else {
                    Ok(m as i8)
                }
            },
            Err(e) => Err(e),
        }
    }
}

impl TryParseFromPeek<char> for i16 {
    type Err = IntErrorKind;

    type ParseContext = u32;

    open spec fn accepts(radix: u32) -> bool {
        2 <= radix <= 36
    }

    /// A positive number is read as a `u8` first.
    open spec fn reads(input: Seq<char>, radix: u32) -> (Result<i16, IntErrorKind>, nat) {
        let (r, c) = read_signed(
            input,
            radix,
            u8::MAX as nat,
            i16::MAX as nat,
            (i16::MAX as nat + 1) as nat,
        );
        (
            match r {
                Ok(v) => Ok(v as i16),
                Err(e) => Err(e),
            },
            c,
        )
    }

    fn try_parse_from_peek<P: Peek>(peek: &mut P, radix: u32) -> (r: Result<i16, IntErrorKind>) {
        let r = read_signed_digits(
            peek,
            radix,
            u8::MAX as u128,
            i16::MAX as u128,
            i16::MAX as u128 + 1,
        );
        match r {
            Ok((neg, m)) => {
                if neg {
                    Ok((0i128 - m as i128) as i16)
                } else {
                    Ok(m as i16)
                }
            },
            Err(e) => Err(e),
        }
    }
}

impl TryParseFromPeek<char> for i32 {
    type Err = IntErrorKind;

    type ParseContext = u32;

    open spec fn accepts(radix: u32) -> bool {
        2 <= radix <= 36
    }

    /// A positive number is read as a `u16` first.
    open spec fn reads(input: Seq<char>, radix: u32) -> (Result<i32, IntErrorKind>, nat) {
        let (r, c) = read_signed(
            input,
            radix,
            u16::MAX as nat,
            i32::MAX as nat,
            (i32::MAX as nat + 1) as nat,
        );
        (
            match r {
                Ok(v) => Ok(v as i32),
                Err(e) => Err(e),
            },
            c,
        )
    }

    fn try_parse_from_peek<P: Peek>(peek: &mut P, radix: u32) -> (r: Result<i32, IntErrorKind>) {
        let r = read_signed_digits(
            peek,
            radix,
            u16::MAX as u128,
            i32::MAX as u128,
            i32::MAX as u128 + 1,
        );
        match r {
            Ok((neg, m)) => {
                if neg {
                    Ok((0i128 - m as i128) as i32)
                } else {
                    Ok(m as i32)
                }
            },
            Err(e) => Err(e),
        }
    }
}

impl TryParseFromPeek<char> for i64 {
    type Err = IntErrorKind;

    type ParseContext = u32;

    open spec fn accepts(radix: u32) -> bool {
        2 <= radix <= 36
    }

    /// A positive number is read as a `u32` first.
    open spec fn reads(input: Seq<char>, radix: u32) -> (Result<i64, IntErrorKind>, nat) {
        let (r, c) = read_signed(
            input,
            radix,
            u32::MAX as nat,
            i64::MAX as nat,
            (i64::MAX as nat + 1) as nat,
        );
        (
            match r {
                Ok(v) => Ok(v as i64),
                Err(e) => Err(e),
            },
            c,
        )
    }

    fn try_parse_from_peek<P: Peek>(peek: &mut P, radix: u32) -> (r: Result<i64, IntErrorKind>) {
        let r = read_signed_digits(
            peek,
            radix,
            u32::MAX as u128,
            i64::MAX as u128,
            i64::MAX as u128 + 1,
        );
        match r {
            Ok((neg, m)) => {
                if neg {
                    Ok((0i128 - m as i128) as i64)
                } else {
                    Ok(m as i64)
                }
            },
            Err(e) => Err(e),
        }
    }
}

impl TryParseFromPeek<char> for i128 {
    type Err = IntErrorKind;

    type ParseContext = u32;

    open spec fn accepts(radix: u32) -> bool {
        2 <= radix <= 36
    }

    /// A positive number is read as a `u64` first.
    open spec fn reads(input: Seq<char>, radix: u32) -> (Result<i128, IntErrorKind>, nat) {
        let (r, c) = read_signed(
            input,
            radix,
            u64::MAX as nat,
            i128::MAX as nat,
            (i128::MAX as nat + 1) as nat,
        );
        (
            match r {
                Ok(v) => Ok(v as i128),
                Err(e) => Err(e),
            },
            c,
        )
    }

    fn try_parse_from_peek<P: Peek>(peek: &mut P, radix: u32) -> (r: Result<i128, IntErrorKind>) {
        let r = read_signed_digits(
            peek,
            radix,
            u64::MAX as u128,
            i128::MAX as u128,
            i128::MAX as u128 + 1,
        );
        match r {
            Ok((neg, m)) => {
                if neg {
                    Ok(if m == 170141183460469231731687303715884105728u128 {
                        i128::MIN
                    } else {
                        -(m as i128)
                    })
                } else {
                    Ok(m as i128)
                }
            },
            Err(e) => Err(e),
        }
    }
}

impl TryParseFromPeek<char> for isize {
    type Err = IntErrorKind;

    type ParseContext = u32;

    open spec fn accepts(radix: u32) -> bool {
        2 <= radix <= 36
    }

    /// A positive number is read as a `usize` first.
    open spec fn reads(input: Seq<char>, radix: u32) -> (Result<isize, IntErrorKind>, nat) {
        let (r, c) = read_signed(
            input,
            radix,
            usize::MAX as nat,
            isize::MAX as nat,
            (isize::MAX as nat + 1) as nat,
        );
        (
            match r {
                Ok(v) => Ok(v as isize),
                Err(e) => Err(e),
            },
            c,
        )
    }

    fn try_parse_from_peek<P: Peek>(peek: &mut P, radix: u32) -> (r: Result<isize, IntErrorKind>) {
        let r = read_signed_digits(
            peek,
            radix,
            usize::MAX as u128,
            isize::MAX as u128,
            isize::MAX as u128 + 1,
        );
        match r {
            Ok((neg, m)) => {
                if neg {
                    Ok((0i128 - m as i128) as isize)
                } else {
                    Ok(m as isize)
                }
            },
            Err(e) => Err(e),
        }
    }
}

/// Reading an unsigned integer of any width gives the value of the leading
/// digits and consumes exactly them whenever that value fits the type; it
/// overflows exactly when the value does not fit.
pub proof fn lemma_unsigned_reads_digit_value(s: Seq<char>, radix: u32)
    requires
        2 <= radix <= 36,
        digit_run(s, radix) > 0,
    ensures
        ({
            let n = digit_run(s, radix);
            let v = digits_value(s, n, radix);
            &&& v <= u8::MAX ==> <u8 as TryParseFromPeek<char>>::reads(s, radix) == (Ok::<u8, IntErrorKind>(v as u8), n)
            &&& v > u8::MAX ==> <u8 as TryParseFromPeek<char>>::reads(s, radix).0 == Err::<u8, IntErrorKind>(IntErrorKind::PosOverflow)
            &&& v <= u16::MAX ==> <u16 as TryParseFromPeek<char>>::reads(s, radix) == (Ok::<u16, IntErrorKind>(v as u16), n)
            &&& v > u16::MAX ==> <u16 as TryParseFromPeek<char>>::reads(s, radix).0 == Err::<u16, IntErrorKind>(IntErrorKind::PosOverflow)
            &&& v <= u32::MAX ==> <u32 as TryParseFromPeek<char>>::reads(s, radix) == (Ok::<u32, IntErrorKind>(v as u32), n)
            &&& v > u32::MAX ==> <u32 as TryParseFromPeek<char>>::reads(s, radix).0 == Err::<u32, IntErrorKind>(IntErrorKind::PosOverflow)
            &&& v <= u64::MAX ==> <u64 as TryParseFromPeek<char>>::reads(s, radix) == (Ok::<u64, IntErrorKind>(v as u64), n)
            &&& v > u64::MAX ==> <u64 as TryParseFromPeek<char>>::reads(s, radix).0 == Err::<u64, IntErrorKind>(IntErrorKind::PosOverflow)
            &&& v <= u128::MAX ==> <u128 as TryParseFromPeek<char>>::reads(s, radix) == (Ok::<u128, IntErrorKind>(v as u128), n)
            &&& v > u128::MAX ==> <u128 as TryParseFromPeek<char>>::reads(s, radix).0 == Err::<u128, IntErrorKind>(IntErrorKind::PosOverflow)
            &&& v <= usize::MAX ==> <usize as TryParseFromPeek<char>>::reads(s, radix) == (Ok::<usize, IntErrorKind>(v as usize), n)
            &&& v > usize::MAX ==> <usize as TryParseFromPeek<char>>::reads(s, radix).0 == Err::<usize, IntErrorKind>(IntErrorKind::PosOverflow)
        }),
{
}

/// Without a leading digit, reading an unsigned integer of any width fails
/// with `InvalidDigit` and consumes nothing.
pub proof fn lemma_unsigned_reads_no_digit(s: Seq<char>, radix: u32)
    requires
        2 <= radix <= 36,
        digit_run(s, radix) == 0,
    ensures
        <u8 as TryParseFromPeek<char>>::reads(s, radix) == (Err::<u8, IntErrorKind>(IntErrorKind::InvalidDigit), 0nat),
        <u16 as TryParseFromPeek<char>>::reads(s, radix) == (Err::<u16, IntErrorKind>(IntErrorKind::InvalidDigit), 0nat),
        <u32 as TryParseFromPeek<char>>::reads(s, radix) == (Err::<u32, IntErrorKind>(IntErrorKind::InvalidDigit), 0nat),
        <u64 as TryParseFromPeek<char>>::reads(s, radix) == (Err::<u64, IntErrorKind>(IntErrorKind::InvalidDigit), 0nat),
        <u128 as TryParseFromPeek<char>>::reads(s, radix) == (Err::<u128, IntErrorKind>(IntErrorKind::InvalidDigit), 0nat),
        <usize as TryParseFromPeek<char>>::reads(s, radix) == (Err::<usize, IntErrorKind>(IntErrorKind::InvalidDigit), 0nat),
{
}

/// Reading a signed integer without a sign gives the value of the leading
/// digits and consumes exactly them when the value fits both the type and
/// the unsigned type it is first read as (`u8` for `i8` and `i16`, `u16` for
/// `i32`, `u32` for `i64`, `u64` for `i128`, `usize` for `isize`); otherwise
/// it overflows.
pub proof fn lemma_signed_reads_digit_value(s: Seq<char>, radix: u32)
    requires
        2 <= radix <= 36,
        digit_run(s, radix) > 0,
    ensures
        ({
            let n = digit_run(s, radix);
            let v = digits_value(s, n, radix);
            &&& v <= u8::MAX && v <= i8::MAX ==> <i8 as TryParseFromPeek<char>>::reads(s, radix) == (Ok::<i8, IntErrorKind>(v as i8), n)
            &&& (v > u8::MAX || v > i8::MAX) ==> <i8 as TryParseFromPeek<char>>::reads(s, radix).0 == Err::<i8, IntErrorKind>(IntErrorKind::PosOverflow)
            &&& v <= u8::MAX && v <= i16::MAX ==> <i16 as TryParseFromPeek<char>>::reads(s, radix) == (Ok::<i16, IntErrorKind>(v as i16), n)
            &&& (v > u8::MAX || v > i16::MAX) ==> <i16 as TryParseFromPeek<char>>::reads(s, radix).0 == Err::<i16, IntErrorKind>(IntErrorKind::PosOverflow)
            &&& v <= u16::MAX && v <= i32::MAX ==> <i32 as TryParseFromPeek<char>>::reads(s, radix) == (Ok::<i32, IntErrorKind>(v as i32), n)
            &&& (v > u16::MAX || v > i32::MAX) ==> <i32 as TryParseFromPeek<char>>::reads(s, radix).0 == Err::<i32, IntErrorKind>(IntErrorKind::PosOverflow)
            &&& v <= u32::MAX && v <= i64::MAX ==> <i64 as TryParseFromPeek<char>>::reads(s, radix) == (Ok::<i64, IntErrorKind>(v as i64), n)
            &&& (v > u32::MAX || v > i64::MAX) ==> <i64 as TryParseFromPeek<char>>::reads(s, radix).0 == Err::<i64, IntErrorKind>(IntErrorKind::PosOverflow)
            &&& v <= u64::MAX && v <= i128::MAX ==> <i128 as TryParseFromPeek<char>>::reads(s, radix) == (Ok::<i128, IntErrorKind>(v as i128), n)
            &&& (v > u64::MAX || v > i128::MAX) ==> <i128 as TryParseFromPeek<char>>::reads(s, radix).0 == Err::<i128, IntErrorKind>(IntErrorKind::PosOverflow)
            &&& v <= usize::MAX && v <= isize::MAX ==> <isize as TryParseFromPeek<char>>::reads(s, radix) == (Ok::<isize, IntErrorKind>(v as isize), n)
            &&& (v > usize::MAX || v > isize::MAX) ==> <isize as TryParseFromPeek<char>>::reads(s, radix).0 == Err::<isize, IntErrorKind>(IntErrorKind::PosOverflow)
        }),
{
    assert(s[0] != '-');
}

/// Reading a signed integer after a `-` gives the negated value of the digits
/// that follow, consuming the sign and exactly those digits, when the value is
/// no greater than the magnitude of the type's least value; otherwise it
/// overflows below.
pub proof fn lemma_signed_reads_negative(s: Seq<char>, radix: u32)
    requires
        2 <= radix <= 36,
        s.len() > 0,
        s[0] == '-',
        digit_run(s.drop_first(), radix) > 0,
    ensures
        ({
            let n = digit_run(s.drop_first(), radix);
            let v = digits_value(s.drop_first(), n, radix);
            &&& v <= 128int ==> <i8 as TryParseFromPeek<char>>::reads(s, radix) == (Ok::<i8, IntErrorKind>((-v) as i8), n + 1)
            &&& v > 128int ==> <i8 as TryParseFromPeek<char>>::reads(s, radix).0 == Err::<i8, IntErrorKind>(IntErrorKind::NegOverflow)
            &&& v <= 32768int ==> <i16 as TryParseFromPeek<char>>::reads(s, radix) == (Ok::<i16, IntErrorKind>((-v) as i16), n + 1)
            &&& v > 32768int ==> <i16 as TryParseFromPeek<char>>::reads(s, radix).0 == Err::<i16, IntErrorKind>(IntErrorKind::NegOverflow)
            &&& v <= 2147483648int ==> <i32 as TryParseFromPeek<char>>::reads(s, radix) == (Ok::<i32, IntErrorKind>((-v) as i32), n + 1)
            &&& v > 2147483648int ==> <i32 as TryParseFromPeek<char>>::reads(s, radix).0 == Err::<i32, IntErrorKind>(IntErrorKind::NegOverflow)
            &&& v <= 9223372036854775808int ==> <i64 as TryParseFromPeek<char>>::reads(s, radix) == (Ok::<i64, IntErrorKind>((-v) as i64), n + 1)
            &&& v > 9223372036854775808int ==> <i64 as TryParseFromPeek<char>>::reads(s, radix).0 == Err::<i64, IntErrorKind>(IntErrorKind::NegOverflow)
            &&& v <= (i128::MAX + 1) ==> <i128 as TryParseFromPeek<char>>::reads(s, radix) == (Ok::<i128, IntErrorKind>((-v) as i128), n + 1)
            &&& v > (i128::MAX + 1) ==> <i128 as TryParseFromPeek<char>>::reads(s, radix).0 == Err::<i128, IntErrorKind>(IntErrorKind::NegOverflow)
            &&& v <= (isize::MAX + 1) ==> <isize as TryParseFromPeek<char>>::reads(s, radix) == (Ok::<isize, IntErrorKind>((-v) as isize), n + 1)
            &&& v > (isize::MAX + 1) ==> <isize as TryParseFromPeek<char>>::reads(s, radix).0 == Err::<isize, IntErrorKind>(IntErrorKind::NegOverflow)
        }),
{
}

} // verus!
