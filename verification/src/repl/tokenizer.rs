//! The tokenizer of the interactive language: brackets, numbers in several
//! radixes (with fractions), negative numbers, identifiers and strings.

use vstd::prelude::*;
use crate::chars::{
    letter, alphanumeric, digit_value, is_alphabetic, is_alphanumeric, is_digit,
    lemma_whitespace_run, string_of, to_digit, whitespace, whitespace_run,
};
use crate::compiler::try_parse_from_iter::{digit_run, digits_value, lemma_digit_run};
use vstd::arithmetic::power::pow;
use crate::stream::CharStream;
use super::util::{BorrowedFilter, BorrowedFilterMap};
use super::tokens::{
    close_char, negation, open_char, Bracket, BracketState, Literal, LiteralView, NumericLiteral, Sign, Token, TokenView,
};

verus! {

/// Folding the first `k` digits of `s` into `start`, most significant first:
/// each step multiplies by the radix and adds the digit.
pub open spec fn fold_digits(start: nat, s: Seq<char>, k: nat, radix: u32) -> nat
    decreases k,
{
    if k == 0 {
        start
    } else {
        fold_digits(start, s, (k - 1) as nat, radix) * (radix as nat) + (digit_value(
            s[k - 1],
            radix,
        )->0 as nat)
    }
}

/// `radix` to the power `k`.
pub open spec fn power(radix: u32, k: nat) -> nat
    decreases k,
{
    if k == 0 {
        1
    } else {
        power(radix, (k - 1) as nat) * (radix as nat)
    }
}

/// The integer part read from the front of `u`. With a first digit given, the
/// digits of `u` are folded into it; without, the digits of `u` are the number
/// (none when there is no digit).
pub open spec fn integer_value(u: Seq<char>, radix: u32, first: Option<u32>) -> Option<nat> {
    let n = digit_run(u, radix);
    match first {
        Some(fd) => Some(fold_digits(fd as nat, u, n, radix)),
        None => if n == 0 {
            None
        } else {
            Some(fold_digits(0, u, n, radix))
        },
    }
}

/// What reading a number gives: an arithmetic overflow (where the computation
/// would panic), or the number read (if any) and the characters consumed.
pub enum NumberScan {
    Overflow,
    Read(Option<NumericLiteral>, nat),
}

/// Reading an integer or a decimal from the front of `u`: the integer part,
/// then, after a `.`, the fraction digits as numerator over a power of the
/// radix. Every value must fit a `usize`.
pub open spec fn float_or_integer(u: Seq<char>, radix: u32, first: Option<u32>) -> NumberScan {
    let n = digit_run(u, radix);
    let ip = integer_value(u, radix, first);
    if ip matches Some(v) && v > usize::MAX {
        NumberScan::Overflow
    } else if n < u.len() && u[n as int] == '.' {
        let f = u.skip(n + 1 as int);
        let m = digit_run(f, radix);
        let num = fold_digits(0, f, m, radix);
        let den = power(radix, m);
        if num > usize::MAX || den > usize::MAX {
            NumberScan::Overflow
        } else {
            NumberScan::Read(
                Some(
                    NumericLiteral::Decimal {
                        sign: Sign::Positive,
                        integer_part: (match ip {
                            Some(v) => v,
                            None => 0,
                        }) as usize,
                        fraction_numerator: num as usize,
                        fraction_denominator: den as usize,
                    },
                ),
                n + 1 + m,
            )
        }
    } else {
        NumberScan::Read(
            match ip {
                Some(v) => Some(NumericLiteral::Integer(v as isize)),
                None => None,
            },
            n,
        )
    }
}

/// The radix that a `0` prefix announces (`b`, `o`, `x`; a decimal digit
/// announces radix ten and is not consumed), and the characters consumed.
pub open spec fn radix_prefix(t: Seq<char>) -> (Option<u32>, nat) {
    if t.len() == 0 {
        (None, 0)
    } else if t[0] == 'b' {
        (Some(2), 1)
    } else if t[0] == 'o' {
        (Some(8), 1)
    } else if t[0] == 'x' {
        (Some(16), 1)
    } else if is_digit(t[0], 10) {
        (Some(10), 0)
    } else {
        (None, 0)
    }
}

/// Reading a number without sign from the front of `t`. After a leading `0` a
/// radix prefix may follow (without one, the number is zero). Otherwise a
/// decimal digit starts a decimal number: that first digit is counted once
/// before all the digits (itself included) are folded into it.
pub open spec fn positive_number(t: Seq<char>) -> NumberScan {
    if t.len() == 0 {
        NumberScan::Read(None, 0)
    } else if t[0] == '0' {
        let t1 = t.drop_first();
        let (radix, rc) = radix_prefix(t1);
        match radix {
            None => NumberScan::Read(Some(NumericLiteral::Integer(0)), 1),
            Some(r) => match float_or_integer(t1.skip(rc as int), r, None) {
                NumberScan::Overflow => NumberScan::Overflow,
                NumberScan::Read(v, k) => NumberScan::Read(
                    Some(
                        match v {
                            Some(x) => x,
                            None => NumericLiteral::Integer(0),
                        },
                    ),
                    1 + rc + k,
                ),
            },
        }
    } else if is_digit(t[0], 10) {
        float_or_integer(t, 10, Some(digit_value(t[0], 10)->0))
    } else {
        NumberScan::Read(None, 0)
    }
}

/// The text of a string literal whose opening quote is consumed: everything up
/// to the next `"` with the backslashes left out; the characters scanned
/// before that quote; whether the quote was found.
pub open spec fn string_body(t: Seq<char>) -> (Seq<char>, nat, bool)
    decreases t.len(),
{
    if t.len() == 0 {
        (Seq::empty(), 0, false)
    } else if t[0] == '"' {
        (Seq::empty(), 0, true)
    } else {
        let (body, k, closed) = string_body(t.drop_first());
        (
            if t[0] == '\\' {
                body
            } else {
                seq![t[0]] + body
            },
            k + 1,
            closed,
        )
    }
}

/// The number of alphanumeric characters at the front of `t`.
pub open spec fn alphanumeric_run(t: Seq<char>) -> nat
    decreases t.len(),
{
    if t.len() > 0 && alphanumeric(t[0]) {
        1 + alphanumeric_run(t.drop_first())
    } else {
        0
    }
}

/// The bracket token that `c` stands for, if any.
pub open spec fn bracket_token(c: char) -> Option<TokenView> {
    if c == '{' {
        Some(TokenView::Bracket { bracket: Bracket::Curly, state: BracketState::Open })
    } else if c == '}' {
        Some(TokenView::Bracket { bracket: Bracket::Curly, state: BracketState::Close })
    } else if c == '[' {
        Some(TokenView::Bracket { bracket: Bracket::Square, state: BracketState::Open })
    } else if c == ']' {
        Some(TokenView::Bracket { bracket: Bracket::Square, state: BracketState::Close })
    } else if c == '<' {
        Some(TokenView::Bracket { bracket: Bracket::Angle, state: BracketState::Open })
    } else if c == '>' {
        Some(TokenView::Bracket { bracket: Bracket::Angle, state: BracketState::Close })
    } else if c == '(' {
        Some(TokenView::Bracket { bracket: Bracket::Parenthesis, state: BracketState::Open })
    } else if c == ')' {
        Some(TokenView::Bracket { bracket: Bracket::Parenthesis, state: BracketState::Close })
    } else {
        None
    }
}

/// The tokenizer reads each bracket character back as the bracket it stands
/// for: the opening character as the open bracket, the closing one as the
/// closed bracket.
pub proof fn lemma_bracket_chars_read_back(b: Bracket)
    ensures
        bracket_token(open_char(b)) == Some(TokenView::Bracket { bracket: b, state: BracketState::Open }),
        bracket_token(close_char(b)) == Some(TokenView::Bracket { bracket: b, state: BracketState::Close }),
{
}

/// Whitespace followed by a character that is no whitespace: the whitespace
/// run is exactly the leading whitespace.
proof fn lemma_whitespace_prefix(ws: Seq<char>, t: Seq<char>)
    requires
        forall|i: int| 0 <= i < ws.len() ==> whitespace(#[trigger] ws[i]),
        t.len() > 0,
        !whitespace(t[0]),
    ensures
        whitespace_run(ws + t) == ws.len(),
    decreases ws.len(),
{
    if ws.len() == 0 {
        assert(ws + t =~= t);
    } else {
        assert((ws + t).drop_first() =~= ws.drop_first() + t);
        assert forall|i: int| 0 <= i < ws.drop_first().len() implies whitespace(#[trigger] ws.drop_first()[i]) by {
            assert(ws.drop_first()[i] == ws[i + 1]);
        }
        lemma_whitespace_prefix(ws.drop_first(), t);
    }
}

/// A bracket character after any whitespace is read as that bracket, and what
/// follows it is left to be read as if it stood alone: the step consumes the
/// whitespace and the bracket, and nothing of the rest.
pub proof fn lemma_bracket_then_rest(ws: Seq<char>, b: Bracket, st: BracketState, rest: Seq<char>)
    requires
        forall|i: int| 0 <= i < ws.len() ==> whitespace(#[trigger] ws[i]),
    ensures
        ({
            let c = if st == BracketState::Open { open_char(b) } else { close_char(b) };
            let s = ws + seq![c] + rest;
            &&& lex_step(s) == LexStep::Emit(TokenView::Bracket { bracket: b, state: st }, ws.len() + 1)
            &&& s.skip(ws.len() + 1 as int) == rest
        }),
{
    let c = if st == BracketState::Open { open_char(b) } else { close_char(b) };
    let s = ws + seq![c] + rest;
    let t = seq![c] + rest;
    assert(s =~= ws + t);
    lemma_whitespace_prefix(ws, t);
    assert(s.skip(ws.len() as int) =~= t);
    assert(s.skip(ws.len() + 1 as int) =~= rest);
}

/// Why the tokenizer cannot go on: a character that starts no token, a `-`
/// followed by no number, or a number too large for its type.
#[derive(Debug, Clone, Copy, PartialEq, Eq, Structural)]
pub enum LexError {
    UnexpectedCharacter(char),
    UnexpectedNegative,
    Overflow,
}

/// One step of the tokenizer: the end of the input (after the whitespace it
/// consumed), a token and the characters consumed, or a panic of the
/// computation, with its reason.
pub enum LexStep {
    End(nat),
    Emit(TokenView, nat),
    Panics(LexError),
}

/// The step of the tokenizer on `t`, which starts with no whitespace and no
/// bracket: a number, a negative number, an identifier or a string; the
/// characters consumed are counted from the start of `t`.
pub open spec fn lex_word(t: Seq<char>) -> LexStep {
    match positive_number(t) {
        NumberScan::Overflow => LexStep::Panics(LexError::Overflow),
        NumberScan::Read(Some(num), k) => LexStep::Emit(
            TokenView::Literal(LiteralView::Number(num)),
            k,
        ),
        NumberScan::Read(None, _) => {
            if t[0] == '-' {
                match positive_number(t.drop_first()) {
                    NumberScan::Read(Some(num), k) => if num == NumericLiteral::Integer(
                        isize::MIN,
                    ) {
                        LexStep::Panics(LexError::Overflow)
                    } else {
                        LexStep::Emit(
                            TokenView::Literal(LiteralView::Number(negation(num))),
                            1 + k,
                        )
                    },
                    NumberScan::Overflow => LexStep::Panics(LexError::Overflow),
                    NumberScan::Read(None, _) => LexStep::Panics(LexError::UnexpectedNegative),
                }
            } else if letter(t[0]) {
                let k = alphanumeric_run(t);
                LexStep::Emit(TokenView::Identifier(t.take(k as int)), k)
            } else if t[0] == '"' {
                let (body, k, closed) = string_body(t.drop_first());
                LexStep::Emit(
                    TokenView::Literal(LiteralView::String(body)),
                    1 + k + if closed {
                        1nat
                    } else {
                        0nat
                    },
                )
            } else {
                LexStep::Panics(LexError::UnexpectedCharacter(t[0]))
            }
        },
    }
}

/// The next step of the tokenizer on `s`: whitespace is skipped; then the end,
/// a bracket, or a word (see `lex_word`).
pub open spec fn lex_step(s: Seq<char>) -> LexStep {
    let w = whitespace_run(s);
    let t = s.skip(w as int);
    if t.len() == 0 {
        LexStep::End(w)
    } else {
        match bracket_token(t[0]) {
            Some(tok) => LexStep::Emit(tok, w + 1),
            None => match lex_word(t) {
                LexStep::Emit(tok, k) => LexStep::Emit(tok, w + k),
                LexStep::End(k) => LexStep::End(w + k),
                LexStep::Panics(e) => LexStep::Panics(e),
            },
        }
    }
}

/// A string body is scanned within its input; when closed, the closing quote
/// stands right after it.
pub proof fn lemma_string_body_bound(t: Seq<char>)
    ensures
        string_body(t).1 <= t.len(),
        string_body(t).2 ==> string_body(t).1 < t.len(),
    decreases t.len(),
{
    if t.len() > 0 && t[0] != '"' {
        lemma_string_body_bound(t.drop_first());
    }
}

/// The leading alphanumeric characters are the first `alphanumeric_run`
/// characters, and the character after them, if any, is not alphanumeric.
pub proof fn lemma_alphanumeric_run(t: Seq<char>)
    ensures
        alphanumeric_run(t) <= t.len(),
        forall|i: int| 0 <= i < alphanumeric_run(t) ==> alphanumeric(#[trigger] t[i]),
        alphanumeric_run(t) < t.len() ==> !alphanumeric(t[alphanumeric_run(t) as int]),
    decreases t.len(),
{
    if t.len() > 0 && alphanumeric(t[0]) {
        lemma_alphanumeric_run(t.drop_first());
        assert forall|i: int| 0 <= i < alphanumeric_run(t) implies alphanumeric(#[trigger] t[i]) by {
            if i > 0 {
                assert(t[i] == t.drop_first()[i - 1]);
            }
        }
    }
}

/// Folding more digits never gives a smaller number.
pub proof fn lemma_fold_digits_monotone(start: nat, s: Seq<char>, radix: u32, j: nat, k: nat)
    requires
        j <= k,
        radix >= 1,
    ensures
        fold_digits(start, s, j, radix) <= fold_digits(start, s, k, radix),
    decreases k - j,
{
    if j < k {
        lemma_fold_digits_monotone(start, s, radix, j, (k - 1) as nat);
        let a = fold_digits(start, s, (k - 1) as nat, radix);
        let d = digit_value(s[k - 1], radix)->0 as nat;
        assert(a <= a * (radix as nat) + d) by (nonlinear_arith)
            requires
                radix >= 1,
        ;
    }
}

/// A higher power of a radix is no smaller.
pub proof fn lemma_power_monotone(radix: u32, j: nat, k: nat)
    requires
        j <= k,
        radix >= 1,
    ensures
        power(radix, j) <= power(radix, k),
    decreases k - j,
{
    if j < k {
        lemma_power_monotone(radix, j, (k - 1) as nat);
        let a = power(radix, (k - 1) as nat);
        assert(a <= a * (radix as nat)) by (nonlinear_arith)
            requires
                radix >= 1,
        ;
    }
}

/// Reading an integer or a decimal consumes at least the digit run and no more
/// than the input; without a first digit given, a number read consumes some
/// character.
proof fn lemma_float_or_integer_bounds(u: Seq<char>, radix: u32, first: Option<u32>)
    ensures
        float_or_integer(u, radix, first) matches NumberScan::Read(v, k) ==> digit_run(u, radix) <= k
            <= u.len() && (v is Some && first is None ==> k >= 1),
{
    lemma_digit_run(u, radix);
    let n = digit_run(u, radix);
    if n < u.len() && u[n as int] == '.' {
        lemma_digit_run(u.skip(n + 1 as int), radix);
    }
}

/// Reading a number without sign consumes no more than the input, and at least
/// one character when it reads a number.
proof fn lemma_positive_number_bounds(t: Seq<char>)
    ensures
        positive_number(t) matches NumberScan::Read(v, k) ==> k <= t.len() && (v is Some ==> k >= 1),
{
    if t.len() > 0 {
        if t[0] == '0' {
            let t1 = t.drop_first();
            let (radix, rc) = radix_prefix(t1);
            if let Some(r) = radix {
                lemma_float_or_integer_bounds(t1.skip(rc as int), r, None);
            }
        } else if is_digit(t[0], 10) {
            lemma_digit_run(t, 10);
            lemma_float_or_integer_bounds(t, 10, Some(digit_value(t[0], 10)->0));
        }
    }
}

/// The tokenizer always moves forward: a token consumes at least one character
/// and no more than the input, and the end is reported only once the input is
/// used up.
pub proof fn lemma_lex_step_progress(s: Seq<char>)
    ensures
        lex_step(s) matches LexStep::Emit(_, c) ==> 1 <= c <= s.len(),
        lex_step(s) matches LexStep::End(c) ==> c == s.len(),
{
    lemma_whitespace_run(s);
    let w = whitespace_run(s);
    let t = s.skip(w as int);
    if t.len() > 0 && bracket_token(t[0]) is None {
        lemma_positive_number_bounds(t);
        lemma_positive_number_bounds(t.drop_first());
        lemma_alphanumeric_run(t);
        lemma_string_body_bound(t.drop_first());
    }
}

/// `power` is exponentiation.
proof fn lemma_power_is_pow(radix: u32, k: nat)
    ensures
        power(radix, k) == pow(radix as int, k),
    decreases k,
{
    reveal(pow);
    if k > 0 {
        lemma_power_is_pow(radix, (k - 1) as nat);
        assert(power(radix, (k - 1) as nat) * (radix as nat) == (radix as int) * pow(radix as int, (k - 1) as nat))
            by (nonlinear_arith)
            requires
                power(radix, (k - 1) as nat) == pow(radix as int, (k - 1) as nat),
        ;
    }
}

/// Folding `k` digits into `start` gives `start` shifted by `k` places plus
/// the value of the digits.
proof fn lemma_fold_digits_value(start: nat, s: Seq<char>, k: nat, radix: u32)
    ensures
        fold_digits(start, s, k, radix) == start * pow(radix as int, k) + digits_value(s, k, radix),
    decreases k,
{
    reveal(pow);
    if k > 0 {
        lemma_fold_digits_value(start, s, (k - 1) as nat, radix);
        let p = pow(radix as int, (k - 1) as nat);
        let dv = digits_value(s, (k - 1) as nat, radix);
        let d = digit_value(s[k - 1], radix)->0 as int;
        assert((start * p + dv) * (radix as int) + d == start * ((radix as int) * p) + (dv * (radix as int) + d))
            by (nonlinear_arith);
    }
}

/// The value of a number read with a `.`: the integer part is the value of
/// the digits before the `.` (with a first digit given, that digit shifted
/// past all of them and added: the first digit counts twice), and the
/// fraction is the value of all the digits after the `.`, most significant
/// first, over the radix to the power of their number. Reading consumes the
/// digits, the `.` and the fraction digits. It overflows exactly when one of
/// the three parts does not fit a `usize`.
pub proof fn lemma_decimal_value(u: Seq<char>, radix: u32, first: Option<u32>)
    requires
        2 <= radix <= 36,
        digit_run(u, radix) < u.len(),
        u[digit_run(u, radix) as int] == '.',
    ensures
        ({
            let n = digit_run(u, radix);
            let f = u.skip(n + 1 as int);
            let m = digit_run(f, radix);
            let ip: int = match first {
                Some(fd) => fd * pow(radix as int, n) + digits_value(u, n, radix),
                None => digits_value(u, n, radix) as int,
            };
            let num = digits_value(f, m, radix);
            let den = pow(radix as int, m);
            &&& (ip > usize::MAX || num > usize::MAX || den > usize::MAX) <==> float_or_integer(u, radix, first) is Overflow
            &&& !(float_or_integer(u, radix, first) is Overflow) ==> float_or_integer(u, radix, first)
                == NumberScan::Read(
                Some(
                    NumericLiteral::Decimal {
                        sign: Sign::Positive,
                        integer_part: ip as usize,
                        fraction_numerator: num as usize,
                        fraction_denominator: den as usize,
                    },
                ),
                n + 1 + m,
            )
        }),
{
    let n = digit_run(u, radix);
    let f = u.skip(n + 1 as int);
    let m = digit_run(f, radix);
    lemma_fold_digits_value(0, f, m, radix);
    lemma_power_is_pow(radix, m);
    match first {
        Some(fd) => {
            lemma_fold_digits_value(fd as nat, u, n, radix);
        },
        None => {
            lemma_fold_digits_value(0, u, n, radix);
            if n == 0 {
                assert(digits_value(u, 0, radix) == 0);
            }
        },
    }
}

/// The value of a number read without a `.`: an integer whose value is that
/// of its digits (with a first digit given, that digit shifted past all of
/// them and added); no number when there is neither a digit nor a first
/// digit. It overflows exactly when the value does not fit a `usize`.
pub proof fn lemma_integer_value(u: Seq<char>, radix: u32, first: Option<u32>)
    requires
        2 <= radix <= 36,
        !(digit_run(u, radix) < u.len() && u[digit_run(u, radix) as int] == '.'),
    ensures
        ({
            let n = digit_run(u, radix);
            let v: int = match first {
                Some(fd) => fd * pow(radix as int, n) + digits_value(u, n, radix),
                None => digits_value(u, n, radix) as int,
            };
            &&& first is None && n == 0 ==> float_or_integer(u, radix, first) == NumberScan::Read(None, 0)
            &&& (first is Some || n > 0) ==> ((v > usize::MAX) <==> float_or_integer(u, radix, first) is Overflow)
            &&& (first is Some || n > 0) && v <= usize::MAX ==> float_or_integer(u, radix, first)
                == NumberScan::Read(Some(NumericLiteral::Integer(v as usize as isize)), n)
        }),
{
    let n = digit_run(u, radix);
    match first {
        Some(fd) => {
            lemma_fold_digits_value(fd as nat, u, n, radix);
        },
        None => {
            lemma_fold_digits_value(0, u, n, radix);
        },
    }
}

/// A run of alphanumeric characters followed by a character that is none
/// (or by nothing) is counted whole.
proof fn lemma_alphanumeric_run_of(w: Seq<char>, rest: Seq<char>)
    requires
        forall|i: int| 0 <= i < w.len() ==> alphanumeric(#[trigger] w[i]),
        rest.len() == 0 || !alphanumeric(rest[0]),
    ensures
        alphanumeric_run(w + rest) == w.len(),
    decreases w.len(),
{
    if w.len() == 0 {
        assert(w + rest =~= rest);
    } else {
        assert((w + rest)[0] == w[0]);
        assert((w + rest).drop_first() =~= w.drop_first() + rest);
        assert forall|i: int| 0 <= i < w.drop_first().len() implies alphanumeric(#[trigger] w.drop_first()[i]) by {
            assert(w.drop_first()[i] == w[i + 1]);
        }
        lemma_alphanumeric_run_of(w.drop_first(), rest);
    }
}

/// A string body without quotes or backslashes, closed by a quote, is read
/// as it stands, up to that quote.
proof fn lemma_string_body_of(body: Seq<char>, rest: Seq<char>)
    requires
        forall|i: int| 0 <= i < body.len() ==> (#[trigger] body[i]) != '"' && body[i] != '\\',
    ensures
        string_body(body + seq!['"'] + rest) == (body, body.len(), true),
    decreases body.len(),
{
    let t = body + seq!['"'] + rest;
    if body.len() == 0 {
        assert(t[0] == '"');
    } else {
        assert(t[0] == body[0]);
        assert(t.drop_first() =~= body.drop_first() + seq!['"'] + rest);
        assert forall|i: int| 0 <= i < body.drop_first().len() implies (#[trigger] body.drop_first()[i]) != '"'
            && body.drop_first()[i] != '\\' by {
            assert(body.drop_first()[i] == body[i + 1]);
        }
        lemma_string_body_of(body.drop_first(), rest);
        assert(seq![body[0]] + body.drop_first() =~= body);
    }
}

/// A word that starts with a letter (no digit) and runs over alphanumeric
/// characters is read as an identifier of exactly those characters; what
/// follows is left.
pub proof fn lemma_identifier_word(w: Seq<char>, rest: Seq<char>)
    requires
        w.len() > 0,
        letter(w[0]),
        forall|i: int| 0 <= i < w.len() ==> alphanumeric(#[trigger] w[i]),
        rest.len() == 0 || !alphanumeric(rest[0]),
    ensures
        lex_word(w + rest) == LexStep::Emit(TokenView::Identifier(w), w.len()),
{
    let t = w + rest;
    assert(t[0] == w[0]);
    lemma_alphanumeric_run_of(w, rest);
    assert(t.take(w.len() as int) =~= w);
}

/// A quoted string whose text holds no quote and no backslash is read as
/// that text, consuming both quotes; what follows is left.
pub proof fn lemma_string_word(body: Seq<char>, rest: Seq<char>)
    requires
        forall|i: int| 0 <= i < body.len() ==> (#[trigger] body[i]) != '"' && body[i] != '\\',
    ensures
        lex_word(seq!['"'] + body + seq!['"'] + rest) == LexStep::Emit(
            TokenView::Literal(LiteralView::String(body)),
            body.len() + 2,
        ),
{
    let t = seq!['"'] + body + seq!['"'] + rest;
    assert(t[0] == '"');
    assert(t.drop_first() =~= body + seq!['"'] + rest);
    lemma_string_body_of(body, rest);
}

/// After `0` and a radix letter (`b` for 2, `o` for 8, `x` for 16), digits
/// of that radix not followed by a `.` read as the integer they denote; the
/// `0`, the letter and the digits are consumed.
pub proof fn lemma_prefixed_integer(letter: char, u: Seq<char>)
    requires
        letter == 'b' || letter == 'o' || letter == 'x',
        ({
            let radix: u32 = if letter == 'b' { 2 } else if letter == 'o' { 8 } else { 16 };
            &&& digit_run(u, radix) > 0
            &&& !(digit_run(u, radix) < u.len() && u[digit_run(u, radix) as int] == '.')
            &&& digits_value(u, digit_run(u, radix), radix) <= usize::MAX
        }),
    ensures
        ({
            let radix: u32 = if letter == 'b' { 2 } else if letter == 'o' { 8 } else { 16 };
            let n = digit_run(u, radix);
            positive_number(seq!['0', letter] + u) == NumberScan::Read(
                Some(NumericLiteral::Integer(digits_value(u, n, radix) as usize as isize)),
                2 + n,
            )
        }),
{
    let radix: u32 = if letter == 'b' { 2 } else if letter == 'o' { 8 } else { 16 };
    let t = seq!['0', letter] + u;
    assert(t[0] == '0');
    assert(t.drop_first()[0] == letter);
    assert(t.drop_first().skip(1) =~= u);
    lemma_integer_value(u, radix, None);
}

/// A number in decimal (first digit not `0`, no `.` after the digits) reads
/// as its first digit shifted past all its digits plus the value of all its
/// digits: the first digit counts twice, so `5` reads as 55 and `12` as 112.
pub proof fn lemma_decimal_integer(t: Seq<char>)
    requires
        t.len() > 0,
        is_digit(t[0], 10),
        t[0] != '0',
        !(digit_run(t, 10) < t.len() && t[digit_run(t, 10) as int] == '.'),
        (digit_value(t[0], 10)->0) * pow(10, digit_run(t, 10)) + digits_value(t, digit_run(t, 10), 10) <= usize::MAX,
    ensures
        ({
            let n = digit_run(t, 10);
            let d = digit_value(t[0], 10)->0;
            positive_number(t) == NumberScan::Read(
                Some(NumericLiteral::Integer((d * pow(10, n) + digits_value(t, n, 10)) as usize as isize)),
                n,
            )
        }),
{
    lemma_integer_value(t, 10, Some(digit_value(t[0], 10)->0));
}

/// One step of folding digits: the value so far times the radix, plus the
/// digit; `None` where that does not fit a `usize` (where the computation
/// overflows).
fn integrate_digit(radix: u32, val: usize, digit: usize) -> (r: Option<usize>)
    ensures
        r == (if val * radix + digit > usize::MAX {
            None
        } else {
            Some((val * radix + digit) as usize)
        }),
{
    match val.checked_mul(radix as usize) {
        Some(m) => m.checked_add(digit),
        None => {
            assert(val * radix + digit > usize::MAX) by (nonlinear_arith)
                requires
                    val * radix > usize::MAX,
                    digit >= 0,
            ;
            None
        },
    }
}

/// Folds the leading digits of `source` into `start`, consuming them: the
/// digits are taken through a `BorrowedFilterMap` that gives each digit's
/// value and stops at the first character that is no digit. `None` where the
/// number does not fit a `usize` (where the computation overflows); what is
/// left of the stream is then not specified.
fn fold_digit_run(source: &mut CharStream, radix: u32, start: usize) -> (r: Option<usize>)
    requires
        2 <= radix <= 36,
    ensures
        ({
            let v = fold_digits(start as nat, old(source).rest(), digit_run(old(source).rest(), radix), radix);
            &&& r is None <==> v > usize::MAX
            &&& r matches Some(x) ==> x == v && final(source).rest() == old(source).rest().skip(
                digit_run(old(source).rest(), radix) as int,
            )
        }),
{
    let ghost s0 = source.rest();
    let ghost n = digit_run(s0, radix);
    proof { lemma_digit_run(s0, radix); }
    let mut taken = CharStream::from_chars(Vec::new());
    std::mem::swap(&mut taken, source);
    let digit_of = move |c: char| -> (o: Option<u32>)
        requires
            2 <= radix <= 36,
        ensures
            o == digit_value(c, radix),
        { to_digit(c, radix) };
    assert(forall|c: char| #[trigger] digit_of.requires((c,)));
    assert(forall|c: char, o: Option<u32>| #[trigger] digit_of.ensures((c,), o) ==> o == digit_value(c, radix));
    let mut digits = BorrowedFilterMap::new(taken, digit_of);
    let mut acc = start;
    let ghost mut k: nat = 0;
    assert(digits.rest() =~= s0.skip(0));
    loop
        invariant
            2 <= radix <= 36,
            s0 == old(source).rest(),
            n == digit_run(s0, radix),
            n <= s0.len(),
            forall|i: int| 0 <= i < n ==> is_digit(#[trigger] s0[i], radix),
            n < s0.len() ==> !is_digit(s0[n as int], radix),
            k <= n,
            digits.mapping() == digit_of,
            forall|c: char| #[trigger] digit_of.requires((c,)),
            forall|c: char, o: Option<u32>| #[trigger] digit_of.ensures((c,), o) ==> o == digit_value(c, radix),
            digits.rest() == s0.skip(k as int),
            acc == fold_digits(start as nat, s0, k, radix),
        ensures
            k == n,
            digits.rest() == s0.skip(k as int),
            acc == fold_digits(start as nat, s0, k, radix),
        decreases n - k,
    {
        let ghost before = digits.rest();
        let d = match digits.next() {
            Some(d) => d,
            None => {
                assert(k == n) by {
                    if k < n {
                        assert(before[0] == s0[k as int]);
                    }
                }
                break;
            },
        };
        assert(before[0] == s0[k as int]);
        assert(d == digit_value(s0[k as int], radix)->0);
        assert(k < n);
        assert(digits.rest() =~= s0.skip(k + 1 as int));
        proof {
            lemma_fold_digits_monotone(start as nat, s0, radix, k + 1, n);
            k = k + 1;
        }
        assert(fold_digits(start as nat, s0, k, radix) == acc * (radix as nat) + d);
        match integrate_digit(radix, acc, d as usize) {
            Some(x) => {
                acc = x;
            },
            None => {
                *source = digits.into_inner();
                return None;
            },
        }
    }
    *source = digits.into_inner();
    Some(acc)
}

/// Reads an integer part (see `integer_value`), consuming its digits; an
/// overflow where the integer part does not fit a `usize`.
fn parse_integer(source: &mut CharStream, radix: u32, first_digit: Option<u32>) -> (r: Result<
    Option<usize>,
    LexError,
>)
    requires
        2 <= radix <= 36,
        first_digit matches Some(fd) ==> fd < radix,
    ensures
        match integer_value(old(source).rest(), radix, first_digit) {
            Some(v) => if v > usize::MAX {
                r == Err::<Option<usize>, LexError>(LexError::Overflow)
            } else {
                r == Ok::<Option<usize>, LexError>(Some(v as usize))
            },
            None => r == Ok::<Option<usize>, LexError>(None),
        },
        r is Ok ==> final(source).rest() == old(source).rest().skip(
            digit_run(old(source).rest(), radix) as int,
        ),
{
    match first_digit {
        Some(fd) => match fold_digit_run(source, radix, fd as usize) {
            Some(v) => Ok(Some(v)),
            None => Err(LexError::Overflow),
        },
        None => {
            let ghost s0 = source.rest();
            proof { lemma_digit_run(s0, radix); }
            let present = match source.peek() {
                Some(c) => to_digit(c, radix).is_some(),
                None => false,
            };
            if present {
                match fold_digit_run(source, radix, 0) {
                    Some(v) => Ok(Some(v)),
                    None => Err(LexError::Overflow),
                }
            } else {
                assert(s0.skip(0) =~= s0);
                Ok(None)
            }
        },
    }
}

/// Reads an integer or a decimal (see `float_or_integer`), consuming what it
/// reads.
fn parse_float_or_integer(source: &mut CharStream, radix: u32, first_digit: Option<u32>) -> (r:
    Result<Option<NumericLiteral>, LexError>)
    requires
        2 <= radix <= 36,
        first_digit matches Some(fd) ==> fd < radix,
    ensures
        match float_or_integer(old(source).rest(), radix, first_digit) {
            NumberScan::Overflow => r == Err::<Option<NumericLiteral>, LexError>(LexError::Overflow),
            NumberScan::Read(v, k) => r == Ok::<Option<NumericLiteral>, LexError>(v) && k
                <= old(source).rest().len() && final(source).rest() == old(source).rest().skip(k as int),
        },
{
    let ghost u = source.rest();
    let ghost n = digit_run(u, radix);
    proof { lemma_digit_run(u, radix); }
    let integer_part = match parse_integer(source, radix, first_digit) {
        Ok(v) => v,
        Err(e) => return Err(e),
    };
    let dot = match source.peek() {
        Some(c) => c == '.',
        None => false,
    };
    if dot {
        assert(source.rest()[0] == u[n as int]);
        source.advance();
        let ghost f = u.skip(n + 1 as int);
        assert(source.rest() =~= f);
        let ghost m = digit_run(f, radix);
        proof { lemma_digit_run(f, radix); }
        let mut taken = CharStream::from_chars(Vec::new());
        std::mem::swap(&mut taken, source);
        let digit_of = move |c: char| -> (o: Option<u32>)
            requires
                2 <= radix <= 36,
            ensures
                o == digit_value(c, radix),
            { to_digit(c, radix) };
        assert(forall|c: char| #[trigger] digit_of.requires((c,)));
        assert(forall|c: char, o: Option<u32>| #[trigger] digit_of.ensures((c,), o) ==> o == digit_value(c, radix));
        let mut digits = BorrowedFilterMap::new(taken, digit_of);
        let mut numerator: usize = 0;
        let mut denominator: usize = 1;
        let ghost mut j: nat = 0;
        assert(digits.rest() =~= f.skip(0));
        loop
            invariant
                2 <= radix <= 36,
                u == old(source).rest(),
                n == digit_run(u, radix),
                n < u.len() && u[n as int] == '.',
                f == u.skip(n + 1 as int),
                integer_value(u, radix, first_digit) matches Some(v) ==> v <= usize::MAX,
                m == digit_run(f, radix),
                m <= f.len(),
                forall|i: int| 0 <= i < m ==> is_digit(#[trigger] f[i], radix),
                m < f.len() ==> !is_digit(f[m as int], radix),
                j <= m,
                digits.mapping() == digit_of,
                forall|c: char| #[trigger] digit_of.requires((c,)),
                forall|c: char, o: Option<u32>| #[trigger] digit_of.ensures((c,), o) ==> o == digit_value(c, radix),
                digits.rest() == f.skip(j as int),
                numerator == fold_digits(0, f, j, radix),
                denominator == power(radix, j),
            ensures
                j == m,
                digits.rest() == f.skip(j as int),
                numerator == fold_digits(0, f, j, radix),
                denominator == power(radix, j),
            decreases m - j,
        {
            let ghost before = digits.rest();
            let d = match digits.next() {
                Some(d) => d,
                None => {
                    assert(j == m) by {
                        if j < m {
                            assert(before[0] == f[j as int]);
                        }
                    }
                    break;
                },
            };
            assert(before[0] == f[j as int]);
            assert(j < m);
            assert(digits.rest() =~= f.skip(j + 1 as int));
            proof {
                lemma_fold_digits_monotone(0, f, radix, j + 1, m);
                lemma_power_monotone(radix, j + 1, m);
                j = j + 1;
            }
            assert(fold_digits(0, f, j, radix) == numerator * (radix as nat) + d);
            assert(power(radix, j) == denominator * (radix as nat));
            numerator = match integrate_digit(radix, numerator, d as usize) {
                Some(x) => x,
                None => {
                    *source = digits.into_inner();
                    return Err(LexError::Overflow);
                },
            };
            denominator = match denominator.checked_mul(radix as usize) {
                Some(x) => x,
                None => {
                    *source = digits.into_inner();
                    return Err(LexError::Overflow);
                },
            };
        }
        *source = digits.into_inner();
        assert(source.rest() =~= u.skip((n + 1 + m) as int));
        let ip = match integer_part {
            Some(v) => v,
            None => 0,
        };
        Ok(
            Some(
                NumericLiteral::Decimal {
                    sign: Sign::Positive,
                    integer_part: ip,
                    fraction_numerator: numerator,
                    fraction_denominator: denominator,
                },
            ),
        )
    } else {
        match integer_part {
            Some(x) => Ok(Some(NumericLiteral::Integer(x as isize))),
            None => Ok(None),
        }
    }
}

/// Reads the radix announced after a leading `0` (see `radix_prefix`).
fn consume_radix(source: &mut CharStream) -> (r: Option<u32>)
    ensures
        r == radix_prefix(old(source).rest()).0,
        final(source).rest() == old(source).rest().skip(radix_prefix(old(source).rest()).1 as int),
{
    let ghost s0 = source.rest();
    assert(s0.skip(0) =~= s0);
    match source.peek() {
        Some('b') => {
            source.advance();
            Some(2)
        },
        Some('o') => {
            source.advance();
            Some(8)
        },
        Some('x') => {
            source.advance();
            Some(16)
        },
        Some(c) => {
            if to_digit(c, 10).is_some() {
                Some(10)
            } else {
                None
            }
        },
        None => None,
    }
}

/// Reads a number without sign (see `positive_number`), consuming what it
/// reads.
fn parse_positive_number(source: &mut CharStream) -> (r: Result<Option<NumericLiteral>, LexError>)
    ensures
        match positive_number(old(source).rest()) {
            NumberScan::Overflow => r == Err::<Option<NumericLiteral>, LexError>(LexError::Overflow),
            NumberScan::Read(v, k) => r == Ok::<Option<NumericLiteral>, LexError>(v) && k
                <= old(source).rest().len() && final(source).rest() == old(source).rest().skip(k as int),
        },
{
    let ghost t = source.rest();
    let first_char = source.peek();
    match first_char {
        Some('0') => {
            source.advance();
            let ghost t1 = t.drop_first();
            let radix = consume_radix(source);
            match radix {
                Some(r) => {
                    let ghost rc = radix_prefix(t1).1;
                    assert(source.rest() =~= t1.skip(rc as int));
                    let value = parse_float_or_integer(source, r, None);
                    proof {
                        if let NumberScan::Read(_, k) = float_or_integer(t1.skip(rc as int), r, None) {
                            assert(source.rest() =~= t.skip((1 + rc + k) as int));
                        }
                    }
                    match value {
                        Ok(Some(v)) => Ok(Some(v)),
                        Ok(None) => Ok(Some(NumericLiteral::Integer(0))),
                        Err(e) => Err(e),
                    }
                },
                None => {
                    assert(source.rest() =~= t.skip(1));
                    Ok(Some(NumericLiteral::Integer(0)))
                },
            }
        },
        Some(c) => {
            match to_digit(c, 10) {
                Some(digit) => parse_float_or_integer(source, 10, Some(digit)),
                None => {
                    assert(t.skip(0) =~= t);
                    Ok(None)
                },
            }
        },
        None => {
            assert(t.skip(0) =~= t);
            Ok(None)
        },
    }
}

/// The tokenizer of the interactive language, over a source of characters.
pub struct Tokens {
    source: CharStream,
}

impl Tokens {
    /// The characters not yet tokenized.
    pub closed spec fn rest(&self) -> Seq<char> {
        self.source.rest()
    }

    /// A tokenizer over `source`.
    pub fn new(source: &str) -> (r: Self)
        requires
            source@.len() < usize::MAX,
        ensures
            r.rest() == source@,
    {
        Tokens { source: CharStream::new(source) }
    }

    /// Consumes the next character, if there is one.
    pub fn consume_current_char(&mut self)
        ensures
            old(self).rest().len() > 0 ==> final(self).rest() == old(self).rest().drop_first(),
            old(self).rest().len() == 0 ==> final(self).rest() == old(self).rest(),
    {
        self.source.advance();
    }

    /// A bracket token, consuming its character.
    fn bracket(&mut self, bracket: Bracket, state: BracketState) -> (r: Option<Token>)
        ensures
            r == Some(Token::Bracket { bracket, state }),
            old(self).rest().len() > 0 ==> final(self).rest() == old(self).rest().drop_first(),
    {
        self.consume_current_char();
        Some(Token::Bracket { bracket, state })
    }

    /// Reads an identifier: the alphanumeric characters at the front, taken
    /// through a `BorrowedFilter`.
    fn identifier(&mut self) -> (r: String)
        ensures
            r@ == old(self).rest().take(alphanumeric_run(old(self).rest()) as int),
            final(self).rest() == old(self).rest().skip(alphanumeric_run(old(self).rest()) as int),
    {
        let ghost t = self.source.rest();
        let ghost n = alphanumeric_run(t);
        proof { lemma_alphanumeric_run(t); }
        let mut taken = CharStream::from_chars(Vec::new());
        std::mem::swap(&mut taken, &mut self.source);
        let test = |c: char| -> (b: bool)
            ensures
                b == alphanumeric(c),
            { is_alphanumeric(c) };
        assert(forall|c: char| #[trigger] test.requires((c,)));
        assert(forall|c: char, b: bool| #[trigger] test.ensures((c,), b) ==> b == alphanumeric(c));
        let mut ident_iter = BorrowedFilter::new(taken, test);
        let chars = ident_iter.collect();
        proof {
            let k = chars@.len();
            if k < n {
                assert(alphanumeric(t[k as int]));
            }
            if n < k {
                assert(test.ensures((t[n as int],), true));
            }
            assert(k == n);
        }
        self.source = ident_iter.into_inner();
        string_of(&chars)
    }

    /// Reads the text of a string literal whose opening quote is consumed (see
    /// `string_body`), consuming the closing quote when there is one.
    fn string_literal(&mut self) -> (r: String)
        ensures
            ({
                let (body, k, closed) = string_body(old(self).rest());
                &&& r@ == body
                &&& final(self).rest() == old(self).rest().skip(
                    k + if closed {
                        1int
                    } else {
                        0int
                    },
                )
            }),
    {
        let ghost t = self.source.rest();
        let mut chars: Vec<char> = Vec::new();
        let mut quote_closed = false;
        let ghost mut k: nat = 0;
        assert(self.source.rest() =~= t.skip(0));
        loop
            invariant_except_break
                !quote_closed,
            invariant
                t == old(self).rest(),
                k <= t.len(),
                self.source.rest() == t.skip(k as int),
                chars@ + string_body(t.skip(k as int)).0 == string_body(t).0,
                k + string_body(t.skip(k as int)).1 == string_body(t).1,
                string_body(t.skip(k as int)).2 == string_body(t).2,
            ensures
                k == string_body(t).1,
                quote_closed == string_body(t).2,
                chars@ == string_body(t).0,
                self.source.rest() == t.skip(k as int),
            decreases t.len() - k,
        {
            let c = match self.source.peek() {
                Some(c) => c,
                None => {
                    assert(chars@ =~= chars@ + string_body(t.skip(k as int)).0);
                    break;
                },
            };
            if c == '"' {
                quote_closed = true;
                assert(chars@ =~= chars@ + string_body(t.skip(k as int)).0);
                break;
            }
            let ghost rest = t.skip(k as int);
            let ghost before = chars@;
            self.source.advance();
            assert(rest.drop_first() =~= t.skip(k + 1 as int));
            if c != '\\' {
                chars.push(c);
            }
            assert(chars@ + string_body(rest.drop_first()).0 =~= before + string_body(rest).0);
            proof { k = k + 1; }
            assert(self.source.rest() =~= t.skip(k as int));
        }
        if quote_closed {
            self.source.advance();
            assert(self.source.rest() =~= t.skip(k + 1 as int));
        }
        string_of(&chars)
    }

    /// Reads a word (see `lex_word`) from the front of the input, which starts
    /// with no whitespace and no bracket; the reason where the computation
    /// would panic.
    #[verifier::rlimit(30)]
    fn word(&mut self) -> (r: Result<Token, LexError>)
        requires
            old(self).rest().len() > 0,
            bracket_token(old(self).rest()[0]) is None,
        ensures
            match lex_word(old(self).rest()) {
                LexStep::Emit(tv, c) => r matches Ok(tok) && tok@ == tv && c <= old(self).rest().len()
                    && final(self).rest() == old(self).rest().skip(c as int),
                LexStep::Panics(e) => r == Err::<Token, LexError>(e),
                LexStep::End(_) => false,
            },
    {
        let ghost t = self.source.rest();
        let c = match self.source.peek() {
            Some(c) => c,
            None => return Err(LexError::UnexpectedNegative),
        };
        match parse_positive_number(&mut self.source) {
            Ok(Some(num)) => {
                return Ok(Token::Literal(Literal::Number(num)));
            },
            Ok(None) => {},
            Err(e) => {
                return Err(e);
            },
        }
        assert(self.source.rest() =~= t);
        if c == '-' {
            self.consume_current_char();
            assert(self.source.rest() =~= t.drop_first());
            match parse_positive_number(&mut self.source) {
                Ok(Some(num)) => {
                    if num == NumericLiteral::Integer(isize::MIN) {
                        return Err(LexError::Overflow);
                    }
                    let mut negated = num;
                    negated.negate();
                    proof {
                        if let NumberScan::Read(_, k) = positive_number(t.drop_first()) {
                            assert(t.drop_first().skip(k as int) =~= t.skip(1 + k as int));
                        }
                    }
                    Ok(Token::Literal(Literal::Number(negated)))
                },
                Ok(None) => Err(LexError::UnexpectedNegative),
                Err(e) => Err(e),
            }
        } else if is_alphabetic(c) {
            proof { lemma_alphanumeric_run(t); }
            let ident = self.identifier();
            Ok(Token::Identifier(ident))
        } else if c == '"' {
            self.consume_current_char();
            assert(self.source.rest() =~= t.drop_first());
            let text = self.string_literal();
            proof {
                let (_, k, closed) = string_body(t.drop_first());
                lemma_string_body_bound(t.drop_first());
                let e: int = if closed {
                    1
                } else {
                    0
                };
                assert(t.drop_first().skip(k + e) =~= t.skip(1 + k + e));
            }
            Ok(Token::Literal(Literal::String(text)))
        } else {
            Err(LexError::UnexpectedCharacter(c))
        }
    }

    /// The next token, or why the tokenizer cannot go on. Leading whitespace
    /// is consumed first; `Ok(None)` at the end of the input. The error is
    /// the reason for which the computation of `next` would panic (see
    /// `lex_step`); what is left of the input after an error is not
    /// specified.
    #[verifier::rlimit(40)]
    pub fn try_next(&mut self) -> (r: Result<Option<Token>, LexError>)
        ensures
            match lex_step(old(self).rest()) {
                LexStep::End(c) => r == Ok::<Option<Token>, LexError>(None) && final(self).rest()
                    == old(self).rest().skip(c as int),
                LexStep::Emit(tv, c) => r matches Ok(Some(tok)) && tok@ == tv && final(self).rest()
                    == old(self).rest().skip(c as int),
                LexStep::Panics(e) => r == Err::<Option<Token>, LexError>(e),
            },
    {
        let ghost s0 = self.source.rest();
        let ghost w = whitespace_run(s0);
        let ghost t = s0.skip(w as int);
        proof { lemma_whitespace_run(s0); }
        self.source.skip_whitespace();
        let c = match self.source.peek() {
            Some(c) => c,
            None => return Ok(None),
        };
        assert(c == t[0]);
        if let Some((bracket, state)) = bracket_for(c) {
            let r = self.bracket(bracket, state);
            assert(t.drop_first() =~= s0.skip(w + 1 as int));
            return Ok(r);
        }
        let r = self.word();
        proof {
            if let LexStep::Emit(_, k) = lex_word(t) {
                assert(t.skip(k as int) =~= s0.skip((w + k) as int));
            }
        }
        match r {
            Ok(tok) => Ok(Some(tok)),
            Err(e) => Err(e),
        }
    }

    /// The next token. Leading whitespace is consumed first; `None` at the end
    /// of the input. The inputs on which the computation panics (see
    /// `lex_step`; `try_next` reports them) are left out.
    pub fn next(&mut self) -> (r: Option<Token>)
        requires
            !(lex_step(old(self).rest()) is Panics),
        ensures
            match lex_step(old(self).rest()) {
                LexStep::End(c) => r is None && final(self).rest() == old(self).rest().skip(
                    c as int,
                ),
                LexStep::Emit(tv, c) => r matches Some(tok) && tok@ == tv && final(self).rest()
                    == old(self).rest().skip(c as int),
                LexStep::Panics(_) => false,
            },
    {
        match self.try_next() {
            Ok(t) => t,
            Err(_) => None,
        }
    }
}

/// The bracket that `c` stands for, with its state.
fn bracket_for(c: char) -> (r: Option<(Bracket, BracketState)>)
    ensures
        r matches Some((b, st)) ==> bracket_token(c) == Some(
            TokenView::Bracket { bracket: b, state: st },
        ),
        r is None ==> bracket_token(c) is None,
{
    match c {
        '{' => Some((Bracket::Curly, BracketState::Open)),
        '}' => Some((Bracket::Curly, BracketState::Close)),
        '[' => Some((Bracket::Square, BracketState::Open)),
        ']' => Some((Bracket::Square, BracketState::Close)),
        '<' => Some((Bracket::Angle, BracketState::Open)),
        '>' => Some((Bracket::Angle, BracketState::Close)),
        '(' => Some((Bracket::Parenthesis, BracketState::Open)),
        ')' => Some((Bracket::Parenthesis, BracketState::Close)),
        _ => None,
    }
}

} // verus!

