//! Text for numbers and strings, as the debugging output writes them.

use vstd::prelude::*;
use crate::chars::string_of;
use vstd::utf8::encode_utf8;

verus! {

/// The character of a decimal digit.
pub open spec fn digit_char(d: nat) -> char {
    if d == 0 {
        '0'
    } else if d == 1 {
        '1'
    } else if d == 2 {
        '2'
    } else if d == 3 {
        '3'
    } else if d == 4 {
        '4'
    } else if d == 5 {
        '5'
    } else if d == 6 {
        '6'
    } else if d == 7 {
        '7'
    } else if d == 8 {
        '8'
    } else {
        '9'
    }
}

/// The decimal digits of `n`, most significant first, with no leading zero.
pub open spec fn decimal(n: nat) -> Seq<char>
    decreases n,
{
    if n < 10 {
        seq![digit_char(n)]
    } else {
        decimal(n / 10).push(digit_char(n % 10))
    }
}

/// `v` in decimal, with a `-` in front when it is negative.
pub open spec fn signed_decimal(v: int) -> Seq<char> {
    if v < 0 {
        seq!['-'] + decimal((-v) as nat)
    } else {
        decimal(v as nat)
    }
}

/// The length of a string in bytes, as `str::len` gives it: the length of its
/// UTF-8 encoding, taken as a `usize`.
pub open spec fn byte_length(s: Seq<char>) -> nat {
    (encode_utf8(s).len() as usize) as nat
}

/// The `Debug` text of a string: the string in double quotes, with the
/// characters that need it escaped (`<str as Debug>::fmt`).
pub uninterp spec fn debug_string(s: Seq<char>) -> Seq<char>;

/// Calls `<str as Debug>::fmt` through `format!`; its result is named
/// `debug_string` (the escaping rules of std are not restated).
#[verifier::external_body]
pub fn debug_quoted(s: &str) -> (r: String)
    ensures
        r@ == debug_string(s@),
{
    format!("{:?}", s)
}

fn digit_of(d: usize) -> (c: char)
    requires
        d < 10,
    ensures
        c == digit_char(d as nat),
{
    if d == 0 {
        '0'
    } else if d == 1 {
        '1'
    } else if d == 2 {
        '2'
    } else if d == 3 {
        '3'
    } else if d == 4 {
        '4'
    } else if d == 5 {
        '5'
    } else if d == 6 {
        '6'
    } else if d == 7 {
        '7'
    } else if d == 8 {
        '8'
    } else {
        '9'
    }
}

/// `v` written in decimal.
pub fn decimal_text(v: usize) -> (r: String)
    ensures
        r@ == decimal(v as nat),
{
    let mut n = v;
    let mut acc: Vec<char> = Vec::new();
    assert(decimal(v as nat) =~= decimal(n as nat) + acc@);
    while n >= 10
        invariant
            decimal(v as nat) == decimal(n as nat) + acc@,
        decreases n,
    {
        let d = digit_of(n % 10);
        proof {
            assert(decimal(n as nat) == decimal((n / 10) as nat).push(d));
            assert(decimal(n as nat) + acc@ =~= decimal((n / 10) as nat) + acc@.insert(0, d));
        }
        acc.insert(0, d);
        n = n / 10;
    }
    let d = digit_of(n);
    assert(decimal(n as nat) + acc@ =~= acc@.insert(0, d));
    acc.insert(0, d);
    string_of(&acc)
}

/// `v` written in decimal, with a `-` in front when it is negative.
pub fn signed_decimal_text(v: isize) -> (r: String)
    ensures
        r@ == signed_decimal(v as int),
{
    if v < 0 {
        let magnitude = ((-(v + 1)) as usize) + 1;
        let mut r = String::from_str("-");
        let digits = decimal_text(magnitude);
        r.append(digits.as_str());
        proof { reveal_strlit("-"); }
        assert(r@ =~= signed_decimal(v as int));
        r
    } else {
        decimal_text(v as usize)
    }
}

} // verus!
