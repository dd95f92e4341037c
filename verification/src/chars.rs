//! Character classification used by the tokenizers.

use vstd::prelude::*;

verus! {

/// The value of `c` read as a digit in `radix`, as `char::to_digit` documents it:
/// `0`-`9` stand for 0 to 9, `a`-`z` and `A`-`Z` for 10 to 35, and a digit counts
/// only when it is below the radix.
pub open spec fn digit_value(c: char, radix: u32) -> Option<u32> {
    let code = c as u32;
    let v: u32 = if 48 <= code <= 57 {
        (code - 48) as u32
    } else if 97 <= code <= 122 {
        (code - 97 + 10) as u32
    } else if 65 <= code <= 90 {
        (code - 65 + 10) as u32
    } else {
        36
    };
    if v < radix {
        Some(v)
    } else {
        None
    }
}

/// Whether `c` is a digit in `radix`.
pub open spec fn is_digit(c: char, radix: u32) -> bool {
    digit_value(c, radix) is Some
}

/// Whether `c` has the Unicode `White_Space` property (`char::is_whitespace`):
/// U+0009 to U+000D, U+0020, U+0085, U+00A0, U+1680, U+2000 to U+200A, U+2028,
/// U+2029, U+202F, U+205F and U+3000.
pub open spec fn whitespace(c: char) -> bool {
    let code = c as u32;
    ||| 0x9 <= code <= 0xD
    ||| code == 0x20
    ||| code == 0x85
    ||| code == 0xA0
    ||| code == 0x1680
    ||| 0x2000 <= code <= 0x200A
    ||| code == 0x2028
    ||| code == 0x2029
    ||| code == 0x202F
    ||| code == 0x205F
    ||| code == 0x3000
}

/// Whether `c` is an ASCII letter, `a` to `z` or `A` to `Z`.
pub open spec fn ascii_letter(c: char) -> bool {
    ('a' <= c && c <= 'z') || ('A' <= c && c <= 'Z')
}

/// Whether `c` is an ASCII digit, `0` to `9`.
pub open spec fn ascii_digit(c: char) -> bool {
    '0' <= c && c <= '9'
}

/// Whether `c` is an ASCII character.
pub open spec fn is_ascii_char(c: char) -> bool {
    (c as u32) < 128
}

/// The ASCII lower-case mapping of a character: `A` to `Z` become `a` to `z`,
/// every other character stays.
pub open spec fn ascii_lower(c: char) -> char {
    if 'A' <= c && c <= 'Z' {
        ((c as u32) + 32) as char
    } else {
        c
    }
}

/// Whether `c` has the Unicode `Alphabetic` property (`char::is_alphabetic`).
pub uninterp spec fn alphabetic(c: char) -> bool;

/// Whether `c` has one of the Unicode numeric general categories (`char::is_numeric`).
pub uninterp spec fn numeric(c: char) -> bool;

/// Whether `c` is alphabetic (`char::is_alphabetic`), with the ASCII cases
/// written out: among the ASCII characters, exactly the letters.
pub open spec fn letter(c: char) -> bool {
    if is_ascii_char(c) {
        ascii_letter(c)
    } else {
        alphabetic(c)
    }
}

/// Whether `c` is alphabetic or numeric (`char::is_alphanumeric`), with the
/// ASCII cases written out: among the ASCII characters, exactly the letters
/// and the digits.
pub open spec fn alphanumeric(c: char) -> bool {
    if is_ascii_char(c) {
        ascii_letter(c) || ascii_digit(c)
    } else {
        alphabetic(c) || numeric(c)
    }
}

/// The Unicode lower-case mapping of a string (`str::to_lowercase`).
pub uninterp spec fn lowercase(s: Seq<char>) -> Seq<char>;

/// Calls `char::to_digit`. Its documentation gives the whole result: the ASCII
/// digits and letters, case-insensitively, valued below `radix`; it panics on a
/// radix above 36, which `requires` leaves out.
#[verifier::external_body]
pub fn to_digit(c: char, radix: u32) -> (r: Option<u32>)
    requires
        2 <= radix <= 36,
    ensures
        r == digit_value(c, radix),
{
    c.to_digit(radix)
}

/// Calls `char::is_whitespace`, whose result is the `White_Space` property
/// written out in `whitespace`.
#[verifier::external_body]
pub fn is_whitespace(c: char) -> (r: bool)
    ensures
        r == whitespace(c),
{
    c.is_whitespace()
}

/// Calls `char::is_alphabetic`; its result is named `alphabetic`. Among the
/// ASCII characters, exactly the letters are alphabetic.
#[verifier::external_body]
pub fn is_alphabetic(c: char) -> (r: bool)
    ensures
        r == alphabetic(c),
        is_ascii_char(c) ==> (r <==> ascii_letter(c)),
{
    c.is_alphabetic()
}

/// Calls `char::is_alphanumeric`, which its documentation defines as
/// `is_alphabetic() || is_numeric()`; the numeric property is named `numeric`.
/// Among the ASCII characters, exactly the letters and the digits are
/// alphanumeric.
#[verifier::external_body]
pub fn is_alphanumeric(c: char) -> (r: bool)
    ensures
        r == (alphabetic(c) || numeric(c)),
        is_ascii_char(c) ==> (r <==> ascii_letter(c) || ascii_digit(c)),
{
    c.is_alphanumeric()
}

/// Calls `str::to_lowercase`; its result is named `lowercase`. On a string of
/// ASCII characters it maps each character by the ASCII lower-case mapping.
#[verifier::external_body]
pub fn to_lowercase(s: &str) -> (r: String)
    ensures
        r@ == lowercase(s@),
        (forall|i: int| 0 <= i < s@.len() ==> is_ascii_char(#[trigger] s@[i])) ==> r@ == s@.map_values(
            |c: char| ascii_lower(c),
        ),
{
    s.to_lowercase()
}

/// The characters of a string slice, in order, in a vector.
pub fn chars_of(s: &str) -> (r: Vec<char>)
    ensures
        r@ == s@,
{
    broadcast use vstd::string::axiom_spec_iter;

    let mut v: Vec<char> = Vec::new();
    for c in it: s.chars()
        invariant
            v@ == it.seq().take(it.index() as int),
    {
        v.push(c);
    }
    v
}

/// Builds a `String` from characters (`Iterator::collect` into `String`): the
/// string holds exactly those characters, in order.
#[verifier::external_body]
pub fn string_of(chars: &Vec<char>) -> (r: String)
    ensures
        r@ == chars@,
{
    chars.iter().collect()
}

/// The number of whitespace characters at the front of `s`.
pub open spec fn whitespace_run(s: Seq<char>) -> nat
    decreases s.len(),
{
    if s.len() > 0 && whitespace(s[0]) {
        1 + whitespace_run(s.drop_first())
    } else {
        0
    }
}

/// The leading whitespace is the first `whitespace_run` characters, and the
/// character after it, if any, is no whitespace.
pub proof fn lemma_whitespace_run(s: Seq<char>)
    ensures
        whitespace_run(s) <= s.len(),
        forall|i: int| 0 <= i < whitespace_run(s) ==> whitespace(#[trigger] s[i]),
        whitespace_run(s) < s.len() ==> !whitespace(s[whitespace_run(s) as int]),
    decreases s.len(),
{
    if s.len() > 0 && whitespace(s[0]) {
        lemma_whitespace_run(s.drop_first());
        assert forall|i: int| 0 <= i < whitespace_run(s) implies whitespace(#[trigger] s[i]) by {
            if i > 0 {
                assert(s[i] == s.drop_first()[i - 1]);
            }
        }
    }
}

/// Whether two character sequences are equal.
pub fn chars_equal(a: &Vec<char>, b: &Vec<char>) -> (r: bool)
    ensures
        r == (a@ == b@),
{
    if a.len() != b.len() {
        return false;
    }
    let mut i: usize = 0;
    while i < a.len()
        invariant
            a.len() == b.len(),
            0 <= i <= a.len(),
            forall|j: int| 0 <= j < i ==> a@[j] == b@[j],
        decreases a.len() - i,
    {
        if a[i] != b[i] {
            return false;
        }
        i = i + 1;
    }
    assert(a@ =~= b@);
    true
}

} // verus!
