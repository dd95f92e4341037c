//! The token scanner: reads the tokens of a source given line by line, and
//! tells for each where it stands.

use vstd::prelude::*;
use crate::chars::{is_digit, lemma_whitespace_run, whitespace, whitespace_run};
use crate::stream::CharStream;
use super::token::{bracket_of, operator_of, read_token, FileLocation, ParseTokenErr, Token, TokenData};
use super::try_parse_from_iter::{digit_run, lemma_digit_run, TryParseFromPeek};

verus! {

/// Scanning one token from the front of the rest `r` of a line: the token read
/// after the leading whitespace, the number of characters up to the token's end
/// (the whitespace included), and the number of characters consumed in all.
/// After the token, whitespace is consumed too; after a failed read, one more
/// character (the offending one) when there is one.
pub open spec fn scan_line(r: Seq<char>) -> (Result<TokenData, ParseTokenErr>, nat, nat) {
    let w = whitespace_run(r);
    let (res, c) = read_token(r.skip(w as int));
    let after = r.skip((w + c) as int);
    let w2 = whitespace_run(after);
    let e: nat = if res is Err && w2 < after.len() {
        1
    } else {
        0
    };
    (res, w + c, w + c + w2 + e)
}

/// A token read successfully consumes at least one character.
pub proof fn lemma_read_token_consumes(input: Seq<char>)
    requires
        read_token(input).0 is Ok,
    ensures
        read_token(input).1 >= 1,
{
    lemma_digit_run(input, 10);
    if input.len() > 0 && input[0] != '-' {
        lemma_digit_run(input.drop_first(), 10);
    }
}

/// Scanning a line that is not used up consumes at least one character.
pub proof fn lemma_scan_line_consumes(r: Seq<char>)
    requires
        r.len() > 0,
    ensures
        scan_line(r).2 >= 1,
{
    lemma_whitespace_run(r);
    let w = whitespace_run(r);
    let (res, c) = read_token(r.skip(w as int));
    if res is Ok {
        lemma_read_token_consumes(r.skip(w as int));
    }
    let after = r.skip((w + c) as int);
    lemma_whitespace_run(after);
    if w == 0 && c == 0 {
        assert(after =~= r);
    }
}

/// A character that starts no token, at the front of a line: scanning reports
/// it, and consumes that one character and nothing more, so what follows it on
/// the line is scanned next.
pub proof fn lemma_bad_character_then_rest(c: char, t: Seq<char>)
    requires
        !whitespace(c),
        !is_digit(c, 10),
        operator_of(c) is None,
        bracket_of(c) is None,
    ensures
        scan_line(seq![c] + t) == (Err::<TokenData, ParseTokenErr>(ParseTokenErr::UnexpectedCharacter(c)), 0nat, 1nat),
        (seq![c] + t).skip(1) == t,
{
    let r = seq![c] + t;
    assert(r[0] == c);
    assert(r.skip(0) =~= r);
    assert(digit_run(r, 10) == 0);
    assert(whitespace_run(r) == 0);
    assert(r.skip(1) =~= t);
}

/// After a failed read the scanner consumes at most one character beyond the
/// leading whitespace, what the read consumed and the whitespace after it:
/// the offending character, when there is one. After a successful read it
/// consumes the token and the whitespace after it, nothing more.
pub proof fn lemma_scan_line_consumes_at_most(r: Seq<char>)
    ensures
        ({
            let (res, used, total) = scan_line(r);
            let w2 = whitespace_run(r.skip(used as int));
            &&& res is Err ==> total <= used + w2 + 1
            &&& res is Ok ==> total == used + w2
        }),
{
}

/// Reads tokens from a sequence of lines.
pub struct TokenScanner {
    lines: Vec<String>,
    next_line: usize,
    line_counter: usize,
    column_counter: usize,
    current_line: Option<CharStream>,
}

impl TokenScanner {
    /// The scanner's invariant: the lines begun are lines of the source, and no
    /// line is too long to count its columns.
    pub closed spec fn wf(&self) -> bool {
        &&& self.next_line <= self.lines.len()
        &&& forall|i: int| 0 <= i < self.lines.len() ==> (#[trigger] self.lines@[i])@.len()
            < usize::MAX
    }

    /// The lines not yet begun.
    pub closed spec fn pending(&self) -> Seq<Seq<char>> {
        self.lines@.skip(self.next_line as int).map_values(|l: String| l@)
    }

    /// The number of the current line, counted from one (zero before the first).
    pub closed spec fn line_number(&self) -> nat {
        self.line_counter as nat
    }

    /// What is left of the current line, if there is one.
    pub closed spec fn current_rest(&self) -> Option<Seq<char>> {
        match self.current_line {
            Some(l) => Some(l.rest()),
            None => None,
        }
    }

    /// How many characters of the current line have been consumed.
    pub closed spec fn current_consumed(&self) -> nat {
        match self.current_line {
            Some(l) => l.consumed(),
            None => 0,
        }
    }

    /// Whether the next token is read from a new line: there is no current line,
    /// or nothing is left of it.
    pub open spec fn needs_line(&self) -> bool {
        self.current_rest() is None || self.current_rest()->0.len() == 0
    }

    /// The line the next token is read from, and how much of it was consumed
    /// before.
    pub open spec fn next_source(&self) -> (Seq<char>, nat) {
        if self.needs_line() {
            (self.pending()[0], 0)
        } else {
            (self.current_rest()->0, self.current_consumed())
        }
    }

    /// How much is left to scan: the lines not begun, and the rest of the
    /// current line.
    pub open spec fn left(&self) -> (nat, nat) {
        (
            self.pending().len(),
            match self.current_rest() {
                Some(r) => r.len(),
                None => 0,
            },
        )
    }

    /// A scanner over `lines`, before the first line.
    pub fn new(t: Vec<String>) -> (r: Self)
        requires
            forall|i: int| 0 <= i < t.len() ==> (#[trigger] t@[i])@.len() < usize::MAX,
        ensures
            r.wf(),
            r.pending() == t@.map_values(|l: String| l@),
            r.line_number() == 0,
            r.current_rest() is None,
    {
        let r = TokenScanner {
            lines: t,
            current_line: None,
            line_counter: 0,
            column_counter: 0,
            next_line: 0,
        };
        assert(r.lines@.skip(0) =~= r.lines@);
        r
    }

    /// Moves on to the next line: counts it and makes it the current one
    /// (none when the lines are used up). Returns whether there is one.
    fn get_next_line(&mut self) -> (r: bool)
        requires
            old(self).wf(),
            old(self).line_number() < usize::MAX,
        ensures
            final(self).wf(),
            final(self).line_number() == old(self).line_number() + 1,
            r == (old(self).pending().len() > 0),
            r ==> final(self).pending() == old(self).pending().drop_first()
                && final(self).current_rest() == Some(old(self).pending()[0])
                && final(self).current_consumed() == 0,
            !r ==> final(self).pending() == old(self).pending() && final(self).current_rest() is None,
    {
        self.line_counter = self.line_counter + 1;
        self.column_counter = 0;
        if self.next_line < self.lines.len() {
            let line = CharStream::new(self.lines[self.next_line].as_str());
            self.current_line = Some(line);
            self.next_line = self.next_line + 1;
            assert(self.pending() =~= old(self).pending().drop_first());
            true
        } else {
            self.current_line = None;
            false
        }
    }

    /// Reads the next token, with its location (line; column of where the
    /// scan started, counted from one; length up to the token's end). `None`
    /// once the lines are used up.
    #[verifier::rlimit(40)]
    pub fn next(&mut self) -> (r: Option<Result<Token, ParseTokenErr>>)
        requires
            old(self).wf(),
            old(self).line_number() < usize::MAX,
        ensures
            final(self).wf(),
            r is Some ==> final(self).left().0 < old(self).left().0 || (final(self).left().0
                == old(self).left().0 && final(self).left().1 < old(self).left().1),
            ({
                let fetch = old(self).needs_line();
                let (line, p) = old(self).next_source();
                let (res, used, total) = scan_line(line);
                &&& fetch ==> final(self).line_number() == old(self).line_number() + 1
                &&& !fetch ==> final(self).line_number() == old(self).line_number()
                    && final(self).pending() == old(self).pending()
                &&& fetch && old(self).pending().len() == 0 ==> r is None && final(self).pending() == old(self).pending() && final(self).current_rest() is None
                &&& !(fetch && old(self).pending().len() == 0) ==> {
                    &&& fetch ==> final(self).pending() == old(self).pending().drop_first()
                    &&& r is Some
                    &&& total <= line.len()
                    &&& final(self).current_rest() == Some(line.skip(total as int))
                    &&& final(self).current_consumed() == p + total
                    &&& match r->0 {
                        Ok(t) => {
                            &&& res == Ok::<TokenData, ParseTokenErr>(t.token_data)
                            &&& t.locaiton.at_line() == final(self).line_number()
                            &&& t.locaiton.at_column() == p + 1
                            &&& t.locaiton.extent() == used
                        },
                        Err(e) => res == Err::<TokenData, ParseTokenErr>(e),
                    }
                }
            }),
    {
        let need = match &self.current_line {
            Some(cl) => cl.peek().is_none(),
            None => true,
        };
        if need {
            if !self.get_next_line() {
                return None;
            }
        }
        let mut line_chars = match self.current_line.take() {
            Some(l) => l,
            None => {
                assert(false);
                return None;
            },
        };
        let ghost r0 = line_chars.rest();
        let current_position = line_chars.index();
        line_chars.skip_whitespace();
        let ghost r1 = line_chars.rest();
        let token_res = <TokenData as TryParseFromPeek<char>>::try_parse_from_peek(
            &mut line_chars,
            (),
        );
        let end_position = line_chars.index();
        let ghost r2 = line_chars.rest();
        line_chars.skip_whitespace();
        let ghost r3 = line_chars.rest();
        let token = match token_res {
            Ok(data) => Ok(
                Token::new(
                    FileLocation::new(
                        self.line_counter,
                        current_position + 1,
                        end_position - current_position,
                    ),
                    data,
                ),
            ),
            Err(e) => {
                line_chars.advance();
                Err(e)
            },
        };
        proof {
            let w = whitespace_run(r0);
            lemma_whitespace_run(r0);
            lemma_whitespace_run(r2);
            let (res, c) = read_token(r0.skip(w as int));
            assert(r1 == r0.skip(w as int));
            assert(r2 =~= r0.skip((w + c) as int));
            let w2 = whitespace_run(r2);
            assert(r3 =~= r0.skip((w + c + w2) as int));
            let (_, used, total) = scan_line(r0);
            assert(line_chars.rest() =~= r0.skip(total as int));
            if r0.len() > 0 {
                lemma_scan_line_consumes(r0);
            }
        }
        self.current_line = Some(line_chars);
        Some(token)
    }
}

} // verus!
