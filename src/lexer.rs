use vstd::prelude::*;
use vstd::string::StrSliceExecFns;
use vstd::std_specs::iter::IteratorSpec;
use crate::error::CompileError;
use crate::token::{Token, TokenView};

verus! {

broadcast use vstd::string::group_string_axioms;

pub open spec fn is_space(c: char) -> bool {
    c == ' ' || c == '\t' || c == '\n' || c == '\r'
}

/// ASCII letters and the underscore make up identifiers and keywords.
pub open spec fn is_letter(c: char) -> bool {
    ('a' <= c && c <= 'z') || ('A' <= c && c <= 'Z') || c == '_'
}

pub open spec fn is_digit(c: char) -> bool {
    '0' <= c && c <= '9'
}

/// The first position at or after `i` that holds no whitespace.
pub open spec fn skip_spaces(s: Seq<char>, i: nat) -> nat
    decreases s.len() - i,
{
    if i < s.len() && is_space(s[i as int]) {
        skip_spaces(s, i + 1)
    } else {
        i
    }
}

/// The end of the maximal run of letters that starts at `i`.
pub open spec fn letters_end(s: Seq<char>, i: nat) -> nat
    decreases s.len() - i,
{
    if i < s.len() && is_letter(s[i as int]) {
        letters_end(s, i + 1)
    } else {
        i
    }
}

/// The end of the maximal run of decimal digits that starts at `i`.
pub open spec fn digits_end(s: Seq<char>, i: nat) -> nat
    decreases s.len() - i,
{
    if i < s.len() && is_digit(s[i as int]) {
        digits_end(s, i + 1)
    } else {
        i
    }
}

pub open spec fn digit_of(c: char) -> int {
    (c as u32) as int - ('0' as u32) as int
}

/// The number that a run of decimal digits denotes.
pub open spec fn digits_value(d: Seq<char>) -> int
    decreases d.len(),
{
    if d.len() == 0 {
        0
    } else {
        digits_value(d.drop_last()) * 10 + digit_of(d.last())
    }
}

/// The token that starts after the whitespace at `pos`, with the position just past it.
/// At the end of input the position stays put, so every later scan gives `Eof` again.
pub open spec fn scan(s: Seq<char>, pos: nat) -> Result<(TokenView, nat), CompileError> {
    let i = skip_spaces(s, pos);
    let c = s[i as int];
    if i >= s.len() {
        Ok((TokenView::Eof, i))
    } else if c == '+' {
        Ok((TokenView::Plus, i + 1))
    } else if c == '-' {
        Ok((TokenView::Minus, i + 1))
    } else if c == '*' {
        Ok((TokenView::Asterisk, i + 1))
    } else if c == '/' {
        Ok((TokenView::Slash, i + 1))
    } else if c == ';' {
        Ok((TokenView::Semicolon, i + 1))
    } else if c == '(' {
        Ok((TokenView::Lparen, i + 1))
    } else if c == ')' {
        Ok((TokenView::Rparen, i + 1))
    } else if c == '{' {
        Ok((TokenView::Lbracket, i + 1))
    } else if c == '}' {
        Ok((TokenView::Rbracket, i + 1))
    } else if c == ',' {
        Ok((TokenView::Comma, i + 1))
    } else if is_letter(c) {
        let j = letters_end(s, i);
        let w = s.subrange(i as int, j as int);
        if w == seq!['f', 'n'] {
            Ok((TokenView::Fn, j))
        } else {
            Ok((TokenView::Ident(w), j))
        }
    } else if is_digit(c) {
        let j = digits_end(s, i);
        let v = digits_value(s.subrange(i as int, j as int));
        if v <= i64::MAX {
            Ok((TokenView::Int(v as i64), j))
        } else {
            Err(CompileError::LexFailure)
        }
    } else {
        Err(CompileError::LexFailure)
    }
}

proof fn lemma_skip_spaces_bounds(s: Seq<char>, i: nat)
    requires
        i <= s.len(),
    ensures
        i <= skip_spaces(s, i) <= s.len(),
    decreases s.len() - i,
{
    if i < s.len() && is_space(s[i as int]) {
        lemma_skip_spaces_bounds(s, i + 1);
    }
}

proof fn lemma_run_ends(s: Seq<char>, i: nat)
    requires
        i <= s.len(),
    ensures
        i <= letters_end(s, i) <= s.len(),
        i <= digits_end(s, i) <= s.len(),
        i < s.len() && is_letter(s[i as int]) ==> i < letters_end(s, i),
        i < s.len() && is_digit(s[i as int]) ==> i < digits_end(s, i),
    decreases s.len() - i,
{
    if i < s.len() {
        lemma_run_ends(s, i + 1);
    }
}

/// A scan that succeeds stays within the text, and moves forward unless it found the end.
pub proof fn lemma_scan_advances(s: Seq<char>, pos: nat)
    ensures
        scan(s, pos) matches Ok((t, j)) ==> pos <= j && (t !is Eof ==> pos < j <= s.len()),
{
    if pos <= s.len() {
        lemma_skip_spaces_bounds(s, pos);
        lemma_run_ends(s, skip_spaces(s, pos));
    }
}

/// Once the end of input is reached, scanning again finds it again, in place.
pub proof fn lemma_end_is_stable(s: Seq<char>, pos: nat)
    ensures
        scan(s, pos) matches Ok((t, j)) ==> (t is Eof ==> scan(s, j) == Ok::<(TokenView, nat), CompileError>((TokenView::Eof, j))),
{
    if let Ok((t, j)) = scan(s, pos) {
        if t is Eof {
            assert(skip_spaces(s, j) == j);
        }
    }
}

/// All tokens from `pos` on, up to and including the first `Eof`, or the
/// failure that the scanning meets first.
pub open spec fn tokens_from(s: Seq<char>, pos: nat) -> Result<Seq<TokenView>, CompileError>
    decreases s.len() - pos,
    via tokens_from_decreases
{
    match scan(s, pos) {
        Err(e) => Err(e),
        Ok((t, j)) => if t is Eof {
            Ok(seq![t])
        } else {
            prepend_tokens(seq![t], tokens_from(s, j))
        },
    }
}

#[via_fn]
proof fn tokens_from_decreases(s: Seq<char>, pos: nat) {
    lemma_scan_advances(s, pos);
}

pub open spec fn prepend_tokens(front: Seq<TokenView>, r: Result<Seq<TokenView>, CompileError>) -> Result<Seq<TokenView>, CompileError> {
    match r {
        Ok(rest) => Ok(front + rest),
        Err(e) => Err(e),
    }
}

/// Turns source text into tokens, one at a time.
pub struct Lexer<'a> {
    input: &'a str,
    chars: Vec<char>,
    pos: usize,
}

impl<'a> Lexer<'a> {
    /// The text being scanned.
    pub closed spec fn text(&self) -> Seq<char> {
        self.chars@
    }

    /// How much of the text has been consumed.
    pub closed spec fn position(&self) -> nat {
        self.pos as nat
    }

    pub closed spec fn wf(&self) -> bool {
        &&& self.chars@ == self.input@
        &&& self.pos <= self.chars.len()
    }

    pub fn new(input: &'a str) -> (r: Lexer<'a>)
        ensures
            r.wf(),
            r.text() == input@,
            r.position() == 0,
            r.position() <= r.text().len(),
    {
        let mut chars: Vec<char> = Vec::new();
        let mut it = input.chars();
        loop
            invariant
                chars@ + it.remaining() == input@,
                it.decrease() is Some,
            ensures
                chars@ == input@,
            decreases it.decrease()->0,
        {
            match it.next() {
                Some(c) => chars.push(c),
                None => {
                    assert(chars@ =~= input@);
                    break;
                },
            }
        }
        Lexer { input, chars, pos: 0 }
    }

    fn read_char(&mut self)
        requires
            old(self).wf(),
            old(self).pos < old(self).chars.len(),
        ensures
            final(self).wf(),
            final(self).input == old(self).input,
            final(self).chars == old(self).chars,
            final(self).pos == old(self).pos + 1,
    {
        self.pos = self.pos + 1;
    }

    /// Scans the next token, or fails with `LexFailure` on a character that
    /// starts none or on an integer literal that `i64` cannot hold.
    pub fn next_token(&mut self) -> (r: Result<Token, CompileError>)
        requires
            old(self).wf(),
        ensures
            final(self).wf(),
            final(self).text() == old(self).text(),
            final(self).position() <= final(self).text().len(),
            match scan(old(self).text(), old(self).position()) {
                Ok((t, j)) => r matches Ok(tok) && tok@ == t && final(self).position() == j,
                Err(e) => r == Err::<Token, CompileError>(e),
            },
    {
        self.skip_whitespace();
        if self.pos >= self.chars.len() {
            return Ok(Token::Eof);
        }
        let c = self.chars[self.pos];
        let token = if c == '+' {
            Token::Plus
        } else if c == '-' {
            Token::Minus
        } else if c == '*' {
            Token::Asterisk
        } else if c == '/' {
            Token::Slash
        } else if c == ';' {
            Token::Semicolon
        } else if c == '(' {
            Token::Lparen
        } else if c == ')' {
            Token::Rparen
        } else if c == '{' {
            Token::Lbracket
        } else if c == '}' {
            Token::Rbracket
        } else if c == ',' {
            Token::Comma
        } else if is_letter_char(c) {
            return Ok(self.read_letter());
        } else if is_digit_char(c) {
            return self.read_number();
        } else {
            return Err(CompileError::LexFailure);
        };
        self.read_char();
        Ok(token)
    }

    fn skip_whitespace(&mut self)
        requires
            old(self).wf(),
        ensures
            final(self).wf(),
            final(self).input == old(self).input,
            final(self).chars == old(self).chars,
            final(self).pos == skip_spaces(old(self).text(), old(self).pos as nat),
    {
        while self.pos < self.chars.len() && is_space_char(self.chars[self.pos])
            invariant
                self.wf(),
                self.input == old(self).input,
                self.chars == old(self).chars,
                skip_spaces(self.text(), self.pos as nat) == skip_spaces(
                    old(self).text(),
                    old(self).pos as nat,
                ),
            decreases self.chars.len() - self.pos,
        {
            self.read_char();
        }
    }

    fn read_letter(&mut self) -> (r: Token)
        requires
            old(self).wf(),
            old(self).pos < old(self).chars.len(),
            is_letter(old(self).chars@[old(self).pos as int]),
        ensures
            final(self).wf(),
            final(self).text() == old(self).text(),
            scan(old(self).text(), old(self).position()) == Ok::<(TokenView, nat), CompileError>(
                (r@, final(self).position()),
            ),
    {
        let ghost s = self.text();
        let ghost p0 = self.pos as nat;
        proof {
            lemma_skip_spaces_bounds(s, p0);
        }
        let start = self.pos;
        while self.pos < self.chars.len() && is_letter_char(self.chars[self.pos])
            invariant
                self.wf(),
                self.input == old(self).input,
                self.chars == old(self).chars,
                s == self.chars@,
                start <= self.pos,
                letters_end(s, self.pos as nat) == letters_end(s, start as nat),
            decreases self.chars.len() - self.pos,
        {
            self.read_char();
        }
        let end = self.pos;
        assert(skip_spaces(s, p0) == p0);
        let is_fn = end - start == 2 && self.chars[start] == 'f' && self.chars[start + 1] == 'n';
        if is_fn {
            assert(s.subrange(start as int, end as int) =~= seq!['f', 'n']);
            Token::Fn
        } else {
            let ghost w = s.subrange(start as int, end as int);
            assert(w != seq!['f', 'n']) by {
                if w == seq!['f', 'n'] {
                    assert(w.len() == 2 && w[0] == 'f' && w[1] == 'n');
                }
            }
            let word = self.input.substring_char(start, end).to_owned();
            Token::Ident(word)
        }
    }

    fn read_number(&mut self) -> (r: Result<Token, CompileError>)
        requires
            old(self).wf(),
            old(self).pos < old(self).chars.len(),
            is_digit(old(self).chars@[old(self).pos as int]),
        ensures
            final(self).wf(),
            final(self).text() == old(self).text(),
            match scan(old(self).text(), old(self).position()) {
                Ok((t, j)) => r matches Ok(tok) && tok@ == t && final(self).position() == j,
                Err(e) => r == Err::<Token, CompileError>(e),
            },
    {
        let ghost s = self.text();
        let start = self.pos;
        let mut value: i64 = 0;
        let mut too_large = false;
        while self.pos < self.chars.len() && is_digit_char(self.chars[self.pos])
            invariant
                self.wf(),
                self.input == old(self).input,
                self.chars == old(self).chars,
                s == self.chars@,
                start <= self.pos,
                digits_end(s, self.pos as nat) == digits_end(s, start as nat),
                0 <= value,
                !too_large ==> value == digits_value(s.subrange(start as int, self.pos as int)),
                too_large ==> digits_value(s.subrange(start as int, self.pos as int)) > i64::MAX,
            decreases self.chars.len() - self.pos,
        {
            let c = self.chars[self.pos];
            let d = (c as u32 - '0' as u32) as i64;
            let ghost before = digits_value(s.subrange(start as int, self.pos as int));
            assert(s.subrange(start as int, self.pos + 1).drop_last() =~= s.subrange(
                start as int,
                self.pos as int,
            ));
            assert(digits_value(s.subrange(start as int, self.pos + 1)) == before * 10 + d);
            if too_large {
                assert(before * 10 + d > i64::MAX) by (nonlinear_arith)
                    requires
                        before > i64::MAX,
                        0 <= d,
                ;
            } else if value > (i64::MAX - d) / 10 {
                assert(value * 10 + d > i64::MAX) by (nonlinear_arith)
                    requires
                        value > (i64::MAX - d) / 10,
                        0 <= d <= 9,
                ;
                too_large = true;
            } else {
                assert(value * 10 + d <= i64::MAX) by (nonlinear_arith)
                    requires
                        value <= (i64::MAX - d) / 10,
                        0 <= d <= 9,
                        0 <= value,
                ;
                value = value * 10 + d;
            }
            self.read_char();
        }
        if too_large {
            Err(CompileError::LexFailure)
        } else {
            Ok(Token::Int(value))
        }
    }
}

fn is_space_char(c: char) -> (r: bool)
    ensures
        r == is_space(c),
{
    c == ' ' || c == '\t' || c == '\n' || c == '\r'
}

fn is_letter_char(c: char) -> (r: bool)
    ensures
        r == is_letter(c),
{
    ('a' <= c && c <= 'z') || ('A' <= c && c <= 'Z') || c == '_'
}

fn is_digit_char(c: char) -> (r: bool)
    ensures
        r == is_digit(c),
{
    '0' <= c && c <= '9'
}

} // verus!
