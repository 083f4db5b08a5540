//! The scanning engine: a one-shot, single-pass conversion of source text
//! into a token sequence and an ordered error collection.
//!
//! The meaning of a scan is given by [`spec_scan`], a recursive function
//! over the source characters; [`Scanner::scan_tokens`] is proved to return
//! exactly that result. The scan is total: every input, including the empty
//! one, yields a token sequence ending in `Eof` plus every error found.

use vstd::prelude::*;

use crate::tokenizer::push_char;
use crate::tokenizer::spec_from_char;
use crate::tokenizer::spec_keyword;
use crate::tokenizer::spec_with_equals;
use crate::tokenizer::Token;
use crate::tokenizer::TokenType;
use crate::tokenizer::TokenTypeView;
use crate::tokenizer::TokenView;
use crate::tokenizer::TokenizerError;

verus! {

/// The whitespace characters the scanner skips: space, carriage return,
/// tab, and newline. Only the newline advances the line counter.
pub open spec fn spec_whitespace(c: char) -> bool {
    c == ' ' || c == '\r' || c == '\t' || c == '\n'
}

/// An alphabetic character. Identifiers are pure alphabetic runs; the
/// classification is deliberately basic (the letters `a`-`z` and `A`-`Z`),
/// with no digits or underscores inside identifiers.
pub open spec fn spec_alpha(c: char) -> bool {
    ('a' as u32 <= c as u32 && c as u32 <= 'z' as u32) || ('A' as u32 <= c as u32 && c as u32
        <= 'Z' as u32)
}

/// A decimal digit.
pub open spec fn spec_digit(c: char) -> bool {
    '0' as u32 <= c as u32 && c as u32 <= '9' as u32
}

/// The numeric value of a decimal digit character.
pub open spec fn spec_digit_val(c: char) -> nat
    recommends
        spec_digit(c),
{
    (c as u32 - '0' as u32) as nat
}

fn is_alpha(c: char) -> (r: bool)
    ensures
        r == spec_alpha(c),
{
    let u = c as u32;
    ('a' as u32 <= u && u <= 'z' as u32) || ('A' as u32 <= u && u <= 'Z' as u32)
}

fn is_digit(c: char) -> (r: bool)
    ensures
        r == spec_digit(c),
{
    let u = c as u32;
    '0' as u32 <= u && u <= '9' as u32
}

/// Where the alphabetic run starting at `j` ends: the first index at or
/// after `j` holding a non-alphabetic character, or the end of the input.
pub open spec fn ident_end(cs: Seq<char>, j: int) -> int
    decreases cs.len() - j,
{
    if 0 <= j && j < cs.len() && spec_alpha(cs[j]) {
        ident_end(cs, j + 1)
    } else {
        j
    }
}

/// Where the digit run starting at `j` ends.
pub open spec fn digits_end(cs: Seq<char>, j: int) -> int
    decreases cs.len() - j,
{
    if 0 <= j && j < cs.len() && spec_digit(cs[j]) {
        digits_end(cs, j + 1)
    } else {
        j
    }
}

/// The first index at or after `j` holding a double quote, or the end of
/// the input if no closing quote follows.
pub open spec fn quote_end(cs: Seq<char>, j: int) -> int
    decreases cs.len() - j,
{
    if 0 <= j && j < cs.len() && cs[j] != '"' {
        quote_end(cs, j + 1)
    } else {
        j
    }
}

/// The first index at or after `j` holding a newline, or the end of the
/// input: where a line comment stops discarding characters.
pub open spec fn line_end(cs: Seq<char>, j: int) -> int
    decreases cs.len() - j,
{
    if 0 <= j && j < cs.len() && cs[j] != '\n' {
        line_end(cs, j + 1)
    } else {
        j
    }
}

pub proof fn lemma_ident_end(cs: Seq<char>, j: int)
    requires
        0 <= j <= cs.len(),
    ensures
        j <= ident_end(cs, j) <= cs.len(),
        forall|k: int| j <= k < ident_end(cs, j) ==> spec_alpha(cs[k]),
        ident_end(cs, j) < cs.len() ==> !spec_alpha(cs[ident_end(cs, j)]),
    decreases cs.len() - j,
{
    if j < cs.len() && spec_alpha(cs[j]) {
        lemma_ident_end(cs, j + 1);
    }
}

pub proof fn lemma_ident_end_is(cs: Seq<char>, j: int, e: int)
    requires
        0 <= j <= e <= cs.len(),
        forall|k: int| j <= k < e ==> spec_alpha(cs[k]),
        e < cs.len() ==> !spec_alpha(cs[e]),
    ensures
        ident_end(cs, j) == e,
    decreases e - j,
{
    if j < e {
        lemma_ident_end_is(cs, j + 1, e);
    }
}

pub proof fn lemma_digits_end(cs: Seq<char>, j: int)
    requires
        0 <= j <= cs.len(),
    ensures
        j <= digits_end(cs, j) <= cs.len(),
        forall|k: int| j <= k < digits_end(cs, j) ==> spec_digit(cs[k]),
        digits_end(cs, j) < cs.len() ==> !spec_digit(cs[digits_end(cs, j)]),
    decreases cs.len() - j,
{
    if j < cs.len() && spec_digit(cs[j]) {
        lemma_digits_end(cs, j + 1);
    }
}

pub proof fn lemma_digits_end_is(cs: Seq<char>, j: int, e: int)
    requires
        0 <= j <= e <= cs.len(),
        forall|k: int| j <= k < e ==> spec_digit(cs[k]),
        e < cs.len() ==> !spec_digit(cs[e]),
    ensures
        digits_end(cs, j) == e,
    decreases e - j,
{
    if j < e {
        lemma_digits_end_is(cs, j + 1, e);
    }
}

pub proof fn lemma_quote_end(cs: Seq<char>, j: int)
    requires
        0 <= j <= cs.len(),
    ensures
        j <= quote_end(cs, j) <= cs.len(),
        forall|k: int| j <= k < quote_end(cs, j) ==> cs[k] != '"',
        quote_end(cs, j) < cs.len() ==> cs[quote_end(cs, j)] == '"',
    decreases cs.len() - j,
{
    if j < cs.len() && cs[j] != '"' {
        lemma_quote_end(cs, j + 1);
    }
}

pub proof fn lemma_quote_end_is(cs: Seq<char>, j: int, e: int)
    requires
        0 <= j <= e <= cs.len(),
        forall|k: int| j <= k < e ==> cs[k] != '"',
        e < cs.len() ==> cs[e] == '"',
    ensures
        quote_end(cs, j) == e,
    decreases e - j,
{
    if j < e {
        lemma_quote_end_is(cs, j + 1, e);
    }
}

pub proof fn lemma_line_end(cs: Seq<char>, j: int)
    requires
        0 <= j <= cs.len(),
    ensures
        j <= line_end(cs, j) <= cs.len(),
        forall|k: int| j <= k < line_end(cs, j) ==> cs[k] != '\n',
        line_end(cs, j) < cs.len() ==> cs[line_end(cs, j)] == '\n',
    decreases cs.len() - j,
{
    if j < cs.len() && cs[j] != '\n' {
        lemma_line_end(cs, j + 1);
    }
}

pub proof fn lemma_line_end_is(cs: Seq<char>, j: int, e: int)
    requires
        0 <= j <= e <= cs.len(),
        forall|k: int| j <= k < e ==> cs[k] != '\n',
        e < cs.len() ==> cs[e] == '\n',
    ensures
        line_end(cs, j) == e,
    decreases e - j,
{
    if j < e {
        lemma_line_end_is(cs, j + 1, e);
    }
}

/// The value of the digit run `cs[i..j)` read as a decimal number, most
/// significant digit first.
pub open spec fn spec_digits_val(cs: Seq<char>, i: int, j: int) -> nat
    decreases j - i,
{
    if i < j {
        spec_digits_val(cs, i, j - 1) * 10 + spec_digit_val(cs[j - 1])
    } else {
        0
    }
}

/// Clamps an unbounded value into `u32`: a digit run too long for the type
/// saturates at the largest representable value rather than wrapping.
pub open spec fn spec_sat_u32(n: nat) -> u32 {
    if n <= u32::MAX {
        n as u32
    } else {
        u32::MAX
    }
}

/// The line counter after a newline: it advances by one and saturates at
/// the largest representable line number rather than wrapping.
pub open spec fn spec_next_line(line: u32) -> u32 {
    if line < u32::MAX {
        (line + 1) as u32
    } else {
        line
    }
}

/// What a scan produces: the token sequence, always ending in `Eof`, and
/// every lexical error, each in source order.
pub struct ScanOut {
    pub tokens: Seq<TokenView>,
    pub errors: Seq<TokenizerError>,
}

/// Prepends one token to a scan result.
pub open spec fn with_token(t: TokenView, rest: ScanOut) -> ScanOut {
    ScanOut { tokens: seq![t] + rest.tokens, errors: rest.errors }
}

/// Prepends one error to a scan result.
pub open spec fn with_error(e: TokenizerError, rest: ScanOut) -> ScanOut {
    ScanOut { tokens: rest.tokens, errors: seq![e] + rest.errors }
}

/// The result of scanning `cs` from position `pos` onward, with the line
/// counter at `line`. One step handles one whole lexeme:
///
/// - whitespace is skipped, a newline advancing the line counter;
/// - an alphabetic character starts an identifier run, reclassified as a
///   keyword on an exact match;
/// - a digit starts a number; a `.` directly after the integer digits is
///   consumed together with the following (possibly empty) fraction digits;
/// - a `"` starts a string literal, its text the characters up to the next
///   `"`; if the input ends first the scan records an unterminated-string
///   error and ends, emitting no token for the attempt;
/// - `//` discards the rest of the physical line, excluding the newline;
/// - otherwise the character classifies as punctuation or an operator, a
///   base operator followed by `=` yielding its extended form — or it
///   classifies as nothing and is recorded as an unexpected character;
/// - at the end of the input a single `Eof` token is appended, tagged with
///   the current line.
pub open spec fn spec_scan_from(cs: Seq<char>, pos: int, line: u32) -> ScanOut
    decreases cs.len() - pos,
    via spec_scan_from_decreases
{
    if !(0 <= pos < cs.len()) {
        ScanOut {
            tokens: seq![TokenView { token_type: TokenTypeView::Eof, line }],
            errors: Seq::empty(),
        }
    } else {
        let c = cs[pos];
        if c == '\n' {
            spec_scan_from(cs, pos + 1, spec_next_line(line))
        } else if c == ' ' || c == '\r' || c == '\t' {
            spec_scan_from(cs, pos + 1, line)
        } else if spec_alpha(c) {
            let end = ident_end(cs, pos);
            let text = cs.subrange(pos, end);
            let token_type = match spec_keyword(text) {
                Option::Some(k) => k,
                Option::None => TokenTypeView::Identifier(text),
            };
            with_token(TokenView { token_type, line }, spec_scan_from(cs, end, line))
        } else if spec_digit(c) {
            let iend = digits_end(cs, pos);
            let num = spec_sat_u32(spec_digits_val(cs, pos, iend));
            if iend < cs.len() && cs[iend] == '.' {
                let fend = digits_end(cs, iend + 1);
                let dec = spec_sat_u32(spec_digits_val(cs, iend + 1, fend));
                with_token(
                    TokenView { token_type: TokenTypeView::Number(num, dec), line },
                    spec_scan_from(cs, fend, line),
                )
            } else {
                with_token(
                    TokenView { token_type: TokenTypeView::Number(num, 0), line },
                    spec_scan_from(cs, iend, line),
                )
            }
        } else if c == '"' {
            let close = quote_end(cs, pos + 1);
            if close < cs.len() {
                with_token(
                    TokenView {
                        token_type: TokenTypeView::String(cs.subrange(pos + 1, close)),
                        line,
                    },
                    spec_scan_from(cs, close + 1, line),
                )
            } else {
                ScanOut {
                    tokens: seq![TokenView { token_type: TokenTypeView::Eof, line }],
                    errors: seq![TokenizerError::UnterminatedString(line)],
                }
            }
        } else {
            match spec_from_char(c) {
                Option::None => with_error(
                    TokenizerError::UnexpectedCharacter(c, line),
                    spec_scan_from(cs, pos + 1, line),
                ),
                Option::Some(t) => {
                    if t == TokenTypeView::Slash && pos + 1 < cs.len() && cs[pos + 1] == '/' {
                        spec_scan_from(cs, line_end(cs, pos + 2), line)
                    } else if pos + 1 < cs.len() && cs[pos + 1] == '=' {
                        match spec_with_equals(t) {
                            Option::Some(t2) => with_token(
                                TokenView { token_type: t2, line },
                                spec_scan_from(cs, pos + 2, line),
                            ),
                            Option::None => with_token(
                                TokenView { token_type: t, line },
                                spec_scan_from(cs, pos + 1, line),
                            ),
                        }
                    } else {
                        with_token(
                            TokenView { token_type: t, line },
                            spec_scan_from(cs, pos + 1, line),
                        )
                    }
                },
            }
        }
    }
}

#[via_fn]
proof fn spec_scan_from_decreases(cs: Seq<char>, pos: int, line: u32) {
    if 0 <= pos < cs.len() {
        let c = cs[pos];
        if spec_alpha(c) {
            lemma_ident_end(cs, pos);
        } else if spec_digit(c) {
            lemma_digits_end(cs, pos);
            let iend = digits_end(cs, pos);
            if iend < cs.len() && cs[iend] == '.' {
                lemma_digits_end(cs, iend + 1);
            }
        } else if c == '"' {
            lemma_quote_end(cs, pos + 1);
        } else if pos + 2 <= cs.len() {
            lemma_line_end(cs, pos + 2);
        }
    }
}

/// The result of scanning a complete source text: the token sequence,
/// terminated by `Eof` on the final line, and every lexical error.
pub open spec fn spec_scan(cs: Seq<char>) -> ScanOut {
    spec_scan_from(cs, 0, 1)
}

/// The views of a sequence of tokens.
pub open spec fn tokens_view(ts: Seq<Token>) -> Seq<TokenView> {
    ts.map_values(|t: Token| t@)
}

/// Collects the characters of a string slice, in order.
#[verifier::loop_isolation(false)]
fn chars_vec(s: &str) -> (v: Vec<char>)
    ensures
        v@ == s@,
{
    let n = s.unicode_len();
    let mut v: Vec<char> = Vec::new();
    let mut k: usize = 0;
    while k < n
        invariant
            k <= n,
            n == s@.len(),
            v@ == s@.take(k as int),
        decreases n - k,
    {
        v.push(s.get_char(k));
        k = k + 1;
        proof {
            assert(v@ =~= s@.take(k as int));
        }
    }
    proof {
        assert(s@.take(n as int) =~= s@);
    }
    v
}

/// Copies the characters `cs[from..to)` into an owned string.
#[verifier::loop_isolation(false)]
fn text_range(cs: &Vec<char>, from: usize, to: usize) -> (s: String)
    requires
        from <= to <= cs@.len(),
    ensures
        s@ == cs@.subrange(from as int, to as int),
{
    let mut s = String::new();
    let mut k = from;
    proof {
        assert(s@ =~= cs@.subrange(from as int, from as int));
    }
    while k < to
        invariant
            from <= k <= to,
            to <= cs@.len(),
            s@ == cs@.subrange(from as int, k as int),
        decreases to - k,
    {
        push_char(&mut s, cs[k]);
        k = k + 1;
        proof {
            assert(s@ =~= cs@.subrange(from as int, k as int));
        }
    }
    s
}

/// Reads the digit run `cs[from..to)` as a decimal number, saturating at
/// the largest `u32` value instead of overflowing.
#[verifier::loop_isolation(false)]
fn parse_digits(cs: &Vec<char>, from: usize, to: usize) -> (r: u32)
    requires
        from <= to <= cs@.len(),
        forall|k: int| from <= k < to ==> spec_digit(cs@[k]),
    ensures
        r == spec_sat_u32(spec_digits_val(cs@, from as int, to as int)),
{
    let mut acc: u32 = 0;
    let mut k = from;
    while k < to
        invariant
            from <= k <= to,
            to <= cs@.len(),
            forall|m: int| from <= m < to ==> spec_digit(cs@[m]),
            acc == spec_sat_u32(spec_digits_val(cs@, from as int, k as int)),
        decreases to - k,
    {
        let ghost v_old = spec_digits_val(cs@, from as int, k as int);
        let ghost v_new = spec_digits_val(cs@, from as int, k as int + 1);
        let d = (cs[k] as u32) - ('0' as u32);
        proof {
            assert(spec_digit(cs@[k as int]));
            assert(d == spec_digit_val(cs@[k as int]));
            assert(v_new == v_old * 10 + d);
        }
        let bound = (u32::MAX - d) / 10;
        proof {
            assert((u32::MAX - d) as int == 10 * (bound as int) + (u32::MAX - d) as int % 10);
            assert(0 <= (u32::MAX - d) as int % 10 < 10);
        }
        if acc > bound {
            proof {
                if v_old <= u32::MAX {
                    assert(acc == v_old);
                    assert(v_old * 10 >= (bound + 1) * 10);
                    assert(v_new > u32::MAX);
                } else {
                    assert(acc == u32::MAX);
                    assert(v_new >= v_old);
                    assert(v_new > u32::MAX);
                }
            }
            acc = u32::MAX;
        } else {
            proof {
                assert(bound < u32::MAX);
                assert(v_old <= u32::MAX);
                assert(acc == v_old);
                assert(acc * 10 <= (bound as int) * 10);
                assert(acc * 10 + d <= u32::MAX);
                assert(v_new <= u32::MAX);
            }
            acc = acc * 10 + d;
        }
        k = k + 1;
    }
    acc
}

proof fn lemma_push_concat<T>(s: Seq<T>, x: T)
    ensures
        s.push(x) == s + seq![x],
{
    assert(s.push(x) =~= s + seq![x]);
}

proof fn lemma_step_token(
    src: Seq<char>,
    i: int,
    j: int,
    line: u32,
    line2: u32,
    tv: TokenView,
    tokens0: Seq<TokenView>,
    errors0: Seq<TokenizerError>,
    full: ScanOut,
)
    requires
        full.tokens == tokens0 + spec_scan_from(src, i, line).tokens,
        full.errors == errors0 + spec_scan_from(src, i, line).errors,
        spec_scan_from(src, i, line) == with_token(tv, spec_scan_from(src, j, line2)),
    ensures
        full.tokens == (tokens0 + seq![tv]) + spec_scan_from(src, j, line2).tokens,
        full.errors == errors0 + spec_scan_from(src, j, line2).errors,
{
    assert(full.tokens =~= (tokens0 + seq![tv]) + spec_scan_from(src, j, line2).tokens);
}

proof fn lemma_step_error(
    src: Seq<char>,
    i: int,
    j: int,
    line: u32,
    e: TokenizerError,
    tokens0: Seq<TokenView>,
    errors0: Seq<TokenizerError>,
    full: ScanOut,
)
    requires
        full.tokens == tokens0 + spec_scan_from(src, i, line).tokens,
        full.errors == errors0 + spec_scan_from(src, i, line).errors,
        spec_scan_from(src, i, line) == with_error(e, spec_scan_from(src, j, line)),
    ensures
        full.tokens == tokens0 + spec_scan_from(src, j, line).tokens,
        full.errors == (errors0 + seq![e]) + spec_scan_from(src, j, line).errors,
{
    assert(full.errors =~= (errors0 + seq![e]) + spec_scan_from(src, j, line).errors);
}

/// Scans the identifier or keyword whose first (alphabetic) character
/// stands at `start`: the token and the position just past the run.
#[verifier::loop_isolation(false)]
fn lex_word(cs: &Vec<char>, start: usize, line: u32) -> (r: (Token, usize))
    requires
        start < cs@.len(),
        spec_alpha(cs@[start as int]),
    ensures
        start < r.1 <= cs@.len(),
        spec_scan_from(cs@, start as int, line) == with_token(
            r.0@,
            spec_scan_from(cs@, r.1 as int, line),
        ),
{
    let n = cs.len();
    let mut j = start + 1;
    while j < n && is_alpha(cs[j])
        invariant
            start < j <= cs@.len(),
            forall|k: int| start <= k < j ==> spec_alpha(cs@[k]),
        decreases cs@.len() - j,
    {
        j = j + 1;
    }
    proof {
        lemma_ident_end_is(cs@, start as int, j as int);
    }
    let text = text_range(cs, start, j);
    let token_type = match Token::from_string(text.as_str()) {
        Option::Some(k) => k,
        Option::None => TokenType::Identifier(text),
    };
    let t = Token::new(token_type, line);
    (t, j)
}

/// Scans the number literal whose first digit stands at `start`: the token
/// and the position just past the consumed characters. A `.` directly
/// after the integer digits is consumed together with the following
/// (possibly empty) fraction digits.
#[verifier::loop_isolation(false)]
fn lex_number(cs: &Vec<char>, start: usize, line: u32) -> (r: (Token, usize))
    requires
        start < cs@.len(),
        spec_digit(cs@[start as int]),
    ensures
        start < r.1 <= cs@.len(),
        spec_scan_from(cs@, start as int, line) == with_token(
            r.0@,
            spec_scan_from(cs@, r.1 as int, line),
        ),
{
    let n = cs.len();
    let mut j = start + 1;
    while j < n && is_digit(cs[j])
        invariant
            start < j <= cs@.len(),
            forall|k: int| start <= k < j ==> spec_digit(cs@[k]),
        decreases cs@.len() - j,
    {
        j = j + 1;
    }
    proof {
        lemma_digits_end_is(cs@, start as int, j as int);
    }
    let num = parse_digits(cs, start, j);
    if j < n && cs[j] == '.' {
        let fstart = j + 1;
        let mut f = fstart;
        while f < n && is_digit(cs[f])
            invariant
                fstart <= f <= cs@.len(),
                forall|k: int| fstart <= k < f ==> spec_digit(cs@[k]),
            decreases cs@.len() - f,
        {
            f = f + 1;
        }
        proof {
            lemma_digits_end_is(cs@, fstart as int, f as int);
        }
        let dec = parse_digits(cs, fstart, f);
        (Token::new(TokenType::Number(num, dec), line), f)
    } else {
        (Token::new(TokenType::Number(num, 0), line), j)
    }
}

/// Scans the string literal whose opening quote stands at `start`. With a
/// closing quote the token and the position just past it come back; with
/// none, no token, and the scan is over: the position is the end of the
/// input.
#[verifier::loop_isolation(false)]
fn lex_string(cs: &Vec<char>, start: usize, line: u32) -> (r: (Option<Token>, usize))
    requires
        start < cs@.len(),
        cs@[start as int] == '"',
    ensures
        start < r.1 <= cs@.len(),
        match r.0 {
            Option::Some(t) => spec_scan_from(cs@, start as int, line) == with_token(
                t@,
                spec_scan_from(cs@, r.1 as int, line),
            ),
            Option::None => r.1 == cs@.len() && spec_scan_from(cs@, start as int, line) == (ScanOut {
                tokens: seq![TokenView { token_type: TokenTypeView::Eof, line }],
                errors: seq![TokenizerError::UnterminatedString(line)],
            }),
        },
{
    let n = cs.len();
    let mut j = start + 1;
    while j < n && cs[j] != '"'
        invariant
            start < j <= cs@.len(),
            forall|k: int| start + 1 <= k < j ==> cs@[k] != '"',
        decreases cs@.len() - j,
    {
        j = j + 1;
    }
    proof {
        lemma_quote_end_is(cs@, start as int + 1, j as int);
    }
    if j < n {
        let text = text_range(cs, start + 1, j);
        let t = Token::new(TokenType::String(text), line);
        (Option::Some(t), j + 1)
    } else {
        (Option::None, j)
    }
}

/// Scans the operator, punctuation mark or line comment whose first
/// character stands at `start` and classifies as `current`. A comment
/// yields no token and the position of the terminating newline (or the end
/// of the input); a base operator followed by `=` yields its extended form
/// and the position past both characters.
#[verifier::loop_isolation(false)]
fn lex_operator(cs: &Vec<char>, start: usize, line: u32, current: TokenType) -> (r: (
    Option<Token>,
    usize,
))
    requires
        start < cs@.len(),
        !spec_whitespace(cs@[start as int]),
        !spec_alpha(cs@[start as int]),
        !spec_digit(cs@[start as int]),
        cs@[start as int] != '"',
        spec_from_char(cs@[start as int]) == Option::Some(current@),
    ensures
        start < r.1 <= cs@.len(),
        match r.0 {
            Option::Some(t) => spec_scan_from(cs@, start as int, line) == with_token(
                t@,
                spec_scan_from(cs@, r.1 as int, line),
            ),
            Option::None => spec_scan_from(cs@, start as int, line) == spec_scan_from(
                cs@,
                r.1 as int,
                line,
            ),
        },
{
    let n = cs.len();
    let slash = matches!(current, TokenType::Slash);
    if slash && start + 1 < n && cs[start + 1] == '/' {
        let mut j = start + 2;
        while j < n && cs[j] != '\n'
            invariant
                start + 2 <= j <= cs@.len(),
                forall|k: int| start + 2 <= k < j ==> cs@[k] != '\n',
            decreases cs@.len() - j,
        {
            j = j + 1;
        }
        proof {
            lemma_line_end_is(cs@, start as int + 2, j as int);
        }
        (Option::None, j)
    } else if start + 1 < n && cs[start + 1] == '=' {
        match current.get_with_equals() {
            Option::Some(extended) => (Option::Some(Token::new(extended, line)), start + 2),
            Option::None => (Option::Some(Token::new(current, line)), start + 1),
        }
    } else {
        (Option::Some(Token::new(current, line)), start + 1)
    }
}

/// The scanning engine. A `Scanner` owns one complete source text, is
/// constructed once, and is consumed exactly once by [`Scanner::scan_tokens`].
pub struct Scanner {
    source: String,
}

impl View for Scanner {
    type V = Seq<char>;

    closed spec fn view(&self) -> Seq<char> {
        self.source@
    }
}

impl Scanner {
    /// Wraps a complete source text, ready to be scanned.
    pub fn new(source: String) -> (s: Scanner)
        ensures
            s@ == source@,
    {
        Scanner { source }
    }

    /// Scans the whole source in one pass, consuming the scanner.
    ///
    /// Returns every token in source order, terminated by `Eof`, together
    /// with the collected errors: none if the source was clean, otherwise
    /// the non-empty error sequence in the order of discovery. The result
    /// is exactly [`spec_scan`] of the source text.
    pub fn scan_tokens(self) -> (r: (Vec<Token>, Option<Vec<TokenizerError>>))
        ensures
            tokens_view(r.0@) == spec_scan(self@).tokens,
            match r.1 {
                Option::None => spec_scan(self@).errors == Seq::<TokenizerError>::empty(),
                Option::Some(errs) => errs@ == spec_scan(self@).errors && errs@.len() > 0,
            },
    {
        let ghost src = self.source@;
        let ghost full = spec_scan(src);
        let cs = chars_vec(self.source.as_str());
        let mut tokens: Vec<Token> = Vec::new();
        let mut errors: Vec<TokenizerError> = Vec::new();
        let mut i: usize = 0;
        let mut line: u32 = 1;
        proof {
            assert(tokens_view(tokens@) =~= Seq::<TokenView>::empty());
            assert(full.tokens =~= tokens_view(tokens@) + spec_scan_from(src, 0, 1).tokens);
            assert(full.errors =~= errors@ + spec_scan_from(src, 0, 1).errors);
        }
        while i < cs.len()
            invariant
                cs@ == src,
                i <= cs.len(),
                full == spec_scan(src),
                full.tokens == tokens_view(tokens@) + spec_scan_from(src, i as int, line).tokens,
                full.errors == errors@ + spec_scan_from(src, i as int, line).errors,
            decreases cs.len() - i,
        {
            let ghost tokens0 = tokens_view(tokens@);
            let ghost errors0 = errors@;
            let c = cs[i];
            if c == '\n' {
                proof {
                    assert(spec_scan_from(src, i as int, line) == spec_scan_from(
                        src,
                        i as int + 1,
                        spec_next_line(line),
                    ));
                }
                line = if line < u32::MAX {
                    line + 1
                } else {
                    line
                };
                i = i + 1;
            } else if c == ' ' || c == '\r' || c == '\t' {
                proof {
                    assert(spec_scan_from(src, i as int, line) == spec_scan_from(
                        src,
                        i as int + 1,
                        line,
                    ));
                }
                i = i + 1;
            } else if is_alpha(c) {
                let (t, next) = lex_word(&cs, i, line);
                let ghost tv = t@;
                tokens.push(t);
                proof {
                    lemma_step_token(src, i as int, next as int, line, line, tv, tokens0, errors0, full);
                    assert(tokens_view(tokens@) =~= tokens0 + seq![tv]);
                }
                i = next;
            } else if is_digit(c) {
                let (t, next) = lex_number(&cs, i, line);
                let ghost tv = t@;
                tokens.push(t);
                proof {
                    lemma_step_token(src, i as int, next as int, line, line, tv, tokens0, errors0, full);
                    assert(tokens_view(tokens@) =~= tokens0 + seq![tv]);
                }
                i = next;
            } else if c == '"' {
                let (opt, next) = lex_string(&cs, i, line);
                match opt {
                    Option::Some(t) => {
                        let ghost tv = t@;
                        tokens.push(t);
                        proof {
                            lemma_step_token(src, i as int, next as int, line, line, tv, tokens0, errors0, full);
                            assert(tokens_view(tokens@) =~= tokens0 + seq![tv]);
                        }
                        i = next;
                    },
                    Option::None => {
                        errors.push(TokenizerError::UnterminatedString(line));
                        proof {
                            assert(errors@ =~= errors0 + seq![
                                TokenizerError::UnterminatedString(line),
                            ]);
                            assert(spec_scan_from(src, next as int, line).tokens =~= seq![
                                TokenView { token_type: TokenTypeView::Eof, line },
                            ]);
                            assert(spec_scan_from(src, next as int, line).errors
                                =~= Seq::<TokenizerError>::empty());
                            assert(full.tokens =~= tokens_view(tokens@) + spec_scan_from(
                                src,
                                next as int,
                                line,
                            ).tokens);
                            assert(full.errors =~= errors@ + spec_scan_from(
                                src,
                                next as int,
                                line,
                            ).errors);
                        }
                        i = next;
                    },
                }
            } else {
                match Token::from_char(c) {
                    Option::None => {
                        errors.push(TokenizerError::UnexpectedCharacter(c, line));
                        proof {
                            assert(spec_scan_from(src, i as int, line) == with_error(
                                TokenizerError::UnexpectedCharacter(c, line),
                                spec_scan_from(src, i as int + 1, line),
                            ));
                            lemma_step_error(
                                src,
                                i as int,
                                i as int + 1,
                                line,
                                TokenizerError::UnexpectedCharacter(c, line),
                                tokens0,
                                errors0,
                                full,
                            );
                            lemma_push_concat(
                                errors0,
                                TokenizerError::UnexpectedCharacter(c, line),
                            );
                        }
                        i = i + 1;
                    },
                    Option::Some(current) => {
                        let (opt, next) = lex_operator(&cs, i, line, current);
                        match opt {
                            Option::Some(t) => {
                                let ghost tv = t@;
                                tokens.push(t);
                                proof {
                                    lemma_step_token(src, i as int, next as int, line, line, tv, tokens0, errors0, full);
                                    assert(tokens_view(tokens@) =~= tokens0 + seq![tv]);
                                }
                                i = next;
                            },
                            Option::None => {
                                i = next;
                            },
                        }
                    },
                }
            }
        }
        let ghost tokens0 = tokens_view(tokens@);
        let t = Token::new(TokenType::Eof, line);
        let ghost tv = t@;
        tokens.push(t);
        proof {
            assert(spec_scan_from(src, i as int, line).tokens =~= seq![tv]);
            assert(spec_scan_from(src, i as int, line).errors =~= Seq::<TokenizerError>::empty());
            assert(tokens_view(tokens@) =~= tokens0 + seq![tv]);
            assert(full.tokens =~= tokens_view(tokens@));
            assert(full.errors =~= errors@);
        }
        if errors.len() == 0 {
            proof {
                assert(full.errors =~= Seq::<TokenizerError>::empty());
            }
            (tokens, Option::None)
        } else {
            (tokens, Option::Some(errors))
        }
    }
}

} // verus!
