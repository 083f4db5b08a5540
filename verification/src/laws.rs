//! Proofs of the guarantees the scanner gives across whole inputs: what
//! whitespace-only sources, single operators, trailing comments and
//! non-reserved identifiers scan to, and that every scan ends in `Eof`.

use vstd::prelude::*;

use crate::scanner::ident_end;
use crate::scanner::lemma_digits_end;
use crate::scanner::lemma_ident_end;
use crate::scanner::lemma_ident_end_is;
use crate::scanner::lemma_line_end;
use crate::scanner::lemma_line_end_is;
use crate::scanner::lemma_quote_end;
use crate::scanner::line_end;
use crate::scanner::spec_alpha;
use crate::scanner::spec_digit;
use crate::scanner::spec_next_line;
use crate::scanner::spec_scan;
use crate::scanner::spec_scan_from;
use crate::scanner::spec_whitespace;
use crate::scanner::digits_end;
use crate::scanner::quote_end;
use crate::scanner::ScanOut;
use crate::tokenizer::spec_from_char;
use crate::tokenizer::TokenizerError;
use crate::tokenizer::spec_keyword;
use crate::tokenizer::spec_with_equals;
use crate::tokenizer::TokenTypeView;
use crate::tokenizer::TokenView;

verus! {

/// How many newlines stand at or after `pos`.
pub open spec fn newlines_from(cs: Seq<char>, pos: int) -> nat
    decreases cs.len() - pos,
{
    if 0 <= pos < cs.len() {
        (if cs[pos] == '\n' {
            1nat
        } else {
            0nat
        }) + newlines_from(cs, pos + 1)
    } else {
        0
    }
}

/// How many newline characters an input holds.
pub open spec fn newline_count(cs: Seq<char>) -> nat {
    newlines_from(cs, 0)
}

proof fn lemma_whitespace_scan_from(cs: Seq<char>, pos: int, line: u32)
    requires
        0 <= pos <= cs.len(),
        forall|k: int| pos <= k < cs.len() ==> spec_whitespace(cs[k]),
        line + newlines_from(cs, pos) <= u32::MAX,
    ensures
        spec_scan_from(cs, pos, line) == (ScanOut {
            tokens: seq![
                TokenView {
                    token_type: TokenTypeView::Eof,
                    line: (line + newlines_from(cs, pos)) as u32,
                },
            ],
            errors: Seq::<TokenizerError>::empty(),
        }),
    decreases cs.len() - pos,
{
    if pos < cs.len() {
        if cs[pos] == '\n' {
            lemma_whitespace_scan_from(cs, pos + 1, (line + 1) as u32);
        } else {
            lemma_whitespace_scan_from(cs, pos + 1, line);
        }
    }
}

/// For every input made only of the whitespace characters (space, tab,
/// carriage return, newline), in any combination, the scan yields exactly
/// the `Eof` token and no errors, and `Eof` is tagged with 1 plus the
/// number of newlines.
pub proof fn lemma_whitespace_only(cs: Seq<char>)
    requires
        forall|k: int| 0 <= k < cs.len() ==> spec_whitespace(cs[k]),
        1 + newline_count(cs) <= u32::MAX,
    ensures
        spec_scan(cs) == (ScanOut {
            tokens: seq![
                TokenView {
                    token_type: TokenTypeView::Eof,
                    line: (1 + newline_count(cs)) as u32,
                },
            ],
            errors: Seq::<TokenizerError>::empty(),
        }),
{
    lemma_whitespace_scan_from(cs, 0, 1);
}

/// Every single-character input that classifies as punctuation or as a
/// base operator — including a lone `/`, which no second `/` follows —
/// scans to exactly that token on line 1, then `Eof`, with no errors.
pub proof fn lemma_single_operator(c: char, t: TokenTypeView)
    requires
        spec_from_char(c) == Option::Some(t),
    ensures
        spec_scan(seq![c]) == (ScanOut {
            tokens: seq![
                TokenView { token_type: t, line: 1 },
                TokenView { token_type: TokenTypeView::Eof, line: 1 },
            ],
            errors: Seq::<TokenizerError>::empty(),
        }),
{
    reveal_with_fuel(spec_scan_from, 3);
    let cs = seq![c];
    assert(spec_scan(cs).tokens =~= seq![
        TokenView { token_type: t, line: 1 },
        TokenView { token_type: TokenTypeView::Eof, line: 1 },
    ]);
}

/// Every base operator followed by `=` scans to its extended
/// two-character form: the input of the two characters yields exactly the
/// extended token on line 1, then `Eof`, with no errors.
pub proof fn lemma_extended_operator(c: char, t: TokenTypeView, extended: TokenTypeView)
    requires
        spec_from_char(c) == Option::Some(t),
        spec_with_equals(t) == Option::Some(extended),
    ensures
        spec_scan(seq![c, '=']) == (ScanOut {
            tokens: seq![
                TokenView { token_type: extended, line: 1 },
                TokenView { token_type: TokenTypeView::Eof, line: 1 },
            ],
            errors: Seq::<TokenizerError>::empty(),
        }),
{
    reveal_with_fuel(spec_scan_from, 3);
    let cs = seq![c, '='];
    assert(cs[1] == '=');
    assert(t != TokenTypeView::Slash);
    assert(spec_scan(cs).tokens =~= seq![
        TokenView { token_type: extended, line: 1 },
        TokenView { token_type: TokenTypeView::Eof, line: 1 },
    ]);
}

/// A line comment running to the end of the input contributes nothing:
/// from the `//` on, the scan yields only `Eof` on the current line and no
/// errors, whatever the comment text holds.
pub proof fn lemma_comment_to_end(cs: Seq<char>, pos: int, line: u32)
    requires
        0 <= pos,
        pos + 1 < cs.len(),
        cs[pos] == '/',
        cs[pos + 1] == '/',
        forall|k: int| pos <= k < cs.len() ==> cs[k] != '\n',
    ensures
        spec_scan_from(cs, pos, line) == (ScanOut {
            tokens: seq![TokenView { token_type: TokenTypeView::Eof, line }],
            errors: Seq::<TokenizerError>::empty(),
        }),
{
    reveal_with_fuel(spec_scan_from, 3);
    lemma_line_end_is(cs, pos + 2, cs.len() as int);
}

/// A purely alphabetic input that matches no reserved word scans to
/// exactly one `Identifier` token carrying the whole input text, then
/// `Eof`, with no errors — never a keyword token.
pub proof fn lemma_identifier_not_keyword(cs: Seq<char>)
    requires
        cs.len() > 0,
        forall|k: int| 0 <= k < cs.len() ==> spec_alpha(cs[k]),
        spec_keyword(cs) == Option::<TokenTypeView>::None,
    ensures
        spec_scan(cs) == (ScanOut {
            tokens: seq![
                TokenView { token_type: TokenTypeView::Identifier(cs), line: 1 },
                TokenView { token_type: TokenTypeView::Eof, line: 1 },
            ],
            errors: Seq::<TokenizerError>::empty(),
        }),
{
    reveal_with_fuel(spec_scan_from, 3);
    lemma_ident_end_is(cs, 0, cs.len() as int);
    assert(cs.subrange(0, cs.len() as int) =~= cs);
    assert(spec_scan(cs).tokens =~= seq![
        TokenView { token_type: TokenTypeView::Identifier(cs), line: 1 },
        TokenView { token_type: TokenTypeView::Eof, line: 1 },
    ]);
}

/// Every scan yields at least one token, and the last one is always the
/// `Eof` marker: the token sequence is never empty, whatever the input.
pub proof fn lemma_scan_ends_with_eof(cs: Seq<char>, pos: int, line: u32)
    requires
        0 <= pos,
    ensures
        spec_scan_from(cs, pos, line).tokens.len() >= 1,
        spec_scan_from(cs, pos, line).tokens.last().token_type == TokenTypeView::Eof,
    decreases cs.len() - pos,
{
    if 0 <= pos < cs.len() {
        let c = cs[pos];
        if c == '\n' {
            lemma_scan_ends_with_eof(cs, pos + 1, spec_next_line(line));
        } else if c == ' ' || c == '\r' || c == '\t' {
            lemma_scan_ends_with_eof(cs, pos + 1, line);
        } else if spec_alpha(c) {
            lemma_ident_end(cs, pos);
            lemma_scan_ends_with_eof(cs, ident_end(cs, pos), line);
        } else if spec_digit(c) {
            lemma_digits_end(cs, pos);
            let iend = digits_end(cs, pos);
            if iend < cs.len() && cs[iend] == '.' {
                lemma_digits_end(cs, iend + 1);
                lemma_scan_ends_with_eof(cs, digits_end(cs, iend + 1), line);
            } else {
                lemma_scan_ends_with_eof(cs, iend, line);
            }
        } else if c == '"' {
            lemma_quote_end(cs, pos + 1);
            if quote_end(cs, pos + 1) < cs.len() {
                lemma_scan_ends_with_eof(cs, quote_end(cs, pos + 1) + 1, line);
            }
        } else {
            match spec_from_char(c) {
                Option::None => {
                    lemma_scan_ends_with_eof(cs, pos + 1, line);
                },
                Option::Some(t) => {
                    if t == TokenTypeView::Slash && pos + 1 < cs.len() && cs[pos + 1] == '/' {
                        lemma_line_end(cs, pos + 2);
                        lemma_scan_ends_with_eof(cs, line_end(cs, pos + 2), line);
                    } else if pos + 1 < cs.len() && cs[pos + 1] == '=' && spec_with_equals(t)
                        is Some {
                        lemma_scan_ends_with_eof(cs, pos + 2, line);
                    } else {
                        lemma_scan_ends_with_eof(cs, pos + 1, line);
                    }
                },
            }
        }
    }
}


} // verus!
