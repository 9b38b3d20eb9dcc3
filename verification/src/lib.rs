//! Parser for the Whenever language: one line of source text becomes a
//! validated, typed abstract syntax tree rooted at a single statement.
//!
//! The lexer (`lexer`) turns bytes into tokens, the parser (`parser`) runs
//! one recursive production per grammar category, and the AST (`ast`) keeps
//! for every node the exact span of input it covers.

pub mod ast;
pub mod lexer;
pub mod parser;

use vstd::prelude::*;

use crate::lexer::ByteClass;
use crate::lexer::ErrorKind;
use crate::lexer::ParseError;
use crate::lexer::TokenVariant;
use crate::lexer::is_ws;
use crate::lexer::lemma_eat_bounds;
use crate::lexer::scan_end;
use crate::lexer::spec_eat;

verus! {

/// Where the input's leading whitespace ends.
pub open spec fn trim_start_idx(s: Seq<u8>) -> int {
    scan_end(s, 0, ByteClass::Ws)
}

/// Where the input's trailing whitespace begins: one past the last
/// non-whitespace byte before `e`, or 0 if there is none.
pub open spec fn trim_end_idx(s: Seq<u8>, e: int) -> int
    decreases e,
{
    if e <= 0 || e > s.len() {
        0
    } else if is_ws(s[e - 1]) {
        trim_end_idx(s, e - 1)
    } else {
        e
    }
}

/// The input with surrounding whitespace removed.
pub open spec fn trimmed(s: Seq<u8>) -> Seq<u8> {
    s.subrange(trim_start_idx(s), trim_end_idx(s, s.len() as int))
}

/// What parsing a whole line yields: the tree that the `line` production
/// builds at the start of the input, provided nothing but whitespace
/// follows it.
pub open spec fn spec_parse_line(s: Seq<u8>) -> Result<ast::Line, ParseError> {
    match parser::spec_line(s, 0) {
        Err(e) => Err(e),
        Ok((l, cursor1)) => match spec_eat(s, cursor1 as int) {
            Ok((token1, _)) => if token1.variant is EOI {
                Ok(l)
            } else {
                Err(
                    ParseError {
                        kind: ErrorKind::ExpectedEndOfInput,
                        start: token1.start,
                        end: token1.end,
                    },
                )
            },
            Err(e) => Err(
                ParseError { kind: ErrorKind::ExpectedEndOfInput, start: e.start, end: e.end },
            ),
        },
    }
}

/// Turn the input into an AST.
///
/// Returns the root of the AST, an `ast::Line`, which is well formed for
/// the input: every leaf is exactly the token the lexer finds at its
/// position, and the root's span runs from the first non-whitespace byte
/// to the end of the closing `;`, after which only whitespace remains
/// (`lemma_root_span_is_trimmed_input` turns this into: the root's span is
/// the input trimmed of surrounding whitespace).
///
/// # Errors
///
/// Returns a description of the error and the byte range of the input
/// where it happened:
/// * input that could not be tokenized (see `lexer::eat`),
/// * a token that was not expected where it stands,
/// * an `ast::Line` that could be built but left more than whitespace
///   behind.
pub fn parse_line(line: &[u8]) -> (r: Result<ast::Line, ParseError>)
    ensures
        match r {
            Ok(l) => {
                &&& ast::wf_line(line@, l)
                &&& ast::line_start(l) == trim_start_idx(line@)
                &&& 0 < ast::line_end(l) <= line@.len()
                &&& forall|k: int| ast::line_end(l) <= k < line@.len() ==> is_ws(line@[k])
            },
            Err(e) => e.start <= e.end <= line@.len(),
        },
        r == spec_parse_line(line@),
{
    let (parsed, cursor1) = match parser::eat_line(line, 0) {
        Ok(t) => t,
        Err(e) => {
            return Err(e);
        },
    };
    proof {
        vstd::slice::axiom_spec_len::<u8>(line);
        lemma_eat_bounds(line@, cursor1 as int);
    }
    match lexer::eat(line, cursor1) {
        Ok((token1, _)) => match token1.variant {
            TokenVariant::EOI => Ok(parsed),
            _ => Err(
                ParseError {
                    kind: ErrorKind::ExpectedEndOfInput,
                    start: token1.start,
                    end: token1.end,
                },
            ),
        },
        // Anything but whitespace after the `;` — even input that does not
        // tokenize — means the line did not end where it should have.
        Err(e) => Err(
            ParseError { kind: ErrorKind::ExpectedEndOfInput, start: e.start, end: e.end },
        ),
    }
}

/// Trailing whitespace does not move the trim point.
proof fn lemma_trim_end_skips_ws(s: Seq<u8>, e0: int, e: int)
    requires
        0 <= e0 <= e <= s.len(),
        forall|k: int| e0 <= k < e ==> is_ws(s[k]),
    ensures
        trim_end_idx(s, e) == trim_end_idx(s, e0),
    decreases e - e0,
{
    if e > e0 {
        lemma_trim_end_skips_ws(s, e0, e - 1);
    }
}

/// For every line that parses, the root's span is exactly the input
/// trimmed of surrounding whitespace.
///
/// The premises are what `parse_line` ensures of a parsed line.
pub proof fn lemma_root_span_is_trimmed_input(s: Seq<u8>, l: ast::Line)
    requires
        s.len() <= usize::MAX,
        ast::wf_line(s, l),
        ast::line_start(l) == trim_start_idx(s),
        0 < ast::line_end(l) <= s.len(),
        forall|k: int| ast::line_end(l) <= k < s.len() ==> is_ws(s[k]),
    ensures
        ast::line_end(l) == trim_end_idx(s, s.len() as int),
        s.subrange(ast::line_start(l), ast::line_end(l)) == trimmed(s),
{
    let semi = l.semi;
    crate::lexer::lemma_eat_bounds(s, semi.start as int);
    crate::lexer::lemma_scan_end(s, semi.start as int, ByteClass::Ws);
    // The token at `semi.start` is the `;` itself, so that byte is `;`
    // and the span ends one byte later — no whitespace stands at
    // `line_end - 1`.
    assert(scan_end(s, semi.start as int, ByteClass::Ws) == semi.start);
    assert(s[semi.start as int] == 59 && semi.end == semi.start + 1);
    lemma_trim_end_skips_ws(s, ast::line_end(l), s.len() as int);
}

} // verus!
