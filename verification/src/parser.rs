//! The parser: one recursive production per grammar category.
//!
//! Each production takes the input and the position of the remaining text,
//! and returns a node plus the position just past it, or the first error.
//! Dispatch is by the variant of the next token (a single token of
//! lookahead); there is no backtracking.  Binary operators are folded at a
//! single precedence level, right-associatively: after a primary, one more
//! operator token is peeked at, and the whole right-hand side is parsed by
//! recursion.
//!
//! Every production returns exactly what its specification-level twin
//! (`spec_number` and its kin) defines for the input and position — node,
//! new position, and error alike.  Beside that equality, each production's
//! contract states directly what callers need without unfolding the spec:
//! the returned node is well formed for the input, its span starts at the
//! first non-whitespace byte at or after the given position and ends
//! exactly where parsing resumed, and no token that could have continued
//! the production stands at the returned position.

use vstd::prelude::*;

use crate::ast;
use crate::lexer::ByteClass;
use crate::lexer::ErrorKind;
use crate::lexer::ParseError;
use crate::lexer::Token;
use crate::lexer::TokenVariant;
use crate::lexer::lemma_eat_at_start;
use crate::lexer::lemma_eat_bounds;
use crate::lexer::scan_end;
use crate::lexer::spec_eat;

verus! {

// Termination.
//
// Every production consumes at least one token before it recurses — except
// where one production hands the very same position to another, which can
// happen only a bounded number of times before a token is consumed:
// statement -> lineops -> number -> absnumber, and number and string hand
// the position to each other only under lookaheads that cannot meet (a
// number defers to a string only on `String`/`U`, a string to a number
// only on the rest).  The measure is the remaining input, then a rank that
// orders the productions for the lookahead standing at the position.

pub open spec fn rank_number(s: Seq<u8>, pos: int) -> int {
    match spec_eat(s, pos) {
        Ok((t, _)) => if t.variant is String || t.variant is U {
            2
        } else {
            1
        },
        Err(_) => 1,
    }
}

pub open spec fn rank_string(s: Seq<u8>, pos: int) -> int {
    match spec_eat(s, pos) {
        Ok((t, _)) => if t.variant is String || t.variant is U {
            1
        } else {
            2
        },
        Err(_) => 2,
    }
}

// The specification-level parser.
//
// One spec function per production, defining for every input and position
// exactly which node and new position — or which error — the production
// yields.  Each executable production is proved to return exactly this.
//
// Termination of the spec functions uses the same measure as the
// executable ones.  Where a recursion's position comes out of an inner
// parse, the definition first checks that the inner parse advanced; the
// check never fails (every production consumes at least one token, as the
// executable contracts prove), and where it would, the definition simply
// stops with what it has.

pub open spec fn spec_absnumber(s: Seq<u8>, pos: int) -> Result<(ast::AbsNumber, usize), ParseError>
    decreases s.len() - pos, 0int,
        when 0 <= pos <= s.len() <= usize::MAX
        via spec_absnumber_dec
{
    match spec_eat(s, pos) {
        Err(e) => Err(e),
        Ok((token0, cursor1)) => match token0.variant {
            TokenVariant::Number(val) => Ok(
                (
                    ast::AbsNumber::Num(
                        ast::NumberToken { start: token0.start, end: token0.end, val },
                    ),
                    cursor1,
                ),
            ),
            TokenVariant::N => match spec_eat(s, cursor1 as int) {
                Err(e) => Err(e),
                Ok((token1, cursor2)) => if !(token1.variant is LeftParens) {
                    spec_expected(ErrorKind::ExpectedLeftParens, token1)
                } else {
                    match spec_number(s, cursor2 as int) {
                        Err(e) => Err(e),
                        Ok((number, cursor3)) => match spec_eat(s, cursor3 as int) {
                            Err(e) => Err(e),
                            Ok((token3, cursor4)) => if !(token3.variant is RightParens) {
                                spec_expected(ErrorKind::ExpectedRightParens, token3)
                            } else {
                                Ok(
                                    (
                                        ast::AbsNumber::NCall(
                                            Box::new(
                                                ast::NGroup {
                                                    keyword: spec_span(token0),
                                                    lparen: spec_span(token1),
                                                    num: number,
                                                    rparen: spec_span(token3),
                                                },
                                            ),
                                        ),
                                        cursor4,
                                    ),
                                )
                            },
                        },
                    }
                },
            },
            TokenVariant::Read => match spec_eat(s, cursor1 as int) {
                Err(e) => Err(e),
                Ok((token1, cursor2)) => if !(token1.variant is LeftParens) {
                    spec_expected(ErrorKind::ExpectedLeftParens, token1)
                } else {
                    match spec_eat(s, cursor2 as int) {
                        Err(e) => Err(e),
                        Ok((token2, cursor3)) => if !(token2.variant is RightParens) {
                            spec_expected(ErrorKind::ExpectedRightParens, token2)
                        } else {
                            Ok(
                                (
                                    ast::AbsNumber::ReadCall(
                                        ast::ReadGroup {
                                            keyword: spec_span(token0),
                                            lparen: spec_span(token1),
                                            rparen: spec_span(token2),
                                        },
                                    ),
                                    cursor3,
                                ),
                            )
                        },
                    }
                },
            },
            _ => spec_expected(ErrorKind::ExpectedNumber, token0),
        },
    }
}

/// The span of one token.
pub open spec fn spec_span(t: Token) -> ast::TokenSpan {
    ast::TokenSpan { start: t.start, end: t.end }
}

/// The error that reports an unexpected token.
pub open spec fn spec_expected<T>(kind: ErrorKind, t: Token) -> Result<T, ParseError> {
    Err(ParseError { kind, start: t.start, end: t.end })
}

pub open spec fn spec_number(s: Seq<u8>, pos: int) -> Result<(ast::Number, usize), ParseError>
    decreases s.len() - pos, rank_number(s, pos),
        when 0 <= pos <= s.len() <= usize::MAX
        via spec_number_dec
{
    match spec_eat(s, pos) {
        Err(e) => Err(e),
        Ok((token0, cursor1)) => {
            let primary: Result<(ast::Number, usize), ParseError> = match token0.variant {
                TokenVariant::Number(_) | TokenVariant::N | TokenVariant::Read => match spec_absnumber(
                    s,
                    pos,
                ) {
                    Err(e) => Err(e),
                    Ok((absnum, c)) => Ok(
                        (
                            ast::Number::Absolute(Box::new(ast::AbsoluteNumber { num: absnum })),
                            c,
                        ),
                    ),
                },
                TokenVariant::Plus | TokenVariant::Minus => match spec_number(s, cursor1 as int) {
                    Err(e) => Err(e),
                    Ok((number, c)) => Ok(
                        (
                            ast::Number::UnOp(
                                Box::new(
                                    ast::UnOpNumber {
                                        op: if token0.variant is Plus {
                                            ast::UnMathOp::Plus(spec_span(token0))
                                        } else {
                                            ast::UnMathOp::Minus(spec_span(token0))
                                        },
                                        num: number,
                                    },
                                ),
                            ),
                            c,
                        ),
                    ),
                },
                TokenVariant::LeftParens => match spec_number(s, cursor1 as int) {
                    Err(e) => Err(e),
                    Ok((number, cursor2)) => match spec_eat(s, cursor2 as int) {
                        Err(e) => Err(e),
                        Ok((token2, cursor3)) => if !(token2.variant is RightParens) {
                            spec_expected(ErrorKind::ExpectedRightParens, token2)
                        } else {
                            Ok(
                                (
                                    ast::Number::Parens(
                                        Box::new(
                                            ast::ParensNumber {
                                                lparen: spec_span(token0),
                                                num: number,
                                                rparen: spec_span(token2),
                                            },
                                        ),
                                    ),
                                    cursor3,
                                ),
                            )
                        },
                    },
                },
                TokenVariant::String | TokenVariant::U => match spec_string(s, pos) {
                    Err(e) => Err(e),
                    Ok((string, c)) => Ok(
                        (ast::Number::FromString(Box::new(ast::StringToNum { string })), c),
                    ),
                },
                _ => spec_expected(ErrorKind::ExpectedNumber, token0),
            };
            match primary {
                Err(e) => Err(e),
                Ok((number1, cursorlast)) => if !(pos < cursorlast <= s.len()) {
                    Ok((number1, cursorlast))
                } else {
                    match spec_eat(s, cursorlast as int) {
                        Err(e) => Err(e),
                        Ok((tokenlast, clp1)) => match tokenlast.variant {
                            TokenVariant::Plus | TokenVariant::Minus | TokenVariant::MathOp => match spec_number(
                                s,
                                clp1 as int,
                            ) {
                                Err(e) => Err(e),
                                Ok((number2, clp2)) => Ok(
                                    (
                                        ast::Number::BinOp(
                                            Box::new(
                                                ast::BinOpNumber {
                                                    num1: number1,
                                                    op: match tokenlast.variant {
                                                        TokenVariant::Plus => ast::BinMathOp::Plus(
                                                            spec_span(tokenlast),
                                                        ),
                                                        TokenVariant::Minus => ast::BinMathOp::Minus(
                                                            spec_span(tokenlast),
                                                        ),
                                                        _ => ast::BinMathOp::MathOp(
                                                            spec_span(tokenlast),
                                                        ),
                                                    },
                                                    num2: number2,
                                                },
                                            ),
                                        ),
                                        clp2,
                                    ),
                                ),
                            },
                            _ => Ok((number1, cursorlast)),
                        },
                    }
                },
            }
        },
    }
}

pub open spec fn spec_boolean(s: Seq<u8>, pos: int) -> Result<(ast::Boolean, usize), ParseError>
    decreases s.len() - pos, 3int,
        when 0 <= pos <= s.len() <= usize::MAX
        via spec_boolean_dec
{
    match spec_eat(s, pos) {
        Err(e) => Err(e),
        Ok((token0, cursor1)) => {
            let primary: Result<(ast::Boolean, usize), ParseError> = match token0.variant {
                TokenVariant::UnBoolOp => match spec_boolean(s, cursor1 as int) {
                    Err(e) => Err(e),
                    Ok((boolean, c)) => Ok(
                        (
                            ast::Boolean::UnOp(
                                Box::new(
                                    ast::UnOpBoolean { op: spec_span(token0), boolean },
                                ),
                            ),
                            c,
                        ),
                    ),
                },
                TokenVariant::LeftParens => match spec_boolean(s, cursor1 as int) {
                    Err(e) => Err(e),
                    Ok((boolean, cursor2)) => match spec_eat(s, cursor2 as int) {
                        Err(e) => Err(e),
                        Ok((token2, cursor3)) => if !(token2.variant is RightParens) {
                            spec_expected(ErrorKind::ExpectedRightParens, token2)
                        } else {
                            Ok(
                                (
                                    ast::Boolean::Parens(
                                        Box::new(
                                            ast::ParensBoolean {
                                                lparen: spec_span(token0),
                                                boolean,
                                                rparen: spec_span(token2),
                                            },
                                        ),
                                    ),
                                    cursor3,
                                ),
                            )
                        },
                    },
                },
                TokenVariant::Number(_) | TokenVariant::N | TokenVariant::Read
                    | TokenVariant::Plus | TokenVariant::Minus | TokenVariant::String
                    | TokenVariant::U => match spec_number(s, pos) {
                    Err(e) => Err(e),
                    Ok((number1, cursor1b)) => if !(pos < cursor1b <= s.len()) {
                        Ok((ast::Boolean::FromNumber(Box::new(ast::NumToBool { num: number1 })), cursor1b))
                    } else {
                        match spec_eat(s, cursor1b as int) {
                            Err(e) => Err(e),
                            Ok((token1, cursor2)) => match token1.variant {
                                TokenVariant::BinNumBoolOp => match spec_number(s, cursor2 as int) {
                                    Err(e) => Err(e),
                                    Ok((number2, cursor3)) => Ok(
                                        (
                                            ast::Boolean::NumCompare(
                                                Box::new(
                                                    ast::BinOpNumBoolean {
                                                        num1: number1,
                                                        op: spec_span(token1),
                                                        num2: number2,
                                                    },
                                                ),
                                            ),
                                            cursor3,
                                        ),
                                    ),
                                },
                                _ => Ok(
                                    (
                                        ast::Boolean::FromNumber(
                                            Box::new(ast::NumToBool { num: number1 }),
                                        ),
                                        cursor1b,
                                    ),
                                ),
                            },
                        }
                    },
                },
                _ => spec_expected(ErrorKind::ExpectedBoolean, token0),
            };
            match primary {
                Err(e) => Err(e),
                Ok((boolean1, cursorlast)) => if !(pos < cursorlast <= s.len()) {
                    Ok((boolean1, cursorlast))
                } else {
                    match spec_eat(s, cursorlast as int) {
                        Err(e) => Err(e),
                        Ok((tokenlast, clp1)) => match tokenlast.variant {
                            TokenVariant::BinBoolOp => match spec_boolean(s, clp1 as int) {
                                Err(e) => Err(e),
                                Ok((boolean2, clp2)) => Ok(
                                    (
                                        ast::Boolean::BinOp(
                                            Box::new(
                                                ast::BinOpBoolean {
                                                    boolean1,
                                                    op: spec_span(tokenlast),
                                                    boolean2,
                                                },
                                            ),
                                        ),
                                        clp2,
                                    ),
                                ),
                            },
                            _ => Ok((boolean1, cursorlast)),
                        },
                    }
                },
            }
        },
    }
}

pub open spec fn spec_string(s: Seq<u8>, pos: int) -> Result<(ast::Str, usize), ParseError>
    decreases s.len() - pos, rank_string(s, pos),
        when 0 <= pos <= s.len() <= usize::MAX
        via spec_string_dec
{
    match spec_eat(s, pos) {
        Err(e) => Err(e),
        Ok((token0, cursor1)) => {
            let primary: Result<(ast::Str, usize), ParseError> = match token0.variant {
                TokenVariant::String => Ok((ast::Str::Lit(spec_span(token0)), cursor1)),
                TokenVariant::U => match spec_eat(s, cursor1 as int) {
                    Err(e) => Err(e),
                    Ok((token1, cursor2)) => if !(token1.variant is LeftParens) {
                        spec_expected(ErrorKind::ExpectedLeftParens, token1)
                    } else {
                        match spec_absnumber(s, cursor2 as int) {
                            Err(e) => Err(e),
                            Ok((number, cursor3)) => match spec_eat(s, cursor3 as int) {
                                Err(e) => Err(e),
                                Ok((token3, cursor4)) => if !(token3.variant is RightParens) {
                                    spec_expected(ErrorKind::ExpectedRightParens, token3)
                                } else {
                                    Ok(
                                        (
                                            ast::Str::UCall(
                                                Box::new(
                                                    ast::UGroup {
                                                        keyword: spec_span(token0),
                                                        lparen: spec_span(token1),
                                                        num: number,
                                                        rparen: spec_span(token3),
                                                    },
                                                ),
                                            ),
                                            cursor4,
                                        ),
                                    )
                                },
                            },
                        }
                    },
                },
                TokenVariant::Number(_) | TokenVariant::N | TokenVariant::Read
                    | TokenVariant::Plus | TokenVariant::Minus | TokenVariant::LeftParens => match spec_number(
                    s,
                    pos,
                ) {
                    Err(e) => Err(e),
                    Ok((number, c)) => Ok(
                        (ast::Str::FromNumber(Box::new(ast::NumToString { num: number })), c),
                    ),
                },
                _ => spec_expected(ErrorKind::ExpectedString, token0),
            };
            match primary {
                Err(e) => Err(e),
                Ok((string1, cursorlast)) => if !(pos < cursorlast <= s.len()) {
                    Ok((string1, cursorlast))
                } else {
                    match spec_eat(s, cursorlast as int) {
                        Err(e) => Err(e),
                        Ok((tokenlast, clp1)) => match tokenlast.variant {
                            TokenVariant::Plus => match spec_string(s, clp1 as int) {
                                Err(e) => Err(e),
                                Ok((string2, clp2)) => Ok(
                                    (
                                        ast::Str::Concat(
                                            Box::new(
                                                ast::Concat {
                                                    str1: string1,
                                                    op: spec_span(tokenlast),
                                                    str2: string2,
                                                },
                                            ),
                                        ),
                                        clp2,
                                    ),
                                ),
                            },
                            _ => Ok((string1, cursorlast)),
                        },
                    }
                },
            }
        },
    }
}

pub open spec fn spec_lineops(s: Seq<u8>, pos: int) -> Result<(ast::LineOps, usize), ParseError>
    decreases s.len() - pos, 3int,
        when 0 <= pos <= s.len() <= usize::MAX
        via spec_lineops_dec
{
    match spec_number(s, pos) {
        Err(e) => Err(e),
        Ok((number, cursor1)) => if !(pos < cursor1 <= s.len()) {
            Ok((spec_single_op(number), cursor1))
        } else {
            match spec_eat(s, cursor1 as int) {
                Err(e) => Err(e),
                Ok((token1, cursor2)) => match token1.variant {
                    TokenVariant::Comma => match spec_lineops(s, cursor2 as int) {
                        Err(e) => Err(e),
                        Ok((lineops, cursor3)) => Ok(
                            (
                                ast::LineOps::List(
                                    Box::new(
                                        ast::LineOpList {
                                            lineop: ast::LineOp {
                                                slo: ast::SingleLineOp::FromNumber(
                                                    Box::new(ast::NumToLineOp { num: number }),
                                                ),
                                            },
                                            comma: spec_span(token1),
                                            list: lineops,
                                        },
                                    ),
                                ),
                                cursor3,
                            ),
                        ),
                    },
                    TokenVariant::Sharp => match spec_number(s, cursor2 as int) {
                        Err(e) => Err(e),
                        Ok((count, cursor3)) => if !(pos < cursor3 <= s.len()) {
                            Ok((spec_count_op(number, token1, count), cursor3))
                        } else {
                            match spec_eat(s, cursor3 as int) {
                                Err(e) => Err(e),
                                Ok((token3, cursor4)) => match token3.variant {
                                    TokenVariant::Comma => match spec_lineops(s, cursor4 as int) {
                                        Err(e) => Err(e),
                                        Ok((lineops, cursor5)) => Ok(
                                            (
                                                ast::LineOps::List(
                                                    Box::new(
                                                        ast::LineOpList {
                                                            lineop: ast::LineOp {
                                                                slo: ast::SingleLineOp::Count(
                                                                    Box::new(
                                                                        ast::CountLineOp {
                                                                            line: number,
                                                                            sharp: spec_span(
                                                                                token1,
                                                                            ),
                                                                            count,
                                                                        },
                                                                    ),
                                                                ),
                                                            },
                                                            comma: spec_span(token3),
                                                            list: lineops,
                                                        },
                                                    ),
                                                ),
                                                cursor5,
                                            ),
                                        ),
                                    },
                                    _ => Ok((spec_count_op(number, token1, count), cursor3)),
                                },
                            }
                        },
                    },
                    _ => Ok((spec_single_op(number), cursor1)),
                },
            }
        },
    }
}

/// A lone number as a single line operation.
pub open spec fn spec_single_op(number: ast::Number) -> ast::LineOps {
    ast::LineOps::Single(
        Box::new(
            ast::LineOp {
                slo: ast::SingleLineOp::FromNumber(Box::new(ast::NumToLineOp { num: number })),
            },
        ),
    )
}

/// A counted line operation, `number # count`.
pub open spec fn spec_count_op(number: ast::Number, sharp: Token, count: ast::Number) -> ast::LineOps {
    ast::LineOps::Single(
        Box::new(
            ast::LineOp {
                slo: ast::SingleLineOp::Count(
                    Box::new(
                        ast::CountLineOp { line: number, sharp: spec_span(sharp), count },
                    ),
                ),
            },
        ),
    )
}

pub open spec fn spec_statement(s: Seq<u8>, pos: int) -> Result<(ast::Statement, usize), ParseError>
    decreases s.len() - pos, 4int,
        when 0 <= pos <= s.len() <= usize::MAX
        via spec_statement_dec
{
    match spec_eat(s, pos) {
        Err(e) => Err(e),
        Ok((token0, cursor1)) => match token0.variant {
            TokenVariant::Again | TokenVariant::Defer | TokenVariant::Forget => match spec_eat(
                s,
                cursor1 as int,
            ) {
                Err(e) => Err(e),
                Ok((token1, cursor2)) => if !(token1.variant is LeftParens) {
                    spec_expected(ErrorKind::ExpectedLeftParens, token1)
                } else {
                    match spec_boolean(s, cursor2 as int) {
                        Err(e) => Err(e),
                        Ok((boolean, cursor3)) => if !(pos < cursor3 <= s.len()) {
                            spec_expected(ErrorKind::ExpectedStatement, token0)
                        } else {
                            match spec_eat(s, cursor3 as int) {
                                Err(e) => Err(e),
                                Ok((token3, cursor4)) => if !(token3.variant is RightParens) {
                                    spec_expected(ErrorKind::ExpectedRightParens, token3)
                                } else {
                                    match spec_statement(s, cursor4 as int) {
                                        Err(e) => Err(e),
                                        Ok((statement, cursor5)) => Ok(
                                            (
                                                spec_control(
                                                    token0,
                                                    token1,
                                                    boolean,
                                                    token3,
                                                    statement,
                                                ),
                                                cursor5,
                                            ),
                                        ),
                                    }
                                },
                            }
                        },
                    }
                },
            },
            TokenVariant::Print => match spec_eat(s, cursor1 as int) {
                Err(e) => Err(e),
                Ok((token1, cursor2)) => if !(token1.variant is LeftParens) {
                    spec_expected(ErrorKind::ExpectedLeftParens, token1)
                } else {
                    match spec_string(s, cursor2 as int) {
                        Err(e) => Err(e),
                        Ok((string, cursor3)) => match spec_eat(s, cursor3 as int) {
                            Err(e) => Err(e),
                            Ok((token3, cursor4)) => if !(token3.variant is RightParens) {
                                spec_expected(ErrorKind::ExpectedRightParens, token3)
                            } else {
                                Ok(
                                    (
                                        ast::Statement::Print(
                                            Box::new(
                                                ast::PrintStmt {
                                                    keyword: spec_span(token0),
                                                    lparen: spec_span(token1),
                                                    string,
                                                    rparen: spec_span(token3),
                                                },
                                            ),
                                        ),
                                        cursor4,
                                    ),
                                )
                            },
                        },
                    }
                },
            },
            TokenVariant::Number(_) | TokenVariant::N | TokenVariant::Read | TokenVariant::Plus
                | TokenVariant::Minus | TokenVariant::LeftParens | TokenVariant::String
                | TokenVariant::U => match spec_lineops(s, pos) {
                Err(e) => Err(e),
                Ok((lineops, c)) => Ok(
                    (ast::Statement::Ops(Box::new(ast::LineOperations { lineops })), c),
                ),
            },
            _ => spec_expected(ErrorKind::ExpectedStatement, token0),
        },
    }
}

/// The control wrapper that `keyword` names, around a condition and an
/// inner statement.
pub open spec fn spec_control(
    keyword: Token,
    lparen: Token,
    boolean: ast::Boolean,
    rparen: Token,
    statement: ast::Statement,
) -> ast::Statement {
    if keyword.variant is Again {
        ast::Statement::Again(
            Box::new(
                ast::AgainStmt {
                    keyword: spec_span(keyword),
                    lparen: spec_span(lparen),
                    boolean,
                    rparen: spec_span(rparen),
                    statement,
                },
            ),
        )
    } else if keyword.variant is Defer {
        ast::Statement::Defer(
            Box::new(
                ast::DeferStmt {
                    keyword: spec_span(keyword),
                    lparen: spec_span(lparen),
                    boolean,
                    rparen: spec_span(rparen),
                    statement,
                },
            ),
        )
    } else {
        ast::Statement::Forget(
            Box::new(
                ast::ForgetStmt {
                    keyword: spec_span(keyword),
                    lparen: spec_span(lparen),
                    boolean,
                    rparen: spec_span(rparen),
                    statement,
                },
            ),
        )
    }
}

pub open spec fn spec_line(s: Seq<u8>, pos: int) -> Result<(ast::Line, usize), ParseError>
    decreases s.len() - pos, 5int,
        when 0 <= pos <= s.len() <= usize::MAX
        via spec_line_dec
{
    match spec_eat(s, pos) {
        Err(e) => Err(e),
        Ok((token0, cursor1)) => match token0.variant {
            TokenVariant::Number(val) => match spec_statement(s, cursor1 as int) {
                Err(e) => Err(e),
                Ok((statement, cursor2)) => match spec_eat(s, cursor2 as int) {
                    Err(e) => Err(e),
                    Ok((token2, cursor3)) => if !(token2.variant is Semicolon) {
                        spec_expected(ErrorKind::ExpectedSemicolon, token2)
                    } else {
                        Ok(
                            (
                                ast::Line {
                                    num: ast::NumberToken {
                                        start: token0.start,
                                        end: token0.end,
                                        val,
                                    },
                                    stmt: statement,
                                    semi: spec_span(token2),
                                },
                                cursor3,
                            ),
                        )
                    },
                },
            },
            _ => spec_expected(ErrorKind::ExpectedNumber, token0),
        },
    }
}

#[via_fn]
proof fn spec_absnumber_dec(s: Seq<u8>, pos: int) {
    crate::lexer::lemma_eat_bounds_all(s);
}

#[via_fn]
proof fn spec_number_dec(s: Seq<u8>, pos: int) {
    crate::lexer::lemma_eat_bounds_all(s);
}

#[via_fn]
proof fn spec_boolean_dec(s: Seq<u8>, pos: int) {
    crate::lexer::lemma_eat_bounds_all(s);
}

#[via_fn]
proof fn spec_string_dec(s: Seq<u8>, pos: int) {
    crate::lexer::lemma_eat_bounds_all(s);
}

#[via_fn]
proof fn spec_lineops_dec(s: Seq<u8>, pos: int) {
    crate::lexer::lemma_eat_bounds_all(s);
}

#[via_fn]
proof fn spec_statement_dec(s: Seq<u8>, pos: int) {
    crate::lexer::lemma_eat_bounds_all(s);
}

#[via_fn]
proof fn spec_line_dec(s: Seq<u8>, pos: int) {
    crate::lexer::lemma_eat_bounds_all(s);
}

/// `absnumber`: a numeral literal, `N ( number )`, or `read ( )`.
pub fn eat_absnumber(input: &[u8], pos: usize) -> (r: Result<(ast::AbsNumber, usize), ParseError>)
    requires
        pos <= input@.len(),
    ensures
        match r {
            Ok((node, next)) => {
                &&& ast::wf_absnum(input@, node)
                &&& ast::absnum_start(node) == scan_end(input@, pos as int, ByteClass::Ws)
                &&& pos <= ast::absnum_start(node)
                &&& ast::absnum_end(node) == next
                &&& pos < next <= input@.len()
            },
            Err(e) => e.start <= e.end <= input@.len(),
        },
        r == spec_absnumber(input@, pos as int),
    decreases input@.len() - pos, 0int,
{
    proof {
        vstd::slice::axiom_spec_len::<u8>(input);
    }
    proof {
        lemma_eat_bounds(input@, pos as int);
    }
    let (token0, cursor1) = match crate::lexer::eat(input, pos) {
        Ok(t) => t,
        Err(e) => {
            return Err(e);
        },
    };
    proof {
        lemma_eat_at_start(input@, pos as int);
    }
    match token0.variant {
        TokenVariant::Number(val) => {
            let numbertok = ast::NumberToken { start: token0.start, end: token0.end, val };
            Ok((ast::AbsNumber::Num(numbertok), cursor1))
        },
        TokenVariant::N => {
            let keywordtok = ast::TokenSpan { start: token0.start, end: token0.end };
            proof {
                lemma_eat_bounds(input@, cursor1 as int);
            }
            let (token1, cursor2) = match crate::lexer::eat(input, cursor1) {
                Ok(t) => t,
                Err(e) => {
                    return Err(e);
                },
            };
            if !matches!(token1.variant, TokenVariant::LeftParens) {
                return Err(
                    ParseError {
                        kind: ErrorKind::ExpectedLeftParens,
                        start: token1.start,
                        end: token1.end,
                    },
                );
            }
            proof {
                lemma_eat_at_start(input@, cursor1 as int);
            }
            let lparenstok = ast::TokenSpan { start: token1.start, end: token1.end };
            let (number, cursor3) = match eat_number(input, cursor2) {
                Ok(t) => t,
                Err(e) => {
                    return Err(e);
                },
            };
            proof {
                lemma_eat_bounds(input@, cursor3 as int);
            }
            let (token3, cursor4) = match crate::lexer::eat(input, cursor3) {
                Ok(t) => t,
                Err(e) => {
                    return Err(e);
                },
            };
            if !matches!(token3.variant, TokenVariant::RightParens) {
                return Err(
                    ParseError {
                        kind: ErrorKind::ExpectedRightParens,
                        start: token3.start,
                        end: token3.end,
                    },
                );
            }
            proof {
                lemma_eat_at_start(input@, cursor3 as int);
            }
            let rparenstok = ast::TokenSpan { start: token3.start, end: token3.end };
            let n = ast::NGroup {
                keyword: keywordtok,
                lparen: lparenstok,
                num: number,
                rparen: rparenstok,
            };
            Ok((ast::AbsNumber::NCall(Box::new(n)), cursor4))
        },
        TokenVariant::Read => {
            let keywordtok = ast::TokenSpan { start: token0.start, end: token0.end };
            proof {
                lemma_eat_bounds(input@, cursor1 as int);
            }
            let (token1, cursor2) = match crate::lexer::eat(input, cursor1) {
                Ok(t) => t,
                Err(e) => {
                    return Err(e);
                },
            };
            if !matches!(token1.variant, TokenVariant::LeftParens) {
                return Err(
                    ParseError {
                        kind: ErrorKind::ExpectedLeftParens,
                        start: token1.start,
                        end: token1.end,
                    },
                );
            }
            proof {
                lemma_eat_at_start(input@, cursor1 as int);
            }
            let lparenstok = ast::TokenSpan { start: token1.start, end: token1.end };
            proof {
                lemma_eat_bounds(input@, cursor2 as int);
            }
            let (token2, cursor3) = match crate::lexer::eat(input, cursor2) {
                Ok(t) => t,
                Err(e) => {
                    return Err(e);
                },
            };
            if !matches!(token2.variant, TokenVariant::RightParens) {
                return Err(
                    ParseError {
                        kind: ErrorKind::ExpectedRightParens,
                        start: token2.start,
                        end: token2.end,
                    },
                );
            }
            proof {
                lemma_eat_at_start(input@, cursor2 as int);
            }
            let rparenstok = ast::TokenSpan { start: token2.start, end: token2.end };
            let read = ast::ReadGroup {
                keyword: keywordtok,
                lparen: lparenstok,
                rparen: rparenstok,
            };
            Ok((ast::AbsNumber::ReadCall(read), cursor3))
        },
        _ => Err(
            ParseError { kind: ErrorKind::ExpectedNumber, start: token0.start, end: token0.end },
        ),
    }
}

/// `number`: a primary — an absolute number, a unary `+`/`-`, a
/// parenthesized number, or a string coerced to a number — then, if a
/// binary operator follows, a whole `number` as its right-hand side.
pub fn eat_number(input: &[u8], pos: usize) -> (r: Result<(ast::Number, usize), ParseError>)
    requires
        pos <= input@.len(),
    ensures
        match r {
            Ok((node, next)) => {
                &&& ast::wf_num(input@, node)
                &&& ast::num_start(node) == scan_end(input@, pos as int, ByteClass::Ws)
                &&& pos <= ast::num_start(node)
                &&& ast::num_end(node) == next
                &&& pos < next <= input@.len()
                // the number could not have gone on: no binary operator
                // stands at `next`
                &&& match spec_eat(input@, next as int) {
                    Ok((t2, _)) => !(t2.variant is Plus || t2.variant is Minus
                        || t2.variant is MathOp),
                    Err(_) => false,
                }
            },
            Err(e) => e.start <= e.end <= input@.len(),
        },
        r == spec_number(input@, pos as int),
    decreases input@.len() - pos, rank_number(input@, pos as int),
{
    proof {
        vstd::slice::axiom_spec_len::<u8>(input);
    }
    proof {
        lemma_eat_bounds(input@, pos as int);
    }
    let (token0, cursor1) = match crate::lexer::eat(input, pos) {
        Ok(t) => t,
        Err(e) => {
            return Err(e);
        },
    };
    let number1: ast::Number;
    let cursorlast: usize;
    match token0.variant {
        TokenVariant::Number(_) | TokenVariant::N | TokenVariant::Read => {
            let (absnum, c) = match eat_absnumber(input, pos) {
                Ok(t) => t,
                Err(e) => {
                    return Err(e);
                },
            };
            let absolutenumber = ast::AbsoluteNumber { num: absnum };
            cursorlast = c;
            number1 = ast::Number::Absolute(Box::new(absolutenumber));
        },
        TokenVariant::Plus | TokenVariant::Minus => {
            proof {
                lemma_eat_at_start(input@, pos as int);
            }
            let optok = ast::TokenSpan { start: token0.start, end: token0.end };
            let unmathop = match token0.variant {
                TokenVariant::Plus => ast::UnMathOp::Plus(optok),
                _ => ast::UnMathOp::Minus(optok),
            };
            let (number, c) = match eat_number(input, cursor1) {
                Ok(t) => t,
                Err(e) => {
                    return Err(e);
                },
            };
            let unopnum = ast::UnOpNumber { op: unmathop, num: number };
            cursorlast = c;
            number1 = ast::Number::UnOp(Box::new(unopnum));
        },
        TokenVariant::LeftParens => {
            proof {
                lemma_eat_at_start(input@, pos as int);
            }
            let lparenstok = ast::TokenSpan { start: token0.start, end: token0.end };
            let (number, cursor2) = match eat_number(input, cursor1) {
                Ok(t) => t,
                Err(e) => {
                    return Err(e);
                },
            };
            proof {
                lemma_eat_bounds(input@, cursor2 as int);
            }
            let (token2, cursor3) = match crate::lexer::eat(input, cursor2) {
                Ok(t) => t,
                Err(e) => {
                    return Err(e);
                },
            };
            if !matches!(token2.variant, TokenVariant::RightParens) {
                return Err(
                    ParseError {
                        kind: ErrorKind::ExpectedRightParens,
                        start: token2.start,
                        end: token2.end,
                    },
                );
            }
            proof {
                lemma_eat_at_start(input@, cursor2 as int);
            }
            let rparenstok = ast::TokenSpan { start: token2.start, end: token2.end };
            let parensnum = ast::ParensNumber {
                lparen: lparenstok,
                num: number,
                rparen: rparenstok,
            };
            cursorlast = cursor3;
            number1 = ast::Number::Parens(Box::new(parensnum));
        },
        TokenVariant::String | TokenVariant::U => {
            let (string, c) = match eat_string(input, pos) {
                Ok(t) => t,
                Err(e) => {
                    return Err(e);
                },
            };
            let stringtonum = ast::StringToNum { string };
            cursorlast = c;
            number1 = ast::Number::FromString(Box::new(stringtonum));
        },
        _ => {
            return Err(
                ParseError {
                    kind: ErrorKind::ExpectedNumber,
                    start: token0.start,
                    end: token0.end,
                },
            );
        },
    }
    proof {
        assert(ast::wf_num(input@, number1));
        assert(ast::num_start(number1) == scan_end(input@, pos as int, ByteClass::Ws));
        assert(ast::num_end(number1) == cursorlast);
        lemma_eat_bounds(input@, cursorlast as int);
    }
    let (tokenlast, cursorlastplus1) = match crate::lexer::eat(input, cursorlast) {
        Ok(t) => t,
        Err(e) => {
            return Err(e);
        },
    };
    match tokenlast.variant {
        TokenVariant::Plus | TokenVariant::Minus | TokenVariant::MathOp => {
            proof {
                lemma_eat_at_start(input@, cursorlast as int);
            }
            let optok = ast::TokenSpan { start: tokenlast.start, end: tokenlast.end };
            let binmathop = match tokenlast.variant {
                TokenVariant::Plus => ast::BinMathOp::Plus(optok),
                TokenVariant::Minus => ast::BinMathOp::Minus(optok),
                _ => ast::BinMathOp::MathOp(optok),
            };
            let (number2, cursorlastplus2) = match eat_number(input, cursorlastplus1) {
                Ok(t) => t,
                Err(e) => {
                    return Err(e);
                },
            };
            let binopnum = ast::BinOpNumber { num1: number1, op: binmathop, num2: number2 };
            Ok((ast::Number::BinOp(Box::new(binopnum)), cursorlastplus2))
        },
        _ => Ok((number1, cursorlast)),
    }
}

/// `boolean`: a primary — a unary `!`, a parenthesized boolean, a numeric
/// comparison, or a lone number coerced to a boolean — then, if `&&` or
/// `||` follows, a whole `boolean` as its right-hand side.
pub fn eat_boolean(input: &[u8], pos: usize) -> (r: Result<(ast::Boolean, usize), ParseError>)
    requires
        pos <= input@.len(),
    ensures
        match r {
            Ok((node, next)) => {
                &&& ast::wf_bool(input@, node)
                &&& ast::bool_start(node) == scan_end(input@, pos as int, ByteClass::Ws)
                &&& pos <= ast::bool_start(node)
                &&& ast::bool_end(node) == next
                &&& pos < next <= input@.len()
                // the boolean could not have gone on: no `&&` or `||`
                // stands at `next`
                &&& match spec_eat(input@, next as int) {
                    Ok((t2, _)) => !(t2.variant is BinBoolOp),
                    Err(_) => false,
                }
            },
            Err(e) => e.start <= e.end <= input@.len(),
        },
        r == spec_boolean(input@, pos as int),
    decreases input@.len() - pos, 3int,
{
    proof {
        vstd::slice::axiom_spec_len::<u8>(input);
    }
    proof {
        lemma_eat_bounds(input@, pos as int);
    }
    let (token0, cursor1) = match crate::lexer::eat(input, pos) {
        Ok(t) => t,
        Err(e) => {
            return Err(e);
        },
    };
    let boolean1: ast::Boolean;
    let cursorlast: usize;
    match token0.variant {
        TokenVariant::UnBoolOp => {
            proof {
                lemma_eat_at_start(input@, pos as int);
            }
            let unbooloptok = ast::TokenSpan { start: token0.start, end: token0.end };
            let (boolean, c) = match eat_boolean(input, cursor1) {
                Ok(t) => t,
                Err(e) => {
                    return Err(e);
                },
            };
            let unopboolean = ast::UnOpBoolean { op: unbooloptok, boolean };
            cursorlast = c;
            boolean1 = ast::Boolean::UnOp(Box::new(unopboolean));
        },
        TokenVariant::LeftParens => {
            proof {
                lemma_eat_at_start(input@, pos as int);
            }
            let lparenstok = ast::TokenSpan { start: token0.start, end: token0.end };
            let (boolean, cursor2) = match eat_boolean(input, cursor1) {
                Ok(t) => t,
                Err(e) => {
                    return Err(e);
                },
            };
            proof {
                lemma_eat_bounds(input@, cursor2 as int);
            }
            let (token2, cursor3) = match crate::lexer::eat(input, cursor2) {
                Ok(t) => t,
                Err(e) => {
                    return Err(e);
                },
            };
            if !matches!(token2.variant, TokenVariant::RightParens) {
                return Err(
                    ParseError {
                        kind: ErrorKind::ExpectedRightParens,
                        start: token2.start,
                        end: token2.end,
                    },
                );
            }
            proof {
                lemma_eat_at_start(input@, cursor2 as int);
            }
            let rparenstok = ast::TokenSpan { start: token2.start, end: token2.end };
            let parensbool = ast::ParensBoolean {
                lparen: lparenstok,
                boolean,
                rparen: rparenstok,
            };
            cursorlast = cursor3;
            boolean1 = ast::Boolean::Parens(Box::new(parensbool));
        },
        TokenVariant::Number(_) | TokenVariant::N | TokenVariant::Read | TokenVariant::Plus
            | TokenVariant::Minus | TokenVariant::String | TokenVariant::U => {
            let (number1, cursor1b) = match eat_number(input, pos) {
                Ok(t) => t,
                Err(e) => {
                    return Err(e);
                },
            };
            proof {
                lemma_eat_bounds(input@, cursor1b as int);
            }
            let (token1, cursor2) = match crate::lexer::eat(input, cursor1b) {
                Ok(t) => t,
                Err(e) => {
                    return Err(e);
                },
            };
            match token1.variant {
                TokenVariant::BinNumBoolOp => {
                    proof {
                        lemma_eat_at_start(input@, cursor1b as int);
                    }
                    let binnumbooloptok = ast::TokenSpan { start: token1.start, end: token1.end };
                    let (number2, cursor3) = match eat_number(input, cursor2) {
                        Ok(t) => t,
                        Err(e) => {
                            return Err(e);
                        },
                    };
                    let binopnumboolean = ast::BinOpNumBoolean {
                        num1: number1,
                        op: binnumbooloptok,
                        num2: number2,
                    };
                    cursorlast = cursor3;
                    boolean1 = ast::Boolean::NumCompare(Box::new(binopnumboolean));
                },
                _ => {
                    let numtobool = ast::NumToBool { num: number1 };
                    cursorlast = cursor1b;
                    boolean1 = ast::Boolean::FromNumber(Box::new(numtobool));
                },
            }
        },
        _ => {
            return Err(
                ParseError {
                    kind: ErrorKind::ExpectedBoolean,
                    start: token0.start,
                    end: token0.end,
                },
            );
        },
    }
    proof {
        assert(ast::wf_bool(input@, boolean1));
        assert(ast::bool_start(boolean1) == scan_end(input@, pos as int, ByteClass::Ws));
        assert(ast::bool_end(boolean1) == cursorlast);
        lemma_eat_bounds(input@, cursorlast as int);
    }
    let (tokenlast, cursorlastplus1) = match crate::lexer::eat(input, cursorlast) {
        Ok(t) => t,
        Err(e) => {
            return Err(e);
        },
    };
    match tokenlast.variant {
        TokenVariant::BinBoolOp => {
            proof {
                lemma_eat_at_start(input@, cursorlast as int);
            }
            let binbooloptok = ast::TokenSpan { start: tokenlast.start, end: tokenlast.end };
            let (boolean2, cursorlastplus2) = match eat_boolean(input, cursorlastplus1) {
                Ok(t) => t,
                Err(e) => {
                    return Err(e);
                },
            };
            let binopboolean = ast::BinOpBoolean {
                boolean1,
                op: binbooloptok,
                boolean2,
            };
            Ok((ast::Boolean::BinOp(Box::new(binopboolean)), cursorlastplus2))
        },
        _ => Ok((boolean1, cursorlast)),
    }
}

/// `string`: a primary — a string literal, `U ( absnum )`, or a number
/// coerced to a string — then, if `+` follows, a whole `string`
/// concatenated as its right-hand side.
pub fn eat_string(input: &[u8], pos: usize) -> (r: Result<(ast::Str, usize), ParseError>)
    requires
        pos <= input@.len(),
    ensures
        match r {
            Ok((node, next)) => {
                &&& ast::wf_str(input@, node)
                &&& ast::str_start(node) == scan_end(input@, pos as int, ByteClass::Ws)
                &&& pos <= ast::str_start(node)
                &&& ast::str_end(node) == next
                &&& pos < next <= input@.len()
                // the string could not have gone on: no `+` stands at
                // `next`
                &&& match spec_eat(input@, next as int) {
                    Ok((t2, _)) => !(t2.variant is Plus),
                    Err(_) => false,
                }
            },
            Err(e) => e.start <= e.end <= input@.len(),
        },
        r == spec_string(input@, pos as int),
    decreases input@.len() - pos, rank_string(input@, pos as int),
{
    proof {
        vstd::slice::axiom_spec_len::<u8>(input);
    }
    proof {
        lemma_eat_bounds(input@, pos as int);
    }
    let (token0, cursor1) = match crate::lexer::eat(input, pos) {
        Ok(t) => t,
        Err(e) => {
            return Err(e);
        },
    };
    let string1: ast::Str;
    let cursorlast: usize;
    match token0.variant {
        TokenVariant::String => {
            proof {
                lemma_eat_at_start(input@, pos as int);
            }
            let stringtoken = ast::TokenSpan { start: token0.start, end: token0.end };
            cursorlast = cursor1;
            string1 = ast::Str::Lit(stringtoken);
        },
        TokenVariant::U => {
            proof {
                lemma_eat_at_start(input@, pos as int);
            }
            let keywordtok = ast::TokenSpan { start: token0.start, end: token0.end };
            proof {
                lemma_eat_bounds(input@, cursor1 as int);
            }
            let (token1, cursor2) = match crate::lexer::eat(input, cursor1) {
                Ok(t) => t,
                Err(e) => {
                    return Err(e);
                },
            };
            if !matches!(token1.variant, TokenVariant::LeftParens) {
                return Err(
                    ParseError {
                        kind: ErrorKind::ExpectedLeftParens,
                        start: token1.start,
                        end: token1.end,
                    },
                );
            }
            proof {
                lemma_eat_at_start(input@, cursor1 as int);
            }
            let lparenstok = ast::TokenSpan { start: token1.start, end: token1.end };
            let (number, cursor3) = match eat_absnumber(input, cursor2) {
                Ok(t) => t,
                Err(e) => {
                    return Err(e);
                },
            };
            proof {
                lemma_eat_bounds(input@, cursor3 as int);
            }
            let (token3, cursor4) = match crate::lexer::eat(input, cursor3) {
                Ok(t) => t,
                Err(e) => {
                    return Err(e);
                },
            };
            if !matches!(token3.variant, TokenVariant::RightParens) {
                return Err(
                    ParseError {
                        kind: ErrorKind::ExpectedRightParens,
                        start: token3.start,
                        end: token3.end,
                    },
                );
            }
            proof {
                lemma_eat_at_start(input@, cursor3 as int);
            }
            let rparenstok = ast::TokenSpan { start: token3.start, end: token3.end };
            let u = ast::UGroup {
                keyword: keywordtok,
                lparen: lparenstok,
                num: number,
                rparen: rparenstok,
            };
            cursorlast = cursor4;
            string1 = ast::Str::UCall(Box::new(u));
        },
        TokenVariant::Number(_) | TokenVariant::N | TokenVariant::Read | TokenVariant::Plus
            | TokenVariant::Minus | TokenVariant::LeftParens => {
            let (number, c) = match eat_number(input, pos) {
                Ok(t) => t,
                Err(e) => {
                    return Err(e);
                },
            };
            let numtostring = ast::NumToString { num: number };
            cursorlast = c;
            string1 = ast::Str::FromNumber(Box::new(numtostring));
        },
        _ => {
            return Err(
                ParseError {
                    kind: ErrorKind::ExpectedString,
                    start: token0.start,
                    end: token0.end,
                },
            );
        },
    }
    proof {
        assert(ast::wf_str(input@, string1));
        assert(ast::str_start(string1) == scan_end(input@, pos as int, ByteClass::Ws));
        assert(ast::str_end(string1) == cursorlast);
        lemma_eat_bounds(input@, cursorlast as int);
    }
    let (tokenlast, cursorlastplus1) = match crate::lexer::eat(input, cursorlast) {
        Ok(t) => t,
        Err(e) => {
            return Err(e);
        },
    };
    match tokenlast.variant {
        TokenVariant::Plus => {
            proof {
                lemma_eat_at_start(input@, cursorlast as int);
            }
            let plustoken = ast::TokenSpan { start: tokenlast.start, end: tokenlast.end };
            let (string2, cursorlastplus2) = match eat_string(input, cursorlastplus1) {
                Ok(t) => t,
                Err(e) => {
                    return Err(e);
                },
            };
            let concat = ast::Concat { str1: string1, op: plustoken, str2: string2 };
            Ok((ast::Str::Concat(Box::new(concat)), cursorlastplus2))
        },
        _ => Ok((string1, cursorlast)),
    }
}

/// `lineops`: a non-empty, order-preserving list of line operations —
/// a number, optionally `# number` for a counted operation, then
/// optionally `,` and the rest of the list.
pub fn eat_lineops(input: &[u8], pos: usize) -> (r: Result<(ast::LineOps, usize), ParseError>)
    requires
        pos <= input@.len(),
    ensures
        match r {
            Ok((node, next)) => {
                &&& ast::wf_lineops(input@, node)
                &&& ast::lineops_start(node) == scan_end(input@, pos as int, ByteClass::Ws)
                &&& pos <= ast::lineops_start(node)
                &&& ast::lineops_end(node) == next
                &&& pos < next <= input@.len()
                // the list could not have gone on: no `,` stands at `next`
                &&& match spec_eat(input@, next as int) {
                    Ok((t2, _)) => !(t2.variant is Comma),
                    Err(_) => false,
                }
            },
            Err(e) => e.start <= e.end <= input@.len(),
        },
        r == spec_lineops(input@, pos as int),
    decreases input@.len() - pos, 3int,
{
    proof {
        vstd::slice::axiom_spec_len::<u8>(input);
    }
    let (number, cursor1) = match eat_number(input, pos) {
        Ok(t) => t,
        Err(e) => {
            return Err(e);
        },
    };
    proof {
        lemma_eat_bounds(input@, cursor1 as int);
    }
    let (token1, cursor2) = match crate::lexer::eat(input, cursor1) {
        Ok(t) => t,
        Err(e) => {
            return Err(e);
        },
    };
    match token1.variant {
        TokenVariant::Comma => {
            proof {
                lemma_eat_at_start(input@, cursor1 as int);
            }
            let numtolineop = ast::NumToLineOp { num: number };
            let lineop = ast::LineOp {
                slo: ast::SingleLineOp::FromNumber(Box::new(numtolineop)),
            };
            let commatok = ast::TokenSpan { start: token1.start, end: token1.end };
            let (lineops, cursor3) = match eat_lineops(input, cursor2) {
                Ok(t) => t,
                Err(e) => {
                    return Err(e);
                },
            };
            let lineoplist = ast::LineOpList { lineop, comma: commatok, list: lineops };
            Ok((ast::LineOps::List(Box::new(lineoplist)), cursor3))
        },
        TokenVariant::Sharp => {
            proof {
                lemma_eat_at_start(input@, cursor1 as int);
            }
            let sharptok = ast::TokenSpan { start: token1.start, end: token1.end };
            let (count, cursor3) = match eat_number(input, cursor2) {
                Ok(t) => t,
                Err(e) => {
                    return Err(e);
                },
            };
            let countlineop = ast::CountLineOp { line: number, sharp: sharptok, count };
            let lineop = ast::LineOp {
                slo: ast::SingleLineOp::Count(Box::new(countlineop)),
            };
            proof {
                lemma_eat_bounds(input@, cursor3 as int);
            }
            let (token3, cursor4) = match crate::lexer::eat(input, cursor3) {
                Ok(t) => t,
                Err(e) => {
                    return Err(e);
                },
            };
            match token3.variant {
                TokenVariant::Comma => {
                    proof {
                        lemma_eat_at_start(input@, cursor3 as int);
                    }
                    let commatok = ast::TokenSpan { start: token3.start, end: token3.end };
                    let (lineops, cursor5) = match eat_lineops(input, cursor4) {
                        Ok(t) => t,
                        Err(e) => {
                            return Err(e);
                        },
                    };
                    let lineoplist = ast::LineOpList { lineop, comma: commatok, list: lineops };
                    Ok((ast::LineOps::List(Box::new(lineoplist)), cursor5))
                },
                _ => Ok((ast::LineOps::Single(Box::new(lineop)), cursor3)),
            }
        },
        _ => {
            let numtolineop = ast::NumToLineOp { num: number };
            let lineop = ast::LineOp {
                slo: ast::SingleLineOp::FromNumber(Box::new(numtolineop)),
            };
            Ok((ast::LineOps::Single(Box::new(lineop)), cursor1))
        },
    }
}

/// `statement`: a control wrapper `again`/`defer`/`forget` around a
/// boolean and an inner statement, a `print` of a string, or a list of
/// line operations.
#[verifier::rlimit(30)]
pub fn eat_statement(input: &[u8], pos: usize) -> (r: Result<(ast::Statement, usize), ParseError>)
    requires
        pos <= input@.len(),
    ensures
        match r {
            Ok((node, next)) => {
                &&& ast::wf_stmt(input@, node)
                &&& ast::stmt_start(node) == scan_end(input@, pos as int, ByteClass::Ws)
                &&& pos <= ast::stmt_start(node)
                &&& ast::stmt_end(node) == next
                &&& pos < next <= input@.len()
            },
            Err(e) => e.start <= e.end <= input@.len(),
        },
        r == spec_statement(input@, pos as int),
    decreases input@.len() - pos, 4int,
{
    proof {
        vstd::slice::axiom_spec_len::<u8>(input);
    }
    proof {
        lemma_eat_bounds(input@, pos as int);
    }
    let (token0, cursor1) = match crate::lexer::eat(input, pos) {
        Ok(t) => t,
        Err(e) => {
            return Err(e);
        },
    };
    match token0.variant {
        TokenVariant::Again | TokenVariant::Defer | TokenVariant::Forget => {
            proof {
                lemma_eat_at_start(input@, pos as int);
            }
            let keywordtok = ast::TokenSpan { start: token0.start, end: token0.end };
            proof {
                lemma_eat_bounds(input@, cursor1 as int);
            }
            let (token1, cursor2) = match crate::lexer::eat(input, cursor1) {
                Ok(t) => t,
                Err(e) => {
                    return Err(e);
                },
            };
            if !matches!(token1.variant, TokenVariant::LeftParens) {
                return Err(
                    ParseError {
                        kind: ErrorKind::ExpectedLeftParens,
                        start: token1.start,
                        end: token1.end,
                    },
                );
            }
            proof {
                lemma_eat_at_start(input@, cursor1 as int);
            }
            let lparenstok = ast::TokenSpan { start: token1.start, end: token1.end };
            let (boolean, cursor3) = match eat_boolean(input, cursor2) {
                Ok(t) => t,
                Err(e) => {
                    return Err(e);
                },
            };
            proof {
                lemma_eat_bounds(input@, cursor3 as int);
            }
            let (token3, cursor4) = match crate::lexer::eat(input, cursor3) {
                Ok(t) => t,
                Err(e) => {
                    return Err(e);
                },
            };
            if !matches!(token3.variant, TokenVariant::RightParens) {
                return Err(
                    ParseError {
                        kind: ErrorKind::ExpectedRightParens,
                        start: token3.start,
                        end: token3.end,
                    },
                );
            }
            proof {
                lemma_eat_at_start(input@, cursor3 as int);
            }
            let rparenstok = ast::TokenSpan { start: token3.start, end: token3.end };
            let (statement, cursor5) = match eat_statement(input, cursor4) {
                Ok(t) => t,
                Err(e) => {
                    return Err(e);
                },
            };
            match token0.variant {
                TokenVariant::Again => {
                    let again = ast::AgainStmt {
                        keyword: keywordtok,
                        lparen: lparenstok,
                        boolean,
                        rparen: rparenstok,
                        statement,
                    };
                    Ok((ast::Statement::Again(Box::new(again)), cursor5))
                },
                TokenVariant::Defer => {
                    let defer = ast::DeferStmt {
                        keyword: keywordtok,
                        lparen: lparenstok,
                        boolean,
                        rparen: rparenstok,
                        statement,
                    };
                    Ok((ast::Statement::Defer(Box::new(defer)), cursor5))
                },
                _ => {
                    let forget = ast::ForgetStmt {
                        keyword: keywordtok,
                        lparen: lparenstok,
                        boolean,
                        rparen: rparenstok,
                        statement,
                    };
                    Ok((ast::Statement::Forget(Box::new(forget)), cursor5))
                },
            }
        },
        TokenVariant::Print => {
            proof {
                lemma_eat_at_start(input@, pos as int);
            }
            let keywordtok = ast::TokenSpan { start: token0.start, end: token0.end };
            proof {
                lemma_eat_bounds(input@, cursor1 as int);
            }
            let (token1, cursor2) = match crate::lexer::eat(input, cursor1) {
                Ok(t) => t,
                Err(e) => {
                    return Err(e);
                },
            };
            if !matches!(token1.variant, TokenVariant::LeftParens) {
                return Err(
                    ParseError {
                        kind: ErrorKind::ExpectedLeftParens,
                        start: token1.start,
                        end: token1.end,
                    },
                );
            }
            proof {
                lemma_eat_at_start(input@, cursor1 as int);
            }
            let lparenstok = ast::TokenSpan { start: token1.start, end: token1.end };
            let (string, cursor3) = match eat_string(input, cursor2) {
                Ok(t) => t,
                Err(e) => {
                    return Err(e);
                },
            };
            proof {
                lemma_eat_bounds(input@, cursor3 as int);
            }
            let (token3, cursor4) = match crate::lexer::eat(input, cursor3) {
                Ok(t) => t,
                Err(e) => {
                    return Err(e);
                },
            };
            if !matches!(token3.variant, TokenVariant::RightParens) {
                return Err(
                    ParseError {
                        kind: ErrorKind::ExpectedRightParens,
                        start: token3.start,
                        end: token3.end,
                    },
                );
            }
            proof {
                lemma_eat_at_start(input@, cursor3 as int);
            }
            let rparenstok = ast::TokenSpan { start: token3.start, end: token3.end };
            let print = ast::PrintStmt {
                keyword: keywordtok,
                lparen: lparenstok,
                string,
                rparen: rparenstok,
            };
            Ok((ast::Statement::Print(Box::new(print)), cursor4))
        },
        TokenVariant::Number(_) | TokenVariant::N | TokenVariant::Read | TokenVariant::Plus
            | TokenVariant::Minus | TokenVariant::LeftParens | TokenVariant::String
            | TokenVariant::U => {
            let (lineops, c) = match eat_lineops(input, pos) {
                Ok(t) => t,
                Err(e) => {
                    return Err(e);
                },
            };
            let lineoperations = ast::LineOperations { lineops };
            Ok((ast::Statement::Ops(Box::new(lineoperations)), c))
        },
        _ => Err(
            ParseError {
                kind: ErrorKind::ExpectedStatement,
                start: token0.start,
                end: token0.end,
            },
        ),
    }
}

/// `line`: a numeral line number, one statement, and a required `;`.
pub fn eat_line(input: &[u8], pos: usize) -> (r: Result<(ast::Line, usize), ParseError>)
    requires
        pos <= input@.len(),
    ensures
        match r {
            Ok((node, next)) => {
                &&& ast::wf_line(input@, node)
                &&& ast::line_start(node) == scan_end(input@, pos as int, ByteClass::Ws)
                &&& pos <= ast::line_start(node)
                &&& ast::line_end(node) == next
                &&& pos < next <= input@.len()
            },
            Err(e) => e.start <= e.end <= input@.len(),
        },
        r == spec_line(input@, pos as int),
    decreases input@.len() - pos, 5int,
{
    proof {
        vstd::slice::axiom_spec_len::<u8>(input);
    }
    proof {
        lemma_eat_bounds(input@, pos as int);
    }
    let (token0, cursor1) = match crate::lexer::eat(input, pos) {
        Ok(t) => t,
        Err(e) => {
            return Err(e);
        },
    };
    let lineno = match token0.variant {
        TokenVariant::Number(val) => {
            proof {
                lemma_eat_at_start(input@, pos as int);
            }
            ast::NumberToken { start: token0.start, end: token0.end, val }
        },
        _ => {
            return Err(
                ParseError {
                    kind: ErrorKind::ExpectedNumber,
                    start: token0.start,
                    end: token0.end,
                },
            );
        },
    };
    let (statement, cursor2) = match eat_statement(input, cursor1) {
        Ok(t) => t,
        Err(e) => {
            return Err(e);
        },
    };
    proof {
        lemma_eat_bounds(input@, cursor2 as int);
    }
    let (token2, cursor3) = match crate::lexer::eat(input, cursor2) {
        Ok(t) => t,
        Err(e) => {
            return Err(e);
        },
    };
    if !matches!(token2.variant, TokenVariant::Semicolon) {
        return Err(
            ParseError {
                kind: ErrorKind::ExpectedSemicolon,
                start: token2.start,
                end: token2.end,
            },
        );
    }
    proof {
        lemma_eat_at_start(input@, cursor2 as int);
    }
    let semicolontok = ast::TokenSpan { start: token2.start, end: token2.end };
    Ok((ast::Line { num: lineno, stmt: statement, semi: semicolontok }, cursor3))
}

} // verus!
