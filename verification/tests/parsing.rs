use whenever_parser::ast;
use whenever_parser::lexer::ErrorKind;
use whenever_parser::parse_line;
use whenever_parser::parser::eat_absnumber;

#[test]
fn absnumber_check() {
    let input = "123abc";

    match eat_absnumber(input.as_bytes(), 0) {
        Ok((root, cursor)) => {
            let span = ast::span_absnum(&root);
            assert_eq!(span, (0, 3));
            assert_eq!(cursor, 3);
        }
        Err(e) => panic!("{}: {}..{}", e.message(), e.start, e.end),
    }
}

#[test]
fn smoke_single_line() {
    // First line of fibo.wnvr
    let input = "1 again (1) defer (3 || N(1)<=N(2) || N(7)>99) 2#N(1),3,7;";

    parse_line(input.as_bytes()).unwrap();
}

#[test]
fn nested_control_statement_shape() {
    // The same line parses into Again wrapping Defer wrapping the list of
    // line operations `2#N(1),3,7`, with nothing left over.
    let input = "1 again (1) defer (3 || N(1)<=N(2) || N(7)>99) 2#N(1),3,7;";
    let line = parse_line(input.as_bytes()).unwrap();

    assert_eq!(line.num.val, 1);
    let again = match &line.stmt {
        ast::Statement::Again(a) => a,
        _ => panic!("expected an again statement"),
    };
    match &again.boolean {
        ast::Boolean::FromNumber(f) => match &f.num {
            ast::Number::Absolute(w) => match &w.num {
                ast::AbsNumber::Num(t) => assert_eq!(t.val, 1),
                _ => panic!("expected a numeral literal condition"),
            },
            _ => panic!("expected an absolute number condition"),
        },
        _ => panic!("expected a coerced numeral condition"),
    }
    let defer = match &again.statement {
        ast::Statement::Defer(d) => d,
        _ => panic!("expected a defer statement inside again"),
    };
    let ops = match &defer.statement {
        ast::Statement::Ops(o) => o,
        _ => panic!("expected line operations inside defer"),
    };
    // 2#N(1), then 3, then 7: a list of three operations, the first counted.
    let first = match &ops.lineops {
        ast::LineOps::List(l) => l,
        _ => panic!("expected a list of line operations"),
    };
    assert!(matches!(first.lineop.slo, ast::SingleLineOp::Count(_)));
    let second = match &first.list {
        ast::LineOps::List(l) => l,
        _ => panic!("expected a second list entry"),
    };
    assert!(matches!(second.lineop.slo, ast::SingleLineOp::FromNumber(_)));
    assert!(matches!(second.list, ast::LineOps::Single(_)));
    // The root spans the whole input.
    assert_eq!(ast::span_line(&line), (0, input.len()));
}

#[test]
fn root_span_is_trimmed_input() {
    let input = "  1 print(\"hi\") ;  \t";
    let line = parse_line(input.as_bytes()).unwrap();
    let (start, end) = ast::span_line(&line);
    assert_eq!(&input[start..end], input.trim());
}

#[test]
fn malformed_inputs() {
    // A complete statement without the closing `;`.
    let err = parse_line("1 2 3".as_bytes()).unwrap_err();
    assert_eq!(err.kind, ErrorKind::ExpectedSemicolon);
    assert!(!err.is_lex_error());

    // An unterminated string literal.
    let err = parse_line("\"abcd".as_bytes()).unwrap_err();
    assert_eq!(err.kind, ErrorKind::UnterminatedString);
    assert!(err.is_lex_error());

    // Trailing garbage after a complete line.
    let err = parse_line("1 1; x".as_bytes()).unwrap_err();
    assert_eq!(err.kind, ErrorKind::ExpectedEndOfInput);
    assert_eq!(err.message(), "Expected end of input");
}

#[test]
fn error_kind_for_each_production() {
    let err = parse_line(";".as_bytes()).unwrap_err();
    assert_eq!(err.kind, ErrorKind::ExpectedNumber);

    let err = parse_line("1 ;".as_bytes()).unwrap_err();
    assert_eq!(err.kind, ErrorKind::ExpectedStatement);

    let err = parse_line("1 again 1;".as_bytes()).unwrap_err();
    assert_eq!(err.kind, ErrorKind::ExpectedLeftParens);

    let err = parse_line("1 (1;".as_bytes()).unwrap_err();
    assert_eq!(err.kind, ErrorKind::ExpectedRightParens);

    let err = parse_line("1 again (;) 1;".as_bytes()).unwrap_err();
    assert_eq!(err.kind, ErrorKind::ExpectedBoolean);

    let err = parse_line("1 print(;);".as_bytes()).unwrap_err();
    assert_eq!(err.kind, ErrorKind::ExpectedString);

    let err = parse_line("1 089;".as_bytes()).unwrap_err();
    assert_eq!(err.kind, ErrorKind::InvalidDigit);
    assert_eq!((err.start, err.end), (3, 5));
}

#[test]
fn keyword_case_sensitivity() {
    // `Again` is an unknown token; `again` is accepted.
    let err = parse_line("1 Again (1) 2;".as_bytes()).unwrap_err();
    assert_eq!(err.kind, ErrorKind::UnknownToken);
    assert!(err.is_lex_error());

    parse_line("1 again (1) 2;".as_bytes()).unwrap();
}

#[test]
fn flat_right_associative_operators() {
    // `2+3*4` folds right-associatively at a single precedence level:
    // 2 + (3 * 4), not (2 + 3) then * 4 — and not multiplication first.
    let line = parse_line("9 2+3*4;".as_bytes()).unwrap();
    let ops = match &line.stmt {
        ast::Statement::Ops(o) => o,
        _ => panic!("expected line operations"),
    };
    let single = match &ops.lineops {
        ast::LineOps::Single(l) => l,
        _ => panic!("expected one line operation"),
    };
    let num = match &single.slo {
        ast::SingleLineOp::FromNumber(f) => &f.num,
        _ => panic!("expected a plain number operation"),
    };
    let top = match num {
        ast::Number::BinOp(b) => b,
        _ => panic!("expected a binary operation"),
    };
    assert!(matches!(top.op, ast::BinMathOp::Plus(_)));
    assert!(matches!(top.num1, ast::Number::Absolute(_)));
    let right = match &top.num2 {
        ast::Number::BinOp(b) => b,
        _ => panic!("expected a nested binary operation on the right"),
    };
    assert!(matches!(right.op, ast::BinMathOp::MathOp(_)));
}

#[test]
fn string_and_coercions_parse() {
    // read(), U(...), string concatenation, and the coercions they need.
    parse_line("1 print(U(read()) + \"s\");".as_bytes()).unwrap();
    parse_line("2 print(1 + 2);".as_bytes()).unwrap();
    parse_line("3 \"4\";".as_bytes()).unwrap();
    parse_line("4 -N(7)#+2;".as_bytes()).unwrap();
}
