use whenever_parser::lexer::{eat, Token, TokenVariant};

fn check_token(input: &str, want: TokenVariant, from: usize, at: usize) {
    let res = eat(input.as_bytes(), 0);
    match res {
        Ok((token, next)) => {
            assert_eq!(token.variant, want);
            assert_eq!(token.start, from);
            assert_eq!(token.end, at);
            assert_eq!(next, at);
        }
        Err(_) => panic!("Not OK"),
    }
}

#[test]
fn end_of_input_check() {
    check_token("", TokenVariant::EOI, 0, 0);
    check_token("    \t\n ", TokenVariant::EOI, 7, 7)
}

#[test]
fn plus_check() {
    check_token("+abc", TokenVariant::Plus, 0, 1)
}

#[test]
fn string_check() {
    // Actual bytes: "ab\"\\"de
    check_token("\"ab\\\"\\\\\"de", TokenVariant::String, 0, 8)
}

#[test]
fn skip_spaces() {
    check_token("       \t\n !", TokenVariant::UnBoolOp, 10, 11)
}

fn check_token_number(input: &str, val: u64, from: usize, at: usize) {
    let res = eat(input.as_bytes(), 0);
    match res {
        Ok((token, next)) => {
            assert_eq!(token.variant, TokenVariant::Number(val));
            assert_eq!(token.start, from);
            assert_eq!(token.end, at);
            assert_eq!(next, at);
        }
        Err(_) => panic!("Not OK"),
    }
}

#[test]
fn number_check() {
    check_token_number("42abc", 42, 0, 2);
    check_token_number("  1337", 1337, 2, 6);
    check_token_number("0", 0, 0, 1);
    check_token_number("0b", 0, 0, 1);
    check_token_number("0x", 0, 0, 1);
    check_token_number("00", 0, 0, 2);
    check_token_number("0a", 0, 0, 1);
    check_token_number("0b101010", 0b101010, 0, 8);
    check_token_number("0xdeadbeef", 0xdeadbeef, 0, 10);
    check_token_number("0XCaFe", 0xCAFE, 0, 6);
    check_token_number("0777", 0x1ff, 0, 4);
    check_token_number(" 42\u{1F4BB}", 42, 1, 3);
}

#[test]
fn keyword_check() {
    check_token("  again ", TokenVariant::Again, 2, 7);
    check_token("print()", TokenVariant::Print, 0, 5);
}

fn check_token_error(input: &str) {
    let res = eat(input.as_bytes(), 0);
    assert!(res.is_err());
    assert!(res.unwrap_err().is_lex_error());
}

#[test]
fn error_check() {
    check_token_error("\"abcd"); // End of input while in string
    check_token_error("089"); // Wrong digits for base
    check_token_error("Again"); // Wrong case keyword
    check_token_error("abcd"); // Unknown token
    check_token_error("\u{1F4BB}"); // Unknown non-ASCII token
}

#[test]
fn string_tokenization() {
    // First line of fibo.wnvr
    let line = "1 again (1) defer (3 || N(1)<=N(2) || N(7)>99) 2#N(1),3,7;";
    let bytes = line.as_bytes();

    let expected = vec![
        "1", "again", "(", "1", ")", "defer", "(", "3", "||", "N", "(", "1", ")", "<=", "N", "(",
        "2", ")", "||", "N", "(", "7", ")", ">", "99", ")", "2", "#", "N", "(", "1", ")", ",", "3",
        ",", "7", ";",
    ];
    let mut actual: Vec<&str> = Vec::new();

    let mut pos = 0;
    loop {
        match eat(bytes, pos) {
            Err(e) => panic!("{}. at: {}..{}", e.message(), e.start, e.end),
            Ok((token, next)) => {
                if let TokenVariant::EOI = token.variant {
                    break;
                }
                actual.push(&line[token.start..token.end]);
                pos = next;
            }
        }
    }

    assert_eq!(actual, expected);
}

#[test]
fn lexing_mid_input() {
    // Lexing resumes exactly where the last token ended.
    let line = "again(1)";
    let bytes = line.as_bytes();
    let (t0, p1) = eat(bytes, 0).unwrap();
    assert_eq!((t0.variant, t0.start, t0.end), (TokenVariant::Again, 0, 5));
    let (t1, p2) = eat(bytes, p1).unwrap();
    assert_eq!((t1.variant, t1.start, t1.end), (TokenVariant::LeftParens, 5, 6));
    let (t2, p3) = eat(bytes, p2).unwrap();
    assert_eq!((t2.variant, t2.start, t2.end), (TokenVariant::Number(1), 6, 7));
    let (t3, _) = eat(bytes, p3).unwrap();
    assert_eq!((t3.variant, t3.start, t3.end), (TokenVariant::RightParens, 7, 8));
}

#[test]
fn two_char_operators() {
    check_token("<= 1", TokenVariant::BinNumBoolOp, 0, 2);
    check_token("< 1", TokenVariant::BinNumBoolOp, 0, 1);
    check_token(">= 1", TokenVariant::BinNumBoolOp, 0, 2);
    check_token("> 1", TokenVariant::BinNumBoolOp, 0, 1);
    check_token("&& 1", TokenVariant::BinBoolOp, 0, 2);
    check_token("|| 1", TokenVariant::BinBoolOp, 0, 2);
    check_token("== 1", TokenVariant::BinNumBoolOp, 0, 2);
    check_token_error("&|");
    check_token_error("=1");
}

#[test]
fn number_error_spans() {
    // The error points at the digit run, not the whole literal.
    let err = eat("089".as_bytes(), 0).unwrap_err();
    assert_eq!((err.start, err.end), (1, 3));
    // An unterminated string spans to the end of input.
    let err = eat("\"abcd".as_bytes(), 0).unwrap_err();
    assert_eq!((err.start, err.end), (0, 5));
    // A huge numeral is rejected rather than wrapped.
    let err = eat("99999999999999999999999999".as_bytes(), 0).unwrap_err();
    assert!(err.is_lex_error());
}

#[test]
fn token_struct_fields() {
    let t = Token { start: 2, end: 4, variant: TokenVariant::Sharp };
    assert_eq!(t.start, 2);
    assert_eq!(t.end, 4);
    assert_eq!(t.variant, TokenVariant::Sharp);
}
