use whenever_parser::ast;
use whenever_parser::ast::Graph;
use whenever_parser::parse_line;

#[test]
fn to_dot_1_1() {
    let input = "1 1;";
    let expected = vec![
        "  \"0x0_4_Line\" [label=<<I>Line</I>>];\n",
        "  \"0x0_4_Line\" -> \"0x0_1\";\n",
        "  \"0x0_1\" [label=\"1 (1)\"];\n",
        "  \"0x0_4_Line\" -> \"0x2_1_LineOperations\";\n",
        "  \"0x2_1_LineOperations\" [label=<<I>LineOperations</I>>];\n",
        "  \"0x2_1_LineOperations\" -> \"0x2_1_LineOp\";\n",
        "  \"0x2_1_LineOp\" [label=<<I>LineOp</I>>];\n",
        "  \"0x2_1_LineOp\" -> \"0x2_1_AbsoluteNumber_NumToLineOp\";\n",
        "  \"0x2_1_AbsoluteNumber_NumToLineOp\" [label=<<I>Number \u{2B95} SingleLineOp</I>>];\n",
        "  \"0x2_1_AbsoluteNumber_NumToLineOp\" -> \"0x2_1_AbsoluteNumber\";\n",
        "  \"0x2_1_AbsoluteNumber\" [label=<<I>AbsoluteNumber</I>>];\n",
        "  \"0x2_1_AbsoluteNumber\" -> \"0x2_1\";\n",
        "  \"0x2_1\" [label=\"1 (1)\"];\n",
        "  \"0x0_4_Line\" -> \"0x3_1\";\n",
        "  \"0x3_1\" [label=\";\"];\n",
    ]
    .concat();

    let line = parse_line(input.as_bytes()).unwrap();
    let actual = ast::to_dot_normalized(&line, input.as_bytes());
    assert_eq!(String::from_utf8(actual).unwrap(), expected);
}

#[test]
fn export_idempotence() {
    // Normalizing an already-normalized export is a no-op.
    let input = "1 again (1) defer (3 || N(1)<=N(2) || N(7)>99) 2#N(1),3,7;";
    let line = parse_line(input.as_bytes()).unwrap();
    let once = ast::to_dot_normalized(&line, input.as_bytes());
    let twice = ast::normalize_export(&once);
    assert_eq!(once, twice);
}

#[test]
fn normalize_rewrites_hex() {
    // Uppercase digits and leading zeros become canonical.
    let normalized = ast::normalize_export("node 0x00AB_3".as_bytes());
    assert_eq!(String::from_utf8(normalized).unwrap(), "node 0xab_3");
    // A `0x` with no digits after it is kept as it stands.
    let normalized = ast::normalize_export("0xg".as_bytes());
    assert_eq!(String::from_utf8(normalized).unwrap(), "0xg");
}

#[test]
fn graph_methods_on_root() {
    let input = "1 1;";
    let line = parse_line(input.as_bytes()).unwrap();
    assert_eq!(line.get_str(input.as_bytes()), b"1 1;".to_vec());
    assert_eq!(line.get_id(input.as_bytes()), b"0x0_4_Line".to_vec());
    assert_eq!(line.get_label(input.as_bytes()), b"<<I>Line</I>>".to_vec());
    // The root's own description is its label line followed by the
    // recursive edges.
    let mut expected = b"  \"0x0_4_Line\" [label=<<I>Line</I>>];\n".to_vec();
    expected.extend_from_slice(&line.to_dot_recurse(input.as_bytes()));
    assert_eq!(line.to_dot(input.as_bytes()), expected);
}

#[test]
fn graph_methods_on_leaf() {
    let input = "12 7;";
    let line = parse_line(input.as_bytes()).unwrap();
    let num = line.num;
    assert_eq!(num.val, 12);
    assert_eq!(num.get_str(input.as_bytes()), b"12".to_vec());
    assert_eq!(num.get_id(input.as_bytes()), b"0x0_2".to_vec());
    assert_eq!(num.get_label(input.as_bytes()), b"\"12 (12)\"".to_vec());
    assert_eq!(num.to_dot_recurse(input.as_bytes()), Vec::<u8>::new());
}
