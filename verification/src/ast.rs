//! The typed AST.
//!
//! Grammar (lowercase nonterminals, uppercase terminals):
//!
//! ```text
//! line := NUMBER statement SEMICOLON
//!
//! number := absolutenumber | unopnum | binopnum | parensnum | stringtonum
//! absolutenumber := absnum
//! absnum := NUMBER | n | read
//! unmathop := PLUS | MINUS
//! unopnum := unmathop number
//! binmathop := PLUS | MINUS | MATHOP
//! binopnum := number binmathop number
//! parensnum := LPAREN number RPAREN
//!
//! boolean := unopbool | binopbool | binopnumbool | parensbool | numtobool
//! unopbool := UNBOOLOP boolean
//! binopbool := boolean BINBOOLOP boolean
//! binopnumbool := number BINNUMBOOLOP number
//! parensbool := LPAREN boolean RPAREN
//!
//! n := N LPAREN number RPAREN
//! read := READ LPAREN RPAREN
//!
//! statement := lineoperations | again | defer | forget | print
//! lineoperations := lineops
//! lineops := lineop | lineoplist
//! lineop := singlelineop
//! singlelineop := numtolineop | countlineop
//! countlineop := number SHARP number
//! lineoplist := lineop COMMA lineops
//! again := AGAIN LPAREN boolean RPAREN statement
//! defer := DEFER LPAREN boolean RPAREN statement
//! forget := FORGET LPAREN boolean RPAREN statement
//! print := PRINT LPAREN string RPAREN
//!
//! string := STRING | u | concat | numtostring
//! concat := string PLUS string
//! u := U LPAREN absnum RPAREN
//! ```
//!
//! The conversions that change a value's syntactic category without surface
//! syntax have nodes of their own:
//!
//! ```text
//! numtobool := number
//! numtolineop := number
//! numtostring := number
//! stringtonum := string
//! ```
//!
//! Every alternation is a closed enum; every sequence is a struct whose
//! fields are the named children in source order.  Nodes reference the
//! input only by byte offsets, so a node's identity is its offset from the
//! start of the input — deterministic and reproducible.

use vstd::prelude::*;

use crate::lexer::ParseError;
use crate::lexer::Token;
use crate::lexer::TokenVariant;
use crate::lexer::spec_eat;
use vstd::string::StringSliceAdditionalSpecFns;

verus! {

/// The exact byte range of input that one terminal token covers.
#[derive(Clone, Copy, Debug, PartialEq, Eq, Structural)]
pub struct TokenSpan {
    pub start: usize,
    pub end: usize,
}

/// A numeral literal leaf: its span and its decoded value.
#[derive(Clone, Copy, Debug, PartialEq, Eq, Structural)]
pub struct NumberToken {
    pub start: usize,
    pub end: usize,
    pub val: u64,
}

/// `absnum := NUMBER | n | read`
#[derive(Debug)]
pub enum AbsNumber {
    Num(NumberToken),
    NCall(Box<NGroup>),
    ReadCall(ReadGroup),
}

/// `n := N LPAREN number RPAREN`
#[derive(Debug)]
pub struct NGroup {
    pub keyword: TokenSpan,
    pub lparen: TokenSpan,
    pub num: Number,
    pub rparen: TokenSpan,
}

/// `read := READ LPAREN RPAREN`
#[derive(Debug)]
pub struct ReadGroup {
    pub keyword: TokenSpan,
    pub lparen: TokenSpan,
    pub rparen: TokenSpan,
}

/// `unmathop := PLUS | MINUS`
#[derive(Debug)]
pub enum UnMathOp {
    Plus(TokenSpan),
    Minus(TokenSpan),
}

/// `binmathop := PLUS | MINUS | MATHOP`
#[derive(Debug)]
pub enum BinMathOp {
    Plus(TokenSpan),
    Minus(TokenSpan),
    MathOp(TokenSpan),
}

/// `number := absolutenumber | unopnum | binopnum | parensnum | stringtonum`
#[derive(Debug)]
pub enum Number {
    Absolute(Box<AbsoluteNumber>),
    UnOp(Box<UnOpNumber>),
    BinOp(Box<BinOpNumber>),
    Parens(Box<ParensNumber>),
    FromString(Box<StringToNum>),
}

/// `absolutenumber := absnum`
#[derive(Debug)]
pub struct AbsoluteNumber {
    pub num: AbsNumber,
}

/// `unopnum := unmathop number`
#[derive(Debug)]
pub struct UnOpNumber {
    pub op: UnMathOp,
    pub num: Number,
}

/// `binopnum := number binmathop number`
#[derive(Debug)]
pub struct BinOpNumber {
    pub num1: Number,
    pub op: BinMathOp,
    pub num2: Number,
}

/// `parensnum := LPAREN number RPAREN`
#[derive(Debug)]
pub struct ParensNumber {
    pub lparen: TokenSpan,
    pub num: Number,
    pub rparen: TokenSpan,
}

/// The coercion `stringtonum := string`: a string used where a number is
/// expected.
#[derive(Debug)]
pub struct StringToNum {
    pub string: Str,
}

/// `boolean := unopbool | binopbool | binopnumbool | parensbool | numtobool`
#[derive(Debug)]
pub enum Boolean {
    UnOp(Box<UnOpBoolean>),
    BinOp(Box<BinOpBoolean>),
    NumCompare(Box<BinOpNumBoolean>),
    Parens(Box<ParensBoolean>),
    FromNumber(Box<NumToBool>),
}

/// `unopbool := UNBOOLOP boolean`
#[derive(Debug)]
pub struct UnOpBoolean {
    pub op: TokenSpan,
    pub boolean: Boolean,
}

/// `binopbool := boolean BINBOOLOP boolean`
#[derive(Debug)]
pub struct BinOpBoolean {
    pub boolean1: Boolean,
    pub op: TokenSpan,
    pub boolean2: Boolean,
}

/// `binopnumbool := number BINNUMBOOLOP number`
#[derive(Debug)]
pub struct BinOpNumBoolean {
    pub num1: Number,
    pub op: TokenSpan,
    pub num2: Number,
}

/// `parensbool := LPAREN boolean RPAREN`
#[derive(Debug)]
pub struct ParensBoolean {
    pub lparen: TokenSpan,
    pub boolean: Boolean,
    pub rparen: TokenSpan,
}

/// The coercion `numtobool := number`.
#[derive(Debug)]
pub struct NumToBool {
    pub num: Number,
}

/// `string := STRING | u | concat | numtostring`
#[derive(Debug)]
pub enum Str {
    Lit(TokenSpan),
    UCall(Box<UGroup>),
    Concat(Box<Concat>),
    FromNumber(Box<NumToString>),
}

/// `u := U LPAREN absnum RPAREN`
#[derive(Debug)]
pub struct UGroup {
    pub keyword: TokenSpan,
    pub lparen: TokenSpan,
    pub num: AbsNumber,
    pub rparen: TokenSpan,
}

/// `concat := string PLUS string`
#[derive(Debug)]
pub struct Concat {
    pub str1: Str,
    pub op: TokenSpan,
    pub str2: Str,
}

/// The coercion `numtostring := number`.
#[derive(Debug)]
pub struct NumToString {
    pub num: Number,
}

/// `singlelineop := numtolineop | countlineop`
#[derive(Debug)]
pub enum SingleLineOp {
    FromNumber(Box<NumToLineOp>),
    Count(Box<CountLineOp>),
}

/// The coercion `numtolineop := number`.
#[derive(Debug)]
pub struct NumToLineOp {
    pub num: Number,
}

/// `countlineop := number SHARP number`
#[derive(Debug)]
pub struct CountLineOp {
    pub line: Number,
    pub sharp: TokenSpan,
    pub count: Number,
}

/// `lineop := singlelineop`
#[derive(Debug)]
pub struct LineOp {
    pub slo: SingleLineOp,
}

/// `lineops := lineop | lineoplist`
#[derive(Debug)]
pub enum LineOps {
    Single(Box<LineOp>),
    List(Box<LineOpList>),
}

/// `lineoplist := lineop COMMA lineops`
#[derive(Debug)]
pub struct LineOpList {
    pub lineop: LineOp,
    pub comma: TokenSpan,
    pub list: LineOps,
}

/// `statement := lineoperations | again | defer | forget | print`
#[derive(Debug)]
pub enum Statement {
    Ops(Box<LineOperations>),
    Again(Box<AgainStmt>),
    Defer(Box<DeferStmt>),
    Forget(Box<ForgetStmt>),
    Print(Box<PrintStmt>),
}

/// `lineoperations := lineops`
#[derive(Debug)]
pub struct LineOperations {
    pub lineops: LineOps,
}

/// `again := AGAIN LPAREN boolean RPAREN statement`
#[derive(Debug)]
pub struct AgainStmt {
    pub keyword: TokenSpan,
    pub lparen: TokenSpan,
    pub boolean: Boolean,
    pub rparen: TokenSpan,
    pub statement: Statement,
}

/// `defer := DEFER LPAREN boolean RPAREN statement`
#[derive(Debug)]
pub struct DeferStmt {
    pub keyword: TokenSpan,
    pub lparen: TokenSpan,
    pub boolean: Boolean,
    pub rparen: TokenSpan,
    pub statement: Statement,
}

/// `forget := FORGET LPAREN boolean RPAREN statement`
#[derive(Debug)]
pub struct ForgetStmt {
    pub keyword: TokenSpan,
    pub lparen: TokenSpan,
    pub boolean: Boolean,
    pub rparen: TokenSpan,
    pub statement: Statement,
}

/// `print := PRINT LPAREN string RPAREN`
#[derive(Debug)]
pub struct PrintStmt {
    pub keyword: TokenSpan,
    pub lparen: TokenSpan,
    pub string: Str,
    pub rparen: TokenSpan,
}

/// `line := NUMBER statement SEMICOLON` — the root of the tree.
#[derive(Debug)]
pub struct Line {
    pub num: NumberToken,
    pub stmt: Statement,
    pub semi: TokenSpan,
}

// Spans.
//
// A node's span is the contiguous byte range of input it covers: from the
// start of its first child to the end of its last.  Well-formedness (below)
// orders the children left to right, so this range is exactly the union of
// the children's spans.

pub open spec fn unmath_tok(op: UnMathOp) -> TokenSpan {
    match op {
        UnMathOp::Plus(t) => t,
        UnMathOp::Minus(t) => t,
    }
}

pub open spec fn binmath_tok(op: BinMathOp) -> TokenSpan {
    match op {
        BinMathOp::Plus(t) => t,
        BinMathOp::Minus(t) => t,
        BinMathOp::MathOp(t) => t,
    }
}

pub open spec fn absnum_start(a: AbsNumber) -> int
    decreases a,
{
    match a {
        AbsNumber::Num(t) => t.start as int,
        AbsNumber::NCall(n) => n.keyword.start as int,
        AbsNumber::ReadCall(r) => r.keyword.start as int,
    }
}

pub open spec fn absnum_end(a: AbsNumber) -> int
    decreases a,
{
    match a {
        AbsNumber::Num(t) => t.end as int,
        AbsNumber::NCall(n) => n.rparen.end as int,
        AbsNumber::ReadCall(r) => r.rparen.end as int,
    }
}

pub open spec fn num_start(n: Number) -> int
    decreases n,
{
    match n {
        Number::Absolute(w) => absnum_start(w.num),
        Number::UnOp(u) => unmath_tok(u.op).start as int,
        Number::BinOp(b) => num_start(b.num1),
        Number::Parens(p) => p.lparen.start as int,
        Number::FromString(f) => str_start(f.string),
    }
}

pub open spec fn num_end(n: Number) -> int
    decreases n,
{
    match n {
        Number::Absolute(w) => absnum_end(w.num),
        Number::UnOp(u) => num_end(u.num),
        Number::BinOp(b) => num_end(b.num2),
        Number::Parens(p) => p.rparen.end as int,
        Number::FromString(f) => str_end(f.string),
    }
}

pub open spec fn bool_start(b: Boolean) -> int
    decreases b,
{
    match b {
        Boolean::UnOp(u) => u.op.start as int,
        Boolean::BinOp(c) => bool_start(c.boolean1),
        Boolean::NumCompare(c) => num_start(c.num1),
        Boolean::Parens(p) => p.lparen.start as int,
        Boolean::FromNumber(f) => num_start(f.num),
    }
}

pub open spec fn bool_end(b: Boolean) -> int
    decreases b,
{
    match b {
        Boolean::UnOp(u) => bool_end(u.boolean),
        Boolean::BinOp(c) => bool_end(c.boolean2),
        Boolean::NumCompare(c) => num_end(c.num2),
        Boolean::Parens(p) => p.rparen.end as int,
        Boolean::FromNumber(f) => num_end(f.num),
    }
}

pub open spec fn str_start(t: Str) -> int
    decreases t,
{
    match t {
        Str::Lit(l) => l.start as int,
        Str::UCall(u) => u.keyword.start as int,
        Str::Concat(c) => str_start(c.str1),
        Str::FromNumber(f) => num_start(f.num),
    }
}

pub open spec fn str_end(t: Str) -> int
    decreases t,
{
    match t {
        Str::Lit(l) => l.end as int,
        Str::UCall(u) => u.rparen.end as int,
        Str::Concat(c) => str_end(c.str2),
        Str::FromNumber(f) => num_end(f.num),
    }
}

pub open spec fn slo_start(s: SingleLineOp) -> int
    decreases s,
{
    match s {
        SingleLineOp::FromNumber(f) => num_start(f.num),
        SingleLineOp::Count(c) => num_start(c.line),
    }
}

pub open spec fn slo_end(s: SingleLineOp) -> int
    decreases s,
{
    match s {
        SingleLineOp::FromNumber(f) => num_end(f.num),
        SingleLineOp::Count(c) => num_end(c.count),
    }
}

pub open spec fn lineops_start(l: LineOps) -> int
    decreases l,
{
    match l {
        LineOps::Single(o) => slo_start(o.slo),
        LineOps::List(ll) => slo_start(ll.lineop.slo),
    }
}

pub open spec fn lineops_end(l: LineOps) -> int
    decreases l,
{
    match l {
        LineOps::Single(o) => slo_end(o.slo),
        LineOps::List(ll) => lineops_end(ll.list),
    }
}

pub open spec fn stmt_start(s: Statement) -> int
    decreases s,
{
    match s {
        Statement::Ops(o) => lineops_start(o.lineops),
        Statement::Again(a) => a.keyword.start as int,
        Statement::Defer(d) => d.keyword.start as int,
        Statement::Forget(f) => f.keyword.start as int,
        Statement::Print(p) => p.keyword.start as int,
    }
}

pub open spec fn stmt_end(s: Statement) -> int
    decreases s,
{
    match s {
        Statement::Ops(o) => lineops_end(o.lineops),
        Statement::Again(a) => stmt_end(a.statement),
        Statement::Defer(d) => stmt_end(d.statement),
        Statement::Forget(f) => stmt_end(f.statement),
        Statement::Print(p) => p.rparen.end as int,
    }
}

pub open spec fn line_start(l: Line) -> int {
    l.num.start as int
}

pub open spec fn line_end(l: Line) -> int {
    l.semi.end as int
}

// Well-formedness.
//
// A tree is well formed with respect to an input when every leaf is
// exactly the token that the lexer finds at the leaf's own start, and the
// children of every composite stand left to right, each beginning at or
// after the end of the one before it.  The parser only builds well-formed
// trees.

/// The token at `t.start` is exactly `t` with variant `v`.
pub open spec fn tok_at(s: Seq<u8>, t: TokenSpan, v: TokenVariant) -> bool {
    &&& t.start < t.end <= s.len()
    &&& spec_eat(s, t.start as int) == Ok::<(Token, usize), ParseError>(
        (Token { start: t.start, end: t.end, variant: v }, t.end),
    )
}

/// The token at `t.start` is a numeral literal with exactly this span and
/// value.
pub open spec fn numtok_at(s: Seq<u8>, t: NumberToken) -> bool {
    &&& t.start < t.end <= s.len()
    &&& spec_eat(s, t.start as int) == Ok::<(Token, usize), ParseError>(
        (Token { start: t.start, end: t.end, variant: TokenVariant::Number(t.val) }, t.end),
    )
}

pub open spec fn wf_unmath(s: Seq<u8>, op: UnMathOp) -> bool {
    match op {
        UnMathOp::Plus(t) => tok_at(s, t, TokenVariant::Plus),
        UnMathOp::Minus(t) => tok_at(s, t, TokenVariant::Minus),
    }
}

pub open spec fn wf_binmath(s: Seq<u8>, op: BinMathOp) -> bool {
    match op {
        BinMathOp::Plus(t) => tok_at(s, t, TokenVariant::Plus),
        BinMathOp::Minus(t) => tok_at(s, t, TokenVariant::Minus),
        BinMathOp::MathOp(t) => tok_at(s, t, TokenVariant::MathOp),
    }
}

pub open spec fn wf_absnum(s: Seq<u8>, a: AbsNumber) -> bool
    decreases a,
{
    match a {
        AbsNumber::Num(t) => numtok_at(s, t),
        AbsNumber::NCall(n) => {
            &&& tok_at(s, n.keyword, TokenVariant::N)
            &&& tok_at(s, n.lparen, TokenVariant::LeftParens)
            &&& wf_num(s, n.num)
            &&& tok_at(s, n.rparen, TokenVariant::RightParens)
            &&& n.keyword.end <= n.lparen.start
            &&& n.lparen.end <= num_start(n.num)
            &&& num_end(n.num) <= n.rparen.start
        },
        AbsNumber::ReadCall(r) => {
            &&& tok_at(s, r.keyword, TokenVariant::Read)
            &&& tok_at(s, r.lparen, TokenVariant::LeftParens)
            &&& tok_at(s, r.rparen, TokenVariant::RightParens)
            &&& r.keyword.end <= r.lparen.start
            &&& r.lparen.end <= r.rparen.start
        },
    }
}

pub open spec fn wf_num(s: Seq<u8>, n: Number) -> bool
    decreases n,
{
    match n {
        Number::Absolute(w) => wf_absnum(s, w.num),
        Number::UnOp(u) => {
            &&& wf_unmath(s, u.op)
            &&& wf_num(s, u.num)
            &&& unmath_tok(u.op).end <= num_start(u.num)
        },
        Number::BinOp(b) => {
            &&& wf_num(s, b.num1)
            &&& wf_binmath(s, b.op)
            &&& wf_num(s, b.num2)
            &&& num_end(b.num1) <= binmath_tok(b.op).start
            &&& binmath_tok(b.op).end <= num_start(b.num2)
        },
        Number::Parens(p) => {
            &&& tok_at(s, p.lparen, TokenVariant::LeftParens)
            &&& wf_num(s, p.num)
            &&& tok_at(s, p.rparen, TokenVariant::RightParens)
            &&& p.lparen.end <= num_start(p.num)
            &&& num_end(p.num) <= p.rparen.start
        },
        Number::FromString(f) => wf_str(s, f.string),
    }
}

pub open spec fn wf_bool(s: Seq<u8>, b: Boolean) -> bool
    decreases b,
{
    match b {
        Boolean::UnOp(u) => {
            &&& tok_at(s, u.op, TokenVariant::UnBoolOp)
            &&& wf_bool(s, u.boolean)
            &&& u.op.end <= bool_start(u.boolean)
        },
        Boolean::BinOp(c) => {
            &&& wf_bool(s, c.boolean1)
            &&& tok_at(s, c.op, TokenVariant::BinBoolOp)
            &&& wf_bool(s, c.boolean2)
            &&& bool_end(c.boolean1) <= c.op.start
            &&& c.op.end <= bool_start(c.boolean2)
        },
        Boolean::NumCompare(c) => {
            &&& wf_num(s, c.num1)
            &&& tok_at(s, c.op, TokenVariant::BinNumBoolOp)
            &&& wf_num(s, c.num2)
            &&& num_end(c.num1) <= c.op.start
            &&& c.op.end <= num_start(c.num2)
        },
        Boolean::Parens(p) => {
            &&& tok_at(s, p.lparen, TokenVariant::LeftParens)
            &&& wf_bool(s, p.boolean)
            &&& tok_at(s, p.rparen, TokenVariant::RightParens)
            &&& p.lparen.end <= bool_start(p.boolean)
            &&& bool_end(p.boolean) <= p.rparen.start
        },
        Boolean::FromNumber(f) => wf_num(s, f.num),
    }
}

pub open spec fn wf_str(s: Seq<u8>, t: Str) -> bool
    decreases t,
{
    match t {
        Str::Lit(l) => tok_at(s, l, TokenVariant::String),
        Str::UCall(u) => {
            &&& tok_at(s, u.keyword, TokenVariant::U)
            &&& tok_at(s, u.lparen, TokenVariant::LeftParens)
            &&& wf_absnum(s, u.num)
            &&& tok_at(s, u.rparen, TokenVariant::RightParens)
            &&& u.keyword.end <= u.lparen.start
            &&& u.lparen.end <= absnum_start(u.num)
            &&& absnum_end(u.num) <= u.rparen.start
        },
        Str::Concat(c) => {
            &&& wf_str(s, c.str1)
            &&& tok_at(s, c.op, TokenVariant::Plus)
            &&& wf_str(s, c.str2)
            &&& str_end(c.str1) <= c.op.start
            &&& c.op.end <= str_start(c.str2)
        },
        Str::FromNumber(f) => wf_num(s, f.num),
    }
}

pub open spec fn wf_slo(s: Seq<u8>, o: SingleLineOp) -> bool
    decreases o,
{
    match o {
        SingleLineOp::FromNumber(f) => wf_num(s, f.num),
        SingleLineOp::Count(c) => {
            &&& wf_num(s, c.line)
            &&& tok_at(s, c.sharp, TokenVariant::Sharp)
            &&& wf_num(s, c.count)
            &&& num_end(c.line) <= c.sharp.start
            &&& c.sharp.end <= num_start(c.count)
        },
    }
}

pub open spec fn wf_lineops(s: Seq<u8>, l: LineOps) -> bool
    decreases l,
{
    match l {
        LineOps::Single(o) => wf_slo(s, o.slo),
        LineOps::List(ll) => {
            &&& wf_slo(s, ll.lineop.slo)
            &&& tok_at(s, ll.comma, TokenVariant::Comma)
            &&& wf_lineops(s, ll.list)
            &&& slo_end(ll.lineop.slo) <= ll.comma.start
            &&& ll.comma.end <= lineops_start(ll.list)
        },
    }
}

pub open spec fn wf_stmt(s: Seq<u8>, t: Statement) -> bool
    decreases t,
{
    match t {
        Statement::Ops(o) => wf_lineops(s, o.lineops),
        Statement::Again(a) => {
            &&& tok_at(s, a.keyword, TokenVariant::Again)
            &&& tok_at(s, a.lparen, TokenVariant::LeftParens)
            &&& wf_bool(s, a.boolean)
            &&& tok_at(s, a.rparen, TokenVariant::RightParens)
            &&& wf_stmt(s, a.statement)
            &&& a.keyword.end <= a.lparen.start
            &&& a.lparen.end <= bool_start(a.boolean)
            &&& bool_end(a.boolean) <= a.rparen.start
            &&& a.rparen.end <= stmt_start(a.statement)
        },
        Statement::Defer(d) => {
            &&& tok_at(s, d.keyword, TokenVariant::Defer)
            &&& tok_at(s, d.lparen, TokenVariant::LeftParens)
            &&& wf_bool(s, d.boolean)
            &&& tok_at(s, d.rparen, TokenVariant::RightParens)
            &&& wf_stmt(s, d.statement)
            &&& d.keyword.end <= d.lparen.start
            &&& d.lparen.end <= bool_start(d.boolean)
            &&& bool_end(d.boolean) <= d.rparen.start
            &&& d.rparen.end <= stmt_start(d.statement)
        },
        Statement::Forget(f) => {
            &&& tok_at(s, f.keyword, TokenVariant::Forget)
            &&& tok_at(s, f.lparen, TokenVariant::LeftParens)
            &&& wf_bool(s, f.boolean)
            &&& tok_at(s, f.rparen, TokenVariant::RightParens)
            &&& wf_stmt(s, f.statement)
            &&& f.keyword.end <= f.lparen.start
            &&& f.lparen.end <= bool_start(f.boolean)
            &&& bool_end(f.boolean) <= f.rparen.start
            &&& f.rparen.end <= stmt_start(f.statement)
        },
        Statement::Print(p) => {
            &&& tok_at(s, p.keyword, TokenVariant::Print)
            &&& tok_at(s, p.lparen, TokenVariant::LeftParens)
            &&& wf_str(s, p.string)
            &&& tok_at(s, p.rparen, TokenVariant::RightParens)
            &&& p.keyword.end <= p.lparen.start
            &&& p.lparen.end <= str_start(p.string)
            &&& str_end(p.string) <= p.rparen.start
        },
    }
}

pub open spec fn wf_line(s: Seq<u8>, l: Line) -> bool {
    &&& numtok_at(s, l.num)
    &&& wf_stmt(s, l.stmt)
    &&& tok_at(s, l.semi, TokenVariant::Semicolon)
    &&& l.num.end <= stmt_start(l.stmt)
    &&& stmt_end(l.stmt) <= l.semi.start
}

// A well-formed node covers a non-empty range that lies inside the input.

pub proof fn lemma_absnum_span(s: Seq<u8>, a: AbsNumber)
    requires
        wf_absnum(s, a),
    ensures
        0 <= absnum_start(a) < absnum_end(a) <= s.len(),
    decreases a,
{
    match a {
        AbsNumber::Num(t) => {},
        AbsNumber::NCall(n) => lemma_num_span(s, n.num),
        AbsNumber::ReadCall(r) => {},
    }
}

pub proof fn lemma_num_span(s: Seq<u8>, n: Number)
    requires
        wf_num(s, n),
    ensures
        0 <= num_start(n) < num_end(n) <= s.len(),
    decreases n,
{
    match n {
        Number::Absolute(w) => lemma_absnum_span(s, w.num),
        Number::UnOp(u) => lemma_num_span(s, u.num),
        Number::BinOp(b) => {
            lemma_num_span(s, b.num1);
            lemma_num_span(s, b.num2);
        },
        Number::Parens(p) => lemma_num_span(s, p.num),
        Number::FromString(f) => lemma_str_span(s, f.string),
    }
}

pub proof fn lemma_bool_span(s: Seq<u8>, b: Boolean)
    requires
        wf_bool(s, b),
    ensures
        0 <= bool_start(b) < bool_end(b) <= s.len(),
    decreases b,
{
    match b {
        Boolean::UnOp(u) => lemma_bool_span(s, u.boolean),
        Boolean::BinOp(c) => {
            lemma_bool_span(s, c.boolean1);
            lemma_bool_span(s, c.boolean2);
        },
        Boolean::NumCompare(c) => {
            lemma_num_span(s, c.num1);
            lemma_num_span(s, c.num2);
        },
        Boolean::Parens(p) => lemma_bool_span(s, p.boolean),
        Boolean::FromNumber(f) => lemma_num_span(s, f.num),
    }
}

pub proof fn lemma_str_span(s: Seq<u8>, t: Str)
    requires
        wf_str(s, t),
    ensures
        0 <= str_start(t) < str_end(t) <= s.len(),
    decreases t,
{
    match t {
        Str::Lit(l) => {},
        Str::UCall(u) => lemma_absnum_span(s, u.num),
        Str::Concat(c) => {
            lemma_str_span(s, c.str1);
            lemma_str_span(s, c.str2);
        },
        Str::FromNumber(f) => lemma_num_span(s, f.num),
    }
}

pub proof fn lemma_slo_span(s: Seq<u8>, o: SingleLineOp)
    requires
        wf_slo(s, o),
    ensures
        0 <= slo_start(o) < slo_end(o) <= s.len(),
    decreases o,
{
    match o {
        SingleLineOp::FromNumber(f) => lemma_num_span(s, f.num),
        SingleLineOp::Count(c) => {
            lemma_num_span(s, c.line);
            lemma_num_span(s, c.count);
        },
    }
}

pub proof fn lemma_lineops_span(s: Seq<u8>, l: LineOps)
    requires
        wf_lineops(s, l),
    ensures
        0 <= lineops_start(l) < lineops_end(l) <= s.len(),
    decreases l,
{
    match l {
        LineOps::Single(o) => lemma_slo_span(s, o.slo),
        LineOps::List(ll) => {
            lemma_slo_span(s, ll.lineop.slo);
            lemma_lineops_span(s, ll.list);
        },
    }
}

pub proof fn lemma_stmt_span(s: Seq<u8>, t: Statement)
    requires
        wf_stmt(s, t),
    ensures
        0 <= stmt_start(t) < stmt_end(t) <= s.len(),
    decreases t,
{
    match t {
        Statement::Ops(o) => lemma_lineops_span(s, o.lineops),
        Statement::Again(a) => {
            lemma_bool_span(s, a.boolean);
            lemma_stmt_span(s, a.statement);
        },
        Statement::Defer(d) => {
            lemma_bool_span(s, d.boolean);
            lemma_stmt_span(s, d.statement);
        },
        Statement::Forget(f) => {
            lemma_bool_span(s, f.boolean);
            lemma_stmt_span(s, f.statement);
        },
        Statement::Print(p) => lemma_str_span(s, p.string),
    }
}

pub proof fn lemma_line_span(s: Seq<u8>, l: Line)
    requires
        wf_line(s, l),
    ensures
        0 <= line_start(l) < line_end(l) <= s.len(),
{
    lemma_stmt_span(s, l.stmt);
}

// Executable span computation, one function per grammar category.

pub fn span_absnum(a: &AbsNumber) -> (r: (usize, usize))
    ensures
        r.0 == absnum_start(*a),
        r.1 == absnum_end(*a),
    decreases *a,
{
    match a {
        AbsNumber::Num(t) => (t.start, t.end),
        AbsNumber::NCall(n) => (n.keyword.start, n.rparen.end),
        AbsNumber::ReadCall(r) => (r.keyword.start, r.rparen.end),
    }
}

pub fn span_num(n: &Number) -> (r: (usize, usize))
    ensures
        r.0 == num_start(*n),
        r.1 == num_end(*n),
    decreases *n,
{
    match n {
        Number::Absolute(w) => span_absnum(&w.num),
        Number::UnOp(u) => {
            let t = match &u.op {
                UnMathOp::Plus(t) => t,
                UnMathOp::Minus(t) => t,
            };
            (t.start, span_num(&u.num).1)
        },
        Number::BinOp(b) => (span_num(&b.num1).0, span_num(&b.num2).1),
        Number::Parens(p) => (p.lparen.start, p.rparen.end),
        Number::FromString(f) => span_str(&f.string),
    }
}

pub fn span_bool(b: &Boolean) -> (r: (usize, usize))
    ensures
        r.0 == bool_start(*b),
        r.1 == bool_end(*b),
    decreases *b,
{
    match b {
        Boolean::UnOp(u) => (u.op.start, span_bool(&u.boolean).1),
        Boolean::BinOp(c) => (span_bool(&c.boolean1).0, span_bool(&c.boolean2).1),
        Boolean::NumCompare(c) => (span_num(&c.num1).0, span_num(&c.num2).1),
        Boolean::Parens(p) => (p.lparen.start, p.rparen.end),
        Boolean::FromNumber(f) => span_num(&f.num),
    }
}

pub fn span_str(t: &Str) -> (r: (usize, usize))
    ensures
        r.0 == str_start(*t),
        r.1 == str_end(*t),
    decreases *t,
{
    match t {
        Str::Lit(l) => (l.start, l.end),
        Str::UCall(u) => (u.keyword.start, u.rparen.end),
        Str::Concat(c) => (span_str(&c.str1).0, span_str(&c.str2).1),
        Str::FromNumber(f) => span_num(&f.num),
    }
}

pub fn span_slo(o: &SingleLineOp) -> (r: (usize, usize))
    ensures
        r.0 == slo_start(*o),
        r.1 == slo_end(*o),
    decreases *o,
{
    match o {
        SingleLineOp::FromNumber(f) => span_num(&f.num),
        SingleLineOp::Count(c) => (span_num(&c.line).0, span_num(&c.count).1),
    }
}

pub fn span_lineops(l: &LineOps) -> (r: (usize, usize))
    ensures
        r.0 == lineops_start(*l),
        r.1 == lineops_end(*l),
    decreases *l,
{
    match l {
        LineOps::Single(o) => span_slo(&o.slo),
        LineOps::List(ll) => (span_slo(&ll.lineop.slo).0, span_lineops(&ll.list).1),
    }
}

pub fn span_stmt(t: &Statement) -> (r: (usize, usize))
    ensures
        r.0 == stmt_start(*t),
        r.1 == stmt_end(*t),
    decreases *t,
{
    match t {
        Statement::Ops(o) => span_lineops(&o.lineops),
        Statement::Again(a) => (a.keyword.start, span_stmt(&a.statement).1),
        Statement::Defer(d) => (d.keyword.start, span_stmt(&d.statement).1),
        Statement::Forget(f) => (f.keyword.start, span_stmt(&f.statement).1),
        Statement::Print(p) => (p.keyword.start, p.rparen.end),
    }
}

pub fn span_line(l: &Line) -> (r: (usize, usize))
    ensures
        r.0 == line_start(*l),
        r.1 == line_end(*l),
{
    (l.num.start, l.semi.end)
}

// The export, at the specification level.
//
// These functions define, byte for byte, the node/edge description of a
// tree: each node's identity, its label, and the description of its whole
// subtree.  The executable emitters below are proved to produce exactly
// this text, and `to_dot_normalized` its normalization.

/// The identity of the terminal spanning `[start, end)`:
/// `0x{offset}_{len}`, the offset in canonical hexadecimal.
#[verifier::opaque]
pub open spec fn spec_term_id(start: int, end: int) -> Seq<u8> {
    "0x".spec_bytes() + hex_seq(start) + "_".spec_bytes() + dec_seq(end - start)
}

/// The identity of the composite named `name` spanning `[start, end)`:
/// `0x{offset}_{len}_{name}`.
#[verifier::opaque]
pub open spec fn spec_nt_id(start: int, end: int, name: &str) -> Seq<u8> {
    spec_term_id(start, end) + "_".spec_bytes() + name.spec_bytes()
}

pub open spec fn spec_id_absnum(a: AbsNumber) -> Seq<u8>
    decreases a,
{
    match a {
        AbsNumber::Num(t) => spec_term_id(t.start as int, t.end as int),
        AbsNumber::NCall(n) => spec_nt_id(n.keyword.start as int, n.rparen.end as int, "N"),
        AbsNumber::ReadCall(r) => spec_nt_id(r.keyword.start as int, r.rparen.end as int, "Read"),
    }
}

pub open spec fn spec_id_number(n: Number) -> Seq<u8>
    decreases n,
{
    match n {
        Number::Absolute(w) => spec_nt_id(
            absnum_start(w.num),
            absnum_end(w.num),
            "AbsoluteNumber",
        ),
        Number::UnOp(u) => spec_nt_id(
            unmath_tok(u.op).start as int,
            num_end(u.num),
            "UnOpNumber",
        ),
        Number::BinOp(b) => spec_nt_id(num_start(b.num1), num_end(b.num2), "BinOpNumber"),
        Number::Parens(p) => spec_nt_id(
            p.lparen.start as int,
            p.rparen.end as int,
            "ParensNumber",
        ),
        Number::FromString(f) => spec_id_str(f.string) + "_StringToNum".spec_bytes(),
    }
}

pub open spec fn spec_id_bool(b: Boolean) -> Seq<u8>
    decreases b,
{
    match b {
        Boolean::UnOp(u) => spec_nt_id(u.op.start as int, bool_end(u.boolean), "UnOpBoolean"),
        Boolean::BinOp(c) => spec_nt_id(
            bool_start(c.boolean1),
            bool_end(c.boolean2),
            "BinOpBoolean",
        ),
        Boolean::NumCompare(c) => spec_nt_id(
            num_start(c.num1),
            num_end(c.num2),
            "BinOpNumBoolean",
        ),
        Boolean::Parens(p) => spec_nt_id(
            p.lparen.start as int,
            p.rparen.end as int,
            "ParensBoolean",
        ),
        Boolean::FromNumber(f) => spec_id_number(f.num) + "_NumToBool".spec_bytes(),
    }
}

pub open spec fn spec_id_str(t: Str) -> Seq<u8>
    decreases t,
{
    match t {
        Str::Lit(l) => spec_term_id(l.start as int, l.end as int),
        Str::UCall(u) => spec_nt_id(u.keyword.start as int, u.rparen.end as int, "U"),
        Str::Concat(c) => spec_nt_id(str_start(c.str1), str_end(c.str2), "Concat"),
        Str::FromNumber(f) => spec_id_number(f.num) + "_NumToString".spec_bytes(),
    }
}

pub open spec fn spec_id_slo(o: SingleLineOp) -> Seq<u8>
    decreases o,
{
    match o {
        SingleLineOp::FromNumber(f) => spec_id_number(f.num) + "_NumToLineOp".spec_bytes(),
        SingleLineOp::Count(c) => spec_nt_id(num_start(c.line), num_end(c.count), "CountLineOp"),
    }
}

pub open spec fn spec_id_lineop(l: LineOp) -> Seq<u8> {
    spec_nt_id(slo_start(l.slo), slo_end(l.slo), "LineOp")
}

pub open spec fn spec_id_lineops(l: LineOps) -> Seq<u8>
    decreases l,
{
    match l {
        LineOps::Single(o) => spec_id_lineop(*o),
        LineOps::List(ll) => spec_nt_id(
            slo_start(ll.lineop.slo),
            lineops_end(ll.list),
            "LineOpList",
        ),
    }
}

pub open spec fn spec_id_stmt(t: Statement) -> Seq<u8>
    decreases t,
{
    match t {
        Statement::Ops(o) => spec_nt_id(
            lineops_start(o.lineops),
            lineops_end(o.lineops),
            "LineOperations",
        ),
        Statement::Again(a) => spec_nt_id(a.keyword.start as int, stmt_end(a.statement), "Again"),
        Statement::Defer(d) => spec_nt_id(d.keyword.start as int, stmt_end(d.statement), "Defer"),
        Statement::Forget(f) => spec_nt_id(
            f.keyword.start as int,
            stmt_end(f.statement),
            "Forget",
        ),
        Statement::Print(p) => spec_nt_id(p.keyword.start as int, p.rparen.end as int, "Print"),
    }
}

pub open spec fn spec_id_line(l: Line) -> Seq<u8> {
    spec_nt_id(l.num.start as int, l.semi.end as int, "Line")
}

/// The opening of a node's line: `  "{id}" [label=`.
#[verifier::opaque]
pub open spec fn spec_node_head(id: Seq<u8>) -> Seq<u8> {
    "  \"".spec_bytes() + id + "\" [label=".spec_bytes()
}

/// The close of a node's line: `];` and the line break.
#[verifier::opaque]
pub open spec fn spec_node_tail() -> Seq<u8> {
    "];\n".spec_bytes()
}

/// One node's own line: `  "{id}" [label={label}];`.
pub open spec fn spec_node_line(id: Seq<u8>, label: Seq<u8>) -> Seq<u8> {
    spec_node_head(id) + label + spec_node_tail()
}

/// One edge line: `  "{a}" -> "{b}";`.
#[verifier::opaque]
pub open spec fn spec_edge(a: Seq<u8>, b: Seq<u8>) -> Seq<u8> {
    "  \"".spec_bytes() + a + "\" -> \"".spec_bytes() + b + "\";\n".spec_bytes()
}

/// A plain terminal's label: the text it covers, in quotes.
#[verifier::opaque]
pub open spec fn spec_term_label(s: Seq<u8>, start: int, end: int) -> Seq<u8> {
    "\"".spec_bytes() + s.subrange(start, end) + "\"".spec_bytes()
}

/// A numeral terminal's label: its text and its decoded value, in quotes.
#[verifier::opaque]
pub open spec fn spec_numtok_label(s: Seq<u8>, t: NumberToken) -> Seq<u8> {
    "\"".spec_bytes() + s.subrange(t.start as int, t.end as int) + " (".spec_bytes() + dec_seq(
        t.val as int,
    ) + ")\"".spec_bytes()
}

/// A composite's label: `<<I>{name}</I>>`.
#[verifier::opaque]
pub open spec fn spec_nt_label(name: &str) -> Seq<u8> {
    "<<I>".spec_bytes() + name.spec_bytes() + "</I>>".spec_bytes()
}

/// A coercion's label: `<<I>{from} \u{2B95} {to}</I>>`.
#[verifier::opaque]
pub open spec fn spec_conv_label(from: &str, to: &str) -> Seq<u8> {
    "<<I>".spec_bytes() + from.spec_bytes() + " \u{2B95} ".spec_bytes() + to.spec_bytes()
        + "</I>>".spec_bytes()
}

/// A plain terminal's whole description: its one line.
#[verifier::opaque]
pub open spec fn spec_dot_terminal(s: Seq<u8>, start: int, end: int) -> Seq<u8> {
    spec_node_head(spec_term_id(start, end)) + spec_term_label(s, start, end) + spec_node_tail()
}

/// A numeral terminal's whole description: its one line.
#[verifier::opaque]
pub open spec fn spec_dot_numtok(s: Seq<u8>, t: NumberToken) -> Seq<u8> {
    spec_node_head(spec_term_id(t.start as int, t.end as int)) + spec_numtok_label(s, t)
        + spec_node_tail()
}

pub open spec fn spec_dot_absnum(s: Seq<u8>, a: AbsNumber) -> Seq<u8>
    decreases a,
{
    match a {
        AbsNumber::Num(t) => spec_dot_numtok(s, t),
        AbsNumber::NCall(n) => {
            let id = spec_id_absnum(a);
            spec_node_line(id, spec_nt_label("N")) + spec_edge(
                id,
                spec_term_id(n.keyword.start as int, n.keyword.end as int),
            ) + spec_dot_terminal(s, n.keyword.start as int, n.keyword.end as int) + spec_edge(
                id,
                spec_term_id(n.lparen.start as int, n.lparen.end as int),
            ) + spec_dot_terminal(s, n.lparen.start as int, n.lparen.end as int) + spec_edge(
                id,
                spec_id_number(n.num),
            ) + spec_dot_number(s, n.num) + spec_edge(
                id,
                spec_term_id(n.rparen.start as int, n.rparen.end as int),
            ) + spec_dot_terminal(s, n.rparen.start as int, n.rparen.end as int)
        },
        AbsNumber::ReadCall(r) => {
            let id = spec_id_absnum(a);
            spec_node_line(id, spec_nt_label("Read")) + spec_edge(
                id,
                spec_term_id(r.keyword.start as int, r.keyword.end as int),
            ) + spec_dot_terminal(s, r.keyword.start as int, r.keyword.end as int) + spec_edge(
                id,
                spec_term_id(r.lparen.start as int, r.lparen.end as int),
            ) + spec_dot_terminal(s, r.lparen.start as int, r.lparen.end as int) + spec_edge(
                id,
                spec_term_id(r.rparen.start as int, r.rparen.end as int),
            ) + spec_dot_terminal(s, r.rparen.start as int, r.rparen.end as int)
        },
    }
}

pub open spec fn spec_dot_number(s: Seq<u8>, n: Number) -> Seq<u8>
    decreases n,
{
    match n {
        Number::Absolute(w) => {
            let id = spec_id_number(n);
            spec_node_line(id, spec_nt_label("AbsoluteNumber")) + spec_edge(
                id,
                spec_id_absnum(w.num),
            ) + spec_dot_absnum(s, w.num)
        },
        Number::UnOp(u) => {
            let id = spec_id_number(n);
            let t = unmath_tok(u.op);
            spec_node_line(id, spec_nt_label("UnOpNumber")) + spec_edge(
                id,
                spec_term_id(t.start as int, t.end as int),
            ) + spec_dot_terminal(s, t.start as int, t.end as int) + spec_edge(
                id,
                spec_id_number(u.num),
            ) + spec_dot_number(s, u.num)
        },
        Number::BinOp(b) => {
            let id = spec_id_number(n);
            let t = binmath_tok(b.op);
            spec_node_line(id, spec_nt_label("BinOpNumber")) + spec_edge(
                id,
                spec_id_number(b.num1),
            ) + spec_dot_number(s, b.num1) + spec_edge(
                id,
                spec_term_id(t.start as int, t.end as int),
            ) + spec_dot_terminal(s, t.start as int, t.end as int) + spec_edge(
                id,
                spec_id_number(b.num2),
            ) + spec_dot_number(s, b.num2)
        },
        Number::Parens(p) => {
            let id = spec_id_number(n);
            spec_node_line(id, spec_nt_label("ParensNumber")) + spec_edge(
                id,
                spec_term_id(p.lparen.start as int, p.lparen.end as int),
            ) + spec_dot_terminal(s, p.lparen.start as int, p.lparen.end as int) + spec_edge(
                id,
                spec_id_number(p.num),
            ) + spec_dot_number(s, p.num) + spec_edge(
                id,
                spec_term_id(p.rparen.start as int, p.rparen.end as int),
            ) + spec_dot_terminal(s, p.rparen.start as int, p.rparen.end as int)
        },
        Number::FromString(f) => {
            let id = spec_id_number(n);
            spec_node_line(id, spec_conv_label("String", "Number")) + spec_edge(
                id,
                spec_id_str(f.string),
            ) + spec_dot_str(s, f.string)
        },
    }
}

pub open spec fn spec_dot_bool(s: Seq<u8>, b: Boolean) -> Seq<u8>
    decreases b,
{
    match b {
        Boolean::UnOp(u) => {
            let id = spec_id_bool(b);
            spec_node_line(id, spec_nt_label("UnOpBoolean")) + spec_edge(
                id,
                spec_term_id(u.op.start as int, u.op.end as int),
            ) + spec_dot_terminal(s, u.op.start as int, u.op.end as int) + spec_edge(
                id,
                spec_id_bool(u.boolean),
            ) + spec_dot_bool(s, u.boolean)
        },
        Boolean::BinOp(c) => {
            let id = spec_id_bool(b);
            spec_node_line(id, spec_nt_label("BinOpBoolean")) + spec_edge(
                id,
                spec_id_bool(c.boolean1),
            ) + spec_dot_bool(s, c.boolean1) + spec_edge(
                id,
                spec_term_id(c.op.start as int, c.op.end as int),
            ) + spec_dot_terminal(s, c.op.start as int, c.op.end as int) + spec_edge(
                id,
                spec_id_bool(c.boolean2),
            ) + spec_dot_bool(s, c.boolean2)
        },
        Boolean::NumCompare(c) => {
            let id = spec_id_bool(b);
            spec_node_line(id, spec_nt_label("BinOpNumBoolean")) + spec_edge(
                id,
                spec_id_number(c.num1),
            ) + spec_dot_number(s, c.num1) + spec_edge(
                id,
                spec_term_id(c.op.start as int, c.op.end as int),
            ) + spec_dot_terminal(s, c.op.start as int, c.op.end as int) + spec_edge(
                id,
                spec_id_number(c.num2),
            ) + spec_dot_number(s, c.num2)
        },
        Boolean::Parens(p) => {
            let id = spec_id_bool(b);
            spec_node_line(id, spec_nt_label("ParensBoolean")) + spec_edge(
                id,
                spec_term_id(p.lparen.start as int, p.lparen.end as int),
            ) + spec_dot_terminal(s, p.lparen.start as int, p.lparen.end as int) + spec_edge(
                id,
                spec_id_bool(p.boolean),
            ) + spec_dot_bool(s, p.boolean) + spec_edge(
                id,
                spec_term_id(p.rparen.start as int, p.rparen.end as int),
            ) + spec_dot_terminal(s, p.rparen.start as int, p.rparen.end as int)
        },
        Boolean::FromNumber(f) => {
            let id = spec_id_bool(b);
            spec_node_line(id, spec_conv_label("Number", "Boolean")) + spec_edge(
                id,
                spec_id_number(f.num),
            ) + spec_dot_number(s, f.num)
        },
    }
}

pub open spec fn spec_dot_str(s: Seq<u8>, t: Str) -> Seq<u8>
    decreases t,
{
    match t {
        Str::Lit(l) => spec_dot_terminal(s, l.start as int, l.end as int),
        Str::UCall(u) => {
            let id = spec_id_str(t);
            spec_node_line(id, spec_nt_label("U")) + spec_edge(
                id,
                spec_term_id(u.keyword.start as int, u.keyword.end as int),
            ) + spec_dot_terminal(s, u.keyword.start as int, u.keyword.end as int) + spec_edge(
                id,
                spec_term_id(u.lparen.start as int, u.lparen.end as int),
            ) + spec_dot_terminal(s, u.lparen.start as int, u.lparen.end as int) + spec_edge(
                id,
                spec_id_absnum(u.num),
            ) + spec_dot_absnum(s, u.num) + spec_edge(
                id,
                spec_term_id(u.rparen.start as int, u.rparen.end as int),
            ) + spec_dot_terminal(s, u.rparen.start as int, u.rparen.end as int)
        },
        Str::Concat(c) => {
            let id = spec_id_str(t);
            spec_node_line(id, spec_nt_label("Concat")) + spec_edge(
                id,
                spec_id_str(c.str1),
            ) + spec_dot_str(s, c.str1) + spec_edge(
                id,
                spec_term_id(c.op.start as int, c.op.end as int),
            ) + spec_dot_terminal(s, c.op.start as int, c.op.end as int) + spec_edge(
                id,
                spec_id_str(c.str2),
            ) + spec_dot_str(s, c.str2)
        },
        Str::FromNumber(f) => {
            let id = spec_id_str(t);
            spec_node_line(id, spec_conv_label("Number", "String")) + spec_edge(
                id,
                spec_id_number(f.num),
            ) + spec_dot_number(s, f.num)
        },
    }
}

pub open spec fn spec_dot_slo(s: Seq<u8>, o: SingleLineOp) -> Seq<u8>
    decreases o,
{
    match o {
        SingleLineOp::FromNumber(f) => {
            let id = spec_id_slo(o);
            spec_node_line(id, spec_conv_label("Number", "SingleLineOp")) + spec_edge(
                id,
                spec_id_number(f.num),
            ) + spec_dot_number(s, f.num)
        },
        SingleLineOp::Count(c) => {
            let id = spec_id_slo(o);
            spec_node_line(id, spec_nt_label("CountLineOp")) + spec_edge(
                id,
                spec_id_number(c.line),
            ) + spec_dot_number(s, c.line) + spec_edge(
                id,
                spec_term_id(c.sharp.start as int, c.sharp.end as int),
            ) + spec_dot_terminal(s, c.sharp.start as int, c.sharp.end as int) + spec_edge(
                id,
                spec_id_number(c.count),
            ) + spec_dot_number(s, c.count)
        },
    }
}

pub open spec fn spec_dot_lineop(s: Seq<u8>, l: LineOp) -> Seq<u8> {
    let id = spec_id_lineop(l);
    spec_node_line(id, spec_nt_label("LineOp")) + spec_edge(id, spec_id_slo(l.slo))
        + spec_dot_slo(s, l.slo)
}

pub open spec fn spec_dot_lineops(s: Seq<u8>, l: LineOps) -> Seq<u8>
    decreases l, 1int,
{
    match l {
        LineOps::Single(o) => spec_dot_lineop(s, *o),
        LineOps::List(ll) => spec_dot_lineoplist(s, *ll),
    }
}

pub open spec fn spec_dot_lineoplist(s: Seq<u8>, ll: LineOpList) -> Seq<u8>
    decreases ll, 0int,
{
    let id = spec_nt_id(slo_start(ll.lineop.slo), lineops_end(ll.list), "LineOpList");
    spec_node_line(id, spec_nt_label("LineOpList")) + spec_edge(
        id,
        spec_id_lineop(ll.lineop),
    ) + spec_dot_lineop(s, ll.lineop) + spec_edge(
        id,
        spec_term_id(ll.comma.start as int, ll.comma.end as int),
    ) + spec_dot_terminal(s, ll.comma.start as int, ll.comma.end as int) + spec_edge(
        id,
        spec_id_lineops(ll.list),
    ) + spec_dot_lineops(s, ll.list)
}

/// The edges and children shared by the three control wrappers:
/// `KEYWORD ( boolean ) statement`.
pub open spec fn spec_dot_control_children(
    s: Seq<u8>,
    id: Seq<u8>,
    keyword: TokenSpan,
    lparen: TokenSpan,
    boolean: Boolean,
    rparen: TokenSpan,
    statement: Statement,
) -> Seq<u8>
    decreases statement, 1int,
{
    spec_edge(id, spec_term_id(keyword.start as int, keyword.end as int)) + spec_dot_terminal(
        s,
        keyword.start as int,
        keyword.end as int,
    ) + spec_edge(id, spec_term_id(lparen.start as int, lparen.end as int)) + spec_dot_terminal(
        s,
        lparen.start as int,
        lparen.end as int,
    ) + spec_edge(id, spec_id_bool(boolean)) + spec_dot_bool(s, boolean) + spec_edge(
        id,
        spec_term_id(rparen.start as int, rparen.end as int),
    ) + spec_dot_terminal(s, rparen.start as int, rparen.end as int) + spec_edge(
        id,
        spec_id_stmt(statement),
    ) + spec_dot_stmt(s, statement)
}

pub open spec fn spec_dot_stmt(s: Seq<u8>, t: Statement) -> Seq<u8>
    decreases t, 0int,
{
    match t {
        Statement::Ops(o) => {
            let id = spec_id_stmt(t);
            spec_node_line(id, spec_nt_label("LineOperations")) + spec_edge(
                id,
                spec_id_lineops(o.lineops),
            ) + spec_dot_lineops(s, o.lineops)
        },
        Statement::Again(a) => spec_node_line(spec_id_stmt(t), spec_nt_label("Again"))
            + spec_dot_control_children(
            s,
            spec_id_stmt(t),
            a.keyword,
            a.lparen,
            a.boolean,
            a.rparen,
            a.statement,
        ),
        Statement::Defer(d) => spec_node_line(spec_id_stmt(t), spec_nt_label("Defer"))
            + spec_dot_control_children(
            s,
            spec_id_stmt(t),
            d.keyword,
            d.lparen,
            d.boolean,
            d.rparen,
            d.statement,
        ),
        Statement::Forget(f) => spec_node_line(spec_id_stmt(t), spec_nt_label("Forget"))
            + spec_dot_control_children(
            s,
            spec_id_stmt(t),
            f.keyword,
            f.lparen,
            f.boolean,
            f.rparen,
            f.statement,
        ),
        Statement::Print(p) => {
            let id = spec_id_stmt(t);
            spec_node_line(id, spec_nt_label("Print")) + spec_edge(
                id,
                spec_term_id(p.keyword.start as int, p.keyword.end as int),
            ) + spec_dot_terminal(s, p.keyword.start as int, p.keyword.end as int) + spec_edge(
                id,
                spec_term_id(p.lparen.start as int, p.lparen.end as int),
            ) + spec_dot_terminal(s, p.lparen.start as int, p.lparen.end as int) + spec_edge(
                id,
                spec_id_str(p.string),
            ) + spec_dot_str(s, p.string) + spec_edge(
                id,
                spec_term_id(p.rparen.start as int, p.rparen.end as int),
            ) + spec_dot_terminal(s, p.rparen.start as int, p.rparen.end as int)
        },
    }
}

/// The edges from the root to its children, and the children's own
/// descriptions.
pub open spec fn spec_dot_line_children(s: Seq<u8>, l: Line) -> Seq<u8> {
    let id = spec_id_line(l);
    spec_edge(id, spec_term_id(l.num.start as int, l.num.end as int)) + spec_dot_numtok(s, l.num)
        + spec_edge(id, spec_id_stmt(l.stmt)) + spec_dot_stmt(s, l.stmt) + spec_edge(
        id,
        spec_term_id(l.semi.start as int, l.semi.end as int),
    ) + spec_dot_terminal(s, l.semi.start as int, l.semi.end as int)
}

/// The whole export of a line: the root's line, then its subtree.
pub open spec fn spec_dot_line(s: Seq<u8>, l: Line) -> Seq<u8> {
    spec_node_line(spec_id_line(l), spec_nt_label("Line")) + spec_dot_line_children(s, l)
}

/// Concatenation of byte sequences is associative: lets the emitted
/// chunks regroup freely when an emitter is held to its specification.
broadcast proof fn lemma_bytes_add_assoc(a: Seq<u8>, b: Seq<u8>, c: Seq<u8>)
    ensures
        #[trigger] ((a + b) + c) == a + (b + c),
{
    assert((a + b) + c =~= a + (b + c));
}

// Text building blocks for the export.

/// Appends the UTF-8 bytes of `s`.
fn push_str(out: &mut Vec<u8>, s: &str)
    ensures
        final(out)@ == old(out)@ + s.spec_bytes(),
{
    let b: &[u8] = s.as_bytes();
    let mut k: usize = 0;
    while k < b.len()
        invariant
            0 <= k <= b@.len(),
            b@ == s.spec_bytes(),
            out@ == old(out)@ + b@.subrange(0, k as int),
        decreases b@.len() - k,
    {
        out.push(*vstd::slice::slice_index_get(b, k));
        proof {
            assert(out@ == old(out)@ + b@.subrange(0, k + 1 as int));
        }
        k = k + 1;
    }
    proof {
        assert(b@.subrange(0, b@.len() as int) == b@);
    }
}

/// Appends the input bytes `[a, b)`.
fn push_range(out: &mut Vec<u8>, input: &[u8], a: usize, b: usize)
    requires
        a <= b <= input@.len(),
    ensures
        final(out)@ == old(out)@ + input@.subrange(a as int, b as int),
{
    let mut k: usize = a;
    while k < b
        invariant
            a <= k <= b <= input@.len(),
            out@ == old(out)@ + input@.subrange(a as int, k as int),
        decreases b - k,
    {
        out.push(*vstd::slice::slice_index_get(input, k));
        proof {
            assert(out@ == old(out)@ + input@.subrange(a as int, k + 1 as int));
        }
        k = k + 1;
    }
}

/// The byte of one hexadecimal digit, lower case.
pub open spec fn hex_digit(d: int) -> u8 {
    if d < 10 {
        (48 + d) as u8
    } else {
        (87 + d) as u8
    }
}

/// The hexadecimal digits of `v`, most significant first, no leading
/// zeros (the single digit `0` for zero).
pub open spec fn hex_seq(v: int) -> Seq<u8>
    decreases v,
{
    if v < 16 {
        seq![hex_digit(v)]
    } else {
        hex_seq(v / 16).push(hex_digit(v % 16))
    }
}

/// The decimal digits of `v`, most significant first, no leading zeros.
pub open spec fn dec_seq(v: int) -> Seq<u8>
    decreases v,
{
    if v < 10 {
        seq![(48 + if 0 <= v { v } else { 0 }) as u8]
    } else {
        dec_seq(v / 10).push((48 + v % 10) as u8)
    }
}

fn hex_digit_at(d: u64) -> (r: u8)
    requires
        d < 16,
    ensures
        r == hex_digit(d as int),
{
    if d < 10 {
        (48 + d) as u8
    } else {
        (87 + d) as u8
    }
}

/// Appends `v` in hexadecimal.
fn push_hex(out: &mut Vec<u8>, v: u64)
    ensures
        final(out)@ == old(out)@ + hex_seq(v as int),
    decreases v,
{
    if v < 16 {
        out.push(hex_digit_at(v));
    } else {
        push_hex(out, v / 16);
        out.push(hex_digit_at(v % 16));
    }
}

/// Appends `v` in decimal.
fn push_dec(out: &mut Vec<u8>, v: u64)
    ensures
        final(out)@ == old(out)@ + dec_seq(v as int),
    decreases v,
{
    if v < 10 {
        out.push((48 + v) as u8);
    } else {
        push_dec(out, v / 10);
        out.push((48 + v % 10) as u8);
    }
}

/// Appends a copy of `v`.
fn push_vec(out: &mut Vec<u8>, v: &Vec<u8>)
    ensures
        final(out)@ == old(out)@ + v@,
{
    let mut k: usize = 0;
    while k < v.len()
        invariant
            0 <= k <= v@.len(),
            out@ == old(out)@ + v@.subrange(0, k as int),
        decreases v@.len() - k,
    {
        out.push(v[k]);
        proof {
            assert(out@ == old(out)@ + v@.subrange(0, k + 1 as int));
        }
        k = k + 1;
    }
    proof {
        assert(v@.subrange(0, v@.len() as int) == v@);
    }
}

// Node identities.
//
// A terminal's identity is its offset from the start of the input, in
// hexadecimal, and its length: `0x{offset}_{len}`.  A composite adds its
// grammar name, `0x{offset}_{len}_{Name}`; a coercion node appends its own
// name to the identity of its single child.  Offsets make the identity
// deterministic and reproducible.

/// The identity of the terminal spanning `[start, end)`.
fn term_id(start: usize, end: usize) -> (r: Vec<u8>)
    requires
        start <= end,
    ensures
        r@ == spec_term_id(start as int, end as int),
{
    proof {
        reveal(spec_term_id);
    }
    let mut out: Vec<u8> = Vec::new();
    push_str(&mut out, "0x");
    push_hex(&mut out, start as u64);
    push_str(&mut out, "_");
    push_dec(&mut out, (end - start) as u64);
    proof {
        assert(out@ =~= spec_term_id(start as int, end as int));
    }
    out
}

/// The identity of the composite named `name` spanning `[start, end)`.
fn nt_id(start: usize, end: usize, name: &str) -> (r: Vec<u8>)
    requires
        start <= end,
    ensures
        r@ == spec_nt_id(start as int, end as int, name),
{
    proof {
        reveal(spec_nt_id);
    }
    let mut out = term_id(start, end);
    push_str(&mut out, "_");
    push_str(&mut out, name);
    proof {
        assert(out@ =~= spec_nt_id(start as int, end as int, name));
    }
    out
}

fn id_absnum(input: &[u8], a: &AbsNumber) -> (r: Vec<u8>)
    requires
        wf_absnum(input@, *a),
    ensures
        r@ == spec_id_absnum(*a),
    decreases *a,
{
    match a {
        AbsNumber::Num(t) => term_id(t.start, t.end),
        AbsNumber::NCall(n) => {
            proof {
                lemma_absnum_span(input@, *a);
            }
            nt_id(n.keyword.start, n.rparen.end, "N")
        },
        AbsNumber::ReadCall(r) => {
            proof {
                lemma_absnum_span(input@, *a);
            }
            nt_id(r.keyword.start, r.rparen.end, "Read")
        },
    }
}

fn id_number(input: &[u8], n: &Number) -> (r: Vec<u8>)
    requires
        wf_num(input@, *n),
    ensures
        r@ == spec_id_number(*n),
    decreases *n,
{
    proof {
        lemma_num_span(input@, *n);
    }
    match n {
        Number::Absolute(w) => {
            let span = span_absnum(&w.num);
            nt_id(span.0, span.1, "AbsoluteNumber")
        },
        Number::UnOp(u) => {
            let span = span_num(&u.num);
            let t = match &u.op {
                UnMathOp::Plus(t) => t,
                UnMathOp::Minus(t) => t,
            };
            nt_id(t.start, span.1, "UnOpNumber")
        },
        Number::BinOp(b) => {
            proof {
                lemma_num_span(input@, b.num1);
                lemma_num_span(input@, b.num2);
            }
            let s1 = span_num(&b.num1);
            let s2 = span_num(&b.num2);
            nt_id(s1.0, s2.1, "BinOpNumber")
        },
        Number::Parens(p) => nt_id(p.lparen.start, p.rparen.end, "ParensNumber"),
        Number::FromString(f) => {
            let mut out = id_str(input, &f.string);
            push_str(&mut out, "_StringToNum");
            out
        },
    }
}

fn id_bool(input: &[u8], b: &Boolean) -> (r: Vec<u8>)
    requires
        wf_bool(input@, *b),
    ensures
        r@ == spec_id_bool(*b),
    decreases *b,
{
    proof {
        lemma_bool_span(input@, *b);
    }
    match b {
        Boolean::UnOp(u) => {
            let span = span_bool(&u.boolean);
            nt_id(u.op.start, span.1, "UnOpBoolean")
        },
        Boolean::BinOp(c) => {
            proof {
                lemma_bool_span(input@, c.boolean1);
                lemma_bool_span(input@, c.boolean2);
            }
            let s1 = span_bool(&c.boolean1);
            let s2 = span_bool(&c.boolean2);
            nt_id(s1.0, s2.1, "BinOpBoolean")
        },
        Boolean::NumCompare(c) => {
            proof {
                lemma_num_span(input@, c.num1);
                lemma_num_span(input@, c.num2);
            }
            let s1 = span_num(&c.num1);
            let s2 = span_num(&c.num2);
            nt_id(s1.0, s2.1, "BinOpNumBoolean")
        },
        Boolean::Parens(p) => nt_id(p.lparen.start, p.rparen.end, "ParensBoolean"),
        Boolean::FromNumber(f) => {
            let mut out = id_number(input, &f.num);
            push_str(&mut out, "_NumToBool");
            out
        },
    }
}

fn id_str(input: &[u8], t: &Str) -> (r: Vec<u8>)
    requires
        wf_str(input@, *t),
    ensures
        r@ == spec_id_str(*t),
    decreases *t,
{
    proof {
        lemma_str_span(input@, *t);
    }
    match t {
        Str::Lit(l) => term_id(l.start, l.end),
        Str::UCall(u) => nt_id(u.keyword.start, u.rparen.end, "U"),
        Str::Concat(c) => {
            proof {
                lemma_str_span(input@, c.str1);
                lemma_str_span(input@, c.str2);
            }
            let s1 = span_str(&c.str1);
            let s2 = span_str(&c.str2);
            nt_id(s1.0, s2.1, "Concat")
        },
        Str::FromNumber(f) => {
            let mut out = id_number(input, &f.num);
            push_str(&mut out, "_NumToString");
            out
        },
    }
}

fn id_slo(input: &[u8], o: &SingleLineOp) -> (r: Vec<u8>)
    requires
        wf_slo(input@, *o),
    ensures
        r@ == spec_id_slo(*o),
    decreases *o,
{
    match o {
        SingleLineOp::FromNumber(f) => {
            let mut out = id_number(input, &f.num);
            push_str(&mut out, "_NumToLineOp");
            out
        },
        SingleLineOp::Count(c) => {
            proof {
                lemma_num_span(input@, c.line);
                lemma_num_span(input@, c.count);
            }
            let s1 = span_num(&c.line);
            let s2 = span_num(&c.count);
            nt_id(s1.0, s2.1, "CountLineOp")
        },
    }
}

fn id_lineop(input: &[u8], l: &LineOp) -> (r: Vec<u8>)
    requires
        wf_slo(input@, l.slo),
    ensures
        r@ == spec_id_lineop(*l),
{
    proof {
        lemma_slo_span(input@, l.slo);
    }
    let span = span_slo(&l.slo);
    nt_id(span.0, span.1, "LineOp")
}

fn id_lineops(input: &[u8], l: &LineOps) -> (r: Vec<u8>)
    requires
        wf_lineops(input@, *l),
    ensures
        r@ == spec_id_lineops(*l),
    decreases *l,
{
    match l {
        LineOps::Single(o) => id_lineop(input, o),
        LineOps::List(ll) => {
            proof {
                lemma_slo_span(input@, ll.lineop.slo);
                lemma_lineops_span(input@, ll.list);
            }
            let s1 = span_slo(&ll.lineop.slo);
            let s2 = span_lineops(&ll.list);
            nt_id(s1.0, s2.1, "LineOpList")
        },
    }
}

fn id_stmt(input: &[u8], t: &Statement) -> (r: Vec<u8>)
    requires
        wf_stmt(input@, *t),
    ensures
        r@ == spec_id_stmt(*t),
    decreases *t,
{
    proof {
        lemma_stmt_span(input@, *t);
    }
    match t {
        Statement::Ops(o) => {
            let span = span_lineops(&o.lineops);
            nt_id(span.0, span.1, "LineOperations")
        },
        Statement::Again(a) => {
            proof {
                lemma_stmt_span(input@, a.statement);
            }
            let span = span_stmt(&a.statement);
            nt_id(a.keyword.start, span.1, "Again")
        },
        Statement::Defer(d) => {
            proof {
                lemma_stmt_span(input@, d.statement);
            }
            let span = span_stmt(&d.statement);
            nt_id(d.keyword.start, span.1, "Defer")
        },
        Statement::Forget(f) => {
            proof {
                lemma_stmt_span(input@, f.statement);
            }
            let span = span_stmt(&f.statement);
            nt_id(f.keyword.start, span.1, "Forget")
        },
        Statement::Print(p) => nt_id(p.keyword.start, p.rparen.end, "Print"),
    }
}

fn id_line(input: &[u8], l: &Line) -> (r: Vec<u8>)
    requires
        wf_line(input@, *l),
    ensures
        r@ == spec_id_line(*l),
{
    proof {
        lemma_line_span(input@, *l);
    }
    nt_id(l.num.start, l.semi.end, "Line")
}

// Emission of the node/edge description: for each node one line naming its
// identity and label, and for each composite one edge line per child,
// followed by the child's own description, children in source order.

/// Appends `  "{id}" [label=` — the label and the closing `];\n` follow.
fn push_node_head(out: &mut Vec<u8>, id: &Vec<u8>)
    ensures
        final(out)@ == old(out)@ + spec_node_head(id@),
{
    proof {
        reveal(spec_node_head);
    }
    push_str(out, "  \"");
    push_vec(out, id);
    push_str(out, "\" [label=");
    proof {
        assert(out@ =~= old(out)@ + spec_node_head(id@));
    }
}

fn push_node_tail(out: &mut Vec<u8>)
    ensures
        final(out)@ == old(out)@ + spec_node_tail(),
{
    proof {
        reveal(spec_node_tail);
    }
    push_str(out, "];\n");
}

/// Appends the edge line `  "{a}" -> "{b}";\n`.
fn push_edge(out: &mut Vec<u8>, a: &Vec<u8>, b: &Vec<u8>)
    ensures
        final(out)@ == old(out)@ + spec_edge(a@, b@),
{
    proof {
        reveal(spec_edge);
    }
    push_str(out, "  \"");
    push_vec(out, a);
    push_str(out, "\" -> \"");
    push_vec(out, b);
    push_str(out, "\";\n");
    proof {
        assert(out@ =~= old(out)@ + spec_edge(a@, b@));
    }
}

/// Appends the node line of the plain terminal spanning `[start, end)`:
/// its label is the text it covers, in quotes.
fn dot_terminal(out: &mut Vec<u8>, input: &[u8], start: usize, end: usize)
    requires
        start <= end <= input@.len(),
    ensures
        final(out)@ == old(out)@ + spec_dot_terminal(input@, start as int, end as int),
{
    proof {
        reveal(spec_dot_terminal);
        reveal(spec_term_label);
    }
    broadcast use lemma_bytes_add_assoc;

    let id = term_id(start, end);
    push_node_head(out, &id);
    push_str(out, "\"");
    push_range(out, input, start, end);
    push_str(out, "\"");
    push_node_tail(out);
    proof {
        assert(out@ =~= old(out)@ + spec_dot_terminal(input@, start as int, end as int));
    }
}

/// Appends the node line of a numeral terminal: its text and its decoded
/// value.
fn dot_number_terminal(out: &mut Vec<u8>, input: &[u8], t: &NumberToken)
    requires
        t.start <= t.end <= input@.len(),
    ensures
        final(out)@ == old(out)@ + spec_dot_numtok(input@, *t),
{
    proof {
        reveal(spec_dot_numtok);
        reveal(spec_numtok_label);
    }
    broadcast use lemma_bytes_add_assoc;

    let id = term_id(t.start, t.end);
    push_node_head(out, &id);
    push_str(out, "\"");
    push_range(out, input, t.start, t.end);
    push_str(out, " (");
    push_dec(out, t.val);
    push_str(out, ")\"");
    push_node_tail(out);
    proof {
        assert(out@ =~= old(out)@ + spec_dot_numtok(input@, *t));
    }
}

/// Appends a composite's label `<<I>{name}</I>>`.
fn push_nt_label(out: &mut Vec<u8>, name: &str)
    ensures
        final(out)@ == old(out)@ + spec_nt_label(name),
{
    proof {
        reveal(spec_nt_label);
    }
    push_str(out, "<<I>");
    push_str(out, name);
    push_str(out, "</I>>");
    proof {
        assert(out@ =~= old(out)@ + spec_nt_label(name));
    }
}

/// Appends a coercion's label `<<I>{from} \u{2B95} {to}</I>>`.
fn push_conv_label(out: &mut Vec<u8>, from: &str, to: &str)
    ensures
        final(out)@ == old(out)@ + spec_conv_label(from, to),
{
    proof {
        reveal(spec_conv_label);
    }
    push_str(out, "<<I>");
    push_str(out, from);
    push_str(out, " \u{2B95} ");
    push_str(out, to);
    push_str(out, "</I>>");
    proof {
        assert(out@ =~= old(out)@ + spec_conv_label(from, to));
    }
}

#[verifier::rlimit(100)]
fn dot_absnum(out: &mut Vec<u8>, input: &[u8], a: &AbsNumber)
    requires
        wf_absnum(input@, *a),
    ensures
        final(out)@ == old(out)@ + spec_dot_absnum(input@, *a),
    decreases *a,
{
    broadcast use lemma_bytes_add_assoc;

    match a {
        AbsNumber::Num(t) => dot_number_terminal(out, input, t),
        AbsNumber::NCall(n) => {
            proof {
                lemma_absnum_span(input@, *a);
            }
            let id = nt_id(n.keyword.start, n.rparen.end, "N");
            push_node_head(out, &id);
            push_nt_label(out, "N");
            push_node_tail(out);
            let kid = term_id(n.keyword.start, n.keyword.end);
            push_edge(out, &id, &kid);
            dot_terminal(out, input, n.keyword.start, n.keyword.end);
            let lid = term_id(n.lparen.start, n.lparen.end);
            push_edge(out, &id, &lid);
            dot_terminal(out, input, n.lparen.start, n.lparen.end);
            let nid = id_number(input, &n.num);
            push_edge(out, &id, &nid);
            dot_number(out, input, &n.num);
            let rid = term_id(n.rparen.start, n.rparen.end);
            push_edge(out, &id, &rid);
            dot_terminal(out, input, n.rparen.start, n.rparen.end);
        },
        AbsNumber::ReadCall(r) => {
            proof {
                lemma_absnum_span(input@, *a);
            }
            let id = nt_id(r.keyword.start, r.rparen.end, "Read");
            push_node_head(out, &id);
            push_nt_label(out, "Read");
            push_node_tail(out);
            let kid = term_id(r.keyword.start, r.keyword.end);
            push_edge(out, &id, &kid);
            dot_terminal(out, input, r.keyword.start, r.keyword.end);
            let lid = term_id(r.lparen.start, r.lparen.end);
            push_edge(out, &id, &lid);
            dot_terminal(out, input, r.lparen.start, r.lparen.end);
            let rid = term_id(r.rparen.start, r.rparen.end);
            push_edge(out, &id, &rid);
            dot_terminal(out, input, r.rparen.start, r.rparen.end);
        },
    }
}

#[verifier::rlimit(100)]
fn dot_number(out: &mut Vec<u8>, input: &[u8], n: &Number)
    requires
        wf_num(input@, *n),
    ensures
        final(out)@ == old(out)@ + spec_dot_number(input@, *n),
    decreases *n,
{
    broadcast use lemma_bytes_add_assoc;

    match n {
        Number::Absolute(w) => {
            proof {
                lemma_absnum_span(input@, w.num);
            }
            let span = span_absnum(&w.num);
            let id = nt_id(span.0, span.1, "AbsoluteNumber");
            push_node_head(out, &id);
            push_nt_label(out, "AbsoluteNumber");
            push_node_tail(out);
            let cid = id_absnum(input, &w.num);
            push_edge(out, &id, &cid);
            dot_absnum(out, input, &w.num);
        },
        Number::UnOp(u) => {
            proof {
                lemma_num_span(input@, u.num);
            }
            let t = match &u.op {
                UnMathOp::Plus(t) => *t,
                UnMathOp::Minus(t) => *t,
            };
            let span = span_num(&u.num);
            let id = nt_id(t.start, span.1, "UnOpNumber");
            push_node_head(out, &id);
            push_nt_label(out, "UnOpNumber");
            push_node_tail(out);
            let oid = term_id(t.start, t.end);
            push_edge(out, &id, &oid);
            dot_terminal(out, input, t.start, t.end);
            let nid = id_number(input, &u.num);
            push_edge(out, &id, &nid);
            dot_number(out, input, &u.num);
        },
        Number::BinOp(b) => {
            proof {
                lemma_num_span(input@, b.num1);
                lemma_num_span(input@, b.num2);
            }
            let t = match &b.op {
                BinMathOp::Plus(t) => *t,
                BinMathOp::Minus(t) => *t,
                BinMathOp::MathOp(t) => *t,
            };
            let s1 = span_num(&b.num1);
            let s2 = span_num(&b.num2);
            let id = nt_id(s1.0, s2.1, "BinOpNumber");
            push_node_head(out, &id);
            push_nt_label(out, "BinOpNumber");
            push_node_tail(out);
            let n1 = id_number(input, &b.num1);
            push_edge(out, &id, &n1);
            dot_number(out, input, &b.num1);
            let oid = term_id(t.start, t.end);
            push_edge(out, &id, &oid);
            dot_terminal(out, input, t.start, t.end);
            let n2 = id_number(input, &b.num2);
            push_edge(out, &id, &n2);
            dot_number(out, input, &b.num2);
        },
        Number::Parens(p) => {
            proof {
                lemma_num_span(input@, p.num);
            }
            let id = nt_id(p.lparen.start, p.rparen.end, "ParensNumber");
            push_node_head(out, &id);
            push_nt_label(out, "ParensNumber");
            push_node_tail(out);
            let lid = term_id(p.lparen.start, p.lparen.end);
            push_edge(out, &id, &lid);
            dot_terminal(out, input, p.lparen.start, p.lparen.end);
            let nid = id_number(input, &p.num);
            push_edge(out, &id, &nid);
            dot_number(out, input, &p.num);
            let rid = term_id(p.rparen.start, p.rparen.end);
            push_edge(out, &id, &rid);
            dot_terminal(out, input, p.rparen.start, p.rparen.end);
        },
        Number::FromString(f) => {
            let cid = id_str(input, &f.string);
            let mut id = id_str(input, &f.string);
            push_str(&mut id, "_StringToNum");
            push_node_head(out, &id);
            push_conv_label(out, "String", "Number");
            push_node_tail(out);
            push_edge(out, &id, &cid);
            dot_str(out, input, &f.string);
        },
    }
}

#[verifier::rlimit(100)]
fn dot_bool(out: &mut Vec<u8>, input: &[u8], b: &Boolean)
    requires
        wf_bool(input@, *b),
    ensures
        final(out)@ == old(out)@ + spec_dot_bool(input@, *b),
    decreases *b,
{
    broadcast use lemma_bytes_add_assoc;

    match b {
        Boolean::UnOp(u) => {
            proof {
                lemma_bool_span(input@, u.boolean);
            }
            let span = span_bool(&u.boolean);
            let id = nt_id(u.op.start, span.1, "UnOpBoolean");
            push_node_head(out, &id);
            push_nt_label(out, "UnOpBoolean");
            push_node_tail(out);
            let oid = term_id(u.op.start, u.op.end);
            push_edge(out, &id, &oid);
            dot_terminal(out, input, u.op.start, u.op.end);
            let cid = id_bool(input, &u.boolean);
            push_edge(out, &id, &cid);
            dot_bool(out, input, &u.boolean);
        },
        Boolean::BinOp(c) => {
            proof {
                lemma_bool_span(input@, c.boolean1);
                lemma_bool_span(input@, c.boolean2);
            }
            let s1 = span_bool(&c.boolean1);
            let s2 = span_bool(&c.boolean2);
            let id = nt_id(s1.0, s2.1, "BinOpBoolean");
            push_node_head(out, &id);
            push_nt_label(out, "BinOpBoolean");
            push_node_tail(out);
            let b1 = id_bool(input, &c.boolean1);
            push_edge(out, &id, &b1);
            dot_bool(out, input, &c.boolean1);
            let oid = term_id(c.op.start, c.op.end);
            push_edge(out, &id, &oid);
            dot_terminal(out, input, c.op.start, c.op.end);
            let b2 = id_bool(input, &c.boolean2);
            push_edge(out, &id, &b2);
            dot_bool(out, input, &c.boolean2);
        },
        Boolean::NumCompare(c) => {
            proof {
                lemma_num_span(input@, c.num1);
                lemma_num_span(input@, c.num2);
            }
            let s1 = span_num(&c.num1);
            let s2 = span_num(&c.num2);
            let id = nt_id(s1.0, s2.1, "BinOpNumBoolean");
            push_node_head(out, &id);
            push_nt_label(out, "BinOpNumBoolean");
            push_node_tail(out);
            let n1 = id_number(input, &c.num1);
            push_edge(out, &id, &n1);
            dot_number(out, input, &c.num1);
            let oid = term_id(c.op.start, c.op.end);
            push_edge(out, &id, &oid);
            dot_terminal(out, input, c.op.start, c.op.end);
            let n2 = id_number(input, &c.num2);
            push_edge(out, &id, &n2);
            dot_number(out, input, &c.num2);
        },
        Boolean::Parens(p) => {
            proof {
                lemma_bool_span(input@, p.boolean);
            }
            let id = nt_id(p.lparen.start, p.rparen.end, "ParensBoolean");
            push_node_head(out, &id);
            push_nt_label(out, "ParensBoolean");
            push_node_tail(out);
            let lid = term_id(p.lparen.start, p.lparen.end);
            push_edge(out, &id, &lid);
            dot_terminal(out, input, p.lparen.start, p.lparen.end);
            let cid = id_bool(input, &p.boolean);
            push_edge(out, &id, &cid);
            dot_bool(out, input, &p.boolean);
            let rid = term_id(p.rparen.start, p.rparen.end);
            push_edge(out, &id, &rid);
            dot_terminal(out, input, p.rparen.start, p.rparen.end);
        },
        Boolean::FromNumber(f) => {
            let cid = id_number(input, &f.num);
            let mut id = id_number(input, &f.num);
            push_str(&mut id, "_NumToBool");
            push_node_head(out, &id);
            push_conv_label(out, "Number", "Boolean");
            push_node_tail(out);
            push_edge(out, &id, &cid);
            dot_number(out, input, &f.num);
        },
    }
}

#[verifier::rlimit(100)]
fn dot_str(out: &mut Vec<u8>, input: &[u8], t: &Str)
    requires
        wf_str(input@, *t),
    ensures
        final(out)@ == old(out)@ + spec_dot_str(input@, *t),
    decreases *t,
{
    broadcast use lemma_bytes_add_assoc;

    match t {
        Str::Lit(l) => dot_terminal(out, input, l.start, l.end),
        Str::UCall(u) => {
            proof {
                lemma_absnum_span(input@, u.num);
            }
            let id = nt_id(u.keyword.start, u.rparen.end, "U");
            push_node_head(out, &id);
            push_nt_label(out, "U");
            push_node_tail(out);
            let kid = term_id(u.keyword.start, u.keyword.end);
            push_edge(out, &id, &kid);
            dot_terminal(out, input, u.keyword.start, u.keyword.end);
            let lid = term_id(u.lparen.start, u.lparen.end);
            push_edge(out, &id, &lid);
            dot_terminal(out, input, u.lparen.start, u.lparen.end);
            let nid = id_absnum(input, &u.num);
            push_edge(out, &id, &nid);
            dot_absnum(out, input, &u.num);
            let rid = term_id(u.rparen.start, u.rparen.end);
            push_edge(out, &id, &rid);
            dot_terminal(out, input, u.rparen.start, u.rparen.end);
        },
        Str::Concat(c) => {
            proof {
                lemma_str_span(input@, c.str1);
                lemma_str_span(input@, c.str2);
            }
            let s1 = span_str(&c.str1);
            let s2 = span_str(&c.str2);
            let id = nt_id(s1.0, s2.1, "Concat");
            push_node_head(out, &id);
            push_nt_label(out, "Concat");
            push_node_tail(out);
            let c1 = id_str(input, &c.str1);
            push_edge(out, &id, &c1);
            dot_str(out, input, &c.str1);
            let oid = term_id(c.op.start, c.op.end);
            push_edge(out, &id, &oid);
            dot_terminal(out, input, c.op.start, c.op.end);
            let c2 = id_str(input, &c.str2);
            push_edge(out, &id, &c2);
            dot_str(out, input, &c.str2);
        },
        Str::FromNumber(f) => {
            let cid = id_number(input, &f.num);
            let mut id = id_number(input, &f.num);
            push_str(&mut id, "_NumToString");
            push_node_head(out, &id);
            push_conv_label(out, "Number", "String");
            push_node_tail(out);
            push_edge(out, &id, &cid);
            dot_number(out, input, &f.num);
        },
    }
}

#[verifier::rlimit(100)]
fn dot_slo(out: &mut Vec<u8>, input: &[u8], o: &SingleLineOp)
    requires
        wf_slo(input@, *o),
    ensures
        final(out)@ == old(out)@ + spec_dot_slo(input@, *o),
    decreases *o,
{
    broadcast use lemma_bytes_add_assoc;

    match o {
        SingleLineOp::FromNumber(f) => {
            let cid = id_number(input, &f.num);
            let mut id = id_number(input, &f.num);
            push_str(&mut id, "_NumToLineOp");
            push_node_head(out, &id);
            push_conv_label(out, "Number", "SingleLineOp");
            push_node_tail(out);
            push_edge(out, &id, &cid);
            dot_number(out, input, &f.num);
        },
        SingleLineOp::Count(c) => {
            proof {
                lemma_num_span(input@, c.line);
                lemma_num_span(input@, c.count);
            }
            let s1 = span_num(&c.line);
            let s2 = span_num(&c.count);
            let id = nt_id(s1.0, s2.1, "CountLineOp");
            push_node_head(out, &id);
            push_nt_label(out, "CountLineOp");
            push_node_tail(out);
            let n1 = id_number(input, &c.line);
            push_edge(out, &id, &n1);
            dot_number(out, input, &c.line);
            let oid = term_id(c.sharp.start, c.sharp.end);
            push_edge(out, &id, &oid);
            dot_terminal(out, input, c.sharp.start, c.sharp.end);
            let n2 = id_number(input, &c.count);
            push_edge(out, &id, &n2);
            dot_number(out, input, &c.count);
        },
    }
}

fn dot_lineop(out: &mut Vec<u8>, input: &[u8], l: &LineOp)
    requires
        wf_slo(input@, l.slo),
    ensures
        final(out)@ == old(out)@ + spec_dot_lineop(input@, *l),
{
    broadcast use lemma_bytes_add_assoc;

    proof {
        lemma_slo_span(input@, l.slo);
    }
    let span = span_slo(&l.slo);
    let id = nt_id(span.0, span.1, "LineOp");
    push_node_head(out, &id);
    push_nt_label(out, "LineOp");
    push_node_tail(out);
    let cid = id_slo(input, &l.slo);
    push_edge(out, &id, &cid);
    dot_slo(out, input, &l.slo);
}

fn dot_lineops(out: &mut Vec<u8>, input: &[u8], l: &LineOps)
    requires
        wf_lineops(input@, *l),
    ensures
        final(out)@ == old(out)@ + spec_dot_lineops(input@, *l),
    decreases *l, 1int,
{
    match l {
        LineOps::Single(o) => dot_lineop(out, input, o),
        LineOps::List(ll) => dot_lineoplist(out, input, ll),
    }
}

#[verifier::rlimit(100)]
fn dot_lineoplist(out: &mut Vec<u8>, input: &[u8], ll: &LineOpList)
    requires
        wf_slo(input@, ll.lineop.slo),
        tok_at(input@, ll.comma, TokenVariant::Comma),
        wf_lineops(input@, ll.list),
        slo_end(ll.lineop.slo) <= ll.comma.start,
        ll.comma.end <= lineops_start(ll.list),
    ensures
        final(out)@ == old(out)@ + spec_dot_lineoplist(input@, *ll),
    decreases *ll, 0int,
{
    broadcast use lemma_bytes_add_assoc;

    proof {
        lemma_slo_span(input@, ll.lineop.slo);
        lemma_lineops_span(input@, ll.list);
    }
    let s1 = span_slo(&ll.lineop.slo);
    let s2 = span_lineops(&ll.list);
    let id = nt_id(s1.0, s2.1, "LineOpList");
    push_node_head(out, &id);
    push_nt_label(out, "LineOpList");
    push_node_tail(out);
    proof {
        assert(out@ =~= old(out)@ + spec_node_line(id@, spec_nt_label("LineOpList")));
    }
    let c1 = id_lineop(input, &ll.lineop);
    push_edge(out, &id, &c1);
    dot_lineop(out, input, &ll.lineop);
    let oid = term_id(ll.comma.start, ll.comma.end);
    push_edge(out, &id, &oid);
    dot_terminal(out, input, ll.comma.start, ll.comma.end);
    let c2 = id_lineops(input, &ll.list);
    push_edge(out, &id, &c2);
    dot_lineops(out, input, &ll.list);
    proof {
        assert(out@ == old(out)@ + spec_dot_lineoplist(input@, *ll));
    }
}

#[verifier::rlimit(100)]
fn dot_stmt(out: &mut Vec<u8>, input: &[u8], t: &Statement)
    requires
        wf_stmt(input@, *t),
    ensures
        final(out)@ == old(out)@ + spec_dot_stmt(input@, *t),
    decreases *t, 0int,
{
    broadcast use lemma_bytes_add_assoc;

    match t {
        Statement::Ops(o) => {
            proof {
                lemma_lineops_span(input@, o.lineops);
            }
            let span = span_lineops(&o.lineops);
            let id = nt_id(span.0, span.1, "LineOperations");
            push_node_head(out, &id);
            push_nt_label(out, "LineOperations");
            push_node_tail(out);
            let cid = id_lineops(input, &o.lineops);
            push_edge(out, &id, &cid);
            dot_lineops(out, input, &o.lineops);
        },
        Statement::Again(a) => {
            proof {
                lemma_bool_span(input@, a.boolean);
                lemma_stmt_span(input@, a.statement);
            }
            let span = span_stmt(&a.statement);
            let id = nt_id(a.keyword.start, span.1, "Again");
            push_node_head(out, &id);
            push_nt_label(out, "Again");
            push_node_tail(out);
            dot_control_children(out, input, &id, a.keyword, a.lparen, &a.boolean, a.rparen,
                &a.statement);
        },
        Statement::Defer(d) => {
            proof {
                lemma_bool_span(input@, d.boolean);
                lemma_stmt_span(input@, d.statement);
            }
            let span = span_stmt(&d.statement);
            let id = nt_id(d.keyword.start, span.1, "Defer");
            push_node_head(out, &id);
            push_nt_label(out, "Defer");
            push_node_tail(out);
            dot_control_children(out, input, &id, d.keyword, d.lparen, &d.boolean, d.rparen,
                &d.statement);
        },
        Statement::Forget(f) => {
            proof {
                lemma_bool_span(input@, f.boolean);
                lemma_stmt_span(input@, f.statement);
            }
            let span = span_stmt(&f.statement);
            let id = nt_id(f.keyword.start, span.1, "Forget");
            push_node_head(out, &id);
            push_nt_label(out, "Forget");
            push_node_tail(out);
            dot_control_children(out, input, &id, f.keyword, f.lparen, &f.boolean, f.rparen,
                &f.statement);
        },
        Statement::Print(p) => {
            proof {
                lemma_str_span(input@, p.string);
            }
            let id = nt_id(p.keyword.start, p.rparen.end, "Print");
            push_node_head(out, &id);
            push_nt_label(out, "Print");
            push_node_tail(out);
            let kid = term_id(p.keyword.start, p.keyword.end);
            push_edge(out, &id, &kid);
            dot_terminal(out, input, p.keyword.start, p.keyword.end);
            let lid = term_id(p.lparen.start, p.lparen.end);
            push_edge(out, &id, &lid);
            dot_terminal(out, input, p.lparen.start, p.lparen.end);
            let sid = id_str(input, &p.string);
            push_edge(out, &id, &sid);
            dot_str(out, input, &p.string);
            let rid = term_id(p.rparen.start, p.rparen.end);
            push_edge(out, &id, &rid);
            dot_terminal(out, input, p.rparen.start, p.rparen.end);
        },
    }
}

/// The shared children of the three control wrappers:
/// `KEYWORD ( boolean ) statement`.
#[verifier::rlimit(100)]
fn dot_control_children(
    out: &mut Vec<u8>,
    input: &[u8],
    id: &Vec<u8>,
    keyword: TokenSpan,
    lparen: TokenSpan,
    boolean: &Boolean,
    rparen: TokenSpan,
    statement: &Statement,
)
    requires
        keyword.start <= keyword.end <= input@.len(),
        lparen.start <= lparen.end <= input@.len(),
        rparen.start <= rparen.end <= input@.len(),
        wf_bool(input@, *boolean),
        wf_stmt(input@, *statement),
    ensures
        final(out)@ == old(out)@ + spec_dot_control_children(
            input@,
            id@,
            keyword,
            lparen,
            *boolean,
            rparen,
            *statement,
        ),
    decreases *statement, 1int,
{
    broadcast use lemma_bytes_add_assoc;

    let kid = term_id(keyword.start, keyword.end);
    push_edge(out, id, &kid);
    dot_terminal(out, input, keyword.start, keyword.end);
    let lid = term_id(lparen.start, lparen.end);
    push_edge(out, id, &lid);
    dot_terminal(out, input, lparen.start, lparen.end);
    let bid = id_bool(input, boolean);
    push_edge(out, id, &bid);
    dot_bool(out, input, boolean);
    let rid = term_id(rparen.start, rparen.end);
    push_edge(out, id, &rid);
    dot_terminal(out, input, rparen.start, rparen.end);
    let sid = id_stmt(input, statement);
    push_edge(out, id, &sid);
    dot_stmt(out, input, statement);
}

/// The edges from the root `Line` to its children, and the children's own
/// descriptions.
fn dot_line_children(out: &mut Vec<u8>, input: &[u8], l: &Line)
    requires
        wf_line(input@, *l),
    ensures
        final(out)@ == old(out)@ + spec_dot_line_children(input@, *l),
{
    broadcast use lemma_bytes_add_assoc;

    proof {
        lemma_stmt_span(input@, l.stmt);
    }
    let id = id_line(input, l);
    let nid = term_id(l.num.start, l.num.end);
    push_edge(out, &id, &nid);
    dot_number_terminal(out, input, &l.num);
    let sid = id_stmt(input, &l.stmt);
    push_edge(out, &id, &sid);
    dot_stmt(out, input, &l.stmt);
    let mid = term_id(l.semi.start, l.semi.end);
    push_edge(out, &id, &mid);
    dot_terminal(out, input, l.semi.start, l.semi.end);
}

fn dot_line(out: &mut Vec<u8>, input: &[u8], l: &Line)
    requires
        wf_line(input@, *l),
    ensures
        final(out)@ == old(out)@ + spec_dot_line(input@, *l),
{
    broadcast use lemma_bytes_add_assoc;

    let id = id_line(input, l);
    push_node_head(out, &id);
    push_nt_label(out, "Line");
    push_node_tail(out);
    dot_line_children(out, input, l);
}

/// What every AST node offers: its span, a label, a stable identity, and a
/// recursive export of labeled parent-to-child edges for itself and all
/// descendants.
pub trait Graph {
    /// The node is well formed with respect to this input.
    spec fn wf_spec(&self, s: Seq<u8>) -> bool;

    /// Where the node's span begins.
    spec fn start_spec(&self) -> int;

    /// Where the node's span ends.
    spec fn end_spec(&self) -> int;

    /// The node's identity, as text.
    spec fn id_spec(&self) -> Seq<u8>;

    /// The node's label, as text.
    spec fn label_spec(&self, s: Seq<u8>) -> Seq<u8>;

    /// The edges to the node's children, each followed by the child's own
    /// description, as text.
    spec fn dot_recurse_spec(&self, s: Seq<u8>) -> Seq<u8>;

    /// The exact text the node covers.
    fn get_str(&self, input: &[u8]) -> (r: Vec<u8>)
        requires
            self.wf_spec(input@),
        ensures
            r@ == input@.subrange(self.start_spec(), self.end_spec()),
    ;

    /// The node's label.
    fn get_label(&self, input: &[u8]) -> (r: Vec<u8>)
        requires
            self.wf_spec(input@),
        ensures
            r@ == self.label_spec(input@),
    ;

    /// A unique identifier for the node: its offset from the start of the
    /// input, its length, and — for a composite — its grammar name.
    fn get_id(&self, input: &[u8]) -> (r: Vec<u8>)
        requires
            self.wf_spec(input@),
        ensures
            r@ == self.id_spec(),
    ;

    /// One edge line for each child, each followed by the child's own
    /// description.
    fn to_dot_recurse(&self, input: &[u8]) -> (r: Vec<u8>)
        requires
            self.wf_spec(input@),
        ensures
            r@ == self.dot_recurse_spec(input@),
    ;

    /// The node/edge description of the whole subtree: the node's own
    /// identity-and-label line, then `to_dot_recurse`.
    fn to_dot(&self, input: &[u8]) -> (r: Vec<u8>)
        requires
            self.wf_spec(input@),
        ensures
            r@ == spec_node_line(self.id_spec(), self.label_spec(input@))
                + self.dot_recurse_spec(input@),
    ;
}

impl Graph for Line {
    open spec fn wf_spec(&self, s: Seq<u8>) -> bool {
        wf_line(s, *self)
    }

    open spec fn start_spec(&self) -> int {
        line_start(*self)
    }

    open spec fn end_spec(&self) -> int {
        line_end(*self)
    }

    open spec fn id_spec(&self) -> Seq<u8> {
        spec_id_line(*self)
    }

    open spec fn label_spec(&self, s: Seq<u8>) -> Seq<u8> {
        spec_nt_label("Line")
    }

    open spec fn dot_recurse_spec(&self, s: Seq<u8>) -> Seq<u8> {
        spec_dot_line_children(s, *self)
    }

    fn get_str(&self, input: &[u8]) -> (r: Vec<u8>) {
        proof {
            lemma_line_span(input@, *self);
        }
        let mut out: Vec<u8> = Vec::new();
        push_range(&mut out, input, self.num.start, self.semi.end);
        out
    }

    fn get_label(&self, input: &[u8]) -> (r: Vec<u8>) {
        let mut out: Vec<u8> = Vec::new();
        push_nt_label(&mut out, "Line");
        proof {
            assert(out@ =~= spec_nt_label("Line"));
        }
        out
    }

    fn get_id(&self, input: &[u8]) -> (r: Vec<u8>) {
        id_line(input, self)
    }

    fn to_dot_recurse(&self, input: &[u8]) -> (r: Vec<u8>) {
        let mut out: Vec<u8> = Vec::new();
        dot_line_children(&mut out, input, self);
        proof {
            assert(out@ =~= spec_dot_line_children(input@, *self));
        }
        out
    }

    fn to_dot(&self, input: &[u8]) -> (r: Vec<u8>) {
        let mut out: Vec<u8> = Vec::new();
        dot_line(&mut out, input, self);
        proof {
            assert(out@ =~= spec_dot_line(input@, *self));
        }
        out
    }
}

impl Graph for NumberToken {
    open spec fn wf_spec(&self, s: Seq<u8>) -> bool {
        numtok_at(s, *self)
    }

    open spec fn start_spec(&self) -> int {
        self.start as int
    }

    open spec fn end_spec(&self) -> int {
        self.end as int
    }

    open spec fn id_spec(&self) -> Seq<u8> {
        spec_term_id(self.start as int, self.end as int)
    }

    open spec fn label_spec(&self, s: Seq<u8>) -> Seq<u8> {
        spec_numtok_label(s, *self)
    }

    open spec fn dot_recurse_spec(&self, s: Seq<u8>) -> Seq<u8> {
        Seq::empty()
    }

    fn get_str(&self, input: &[u8]) -> (r: Vec<u8>) {
        let mut out: Vec<u8> = Vec::new();
        push_range(&mut out, input, self.start, self.end);
        out
    }

    fn get_label(&self, input: &[u8]) -> (r: Vec<u8>) {
        proof {
            reveal(spec_numtok_label);
        }
        let mut out: Vec<u8> = Vec::new();
        push_str(&mut out, "\"");
        push_range(&mut out, input, self.start, self.end);
        push_str(&mut out, " (");
        push_dec(&mut out, self.val);
        push_str(&mut out, ")\"");
        proof {
            assert(out@ =~= spec_numtok_label(input@, *self));
        }
        out
    }

    fn get_id(&self, input: &[u8]) -> (r: Vec<u8>) {
        term_id(self.start, self.end)
    }

    fn to_dot_recurse(&self, input: &[u8]) -> (r: Vec<u8>) {
        proof {
            assert(Seq::<u8>::empty() =~= self.dot_recurse_spec(input@));
        }
        Vec::new()
    }

    fn to_dot(&self, input: &[u8]) -> (r: Vec<u8>) {
        broadcast use lemma_bytes_add_assoc;

        let mut out: Vec<u8> = Vec::new();
        dot_number_terminal(&mut out, input, self);
        proof {
            reveal(spec_dot_numtok);
            assert(out@ =~= spec_node_line(self.id_spec(), self.label_spec(input@))
                + self.dot_recurse_spec(input@));
        }
        out
    }
}

impl Graph for StringToNum {
    open spec fn wf_spec(&self, s: Seq<u8>) -> bool {
        wf_str(s, self.string)
    }

    open spec fn start_spec(&self) -> int {
        str_start(self.string)
    }

    open spec fn end_spec(&self) -> int {
        str_end(self.string)
    }

    open spec fn id_spec(&self) -> Seq<u8> {
        spec_id_str(self.string) + "_StringToNum".spec_bytes()
    }

    open spec fn label_spec(&self, s: Seq<u8>) -> Seq<u8> {
        spec_conv_label("String", "Number")
    }

    open spec fn dot_recurse_spec(&self, s: Seq<u8>) -> Seq<u8> {
        spec_edge(spec_id_str(self.string) + "_StringToNum".spec_bytes(), spec_id_str(self.string))
            + spec_dot_str(s, self.string)
    }

    fn get_str(&self, input: &[u8]) -> (r: Vec<u8>) {
        proof {
            lemma_str_span(input@, self.string);
        }
        let span = span_str(&self.string);
        let mut out: Vec<u8> = Vec::new();
        push_range(&mut out, input, span.0, span.1);
        out
    }

    fn get_label(&self, input: &[u8]) -> (r: Vec<u8>) {
        let mut out: Vec<u8> = Vec::new();
        push_conv_label(&mut out, "String", "Number");
        proof {
            assert(out@ =~= spec_conv_label("String", "Number"));
        }
        out
    }

    fn get_id(&self, input: &[u8]) -> (r: Vec<u8>) {
        let mut out = id_str(input, &self.string);
        push_str(&mut out, "_StringToNum");
        out
    }

    fn to_dot_recurse(&self, input: &[u8]) -> (r: Vec<u8>) {
        broadcast use lemma_bytes_add_assoc;

        let mut out: Vec<u8> = Vec::new();
        let id = self.get_id(input);
        let cid = id_str(input, &self.string);
        push_edge(&mut out, &id, &cid);
        dot_str(&mut out, input, &self.string);
        proof {
            assert(out@ =~= self.dot_recurse_spec(input@));
        }
        out
    }

    fn to_dot(&self, input: &[u8]) -> (r: Vec<u8>) {
        broadcast use lemma_bytes_add_assoc;

        let mut out: Vec<u8> = Vec::new();
        let id = self.get_id(input);
        push_node_head(&mut out, &id);
        push_conv_label(&mut out, "String", "Number");
        push_node_tail(&mut out);
        let cid = id_str(input, &self.string);
        push_edge(&mut out, &id, &cid);
        dot_str(&mut out, input, &self.string);
        proof {
            assert(out@ =~= spec_node_line(self.id_spec(), self.label_spec(input@))
                + self.dot_recurse_spec(input@));
        }
        out
    }
}

// Normalization of an export.
//
// Node identities carry offsets in hexadecimal after a `0x` marker.  The
// normalizer re-renders every such number in canonical form — lower case,
// no leading zeros — so that equal exports compare equal as text.  The
// identities this module produces are already canonical, so normalizing an
// export a second time returns it unchanged
// (`lemma_normalize_idempotent`).

/// The value of the hexadecimal digits `[j, e)`.
pub open spec fn hex_val(d: Seq<u8>, j: int, e: int) -> int
    decreases e - j,
{
    if e <= j {
        0
    } else {
        hex_val(d, j, e - 1) * 16 + crate::lexer::digit_val(d[e - 1])
    }
}

/// The export with every `0x`-marked hexadecimal number re-rendered in
/// canonical form, from position `k` on.  A number too large to re-render
/// is kept as it stands, as is a `0x` marker with no digits after it.
pub open spec fn normalize_from(d: Seq<u8>, k: int) -> Seq<u8>
    decreases d.len() - k,
{
    if k < 0 || k + 2 > d.len() {
        if 0 <= k < d.len() {
            d.subrange(k, d.len() as int)
        } else {
            Seq::empty()
        }
    } else if d[k] == 48 && d[k + 1] == 120 {
        let e = crate::lexer::scan_end(d, k + 2, crate::lexer::ByteClass::Hex);
        if e > k + 2 && e <= d.len() && hex_val(d, k + 2, e) <= u64::MAX {
            seq![48u8, 120u8] + hex_seq(hex_val(d, k + 2, e)) + normalize_from(d, e)
        } else {
            seq![48u8, 120u8] + normalize_from(d, k + 2)
        }
    } else {
        seq![d[k]] + normalize_from(d, k + 1)
    }
}

/// The canonical form of a whole export.
pub open spec fn spec_normalize(d: Seq<u8>) -> Seq<u8> {
    normalize_from(d, 0)
}

proof fn lemma_hex_val_bounds(d: Seq<u8>, j: int, e: int)
    ensures
        0 <= hex_val(d, j, e),
        forall|e2: int| j <= e2 <= e ==> #[trigger] hex_val(d, j, e2) <= hex_val(d, j, e),
    decreases e - j,
{
    if e > j {
        lemma_hex_val_bounds(d, j, e - 1);
        assert(hex_val(d, j, e - 1) * 16 >= hex_val(d, j, e - 1)) by (nonlinear_arith)
            requires
                hex_val(d, j, e - 1) >= 0,
        ;
    }
}

/// The value of the hexadecimal run `[j, e)` of `input`, or `None` when it
/// does not fit.
fn hex_run_val(input: &[u8], j: usize, e: usize) -> (r: Option<u64>)
    requires
        j <= e <= input@.len(),
    ensures
        match r {
            Some(v) => v == hex_val(input@, j as int, e as int),
            None => hex_val(input@, j as int, e as int) > u64::MAX,
        },
{
    let mut k = j;
    let mut acc: u64 = 0;
    while k < e
        invariant
            j <= k <= e <= input@.len(),
            acc == hex_val(input@, j as int, k as int),
        decreases e - k,
    {
        let dv = crate::lexer::digit_val_at(*vstd::slice::slice_index_get(input, k));
        assert(acc as int * 16 + dv <= u64::MAX * 16 + 99) by (nonlinear_arith)
            requires
                acc <= u64::MAX,
                dv <= 99,
        ;
        let wide: u128 = acc as u128 * 16 + dv as u128;
        proof {
            assert(hex_val(input@, j as int, k + 1 as int) == acc as int * 16 + dv as int);
        }
        if wide > u64::MAX as u128 {
            proof {
                lemma_hex_val_bounds(input@, j as int, e as int);
            }
            return None;
        }
        acc = wide as u64;
        k = k + 1;
    }
    Some(acc)
}

/// Re-renders every `0x`-marked hexadecimal number of the export in
/// canonical form — exactly `spec_normalize`.
pub fn normalize_export(dot: &[u8]) -> (r: Vec<u8>)
    ensures
        r@ == spec_normalize(dot@),
{
    let len = dot.len();
    let mut out: Vec<u8> = Vec::new();
    let mut k: usize = 0;
    while k < len
        invariant
            0 <= k <= len == dot@.len(),
            normalize_from(dot@, 0) == out@ + normalize_from(dot@, k as int),
        decreases len - k,
    {
        let ghost d = dot@;
        let ghost k0 = k as int;
        let ghost out0 = out@;
        if k + 1 < len && *vstd::slice::slice_index_get(dot, k) == 48
            && *vstd::slice::slice_index_get(dot, k + 1) == 120 {
            let e = crate::lexer::scan(dot, k + 2, crate::lexer::ByteClass::Hex);
            proof {
                crate::lexer::lemma_scan_end(d, k0 + 2, crate::lexer::ByteClass::Hex);
            }
            out.push(48);
            out.push(120);
            if e > k + 2 {
                match hex_run_val(dot, k + 2, e) {
                    Some(v) => {
                        push_hex(&mut out, v);
                        proof {
                            assert(normalize_from(d, k0) == seq![48u8, 120u8] + hex_seq(
                                hex_val(d, k0 + 2, e as int),
                            ) + normalize_from(d, e as int));
                            assert(out@ =~= out0 + seq![48u8, 120u8] + hex_seq(v as int));
                            assert(out0 + normalize_from(d, k0) =~= out@ + normalize_from(
                                d,
                                e as int,
                            ));
                        }
                        k = e;
                    },
                    None => {
                        proof {
                            assert(normalize_from(d, k0) == seq![48u8, 120u8] + normalize_from(
                                d,
                                k0 + 2,
                            ));
                            assert(out0 + normalize_from(d, k0) =~= out@ + normalize_from(
                                d,
                                k0 + 2,
                            ));
                        }
                        k = k + 2;
                    },
                }
            } else {
                proof {
                    assert(normalize_from(d, k0) == seq![48u8, 120u8] + normalize_from(
                        d,
                        k0 + 2,
                    ));
                    assert(out0 + normalize_from(d, k0) =~= out@ + normalize_from(d, k0 + 2));
                }
                k = k + 2;
            }
        } else {
            out.push(*vstd::slice::slice_index_get(dot, k));
            proof {
                if k0 + 2 > d.len() {
                    assert(normalize_from(d, k0) == d.subrange(k0, d.len() as int));
                    assert(normalize_from(d, k0 + 1) == Seq::<u8>::empty());
                    assert(d.subrange(k0, d.len() as int) =~= seq![d[k0]]);
                } else {
                    assert(normalize_from(d, k0) == seq![d[k0]] + normalize_from(d, k0 + 1));
                }
                assert(out0 + normalize_from(d, k0) =~= out@ + normalize_from(d, k0 + 1));
            }
            k = k + 1;
        }
    }
    proof {
        assert(normalize_from(dot@, k as int) == Seq::<u8>::empty());
        assert(out@ + Seq::<u8>::empty() =~= out@);
    }
    out
}

/// The export of the subtree of `root`, with node identities normalized
/// for consistency.
///
/// The result is exactly the normalization of the node/edge description
/// that `to_dot` defines.  Both are functions of the input bytes and the
/// tree alone — an identity names a byte offset from the start of the
/// input, never an address — so equal inputs give byte-identical exports,
/// and by `lemma_normalize_idempotent` normalizing the result again
/// returns it unchanged.
pub fn to_dot_normalized<G: Graph>(root: &G, input: &[u8]) -> (r: Vec<u8>)
    requires
        root.wf_spec(input@),
    ensures
        r@ == spec_normalize(
            spec_node_line(root.id_spec(), root.label_spec(input@)) + root.dot_recurse_spec(
                input@,
            ),
        ),
{
    let dot = root.to_dot(input);
    normalize_export(dot.as_slice())
}

proof fn lemma_hex_seq_props(v: int)
    requires
        0 <= v,
    ensures
        hex_seq(v).len() >= 1,
        forall|k: int|
            0 <= k < hex_seq(v).len() ==> crate::lexer::is_hex_digit(#[trigger] hex_seq(v)[k]),
        1 <= v ==> hex_seq(v)[0] != 48,
        v < 16 ==> hex_seq(v).len() == 1,
    decreases v,
{
    if v >= 16 {
        lemma_hex_seq_props(v / 16);
    }
}

/// Parsing what was rendered gives the value back.
proof fn lemma_hex_roundtrip(v: int)
    requires
        0 <= v,
    ensures
        hex_val(hex_seq(v), 0, hex_seq(v).len() as int) == v,
    decreases v,
{
    if v < 16 {
        assert(hex_val(hex_seq(v), 0, 0) == 0);
    } else {
        lemma_hex_roundtrip(v / 16);
        lemma_hex_seq_props(v / 16);
        let m0 = hex_seq(v / 16);
        let m = hex_seq(v);
        assert(m == m0.push(hex_digit(v % 16)));
        lemma_hex_val_eq(m, 0, m0, 0, m0.len() as int);
        assert(hex_val(m, 0, m.len() as int) == hex_val(m, 0, m0.len() as int) * 16
            + crate::lexer::digit_val(m[m.len() - 1]));
    }
}

/// The value of a digit run depends only on the bytes it covers.
proof fn lemma_hex_val_eq(d1: Seq<u8>, j1: int, d2: Seq<u8>, j2: int, n: int)
    requires
        0 <= n,
        0 <= j1,
        0 <= j2,
        j1 + n <= d1.len(),
        j2 + n <= d2.len(),
        forall|i: int| 0 <= i < n ==> #[trigger] d1[j1 + i] == d2[j2 + i],
    ensures
        hex_val(d1, j1, j1 + n) == hex_val(d2, j2, j2 + n),
    decreases n,
{
    if n > 0 {
        lemma_hex_val_eq(d1, j1, d2, j2, n - 1);
        assert(d1[j1 + (n - 1)] == d2[j2 + (n - 1)]);
    }
}

/// A scan is oblivious to what stands before its starting position.
proof fn lemma_scan_shift(a: Seq<u8>, b: Seq<u8>, x: int, c: crate::lexer::ByteClass)
    requires
        0 <= x <= b.len(),
    ensures
        crate::lexer::scan_end(a + b, a.len() + x, c) == a.len() + crate::lexer::scan_end(
            b,
            x,
            c,
        ),
    decreases b.len() - x,
{
    let ab = a + b;
    if x < b.len() {
        assert(ab[a.len() + x] == b[x]);
        if crate::lexer::in_class(c, b[x]) {
            lemma_scan_shift(a, b, x + 1, c);
        }
    }
}

/// Normalization is oblivious to what stands before its position.
proof fn lemma_normalize_shift(a: Seq<u8>, b: Seq<u8>, j: int)
    requires
        0 <= j <= b.len(),
    ensures
        normalize_from(a + b, a.len() + j) == normalize_from(b, j),
    decreases b.len() - j,
{
    let ab = a + b;
    let kk = a.len() + j;
    if j + 2 > b.len() {
        if j < b.len() {
            assert(ab.subrange(kk, ab.len() as int) =~= b.subrange(j, b.len() as int));
        }
    } else {
        assert(ab[kk] == b[j]);
        assert(ab[kk + 1] == b[j + 1]);
        if b[j] == 48 && b[j + 1] == 120 {
            lemma_scan_shift(a, b, j + 2, crate::lexer::ByteClass::Hex);
            crate::lexer::lemma_scan_end(b, j + 2, crate::lexer::ByteClass::Hex);
            let e = crate::lexer::scan_end(b, j + 2, crate::lexer::ByteClass::Hex);
            assert(forall|i: int| 0 <= i < e - (j + 2) ==> #[trigger] ab[kk + 2 + i] == b[j + 2 + i]);
            lemma_hex_val_eq(ab, kk + 2, b, j + 2, e - (j + 2));
            if e > j + 2 && hex_val(b, j + 2, e) <= u64::MAX {
                lemma_normalize_shift(a, b, e);
            } else {
                lemma_normalize_shift(a, b, j + 2);
            }
        } else {
            lemma_normalize_shift(a, b, j + 1);
        }
    }
}

/// The first byte of the normalization of the rest is the byte at the
/// position itself; only an exhausted input normalizes to nothing.
proof fn lemma_normalize_first(d: Seq<u8>, k: int)
    requires
        0 <= k,
    ensures
        k < d.len() ==> normalize_from(d, k).len() > 0 && normalize_from(d, k)[0] == d[k],
        k >= d.len() ==> normalize_from(d, k).len() == 0,
{
}

/// Normalization copies a maximal run of hexadecimal digits unchanged, and
/// what follows the copy begins with a byte that is no such digit.
proof fn lemma_normalize_run(d: Seq<u8>, k: int, j2: int)
    requires
        0 <= k <= j2 <= d.len(),
        forall|m: int| k <= m < j2 ==> crate::lexer::is_hex_digit(d[m]),
        j2 < d.len() ==> !crate::lexer::is_hex_digit(d[j2]),
    ensures
        normalize_from(d, k).len() >= j2 - k,
        normalize_from(d, k).subrange(0, j2 - k) == d.subrange(k, j2),
        normalize_from(d, k).len() > j2 - k ==> !crate::lexer::is_hex_digit(
            normalize_from(d, k)[j2 - k],
        ),
    decreases j2 - k,
{
    let o = normalize_from(d, k);
    if k == j2 {
        lemma_normalize_first(d, k);
        assert(o.subrange(0, 0) =~= d.subrange(k, k));
    } else if k + 2 > d.len() {
        // here k == d.len() - 1 and j2 == d.len()
        assert(o == d.subrange(k, d.len() as int));
        assert(o.subrange(0, j2 - k) =~= d.subrange(k, j2));
    } else if d[k] == 48 && d[k + 1] == 120 {
        // 120 is no hexadecimal digit, so the run ends right after `d[k]`
        assert(k + 1 == j2);
        assert(o[0] == 48 && o[1] == 120);
        assert(o.subrange(0, 1) =~= d.subrange(k, j2));
    } else {
        lemma_normalize_run(d, k + 1, j2);
        let o2 = normalize_from(d, k + 1);
        assert(o == seq![d[k]] + o2);
        assert(o.subrange(0, j2 - k) =~= seq![d[k]] + o2.subrange(0, j2 - k - 1));
        assert(seq![d[k]] + o2.subrange(0, j2 - k - 1) =~= d.subrange(k, j2));
    }
}

proof fn lemma_norm_idem_from(d: Seq<u8>, k: int)
    requires
        0 <= k <= d.len(),
    ensures
        spec_normalize(normalize_from(d, k)) == normalize_from(d, k),
    decreases d.len() - k,
{
    let o = normalize_from(d, k);
    if k == d.len() {
        assert(o == Seq::<u8>::empty());
    } else if k + 2 > d.len() {
        // o is the single byte d[k]
        assert(o == d.subrange(k, d.len() as int));
        assert(o.len() == 1);
        assert(spec_normalize(o) == o.subrange(0, 1));
        assert(o.subrange(0, 1) =~= o);
    } else if d[k] == 48 && d[k + 1] == 120 {
        crate::lexer::lemma_scan_end(d, k + 2, crate::lexer::ByteClass::Hex);
        let e = crate::lexer::scan_end(d, k + 2, crate::lexer::ByteClass::Hex);
        if e > k + 2 && hex_val(d, k + 2, e) <= u64::MAX {
            let v = hex_val(d, k + 2, e);
            lemma_hex_val_bounds(d, k + 2, e);
            let m = hex_seq(v);
            let r = normalize_from(d, e);
            lemma_hex_seq_props(v);
            lemma_normalize_first(d, e);
            let head = seq![48u8, 120u8] + m;
            assert(o =~= head + r);
            // the rendered digits are a maximal run in the output
            assert(forall|i: int| 2 <= i < head.len() ==> #[trigger] o[i] == m[i - 2]);
            assert(head.len() < o.len() ==> o[head.len() as int] == r[0] && !crate::lexer::is_hex_digit(
                r[0],
            ));
            crate::lexer::lemma_scan_end_is(
                o,
                2,
                head.len() as int,
                crate::lexer::ByteClass::Hex,
            );
            // and they parse back to the same value
            lemma_hex_roundtrip(v);
            lemma_hex_val_eq(o, 2, m, 0, m.len() as int);
            // so renormalizing re-renders them and leaves the rest to the
            // suffix, which is already normalized
            lemma_normalize_shift(head, r, 0);
            assert(head + r == o);
            lemma_norm_idem_from(d, e);
            assert(spec_normalize(o) == seq![48u8, 120u8] + m + r);
            assert(seq![48u8, 120u8] + m + r =~= o);
        } else if e == k + 2 {
            // a `0x` with no digits after it is copied, and what follows
            // starts with a byte that is no digit
            let r = normalize_from(d, k + 2);
            lemma_normalize_first(d, k + 2);
            let head = seq![48u8, 120u8];
            assert(o =~= head + r);
            assert(2 < o.len() ==> o[2] == r[0] && !crate::lexer::is_hex_digit(r[0]));
            crate::lexer::lemma_scan_end_is(o, 2, 2, crate::lexer::ByteClass::Hex);
            lemma_normalize_shift(head, r, 0);
            assert(head + r == o);
            lemma_norm_idem_from(d, k + 2);
            assert(spec_normalize(o) == seq![48u8, 120u8] + r);
            assert(seq![48u8, 120u8] + r =~= o);
        } else {
            // the run's value does not fit, so the text is copied; the
            // copy still holds the same maximal run with the same value
            let r = normalize_from(d, k + 2);
            lemma_normalize_run(d, k + 2, e);
            let head = seq![48u8, 120u8];
            assert(o =~= head + r);
            let runlen = e - (k + 2);
            assert forall|i: int| 0 <= i < runlen implies #[trigger] o[2 + i] == d[k + 2 + i] by {
                assert(o[2 + i] == r[i]);
                assert(r[i] == r.subrange(0, runlen)[i]);
                assert(d.subrange(k + 2, e)[i] == d[k + 2 + i]);
            }
            assert forall|i: int| 2 <= i < 2 + runlen implies crate::lexer::in_class(
                crate::lexer::ByteClass::Hex,
                o[i],
            ) by {
                assert(o[i] == o[2 + (i - 2)]);
                assert(o[2 + (i - 2)] == d[k + 2 + (i - 2)]);
            }
            assert(2 + runlen < o.len() ==> !crate::lexer::is_hex_digit(o[2 + runlen]));
            crate::lexer::lemma_scan_end_is(o, 2, 2 + runlen, crate::lexer::ByteClass::Hex);
            lemma_hex_val_eq(o, 2, d, k + 2, runlen);
            lemma_normalize_shift(head, r, 0);
            assert(head + r == o);
            lemma_norm_idem_from(d, k + 2);
            assert(spec_normalize(o) == seq![48u8, 120u8] + r);
            assert(seq![48u8, 120u8] + r =~= o);
        }
    } else {
        let r = normalize_from(d, k + 1);
        lemma_normalize_first(d, k + 1);
        let head = seq![d[k]];
        assert(o =~= head + r);
        assert(o[0] == d[k]);
        assert(o.len() >= 2 && o[1] == d[k + 1]);
        lemma_normalize_shift(head, r, 0);
        assert(head + r == o);
        lemma_norm_idem_from(d, k + 1);
        assert(spec_normalize(o) == seq![d[k]] + r);
        assert(seq![d[k]] + r =~= o);
    }
}

/// Export normalization is idempotent: normalizing an already-normalized
/// export is a no-op — normalizing twice equals normalizing once.
pub proof fn lemma_normalize_idempotent(d: Seq<u8>)
    ensures
        spec_normalize(spec_normalize(d)) == spec_normalize(d),
{
    lemma_norm_idem_from(d, 0);
}

} // verus!

verus! {

} // verus!
