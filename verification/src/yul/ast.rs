//! The Yul syntax tree and the token sequence that each node is written as.

use vstd::prelude::*;

verus! {

/// The kinds of Yul tokens.
#[derive(Debug, Clone, Copy, PartialEq, Eq, Structural)]
pub enum TokenKind {
    LBrace,
    RBrace,
    LParen,
    RParen,
    Comma,
    Colon,
    /// `:=`
    Assign,
    /// `->`
    Arrow,
    Ident,
    /// `0x` followed by hexadecimal digits.
    HexNumber,
    /// Decimal digits.
    DecNumber,
    /// A string literal; its text is what stands between the quotes.
    Str,
    /// A `hex"..."` literal; its text is the digits between the quotes.
    HexStr,
    KwFunction,
    KwLet,
    KwIf,
    KwSwitch,
    KwCase,
    KwDefault,
    KwFor,
    KwBreak,
    KwContinue,
    KwLeave,
    KwTrue,
    KwFalse,
}

/// What the parser sees of a token: its kind and its text.
pub type SpecToken = (TokenKind, Seq<char>);

/// A Yul identifier.
#[derive(Debug)]
pub struct Identifier {
    pub name: String,
}

/// The type annotation `: name`.
#[derive(Debug)]
pub struct TypeName {
    pub type_ident: Identifier,
}

/// An identifier with an optional type annotation.
#[derive(Debug)]
pub struct TypedIdentifier {
    pub identifier: Identifier,
    pub ty: Option<TypeName>,
}

/// A hexadecimal number, `0x` included.
#[derive(Debug)]
pub struct HexNumber {
    pub hex: String,
}

/// A decimal number.
#[derive(Debug)]
pub struct DecimalNumber {
    pub dec: String,
}

/// A string literal: the text between the quotes, escapes as written.
#[derive(Debug)]
pub struct StringLiteral {
    pub str: String,
}

/// A literal with its optional type annotation.
#[derive(Debug)]
pub enum Literal {
    TrueLiteral(Option<TypeName>),
    FalseLiteral(Option<TypeName>),
    HexNumberLiteral(HexNumber, Option<TypeName>),
    DecimalNumberLiteral(DecimalNumber, Option<TypeName>),
    StringLiteral(StringLiteral, Option<TypeName>),
}

/// A call of a function or of an EVM instruction.
#[derive(Debug)]
pub struct FunctionCall {
    pub id: Identifier,
    pub arguments: Vec<Expression>,
}

/// A Yul expression.
#[derive(Debug)]
pub enum Expression {
    Identifier(Identifier),
    FunctionCall(Box<FunctionCall>),
    Literal(Literal),
}

/// `{ statements }`
#[derive(Debug)]
pub struct Block {
    pub statements: Vec<Statement>,
}

/// `a, b := value`
#[derive(Debug)]
pub struct Assignment {
    pub identifiers: Vec<Identifier>,
    pub value: Expression,
}

/// `let a, b := value`, the value being optional.
#[derive(Debug)]
pub struct VariableDeclaration {
    pub identifiers: Vec<TypedIdentifier>,
    pub value: Option<Expression>,
}

/// `if cond { body }`
#[derive(Debug)]
pub struct If {
    pub cond: Expression,
    pub body: Block,
}

/// A two-way branch. Yul has no such statement; it is what a `switch`
/// becomes before lowering.
#[derive(Debug)]
pub struct IfElse {
    pub cond: Expression,
    pub body: Block,
    pub else_body: Block,
}

/// `for { init } condition { post } { body }`
#[derive(Debug)]
pub struct For {
    pub init_block: Block,
    pub condition: Expression,
    pub post_block: Block,
    pub execution_block: Block,
}

/// `case literal { body }`
#[derive(Debug)]
pub struct Case {
    pub case: Literal,
    pub body: Block,
}

/// `default { body }`
#[derive(Debug)]
pub struct SwitchDefault {
    pub body: Block,
}

/// The branches of a `switch`: cases with an optional default, or a
/// default alone.
#[derive(Debug)]
pub enum SwitchOptions {
    Cases(Vec<Case>, Option<SwitchDefault>),
    Default(SwitchDefault),
}

/// `switch condition branches`
#[derive(Debug)]
pub struct Switch {
    pub condition: Expression,
    pub opt: SwitchOptions,
}

/// `function name(params) -> returns { body }`
#[derive(Debug)]
pub struct FunctionDefinition {
    pub name: Identifier,
    pub params: Vec<TypedIdentifier>,
    pub returns: Vec<TypedIdentifier>,
    pub body: Block,
}

/// A Yul statement.
#[derive(Debug)]
pub enum Statement {
    Assignment(Assignment),
    VariableDeclaration(VariableDeclaration),
    If(If),
    For(For),
    Switch(Switch),
    Leave,
    Break,
    Continue,
    Block(Block),
    FunctionDefinition(FunctionDefinition),
    FunctionCall(FunctionCall),
    IfElse(Box<IfElse>),
}

/// The value of a `data` segment.
#[derive(Debug)]
pub enum DataLiteral {
    /// The hexadecimal digits of a `hex"..."` literal.
    HexLiteral(String),
    /// The text of a string literal.
    StringLiteral(String),
}

/// A segment of an object after its code: a nested object, or named data.
#[derive(Debug)]
pub enum InnerSegment {
    Object(Box<Object>),
    Data(String, DataLiteral),
}

/// `object "name" { code { ... } segments }`
#[derive(Debug)]
pub struct Object {
    pub name: String,
    pub code: Block,
    pub inner_segments: Vec<InnerSegment>,
}

/// The token of an identifier.
pub open spec fn ident_tok(id: Identifier) -> SpecToken {
    (TokenKind::Ident, id.name@)
}

/// The tokens of an optional type annotation.
pub open spec fn type_suffix_tokens(t: Option<TypeName>) -> Seq<SpecToken> {
    match t {
        Option::None => Seq::empty(),
        Option::Some(tn) => seq![(TokenKind::Colon, seq![':']), ident_tok(tn.type_ident)],
    }
}

/// The tokens of a literal.
pub open spec fn literal_tokens(l: Literal) -> Seq<SpecToken> {
    match l {
        Literal::TrueLiteral(t) => seq![(TokenKind::KwTrue, seq!['t', 'r', 'u', 'e'])]
            + type_suffix_tokens(t),
        Literal::FalseLiteral(t) => seq![(TokenKind::KwFalse, seq!['f', 'a', 'l', 's', 'e'])]
            + type_suffix_tokens(t),
        Literal::HexNumberLiteral(h, t) => seq![(TokenKind::HexNumber, h.hex@)] + type_suffix_tokens(t),
        Literal::DecimalNumberLiteral(d, t) => seq![(TokenKind::DecNumber, d.dec@)]
            + type_suffix_tokens(t),
        Literal::StringLiteral(s, t) => seq![(TokenKind::Str, s.str@)] + type_suffix_tokens(t),
    }
}

/// The tokens of an expression.
pub open spec fn expr_tokens(e: Expression) -> Seq<SpecToken>
    decreases e,
{
    match e {
        Expression::Identifier(id) => seq![ident_tok(id)],
        Expression::Literal(l) => literal_tokens(l),
        Expression::FunctionCall(fc) => seq![ident_tok(fc.id), (TokenKind::LParen, seq!['('])]
            + args_tokens(fc.arguments@) + seq![(TokenKind::RParen, seq![')'])],
    }
}

/// The tokens of a comma-separated list of expressions.
pub open spec fn args_tokens(args: Seq<Expression>) -> Seq<SpecToken>
    decreases args,
{
    if args.len() == 0 {
        Seq::empty()
    } else if args.len() == 1 {
        expr_tokens(args[0])
    } else {
        args_tokens(args.drop_last()) + seq![(TokenKind::Comma, seq![','])] + expr_tokens(
            args.last(),
        )
    }
}

/// The tokens of a typed identifier.
pub open spec fn typed_ident_tokens(t: TypedIdentifier) -> Seq<SpecToken> {
    seq![ident_tok(t.identifier)] + type_suffix_tokens(t.ty)
}

/// The tokens of a comma-separated list of typed identifiers.
pub open spec fn typed_list_tokens(s: Seq<TypedIdentifier>) -> Seq<SpecToken>
    decreases s.len(),
{
    if s.len() == 0 {
        Seq::empty()
    } else if s.len() == 1 {
        typed_ident_tokens(s[0])
    } else {
        typed_list_tokens(s.drop_last()) + seq![(TokenKind::Comma, seq![','])] + typed_ident_tokens(
            s.last(),
        )
    }
}

/// The tokens of a comma-separated list of identifiers.
pub open spec fn ident_list_tokens(s: Seq<Identifier>) -> Seq<SpecToken>
    decreases s.len(),
{
    if s.len() == 0 {
        Seq::empty()
    } else if s.len() == 1 {
        seq![ident_tok(s[0])]
    } else {
        ident_list_tokens(s.drop_last()) + seq![(TokenKind::Comma, seq![','])] + seq![
            ident_tok(s.last()),
        ]
    }
}

/// The tokens of a call.
pub open spec fn call_tokens(fc: FunctionCall) -> Seq<SpecToken> {
    seq![ident_tok(fc.id), (TokenKind::LParen, seq!['('])] + args_tokens(fc.arguments@) + seq![
        (TokenKind::RParen, seq![')']),
    ]
}

/// The text of each keyword.
pub open spec fn keyword_text(k: TokenKind) -> Seq<char> {
    match k {
        TokenKind::KwFunction => seq!['f', 'u', 'n', 'c', 't', 'i', 'o', 'n'],
        TokenKind::KwLet => seq!['l', 'e', 't'],
        TokenKind::KwIf => seq!['i', 'f'],
        TokenKind::KwSwitch => seq!['s', 'w', 'i', 't', 'c', 'h'],
        TokenKind::KwCase => seq!['c', 'a', 's', 'e'],
        TokenKind::KwDefault => seq!['d', 'e', 'f', 'a', 'u', 'l', 't'],
        TokenKind::KwFor => seq!['f', 'o', 'r'],
        TokenKind::KwBreak => seq!['b', 'r', 'e', 'a', 'k'],
        TokenKind::KwContinue => seq!['c', 'o', 'n', 't', 'i', 'n', 'u', 'e'],
        TokenKind::KwLeave => seq!['l', 'e', 'a', 'v', 'e'],
        TokenKind::KwTrue => seq!['t', 'r', 'u', 'e'],
        TokenKind::KwFalse => seq!['f', 'a', 'l', 's', 'e'],
        _ => Seq::empty(),
    }
}

/// The token of a keyword.
pub open spec fn kw(k: TokenKind) -> SpecToken {
    (k, keyword_text(k))
}

/// The tokens of a block.
pub open spec fn block_tokens(b: Block) -> Seq<SpecToken>
    decreases b,
{
    seq![(TokenKind::LBrace, seq!['{'])] + stmts_tokens(b.statements@) + seq![
        (TokenKind::RBrace, seq!['}']),
    ]
}

/// The tokens of a sequence of statements, one after another.
pub open spec fn stmts_tokens(s: Seq<Statement>) -> Seq<SpecToken>
    decreases s,
{
    if s.len() == 0 {
        Seq::empty()
    } else {
        stmts_tokens(s.drop_last()) + stmt_tokens(s.last())
    }
}

/// The tokens of the cases of a switch, one after another.
pub open spec fn cases_tokens(s: Seq<Case>) -> Seq<SpecToken>
    decreases s,
{
    if s.len() == 0 {
        Seq::empty()
    } else {
        cases_tokens(s.drop_last()) + seq![kw(TokenKind::KwCase)] + literal_tokens(s.last().case)
            + block_tokens(s.last().body)
    }
}

/// The tokens of a statement. The two-way branch, which the parser never
/// produces, is written as an `if` with a `default` block.
pub open spec fn stmt_tokens(st: Statement) -> Seq<SpecToken>
    decreases st,
{
    match st {
        Statement::Block(b) => block_tokens(b),
        Statement::FunctionDefinition(f) => seq![
            kw(TokenKind::KwFunction),
            ident_tok(f.name),
            (TokenKind::LParen, seq!['(']),
        ] + typed_list_tokens(f.params@) + seq![(TokenKind::RParen, seq![')'])] + (if f.returns@.len()
            == 0 {
            Seq::empty()
        } else {
            seq![(TokenKind::Arrow, seq!['-', '>'])] + typed_list_tokens(f.returns@)
        }) + block_tokens(f.body),
        Statement::VariableDeclaration(v) => seq![kw(TokenKind::KwLet)] + typed_list_tokens(
            v.identifiers@,
        ) + match v.value {
            Option::None => Seq::empty(),
            Option::Some(e) => seq![(TokenKind::Assign, seq![':', '='])] + expr_tokens(e),
        },
        Statement::Assignment(a) => ident_list_tokens(a.identifiers@) + seq![
            (TokenKind::Assign, seq![':', '=']),
        ] + expr_tokens(a.value),
        Statement::If(i) => seq![kw(TokenKind::KwIf)] + expr_tokens(i.cond) + block_tokens(i.body),
        Statement::FunctionCall(fc) => call_tokens(fc),
        Statement::Switch(sw) => seq![kw(TokenKind::KwSwitch)] + expr_tokens(sw.condition)
            + match sw.opt {
            SwitchOptions::Cases(cs, d) => cases_tokens(cs@) + match d {
                Option::None => Seq::empty(),
                Option::Some(dd) => seq![kw(TokenKind::KwDefault)] + block_tokens(dd.body),
            },
            SwitchOptions::Default(dd) => seq![kw(TokenKind::KwDefault)] + block_tokens(dd.body),
        },
        Statement::For(f) => seq![kw(TokenKind::KwFor)] + block_tokens(f.init_block) + expr_tokens(
            f.condition,
        ) + block_tokens(f.post_block) + block_tokens(f.execution_block),
        Statement::Break => seq![kw(TokenKind::KwBreak)],
        Statement::Continue => seq![kw(TokenKind::KwContinue)],
        Statement::Leave => seq![kw(TokenKind::KwLeave)],
        Statement::IfElse(ie) => seq![kw(TokenKind::KwIf)] + expr_tokens(ie.cond) + block_tokens(
            ie.body,
        ) + seq![kw(TokenKind::KwDefault)] + block_tokens(ie.else_body),
    }
}

/// The token of the value of a `data` segment.
pub open spec fn data_literal_token(d: DataLiteral) -> SpecToken {
    match d {
        DataLiteral::HexLiteral(h) => (TokenKind::HexStr, h@),
        DataLiteral::StringLiteral(t) => (TokenKind::Str, t@),
    }
}

/// The text of the word `object`.
pub open spec fn object_word() -> Seq<char> {
    seq!['o', 'b', 'j', 'e', 'c', 't']
}

/// The text of the word `code`.
pub open spec fn code_word() -> Seq<char> {
    seq!['c', 'o', 'd', 'e']
}

/// The text of the word `data`.
pub open spec fn data_word() -> Seq<char> {
    seq!['d', 'a', 't', 'a']
}

/// The tokens of an object.
pub open spec fn object_tokens(o: Object) -> Seq<SpecToken>
    decreases o,
{
    seq![
        (TokenKind::Ident, object_word()),
        (TokenKind::Str, o.name@),
        (TokenKind::LBrace, seq!['{']),
        (TokenKind::Ident, code_word()),
    ] + block_tokens(o.code) + segments_tokens(o.inner_segments@) + seq![
        (TokenKind::RBrace, seq!['}']),
    ]
}

/// The tokens of the segments of an object, one after another.
pub open spec fn segments_tokens(s: Seq<InnerSegment>) -> Seq<SpecToken>
    decreases s,
{
    if s.len() == 0 {
        Seq::empty()
    } else {
        segments_tokens(s.drop_last()) + match s.last() {
            InnerSegment::Object(b) => object_tokens(*b),
            InnerSegment::Data(name, d) => seq![
                (TokenKind::Ident, data_word()),
                (TokenKind::Str, name@),
                data_literal_token(d),
            ],
        }
    }
}

} // verus!
