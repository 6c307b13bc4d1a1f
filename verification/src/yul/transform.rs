//! Rewrites of the Yul syntax tree that prepare it for lowering to IR, and
//! the IR types that Yul values take.

use vstd::prelude::*;
use crate::ir::{IntType, Type, Expr, IntLiteral, WideInt, Literal as IrLiteral};
use crate::codegen::wide_value;
use super::instruction::str_eq;
use super::ast::{
    args_tokens, block_tokens, expr_tokens, kw, literal_tokens, stmt_tokens, Block, Case,
    Expression, FunctionCall, Identifier, IfElse, Literal, SpecToken, Statement, StringLiteral,
    HexNumber, DecimalNumber, Switch, SwitchDefault, SwitchOptions, TokenKind, TypeName,
};
use super::parser::{lemma_args_push, lemma_stmts_push};
use super::ast::stmts_tokens;

verus! {

/// The size of an EVM word in bytes.
pub const WORD_SIZE: usize = 32;

/// The type of an EVM word.
pub fn word_ty() -> (t: Type)
    ensures
        t == Type::Int(IntType::U256),
{
    Type::u256()
}

/// The type of a signed EVM word.
pub fn signed_word_ty() -> (t: Type)
    ensures
        t == Type::Int(IntType::I256),
{
    Type::i256()
}

/// The type of the memory of a Yul program: a growable array of bytes.
pub fn mem_data_ty() -> (t: Type)
    ensures
        t matches Type::Array { elem, len } && *elem == Type::Int(IntType::U8) && len is None,
{
    Type::Array { elem: Box::new(Type::u8()), len: None }
}

fn clone_type_name(t: &Option<TypeName>) -> (r: Option<TypeName>)
    ensures
        r == *t,
{
    match t {
        Some(tn) => Some(TypeName { type_ident: Identifier { name: tn.type_ident.name.clone() } }),
        None => None,
    }
}

/// A copy of a literal.
pub fn clone_literal(l: &Literal) -> (r: Literal)
    ensures
        r == *l,
{
    match l {
        Literal::TrueLiteral(t) => Literal::TrueLiteral(clone_type_name(t)),
        Literal::FalseLiteral(t) => Literal::FalseLiteral(clone_type_name(t)),
        Literal::HexNumberLiteral(h, t) => Literal::HexNumberLiteral(
            HexNumber { hex: h.hex.clone() },
            clone_type_name(t),
        ),
        Literal::DecimalNumberLiteral(d, t) => Literal::DecimalNumberLiteral(
            DecimalNumber { dec: d.dec.clone() },
            clone_type_name(t),
        ),
        Literal::StringLiteral(s, t) => Literal::StringLiteral(
            StringLiteral { str: s.str.clone() },
            clone_type_name(t),
        ),
    }
}

/// A copy of an expression: written as the same tokens.
pub fn clone_expression(e: &Expression) -> (r: Expression)
    ensures
        expr_tokens(r) == expr_tokens(*e),
    decreases e,
{
    match e {
        Expression::Identifier(id) => Expression::Identifier(Identifier { name: id.name.clone() }),
        Expression::Literal(l) => Expression::Literal(clone_literal(l)),
        Expression::FunctionCall(fc) => {
            let mut args: Vec<Expression> = Vec::new();
            let n = fc.arguments.len();
            let mut i: usize = 0;
            assert(fc.arguments@.take(0) =~= Seq::<Expression>::empty());
            #[verifier::loop_isolation(false)]
            while i < n
                invariant
                    n == fc.arguments@.len(),
                    i <= n,
                    args@.len() == i,
                    args_tokens(args@) == args_tokens(fc.arguments@.take(i as int)),
                decreases n - i,
            {
                let a = clone_expression(&fc.arguments[i]);
                proof {
                    lemma_args_push(args@, a);
                    lemma_args_push(fc.arguments@.take(i as int), fc.arguments@[i as int]);
                    assert(fc.arguments@.take(i + 1) =~= fc.arguments@.take(i as int).push(
                        fc.arguments@[i as int],
                    ));
                }
                args.push(a);
                i = i + 1;
            }
            assert(fc.arguments@.take(n as int) =~= fc.arguments@);
            let id = Identifier { name: fc.id.name.clone() };
            Expression::FunctionCall(Box::new(FunctionCall { id, arguments: args }))
        },
    }
}

/// The tokens of the call `eq(cond, lit)`.
pub open spec fn eq_call_tokens(cond: Expression, lit: Literal) -> Seq<SpecToken> {
    seq![(TokenKind::Ident, seq!['e', 'q']), (TokenKind::LParen, seq!['('])] + expr_tokens(cond)
        + seq![(TokenKind::Comma, seq![','])] + literal_tokens(lit) + seq![
        (TokenKind::RParen, seq![')']),
    ]
}

/// The tokens of the branch chain that a switch on `cond` becomes from its
/// `i`-th case on: each case tests `eq(cond, literal)`, runs its body when
/// the test holds and otherwise goes on with the next case; after the last
/// case a branch on `true` runs the default body, or nothing.
pub open spec fn chain_tokens(
    cond: Expression,
    cases: Seq<Case>,
    dflt: Option<SwitchDefault>,
    i: int,
) -> Seq<SpecToken>
    decreases cases.len() - i,
{
    if i >= cases.len() {
        seq![kw(TokenKind::KwIf), kw(TokenKind::KwTrue)] + match dflt {
            Some(d) => block_tokens(d.body),
            None => seq![(TokenKind::LBrace, seq!['{']), (TokenKind::RBrace, seq!['}'])],
        } + seq![
            kw(TokenKind::KwDefault),
            (TokenKind::LBrace, seq!['{']),
            (TokenKind::RBrace, seq!['}']),
        ]
    } else {
        seq![kw(TokenKind::KwIf)] + eq_call_tokens(cond, cases[i].case) + block_tokens(cases[i].body)
            + seq![kw(TokenKind::KwDefault), (TokenKind::LBrace, seq!['{'])] + chain_tokens(
            cond,
            cases,
            dflt,
            i + 1,
        ) + seq![(TokenKind::RBrace, seq!['}'])]
    }
}

/// `r` is the branch chain that a switch on `cond` becomes from its `i`-th
/// case on. While cases are left, `r` tests the call `eq` of a copy of
/// `cond` (the same tokens) and the case's literal, runs the case's body, and
/// holds the chain of the next cases as the only statement of its other
/// branch. After the last case, `r` tests `true`, runs the default body (or
/// nothing) and has an empty other branch.
pub open spec fn is_chain(r: IfElse, cond: Expression, cases: Seq<Case>, dflt: Option<SwitchDefault>, i: int) -> bool
    decreases cases.len() - i,
{
    if i >= cases.len() {
        &&& r.cond == Expression::Literal(Literal::TrueLiteral(None))
        &&& match dflt {
            Some(d) => r.body == d.body,
            None => r.body.statements@.len() == 0,
        }
        &&& r.else_body.statements@.len() == 0
    } else {
        &&& r.cond matches Expression::FunctionCall(fc) && fc.id.name@ == seq!['e', 'q'] && fc.arguments@.len()
            == 2 && expr_tokens(fc.arguments@[0]) == expr_tokens(cond) && fc.arguments@[1]
            == Expression::Literal(cases[i].case)
        &&& r.body == cases[i].body
        &&& r.else_body.statements@.len() == 1
        &&& r.else_body.statements@[0] matches Statement::IfElse(next) && is_chain(*next, cond, cases, dflt, i + 1)
    }
}

proof fn lemma_empty_block(b: Block)
    requires
        b.statements@.len() == 0,
    ensures
        block_tokens(b) == seq![(TokenKind::LBrace, seq!['{']), (TokenKind::RBrace, seq!['}'])],
{
    assert(block_tokens(b) =~= seq![(TokenKind::LBrace, seq!['{']), (TokenKind::RBrace, seq!['}'])]);
}

/// Rewrites a `switch` with cases into a chain of two-way branches: the
/// first case that equals the condition runs its body, and the default
/// body runs when no case does.
pub fn switch2ifelse(switch: Switch) -> (r: IfElse)
    requires
        switch.opt is Cases,
    ensures
        switch.opt matches SwitchOptions::Cases(cases, dflt) && stmt_tokens(
            Statement::IfElse(Box::new(r)),
        ) == chain_tokens(switch.condition, cases@, dflt, 0) && is_chain(r, switch.condition, cases@, dflt, 0),
{
    let ghost orig = switch;
    let Switch { condition, opt } = switch;
    let (mut cases, dflt) = match opt {
        SwitchOptions::Cases(cs, d) => (cs, d),
        SwitchOptions::Default(_) => {
            proof {
                assert(false);
            }
            return IfElse {
                cond: condition,
                body: Block { statements: Vec::new() },
                else_body: Block { statements: Vec::new() },
            };
        },
    };
    let ghost all_cases = cases@;
    let ghost gdflt = dflt;
    let body = match dflt {
        Some(d) => d.body,
        None => Block { statements: Vec::new() },
    };
    let else_body = Block { statements: Vec::new() };
    proof {
        if gdflt is None {
            lemma_empty_block(body);
        }
        lemma_empty_block(else_body);
    }
    let mut if_else_stmt = IfElse {
        cond: Expression::Literal(Literal::TrueLiteral(None)),
        body,
        else_body,
    };
    assert(stmt_tokens(Statement::IfElse(Box::new(if_else_stmt))) == chain_tokens(
        condition,
        all_cases,
        gdflt,
        all_cases.len() as int,
    ));
    assert(is_chain(if_else_stmt, condition, all_cases, gdflt, all_cases.len() as int));
    while cases.len() > 0
        invariant
            cases@ == all_cases.take(cases@.len() as int),
            cases@.len() <= all_cases.len(),
            stmt_tokens(Statement::IfElse(Box::new(if_else_stmt))) == chain_tokens(
                condition,
                all_cases,
                gdflt,
                cases@.len() as int,
            ),
            is_chain(if_else_stmt, condition, all_cases, gdflt, cases@.len() as int),
        decreases cases@.len(),
    {
        let ghost k = cases@.len() - 1;
        let case = cases.pop().unwrap();
        assert(case == all_cases[k]);
        let c = clone_expression(&condition);
        let Case { case: lit, body } = case;
        let mut arguments: Vec<Expression> = Vec::new();
        arguments.push(c);
        let lit_expr = Expression::Literal(lit);
        proof {
            lemma_args_push(Seq::<Expression>::empty(), c);
            assert(arguments@ =~= Seq::<Expression>::empty().push(c));
            lemma_args_push(arguments@, lit_expr);
        }
        arguments.push(lit_expr);
        let cond = Expression::FunctionCall(
            Box::new(FunctionCall { id: Identifier { name: String::from_str("eq") }, arguments }),
        );
        proof {
            reveal_strlit("eq");
            assert("eq"@ =~= seq!['e', 'q']);
            assert(expr_tokens(cond) =~= eq_call_tokens(condition, all_cases[k].case));
        }
        let prev = Statement::IfElse(Box::new(if_else_stmt));
        let mut stmts: Vec<Statement> = Vec::new();
        proof {
            lemma_stmts_push(stmts@, prev);
            assert(stmts@ =~= Seq::<Statement>::empty());
            assert(stmts_tokens(stmts@) =~= Seq::<SpecToken>::empty());
        }
        stmts.push(prev);
        if_else_stmt = IfElse { cond, body, else_body: Block { statements: stmts } };
        assert(cases@ =~= all_cases.take(k));
        assert(is_chain(if_else_stmt, condition, all_cases, gdflt, k));
    }
    if_else_stmt
}

/// The value of a digit character: `0`–`9`, then `a`–`z` and `A`–`Z` from
/// ten on; 99 for any other character.
pub open spec fn digit_value(c: char) -> int {
    if '0' <= c && c <= '9' {
        c as int - '0' as int
    } else if 'a' <= c && c <= 'z' {
        c as int - 'a' as int + 10
    } else if 'A' <= c && c <= 'Z' {
        c as int - 'A' as int + 10
    } else {
        99
    }
}

/// The number that the digits spell in base `radix`.
pub open spec fn digits_value(s: Seq<char>, radix: int) -> int
    decreases s.len(),
{
    if s.len() == 0 {
        0
    } else {
        digits_value(s.drop_last(), radix) * radix + digit_value(s.last())
    }
}

/// `s` is a non-empty string of digits of base `radix`.
pub open spec fn is_digits(s: Seq<char>, radix: int) -> bool {
    s.len() > 0 && forall|i: int| 0 <= i < s.len() ==> digit_value(#[trigger] s[i]) < radix
}

/// The limbs of a wide integer are canonical: no most significant limb is
/// zero, and zero is not negative.
pub open spec fn wide_canonical(w: WideInt) -> bool {
    &&& (w.limbs@.len() == 0 || w.limbs@.last() != 0)
    &&& (w.negative ==> w.limbs@.len() > 0)
}

/// The value that `num_bigint::BigInt::parse_bytes` reads from the text in
/// base `radix`, if it reads one.
pub uninterp spec fn bigint_parsed(text: Seq<char>, radix: u32) -> Option<int>;

/// Reads a number in base `radix` with `num_bigint::BigInt::parse_bytes`
/// and takes its sign and little-endian 64-bit limbs with
/// `BigInt::to_u64_digits`. Claims that the outcome is a function of the
/// text and the base, that the limbs are canonical (a `BigInt` keeps no
/// leading zero limb, and zero has no sign), and, as the crate documents,
/// that a non-empty string of digits of the base is read as the
/// non-negative number it spells.
#[verifier::external_body]
fn parse_bigint(text: &str, radix: u32) -> (r: Option<WideInt>)
    requires
        2 <= radix <= 36,
    ensures
        r matches Some(w) ==> bigint_parsed(text@, radix) == Some(wide_value(w)),
        r is None <==> bigint_parsed(text@, radix) is None,
        r is None ==> !is_digits(text@, radix as int),
        r matches Some(w) ==> wide_canonical(w),
        r matches Some(w) ==> (is_digits(text@, radix as int) ==> wide_value(w) == digits_value(text@, radix as int)
            && !w.negative),
{
    let n = num_bigint::BigInt::parse_bytes(text.as_bytes(), radix)?;
    let (sign, limbs) = n.to_u64_digits();
    Some(WideInt { negative: sign == num_bigint::Sign::Minus, limbs })
}

/// The IR type that a Yul type name names: `bool`, `u32`, else void.
pub fn parse_ty(ty: &str) -> (t: Type)
    ensures
        t == if ty@ == "bool"@ {
            Type::Bool
        } else if ty@ == "u32"@ {
            Type::Int(IntType::U32)
        } else {
            Type::Void
        },
{
    if str_eq(ty, "bool") {
        Type::bool()
    } else if str_eq(ty, "u32") {
        Type::u32()
    } else {
        Type::void()
    }
}

/// The IR type of an optionally typed Yul name: its type's, or the EVM
/// word where it has none.
pub fn parse_ty_name(ty_name: &Option<TypeName>) -> (t: Type)
    ensures
        t == match ty_name {
            Some(ty) => if ty.type_ident.name@ == "bool"@ {
                Type::Bool
            } else if ty.type_ident.name@ == "u32"@ {
                Type::Int(IntType::U32)
            } else {
                Type::Void
            },
            None => Type::Int(IntType::U256),
        },
{
    match ty_name {
        Some(ty) => parse_ty(ty.type_ident.name.as_str()),
        None => word_ty(),
    }
}

/// A boolean IR literal.
pub fn bool_literal(v: &bool) -> (e: Expr)
    ensures
        e == Expr::Literal(IrLiteral::Bool(*v)),
{
    Expr::Literal(IrLiteral::Bool(*v))
}

/// A string IR literal.
pub fn string_literal(v: &str) -> (e: Expr)
    ensures
        e matches Expr::Literal(IrLiteral::Str(s)) && s@ == v@,
{
    Expr::Literal(IrLiteral::Str(v.to_owned()))
}

/// `s` without every leading `0x`.
pub open spec fn trim_hex_prefix(s: Seq<char>) -> Seq<char>
    decreases s.len(),
{
    if s.len() >= 2 && s[0] == '0' && s[1] == 'x' {
        trim_hex_prefix(s.skip(2))
    } else {
        s
    }
}

/// `v` without every leading `0x`.
fn strip_hex_prefixes(v: &str) -> (r: &str)
    ensures
        r@ == trim_hex_prefix(v@),
{
    let n = v.unicode_len();
    let mut i: usize = 0;
    assert(v@.skip(0) =~= v@);
    while n - i >= 2 && v.get_char(i) == '0' && v.get_char(i + 1) == 'x'
        invariant
            n == v@.len(),
            i <= n,
            trim_hex_prefix(v@.skip(i as int)) == trim_hex_prefix(v@),
        decreases n - i,
    {
        proof {
            let r = v@.skip(i as int);
            assert(r[0] == '0' && r[1] == 'x');
            assert(r.skip(2) =~= v@.skip(i + 2));
        }
        i = i + 2;
    }
    proof {
        assert(v@.skip(i as int) =~= v@.subrange(i as int, n as int));
    }
    v.substring_char(i, n)
}

/// `e` is the 256-bit unsigned IR literal of the number that `text` reads
/// as in base `radix`, with canonical limbs; where `text` is plain digits,
/// of the number they spell.
pub open spec fn is_u256_literal_of(e: Expr, text: Seq<char>, radix: u32) -> bool {
    &&& e matches Expr::Literal(IrLiteral::Int(IntLiteral::U256(w)))
    &&& bigint_parsed(text, radix) == Some(wide_value(e->Literal_0->Int_0->U256_0))
    &&& wide_canonical(e->Literal_0->Int_0->U256_0)
    &&& is_digits(text, radix as int) ==> wide_value(e->Literal_0->Int_0->U256_0) == digits_value(text, radix as int)
        && !e->Literal_0->Int_0->U256_0.negative
}

/// A 256-bit unsigned IR literal of the hexadecimal number `v` after its
/// leading `0x`s; the rest must read as a number.
pub fn hex_literal(v: &str) -> (e: Expr)
    requires
        bigint_parsed(trim_hex_prefix(v@), 16) is Some,
    ensures
        is_u256_literal_of(e, trim_hex_prefix(v@), 16),
{
    let digits = strip_hex_prefixes(v);
    match parse_bigint(digits, 16) {
        Some(w) => Expr::Literal(IrLiteral::Int(IntLiteral::U256(w))),
        None => {
            proof {
                assert(false);
            }
            Expr::NOP
        },
    }
}

/// A 256-bit unsigned IR literal of the decimal number `v`, which must read
/// as a number.
pub fn dec_literal(v: &str) -> (e: Expr)
    requires
        bigint_parsed(v@, 10) is Some,
    ensures
        is_u256_literal_of(e, v@, 10),
{
    match parse_bigint(v, 10) {
        Some(w) => Expr::Literal(IrLiteral::Int(IntLiteral::U256(w))),
        None => {
            proof {
                assert(false);
            }
            Expr::NOP
        },
    }
}

/// The digits of a Yul number literal read as a number: hexadecimal after
/// its leading `0x`s, or decimal.
pub open spec fn literal_digits_ok(lit: Literal) -> bool {
    match lit {
        Literal::HexNumberLiteral(h, _) => bigint_parsed(trim_hex_prefix(h.hex@), 16) is Some,
        Literal::DecimalNumberLiteral(d, _) => bigint_parsed(d.dec@, 10) is Some,
        _ => true,
    }
}

/// `e` is the IR literal of the Yul literal `lit`: booleans and strings as
/// they are, numbers as 256-bit unsigned integers.
pub open spec fn is_lowered_literal(lit: Literal, e: Expr) -> bool {
    match lit {
        Literal::TrueLiteral(_) => e == Expr::Literal(IrLiteral::Bool(true)),
        Literal::FalseLiteral(_) => e == Expr::Literal(IrLiteral::Bool(false)),
        Literal::HexNumberLiteral(h, _) => is_u256_literal_of(e, trim_hex_prefix(h.hex@), 16),
        Literal::DecimalNumberLiteral(d, _) => is_u256_literal_of(e, d.dec@, 10),
        Literal::StringLiteral(s, _) => e matches Expr::Literal(IrLiteral::Str(t)) && t@ == s.str@,
    }
}

/// The IR literal of a Yul literal, whose digits must read as a number.
pub fn walk_literal(lit: &Literal) -> (e: Expr)
    requires
        literal_digits_ok(*lit),
    ensures
        is_lowered_literal(*lit, e),
{
    match lit {
        Literal::TrueLiteral(_) => bool_literal(&true),
        Literal::FalseLiteral(_) => bool_literal(&false),
        Literal::HexNumberLiteral(hex, _) => hex_literal(hex.hex.as_str()),
        Literal::DecimalNumberLiteral(dec, _) => dec_literal(dec.dec.as_str()),
        Literal::StringLiteral(s, _) => string_literal(s.str.as_str()),
    }
}

/// The IR literal of a Yul literal, as `walk_literal` makes it; `None`
/// where the literal is a number whose digits do not read as one.
pub fn try_walk_literal(lit: &Literal) -> (r: Option<Expr>)
    ensures
        r is None <==> !literal_digits_ok(*lit),
        r matches Some(e) ==> is_lowered_literal(*lit, e),
{
    let ok = match lit {
        Literal::HexNumberLiteral(hex, _) => parse_bigint(strip_hex_prefixes(hex.hex.as_str()), 16).is_some(),
        Literal::DecimalNumberLiteral(dec, _) => parse_bigint(dec.dec.as_str(), 10).is_some(),
        _ => true,
    };
    if ok {
        Some(walk_literal(lit))
    } else {
        None
    }
}

} // verus!
