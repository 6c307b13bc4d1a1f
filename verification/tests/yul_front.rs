use smart_ir::ir::{Expr, IntLiteral, IntType, Literal as IrLiteral, Type};
use smart_ir::yul::ast::{
    Block, Case, DecimalNumber, Expression, FunctionCall, HexNumber, Identifier, Literal, Statement, StringLiteral,
    Switch, SwitchDefault, TypeName,
    SwitchOptions, TokenKind,
};
use smart_ir::yul::instruction::{parse_intrinsic_func_name, str_eq, YulInstructionName};
use smart_ir::yul::lexer::tokenize;
use smart_ir::yul::parser::{BlockParser, ObjectParser, YulParseError};
use smart_ir::yul::transform::{
    dec_literal, hex_literal, mem_data_ty, parse_ty, parse_ty_name, signed_word_ty, switch2ifelse, try_walk_literal,
    walk_literal,
    word_ty, WORD_SIZE,
};

#[test]
fn tokenize_reads_tokens_and_skips_comments() {
    let toks = tokenize("{ let x := add(0x1f, 2) } // done\n/* c */ \"s\"").unwrap();
    let kinds: Vec<TokenKind> = toks.iter().map(|t| t.kind).collect();
    assert_eq!(
        kinds,
        vec![
            TokenKind::LBrace,
            TokenKind::KwLet,
            TokenKind::Ident,
            TokenKind::Assign,
            TokenKind::Ident,
            TokenKind::LParen,
            TokenKind::HexNumber,
            TokenKind::Comma,
            TokenKind::DecNumber,
            TokenKind::RParen,
            TokenKind::RBrace,
            TokenKind::Str,
        ]
    );
    assert_eq!(toks[2].text, "x");
    assert_eq!(toks[2].start, 6);
    assert_eq!(toks[2].end, 7);
    assert_eq!(toks[6].text, "0x1f");
}

#[test]
fn tokenize_rejects_unknown_characters() {
    assert!(tokenize("{ # }").is_err());
    assert_eq!(tokenize("{ # }").unwrap_err().pos, 2);
}

#[test]
fn block_parser_builds_the_tree() {
    let b = BlockParser::new().parse("{ let x := 1 if lt(x, 2) { x := 3 } }").unwrap();
    assert_eq!(b.statements.len(), 2);
    match &b.statements[0] {
        Statement::VariableDeclaration(d) => {
            assert_eq!(d.identifiers.len(), 1);
            assert_eq!(d.identifiers[0].identifier.name, "x");
            assert!(matches!(d.value, Some(Expression::Literal(Literal::DecimalNumberLiteral(_, None)))));
        }
        other => panic!("unexpected {other:?}"),
    }
    match &b.statements[1] {
        Statement::If(i) => {
            match &i.cond {
                Expression::FunctionCall(c) => {
                    assert_eq!(c.id.name, "lt");
                    assert_eq!(c.arguments.len(), 2);
                }
                other => panic!("unexpected {other:?}"),
            }
            assert_eq!(i.body.statements.len(), 1);
        }
        other => panic!("unexpected {other:?}"),
    }
}

#[test]
fn block_parser_reports_errors() {
    assert!(matches!(BlockParser::new().parse("{ let x := }"), Err(YulParseError::Syntax(_))));
    assert!(matches!(BlockParser::new().parse("{ # }"), Err(YulParseError::Lex(2))));
    assert!(matches!(BlockParser::new().parse("{ } }"), Err(YulParseError::Syntax(_))));
}

#[test]
fn object_parser_reads_segments() {
    let o = ObjectParser::new()
        .parse("object \"A\" { code { } object \"A_deployed\" { code { stop() } } data \".m\" hex\"00ff\" }")
        .unwrap();
    assert_eq!(o.name, "A");
    assert_eq!(o.inner_segments.len(), 2);
    assert!(ObjectParser::new().parse("object \"A\" { }").is_err());
}

#[test]
fn intrinsic_names_parse_to_instructions() {
    assert_eq!(parse_intrinsic_func_name("add"), Some(YulInstructionName::Add));
    assert_eq!(parse_intrinsic_func_name("sstore"), Some(YulInstructionName::SStore));
    assert_eq!(parse_intrinsic_func_name("stop"), Some(YulInstructionName::Stop));
    assert_eq!(parse_intrinsic_func_name("no_such_builtin"), None);
    assert_eq!(parse_intrinsic_func_name("Add"), None);
    assert_eq!(YulInstructionName::from("caller".to_string()), YulInstructionName::Caller);
}

#[test]
fn str_eq_compares_texts() {
    assert!(str_eq("abc", "abc"));
    assert!(!str_eq("abc", "abd"));
    assert!(!str_eq("ab", "abc"));
    assert!(str_eq("", ""));
}

#[test]
fn word_types() {
    assert_eq!(WORD_SIZE, 32);
    assert!(matches!(word_ty(), Type::Int(IntType::U256)));
    assert!(matches!(signed_word_ty(), Type::Int(IntType::I256)));
    match mem_data_ty() {
        Type::Array { elem, len } => {
            assert!(matches!(*elem, Type::Int(IntType::U8)));
            assert!(len.is_none());
        }
        other => panic!("unexpected {other:?}"),
    }
}

fn ident(name: &str) -> Identifier {
    Identifier { name: name.to_string() }
}

fn call_stmt(name: &str) -> Statement {
    Statement::FunctionCall(FunctionCall { id: ident(name), arguments: vec![] })
}

fn dec(v: &str) -> Literal {
    Literal::DecimalNumberLiteral(DecimalNumber { dec: v.to_string() }, None)
}

#[test]
fn switch2ifelse_chains_the_cases() {
    let switch = Switch {
        condition: Expression::Identifier(ident("x")),
        opt: SwitchOptions::Cases(
            vec![
                Case { case: dec("1"), body: Block { statements: vec![call_stmt("a")] } },
                Case { case: dec("2"), body: Block { statements: vec![call_stmt("b")] } },
            ],
            Some(SwitchDefault { body: Block { statements: vec![call_stmt("c")] } }),
        ),
    };
    let r = switch2ifelse(switch);
    let check_cond = |e: &Expression, v: &str| match e {
        Expression::FunctionCall(c) => {
            assert_eq!(c.id.name, "eq");
            assert!(matches!(&c.arguments[0], Expression::Identifier(i) if i.name == "x"));
            assert!(matches!(&c.arguments[1], Expression::Literal(Literal::DecimalNumberLiteral(d, None)) if d.dec == v));
        }
        other => panic!("unexpected {other:?}"),
    };
    check_cond(&r.cond, "1");
    assert!(matches!(&r.body.statements[0], Statement::FunctionCall(c) if c.id.name == "a"));
    let second = match &r.else_body.statements[0] {
        Statement::IfElse(i) => i,
        other => panic!("unexpected {other:?}"),
    };
    check_cond(&second.cond, "2");
    assert!(matches!(&second.body.statements[0], Statement::FunctionCall(c) if c.id.name == "b"));
    let last = match &second.else_body.statements[0] {
        Statement::IfElse(i) => i,
        other => panic!("unexpected {other:?}"),
    };
    assert!(matches!(last.cond, Expression::Literal(Literal::TrueLiteral(None))));
    assert!(matches!(&last.body.statements[0], Statement::FunctionCall(c) if c.id.name == "c"));
    assert!(last.else_body.statements.is_empty());
}

#[test]
fn yul_type_names_map_to_ir_types() {
    assert!(matches!(parse_ty("bool"), Type::Bool));
    assert!(matches!(parse_ty("u32"), Type::Int(IntType::U32)));
    assert!(matches!(parse_ty("u256"), Type::Void));
    assert!(matches!(parse_ty_name(&None), Type::Int(IntType::U256)));
    let t = Some(TypeName { type_ident: ident("bool") });
    assert!(matches!(parse_ty_name(&t), Type::Bool));
}

#[test]
fn yul_literals_lower_to_ir_literals() {
    let limbs = |e: Expr| match e {
        Expr::Literal(IrLiteral::Int(IntLiteral::U256(w))) => {
            assert!(!w.negative);
            w.limbs
        }
        other => panic!("unexpected {other:?}"),
    };
    assert_eq!(limbs(hex_literal("0x1f")), vec![31]);
    assert_eq!(limbs(hex_literal("0x10000000000000000")), vec![0, 1]);
    assert_eq!(limbs(hex_literal("0x0")), Vec::<u64>::new());
    assert_eq!(limbs(dec_literal("123")), vec![123]);
    assert_eq!(limbs(dec_literal("18446744073709551617")), vec![1, 1]);
    assert!(matches!(walk_literal(&Literal::TrueLiteral(None)), Expr::Literal(IrLiteral::Bool(true))));
    assert!(matches!(walk_literal(&Literal::FalseLiteral(None)), Expr::Literal(IrLiteral::Bool(false))));
    let s = walk_literal(&Literal::StringLiteral(StringLiteral { str: "runtime".to_string() }, None));
    assert!(matches!(s, Expr::Literal(IrLiteral::Str(t)) if t == "runtime"));
    let h = walk_literal(&Literal::HexNumberLiteral(HexNumber { hex: "0xff".to_string() }, None));
    assert_eq!(limbs(h), vec![255]);
    assert_eq!(limbs(walk_literal(&dec("42"))), vec![42]);
}

#[test]
fn number_literals_read_as_num_bigint_reads_them() {
    let limbs = |e: Expr| match e {
        Expr::Literal(IrLiteral::Int(IntLiteral::U256(w))) => (w.negative, w.limbs),
        other => panic!("unexpected {other:?}"),
    };
    assert_eq!(limbs(dec_literal("1_000")), (false, vec![1000]));
    assert_eq!(limbs(dec_literal("+7")), (false, vec![7]));
    assert_eq!(limbs(dec_literal("-7")), (true, vec![7]));
    assert_eq!(limbs(dec_literal("0")), (false, vec![]));
    assert_eq!(limbs(hex_literal("0x0x10")), (false, vec![16]));
    let bad = Literal::HexNumberLiteral(HexNumber { hex: "0xzz".to_string() }, None);
    assert!(try_walk_literal(&bad).is_none());
    let good = try_walk_literal(&dec("5")).unwrap();
    assert_eq!(limbs(good), (false, vec![5]));
}
