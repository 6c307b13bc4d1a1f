use smart_ir::codegen::{build_storage_path, literal_key_bytes, CodeGenError, PathExpr, RuntimeContext, DATA_EMPTY_LENGTH};
use smart_ir::const_storage_path::ConstStoragePathGenerator;
use smart_ir::ir::{Expr, IntLiteral, Literal, WideInt};

#[test]
fn defaults_are_empty() {
    let e = CodeGenError::default();
    assert_eq!(e.message, "");
    let c = RuntimeContext::default();
    assert_eq!(c.file_name, "");
    assert_eq!(c.line, 0);
    assert_eq!(c.col, 0);
    assert_eq!(DATA_EMPTY_LENGTH, -1);
}

#[test]
fn literal_keys() {
    assert_eq!(literal_key_bytes(&Literal::Int(IntLiteral::I64(-123456))), vec![0xc0, 0xbb, 0x78]);
    assert_eq!(literal_key_bytes(&Literal::Int(IntLiteral::U8(2))), vec![0x02]);
    assert_eq!(literal_key_bytes(&Literal::Int(IntLiteral::U32(64))), vec![0xc0, 0x00]);
    let wide = WideInt { negative: true, limbs: vec![64, 0, 0, 0] };
    assert_eq!(literal_key_bytes(&Literal::Int(IntLiteral::I256(wide))), vec![0x40]);
    assert_eq!(literal_key_bytes(&Literal::Str("ab".to_string())), b"ab".to_vec());
    assert_eq!(literal_key_bytes(&Literal::Bool(true)), b"true".to_vec());
    assert_eq!(literal_key_bytes(&Literal::Bool(false)), b"false".to_vec());
}

#[test]
fn storage_path_keeps_non_literal_keys() {
    let keys = vec![Expr::Literal(Literal::Int(IntLiteral::U64(1))), Expr::Identifier(7), Expr::Literal(Literal::Str("k".to_string()))];
    let p = build_storage_path(keys, &[3, 4]);
    assert_eq!(p.extra_args, vec![3, 4]);
    assert_eq!(p.keys.len(), 3);
    assert!(matches!(&p.keys[0], PathExpr::Const(b) if b == &vec![0x01]));
    assert!(matches!(&p.keys[1], PathExpr::Val(Expr::Identifier(7))));
    assert!(matches!(&p.keys[2], PathExpr::Const(b) if b == &b"k".to_vec()));
}

#[test]
fn const_storage_paths_of_an_empty_generator() {
    let mut g = ConstStoragePathGenerator::new();
    assert_eq!(g.get_const_storage_path_global_name(), "const_storage_paths");
    g.const_storage_path_bytes.extend_from_slice(&[1, 2, 3]);
    assert_eq!(g.finalize_const_storage_path_data(), (3, 0));
    assert_eq!(g.const_storage_path_bytes, vec![1, 2, 3]);
}
