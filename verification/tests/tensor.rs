use smart_ir::ir::{
    BasicBlock, BinaryOp, CmpOp, Contract, ControlFlowGraph, Expr, FunctionDefinition, FunctionName, IRContext,
    IRModule, Instr, InstrDescription, IntLiteral, Literal, Type,
};
use smart_ir::tensor::{get_bb_feats, get_bb_graph, get_cfg_feats, ir2tensor, sort_by_idx, walk_expr, walk_instr, NodeFeat};

fn instr(inner: InstrDescription) -> Instr {
    Instr { inner }
}

fn lit(v: u32) -> Expr {
    Expr::Literal(Literal::Int(IntLiteral::U32(v)))
}

#[test]
fn walk_expr_names_each_expression() {
    let n = walk_expr(&Expr::Identifier(3), 2, 5);
    assert_eq!(n.idx_in_parent, 2);
    assert_eq!(n.kind, "Expr");
    assert_eq!(n.inner_kind, "Expr::Identifier");
    assert_eq!(n.depth, 5);
    assert!(n.children.is_empty());
    assert_eq!(walk_expr(&lit(1), 0, 0).inner_kind, "Expr::Literal");
    assert_eq!(walk_expr(&Expr::NOP, 0, 0).inner_kind, "Expr::NOP");
    let nested = Expr::Instr(Box::new(instr(InstrDescription::Not { op: Expr::Identifier(1) })));
    let n = walk_expr(&nested, 1, 2);
    assert_eq!(n.inner_kind, "Expr::Instr");
    assert_eq!(n.children.len(), 1);
    let inner = &n.children[0];
    assert_eq!(inner.kind, "Instr");
    assert_eq!(inner.inner_kind, "InstrDescription::Not");
    assert_eq!(inner.idx_in_parent, 0);
    assert_eq!(inner.depth, 3);
    assert_eq!(inner.children[0].inner_kind, "Expr::Identifier");
    assert_eq!(inner.children[0].depth, 4);
}

#[test]
fn walk_instr_binary_has_operator_and_operands() {
    let i = instr(InstrDescription::Binary { op_code: BinaryOp::Shl, op1: Expr::Identifier(1), op2: lit(2) });
    let n = walk_instr(&i, 7, 1);
    assert_eq!(n.idx_in_parent, 7);
    assert_eq!(n.kind, "Instr");
    assert_eq!(n.inner_kind, "InstrDescription::Binary");
    assert_eq!(n.depth, 1);
    assert_eq!(n.children.len(), 3);
    assert_eq!(n.children[0].kind, "BinaryOp");
    assert_eq!(n.children[0].inner_kind, "BinaryOp::Shl");
    assert_eq!(n.children[0].depth, 2);
    assert_eq!(n.children[1].idx_in_parent, 1);
    assert_eq!(n.children[1].inner_kind, "Expr::Identifier");
    assert_eq!(n.children[2].idx_in_parent, 2);
    assert_eq!(n.children[2].inner_kind, "Expr::Literal");
}

#[test]
fn walk_instr_cmp_and_call() {
    let c = instr(InstrDescription::Cmp { op_code: CmpOp::Ge, op1: Expr::Identifier(1), op2: Expr::Identifier(2) });
    let n = walk_instr(&c, 0, 0);
    assert_eq!(n.children[0].kind, "CmpOp");
    assert_eq!(n.children[0].inner_kind, "CmpOp::Ge");
    let call = instr(InstrDescription::Call {
        func_name: FunctionName { name: "ir.builtin.print".to_string() },
        args: vec![lit(1), Expr::Identifier(4)],
        ret_ty: Type::void(),
    });
    let n = walk_instr(&call, 3, 1);
    assert_eq!(n.inner_kind, "InstrDescription::Call");
    assert_eq!(n.children.len(), 2);
    assert_eq!(n.children[0].kind, "PartialFuncName");
    assert_eq!(n.children[0].inner_kind, "ir.builtin.print");
    assert_eq!(n.children[1].kind, "Vector");
    assert_eq!(n.children[1].inner_kind, "Args");
    assert_eq!(n.children[1].idx_in_parent, 1);
    assert_eq!(n.children[1].children.len(), 2);
    assert_eq!(n.children[1].children[0].idx_in_parent, 1);
    assert_eq!(n.children[1].children[0].depth, 3);
    assert_eq!(n.children[1].children[1].inner_kind, "Expr::Identifier");
}

#[test]
fn walk_instr_storage_path_numbers_its_keys() {
    let i = instr(InstrDescription::GetStoragePath { storage_path: vec![lit(1), lit(2), Expr::Identifier(3)] });
    let n = walk_instr(&i, 0, 0);
    assert_eq!(n.inner_kind, "InstrDescription::GetStoragePath");
    let idx: Vec<u32> = n.children.iter().map(|c| c.idx_in_parent).collect();
    assert_eq!(idx, vec![0, 1, 2]);
    let br = walk_instr(&instr(InstrDescription::Br { target: 4 }), 0, 0);
    assert_eq!(br.inner_kind, "InstrDescription::Br");
    assert!(br.children.is_empty());
    let ret = walk_instr(&instr(InstrDescription::Ret { val: None }), 0, 0);
    assert!(ret.children.is_empty());
}

fn sample_cfg() -> ControlFlowGraph {
    let b0 = BasicBlock {
        id: 0,
        instrs: vec![
            instr(InstrDescription::Declaration { id: 1, init_val: Some(lit(5)), ty: Type::u32() }),
            instr(InstrDescription::BrIf { cond: Expr::Identifier(1), then_bb: 1, else_bb: 2 }),
        ],
    };
    let b1 = BasicBlock { id: 1, instrs: vec![instr(InstrDescription::Br { target: 2 })] };
    let b2 = BasicBlock { id: 2, instrs: vec![instr(InstrDescription::Ret { val: None })] };
    ControlFlowGraph { basic_blocks: vec![(2, b2), (0, b0), (1, b1)] }
}

#[test]
fn bb_feats_number_instructions_in_order() {
    let cfg = sample_cfg();
    let feats = get_bb_feats(&cfg.basic_blocks[1].1, 1);
    assert_eq!(feats.len(), 2);
    assert_eq!(feats[0].idx_in_parent, 0);
    assert_eq!(feats[0].inner_kind, "InstrDescription::Declaration");
    assert_eq!(feats[0].depth, 1);
    assert_eq!(feats[1].idx_in_parent, 1);
    assert_eq!(feats[1].inner_kind, "InstrDescription::BrIf");
}

#[test]
fn cfg_feats_have_one_node_per_block() {
    let cfg = sample_cfg();
    let feats = get_cfg_feats(&cfg);
    let ids: Vec<u32> = feats.iter().map(|f| f.idx_in_parent).collect();
    assert_eq!(ids, vec![2, 0, 1]);
    for f in &feats {
        assert_eq!(f.kind, "BasicBlock");
        assert_eq!(f.inner_kind, "BasicBlock");
        assert_eq!(f.depth, 0);
    }
    assert_eq!(feats[1].children.len(), 2);
}

#[test]
fn bb_graph_lists_branch_targets() {
    let cfg = sample_cfg();
    let g = get_bb_graph(&cfg);
    assert_eq!(g.len(), 2);
    assert_eq!(g[&0], vec![1, 2]);
    assert_eq!(g[&1], vec![2]);
    assert!(!g.contains_key(&2));
}

fn feat(idx: u32) -> NodeFeat {
    NodeFeat { idx_in_parent: idx, kind: "k".to_string(), inner_kind: format!("{idx}"), depth: 0, children: vec![] }
}

#[test]
fn sort_by_idx_orders_nodes() {
    let sorted = sort_by_idx(vec![feat(3), feat(1), feat(2), feat(0)]);
    let ids: Vec<u32> = sorted.iter().map(|f| f.idx_in_parent).collect();
    assert_eq!(ids, vec![0, 1, 2, 3]);
    assert_eq!(sorted[0].inner_kind, "0");
}

#[test]
fn ir2tensor_gives_one_tensor_per_function() {
    let f1 = FunctionDefinition { name: "f".to_string(), cfg: sample_cfg() };
    let f2 = FunctionDefinition { name: "g".to_string(), cfg: ControlFlowGraph { basic_blocks: vec![] } };
    let contract = Contract { name: "C".to_string(), functions: vec![("f".to_string(), f1), ("g".to_string(), f2)] };
    let ctx = IRContext { modules: vec![("m".to_string(), IRModule { name: "m".to_string(), contract: Some(contract) })] };
    let datas = ir2tensor(&ctx);
    assert_eq!(datas.len(), 2);
    assert_eq!(datas[0].func_name, "f");
    assert_eq!(datas[0].doc, "");
    let ids: Vec<u32> = datas[0].cfg_feats.iter().map(|f| f.idx_in_parent).collect();
    assert_eq!(ids, vec![0, 1, 2]);
    assert_eq!(datas[0].cfg_edges[&0], vec![1, 2]);
    assert_eq!(datas[1].func_name, "g");
    assert!(datas[1].cfg_feats.is_empty());
    assert!(datas[1].cfg_edges.is_empty());
}

#[test]
fn walkers_reach_the_deepest_depths() {
    let br = walk_instr(&instr(InstrDescription::Br { target: 1 }), 0, u32::MAX);
    assert_eq!(br.depth, u32::MAX);
    assert!(br.children.is_empty());
    let not = walk_instr(&instr(InstrDescription::Not { op: Expr::Identifier(1) }), 0, u32::MAX - 1);
    assert_eq!(not.children[0].depth, u32::MAX);
    let call = instr(InstrDescription::Call {
        func_name: FunctionName { name: "f".to_string() },
        args: vec![],
        ret_ty: Type::void(),
    });
    let c = walk_instr(&call, 0, u32::MAX - 1);
    assert_eq!(c.children[1].depth, u32::MAX);
    assert!(c.children[1].children.is_empty());
    let e = walk_expr(&Expr::Instr(Box::new(instr(InstrDescription::Alloca { ty: Type::u8() }))), 0, u32::MAX - 1);
    assert_eq!(e.children[0].depth, u32::MAX);
}

#[test]
fn sort_by_idx_keeps_equal_positions_in_order() {
    let mk = |idx: u32, tag: &str| NodeFeat {
        idx_in_parent: idx,
        kind: tag.to_string(),
        inner_kind: String::new(),
        depth: 0,
        children: vec![],
    };
    let sorted = sort_by_idx(vec![mk(2, "a"), mk(1, "b"), mk(2, "c"), mk(1, "d"), mk(0, "e")]);
    let tags: Vec<&str> = sorted.iter().map(|f| f.kind.as_str()).collect();
    assert_eq!(tags, vec!["e", "b", "d", "a", "c"]);
}
