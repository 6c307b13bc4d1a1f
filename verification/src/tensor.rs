//! Tensor features of IR functions: the edges of each control-flow graph
//! and, for each basic block, a tree of features of its instructions and
//! expressions.

use vstd::prelude::*;
use std::collections::HashMap;
use vstd::multiset::Multiset;
use crate::ir::{
    IRContext, IRModule, FunctionDefinition, BasicBlock, BasicBlockId, BinaryOp, CmpOp, ControlFlowGraph, Expr, Instr, InstrDescription,
};

verus! {

/// A node of a feature tree.
#[derive(Debug)]
pub struct NodeFeat {
    pub idx_in_parent: u32,
    pub kind: String,
    pub inner_kind: String,
    pub depth: u32,
    pub children: Vec<NodeFeat>,
}

/// What a feature node says: its position among its siblings, its kinds,
/// its depth and its children.
pub struct FeatView {
    pub idx: u32,
    pub kind: Seq<char>,
    pub inner_kind: Seq<char>,
    pub depth: u32,
    pub children: Seq<FeatView>,
}

/// What a feature node says.
pub open spec fn feat_view(n: NodeFeat) -> FeatView
    decreases n,
{
    FeatView {
        idx: n.idx_in_parent,
        kind: n.kind@,
        inner_kind: n.inner_kind@,
        depth: n.depth,
        children: feats_view(n.children@),
    }
}

/// What each node of a sequence says.
pub open spec fn feats_view(s: Seq<NodeFeat>) -> Seq<FeatView>
    decreases s,
{
    if s.len() == 0 {
        Seq::empty()
    } else {
        feats_view(s.drop_last()).push(feat_view(s.last()))
    }
}

/// The name of the kind of an expression.
pub open spec fn expr_kind_name(e: Expr) -> Seq<char> {
    match e {
        Expr::Identifier(_) => "Expr::Identifier"@,
        Expr::Instr(_) => "Expr::Instr"@,
        Expr::Literal(_) => "Expr::Literal"@,
        Expr::NOP => "Expr::NOP"@,
    }
}

/// The name of a binary operator.
pub open spec fn binary_op_name(op: BinaryOp) -> Seq<char> {
    match op {
        BinaryOp::Add => "BinaryOp::Add"@,
        BinaryOp::Sub => "BinaryOp::Sub"@,
        BinaryOp::Mul => "BinaryOp::Mul"@,
        BinaryOp::Div => "BinaryOp::Div"@,
        BinaryOp::Mod => "BinaryOp::Mod"@,
        BinaryOp::Exp => "BinaryOp::Exp"@,
        BinaryOp::And => "BinaryOp::And"@,
        BinaryOp::BitAnd => "BinaryOp::BitAnd"@,
        BinaryOp::Or => "BinaryOp::Or"@,
        BinaryOp::BitOr => "BinaryOp::BitOr"@,
        BinaryOp::BitXor => "BinaryOp::BitXor"@,
        BinaryOp::Shl => "BinaryOp::Shl"@,
        BinaryOp::Shr => "BinaryOp::Shr"@,
        BinaryOp::Sar => "BinaryOp::Sar"@,
    }
}

/// The name of a comparison operator.
pub open spec fn comparison_op_name(op: CmpOp) -> Seq<char> {
    match op {
        CmpOp::Eq => "CmpOp::Eq"@,
        CmpOp::Ne => "CmpOp::Ne"@,
        CmpOp::Gt => "CmpOp::Gt"@,
        CmpOp::Ge => "CmpOp::Ge"@,
        CmpOp::Lt => "CmpOp::Lt"@,
        CmpOp::Le => "CmpOp::Le"@,
    }
}

/// The name of the kind of an instruction.
pub open spec fn instr_kind_name(d: InstrDescription) -> Seq<char> {
    match d {
        InstrDescription::Declaration { .. } => "InstrDescription::Declaration"@,
        InstrDescription::Assignment { .. } => "InstrDescription::Assignment"@,
        InstrDescription::Ret { .. } => "InstrDescription::Ret"@,
        InstrDescription::Br { .. } => "InstrDescription::Br"@,
        InstrDescription::BrIf { .. } => "InstrDescription::BrIf"@,
        InstrDescription::Match { .. } => "InstrDescription::Match"@,
        InstrDescription::Not { .. } => "InstrDescription::Not"@,
        InstrDescription::BitNot { .. } => "InstrDescription::BitNot"@,
        InstrDescription::Binary { .. } => "InstrDescription::Binary"@,
        InstrDescription::Cmp { .. } => "InstrDescription::Cmp"@,
        InstrDescription::Alloca { .. } => "InstrDescription::Alloca"@,
        InstrDescription::Malloc { .. } => "InstrDescription::Malloc"@,
        InstrDescription::Free { .. } => "InstrDescription::Free"@,
        InstrDescription::GetField { .. } => "InstrDescription::GetField"@,
        InstrDescription::SetField { .. } => "InstrDescription::SetField"@,
        InstrDescription::GetStoragePath { .. } => "InstrDescription::GetStoragePath"@,
        InstrDescription::StorageLoad { .. } => "InstrDescription::StorageLoad"@,
        InstrDescription::StorageStore { .. } => "InstrDescription::StorageStore"@,
        InstrDescription::Call { .. } => "InstrDescription::Call"@,
        InstrDescription::IntCast { .. } => "InstrDescription::IntCast"@,
    }
}

#[allow(non_snake_case)]
fn Expr2Idx(expr: &Expr) -> (s: String)
    ensures
        s@ == expr_kind_name(*expr),
{
    match expr {
        Expr::Identifier(_) => String::from_str("Expr::Identifier"),
        Expr::Instr(_) => String::from_str("Expr::Instr"),
        Expr::Literal(_) => String::from_str("Expr::Literal"),
        Expr::NOP => String::from_str("Expr::NOP"),
    }
}

#[allow(non_snake_case)]
fn BinaryOp2Idx(op: &BinaryOp) -> (s: String)
    ensures
        s@ == binary_op_name(*op),
{
    match op {
        BinaryOp::Add => String::from_str("BinaryOp::Add"),
        BinaryOp::Sub => String::from_str("BinaryOp::Sub"),
        BinaryOp::Mul => String::from_str("BinaryOp::Mul"),
        BinaryOp::Div => String::from_str("BinaryOp::Div"),
        BinaryOp::Mod => String::from_str("BinaryOp::Mod"),
        BinaryOp::Exp => String::from_str("BinaryOp::Exp"),
        BinaryOp::And => String::from_str("BinaryOp::And"),
        BinaryOp::BitAnd => String::from_str("BinaryOp::BitAnd"),
        BinaryOp::Or => String::from_str("BinaryOp::Or"),
        BinaryOp::BitOr => String::from_str("BinaryOp::BitOr"),
        BinaryOp::BitXor => String::from_str("BinaryOp::BitXor"),
        BinaryOp::Shl => String::from_str("BinaryOp::Shl"),
        BinaryOp::Shr => String::from_str("BinaryOp::Shr"),
        BinaryOp::Sar => String::from_str("BinaryOp::Sar"),
    }
}

#[allow(non_snake_case)]
fn CmpOp2Idx(op: &CmpOp) -> (s: String)
    ensures
        s@ == comparison_op_name(*op),
{
    match op {
        CmpOp::Eq => String::from_str("CmpOp::Eq"),
        CmpOp::Ne => String::from_str("CmpOp::Ne"),
        CmpOp::Gt => String::from_str("CmpOp::Gt"),
        CmpOp::Ge => String::from_str("CmpOp::Ge"),
        CmpOp::Lt => String::from_str("CmpOp::Lt"),
        CmpOp::Le => String::from_str("CmpOp::Le"),
    }
}

#[allow(non_snake_case)]
fn InstrDescription2Idx(instr: &Instr) -> (s: String)
    ensures
        s@ == instr_kind_name(instr.inner),
{
    match &instr.inner {
        InstrDescription::Declaration { .. } => String::from_str("InstrDescription::Declaration"),
        InstrDescription::Assignment { .. } => String::from_str("InstrDescription::Assignment"),
        InstrDescription::Ret { .. } => String::from_str("InstrDescription::Ret"),
        InstrDescription::Br { .. } => String::from_str("InstrDescription::Br"),
        InstrDescription::BrIf { .. } => String::from_str("InstrDescription::BrIf"),
        InstrDescription::Match { .. } => String::from_str("InstrDescription::Match"),
        InstrDescription::Not { .. } => String::from_str("InstrDescription::Not"),
        InstrDescription::BitNot { .. } => String::from_str("InstrDescription::BitNot"),
        InstrDescription::Binary { .. } => String::from_str("InstrDescription::Binary"),
        InstrDescription::Cmp { .. } => String::from_str("InstrDescription::Cmp"),
        InstrDescription::Alloca { .. } => String::from_str("InstrDescription::Alloca"),
        InstrDescription::Malloc { .. } => String::from_str("InstrDescription::Malloc"),
        InstrDescription::Free { .. } => String::from_str("InstrDescription::Free"),
        InstrDescription::GetField { .. } => String::from_str("InstrDescription::GetField"),
        InstrDescription::SetField { .. } => String::from_str("InstrDescription::SetField"),
        InstrDescription::GetStoragePath { .. } => String::from_str("InstrDescription::GetStoragePath"),
        InstrDescription::StorageLoad { .. } => String::from_str("InstrDescription::StorageLoad"),
        InstrDescription::StorageStore { .. } => String::from_str("InstrDescription::StorageStore"),
        InstrDescription::Call { .. } => String::from_str("InstrDescription::Call"),
        InstrDescription::IntCast { .. } => String::from_str("InstrDescription::IntCast"),
    }
}

/// A feature node without children.
pub open spec fn leaf(idx: u32, kind: Seq<char>, inner_kind: Seq<char>, depth: u32) -> FeatView {
    FeatView { idx, kind, inner_kind, depth, children: Seq::empty() }
}

/// How many levels below its own node the feature tree of an expression
/// goes: one more than its instruction's, or none.
pub open spec fn expr_height(e: Expr) -> nat
    decreases e,
{
    match e {
        Expr::Instr(i) => 1 + instr_height(*i),
        _ => 0,
    }
}

/// The largest `expr_height` of a sequence of expressions.
pub open spec fn exprs_height(s: Seq<Expr>) -> nat
    decreases s,
{
    if s.len() == 0 {
        0
    } else {
        let a = exprs_height(s.drop_last());
        let b = expr_height(s.last());
        if a >= b {
            a
        } else {
            b
        }
    }
}

/// The larger of two heights.
pub open spec fn max_height(a: nat, b: nat) -> nat {
    if a >= b {
        a
    } else {
        b
    }
}

/// How many levels below its own node the feature tree of an instruction
/// goes: none where it builds no child, else one for its children and as
/// many as the deepest operand's tree; a call's arguments stand one more
/// level down, under their `Args` node.
pub open spec fn instr_height(i: Instr) -> nat
    decreases i,
{
    match i.inner {
        InstrDescription::Declaration { init_val, .. } => match init_val {
            Some(e) => 1 + expr_height(e),
            None => 0,
        },
        InstrDescription::Assignment { val, .. } => 1 + expr_height(val),
        InstrDescription::Ret { val } => match val {
            Some(e) => 1 + expr_height(e),
            None => 0,
        },
        InstrDescription::Br { .. } => 0,
        InstrDescription::BrIf { cond, .. } => 1 + expr_height(cond),
        InstrDescription::Match { val, .. } => 1 + expr_height(val),
        InstrDescription::Not { op } => 1 + expr_height(op),
        InstrDescription::BitNot { op } => 1 + expr_height(op),
        InstrDescription::Binary { op1, op2, .. } => 1 + max_height(expr_height(op1), expr_height(op2)),
        InstrDescription::Cmp { op1, op2, .. } => 1 + max_height(expr_height(op1), expr_height(op2)),
        InstrDescription::Alloca { .. } => 0,
        InstrDescription::Malloc { .. } => 0,
        InstrDescription::Free { ptr } => 1 + expr_height(ptr),
        InstrDescription::GetField { ptr, .. } => 1 + expr_height(ptr),
        InstrDescription::SetField { ptr, val, .. } => 1 + max_height(expr_height(ptr), expr_height(val)),
        InstrDescription::GetStoragePath { storage_path } => if storage_path@.len() == 0 {
            0
        } else {
            1 + exprs_height(storage_path@)
        },
        InstrDescription::StorageLoad { storage_path, .. } => 1 + expr_height(storage_path),
        InstrDescription::StorageStore { storage_path, store_val } => 1 + max_height(
            expr_height(storage_path),
            expr_height(store_val),
        ),
        InstrDescription::Call { args, .. } => if args@.len() == 0 {
            1
        } else {
            2 + exprs_height(args@)
        },
        InstrDescription::IntCast { val, .. } => 1 + expr_height(val),
    }
}

/// The features of an expression at position `idx` and depth `depth`: an
/// `Expr` node naming its kind, whose only child, for an instruction, is
/// the features of that instruction.
pub open spec fn spec_walk_expr(e: Expr, idx: u32, depth: u32) -> FeatView
    decreases e,
{
    FeatView {
        idx,
        kind: "Expr"@,
        inner_kind: expr_kind_name(e),
        depth,
        children: match e {
            Expr::Instr(i) => seq![spec_walk_instr(*i, 0, (depth + 1) as u32)],
            _ => Seq::empty(),
        },
    }
}

/// The features of the storage path expressions, each at its own position.
pub open spec fn spec_path_feats(s: Seq<Expr>, depth: u32) -> Seq<FeatView>
    decreases s,
{
    if s.len() == 0 {
        Seq::empty()
    } else {
        spec_path_feats(s.drop_last(), depth).push(
            spec_walk_expr(s.last(), (s.len() - 1) as u32, depth),
        )
    }
}

/// The features of call arguments, all at position 1.
pub open spec fn spec_arg_feats(s: Seq<Expr>, depth: u32) -> Seq<FeatView>
    decreases s,
{
    if s.len() == 0 {
        Seq::empty()
    } else {
        spec_arg_feats(s.drop_last(), depth).push(spec_walk_expr(s.last(), 1, depth))
    }
}

/// The features of an optional operand at position 0.
pub open spec fn spec_opt_feats(o: Option<Expr>, depth: u32) -> Seq<FeatView>
    decreases o,
{
    match o {
        Some(e) => seq![spec_walk_expr(e, 0, depth)],
        None => Seq::empty(),
    }
}

/// The features of an instruction at position `idx` and depth `depth`: an
/// `Instr` node naming its kind, whose children are the features of its
/// operands one level deeper; a binary operation or a comparison first
/// names its operator, and a call names the function and then lists its
/// arguments under an `Args` node.
pub open spec fn spec_walk_instr(i: Instr, idx: u32, depth: u32) -> FeatView
    decreases i,
{
    let d1 = (depth + 1) as u32;
    let d2 = (depth + 2) as u32;
    FeatView {
        idx,
        kind: "Instr"@,
        inner_kind: instr_kind_name(i.inner),
        depth,
        children: match i.inner {
            InstrDescription::Declaration { init_val, .. } => spec_opt_feats(init_val, d1),
            InstrDescription::Assignment { val, .. } => seq![spec_walk_expr(val, 0, d1)],
            InstrDescription::Ret { val } => spec_opt_feats(val, d1),
            InstrDescription::Br { .. } => Seq::empty(),
            InstrDescription::BrIf { cond, .. } => seq![spec_walk_expr(cond, 0, d1)],
            InstrDescription::Match { val, .. } => seq![spec_walk_expr(val, 0, d1)],
            InstrDescription::Not { op } => seq![spec_walk_expr(op, 0, d1)],
            InstrDescription::BitNot { op } => seq![spec_walk_expr(op, 0, d1)],
            InstrDescription::Binary { op_code, op1, op2 } => seq![
                leaf(0, "BinaryOp"@, binary_op_name(op_code), d1),
                spec_walk_expr(op1, 1, d1),
                spec_walk_expr(op2, 2, d1),
            ],
            InstrDescription::Cmp { op_code, op1, op2 } => seq![
                leaf(0, "CmpOp"@, comparison_op_name(op_code), d1),
                spec_walk_expr(op1, 1, d1),
                spec_walk_expr(op2, 2, d1),
            ],
            InstrDescription::Alloca { .. } => Seq::empty(),
            InstrDescription::Malloc { .. } => Seq::empty(),
            InstrDescription::Free { ptr } => seq![spec_walk_expr(ptr, 0, d1)],
            InstrDescription::GetField { ptr, .. } => seq![spec_walk_expr(ptr, 0, d1)],
            InstrDescription::SetField { ptr, val, .. } => seq![
                spec_walk_expr(ptr, 0, d1),
                spec_walk_expr(val, 1, d1),
            ],
            InstrDescription::GetStoragePath { storage_path } => spec_path_feats(storage_path@, d1),
            InstrDescription::StorageLoad { storage_path, .. } => seq![
                spec_walk_expr(storage_path, 0, d1),
            ],
            InstrDescription::StorageStore { storage_path, store_val } => seq![
                spec_walk_expr(storage_path, 0, d1),
                spec_walk_expr(store_val, 1, d1),
            ],
            InstrDescription::Call { func_name, args, .. } => seq![
                leaf(0, "PartialFuncName"@, func_name.name@, d1),
                FeatView {
                    idx: 1,
                    kind: "Vector"@,
                    inner_kind: "Args"@,
                    depth: d1,
                    children: spec_arg_feats(args@, d2),
                },
            ],
            InstrDescription::IntCast { val, .. } => seq![spec_walk_expr(val, 0, d1)],
        },
    }
}

proof fn lemma_exprs_height(s: Seq<Expr>, k: int)
    requires
        0 <= k < s.len(),
    ensures
        expr_height(s[k]) <= exprs_height(s),
    decreases s.len(),
{
    if k < s.len() - 1 {
        lemma_exprs_height(s.drop_last(), k);
        assert(s.drop_last()[k] == s[k]);
    }
}

fn leaf_exec(idx: u32, kind: &str, inner_kind: String, depth: u32) -> (n: NodeFeat)
    ensures
        feat_view(n) == leaf(idx, kind@, inner_kind@, depth),
{
    let n = NodeFeat {
        idx_in_parent: idx,
        kind: String::from_str(kind),
        inner_kind,
        depth,
        children: Vec::new(),
    };
    assert(feats_view(n.children@) =~= Seq::<FeatView>::empty());
    n
}

proof fn lemma_feats_push(s: Seq<NodeFeat>, n: NodeFeat)
    ensures
        feats_view(s.push(n)) == feats_view(s).push(feat_view(n)),
{
    assert(s.push(n).drop_last() =~= s);
}

/// The features of an expression.
pub fn walk_expr(expr: &Expr, idx: u32, depth: u32) -> (n: NodeFeat)
    requires
        depth + expr_height(*expr) <= u32::MAX,
    ensures
        feat_view(n) == spec_walk_expr(*expr, idx, depth),
    decreases expr,
{
    let mut children: Vec<NodeFeat> = Vec::new();
    let inner_kind = Expr2Idx(expr);
    match expr {
        Expr::Instr(instr) => {
            let c = walk_instr(instr, 0, depth + 1);
            proof {
                lemma_feats_push(children@, c);
            }
            children.push(c);
            assert(feats_view(children@) =~= seq![spec_walk_instr(**instr, 0, (depth + 1) as u32)]);
        },
        _ => {
            assert(feats_view(children@) =~= Seq::<FeatView>::empty());
        },
    }
    NodeFeat { idx_in_parent: idx, inner_kind, depth, children, kind: String::from_str("Expr") }
}

fn push_feat(children: &mut Vec<NodeFeat>, n: NodeFeat)
    ensures
        final(children)@ == old(children)@.push(n),
        feats_view(final(children)@) == feats_view(old(children)@).push(feat_view(n)),
{
    proof {
        lemma_feats_push(old(children)@, n);
    }
    children.push(n);
}

proof fn lemma_path_feats_take(s: Seq<Expr>, i: int, d: u32)
    requires
        0 <= i < s.len(),
    ensures
        spec_path_feats(s.take(i + 1), d) == spec_path_feats(s.take(i), d).push(
            spec_walk_expr(s[i], i as u32, d),
        ),
{
    assert(s.take(i + 1).drop_last() =~= s.take(i));
}

proof fn lemma_arg_feats_take(s: Seq<Expr>, i: int, d: u32)
    requires
        0 <= i < s.len(),
    ensures
        spec_arg_feats(s.take(i + 1), d) == spec_arg_feats(s.take(i), d).push(spec_walk_expr(s[i], 1, d)),
{
    assert(s.take(i + 1).drop_last() =~= s.take(i));
}

/// The features of an instruction.
pub fn walk_instr(instr: &Instr, idx: u32, depth: u32) -> (n: NodeFeat)
    requires
        depth + instr_height(*instr) <= u32::MAX,
    ensures
        feat_view(n) == spec_walk_instr(*instr, idx, depth),
    decreases instr,
{
    let kind = InstrDescription2Idx(instr);
    let mut children: Vec<NodeFeat> = Vec::new();
    let ghost expected = spec_walk_instr(*instr, idx, depth).children;
    assert(feats_view(children@) =~= Seq::<FeatView>::empty());
    match &instr.inner {
        InstrDescription::Declaration { init_val, .. } => {
            if let Some(val) = init_val {
                let d1 = depth + 1;
                push_feat(&mut children, walk_expr(val, 0, d1));
            }
        },
        InstrDescription::Assignment { val, .. } => {
            let d1 = depth + 1;
            push_feat(&mut children, walk_expr(val, 0, d1));
        },
        InstrDescription::Ret { val } => {
            if let Some(val) = val {
                let d1 = depth + 1;
                push_feat(&mut children, walk_expr(val, 0, d1));
            }
        },
        InstrDescription::Br { .. } => {},
        InstrDescription::BrIf { cond, .. } => {
            let d1 = depth + 1;
            push_feat(&mut children, walk_expr(cond, 0, d1));
        },
        InstrDescription::Match { val, .. } => {
            let d1 = depth + 1;
            push_feat(&mut children, walk_expr(val, 0, d1));
        },
        InstrDescription::Not { op } => {
            let d1 = depth + 1;
            push_feat(&mut children, walk_expr(op, 0, d1));
        },
        InstrDescription::BitNot { op } => {
            let d1 = depth + 1;
            push_feat(&mut children, walk_expr(op, 0, d1));
        },
        InstrDescription::Binary { op_code, op1, op2 } => {
            let d1 = depth + 1;
            push_feat(&mut children, leaf_exec(0, "BinaryOp", BinaryOp2Idx(op_code), d1));
            push_feat(&mut children, walk_expr(op1, 1, d1));
            push_feat(&mut children, walk_expr(op2, 2, d1));
        },
        InstrDescription::Cmp { op_code, op1, op2 } => {
            let d1 = depth + 1;
            push_feat(&mut children, leaf_exec(0, "CmpOp", CmpOp2Idx(op_code), d1));
            push_feat(&mut children, walk_expr(op1, 1, d1));
            push_feat(&mut children, walk_expr(op2, 2, d1));
        },
        InstrDescription::Alloca { .. } => {},
        InstrDescription::Malloc { .. } => {},
        InstrDescription::Free { ptr } => {
            let d1 = depth + 1;
            push_feat(&mut children, walk_expr(ptr, 0, d1));
        },
        InstrDescription::GetField { ptr, .. } => {
            let d1 = depth + 1;
            push_feat(&mut children, walk_expr(ptr, 0, d1));
        },
        InstrDescription::SetField { ptr, val, .. } => {
            let d1 = depth + 1;
            push_feat(&mut children, walk_expr(ptr, 0, d1));
            push_feat(&mut children, walk_expr(val, 1, d1));
        },
        InstrDescription::GetStoragePath { storage_path } => {
            let len = storage_path.len();
            let mut i: usize = 0;
            let ghost gd1 = (depth + 1) as u32;
            #[verifier::loop_isolation(false)]
            while i < len
                invariant
                    len == storage_path@.len(),
                    i <= len,
                    len > 0 ==> depth + 1 + exprs_height(storage_path@) <= u32::MAX,
                    feats_view(children@) == spec_path_feats(storage_path@.take(i as int), gd1),
                decreases len - i,
            {
                proof {
                    lemma_exprs_height(storage_path@, i as int);
                    lemma_path_feats_take(storage_path@, i as int, gd1);
                }
                let d1 = depth + 1;
                push_feat(&mut children, walk_expr(&storage_path[i], #[verifier::truncate] (i as u32), d1));
                i = i + 1;
            }
            assert(storage_path@.take(len as int) =~= storage_path@);
        },
        InstrDescription::StorageLoad { storage_path, .. } => {
            let d1 = depth + 1;
            push_feat(&mut children, walk_expr(storage_path, 0, d1));
        },
        InstrDescription::StorageStore { storage_path, store_val } => {
            let d1 = depth + 1;
            push_feat(&mut children, walk_expr(storage_path, 0, d1));
            push_feat(&mut children, walk_expr(store_val, 1, d1));
        },
        InstrDescription::Call { func_name, args, .. } => {
            let d1 = depth + 1;
            push_feat(&mut children, leaf_exec(0, "PartialFuncName", func_name.get_name(), d1));
            let ghost gd2 = (depth + 2) as u32;
            let mut arg_feats: Vec<NodeFeat> = Vec::new();
            let len = args.len();
            let mut i: usize = 0;
            assert(feats_view(arg_feats@) =~= spec_arg_feats(args@.take(0), gd2));
            #[verifier::loop_isolation(false)]
            while i < len
                invariant
                    len == args@.len(),
                    i <= len,
                    len > 0 ==> depth + 2 + exprs_height(args@) <= u32::MAX,
                    feats_view(arg_feats@) == spec_arg_feats(args@.take(i as int), gd2),
                decreases len - i,
            {
                proof {
                    lemma_exprs_height(args@, i as int);
                    lemma_arg_feats_take(args@, i as int, gd2);
                }
                let d2 = depth + 2;
                push_feat(&mut arg_feats, walk_expr(&args[i], 1, d2));
                i = i + 1;
            }
            assert(args@.take(len as int) =~= args@);
            let args_node = NodeFeat {
                idx_in_parent: 1,
                kind: String::from_str("Vector"),
                inner_kind: String::from_str("Args"),
                depth: d1,
                children: arg_feats,
            };
            push_feat(&mut children, args_node);
        },
        InstrDescription::IntCast { val, .. } => {
            let d1 = depth + 1;
            push_feat(&mut children, walk_expr(val, 0, d1));
        },
    }
    assert(feats_view(children@) =~= expected);
    NodeFeat { idx_in_parent: idx, inner_kind: kind, depth, children, kind: String::from_str("Instr") }
}

/// The features of the instructions of a block, each at its own position.
pub open spec fn spec_bb_feats(instrs: Seq<Instr>, depth: u32) -> Seq<FeatView>
    decreases instrs.len(),
{
    if instrs.len() == 0 {
        Seq::empty()
    } else {
        spec_bb_feats(instrs.drop_last(), depth).push(
            spec_walk_instr(instrs.last(), (instrs.len() - 1) as u32, depth),
        )
    }
}

/// The instructions of a block leave room for their feature trees below
/// depth `depth`.
pub open spec fn instrs_fit(instrs: Seq<Instr>, depth: u32) -> bool {
    forall|i: int| 0 <= i < instrs.len() ==> depth + instr_height(#[trigger] instrs[i]) <= u32::MAX
}

/// What each node of a sequence says, node by node.
proof fn lemma_feats_view_index(s: Seq<NodeFeat>)
    ensures
        feats_view(s).len() == s.len(),
        forall|i: int| 0 <= i < s.len() ==> #[trigger] feats_view(s)[i] == feat_view(s[i]),
    decreases s.len(),
{
    if s.len() > 0 {
        lemma_feats_view_index(s.drop_last());
        assert forall|i: int| 0 <= i < s.len() implies #[trigger] feats_view(s)[i] == feat_view(s[i]) by {
            if i < s.len() - 1 {
                assert(s.drop_last()[i] == s[i]);
            }
        }
    }
}

/// The features of a block's instructions, instruction by instruction.
proof fn lemma_bb_feats_index(instrs: Seq<Instr>, depth: u32)
    ensures
        spec_bb_feats(instrs, depth).len() == instrs.len(),
        forall|i: int|
            0 <= i < instrs.len() ==> #[trigger] spec_bb_feats(instrs, depth)[i] == spec_walk_instr(
                instrs[i],
                i as u32,
                depth,
            ),
    decreases instrs.len(),
{
    if instrs.len() > 0 {
        lemma_bb_feats_index(instrs.drop_last(), depth);
        assert forall|i: int| 0 <= i < instrs.len() implies #[trigger] spec_bb_feats(instrs, depth)[i]
            == spec_walk_instr(instrs[i], i as u32, depth) by {
            if i < instrs.len() - 1 {
                assert(instrs.drop_last()[i] == instrs[i]);
            }
        }
    }
}

/// The feature nodes of the blocks, block by block.
proof fn lemma_cfg_feats_index(blocks: Seq<(BasicBlockId, BasicBlock)>)
    ensures
        spec_cfg_feats(blocks).len() == blocks.len(),
        forall|k: int|
            0 <= k < blocks.len() ==> #[trigger] spec_cfg_feats(blocks)[k] == spec_block_feat(blocks[k].0, blocks[k].1),
    decreases blocks.len(),
{
    if blocks.len() > 0 {
        lemma_cfg_feats_index(blocks.drop_last());
        assert forall|k: int| 0 <= k < blocks.len() implies #[trigger] spec_cfg_feats(blocks)[k] == spec_block_feat(
            blocks[k].0,
            blocks[k].1,
        ) by {
            if k < blocks.len() - 1 {
                assert(blocks.drop_last()[k] == blocks[k]);
            }
        }
    }
}

/// The features of storage path keys, key by key.
proof fn lemma_path_feats_index(s: Seq<Expr>, depth: u32)
    ensures
        spec_path_feats(s, depth).len() == s.len(),
        forall|i: int| 0 <= i < s.len() ==> #[trigger] spec_path_feats(s, depth)[i] == spec_walk_expr(s[i], i as u32, depth),
    decreases s.len(),
{
    if s.len() > 0 {
        lemma_path_feats_index(s.drop_last(), depth);
        assert forall|i: int| 0 <= i < s.len() implies #[trigger] spec_path_feats(s, depth)[i] == spec_walk_expr(
            s[i],
            i as u32,
            depth,
        ) by {
            if i < s.len() - 1 {
                assert(s.drop_last()[i] == s[i]);
            }
        }
    }
}

/// The features of call arguments, argument by argument.
proof fn lemma_arg_feats_index(s: Seq<Expr>, depth: u32)
    ensures
        spec_arg_feats(s, depth).len() == s.len(),
        forall|i: int| 0 <= i < s.len() ==> #[trigger] spec_arg_feats(s, depth)[i] == spec_walk_expr(s[i], 1, depth),
    decreases s.len(),
{
    if s.len() > 0 {
        lemma_arg_feats_index(s.drop_last(), depth);
        assert forall|i: int| 0 <= i < s.len() implies #[trigger] spec_arg_feats(s, depth)[i] == spec_walk_expr(
            s[i],
            1,
            depth,
        ) by {
            if i < s.len() - 1 {
                assert(s.drop_last()[i] == s[i]);
            }
        }
    }
}

/// The number of children of an instruction's feature node.
pub open spec fn instr_child_count(i: Instr) -> nat {
    match i.inner {
        InstrDescription::Br { .. } => 0,
        InstrDescription::Alloca { .. } => 0,
        InstrDescription::Malloc { .. } => 0,
        InstrDescription::Declaration { init_val, .. } => if init_val is Some {
            1
        } else {
            0
        },
        InstrDescription::Ret { val } => if val is Some {
            1
        } else {
            0
        },
        InstrDescription::SetField { .. } => 2,
        InstrDescription::StorageStore { .. } => 2,
        InstrDescription::Call { .. } => 2,
        InstrDescription::Binary { .. } => 3,
        InstrDescription::Cmp { .. } => 3,
        InstrDescription::GetStoragePath { storage_path } => storage_path@.len(),
        _ => 1,
    }
}

/// Each node of an instruction's feature tree lies one level below its
/// parent. The instruction's node has as many children as its kind builds,
/// each an `Expr`, `BinaryOp`, `CmpOp`, `PartialFuncName` or `Vector`
/// node; the children of a `Vector` node are `Expr` nodes one level further
/// down; the only child of an `Expr` node, where it has one, is an `Instr`
/// node one level down.
pub proof fn law_walk_levels(i: Instr, idx: u32, depth: u32, e: Expr, eidx: u32, edepth: u32)
    requires
        depth + instr_height(i) <= u32::MAX,
        edepth + expr_height(e) <= u32::MAX,
    ensures
        spec_walk_instr(i, idx, depth).children.len() == instr_child_count(i),
        forall|k: int|
            0 <= k < spec_walk_instr(i, idx, depth).children.len() ==> {
                let c = #[trigger] spec_walk_instr(i, idx, depth).children[k];
                &&& c.depth == depth + 1
                &&& (c.kind == "Expr"@ || c.kind == "BinaryOp"@ || c.kind == "CmpOp"@ || c.kind
                    == "PartialFuncName"@ || c.kind == "Vector"@)
                &&& c.kind == "Vector"@ ==> forall|m: int|
                    0 <= m < c.children.len() ==> (#[trigger] c.children[m]).kind == "Expr"@ && c.children[m].depth
                        == depth + 2
            },
        spec_walk_expr(e, eidx, edepth).children.len() == (if e is Instr {
            1int
        } else {
            0int
        }),
        forall|k: int|
            0 <= k < spec_walk_expr(e, eidx, edepth).children.len() ==> (#[trigger] spec_walk_expr(
                e,
                eidx,
                edepth,
            ).children[k]).kind == "Instr"@ && spec_walk_expr(e, eidx, edepth).children[k].depth == edepth + 1,
{
    reveal_strlit("Expr");
    reveal_strlit("Vector");
    reveal_strlit("Instr");
    reveal_strlit("BinaryOp");
    reveal_strlit("CmpOp");
    reveal_strlit("PartialFuncName");
    reveal_with_fuel(spec_walk_instr, 2);
    match i.inner {
        InstrDescription::GetStoragePath { storage_path } => {
            if storage_path@.len() > 0 {
                let d1 = (depth + 1) as u32;
                lemma_path_feats_index(storage_path@, d1);
                assert(d1 == depth + 1);
                assert(spec_walk_instr(i, idx, depth).children == spec_path_feats(storage_path@, d1));
                assert forall|k: int| 0 <= k < storage_path@.len() implies (#[trigger] spec_path_feats(
                    storage_path@,
                    d1,
                )[k]).depth == depth + 1 && spec_path_feats(storage_path@, d1)[k].kind == "Expr"@ by {
                    assert(spec_path_feats(storage_path@, d1)[k] == spec_walk_expr(storage_path@[k], k as u32, d1));
                }
                let ch = spec_walk_instr(i, idx, depth).children;
                assert forall|k: int| 0 <= k < ch.len() implies (#[trigger] ch[k]).depth == depth + 1 && ch[k].kind
                    == "Expr"@ && ch[k].kind != "Vector"@ by {
                    assert(ch[k] == spec_path_feats(storage_path@, d1)[k]);
                }
            } else {
                assert(spec_path_feats(storage_path@, (depth + 1) as u32) =~= Seq::<FeatView>::empty());
                assert(spec_walk_instr(i, idx, depth).children.len() == 0);
            }
        },
        InstrDescription::Call { args, .. } => {
            if args@.len() > 0 {
                let d2 = (depth + 2) as u32;
                lemma_arg_feats_index(args@, d2);
                assert(d2 == depth + 2);
                assert forall|m: int| 0 <= m < args@.len() implies (#[trigger] spec_arg_feats(args@, d2)[m]).kind
                    == "Expr"@ && spec_arg_feats(args@, d2)[m].depth == depth + 2 by {
                    assert(spec_arg_feats(args@, d2)[m] == spec_walk_expr(args@[m], 1, d2));
                }
            } else {
                assert(spec_arg_feats(args@, (depth + 2) as u32) =~= Seq::<FeatView>::empty());
            }
        },
        _ => {},
    }
}

/// The kinds of node that a node of kind `parent` has as children: an
/// instruction has operand expressions, operators, a called function's
/// name or an argument list; an expression has an instruction; an
/// argument list has expressions; other nodes have none.
pub open spec fn child_kind_ok(parent: Seq<char>, child: Seq<char>) -> bool {
    if parent == "Instr"@ {
        child == "Expr"@ || child == "BinaryOp"@ || child == "CmpOp"@ || child == "PartialFuncName"@ || child
            == "Vector"@
    } else if parent == "Expr"@ {
        child == "Instr"@
    } else if parent == "Vector"@ {
        child == "Expr"@
    } else {
        false
    }
}

/// Every node of the tree lies one level below its parent and is of a kind
/// that its parent's kind has as children.
pub open spec fn tree_levels_ok(f: FeatView) -> bool
    decreases f,
{
    forall|k: int|
        0 <= k < f.children.len() ==> {
            let c = #[trigger] f.children[k];
            &&& c.depth == f.depth + 1
            &&& child_kind_ok(f.kind, c.kind)
            &&& tree_levels_ok(c)
        }
}

/// A node without children satisfies the tree law.
proof fn lemma_leaf_tree(f: FeatView)
    requires
        f.children.len() == 0,
    ensures
        tree_levels_ok(f),
{
}

/// An `Expr` node whose children all satisfy the tree law, lie one level
/// down and are instructions satisfies it too; likewise for the other
/// kinds.
proof fn lemma_node_tree(f: FeatView)
    requires
        forall|k: int|
            0 <= k < f.children.len() ==> (#[trigger] f.children[k]).depth == f.depth + 1 && child_kind_ok(
                f.kind,
                f.children[k].kind,
            ) && tree_levels_ok(f.children[k]),
    ensures
        tree_levels_ok(f),
{
}

/// The features of an expression within the depth limit satisfy the tree
/// law.
proof fn lemma_expr_tree(e: Expr, idx: u32, depth: u32)
    requires
        depth + expr_height(e) <= u32::MAX,
    ensures
        tree_levels_ok(spec_walk_expr(e, idx, depth)),
    decreases e,
{
    reveal_strlit("Expr");
    reveal_strlit("Instr");
    let f = spec_walk_expr(e, idx, depth);
    match e {
        Expr::Instr(i) => {
            let d1 = (depth + 1) as u32;
            lemma_instr_tree(*i, 0, d1);
            assert(f.children =~= seq![spec_walk_instr(*i, 0, d1)]);
            assert(f.children[0] == spec_walk_instr(*i, 0, d1));
            lemma_node_tree(f);
        },
        _ => {
            lemma_leaf_tree(f);
        },
    }
}

/// The features of an instruction within the depth limit satisfy the tree
/// law.
proof fn lemma_instr_tree(i: Instr, idx: u32, depth: u32)
    requires
        depth + instr_height(i) <= u32::MAX,
    ensures
        tree_levels_ok(spec_walk_instr(i, idx, depth)),
    decreases i,
{
    reveal_strlit("Expr");
    reveal_strlit("Instr");
    reveal_strlit("Vector");
    reveal_strlit("BinaryOp");
    reveal_strlit("CmpOp");
    reveal_strlit("PartialFuncName");
    let f = spec_walk_instr(i, idx, depth);
    let d1 = (depth + 1) as u32;
    law_walk_levels(i, idx, depth, Expr::NOP, 0, 0);
    match i.inner {
        InstrDescription::Declaration { init_val, .. } => {
            if let Some(v) = init_val {
                lemma_expr_tree(v, 0, d1);
                assert(f.children[0] == spec_walk_expr(v, 0, d1));
            }
        },
        InstrDescription::Assignment { val, .. } => {
            lemma_expr_tree(val, 0, d1);
            assert(f.children[0] == spec_walk_expr(val, 0, d1));
        },
        InstrDescription::Ret { val } => {
            if let Some(v) = val {
                lemma_expr_tree(v, 0, d1);
                assert(f.children[0] == spec_walk_expr(v, 0, d1));
            }
        },
        InstrDescription::BrIf { cond, .. } => {
            lemma_expr_tree(cond, 0, d1);
            assert(f.children[0] == spec_walk_expr(cond, 0, d1));
        },
        InstrDescription::Match { val, .. } => {
            lemma_expr_tree(val, 0, d1);
            assert(f.children[0] == spec_walk_expr(val, 0, d1));
        },
        InstrDescription::Not { op } => {
            lemma_expr_tree(op, 0, d1);
            assert(f.children[0] == spec_walk_expr(op, 0, d1));
        },
        InstrDescription::BitNot { op } => {
            lemma_expr_tree(op, 0, d1);
            assert(f.children[0] == spec_walk_expr(op, 0, d1));
        },
        InstrDescription::Binary { op_code, op1, op2 } => {
            lemma_leaf_tree(f.children[0]);
            lemma_expr_tree(op1, 1, d1);
            lemma_expr_tree(op2, 2, d1);
            assert(f.children[1] == spec_walk_expr(op1, 1, d1));
            assert(f.children[2] == spec_walk_expr(op2, 2, d1));
        },
        InstrDescription::Cmp { op_code, op1, op2 } => {
            lemma_leaf_tree(f.children[0]);
            lemma_expr_tree(op1, 1, d1);
            lemma_expr_tree(op2, 2, d1);
            assert(f.children[1] == spec_walk_expr(op1, 1, d1));
            assert(f.children[2] == spec_walk_expr(op2, 2, d1));
        },
        InstrDescription::Free { ptr } => {
            lemma_expr_tree(ptr, 0, d1);
            assert(f.children[0] == spec_walk_expr(ptr, 0, d1));
        },
        InstrDescription::GetField { ptr, .. } => {
            lemma_expr_tree(ptr, 0, d1);
            assert(f.children[0] == spec_walk_expr(ptr, 0, d1));
        },
        InstrDescription::SetField { ptr, val, .. } => {
            lemma_expr_tree(ptr, 0, d1);
            lemma_expr_tree(val, 1, d1);
            assert(f.children[0] == spec_walk_expr(ptr, 0, d1));
            assert(f.children[1] == spec_walk_expr(val, 1, d1));
        },
        InstrDescription::GetStoragePath { storage_path } => {
            if storage_path@.len() > 0 {
                lemma_path_feats_index(storage_path@, d1);
                assert forall|k: int| 0 <= k < f.children.len() implies tree_levels_ok(#[trigger] f.children[k]) by {
                    lemma_exprs_height(storage_path@, k);
                    lemma_expr_tree(storage_path@[k], k as u32, d1);
                    assert(f.children[k] == spec_walk_expr(storage_path@[k], k as u32, d1));
                }
            }
        },
        InstrDescription::StorageLoad { storage_path, .. } => {
            lemma_expr_tree(storage_path, 0, d1);
            assert(f.children[0] == spec_walk_expr(storage_path, 0, d1));
        },
        InstrDescription::StorageStore { storage_path, store_val } => {
            lemma_expr_tree(storage_path, 0, d1);
            lemma_expr_tree(store_val, 1, d1);
            assert(f.children[0] == spec_walk_expr(storage_path, 0, d1));
            assert(f.children[1] == spec_walk_expr(store_val, 1, d1));
        },
        InstrDescription::Call { func_name, args, .. } => {
            lemma_leaf_tree(f.children[0]);
            let v = f.children[1];
            if args@.len() > 0 {
                let d2 = (depth + 2) as u32;
                lemma_arg_feats_index(args@, d2);
                assert(v.children == spec_arg_feats(args@, d2));
                assert(v.depth == d1 && v.kind == "Vector"@);
                assert(d2 == d1 + 1);
                assert forall|m: int| 0 <= m < v.children.len() implies (#[trigger] v.children[m]).depth == v.depth + 1
                    && child_kind_ok(v.kind, v.children[m].kind) && tree_levels_ok(v.children[m]) by {
                    lemma_exprs_height(args@, m);
                    lemma_expr_tree(args@[m], 1, d2);
                    assert(v.children[m] == spec_walk_expr(args@[m], 1, d2));
                }
                lemma_node_tree(v);
            } else {
                assert(spec_arg_feats(args@, (depth + 2) as u32) =~= Seq::<FeatView>::empty());
                lemma_leaf_tree(v);
            }
        },
        InstrDescription::IntCast { val, .. } => {
            lemma_expr_tree(val, 0, d1);
            assert(f.children[0] == spec_walk_expr(val, 0, d1));
        },
        _ => {},
    }
    lemma_node_tree(f);
}

/// The operands of an instruction, in the order it is written with them:
/// the value of a declaration, assignment, return or cast, the condition of
/// a branch, the operands of a unary or binary operation or comparison,
/// the pointer (and value) of a field access, the keys of a storage path,
/// the path (and value) of a storage access; a call's arguments and
/// instructions without operands give none.
pub open spec fn instr_operands(i: Instr) -> Seq<Expr> {
    match i.inner {
        InstrDescription::Declaration { init_val, .. } => match init_val {
            Some(e) => seq![e],
            None => Seq::empty(),
        },
        InstrDescription::Assignment { val, .. } => seq![val],
        InstrDescription::Ret { val } => match val {
            Some(e) => seq![e],
            None => Seq::empty(),
        },
        InstrDescription::BrIf { cond, .. } => seq![cond],
        InstrDescription::Match { val, .. } => seq![val],
        InstrDescription::Not { op } => seq![op],
        InstrDescription::BitNot { op } => seq![op],
        InstrDescription::Binary { op1, op2, .. } => seq![op1, op2],
        InstrDescription::Cmp { op1, op2, .. } => seq![op1, op2],
        InstrDescription::Free { ptr } => seq![ptr],
        InstrDescription::GetField { ptr, .. } => seq![ptr],
        InstrDescription::SetField { ptr, val, .. } => seq![ptr, val],
        InstrDescription::GetStoragePath { storage_path } => storage_path@,
        InstrDescription::StorageLoad { storage_path, .. } => seq![storage_path],
        InstrDescription::StorageStore { storage_path, store_val } => seq![storage_path, store_val],
        InstrDescription::IntCast { val, .. } => seq![val],
        _ => Seq::empty(),
    }
}

/// The operands of an instruction appear among the children of its
/// feature node in the order they are written, each as the feature tree of
/// that operand one level down, at its own position: after the operator
/// node for a binary operation or a comparison, from the first child on
/// otherwise; each such child names its operand's kind. A call's arguments
/// appear in order under its argument list, two levels down; the operator
/// node names the operator.
pub proof fn law_operands_in_order(i: Instr, idx: u32, depth: u32)
    requires
        depth + instr_height(i) <= u32::MAX,
    ensures
        ({
            let f = spec_walk_instr(i, idx, depth);
            let ops = instr_operands(i);
            let off: int = if i.inner is Binary || i.inner is Cmp {
                1
            } else {
                0
            };
            &&& f.idx == idx
            &&& f.depth == depth
            &&& forall|k: int|
                0 <= k < ops.len() ==> off + k < f.children.len() && #[trigger] f.children[off + k]
                    == spec_walk_expr(ops[k], (off + k) as u32, (depth + 1) as u32) && f.children[off + k].idx == (off
                    + k) as u32 && f.children[off + k].inner_kind == expr_kind_name(ops[k]) && f.children[off + k].depth
                    == depth + 1
            &&& (i.inner matches InstrDescription::Binary { op_code, .. } ==> f.children[0] == leaf(
                0,
                "BinaryOp"@,
                binary_op_name(op_code),
                (depth + 1) as u32,
            ))
            &&& (i.inner matches InstrDescription::Cmp { op_code, .. } ==> f.children[0] == leaf(
                0,
                "CmpOp"@,
                comparison_op_name(op_code),
                (depth + 1) as u32,
            ))
            &&& (i.inner matches InstrDescription::Call { func_name, args, .. } ==> f.children.len() == 2
                && f.children[0] == leaf(0, "PartialFuncName"@, func_name.name@, (depth + 1) as u32)
                && f.children[1].children.len() == args@.len() && forall|k: int|
                0 <= k < args@.len() ==> #[trigger] f.children[1].children[k] == spec_walk_expr(
                    args@[k],
                    1,
                    (depth + 2) as u32,
                ))
        }),
{
    let f = spec_walk_instr(i, idx, depth);
    reveal_with_fuel(spec_walk_instr, 2);
    match i.inner {
        InstrDescription::GetStoragePath { storage_path } => {
            if storage_path@.len() > 0 {
                let d1 = (depth + 1) as u32;
                lemma_path_feats_index(storage_path@, d1);
                assert(f.children == spec_path_feats(storage_path@, d1));
                assert forall|k: int| 0 <= k < storage_path@.len() implies #[trigger] f.children[k] == spec_walk_expr(
                    storage_path@[k],
                    k as u32,
                    d1,
                ) && f.children[k].idx == k as u32 && f.children[k].inner_kind == expr_kind_name(storage_path@[k])
                    && f.children[k].depth == depth + 1 by {
                    assert(spec_path_feats(storage_path@, d1)[k] == spec_walk_expr(storage_path@[k], k as u32, d1));
                }
            }
        },
        InstrDescription::Call { args, .. } => {
            lemma_arg_feats_index(args@, (depth + 2) as u32);
        },
        _ => {},
    }
}

/// Every node of the feature tree that `walk_instr` builds within the
/// depth limit lies one level below its parent: an instruction's children
/// are operand expressions, operators, a called function's name or an
/// argument list; an expression's only child is an instruction; an
/// argument list's children are expressions; no other node has children.
pub proof fn law_walk_tree(i: Instr, idx: u32, depth: u32, e: Expr, eidx: u32, edepth: u32)
    requires
        depth + instr_height(i) <= u32::MAX,
        edepth + expr_height(e) <= u32::MAX,
    ensures
        tree_levels_ok(spec_walk_instr(i, idx, depth)),
        tree_levels_ok(spec_walk_expr(e, eidx, edepth)),
{
    lemma_instr_tree(i, idx, depth);
    lemma_expr_tree(e, eidx, edepth);
}

/// The features of the instructions of a basic block.
pub fn get_bb_feats(bb: &BasicBlock, depth: u32) -> (res: Vec<NodeFeat>)
    requires
        instrs_fit(bb.instrs@, depth),
    ensures
        feats_view(res@) == spec_bb_feats(bb.instrs@, depth),
        res@.len() == bb.instrs@.len(),
        forall|i: int|
            0 <= i < res@.len() ==> feat_view(#[trigger] res@[i]) == spec_walk_instr(bb.instrs@[i], i as u32, depth),
{
    let mut res: Vec<NodeFeat> = Vec::new();
    let len = bb.instrs.len();
    let mut i: usize = 0;
    assert(feats_view(res@) =~= spec_bb_feats(bb.instrs@.take(0), depth));
    while i < len
        invariant
            len == bb.instrs@.len(),
            i <= len,
            instrs_fit(bb.instrs@, depth),
            feats_view(res@) == spec_bb_feats(bb.instrs@.take(i as int), depth),
        decreases len - i,
    {
        proof {
            assert(bb.instrs@.take(i + 1).drop_last() =~= bb.instrs@.take(i as int));
        }
        push_feat(&mut res, walk_instr(&bb.instrs[i], #[verifier::truncate] (i as u32), depth));
        i = i + 1;
    }
    assert(bb.instrs@.take(len as int) =~= bb.instrs@);
    proof {
        lemma_feats_view_index(res@);
        lemma_bb_feats_index(bb.instrs@, depth);
        assert forall|i: int| 0 <= i < res@.len() implies feat_view(#[trigger] res@[i]) == spec_walk_instr(
            bb.instrs@[i],
            i as u32,
            depth,
        ) by {
            assert(feats_view(res@)[i] == feat_view(res@[i]));
        }
    }
    res
}

/// The feature node of a basic block: its id and the features of its
/// instructions one level down.
pub open spec fn spec_block_feat(id: BasicBlockId, bb: BasicBlock) -> FeatView {
    FeatView {
        idx: id,
        kind: "BasicBlock"@,
        inner_kind: "BasicBlock"@,
        depth: 0,
        children: spec_bb_feats(bb.instrs@, 1),
    }
}

/// The feature nodes of the blocks, in the order of the blocks.
pub open spec fn spec_cfg_feats(blocks: Seq<(BasicBlockId, BasicBlock)>) -> Seq<FeatView>
    decreases blocks.len(),
{
    if blocks.len() == 0 {
        Seq::empty()
    } else {
        spec_cfg_feats(blocks.drop_last()).push(spec_block_feat(blocks.last().0, blocks.last().1))
    }
}

/// Every block of the graph leaves room for its feature tree.
pub open spec fn cfg_fits(cfg: ControlFlowGraph) -> bool {
    forall|i: int| 0 <= i < cfg.basic_blocks@.len() ==> instrs_fit(#[trigger] cfg.basic_blocks@[i].1.instrs@, 1)
}

/// The feature nodes of the basic blocks of a control-flow graph.
pub fn get_cfg_feats(cfg: &ControlFlowGraph) -> (res: Vec<NodeFeat>)
    requires
        cfg_fits(*cfg),
    ensures
        feats_view(res@) == spec_cfg_feats(cfg.basic_blocks@),
        res@.len() == cfg.basic_blocks@.len(),
        forall|k: int|
            0 <= k < res@.len() ==> feat_view(#[trigger] res@[k]) == spec_block_feat(
                cfg.basic_blocks@[k].0,
                cfg.basic_blocks@[k].1,
            ),
{
    let mut res: Vec<NodeFeat> = Vec::new();
    let len = cfg.basic_blocks.len();
    let mut i: usize = 0;
    assert(feats_view(res@) =~= spec_cfg_feats(cfg.basic_blocks@.take(0)));
    while i < len
        invariant
            len == cfg.basic_blocks@.len(),
            i <= len,
            cfg_fits(*cfg),
            feats_view(res@) == spec_cfg_feats(cfg.basic_blocks@.take(i as int)),
        decreases len - i,
    {
        let (id, bb) = &cfg.basic_blocks[i];
        proof {
            assert(instrs_fit(cfg.basic_blocks@[i as int].1.instrs@, 1));
            assert(cfg.basic_blocks@.take(i + 1).drop_last() =~= cfg.basic_blocks@.take(i as int));
        }
        let bb_feats = get_bb_feats(bb, 1);
        let node = NodeFeat {
            idx_in_parent: *id,
            kind: String::from_str("BasicBlock"),
            inner_kind: String::from_str("BasicBlock"),
            depth: 0,
            children: bb_feats,
        };
        push_feat(&mut res, node);
        i = i + 1;
    }
    assert(cfg.basic_blocks@.take(len as int) =~= cfg.basic_blocks@);
    proof {
        lemma_feats_view_index(res@);
        lemma_cfg_feats_index(cfg.basic_blocks@);
        assert forall|k: int| 0 <= k < res@.len() implies feat_view(#[trigger] res@[k]) == spec_block_feat(
            cfg.basic_blocks@[k].0,
            cfg.basic_blocks@[k].1,
        ) by {
            assert(feats_view(res@)[k] == feat_view(res@[k]));
        }
    }
    res
}

/// The branch targets of a block's instructions, in order: the target of
/// each `br`, and the two targets of each `br_if`.
pub open spec fn bb_targets(instrs: Seq<Instr>) -> Seq<BasicBlockId>
    decreases instrs.len(),
{
    if instrs.len() == 0 {
        Seq::empty()
    } else {
        bb_targets(instrs.drop_last()) + match instrs.last().inner {
            InstrDescription::Br { target } => seq![target],
            InstrDescription::BrIf { then_bb, else_bb, .. } => seq![then_bb, else_bb],
            _ => Seq::empty(),
        }
    }
}

fn block_targets(bb: &BasicBlock) -> (res: Vec<BasicBlockId>)
    ensures
        res@ == bb_targets(bb.instrs@),
{
    let mut res: Vec<BasicBlockId> = Vec::new();
    let len = bb.instrs.len();
    let mut i: usize = 0;
    while i < len
        invariant
            len == bb.instrs@.len(),
            i <= len,
            res@ == bb_targets(bb.instrs@.take(i as int)),
        decreases len - i,
    {
        proof {
            assert(bb.instrs@.take(i + 1).drop_last() =~= bb.instrs@.take(i as int));
        }
        match &bb.instrs[i].inner {
            InstrDescription::Br { target } => {
                res.push(*target);
            },
            InstrDescription::BrIf { then_bb, else_bb, .. } => {
                res.push(*then_bb);
                res.push(*else_bb);
            },
            _ => {},
        }
        i = i + 1;
        assert(res@ =~= bb_targets(bb.instrs@.take(i as int)));
    }
    assert(bb.instrs@.take(len as int) =~= bb.instrs@);
    res
}

/// `edges` holds, under the id of each block with a branch, the branch
/// targets of that block in order, and nothing else.
pub open spec fn is_bb_graph(edges: Map<BasicBlockId, Vec<BasicBlockId>>, blocks: Seq<(BasicBlockId, BasicBlock)>) -> bool {
    &&& forall|i: int| 0 <= i < blocks.len() ==> (edges.contains_key(#[trigger] blocks[i].0) <==> bb_targets(blocks[i].1.instrs@).len() > 0)
    &&& forall|i: int| 0 <= i < blocks.len() && edges.contains_key(#[trigger] blocks[i].0) ==> edges[blocks[i].0]@ == bb_targets(blocks[i].1.instrs@)
    &&& forall|k: BasicBlockId| edges.contains_key(k) ==> exists|i: int| 0 <= i < blocks.len() && #[trigger] blocks[i].0 == k
}

/// The edges of a control-flow graph: for each block that branches, the
/// blocks it branches to.
pub fn get_bb_graph(cfg: &ControlFlowGraph) -> (res: HashMap<BasicBlockId, Vec<BasicBlockId>>)
    requires
        cfg.wf(),
    ensures
        is_bb_graph(res@, cfg.basic_blocks@),
{
    broadcast use vstd::std_specs::hash::group_hash_axioms;
    let mut res: HashMap<BasicBlockId, Vec<BasicBlockId>> = HashMap::new();
    let len = cfg.basic_blocks.len();
    let mut i: usize = 0;
    while i < len
        invariant
            len == cfg.basic_blocks@.len(),
            i <= len,
            cfg.wf(),
            is_bb_graph(res@, cfg.basic_blocks@.take(i as int)),
        decreases len - i,
    {
        let (id, bb) = &cfg.basic_blocks[i];
        let targets = block_targets(bb);
        let ghost old_res = res@;
        let ghost blocks = cfg.basic_blocks@;
        if targets.len() > 0 {
            res.insert(*id, targets);
        }
        proof {
            let pre = blocks.take(i as int);
            let post = blocks.take(i + 1);
            assert(post =~= pre.push(blocks[i as int]));
            assert(!old_res.contains_key(*id)) by {
                if old_res.contains_key(*id) {
                    let j = choose|j: int| 0 <= j < pre.len() && #[trigger] pre[j].0 == *id;
                    assert(blocks[j].0 == blocks[i as int].0);
                }
            }
            assert forall|j: int| 0 <= j < post.len() implies (res@.contains_key(#[trigger] post[j].0)
                <==> bb_targets(post[j].1.instrs@).len() > 0) && (res@.contains_key(post[j].0)
                ==> res@[post[j].0]@ == bb_targets(post[j].1.instrs@)) by {
                if j < i {
                    assert(post[j] == pre[j]);
                    assert(blocks[j].0 != blocks[i as int].0);
                }
            }
            assert forall|k: BasicBlockId| res@.contains_key(k) implies exists|j: int|
                0 <= j < post.len() && #[trigger] post[j].0 == k by {
                if k == *id {
                    assert(post[i as int].0 == k);
                } else {
                    let j = choose|j: int| 0 <= j < pre.len() && #[trigger] pre[j].0 == k;
                    assert(post[j].0 == k);
                }
            }
        }
        i = i + 1;
    }
    assert(cfg.basic_blocks@.take(len as int) =~= cfg.basic_blocks@);
    res
}

/// The feature nodes are in ascending order of their position.
pub open spec fn sorted_by_idx(s: Seq<NodeFeat>) -> bool {
    forall|a: int, b: int| 0 <= a < b < s.len() ==> #[trigger] s[a].idx_in_parent <= #[trigger] s[b].idx_in_parent
}

/// `pos` places each node of `res` in `v`: node `i` of `res` is node
/// `pos[i]` of `v`, no node of `v` is placed twice, and nodes of equal
/// position keep the order they have in `v`.
pub open spec fn stable_places(res: Seq<NodeFeat>, v: Seq<NodeFeat>, pos: Seq<int>) -> bool {
    &&& pos.len() == res.len()
    &&& forall|i: int| 0 <= i < res.len() ==> 0 <= #[trigger] pos[i] < v.len() && res[i] == v[pos[i]]
    &&& forall|i: int, j: int| 0 <= i < j < res.len() ==> #[trigger] pos[i] != #[trigger] pos[j]
    &&& forall|i: int, j: int|
        0 <= i < j < res.len() && (#[trigger] res[i]).idx_in_parent == (#[trigger] res[j]).idx_in_parent ==> pos[i]
            < pos[j]
}

/// Sorts feature nodes by their position, keeping nodes of equal position
/// in their order.
pub fn sort_by_idx(v: Vec<NodeFeat>) -> (res: Vec<NodeFeat>)
    ensures
        sorted_by_idx(res@),
        res@.to_multiset() == v@.to_multiset(),
        res@.len() == v@.len(),
        exists|pos: Seq<int>| #[trigger] stable_places(res@, v@, pos),
{
    broadcast use vstd::seq_lib::group_to_multiset_ensures;
    let ghost orig = v@;
    let mut v = v;
    let mut out: Vec<NodeFeat> = Vec::new();
    let ghost mut pos: Seq<int> = Seq::empty();
    while v.len() > 0
        invariant
            sorted_by_idx(out@),
            out@.to_multiset().add(v@.to_multiset()) == orig.to_multiset(),
            v@.len() <= orig.len(),
            v@ == orig.take(v@.len() as int),
            out@.len() + v@.len() == orig.len(),
            pos.len() == out@.len(),
            forall|i: int| 0 <= i < out@.len() ==> v@.len() <= #[trigger] pos[i] < orig.len() && out@[i] == orig[pos[i]],
            forall|i: int, j: int| 0 <= i < j < out@.len() ==> #[trigger] pos[i] != #[trigger] pos[j],
            forall|i: int, j: int|
                0 <= i < j < out@.len() && (#[trigger] out@[i]).idx_in_parent == (#[trigger] out@[j]).idx_in_parent
                    ==> pos[i] < pos[j],
        decreases v@.len(),
    {
        let ghost before_v = v@;
        let ghost before_out = out@;
        let ghost before_pos = pos;
        let x = v.pop().unwrap();
        assert(before_v =~= v@.push(x));
        let ghost m = v@.len() as int;
        assert(x == orig[m]);
        assert(v@ =~= orig.take(m));
        let key = x.idx_in_parent;
        let mut j: usize = 0;
        while j < out.len() && out[j].idx_in_parent < key
            invariant
                j <= out@.len(),
                forall|k: int| 0 <= k < j ==> #[trigger] out@[k].idx_in_parent < key,
            decreases out@.len() - j,
        {
            j = j + 1;
        }
        out.insert(j, x);
        proof {
            pos = before_pos.insert(j as int, m);
            assert forall|i: int| 0 <= i < out@.len() implies v@.len() <= #[trigger] pos[i] < orig.len() && out@[i]
                == orig[pos[i]] by {
                if i < j {
                    assert(out@[i] == before_out[i] && pos[i] == before_pos[i]);
                } else if i > j {
                    assert(out@[i] == before_out[i - 1] && pos[i] == before_pos[i - 1]);
                }
            }
            assert forall|a: int, b: int| 0 <= a < b < out@.len() implies #[trigger] pos[a] != #[trigger] pos[b] by {
                if a != j && b != j {
                    let a0 = if a < j { a } else { a - 1 };
                    let b0 = if b < j { b } else { b - 1 };
                    assert(pos[a] == before_pos[a0] && pos[b] == before_pos[b0]);
                } else if a == j {
                    assert(pos[b] == before_pos[b - 1]);
                } else {
                    assert(pos[a] == before_pos[a]);
                }
            }
            assert forall|a: int, b: int|
                0 <= a < b < out@.len() && (#[trigger] out@[a]).idx_in_parent == (#[trigger] out@[b]).idx_in_parent
                    implies pos[a] < pos[b] by {
                if a != j && b != j {
                    let a0 = if a < j { a } else { a - 1 };
                    let b0 = if b < j { b } else { b - 1 };
                    assert(pos[a] == before_pos[a0] && pos[b] == before_pos[b0]);
                    assert(out@[a] == before_out[a0] && out@[b] == before_out[b0]);
                } else if a == j {
                    assert(pos[b] == before_pos[b - 1]);
                } else {
                    assert(out@[a] == before_out[a]);
                }
            }
            assert(out@ == before_out.insert(j as int, x));
            vstd::seq_lib::to_multiset_insert(before_out, j as int, x);
            assert forall|a: int, b: int| 0 <= a < b < out@.len() implies #[trigger] out@[a].idx_in_parent
                <= #[trigger] out@[b].idx_in_parent by {
                if a < j && b == j {
                    assert(out@[a] == before_out[a]);
                } else if a < j && b > j {
                    assert(out@[a] == before_out[a] && out@[b] == before_out[b - 1]);
                } else if a == j {
                    assert(out@[b] == before_out[b - 1]);
                    if j < before_out.len() {
                        assert(before_out[j as int].idx_in_parent >= key);
                        assert(before_out[j as int].idx_in_parent <= before_out[b - 1].idx_in_parent);
                    }
                } else if a > j {
                    assert(out@[a] == before_out[a - 1] && out@[b] == before_out[b - 1]);
                } else {
                    assert(out@[a] == before_out[a] && out@[b] == before_out[b]);
                }
            }
            vstd::seq_lib::to_multiset_build(v@, x);
            assert(before_v.to_multiset() == v@.to_multiset().insert(x));
            assert(out@.to_multiset() == before_out.to_multiset().insert(x));
            assert(out@.to_multiset().add(v@.to_multiset()) =~= before_out.to_multiset().add(
                before_v.to_multiset(),
            ));
        }
    }
    assert(v@.to_multiset() =~= Multiset::empty());
    assert(out@.to_multiset().add(v@.to_multiset()) =~= out@.to_multiset());
    assert(stable_places(out@, orig, pos));
    out
}

/// The tensor data of one function: its name, its documentation, the
/// feature nodes of its basic blocks and the edges of its control-flow
/// graph.
#[derive(Debug)]
pub struct TensorData {
    pub func_name: String,
    pub doc: String,
    pub cfg_feats: Vec<NodeFeat>,
    pub cfg_edges: HashMap<BasicBlockId, Vec<BasicBlockId>>,
}

/// The functions of the contracts of the modules, in order.
pub open spec fn ctx_functions(mods: Seq<(String, IRModule)>) -> Seq<(String, FunctionDefinition)>
    decreases mods.len(),
{
    if mods.len() == 0 {
        Seq::empty()
    } else {
        ctx_functions(mods.drop_last()) + match mods.last().1.contract {
            Some(c) => c.functions@,
            None => Seq::empty(),
        }
    }
}

/// `d` is the tensor data of the function `name` with control-flow graph
/// `cfg`: the feature nodes of the blocks ordered by block id, nodes of
/// equal id in block order, and the edges.
pub open spec fn is_tensor_of(d: TensorData, name: String, cfg: ControlFlowGraph) -> bool {
    &&& d.func_name@ == name@
    &&& d.doc@ == Seq::<char>::empty()
    &&& is_bb_graph(d.cfg_edges@, cfg.basic_blocks@)
    &&& sorted_by_idx(d.cfg_feats@)
    &&& exists|u: Seq<NodeFeat>| #[trigger] feats_view(u) == spec_cfg_feats(cfg.basic_blocks@)
        && u.to_multiset() == d.cfg_feats@.to_multiset() && d.cfg_feats@.len() == u.len() && exists|pos: Seq<int>|
        #[trigger] stable_places(d.cfg_feats@, u, pos)
}

/// Every module defines a contract, and every function's graph has
/// distinct block ids and room for its feature trees.
pub open spec fn ctx_ok(ctx: IRContext) -> bool {
    &&& forall|i: int| 0 <= i < ctx.modules@.len() ==> (#[trigger] ctx.modules@[i]).1.contract is Some
    &&& forall|k: int| 0 <= k < ctx_functions(ctx.modules@).len() ==> (#[trigger] ctx_functions(
        ctx.modules@,
    )[k]).1.cfg.wf() && cfg_fits(ctx_functions(ctx.modules@)[k].1.cfg)
}

/// The tensor data of every function of every contract, in order.
pub fn ir2tensor(ctx: &IRContext) -> (datas: Vec<TensorData>)
    requires
        ctx_ok(*ctx),
    ensures
        datas@.len() == ctx_functions(ctx.modules@).len(),
        forall|k: int| 0 <= k < datas@.len() ==> is_tensor_of(
            #[trigger] datas@[k],
            ctx_functions(ctx.modules@)[k].0,
            ctx_functions(ctx.modules@)[k].1.cfg,
        ),
{
    let mut datas: Vec<TensorData> = Vec::new();
    let nm = ctx.modules.len();
    let mut m: usize = 0;
    while m < nm
        invariant
            nm == ctx.modules@.len(),
            m <= nm,
            ctx_ok(*ctx),
            datas@.len() == ctx_functions(ctx.modules@.take(m as int)).len(),
            forall|k: int| 0 <= k < datas@.len() ==> is_tensor_of(
                #[trigger] datas@[k],
                ctx_functions(ctx.modules@.take(m as int))[k].0,
                ctx_functions(ctx.modules@.take(m as int))[k].1.cfg,
            ),
        decreases nm - m,
    {
        let ghost pre = ctx_functions(ctx.modules@.take(m as int));
        proof {
            assert(ctx.modules@.take(m + 1).drop_last() =~= ctx.modules@.take(m as int));
            assert((ctx.modules@[m as int]).1.contract is Some);
            lemma_ctx_functions_prefix(ctx.modules@, m as int + 1);
        }
        let contract = match &ctx.modules[m].1.contract {
            Some(c) => c,
            None => {
                proof {
                    assert(false);
                }
                return datas;
            },
        };
        let ghost post = ctx_functions(ctx.modules@.take(m + 1));
        assert(post == pre + contract.functions@);
        proof {
            let full = ctx_functions(ctx.modules@);
            assert forall|k: int| 0 <= k < post.len() implies #[trigger] post[k].1.cfg.wf() && cfg_fits(
                post[k].1.cfg,
            ) by {
                assert(post[k] == full[k]);
            }
        }
        let nf = contract.functions.len();
        let mut f: usize = 0;
        while f < nf
            invariant
                nf == contract.functions@.len(),
                f <= nf,
                post == pre + contract.functions@,
                forall|k: int| 0 <= k < post.len() ==> #[trigger] post[k].1.cfg.wf() && cfg_fits(post[k].1.cfg),
                datas@.len() == pre.len() + f,
                forall|k: int| 0 <= k < datas@.len() ==> is_tensor_of(#[trigger] datas@[k], post[k].0, post[k].1.cfg),
            decreases nf - f,
        {
            let (name, func) = &contract.functions[f];
            proof {
                let kk = pre.len() + f;
                assert(0 <= kk < post.len());
                assert(post[kk] == contract.functions@[f as int]);
                assert(post[kk].1.cfg.wf());
                assert(cfg_fits(post[kk].1.cfg));
            }
            let cfg = &func.cfg;
            let cfg_edges = get_bb_graph(cfg);
            let unsorted = get_cfg_feats(cfg);
            let ghost u = unsorted@;
            let cfg_feats = sort_by_idx(unsorted);
            let data = TensorData {
                func_name: name.clone(),
                doc: String::new(),
                cfg_edges,
                cfg_feats,
            };
            assert(is_tensor_of(data, *name, *cfg));
            let ghost old_datas = datas@;
            datas.push(data);
            proof {
                assert forall|k: int| 0 <= k < datas@.len() implies is_tensor_of(#[trigger] datas@[k], post[k].0, post[k].1.cfg) by {
                    if k < old_datas.len() {
                        assert(datas@[k] == old_datas[k]);
                    }
                }
            }
            f = f + 1;
        }
        m = m + 1;
    }
    assert(ctx.modules@.take(nm as int) =~= ctx.modules@);
    datas
}

/// The functions of the first `n` modules come first among those of all
/// modules.
proof fn lemma_ctx_functions_prefix(mods: Seq<(String, IRModule)>, n: int)
    requires
        0 <= n <= mods.len(),
    ensures
        ctx_functions(mods).len() >= ctx_functions(mods.take(n)).len(),
        forall|k: int| 0 <= k < ctx_functions(mods.take(n)).len() ==> #[trigger] ctx_functions(mods.take(n))[k]
            == ctx_functions(mods)[k],
    decreases mods.len() - n,
{
    if n < mods.len() {
        lemma_ctx_functions_prefix(mods, n + 1);
        assert(mods.take(n + 1).drop_last() =~= mods.take(n));
        let a = ctx_functions(mods.take(n));
        let b = ctx_functions(mods.take(n + 1));
        assert forall|k: int| 0 <= k < a.len() implies #[trigger] a[k] == ctx_functions(mods)[k] by {
            assert(a[k] == b[k]);
        }
    } else {
        assert(mods.take(n) =~= mods);
    }
}

} // verus!
