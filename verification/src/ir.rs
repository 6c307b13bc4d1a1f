//! The part of the IR that the tensor features and the front ends read:
//! types, literals, expressions, instructions, basic blocks and the
//! control-flow graph of a function.

use vstd::prelude::*;

verus! {

/// The id of a basic block.
pub type BasicBlockId = u32;

/// The id of a local identifier.
pub type IdentifierId = u32;

/// The integer types of the IR.
#[derive(Debug, Clone, Copy, PartialEq, Eq, Structural)]
pub enum IntType {
    I8,
    I16,
    I32,
    I64,
    I128,
    I256,
    U8,
    U16,
    U32,
    U64,
    U128,
    U256,
}

/// An IR type.
#[derive(Debug)]
pub enum Type {
    Void,
    Bool,
    Str,
    Int(IntType),
    /// An array of `elem`, of length `len` when it is fixed.
    Array { elem: Box<Type>, len: Option<u32> },
    Tuple(Vec<Type>),
    Mapping { key: Box<Type>, value: Box<Type> },
    Pointer(Box<Type>),
    /// A named struct type.
    Def(String),
}

impl Type {
    pub fn void() -> (t: Type)
        ensures
            t is Void,
    {
        Type::Void
    }

    pub fn bool() -> (t: Type)
        ensures
            t is Bool,
    {
        Type::Bool
    }

    pub fn str() -> (t: Type)
        ensures
            t is Str,
    {
        Type::Str
    }

    pub fn u8() -> (t: Type)
        ensures
            t == Type::Int(IntType::U8),
    {
        Type::Int(IntType::U8)
    }

    pub fn u32() -> (t: Type)
        ensures
            t == Type::Int(IntType::U32),
    {
        Type::Int(IntType::U32)
    }

    pub fn i32() -> (t: Type)
        ensures
            t == Type::Int(IntType::I32),
    {
        Type::Int(IntType::I32)
    }

    pub fn u256() -> (t: Type)
        ensures
            t == Type::Int(IntType::U256),
    {
        Type::Int(IntType::U256)
    }

    pub fn i256() -> (t: Type)
        ensures
            t == Type::Int(IntType::I256),
    {
        Type::Int(IntType::I256)
    }
}

/// A 256-bit integer literal: its sign and its magnitude as little-endian
/// 64-bit limbs.
#[derive(Debug)]
pub struct WideInt {
    pub negative: bool,
    pub limbs: Vec<u64>,
}

/// An integer literal with its type.
#[derive(Debug)]
pub enum IntLiteral {
    I8(i8),
    I16(i16),
    I32(i32),
    I64(i64),
    I128(i128),
    I256(WideInt),
    U8(u8),
    U16(u16),
    U32(u32),
    U64(u64),
    U128(u128),
    U256(WideInt),
}

/// An IR literal.
#[derive(Debug)]
pub enum Literal {
    Bool(bool),
    Str(String),
    Int(IntLiteral),
}

/// The name of a called function.
#[derive(Debug)]
pub struct FunctionName {
    pub name: String,
}

impl FunctionName {
    /// The name as text.
    pub fn get_name(&self) -> (s: String)
        ensures
            s@ == self.name@,
    {
        self.name.clone()
    }
}

/// Arithmetic and bitwise binary operators.
#[derive(Debug, Clone, Copy, PartialEq, Eq, Structural)]
pub enum BinaryOp {
    Add,
    Sub,
    Mul,
    Div,
    Mod,
    Exp,
    And,
    BitAnd,
    Or,
    BitOr,
    BitXor,
    Shl,
    Shr,
    Sar,
}

/// Comparison operators.
#[derive(Debug, Clone, Copy, PartialEq, Eq, Structural)]
pub enum CmpOp {
    Eq,
    Ne,
    Gt,
    Ge,
    Lt,
    Le,
}

/// An IR expression.
#[derive(Debug)]
pub enum Expr {
    Identifier(IdentifierId),
    Instr(Box<Instr>),
    Literal(Literal),
    NOP,
}

/// An IR instruction.
#[derive(Debug)]
pub struct Instr {
    pub inner: InstrDescription,
}

/// The instructions of the IR with their operands.
#[derive(Debug)]
#[allow(inconsistent_fields)]
pub enum InstrDescription {
    Declaration { id: IdentifierId, init_val: Option<Expr>, ty: Type },
    Assignment { id: IdentifierId, val: Expr },
    Ret { val: Option<Expr> },
    Br { target: BasicBlockId },
    BrIf { cond: Expr, then_bb: BasicBlockId, else_bb: BasicBlockId },
    Match { val: Expr, otherwise: BasicBlockId, jump_table: Vec<(u32, BasicBlockId)> },
    Not { op: Expr },
    BitNot { op: Expr },
    Binary { op_code: BinaryOp, op1: Expr, op2: Expr },
    Cmp { op_code: CmpOp, op1: Expr, op2: Expr },
    Alloca { ty: Type },
    Malloc { ty: Type },
    Free { ptr: Expr },
    GetField { ptr: Expr, field_path: Vec<u32>, field_ty: Type },
    SetField { ptr: Expr, val: Expr, field_path: Vec<u32> },
    GetStoragePath { storage_path: Vec<Expr> },
    StorageLoad { storage_path: Expr, load_ty: Type },
    StorageStore { storage_path: Expr, store_val: Expr },
    Call { func_name: FunctionName, args: Vec<Expr>, ret_ty: Type },
    IntCast { val: Expr, target_ty: Type },
}

/// A basic block: its id and its instructions in order.
#[derive(Debug)]
pub struct BasicBlock {
    pub id: BasicBlockId,
    pub instrs: Vec<Instr>,
}

/// The control-flow graph of a function: its basic blocks in insertion
/// order, each under its id.
#[derive(Debug)]
pub struct ControlFlowGraph {
    pub basic_blocks: Vec<(BasicBlockId, BasicBlock)>,
}

impl ControlFlowGraph {
    /// No id stands twice among the basic blocks, as in the map that the
    /// blocks are kept in.
    pub open spec fn wf(&self) -> bool {
        forall|i: int, j: int|
            0 <= i < j < self.basic_blocks@.len() ==> #[trigger] self.basic_blocks@[i].0
                != #[trigger] self.basic_blocks@[j].0
    }
}

/// A function of a contract.
#[derive(Debug)]
pub struct FunctionDefinition {
    pub name: String,
    pub cfg: ControlFlowGraph,
}

/// A contract: its name and its functions in insertion order, each under
/// its name.
#[derive(Debug)]
pub struct Contract {
    pub name: String,
    pub functions: Vec<(String, FunctionDefinition)>,
}

/// A module and the contract it defines, if any.
#[derive(Debug)]
pub struct IRModule {
    pub name: String,
    pub contract: Option<Contract>,
}

/// The modules of a compilation in insertion order, each under its name.
#[derive(Debug)]
pub struct IRContext {
    pub modules: Vec<(String, IRModule)>,
}

} // verus!
