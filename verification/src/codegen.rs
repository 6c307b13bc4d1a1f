//! The code generator's interface: its error, the source position that it
//! reports at run time, the traits that a backend implements, and the
//! storage paths that it builds from IR expressions.

use vstd::prelude::*;
use crate::ir::{Expr, IntLiteral, Literal, WideInt};
use crate::ir_config::IROptions;
use crate::leb128::{leb128_encode, spec_sleb128_encode};

verus! {

/// An error of the code generator, with its message.
#[derive(Debug, Clone)]
pub struct CodeGenError {
    pub message: String,
}

impl Default for CodeGenError {
    fn default() -> (e: CodeGenError)
        ensures
            e.message@ == Seq::<char>::empty(),
    {
        CodeGenError { message: String::new() }
    }
}

/// Where the code being run came from: a file, a line and a column.
#[derive(Debug)]
pub struct RuntimeContext {
    /// Information about the original source.
    pub file_name: String,
    /// The (1-based) line number.
    pub line: u32,
    /// The (0-based) column offset when displayed.
    pub col: u32,
}

impl Default for RuntimeContext {
    fn default() -> (c: RuntimeContext)
        ensures
            c.file_name@ == Seq::<char>::empty(),
            c.line == 0,
            c.col == 0,
    {
        RuntimeContext { file_name: String::new(), line: 0, col: 0 }
    }
}

/// The address space of a pointer type.
#[derive(Debug, Clone, Copy, PartialEq, Eq, Structural)]
pub struct AddressSpace(pub u32);

impl AddressSpace {
    /// The address space of data.
    pub fn data() -> (a: AddressSpace)
        ensures
            a.0 == 0,
    {
        AddressSpace(0)
    }
}

/// The types of a backend's values, types, blocks and functions.
pub trait BackendTypes {
    type Value;
    type Type;
    type BasicBlock;
    type Function;
    type FunctionLet;
}

/// BuilderMethods defines SSA builder methods including calculation,
/// condition, SSA instructions etc.
pub trait BuilderMethods: BackendTypes {
    /// SSA append a basic block named `name`.
    fn append_block(&self, name: &str) -> Self::BasicBlock;
    /// SSA ret instruction.
    fn ret_void(&self);
    /// SSA ret instruction with returned value.
    fn ret(&self, v: Self::Value);
    /// SSA br instruction.
    fn br(&self, dest: Self::BasicBlock);
    /// SSA cond br instruction.
    fn cond_br(&self, cond: Self::Value, then_bb: Self::BasicBlock, else_bb: Self::BasicBlock);
    /// SSA load instruction.
    fn load(&self, pointee_ty: Self::Type, ptr: Self::Value, name: &str) -> Self::Value;
    /// SSA cast int to pointer.
    fn int_to_ptr(&self, val: Self::Value, dest_ty: Self::Type) -> Self::Value;
    /// SSA bit cast.
    fn bit_cast(&self, val: Self::Value, dest_ty: Self::Type) -> Self::Value;
    /// SSA int cast.
    fn int_cast(&self, val: Self::Value, dest_ty: Self::Type, is_signed: bool) -> Self::Value;
    /// SSA pointer cast.
    fn ptr_cast(&self, val: Self::Value, dest_ty: Self::Type) -> Self::Value;
    /// Lookup a known function named `name`.
    fn lookup_function(&self, name: &str) -> Self::Function;
}

/// Intrinsic runtime methods
pub trait IntrinsicMethods: BackendTypes {
    /// Assert failure with a message at runtime.
    fn assert_failure(&self, msg: &str);
}

/// BaseTypeMethods defines all native base type APIs, e.g. i8/i16 types, etc.
pub trait BaseTypeMethods: BackendTypes {
    /// The native i32 type of the backend.
    spec fn spec_i32_type(&self) -> Self::Type;
    /// The backend's native pointer type to `ty`.
    spec fn spec_ptr_type_to(&self, ty: Self::Type) -> Self::Type;
    /// Native i8 type
    fn i8_type(&self) -> Self::Type;
    /// Native i32 type
    fn i32_type(&self) -> (t: Self::Type)
        ensures
            t == self.spec_i32_type(),
    ;
    /// Native i64 type
    fn i64_type(&self) -> Self::Type;
    /// Native pointer type of `ty`.
    fn ptr_type_to(&self, ty: Self::Type) -> (p: Self::Type)
        ensures
            p == self.spec_ptr_type_to(ty),
    ;
    /// Native pointer type of `ty` with the address space.
    fn ptr_type_to_ext(&self, ty: Self::Type, address_space: AddressSpace) -> Self::Type;
    /// Retrieves the bit width of the integer type `self`.
    fn int_width(&self, ty: Self::Type) -> usize;
    /// Native function type
    fn function_let(&self, args: &[Self::Type], ret: Self::Type) -> Self::FunctionLet;
    /// Native void function type
    fn void_function_let(&self, args: &[Self::Type]) -> Self::FunctionLet;
}

/// DerivedTypeMethods defines all extended type APIs.
pub trait DerivedTypeMethods: BaseTypeMethods {
    /// Get the context pointer type: the pointer type to the native i32
    /// type.
    fn context_ptr_type(&self) -> (p: Self::Type)
        ensures
            p == self.spec_ptr_type_to(self.spec_i32_type()),
    {
        let t = self.i32_type();
        self.ptr_type_to(t)
    }
}

/// TypeCodeGen defines all type APIs.
pub trait TypeCodeGen: DerivedTypeMethods {}

/// ValueCalculationMethods defines all value base calculation APIs.
pub trait ValueCalculationMethods: BackendTypes {
    /// lhs + rhs
    fn add(&self, lhs: Self::Value, rhs: Self::Value) -> Self::Value;
    /// lhs - rhs
    fn sub(&self, lhs: Self::Value, rhs: Self::Value) -> Self::Value;
    /// lhs * rhs
    fn mul(&self, lhs: Self::Value, rhs: Self::Value) -> Self::Value;
    /// lhs / rhs
    fn div(&self, lhs: Self::Value, rhs: Self::Value) -> Self::Value;
    /// lhs % rhs
    fn modulo(&self, lhs: Self::Value, rhs: Self::Value) -> Self::Value;
    /// lhs << rhs
    fn bit_lshift(&self, lhs: Self::Value, rhs: Self::Value) -> Self::Value;
    /// lhs >> rhs
    fn bit_rshift(&self, lhs: Self::Value, rhs: Self::Value) -> Self::Value;
    /// lhs & rhs
    fn bit_and(&self, lhs: Self::Value, rhs: Self::Value) -> Self::Value;
    /// lhs | rhs
    fn bit_or(&self, lhs: Self::Value, rhs: Self::Value) -> Self::Value;
    /// lhs ^ rhs
    fn bit_xor(&self, lhs: Self::Value, rhs: Self::Value) -> Self::Value;
    /// lhs && rhs
    fn logic_and(&self, lhs: Self::Value, rhs: Self::Value) -> Self::Value;
    /// lhs || rhs
    fn logic_or(&self, lhs: Self::Value, rhs: Self::Value) -> Self::Value;
    /// lhs == rhs
    fn cmp_equal_to(&self, lhs: Self::Value, rhs: Self::Value) -> Self::Value;
    /// lhs != rhs
    fn cmp_not_equal_to(&self, lhs: Self::Value, rhs: Self::Value) -> Self::Value;
    /// lhs > rhs
    fn cmp_greater_than(&self, lhs: Self::Value, rhs: Self::Value) -> Self::Value;
    /// lhs >= rhs
    fn cmp_greater_than_or_equal(&self, lhs: Self::Value, rhs: Self::Value) -> Self::Value;
    /// lhs < rhs
    fn cmp_less_than(&self, lhs: Self::Value, rhs: Self::Value) -> Self::Value;
    /// lhs <= rhs
    fn cmp_less_than_or_equal(&self, lhs: Self::Value, rhs: Self::Value) -> Self::Value;
}

/// ValueCodeGen defines all value APIs.
pub trait ValueCodeGen: ValueCalculationMethods {}

/// CodeGenContext is a trait used by the compiler to emit code to different
/// targets.
pub trait CodeGenContext {
    /// The code that `emit` gives with the options, or the message of the
    /// error that it fails with.
    spec fn spec_emit(&self, opts: IROptions) -> Result<Seq<u8>, Seq<char>>;

    fn emit(&self, opts: &IROptions) -> (r: Result<Vec<u8>, CodeGenError>)
        ensures
            match r {
                Ok(code) => self.spec_emit(*opts) == Ok::<Seq<u8>, Seq<char>>(code@),
                Err(e) => self.spec_emit(*opts) == Err::<Seq<u8>, Seq<char>>(e.message@),
            };
}

/// Emit code with the options using CodeGenContext.
pub fn emit_code<C: CodeGenContext>(ctx: C, opts: &IROptions) -> (r: Result<Vec<u8>, CodeGenError>)
    ensures
        match r {
            Ok(code) => ctx.spec_emit(*opts) == Ok::<Seq<u8>, Seq<char>>(code@),
            Err(e) => ctx.spec_emit(*opts) == Err::<Seq<u8>, Seq<char>>(e.message@),
        },
{
    ctx.emit(opts)
}

/// The length that marks absent data.
pub const DATA_EMPTY_LENGTH: i32 = -1;

/// A storage path: its keys and the extra arguments of its last access.
#[derive(Debug)]
pub struct IRStoragePath {
    pub keys: Vec<PathExpr>,
    pub extra_args: Vec<u32>,
}

/// A key of a storage path: bytes known at compile time, or an expression
/// evaluated at run time.
#[derive(Debug)]
pub enum PathExpr {
    Const(Vec<u8>),
    Val(Expr),
}

/// The value of little-endian 64-bit limbs.
pub open spec fn limbs_value(limbs: Seq<u64>) -> int
    decreases limbs.len(),
{
    if limbs.len() == 0 {
        0
    } else {
        limbs[0] + 0x1_0000_0000_0000_0000 * limbs_value(limbs.drop_first())
    }
}

/// The value of a wide integer literal.
pub open spec fn wide_value(w: WideInt) -> int {
    if w.negative {
        -limbs_value(w.limbs@)
    } else {
        limbs_value(w.limbs@)
    }
}

/// The value of an integer literal.
pub open spec fn int_literal_value(l: IntLiteral) -> int {
    match l {
        IntLiteral::I8(v) => v as int,
        IntLiteral::I16(v) => v as int,
        IntLiteral::I32(v) => v as int,
        IntLiteral::I64(v) => v as int,
        IntLiteral::I128(v) => v as int,
        IntLiteral::I256(w) => wide_value(w),
        IntLiteral::U8(v) => v as int,
        IntLiteral::U16(v) => v as int,
        IntLiteral::U32(v) => v as int,
        IntLiteral::U64(v) => v as int,
        IntLiteral::U128(v) => v as int,
        IntLiteral::U256(w) => wide_value(w),
    }
}

/// Whether a literal can be a constant key: an integer literal's signed
/// LEB128 encoding must fit in eight bytes.
pub open spec fn key_fits(l: Literal) -> bool {
    match l {
        Literal::Int(il) => -0x80_0000_0000_0000 <= int_literal_value(il) < 0x80_0000_0000_0000,
        _ => true,
    }
}

/// The bytes of a constant key: the signed LEB128 encoding of an integer
/// literal, else the UTF-8 bytes of the literal's text.
pub open spec fn literal_key(l: Literal) -> Seq<u8> {
    match l {
        Literal::Int(il) => spec_sleb128_encode(int_literal_value(il)),
        Literal::Str(s) => vstd::utf8::encode_utf8(s@),
        Literal::Bool(b) => if b {
            vstd::utf8::encode_utf8("true"@)
        } else {
            vstd::utf8::encode_utf8("false"@)
        },
    }
}

/// The key that an expression becomes in a storage path: a literal becomes
/// constant bytes, anything else stays an expression.
pub open spec fn is_path_key(key: Expr, p: PathExpr) -> bool {
    match key {
        Expr::Literal(l) => p matches PathExpr::Const(b) && b@ == literal_key(l),
        _ => p == PathExpr::Val(key),
    }
}

proof fn lemma_limbs_nonneg(limbs: Seq<u64>)
    ensures
        limbs_value(limbs) >= 0,
    decreases limbs.len(),
{
    if limbs.len() > 0 {
        lemma_limbs_nonneg(limbs.drop_first());
    }
}

/// The value of a wide integer whose magnitude is below `2^55`.
fn small_wide_value(w: &WideInt) -> (v: i64)
    requires
        -0x80_0000_0000_0000 <= wide_value(*w) < 0x80_0000_0000_0000,
    ensures
        v as int == wide_value(*w),
{
    if w.limbs.len() == 0 {
        return 0;
    }
    proof {
        lemma_limbs_nonneg(w.limbs@.drop_first());
        let m = limbs_value(w.limbs@);
        assert(m <= 0x80_0000_0000_0000);
        assert(limbs_value(w.limbs@.drop_first()) == 0) by (nonlinear_arith)
            requires
                m == w.limbs@[0] + 0x1_0000_0000_0000_0000 * limbs_value(w.limbs@.drop_first()),
                w.limbs@[0] >= 0,
                limbs_value(w.limbs@.drop_first()) >= 0,
                m <= 0x80_0000_0000_0000,
        ;
    }
    let low = w.limbs[0];
    let mag: i64 = low as i64;
    if w.negative {
        -mag
    } else {
        mag
    }
}

/// The value of an integer literal whose magnitude is below `2^55`.
fn small_int_value(l: &IntLiteral) -> (v: i64)
    requires
        -0x80_0000_0000_0000 <= int_literal_value(*l) < 0x80_0000_0000_0000,
    ensures
        v as int == int_literal_value(*l),
{
    match l {
        IntLiteral::I8(x) => *x as i64,
        IntLiteral::I16(x) => *x as i64,
        IntLiteral::I32(x) => *x as i64,
        IntLiteral::I64(x) => *x,
        IntLiteral::I128(x) => *x as i64,
        IntLiteral::I256(w) => small_wide_value(w),
        IntLiteral::U8(x) => *x as i64,
        IntLiteral::U16(x) => *x as i64,
        IntLiteral::U32(x) => *x as i64,
        IntLiteral::U64(x) => *x as i64,
        IntLiteral::U128(x) => *x as i64,
        IntLiteral::U256(w) => small_wide_value(w),
    }
}

/// The bytes of a literal as a constant key.
pub fn literal_key_bytes(l: &Literal) -> (b: Vec<u8>)
    requires
        key_fits(*l),
    ensures
        b@ == literal_key(*l),
{
    match l {
        Literal::Int(il) => leb128_encode(small_int_value(il)),
        Literal::Str(s) => vstd::slice::slice_to_vec(s.as_str().as_bytes()),
        Literal::Bool(b) => if *b {
            vstd::slice::slice_to_vec("true".as_bytes())
        } else {
            vstd::slice::slice_to_vec("false".as_bytes())
        },
    }
}

/// Builds the storage path of `keys` with the extra arguments: each
/// literal key becomes its constant bytes, each other key stays an
/// expression.
pub fn build_storage_path(keys: Vec<Expr>, extra_args: &[u32]) -> (p: IRStoragePath)
    requires
        forall|i: int| 0 <= i < keys@.len() ==> (#[trigger] keys@[i] matches Expr::Literal(l) ==> key_fits(l)),
    ensures
        p.extra_args@ == extra_args@,
        p.keys@.len() == keys@.len(),
        forall|i: int| 0 <= i < keys@.len() ==> is_path_key(#[trigger] keys@[i], p.keys@[i]),
{
    let ghost orig = keys@;
    let mut rest = keys;
    let mut out: Vec<PathExpr> = Vec::new();
    while rest.len() > 0
        invariant
            out@.len() + rest@.len() == orig.len(),
            rest@ == orig.skip(out@.len() as int),
            forall|i: int| 0 <= i < orig.len() ==> (#[trigger] orig[i] matches Expr::Literal(l) ==> key_fits(l)),
            forall|i: int| 0 <= i < out@.len() ==> is_path_key(#[trigger] orig[i], out@[i]),
        decreases rest@.len(),
    {
        let ghost k = out@.len() as int;
        assert(rest@[0] == orig[k]);
        let key = rest.remove(0);
        assert(rest@ =~= orig.skip(k + 1));
        let p = match key {
            Expr::Literal(l) => PathExpr::Const(literal_key_bytes(&l)),
            other => PathExpr::Val(other),
        };
        out.push(p);
    }
    IRStoragePath { keys: out, extra_args: vstd::slice::slice_to_vec(extra_args) }
}

} // verus!
