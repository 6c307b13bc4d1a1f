//! The EVM instructions that Yul code calls as builtin functions.

use vstd::prelude::*;

verus! {

/// An EVM instruction that Yul code can call.
#[derive(Debug, Clone, Copy, PartialEq, Eq, Structural)]
pub enum YulInstructionName {
    Stop,
    Add,
    Sub,
    Mul,
    Div,
    SDiv,
    Mod,
    SMod,
    Exp,
    Not,
    Lt,
    Gt,
    SLt,
    SGt,
    Eq,
    IsZero,
    And,
    Or,
    Xor,
    Byte,
    Shl,
    Shr,
    Sar,
    AddMod,
    MulMod,
    SignExtend,
    Keccak256,
    PC,
    Pop,
    MLoad,
    MStore,
    MStore8,
    SLoad,
    SStore,
    MSize,
    Gas,
    Address,
    Balance,
    SelfBalance,
    Caller,
    CallValue,
    CallDataLoad,
    CallDataSize,
    CallDataCopy,
    CodeSize,
    CodeCopy,
    ExtCodeSize,
    ExtCodeCopy,
    DataCopy,
    DataOffset,
    DataSize,
    ReturnDataSize,
    ReturnDataCopy,
    ExtCodeHash,
    Create,
    Create2,
    Call,
    CallCode,
    DelegateCall,
    StaticCall,
    Return,
    Revert,
    SelfDestruct,
    Invalid,
    Log0,
    Log1,
    Log2,
    Log3,
    Log4,
    ChainID,
    BaseFee,
    Origin,
    GasPrice,
    BlockHash,
    CoinBase,
    TimeStamp,
    Number,
    Difficulty,
    Prevrandao,
    GasLimit,
}

/// The name under which Yul code calls an instruction.
pub open spec fn instruction_name(i: YulInstructionName) -> Seq<char> {
    match i {
        YulInstructionName::Stop => "stop"@,
        YulInstructionName::Add => "add"@,
        YulInstructionName::Sub => "sub"@,
        YulInstructionName::Mul => "mul"@,
        YulInstructionName::Div => "div"@,
        YulInstructionName::SDiv => "sdiv"@,
        YulInstructionName::Mod => "mod"@,
        YulInstructionName::SMod => "smod"@,
        YulInstructionName::Exp => "exp"@,
        YulInstructionName::Not => "not"@,
        YulInstructionName::Lt => "lt"@,
        YulInstructionName::Gt => "gt"@,
        YulInstructionName::SLt => "slt"@,
        YulInstructionName::SGt => "sgt"@,
        YulInstructionName::Eq => "eq"@,
        YulInstructionName::IsZero => "iszero"@,
        YulInstructionName::And => "and"@,
        YulInstructionName::Or => "or"@,
        YulInstructionName::Xor => "xor"@,
        YulInstructionName::Byte => "byte"@,
        YulInstructionName::Shl => "shl"@,
        YulInstructionName::Shr => "shr"@,
        YulInstructionName::Sar => "sar"@,
        YulInstructionName::AddMod => "addmod"@,
        YulInstructionName::MulMod => "mulmod"@,
        YulInstructionName::SignExtend => "signextend"@,
        YulInstructionName::Keccak256 => "keccak256"@,
        YulInstructionName::PC => "pc"@,
        YulInstructionName::Pop => "pop"@,
        YulInstructionName::MLoad => "mload"@,
        YulInstructionName::MStore => "mstore"@,
        YulInstructionName::MStore8 => "mstore8"@,
        YulInstructionName::SLoad => "sload"@,
        YulInstructionName::SStore => "sstore"@,
        YulInstructionName::MSize => "msize"@,
        YulInstructionName::Gas => "gas"@,
        YulInstructionName::Address => "address"@,
        YulInstructionName::Balance => "balance"@,
        YulInstructionName::SelfBalance => "selfbalance"@,
        YulInstructionName::Caller => "caller"@,
        YulInstructionName::CallValue => "callvalue"@,
        YulInstructionName::CallDataLoad => "calldataload"@,
        YulInstructionName::CallDataSize => "calldatasize"@,
        YulInstructionName::CallDataCopy => "calldatacopy"@,
        YulInstructionName::CodeSize => "codesize"@,
        YulInstructionName::CodeCopy => "codecopy"@,
        YulInstructionName::ExtCodeSize => "extcodesize"@,
        YulInstructionName::ExtCodeCopy => "extcodecopy"@,
        YulInstructionName::DataCopy => "datacopy"@,
        YulInstructionName::DataOffset => "dataoffset"@,
        YulInstructionName::DataSize => "datasize"@,
        YulInstructionName::ReturnDataSize => "returndatasize"@,
        YulInstructionName::ReturnDataCopy => "returndatacopy"@,
        YulInstructionName::ExtCodeHash => "extcodehash"@,
        YulInstructionName::Create => "create"@,
        YulInstructionName::Create2 => "create2"@,
        YulInstructionName::Call => "call"@,
        YulInstructionName::CallCode => "callcode"@,
        YulInstructionName::DelegateCall => "delegatecall"@,
        YulInstructionName::StaticCall => "staticcall"@,
        YulInstructionName::Return => "return"@,
        YulInstructionName::Revert => "revert"@,
        YulInstructionName::SelfDestruct => "selfdestruct"@,
        YulInstructionName::Invalid => "invalid"@,
        YulInstructionName::Log0 => "log0"@,
        YulInstructionName::Log1 => "log1"@,
        YulInstructionName::Log2 => "log2"@,
        YulInstructionName::Log3 => "log3"@,
        YulInstructionName::Log4 => "log4"@,
        YulInstructionName::ChainID => "chainid"@,
        YulInstructionName::BaseFee => "basefee"@,
        YulInstructionName::Origin => "origin"@,
        YulInstructionName::GasPrice => "gasprice"@,
        YulInstructionName::BlockHash => "blockhash"@,
        YulInstructionName::CoinBase => "coinbase"@,
        YulInstructionName::TimeStamp => "timestamp"@,
        YulInstructionName::Number => "number"@,
        YulInstructionName::Difficulty => "difficulty"@,
        YulInstructionName::Prevrandao => "prevrandao"@,
        YulInstructionName::GasLimit => "gaslimit"@,
    }
}

/// The instruction that a name calls, if any.
pub open spec fn spec_parse_intrinsic_func_name(s: Seq<char>) -> Option<YulInstructionName> {
    if s == "stop"@ {
        Some(YulInstructionName::Stop)
    } else if s == "add"@ {
        Some(YulInstructionName::Add)
    } else if s == "sub"@ {
        Some(YulInstructionName::Sub)
    } else if s == "mul"@ {
        Some(YulInstructionName::Mul)
    } else if s == "div"@ {
        Some(YulInstructionName::Div)
    } else if s == "sdiv"@ {
        Some(YulInstructionName::SDiv)
    } else if s == "mod"@ {
        Some(YulInstructionName::Mod)
    } else if s == "smod"@ {
        Some(YulInstructionName::SMod)
    } else if s == "exp"@ {
        Some(YulInstructionName::Exp)
    } else if s == "not"@ {
        Some(YulInstructionName::Not)
    } else if s == "lt"@ {
        Some(YulInstructionName::Lt)
    } else if s == "gt"@ {
        Some(YulInstructionName::Gt)
    } else if s == "slt"@ {
        Some(YulInstructionName::SLt)
    } else if s == "sgt"@ {
        Some(YulInstructionName::SGt)
    } else if s == "eq"@ {
        Some(YulInstructionName::Eq)
    } else if s == "iszero"@ {
        Some(YulInstructionName::IsZero)
    } else if s == "and"@ {
        Some(YulInstructionName::And)
    } else if s == "or"@ {
        Some(YulInstructionName::Or)
    } else if s == "xor"@ {
        Some(YulInstructionName::Xor)
    } else if s == "byte"@ {
        Some(YulInstructionName::Byte)
    } else if s == "shl"@ {
        Some(YulInstructionName::Shl)
    } else if s == "shr"@ {
        Some(YulInstructionName::Shr)
    } else if s == "sar"@ {
        Some(YulInstructionName::Sar)
    } else if s == "addmod"@ {
        Some(YulInstructionName::AddMod)
    } else if s == "mulmod"@ {
        Some(YulInstructionName::MulMod)
    } else if s == "signextend"@ {
        Some(YulInstructionName::SignExtend)
    } else if s == "keccak256"@ {
        Some(YulInstructionName::Keccak256)
    } else if s == "pc"@ {
        Some(YulInstructionName::PC)
    } else if s == "pop"@ {
        Some(YulInstructionName::Pop)
    } else if s == "mload"@ {
        Some(YulInstructionName::MLoad)
    } else if s == "mstore"@ {
        Some(YulInstructionName::MStore)
    } else if s == "mstore8"@ {
        Some(YulInstructionName::MStore8)
    } else if s == "sload"@ {
        Some(YulInstructionName::SLoad)
    } else if s == "sstore"@ {
        Some(YulInstructionName::SStore)
    } else if s == "msize"@ {
        Some(YulInstructionName::MSize)
    } else if s == "gas"@ {
        Some(YulInstructionName::Gas)
    } else if s == "address"@ {
        Some(YulInstructionName::Address)
    } else if s == "balance"@ {
        Some(YulInstructionName::Balance)
    } else if s == "selfbalance"@ {
        Some(YulInstructionName::SelfBalance)
    } else if s == "caller"@ {
        Some(YulInstructionName::Caller)
    } else if s == "callvalue"@ {
        Some(YulInstructionName::CallValue)
    } else if s == "calldataload"@ {
        Some(YulInstructionName::CallDataLoad)
    } else if s == "calldatasize"@ {
        Some(YulInstructionName::CallDataSize)
    } else if s == "calldatacopy"@ {
        Some(YulInstructionName::CallDataCopy)
    } else if s == "codesize"@ {
        Some(YulInstructionName::CodeSize)
    } else if s == "codecopy"@ {
        Some(YulInstructionName::CodeCopy)
    } else if s == "extcodesize"@ {
        Some(YulInstructionName::ExtCodeSize)
    } else if s == "extcodecopy"@ {
        Some(YulInstructionName::ExtCodeCopy)
    } else if s == "datacopy"@ {
        Some(YulInstructionName::DataCopy)
    } else if s == "dataoffset"@ {
        Some(YulInstructionName::DataOffset)
    } else if s == "datasize"@ {
        Some(YulInstructionName::DataSize)
    } else if s == "returndatasize"@ {
        Some(YulInstructionName::ReturnDataSize)
    } else if s == "returndatacopy"@ {
        Some(YulInstructionName::ReturnDataCopy)
    } else if s == "extcodehash"@ {
        Some(YulInstructionName::ExtCodeHash)
    } else if s == "create"@ {
        Some(YulInstructionName::Create)
    } else if s == "create2"@ {
        Some(YulInstructionName::Create2)
    } else if s == "call"@ {
        Some(YulInstructionName::Call)
    } else if s == "callcode"@ {
        Some(YulInstructionName::CallCode)
    } else if s == "delegatecall"@ {
        Some(YulInstructionName::DelegateCall)
    } else if s == "staticcall"@ {
        Some(YulInstructionName::StaticCall)
    } else if s == "return"@ {
        Some(YulInstructionName::Return)
    } else if s == "revert"@ {
        Some(YulInstructionName::Revert)
    } else if s == "selfdestruct"@ {
        Some(YulInstructionName::SelfDestruct)
    } else if s == "invalid"@ {
        Some(YulInstructionName::Invalid)
    } else if s == "log0"@ {
        Some(YulInstructionName::Log0)
    } else if s == "log1"@ {
        Some(YulInstructionName::Log1)
    } else if s == "log2"@ {
        Some(YulInstructionName::Log2)
    } else if s == "log3"@ {
        Some(YulInstructionName::Log3)
    } else if s == "log4"@ {
        Some(YulInstructionName::Log4)
    } else if s == "chainid"@ {
        Some(YulInstructionName::ChainID)
    } else if s == "basefee"@ {
        Some(YulInstructionName::BaseFee)
    } else if s == "origin"@ {
        Some(YulInstructionName::Origin)
    } else if s == "gasprice"@ {
        Some(YulInstructionName::GasPrice)
    } else if s == "blockhash"@ {
        Some(YulInstructionName::BlockHash)
    } else if s == "coinbase"@ {
        Some(YulInstructionName::CoinBase)
    } else if s == "timestamp"@ {
        Some(YulInstructionName::TimeStamp)
    } else if s == "number"@ {
        Some(YulInstructionName::Number)
    } else if s == "difficulty"@ {
        Some(YulInstructionName::Difficulty)
    } else if s == "prevrandao"@ {
        Some(YulInstructionName::Prevrandao)
    } else if s == "gaslimit"@ {
        Some(YulInstructionName::GasLimit)
    } else {
        None
    }
}

/// Whether two texts are equal.
pub fn str_eq(a: &str, b: &str) -> (r: bool)
    ensures
        r == (a@ == b@),
{
    let len = a.unicode_len();
    if b.unicode_len() != len {
        return false;
    }
    let mut k: usize = 0;
    while k < len
        invariant
            len == a@.len(),
            len == b@.len(),
            k <= len,
            forall|m: int| 0 <= m < k ==> a@[m] == b@[m],
        decreases len - k,
    {
        if a.get_char(k) != b.get_char(k) {
            return false;
        }
        k = k + 1;
    }
    assert(a@ =~= b@);
    true
}

/// The instruction that a builtin function name calls, or `None` for a
/// name that is no instruction.
pub fn parse_intrinsic_func_name(s: &str) -> (r: Option<YulInstructionName>)
    ensures
        r == spec_parse_intrinsic_func_name(s@),
{
    if str_eq(s, "stop") {
        Some(YulInstructionName::Stop)
    } else if str_eq(s, "add") {
        Some(YulInstructionName::Add)
    } else if str_eq(s, "sub") {
        Some(YulInstructionName::Sub)
    } else if str_eq(s, "mul") {
        Some(YulInstructionName::Mul)
    } else if str_eq(s, "div") {
        Some(YulInstructionName::Div)
    } else if str_eq(s, "sdiv") {
        Some(YulInstructionName::SDiv)
    } else if str_eq(s, "mod") {
        Some(YulInstructionName::Mod)
    } else if str_eq(s, "smod") {
        Some(YulInstructionName::SMod)
    } else if str_eq(s, "exp") {
        Some(YulInstructionName::Exp)
    } else if str_eq(s, "not") {
        Some(YulInstructionName::Not)
    } else if str_eq(s, "lt") {
        Some(YulInstructionName::Lt)
    } else if str_eq(s, "gt") {
        Some(YulInstructionName::Gt)
    } else if str_eq(s, "slt") {
        Some(YulInstructionName::SLt)
    } else if str_eq(s, "sgt") {
        Some(YulInstructionName::SGt)
    } else if str_eq(s, "eq") {
        Some(YulInstructionName::Eq)
    } else if str_eq(s, "iszero") {
        Some(YulInstructionName::IsZero)
    } else if str_eq(s, "and") {
        Some(YulInstructionName::And)
    } else if str_eq(s, "or") {
        Some(YulInstructionName::Or)
    } else if str_eq(s, "xor") {
        Some(YulInstructionName::Xor)
    } else if str_eq(s, "byte") {
        Some(YulInstructionName::Byte)
    } else if str_eq(s, "shl") {
        Some(YulInstructionName::Shl)
    } else if str_eq(s, "shr") {
        Some(YulInstructionName::Shr)
    } else if str_eq(s, "sar") {
        Some(YulInstructionName::Sar)
    } else if str_eq(s, "addmod") {
        Some(YulInstructionName::AddMod)
    } else if str_eq(s, "mulmod") {
        Some(YulInstructionName::MulMod)
    } else if str_eq(s, "signextend") {
        Some(YulInstructionName::SignExtend)
    } else if str_eq(s, "keccak256") {
        Some(YulInstructionName::Keccak256)
    } else if str_eq(s, "pc") {
        Some(YulInstructionName::PC)
    } else if str_eq(s, "pop") {
        Some(YulInstructionName::Pop)
    } else if str_eq(s, "mload") {
        Some(YulInstructionName::MLoad)
    } else if str_eq(s, "mstore") {
        Some(YulInstructionName::MStore)
    } else if str_eq(s, "mstore8") {
        Some(YulInstructionName::MStore8)
    } else if str_eq(s, "sload") {
        Some(YulInstructionName::SLoad)
    } else if str_eq(s, "sstore") {
        Some(YulInstructionName::SStore)
    } else if str_eq(s, "msize") {
        Some(YulInstructionName::MSize)
    } else if str_eq(s, "gas") {
        Some(YulInstructionName::Gas)
    } else if str_eq(s, "address") {
        Some(YulInstructionName::Address)
    } else if str_eq(s, "balance") {
        Some(YulInstructionName::Balance)
    } else if str_eq(s, "selfbalance") {
        Some(YulInstructionName::SelfBalance)
    } else if str_eq(s, "caller") {
        Some(YulInstructionName::Caller)
    } else if str_eq(s, "callvalue") {
        Some(YulInstructionName::CallValue)
    } else if str_eq(s, "calldataload") {
        Some(YulInstructionName::CallDataLoad)
    } else if str_eq(s, "calldatasize") {
        Some(YulInstructionName::CallDataSize)
    } else if str_eq(s, "calldatacopy") {
        Some(YulInstructionName::CallDataCopy)
    } else if str_eq(s, "codesize") {
        Some(YulInstructionName::CodeSize)
    } else if str_eq(s, "codecopy") {
        Some(YulInstructionName::CodeCopy)
    } else if str_eq(s, "extcodesize") {
        Some(YulInstructionName::ExtCodeSize)
    } else if str_eq(s, "extcodecopy") {
        Some(YulInstructionName::ExtCodeCopy)
    } else if str_eq(s, "datacopy") {
        Some(YulInstructionName::DataCopy)
    } else if str_eq(s, "dataoffset") {
        Some(YulInstructionName::DataOffset)
    } else if str_eq(s, "datasize") {
        Some(YulInstructionName::DataSize)
    } else if str_eq(s, "returndatasize") {
        Some(YulInstructionName::ReturnDataSize)
    } else if str_eq(s, "returndatacopy") {
        Some(YulInstructionName::ReturnDataCopy)
    } else if str_eq(s, "extcodehash") {
        Some(YulInstructionName::ExtCodeHash)
    } else if str_eq(s, "create") {
        Some(YulInstructionName::Create)
    } else if str_eq(s, "create2") {
        Some(YulInstructionName::Create2)
    } else if str_eq(s, "call") {
        Some(YulInstructionName::Call)
    } else if str_eq(s, "callcode") {
        Some(YulInstructionName::CallCode)
    } else if str_eq(s, "delegatecall") {
        Some(YulInstructionName::DelegateCall)
    } else if str_eq(s, "staticcall") {
        Some(YulInstructionName::StaticCall)
    } else if str_eq(s, "return") {
        Some(YulInstructionName::Return)
    } else if str_eq(s, "revert") {
        Some(YulInstructionName::Revert)
    } else if str_eq(s, "selfdestruct") {
        Some(YulInstructionName::SelfDestruct)
    } else if str_eq(s, "invalid") {
        Some(YulInstructionName::Invalid)
    } else if str_eq(s, "log0") {
        Some(YulInstructionName::Log0)
    } else if str_eq(s, "log1") {
        Some(YulInstructionName::Log1)
    } else if str_eq(s, "log2") {
        Some(YulInstructionName::Log2)
    } else if str_eq(s, "log3") {
        Some(YulInstructionName::Log3)
    } else if str_eq(s, "log4") {
        Some(YulInstructionName::Log4)
    } else if str_eq(s, "chainid") {
        Some(YulInstructionName::ChainID)
    } else if str_eq(s, "basefee") {
        Some(YulInstructionName::BaseFee)
    } else if str_eq(s, "origin") {
        Some(YulInstructionName::Origin)
    } else if str_eq(s, "gasprice") {
        Some(YulInstructionName::GasPrice)
    } else if str_eq(s, "blockhash") {
        Some(YulInstructionName::BlockHash)
    } else if str_eq(s, "coinbase") {
        Some(YulInstructionName::CoinBase)
    } else if str_eq(s, "timestamp") {
        Some(YulInstructionName::TimeStamp)
    } else if str_eq(s, "number") {
        Some(YulInstructionName::Number)
    } else if str_eq(s, "difficulty") {
        Some(YulInstructionName::Difficulty)
    } else if str_eq(s, "prevrandao") {
        Some(YulInstructionName::Prevrandao)
    } else if str_eq(s, "gaslimit") {
        Some(YulInstructionName::GasLimit)
    } else {
        None
    }
}

/// A name is taken for an instruction only where it is that instruction's
/// own name: every other name, however close, is no instruction.
pub proof fn law_only_instruction_names_parse(s: Seq<char>, i: YulInstructionName)
    requires
        spec_parse_intrinsic_func_name(s) == Some(i),
    ensures
        s == instruction_name(i),
{
}

/// Each instruction is found again under its name: no two instructions
/// share a name.
#[verifier::rlimit(100)]
pub proof fn law_instruction_name_parses_back(i: YulInstructionName)
    ensures
        spec_parse_intrinsic_func_name(instruction_name(i)) == Some(i),
{
    reveal_strlit("stop");
    reveal_strlit("add");
    reveal_strlit("sub");
    reveal_strlit("mul");
    reveal_strlit("div");
    reveal_strlit("sdiv");
    reveal_strlit("mod");
    reveal_strlit("smod");
    reveal_strlit("exp");
    reveal_strlit("not");
    reveal_strlit("lt");
    reveal_strlit("gt");
    reveal_strlit("slt");
    reveal_strlit("sgt");
    reveal_strlit("eq");
    reveal_strlit("iszero");
    reveal_strlit("and");
    reveal_strlit("or");
    reveal_strlit("xor");
    reveal_strlit("byte");
    reveal_strlit("shl");
    reveal_strlit("shr");
    reveal_strlit("sar");
    reveal_strlit("addmod");
    reveal_strlit("mulmod");
    reveal_strlit("signextend");
    reveal_strlit("keccak256");
    reveal_strlit("pc");
    reveal_strlit("pop");
    reveal_strlit("mload");
    reveal_strlit("mstore");
    reveal_strlit("mstore8");
    reveal_strlit("sload");
    reveal_strlit("sstore");
    reveal_strlit("msize");
    reveal_strlit("gas");
    reveal_strlit("address");
    reveal_strlit("balance");
    reveal_strlit("selfbalance");
    reveal_strlit("caller");
    reveal_strlit("callvalue");
    reveal_strlit("calldataload");
    reveal_strlit("calldatasize");
    reveal_strlit("calldatacopy");
    reveal_strlit("codesize");
    reveal_strlit("codecopy");
    reveal_strlit("extcodesize");
    reveal_strlit("extcodecopy");
    reveal_strlit("datacopy");
    reveal_strlit("dataoffset");
    reveal_strlit("datasize");
    reveal_strlit("returndatasize");
    reveal_strlit("returndatacopy");
    reveal_strlit("extcodehash");
    reveal_strlit("create");
    reveal_strlit("create2");
    reveal_strlit("call");
    reveal_strlit("callcode");
    reveal_strlit("delegatecall");
    reveal_strlit("staticcall");
    reveal_strlit("return");
    reveal_strlit("revert");
    reveal_strlit("selfdestruct");
    reveal_strlit("invalid");
    reveal_strlit("log0");
    reveal_strlit("log1");
    reveal_strlit("log2");
    reveal_strlit("log3");
    reveal_strlit("log4");
    reveal_strlit("chainid");
    reveal_strlit("basefee");
    reveal_strlit("origin");
    reveal_strlit("gasprice");
    reveal_strlit("blockhash");
    reveal_strlit("coinbase");
    reveal_strlit("timestamp");
    reveal_strlit("number");
    reveal_strlit("difficulty");
    reveal_strlit("prevrandao");
    reveal_strlit("gaslimit");
    assert("stop"@.len() == 4);
    assert("add"@.len() == 3);
    assert("sub"@.len() == 3);
    assert("mul"@.len() == 3);
    assert("div"@.len() == 3);
    assert("sdiv"@.len() == 4);
    assert("mod"@.len() == 3);
    assert("smod"@.len() == 4);
    assert("exp"@.len() == 3);
    assert("not"@.len() == 3);
    assert("lt"@.len() == 2);
    assert("gt"@.len() == 2);
    assert("slt"@.len() == 3);
    assert("sgt"@.len() == 3);
    assert("eq"@.len() == 2);
    assert("iszero"@.len() == 6);
    assert("and"@.len() == 3);
    assert("or"@.len() == 2);
    assert("xor"@.len() == 3);
    assert("byte"@.len() == 4);
    assert("shl"@.len() == 3);
    assert("shr"@.len() == 3);
    assert("sar"@.len() == 3);
    assert("addmod"@.len() == 6);
    assert("mulmod"@.len() == 6);
    assert("signextend"@.len() == 10);
    assert("keccak256"@.len() == 9);
    assert("pc"@.len() == 2);
    assert("pop"@.len() == 3);
    assert("mload"@.len() == 5);
    assert("mstore"@.len() == 6);
    assert("mstore8"@.len() == 7);
    assert("sload"@.len() == 5);
    assert("sstore"@.len() == 6);
    assert("msize"@.len() == 5);
    assert("gas"@.len() == 3);
    assert("address"@.len() == 7);
    assert("balance"@.len() == 7);
    assert("selfbalance"@.len() == 11);
    assert("caller"@.len() == 6);
    assert("callvalue"@.len() == 9);
    assert("calldataload"@.len() == 12);
    assert("calldatasize"@.len() == 12);
    assert("calldatacopy"@.len() == 12);
    assert("codesize"@.len() == 8);
    assert("codecopy"@.len() == 8);
    assert("extcodesize"@.len() == 11);
    assert("extcodecopy"@.len() == 11);
    assert("datacopy"@.len() == 8);
    assert("dataoffset"@.len() == 10);
    assert("datasize"@.len() == 8);
    assert("returndatasize"@.len() == 14);
    assert("returndatacopy"@.len() == 14);
    assert("extcodehash"@.len() == 11);
    assert("create"@.len() == 6);
    assert("create2"@.len() == 7);
    assert("call"@.len() == 4);
    assert("callcode"@.len() == 8);
    assert("delegatecall"@.len() == 12);
    assert("staticcall"@.len() == 10);
    assert("return"@.len() == 6);
    assert("revert"@.len() == 6);
    assert("selfdestruct"@.len() == 12);
    assert("invalid"@.len() == 7);
    assert("log0"@.len() == 4);
    assert("log1"@.len() == 4);
    assert("log2"@.len() == 4);
    assert("log3"@.len() == 4);
    assert("log4"@.len() == 4);
    assert("chainid"@.len() == 7);
    assert("basefee"@.len() == 7);
    assert("origin"@.len() == 6);
    assert("gasprice"@.len() == 8);
    assert("blockhash"@.len() == 9);
    assert("coinbase"@.len() == 8);
    assert("timestamp"@.len() == 9);
    assert("number"@.len() == 6);
    assert("difficulty"@.len() == 10);
    assert("prevrandao"@.len() == 10);
    assert("gaslimit"@.len() == 8);
    match i {
        YulInstructionName::Stop => {},
        YulInstructionName::Add => {},
        YulInstructionName::Sub => {
            assert("add"@[0] != "sub"@[0]);
        },
        YulInstructionName::Mul => {
            assert("add"@[0] != "mul"@[0]);
            assert("sub"@[0] != "mul"@[0]);
        },
        YulInstructionName::Div => {
            assert("add"@[0] != "div"@[0]);
            assert("sub"@[0] != "div"@[0]);
            assert("mul"@[0] != "div"@[0]);
        },
        YulInstructionName::SDiv => {
            assert("stop"@[1] != "sdiv"@[1]);
        },
        YulInstructionName::Mod => {
            assert("add"@[0] != "mod"@[0]);
            assert("sub"@[0] != "mod"@[0]);
            assert("mul"@[1] != "mod"@[1]);
            assert("div"@[0] != "mod"@[0]);
        },
        YulInstructionName::SMod => {
            assert("stop"@[1] != "smod"@[1]);
            assert("sdiv"@[1] != "smod"@[1]);
        },
        YulInstructionName::Exp => {
            assert("add"@[0] != "exp"@[0]);
            assert("sub"@[0] != "exp"@[0]);
            assert("mul"@[0] != "exp"@[0]);
            assert("div"@[0] != "exp"@[0]);
            assert("mod"@[0] != "exp"@[0]);
        },
        YulInstructionName::Not => {
            assert("add"@[0] != "not"@[0]);
            assert("sub"@[0] != "not"@[0]);
            assert("mul"@[0] != "not"@[0]);
            assert("div"@[0] != "not"@[0]);
            assert("mod"@[0] != "not"@[0]);
            assert("exp"@[0] != "not"@[0]);
        },
        YulInstructionName::Lt => {},
        YulInstructionName::Gt => {
            assert("lt"@[0] != "gt"@[0]);
        },
        YulInstructionName::SLt => {
            assert("add"@[0] != "slt"@[0]);
            assert("sub"@[1] != "slt"@[1]);
            assert("mul"@[0] != "slt"@[0]);
            assert("div"@[0] != "slt"@[0]);
            assert("mod"@[0] != "slt"@[0]);
            assert("exp"@[0] != "slt"@[0]);
            assert("not"@[0] != "slt"@[0]);
        },
        YulInstructionName::SGt => {
            assert("add"@[0] != "sgt"@[0]);
            assert("sub"@[1] != "sgt"@[1]);
            assert("mul"@[0] != "sgt"@[0]);
            assert("div"@[0] != "sgt"@[0]);
            assert("mod"@[0] != "sgt"@[0]);
            assert("exp"@[0] != "sgt"@[0]);
            assert("not"@[0] != "sgt"@[0]);
            assert("slt"@[1] != "sgt"@[1]);
        },
        YulInstructionName::Eq => {
            assert("lt"@[0] != "eq"@[0]);
            assert("gt"@[0] != "eq"@[0]);
        },
        YulInstructionName::IsZero => {},
        YulInstructionName::And => {
            assert("add"@[1] != "and"@[1]);
            assert("sub"@[0] != "and"@[0]);
            assert("mul"@[0] != "and"@[0]);
            assert("div"@[0] != "and"@[0]);
            assert("mod"@[0] != "and"@[0]);
            assert("exp"@[0] != "and"@[0]);
            assert("not"@[0] != "and"@[0]);
            assert("slt"@[0] != "and"@[0]);
            assert("sgt"@[0] != "and"@[0]);
        },
        YulInstructionName::Or => {
            assert("lt"@[0] != "or"@[0]);
            assert("gt"@[0] != "or"@[0]);
            assert("eq"@[0] != "or"@[0]);
        },
        YulInstructionName::Xor => {
            assert("add"@[0] != "xor"@[0]);
            assert("sub"@[0] != "xor"@[0]);
            assert("mul"@[0] != "xor"@[0]);
            assert("div"@[0] != "xor"@[0]);
            assert("mod"@[0] != "xor"@[0]);
            assert("exp"@[0] != "xor"@[0]);
            assert("not"@[0] != "xor"@[0]);
            assert("slt"@[0] != "xor"@[0]);
            assert("sgt"@[0] != "xor"@[0]);
            assert("and"@[0] != "xor"@[0]);
        },
        YulInstructionName::Byte => {
            assert("stop"@[0] != "byte"@[0]);
            assert("sdiv"@[0] != "byte"@[0]);
            assert("smod"@[0] != "byte"@[0]);
        },
        YulInstructionName::Shl => {
            assert("add"@[0] != "shl"@[0]);
            assert("sub"@[1] != "shl"@[1]);
            assert("mul"@[0] != "shl"@[0]);
            assert("div"@[0] != "shl"@[0]);
            assert("mod"@[0] != "shl"@[0]);
            assert("exp"@[0] != "shl"@[0]);
            assert("not"@[0] != "shl"@[0]);
            assert("slt"@[1] != "shl"@[1]);
            assert("sgt"@[1] != "shl"@[1]);
            assert("and"@[0] != "shl"@[0]);
            assert("xor"@[0] != "shl"@[0]);
        },
        YulInstructionName::Shr => {
            assert("add"@[0] != "shr"@[0]);
            assert("sub"@[1] != "shr"@[1]);
            assert("mul"@[0] != "shr"@[0]);
            assert("div"@[0] != "shr"@[0]);
            assert("mod"@[0] != "shr"@[0]);
            assert("exp"@[0] != "shr"@[0]);
            assert("not"@[0] != "shr"@[0]);
            assert("slt"@[1] != "shr"@[1]);
            assert("sgt"@[1] != "shr"@[1]);
            assert("and"@[0] != "shr"@[0]);
            assert("xor"@[0] != "shr"@[0]);
            assert("shl"@[2] != "shr"@[2]);
        },
        YulInstructionName::Sar => {
            assert("add"@[0] != "sar"@[0]);
            assert("sub"@[1] != "sar"@[1]);
            assert("mul"@[0] != "sar"@[0]);
            assert("div"@[0] != "sar"@[0]);
            assert("mod"@[0] != "sar"@[0]);
            assert("exp"@[0] != "sar"@[0]);
            assert("not"@[0] != "sar"@[0]);
            assert("slt"@[1] != "sar"@[1]);
            assert("sgt"@[1] != "sar"@[1]);
            assert("and"@[0] != "sar"@[0]);
            assert("xor"@[0] != "sar"@[0]);
            assert("shl"@[1] != "sar"@[1]);
            assert("shr"@[1] != "sar"@[1]);
        },
        YulInstructionName::AddMod => {
            assert("iszero"@[0] != "addmod"@[0]);
        },
        YulInstructionName::MulMod => {
            assert("iszero"@[0] != "mulmod"@[0]);
            assert("addmod"@[0] != "mulmod"@[0]);
        },
        YulInstructionName::SignExtend => {},
        YulInstructionName::Keccak256 => {},
        YulInstructionName::PC => {
            assert("lt"@[0] != "pc"@[0]);
            assert("gt"@[0] != "pc"@[0]);
            assert("eq"@[0] != "pc"@[0]);
            assert("or"@[0] != "pc"@[0]);
        },
        YulInstructionName::Pop => {
            assert("add"@[0] != "pop"@[0]);
            assert("sub"@[0] != "pop"@[0]);
            assert("mul"@[0] != "pop"@[0]);
            assert("div"@[0] != "pop"@[0]);
            assert("mod"@[0] != "pop"@[0]);
            assert("exp"@[0] != "pop"@[0]);
            assert("not"@[0] != "pop"@[0]);
            assert("slt"@[0] != "pop"@[0]);
            assert("sgt"@[0] != "pop"@[0]);
            assert("and"@[0] != "pop"@[0]);
            assert("xor"@[0] != "pop"@[0]);
            assert("shl"@[0] != "pop"@[0]);
            assert("shr"@[0] != "pop"@[0]);
            assert("sar"@[0] != "pop"@[0]);
        },
        YulInstructionName::MLoad => {},
        YulInstructionName::MStore => {
            assert("iszero"@[0] != "mstore"@[0]);
            assert("addmod"@[0] != "mstore"@[0]);
            assert("mulmod"@[1] != "mstore"@[1]);
        },
        YulInstructionName::MStore8 => {},
        YulInstructionName::SLoad => {
            assert("mload"@[0] != "sload"@[0]);
        },
        YulInstructionName::SStore => {
            assert("iszero"@[0] != "sstore"@[0]);
            assert("addmod"@[0] != "sstore"@[0]);
            assert("mulmod"@[0] != "sstore"@[0]);
            assert("mstore"@[0] != "sstore"@[0]);
        },
        YulInstructionName::MSize => {
            assert("mload"@[1] != "msize"@[1]);
            assert("sload"@[0] != "msize"@[0]);
        },
        YulInstructionName::Gas => {
            assert("add"@[0] != "gas"@[0]);
            assert("sub"@[0] != "gas"@[0]);
            assert("mul"@[0] != "gas"@[0]);
            assert("div"@[0] != "gas"@[0]);
            assert("mod"@[0] != "gas"@[0]);
            assert("exp"@[0] != "gas"@[0]);
            assert("not"@[0] != "gas"@[0]);
            assert("slt"@[0] != "gas"@[0]);
            assert("sgt"@[0] != "gas"@[0]);
            assert("and"@[0] != "gas"@[0]);
            assert("xor"@[0] != "gas"@[0]);
            assert("shl"@[0] != "gas"@[0]);
            assert("shr"@[0] != "gas"@[0]);
            assert("sar"@[0] != "gas"@[0]);
            assert("pop"@[0] != "gas"@[0]);
        },
        YulInstructionName::Address => {
            assert("mstore8"@[0] != "address"@[0]);
        },
        YulInstructionName::Balance => {
            assert("mstore8"@[0] != "balance"@[0]);
            assert("address"@[0] != "balance"@[0]);
        },
        YulInstructionName::SelfBalance => {},
        YulInstructionName::Caller => {
            assert("iszero"@[0] != "caller"@[0]);
            assert("addmod"@[0] != "caller"@[0]);
            assert("mulmod"@[0] != "caller"@[0]);
            assert("mstore"@[0] != "caller"@[0]);
            assert("sstore"@[0] != "caller"@[0]);
        },
        YulInstructionName::CallValue => {
            assert("keccak256"@[0] != "callvalue"@[0]);
        },
        YulInstructionName::CallDataLoad => {},
        YulInstructionName::CallDataSize => {
            assert("calldataload"@[8] != "calldatasize"@[8]);
        },
        YulInstructionName::CallDataCopy => {
            assert("calldataload"@[8] != "calldatacopy"@[8]);
            assert("calldatasize"@[8] != "calldatacopy"@[8]);
        },
        YulInstructionName::CodeSize => {},
        YulInstructionName::CodeCopy => {
            assert("codesize"@[4] != "codecopy"@[4]);
        },
        YulInstructionName::ExtCodeSize => {
            assert("selfbalance"@[0] != "extcodesize"@[0]);
        },
        YulInstructionName::ExtCodeCopy => {
            assert("selfbalance"@[0] != "extcodecopy"@[0]);
            assert("extcodesize"@[7] != "extcodecopy"@[7]);
        },
        YulInstructionName::DataCopy => {
            assert("codesize"@[0] != "datacopy"@[0]);
            assert("codecopy"@[0] != "datacopy"@[0]);
        },
        YulInstructionName::DataOffset => {
            assert("signextend"@[0] != "dataoffset"@[0]);
        },
        YulInstructionName::DataSize => {
            assert("codesize"@[0] != "datasize"@[0]);
            assert("codecopy"@[0] != "datasize"@[0]);
            assert("datacopy"@[4] != "datasize"@[4]);
        },
        YulInstructionName::ReturnDataSize => {},
        YulInstructionName::ReturnDataCopy => {
            assert("returndatasize"@[10] != "returndatacopy"@[10]);
        },
        YulInstructionName::ExtCodeHash => {
            assert("selfbalance"@[0] != "extcodehash"@[0]);
            assert("extcodesize"@[7] != "extcodehash"@[7]);
            assert("extcodecopy"@[7] != "extcodehash"@[7]);
        },
        YulInstructionName::Create => {
            assert("iszero"@[0] != "create"@[0]);
            assert("addmod"@[0] != "create"@[0]);
            assert("mulmod"@[0] != "create"@[0]);
            assert("mstore"@[0] != "create"@[0]);
            assert("sstore"@[0] != "create"@[0]);
            assert("caller"@[1] != "create"@[1]);
        },
        YulInstructionName::Create2 => {
            assert("mstore8"@[0] != "create2"@[0]);
            assert("address"@[0] != "create2"@[0]);
            assert("balance"@[0] != "create2"@[0]);
        },
        YulInstructionName::Call => {
            assert("stop"@[0] != "call"@[0]);
            assert("sdiv"@[0] != "call"@[0]);
            assert("smod"@[0] != "call"@[0]);
            assert("byte"@[0] != "call"@[0]);
        },
        YulInstructionName::CallCode => {
            assert("codesize"@[1] != "callcode"@[1]);
            assert("codecopy"@[1] != "callcode"@[1]);
            assert("datacopy"@[0] != "callcode"@[0]);
            assert("datasize"@[0] != "callcode"@[0]);
        },
        YulInstructionName::DelegateCall => {
            assert("calldataload"@[0] != "delegatecall"@[0]);
            assert("calldatasize"@[0] != "delegatecall"@[0]);
            assert("calldatacopy"@[0] != "delegatecall"@[0]);
        },
        YulInstructionName::StaticCall => {
            assert("signextend"@[1] != "staticcall"@[1]);
            assert("dataoffset"@[0] != "staticcall"@[0]);
        },
        YulInstructionName::Return => {
            assert("iszero"@[0] != "return"@[0]);
            assert("addmod"@[0] != "return"@[0]);
            assert("mulmod"@[0] != "return"@[0]);
            assert("mstore"@[0] != "return"@[0]);
            assert("sstore"@[0] != "return"@[0]);
            assert("caller"@[0] != "return"@[0]);
            assert("create"@[0] != "return"@[0]);
        },
        YulInstructionName::Revert => {
            assert("iszero"@[0] != "revert"@[0]);
            assert("addmod"@[0] != "revert"@[0]);
            assert("mulmod"@[0] != "revert"@[0]);
            assert("mstore"@[0] != "revert"@[0]);
            assert("sstore"@[0] != "revert"@[0]);
            assert("caller"@[0] != "revert"@[0]);
            assert("create"@[0] != "revert"@[0]);
            assert("return"@[2] != "revert"@[2]);
        },
        YulInstructionName::SelfDestruct => {
            assert("calldataload"@[0] != "selfdestruct"@[0]);
            assert("calldatasize"@[0] != "selfdestruct"@[0]);
            assert("calldatacopy"@[0] != "selfdestruct"@[0]);
            assert("delegatecall"@[0] != "selfdestruct"@[0]);
        },
        YulInstructionName::Invalid => {
            assert("mstore8"@[0] != "invalid"@[0]);
            assert("address"@[0] != "invalid"@[0]);
            assert("balance"@[0] != "invalid"@[0]);
            assert("create2"@[0] != "invalid"@[0]);
        },
        YulInstructionName::Log0 => {
            assert("stop"@[0] != "log0"@[0]);
            assert("sdiv"@[0] != "log0"@[0]);
            assert("smod"@[0] != "log0"@[0]);
            assert("byte"@[0] != "log0"@[0]);
            assert("call"@[0] != "log0"@[0]);
        },
        YulInstructionName::Log1 => {
            assert("stop"@[0] != "log1"@[0]);
            assert("sdiv"@[0] != "log1"@[0]);
            assert("smod"@[0] != "log1"@[0]);
            assert("byte"@[0] != "log1"@[0]);
            assert("call"@[0] != "log1"@[0]);
            assert("log0"@[3] != "log1"@[3]);
        },
        YulInstructionName::Log2 => {
            assert("stop"@[0] != "log2"@[0]);
            assert("sdiv"@[0] != "log2"@[0]);
            assert("smod"@[0] != "log2"@[0]);
            assert("byte"@[0] != "log2"@[0]);
            assert("call"@[0] != "log2"@[0]);
            assert("log0"@[3] != "log2"@[3]);
            assert("log1"@[3] != "log2"@[3]);
        },
        YulInstructionName::Log3 => {
            assert("stop"@[0] != "log3"@[0]);
            assert("sdiv"@[0] != "log3"@[0]);
            assert("smod"@[0] != "log3"@[0]);
            assert("byte"@[0] != "log3"@[0]);
            assert("call"@[0] != "log3"@[0]);
            assert("log0"@[3] != "log3"@[3]);
            assert("log1"@[3] != "log3"@[3]);
            assert("log2"@[3] != "log3"@[3]);
        },
        YulInstructionName::Log4 => {
            assert("stop"@[0] != "log4"@[0]);
            assert("sdiv"@[0] != "log4"@[0]);
            assert("smod"@[0] != "log4"@[0]);
            assert("byte"@[0] != "log4"@[0]);
            assert("call"@[0] != "log4"@[0]);
            assert("log0"@[3] != "log4"@[3]);
            assert("log1"@[3] != "log4"@[3]);
            assert("log2"@[3] != "log4"@[3]);
            assert("log3"@[3] != "log4"@[3]);
        },
        YulInstructionName::ChainID => {
            assert("mstore8"@[0] != "chainid"@[0]);
            assert("address"@[0] != "chainid"@[0]);
            assert("balance"@[0] != "chainid"@[0]);
            assert("create2"@[1] != "chainid"@[1]);
            assert("invalid"@[0] != "chainid"@[0]);
        },
        YulInstructionName::BaseFee => {
            assert("mstore8"@[0] != "basefee"@[0]);
            assert("address"@[0] != "basefee"@[0]);
            assert("balance"@[2] != "basefee"@[2]);
            assert("create2"@[0] != "basefee"@[0]);
            assert("invalid"@[0] != "basefee"@[0]);
            assert("chainid"@[0] != "basefee"@[0]);
        },
        YulInstructionName::Origin => {
            assert("iszero"@[0] != "origin"@[0]);
            assert("addmod"@[0] != "origin"@[0]);
            assert("mulmod"@[0] != "origin"@[0]);
            assert("mstore"@[0] != "origin"@[0]);
            assert("sstore"@[0] != "origin"@[0]);
            assert("caller"@[0] != "origin"@[0]);
            assert("create"@[0] != "origin"@[0]);
            assert("return"@[0] != "origin"@[0]);
            assert("revert"@[0] != "origin"@[0]);
        },
        YulInstructionName::GasPrice => {
            assert("codesize"@[0] != "gasprice"@[0]);
            assert("codecopy"@[0] != "gasprice"@[0]);
            assert("datacopy"@[0] != "gasprice"@[0]);
            assert("datasize"@[0] != "gasprice"@[0]);
            assert("callcode"@[0] != "gasprice"@[0]);
        },
        YulInstructionName::BlockHash => {
            assert("keccak256"@[0] != "blockhash"@[0]);
            assert("callvalue"@[0] != "blockhash"@[0]);
        },
        YulInstructionName::CoinBase => {
            assert("codesize"@[2] != "coinbase"@[2]);
            assert("codecopy"@[2] != "coinbase"@[2]);
            assert("datacopy"@[0] != "coinbase"@[0]);
            assert("datasize"@[0] != "coinbase"@[0]);
            assert("callcode"@[1] != "coinbase"@[1]);
            assert("gasprice"@[0] != "coinbase"@[0]);
        },
        YulInstructionName::TimeStamp => {
            assert("keccak256"@[0] != "timestamp"@[0]);
            assert("callvalue"@[0] != "timestamp"@[0]);
            assert("blockhash"@[0] != "timestamp"@[0]);
        },
        YulInstructionName::Number => {
            assert("iszero"@[0] != "number"@[0]);
            assert("addmod"@[0] != "number"@[0]);
            assert("mulmod"@[0] != "number"@[0]);
            assert("mstore"@[0] != "number"@[0]);
            assert("sstore"@[0] != "number"@[0]);
            assert("caller"@[0] != "number"@[0]);
            assert("create"@[0] != "number"@[0]);
            assert("return"@[0] != "number"@[0]);
            assert("revert"@[0] != "number"@[0]);
            assert("origin"@[0] != "number"@[0]);
        },
        YulInstructionName::Difficulty => {
            assert("signextend"@[0] != "difficulty"@[0]);
            assert("dataoffset"@[1] != "difficulty"@[1]);
            assert("staticcall"@[0] != "difficulty"@[0]);
        },
        YulInstructionName::Prevrandao => {
            assert("signextend"@[0] != "prevrandao"@[0]);
            assert("dataoffset"@[0] != "prevrandao"@[0]);
            assert("staticcall"@[0] != "prevrandao"@[0]);
            assert("difficulty"@[0] != "prevrandao"@[0]);
        },
        YulInstructionName::GasLimit => {
            assert("codesize"@[0] != "gaslimit"@[0]);
            assert("codecopy"@[0] != "gaslimit"@[0]);
            assert("datacopy"@[0] != "gaslimit"@[0]);
            assert("datasize"@[0] != "gaslimit"@[0]);
            assert("callcode"@[0] != "gaslimit"@[0]);
            assert("gasprice"@[3] != "gaslimit"@[3]);
            assert("coinbase"@[0] != "gaslimit"@[0]);
        },
    }
}

impl YulInstructionName {
    /// The instruction that the builtin function name `s` calls; the name
    /// must be one of an instruction.
    pub fn from(s: String) -> (r: YulInstructionName)
        requires
            spec_parse_intrinsic_func_name(s@) is Some,
        ensures
            spec_parse_intrinsic_func_name(s@) == Some(r),
    {
        match parse_intrinsic_func_name(s.as_str()) {
            Some(intrinsic) => intrinsic,
            None => {
                proof {
                    assert(false);
                }
                YulInstructionName::Stop
            },
        }
    }
}

} // verus!
