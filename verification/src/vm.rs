//! The mock virtual machine that runs contract code in tests: its chain
//! context, drawn at random, and the hashing and signature checks that the
//! host offers.

use vstd::prelude::*;
use crypto::digest::Digest;
use rand::Rng;
use rsa::PublicKey;
use wasmi::MemoryRef;
use crate::ir_config::MAX_ADDRESS_LENGTH;

verus! {

/// The block and transaction that a contract call runs in.
#[derive(Debug, Clone)]
pub struct VMContext {
    pub block_number: u64,
    pub block_timestamp: u64,
    pub timestamp: u64,
    pub nonce: u64,
    pub index: u32,
    pub hash: String,
    pub call_gas_left: u64,
    pub call_gas_limit: u64,
    pub tx_gas_limit: u64,
    pub block_random_seed: [u8; 32],
}

/// `wasmi::MemoryRef`, a linear memory, held opaque.
#[verifier::external_type_specification]
#[verifier::external_body]
pub struct ExMemoryRef(wasmi::MemoryRef);

/// `rsa::RSAPublicKey`, held opaque.
#[verifier::external_type_specification]
#[verifier::external_body]
pub struct ExRsaPublicKey(rsa::RSAPublicKey);

/// VirtualMachine is mock contract WASM code with input contract method
/// inputs and outputs for the mock test.
#[derive(Debug)]
pub struct VirtualMachine {
    /// Contract address
    pub addr: String,
    pub op_addr: String,
    pub memory: MemoryRef,
    pub code: Vec<u8>,
    pub input: Vec<u8>,
    pub output: Vec<u8>,
    pub context: VMContext,
}

/// The SHA-256 digest of the UTF-8 bytes of `msg`.
pub uninterp spec fn sha256_digest(msg: Seq<char>) -> Seq<u8>;

/// The key that `rsa::RSAPublicKey::from_pkcs1` reads from DER bytes, if
/// they hold one.
pub uninterp spec fn rsa_pkcs1_public_key(der: Seq<u8>) -> Option<rsa::RSAPublicKey>;

/// Whether `sig` is a PKCS#1 v1.5 signature of the SHA-256 digest `digest`
/// under the key.
pub uninterp spec fn rsa_pkcs1v15_sha256_valid(key: rsa::RSAPublicKey, digest: Seq<u8>, sig: Seq<u8>) -> bool;

/// sha256: hashes `msg` with `crypto::sha2::Sha256` (`input_str`, then
/// `result` into a 32-byte buffer). Claims that the digest is a function
/// of the message alone.
#[verifier::external_body]
pub fn sha256(msg: &str) -> (r: [u8; 32])
    ensures
        r@ == sha256_digest(msg@),
{
    let mut hasher = crypto::sha2::Sha256::new();
    hasher.input_str(msg);
    let mut buf = [0u8; 32];
    hasher.result(&mut buf);
    buf
}

/// Reads a PKCS#1 DER public key with `rsa::RSAPublicKey::from_pkcs1`.
/// Claims that the outcome is a function of the bytes alone.
#[verifier::external_body]
fn read_rsa_public_key(der: &[u8]) -> (r: Option<rsa::RSAPublicKey>)
    ensures
        r == rsa_pkcs1_public_key(der@),
{
    rsa::RSAPublicKey::from_pkcs1(der).ok()
}

/// Checks a PKCS#1 v1.5 signature over a SHA-256 digest with
/// `PublicKey::verify` and `PaddingScheme::PKCS1v15Sign`. Claims that the
/// outcome is a function of the key, the digest and the signature.
#[verifier::external_body]
fn rsa_verify(key: &rsa::RSAPublicKey, digest: &[u8], sig: &[u8]) -> (r: bool)
    ensures
        r == rsa_pkcs1v15_sha256_valid(*key, digest@, sig@),
{
    let padding = rsa::PaddingScheme::PKCS1v15Sign { hash: Some(rsa::Hash::SHA2_256) };
    key.verify(padding, digest, sig).is_ok()
}

/// Verify the signature using rsa algorithm: whether `sig` signs the
/// SHA-256 digest `digest` under the PKCS#1 public key `pub_k`, which must
/// be one.
pub fn rsa_verify_sign(pub_k: Vec<u8>, sig: Vec<u8>, digest: Vec<u8>) -> (r: bool)
    requires
        rsa_pkcs1_public_key(pub_k@) is Some,
    ensures
        r == rsa_pkcs1v15_sha256_valid(rsa_pkcs1_public_key(pub_k@)->Some_0, digest@, sig@),
{
    match read_rsa_public_key(pub_k.as_slice()) {
        Some(pk) => rsa_verify(&pk, digest.as_slice(), sig.as_slice()),
        None => {
            proof {
                assert(false);
            }
            false
        },
    }
}

/// As `rsa_verify_sign` where `pub_k` holds a PKCS#1 public key; `None`
/// where it holds none.
pub fn try_rsa_verify_sign(pub_k: Vec<u8>, sig: Vec<u8>, digest: Vec<u8>) -> (r: Option<bool>)
    ensures
        match rsa_pkcs1_public_key(pub_k@) {
            Some(key) => r == Some(rsa_pkcs1v15_sha256_valid(key, digest@, sig@)),
            None => r is None,
        },
{
    match read_rsa_public_key(pub_k.as_slice()) {
        Some(_) => Some(rsa_verify_sign(pub_k, sig, digest)),
        None => None,
    }
}

/// A number drawn with `rand::thread_rng().gen::<u32>()`.
#[verifier::external_body]
fn random_u32() -> (r: u32) {
    rand::thread_rng().gen::<u32>()
}

/// A number drawn with `rand::thread_rng().gen::<u16>()`.
#[verifier::external_body]
fn random_u16() -> (r: u16) {
    rand::thread_rng().gen::<u16>()
}

/// A number drawn with `rand::thread_rng().gen::<u64>()`.
#[verifier::external_body]
fn random_u64() -> (r: u64) {
    rand::thread_rng().gen::<u64>()
}

/// `len` characters drawn from `rand::distributions::Standard` with
/// `rand::thread_rng().sample_iter`; claims only their number.
#[verifier::external_body]
fn random_string(len: usize) -> (r: String)
    ensures
        r@.len() == len,
{
    rand::thread_rng().sample_iter::<char, _>(rand::distributions::Standard).take(len).collect()
}

/// The number of pages that a linear memory was made with
/// (`MemoryInstance::initial`).
pub uninterp spec fn memory_initial_pages(m: MemoryRef) -> nat;

/// The number of pages that a linear memory may grow to, if it has a limit
/// (`MemoryInstance::maximum`).
pub uninterp spec fn memory_maximum_pages(m: MemoryRef) -> Option<nat>;

/// A linear memory of `initial` pages that may grow to `maximum`, made with
/// `wasmi::MemoryInstance::alloc`. Claims, as its validation shows, that
/// none is made where `initial` exceeds `maximum` or either exceeds 65536
/// pages, and that a memory that is made has those limits; where one is
/// made else depends on the machine.
#[verifier::external_body]
fn alloc_memory(initial: usize, maximum: usize) -> (r: Option<MemoryRef>)
    ensures
        initial > maximum || maximum > 65536 ==> r is None,
        r matches Some(m) ==> memory_initial_pages(m) == initial as nat && memory_maximum_pages(m) == Some(
            maximum as nat,
        ),
{
    wasmi::MemoryInstance::alloc(
        wasmi::memory_units::Pages(initial),
        Some(wasmi::memory_units::Pages(maximum)),
    ).ok()
}

/// The decimal digits of `n`.
pub open spec fn spec_decimal(n: nat) -> Seq<char>
    decreases n,
{
    if n < 10 {
        seq![digit_char(n)]
    } else {
        spec_decimal(n / 10).push(digit_char(n % 10))
    }
}

/// The character of a decimal digit.
pub open spec fn digit_char(d: nat) -> char {
    if d == 0 {
        '0'
    } else if d == 1 {
        '1'
    } else if d == 2 {
        '2'
    } else if d == 3 {
        '3'
    } else if d == 4 {
        '4'
    } else if d == 5 {
        '5'
    } else if d == 6 {
        '6'
    } else if d == 7 {
        '7'
    } else if d == 8 {
        '8'
    } else {
        '9'
    }
}

fn digit_str(d: u64) -> (s: &'static str)
    requires
        d < 10,
    ensures
        s@ == seq![digit_char(d as nat)],
{
    proof {
        reveal_strlit("0");
        reveal_strlit("1");
        reveal_strlit("2");
        reveal_strlit("3");
        reveal_strlit("4");
        reveal_strlit("5");
        reveal_strlit("6");
        reveal_strlit("7");
        reveal_strlit("8");
        reveal_strlit("9");
    }
    let s = if d == 0 {
        "0"
    } else if d == 1 {
        "1"
    } else if d == 2 {
        "2"
    } else if d == 3 {
        "3"
    } else if d == 4 {
        "4"
    } else if d == 5 {
        "5"
    } else if d == 6 {
        "6"
    } else if d == 7 {
        "7"
    } else if d == 8 {
        "8"
    } else {
        "9"
    };
    assert(s@ =~= seq![digit_char(d as nat)]);
    s
}

/// The decimal text of `n`, as `to_string` writes it.
pub fn decimal_string(n: u64) -> (s: String)
    ensures
        s@ == spec_decimal(n as nat),
    decreases n,
{
    if n < 10 {
        String::from_str(digit_str(n))
    } else {
        let head = decimal_string(n / 10);
        let s = head.concat(digit_str(n % 10));
        assert(s@ =~= spec_decimal((n / 10) as nat).push(digit_char((n % 10) as nat)));
        s
    }
}

/// A random address: `MAX_ADDRESS_LENGTH` random characters.
pub fn rand_address() -> (a: String)
    ensures
        a@.len() == MAX_ADDRESS_LENGTH,
{
    random_string(MAX_ADDRESS_LENGTH)
}

/// A random hash of 32 characters.
fn rand_hash() -> (h: String)
    ensures
        h@.len() == 32,
{
    random_string(32)
}

/// The pages of memory that a virtual machine starts with and may use.
pub const VM_MEMORY_PAGES: usize = 2;

/// The machine that `VirtualMachine::from_parts` assembles from its parts.
pub open spec fn is_machine_of(
    vm: VirtualMachine,
    code: Seq<u8>,
    addr: Seq<char>,
    memory: MemoryRef,
    block_number: u64,
    block_timestamp: u64,
    timestamp: u64,
    nonce: u64,
    index: u32,
    hash: Seq<char>,
    call_gas_left: u64,
    call_gas_limit: u64,
    tx_gas_limit: u64,
) -> bool {
    &&& vm.code@ == code
    &&& vm.addr@ == addr
    &&& vm.op_addr@ == "opration address"@
    &&& vm.memory == memory
    &&& vm.input@.len() == 0
    &&& vm.output@.len() == 0
    &&& vm.context.block_number == block_number
    &&& vm.context.block_timestamp == block_timestamp
    &&& vm.context.timestamp == timestamp
    &&& vm.context.nonce == nonce
    &&& vm.context.index == index
    &&& vm.context.hash@ == hash
    &&& vm.context.call_gas_left == call_gas_left
    &&& vm.context.call_gas_limit == call_gas_limit
    &&& vm.context.tx_gas_limit == tx_gas_limit
    &&& vm.context.block_random_seed@ == sha256_digest(spec_decimal(block_number as nat))
}

impl VirtualMachine {
    /// The machine that runs `code` at `addr` with the memory and the chain
    /// context given: no input or output yet, the operator address
    /// `opration address`, and as the block's random seed the SHA-256
    /// digest of the block number's decimal text.
    #[allow(clippy::too_many_arguments)]
    pub fn from_parts(
        code: Vec<u8>,
        addr: String,
        memory: MemoryRef,
        block_number: u64,
        block_timestamp: u64,
        timestamp: u64,
        nonce: u64,
        index: u32,
        hash: String,
        call_gas_left: u64,
        call_gas_limit: u64,
        tx_gas_limit: u64,
    ) -> (vm: VirtualMachine)
        ensures
            is_machine_of(
                vm,
                code@,
                addr@,
                memory,
                block_number,
                block_timestamp,
                timestamp,
                nonce,
                index,
                hash@,
                call_gas_left,
                call_gas_limit,
                tx_gas_limit,
            ),
    {
        let block_random_seed = sha256(decimal_string(block_number).as_str());
        VirtualMachine {
            memory,
            input: Vec::new(),
            output: Vec::new(),
            context: VMContext {
                block_number,
                block_timestamp,
                timestamp,
                nonce,
                index,
                hash,
                call_gas_left,
                call_gas_limit,
                tx_gas_limit,
                block_random_seed,
            },
            code,
            addr,
            op_addr: String::from_str("opration address"),
        }
    }

    /// A machine that runs `code` at `addr` with a memory of 2 pages that
    /// may not grow, in a random chain context: the block number, the
    /// timestamps and the nonce are drawn below `2^32`, the index below
    /// `2^16`, the gas values over all of `u64`, and the hash is 32 random
    /// characters; the rest is as `from_parts` makes it. `None` where the
    /// machine's memory could not be allocated.
    pub fn new(code: Vec<u8>, addr: String) -> (r: Option<VirtualMachine>)
        ensures
            r matches Some(vm) ==> {
                &&& is_machine_of(
                    vm,
                    code@,
                    addr@,
                    vm.memory,
                    vm.context.block_number,
                    vm.context.block_timestamp,
                    vm.context.timestamp,
                    vm.context.nonce,
                    vm.context.index,
                    vm.context.hash@,
                    vm.context.call_gas_left,
                    vm.context.call_gas_limit,
                    vm.context.tx_gas_limit,
                )
                &&& memory_initial_pages(vm.memory) == 2
                &&& memory_maximum_pages(vm.memory) == Some(2nat)
                &&& vm.context.block_number < 0x1_0000_0000
                &&& vm.context.block_timestamp < 0x1_0000_0000
                &&& vm.context.timestamp < 0x1_0000_0000
                &&& vm.context.nonce < 0x1_0000_0000
                &&& vm.context.index < 0x1_0000
                &&& vm.context.hash@.len() == 32
            },
    {
        let block_number: u64 = random_u32() as u64;
        let memory = match alloc_memory(VM_MEMORY_PAGES, VM_MEMORY_PAGES) {
            Some(m) => m,
            None => {
                return None;
            },
        };
        let block_timestamp: u64 = random_u32() as u64;
        let timestamp: u64 = random_u32() as u64;
        let nonce: u64 = random_u32() as u64;
        let index: u32 = random_u16() as u32;
        let hash = rand_hash();
        let call_gas_left: u64 = random_u64();
        let call_gas_limit: u64 = random_u64();
        let tx_gas_limit: u64 = random_u64();
        Some(
            VirtualMachine::from_parts(
                code,
                addr,
                memory,
                block_number,
                block_timestamp,
                timestamp,
                nonce,
                index,
                hash,
                call_gas_left,
                call_gas_limit,
                tx_gas_limit,
            ),
        )
    }
}

} // verus!
