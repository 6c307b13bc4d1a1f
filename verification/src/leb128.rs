//! Signed LEB128 compression of 64-bit integers, as used for the integer
//! keys of storage paths.

use vstd::prelude::*;
use nano_leb128::SLEB128;

verus! {

/// Why a byte buffer does not hold a signed LEB128 value.
#[derive(Debug, Clone, Copy, PartialEq, Eq, Structural)]
pub enum LEB128DecodeError {
    /// More bytes required than are available to complete the deserialization.
    BufferOverflow,
    /// The compressed value represents a larger number than can be decoded.
    IntegerOverflow,
}

/// `128` to the power `m`.
pub open spec fn radix_pow(m: nat) -> int
    decreases m,
{
    if m == 0 {
        1
    } else {
        128 * radix_pow((m - 1) as nat)
    }
}

/// Whether the group of the low seven bits `low` ends the encoding of a
/// value whose remaining high part is `rest`: the sign bit of the group
/// then already agrees with every remaining bit.
pub open spec fn is_last_group(low: int, rest: int) -> bool {
    (rest == 0 && low < 64) || (rest == -1 && low >= 64)
}

/// The signed LEB128 encoding of `v`: seven bits per byte, least
/// significant group first, the high bit of every byte but the last set,
/// ending at the first group whose sign bit agrees with all remaining bits.
pub open spec fn spec_sleb128_encode(v: int) -> Seq<u8>
    decreases (if v >= 0 { v } else { -v }),
{
    let low = v % 128;
    let rest = v / 128;
    if is_last_group(low, rest) {
        seq![low as u8]
    } else {
        proof {
            lemma_shift_shrinks(v);
        }
        seq![(low + 128) as u8] + spec_sleb128_encode(rest)
    }
}

/// The value that the byte `b` carries when it ends an encoding: its low
/// seven bits read as a signed number.
pub open spec fn last_group_value(b: u8) -> int {
    if b < 64 {
        b as int
    } else {
        b - 128
    }
}

/// Signed LEB128 decoding of `s` from index `k` on, where `k` bytes have
/// already been read: the decoded value and the total number of bytes read,
/// or the reason decoding stops. The tenth byte of an encoding must be
/// `0x00` or `0x7f`, so that the value fits in 64 bits.
pub open spec fn spec_sleb128_decode_from(s: Seq<u8>, k: nat) -> Result<(int, nat), LEB128DecodeError>
    decreases s.len() - k,
{
    if k >= s.len() {
        Err(LEB128DecodeError::BufferOverflow)
    } else {
        let b = s[k as int];
        if k == 9 && b != 0 && b != 0x7f {
            Err(LEB128DecodeError::IntegerOverflow)
        } else if b < 128 {
            Ok((last_group_value(b), k + 1))
        } else {
            match spec_sleb128_decode_from(s, k + 1) {
                Ok((v, n)) => Ok(((b - 128) + 128 * v, n)),
                Err(e) => Err(e),
            }
        }
    }
}

/// Signed LEB128 decoding of a whole buffer from its first byte.
pub open spec fn spec_sleb128_decode(s: Seq<u8>) -> Result<(int, nat), LEB128DecodeError> {
    spec_sleb128_decode_from(s, 0)
}

/// Outside the last group the high part is strictly closer to zero than the value.
pub proof fn lemma_shift_shrinks(v: int)
    requires
        !is_last_group(v % 128, v / 128),
    ensures
        (if v / 128 >= 0 { v / 128 } else { -(v / 128) }) < (if v >= 0 { v } else { -v }),
{
}

/// Writes the signed LEB128 encoding of `value` into `buf`.
///
/// Calls `nano_leb128::SLEB128::write_into`, which writes the bytes of the
/// encoding one by one from the start of `buf` and fails with
/// `BufferOverflow` at the first byte that no longer fits. The contract
/// claims: success exactly when the encoding fits, the number of bytes
/// written on success, and in either case that `buf` starts with as much of
/// the encoding as fits while the rest of it is left alone.
#[verifier::external_body]
fn sleb128_write_into(value: i64, buf: &mut [u8; 8]) -> (res: Option<usize>)
    ensures
        res is Some <==> spec_sleb128_encode(value as int).len() <= 8,
        res matches Some(n) ==> n == spec_sleb128_encode(value as int).len()
            && final(buf)@ == spec_sleb128_encode(value as int) + old(buf)@.skip(n as int),
        res is None ==> final(buf)@ == spec_sleb128_encode(value as int).take(8),
{
    SLEB128::from(value).write_into(buf).ok()
}

/// Reads a signed LEB128 value from the start of `buf`.
///
/// Calls `nano_leb128::SLEB128::read_from` and turns its error into the
/// library's own. The contract claims that the value and the number of
/// bytes read, or the error, are those of `spec_sleb128_decode`.
#[verifier::external_body]
fn sleb128_read_from(buf: &[u8]) -> (res: Result<(i64, usize), LEB128DecodeError>)
    ensures
        match res {
            Ok((v, n)) => spec_sleb128_decode(buf@) == Ok::<(int, nat), LEB128DecodeError>((v as int, n as nat)),
            Err(e) => spec_sleb128_decode(buf@) == Err::<(int, nat), LEB128DecodeError>(e),
        },
{
    match SLEB128::read_from(buf) {
        Ok((v, n)) => Ok((i64::from(v), n)),
        Err(nano_leb128::LEB128DecodeError::BufferOverflow) => Err(LEB128DecodeError::BufferOverflow),
        Err(nano_leb128::LEB128DecodeError::IntegerOverflow) => Err(LEB128DecodeError::IntegerOverflow),
    }
}

/// The encoding of a value of `[-64 * 128^m, 64 * 128^m)` takes at most
/// `m + 1` bytes.
pub proof fn lemma_encode_len(v: int, m: nat)
    requires
        -64 * radix_pow(m) <= v < 64 * radix_pow(m),
    ensures
        spec_sleb128_encode(v).len() <= m + 1,
        spec_sleb128_encode(v).len() >= 1,
    decreases m,
{
    let low = v % 128;
    let rest = v / 128;
    if m == 0 {
        assert(is_last_group(low, rest));
    } else if !is_last_group(low, rest) {
        assert(radix_pow(m) == 128 * radix_pow((m - 1) as nat));
        assert(-64 * radix_pow((m - 1) as nat) <= rest < 64 * radix_pow((m - 1) as nat));
        lemma_encode_len(rest, (m - 1) as nat);
    }
}

/// Decoding, from index `pre.len()`, a buffer that holds the encoding of `v`
/// there gives `v` back and stops right after the encoding, whatever
/// surrounds it, provided `v` is small enough for the bytes left before the
/// tenth.
proof fn lemma_decode_encoded(v: int, pre: Seq<u8>, tail: Seq<u8>)
    requires
        pre.len() <= 9,
        -radix_pow((9 - pre.len()) as nat) <= v < radix_pow((9 - pre.len()) as nat),
    ensures
        spec_sleb128_decode_from(pre + spec_sleb128_encode(v) + tail, pre.len())
            == Ok::<(int, nat), LEB128DecodeError>((v, pre.len() + spec_sleb128_encode(v).len())),
    decreases 9 - pre.len(),
{
    let k = pre.len();
    let low = v % 128;
    let rest = v / 128;
    let enc = spec_sleb128_encode(v);
    let s = pre + enc + tail;
    if is_last_group(low, rest) {
        assert(enc == seq![low as u8]);
        assert(s[k as int] == low as u8);
        if k == 9 {
            assert(radix_pow(0) == 1);
        }
    } else {
        let b = (low + 128) as u8;
        let enc_rest = spec_sleb128_encode(rest);
        assert(enc == seq![b] + enc_rest);
        if k == 9 {
            assert(radix_pow(0) == 1);
            assert(false);
        }
        let m = (9 - k) as nat;
        assert(radix_pow(m) == 128 * radix_pow((m - 1) as nat));
        let pre2 = pre.push(b);
        assert(s == pre2 + enc_rest + tail);
        assert(s[k as int] == b);
        lemma_decode_encoded(rest, pre2, tail);
    }
}

/// `128^9` is `2^63`, the size of each half of the `i64` range.
proof fn lemma_radix_pow_nine()
    ensures
        radix_pow(9) == 0x8000_0000_0000_0000,
{
    reveal_with_fuel(radix_pow, 10);
}

/// Decoding gives back every `i64` that was encoded, reading exactly the
/// bytes of its encoding, whatever follows them in the buffer.
pub proof fn law_decode_encode(v: i64, tail: Seq<u8>)
    ensures
        spec_sleb128_decode(spec_sleb128_encode(v as int) + tail)
            == Ok::<(int, nat), LEB128DecodeError>((v as int, spec_sleb128_encode(v as int).len())),
{
    lemma_radix_pow_nine();
    let pre = Seq::<u8>::empty();
    lemma_decode_encoded(v as int, pre, tail);
    assert(pre + spec_sleb128_encode(v as int) == spec_sleb128_encode(v as int));
}

/// Every `i64` has an encoding of at most ten bytes.
pub proof fn law_encode_len(v: i64)
    ensures
        1 <= spec_sleb128_encode(v as int).len() <= 10,
{
    lemma_radix_pow_nine();
    assert(radix_pow(9) == 128 * radix_pow(8));
    lemma_encode_len(v as int, 9);
}

/// Decoding from index `k` (at most 9) reads at most `10 - k` more bytes and
/// gives a value of `[-128^(9-k), 128^(9-k))`.
proof fn lemma_decode_bound(s: Seq<u8>, k: nat)
    requires
        k <= 9,
    ensures
        spec_sleb128_decode_from(s, k) matches Ok((v, n)) ==> k < n <= 10 && n <= s.len()
            && -radix_pow((9 - k) as nat) <= v < radix_pow((9 - k) as nat),
    decreases 9 - k,
{
    if k < s.len() {
        let b = s[k as int];
        reveal_with_fuel(radix_pow, 2);
        if !(k == 9 && b != 0 && b != 0x7f) && b >= 128 {
            if k == 9 {
                assert(false);
            }
            lemma_decode_bound(s, k + 1);
            let m = (9 - k) as nat;
            assert(radix_pow(m) == 128 * radix_pow((m - 1) as nat));
            assert(radix_pow((m - 1) as nat) >= 1) by {
                lemma_radix_pow_positive((m - 1) as nat);
            }
        } else if b < 128 {
            lemma_radix_pow_positive((9 - k) as nat);
            if k < 9 {
                let m = (9 - k) as nat;
                assert(radix_pow(m) == 128 * radix_pow((m - 1) as nat));
                lemma_radix_pow_positive((m - 1) as nat);
            }
        }
    }
}

proof fn lemma_radix_pow_positive(m: nat)
    ensures
        radix_pow(m) >= 1,
    decreases m,
{
    if m > 0 {
        lemma_radix_pow_positive((m - 1) as nat);
    }
}

/// Whatever the buffer, a decoded value fits in an `i64` and takes between
/// one and ten bytes of the buffer.
pub proof fn law_decode_in_range(s: Seq<u8>)
    ensures
        spec_sleb128_decode(s) matches Ok((v, n)) ==> i64::MIN <= v <= i64::MAX && 1 <= n <= 10
            && n <= s.len(),
{
    lemma_radix_pow_nine();
    lemma_decode_bound(s, 0);
}

/// Encodes `v` with signed LEB128 into at most eight bytes.
///
/// Values outside `[-2^55, 2^55)` need more than eight bytes and are not
/// accepted.
pub fn leb128_encode(v: i64) -> (bytes: Vec<u8>)
    requires
        -0x80_0000_0000_0000 <= v < 0x80_0000_0000_0000,
    ensures
        bytes@ == spec_sleb128_encode(v as int),
{
    proof {
        reveal_with_fuel(radix_pow, 8);
        lemma_encode_len(v as int, 7);
    }
    let mut buf: [u8; 8] = [0u8; 8];
    match sleb128_write_into(v, &mut buf) {
        Some(len) => {
            let mut out: Vec<u8> = Vec::new();
            let mut i: usize = 0;
            while i < len
                invariant
                    len <= 8,
                    buf@.len() == 8,
                    i <= len,
                    buf@.take(len as int) == spec_sleb128_encode(v as int),
                    out@ == buf@.take(i as int),
                decreases len - i,
            {
                out.push(buf[i]);
                i = i + 1;
                assert(out@ == buf@.take(i as int));
            }
            out
        },
        None => {
            proof {
                assert(false);
            }
            Vec::new()
        },
    }
}

/// Decodes a signed LEB128 value from the start of `input`.
pub fn leb128_decode(input: &[u8]) -> (r: Result<i64, LEB128DecodeError>)
    ensures
        match r {
            Ok(x) => spec_sleb128_decode(input@) matches Ok((y, _)) && y == x as int,
            Err(e) => spec_sleb128_decode(input@) == Err::<(int, nat), LEB128DecodeError>(e),
        },
{
    match sleb128_read_from(input) {
        Ok((v, _)) => Ok(v),
        Err(e) => Err(e),
    }
}

} // verus!
