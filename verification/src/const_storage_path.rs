//! The constant storage paths of a contract, laid out at the end of its
//! global data.

use vstd::prelude::*;
use indexmap::IndexMap;
use rand::AsByteSliceMut;

verus! {

/// `indexmap::IndexMap`, a map that keeps its insertion order, held opaque.
#[verifier::external_type_specification]
#[verifier::external_body]
#[verifier::reject_recursive_types(K)]
#[verifier::reject_recursive_types(V)]
#[verifier::reject_recursive_types(S)]
pub struct ExIndexMap<K, V, S>(indexmap::IndexMap<K, V, S>);

/// The entries of a map from constant storage paths to their offsets, in
/// insertion order.
pub uninterp spec fn path_map_entries(m: IndexMap<Vec<u32>, u32>) -> Seq<(Seq<u32>, u32)>;

/// An empty map, made with `IndexMap::new`.
#[verifier::external_body]
fn new_path_map() -> (m: IndexMap<Vec<u32>, u32>)
    ensures
        path_map_entries(m) == Seq::<(Seq<u32>, u32)>::empty(),
{
    IndexMap::new()
}

/// The offsets of the map's entries in insertion order, read with
/// `IndexMap::values`.
#[verifier::external_body]
fn path_map_offsets(m: &IndexMap<Vec<u32>, u32>) -> (r: Vec<u32>)
    ensures
        r@ == path_map_entries(*m).map_values(|e: (Seq<u32>, u32)| e.1),
{
    m.values().copied().collect()
}

/// The offsets of the map's entries, in insertion order.
pub open spec fn path_offsets(m: IndexMap<Vec<u32>, u32>) -> Seq<u32> {
    path_map_entries(m).map_values(|e: (Seq<u32>, u32)| e.1)
}

/// The four bytes of `x`, most significant first where `big_endian`, else
/// least significant first.
pub open spec fn u32_bytes(x: u32, big_endian: bool) -> Seq<u8> {
    let b0 = (x % 0x100) as u8;
    let b1 = ((x / 0x100) % 0x100) as u8;
    let b2 = ((x / 0x1_0000) % 0x100) as u8;
    let b3 = (x / 0x100_0000) as u8;
    if big_endian {
        seq![b3, b2, b1, b0]
    } else {
        seq![b0, b1, b2, b3]
    }
}

/// The bytes of each number in turn, all in one byte order.
pub open spec fn u32s_bytes(s: Seq<u32>, big_endian: bool) -> Seq<u8>
    decreases s.len(),
{
    if s.len() == 0 {
        Seq::empty()
    } else {
        u32s_bytes(s.drop_last(), big_endian) + u32_bytes(s.last(), big_endian)
    }
}

/// The bytes of the numbers in the machine's byte order, taken with
/// `rand::AsByteSliceMut::as_byte_slice_mut`, which views the numbers'
/// memory as bytes. Claims that the bytes are each number's four bytes in
/// turn, in one byte order, big- or little-endian: which one is the
/// machine's and is left open.
#[verifier::external_body]
fn u32s_as_bytes(v: &mut Vec<u32>) -> (r: Vec<u8>)
    ensures
        exists|big_endian: bool| r@ == #[trigger] u32s_bytes(old(v)@, big_endian),
        r@.len() == 4 * old(v)@.len(),
        final(v)@ == old(v)@,
{
    v.as_mut_slice().as_byte_slice_mut().to_vec()
}

/// Collects the constant storage paths of a contract: their bytes and, by
/// path, the offset of each.
pub struct ConstStoragePathGenerator {
    pub const_storage_path_bytes: Vec<u8>,
    pub const_storage_path_objs: IndexMap<Vec<u32>, u32>,
}

impl ConstStoragePathGenerator {
    /// A generator with no bytes and no paths.
    pub fn new() -> (g: ConstStoragePathGenerator)
        ensures
            g.const_storage_path_bytes@.len() == 0,
            path_map_entries(g.const_storage_path_objs) == Seq::<(Seq<u32>, u32)>::empty(),
    {
        ConstStoragePathGenerator { const_storage_path_bytes: Vec::new(), const_storage_path_objs: new_path_map() }
    }

    /// The name of the global that holds the constant storage paths.
    pub fn get_const_storage_path_global_name(&self) -> (s: String)
        ensures
            s@ == "const_storage_paths"@,
    {
        String::from_str("const_storage_paths")
    }

    /// Puts the offsets of all paths, in insertion order and four bytes
    /// each in the machine's byte order, at the end of the bytes, and
    /// returns where the list starts and how many offsets it holds, each
    /// truncated to 32 bits.
    pub fn finalize_const_storage_path_data(&mut self) -> (r: (u32, u32))
        ensures
            exists|big_endian: bool|
                final(self).const_storage_path_bytes@ == old(self).const_storage_path_bytes@ + #[trigger] u32s_bytes(
                    path_offsets(old(self).const_storage_path_objs),
                    big_endian,
                ),
            final(self).const_storage_path_objs == old(self).const_storage_path_objs,
            final(self).const_storage_path_bytes@.len() == old(self).const_storage_path_bytes@.len() + 4
                * path_map_entries(old(self).const_storage_path_objs).len(),
            final(self).const_storage_path_bytes@.take(old(self).const_storage_path_bytes@.len() as int)
                == old(self).const_storage_path_bytes@,
            r.0 == old(self).const_storage_path_bytes@.len() as u32,
            r.1 == path_map_entries(old(self).const_storage_path_objs).len() as u32,
    {
        let mut csp_list = path_map_offsets(&self.const_storage_path_objs);
        let n = csp_list.len();
        let csp_list_offset = self.const_storage_path_bytes.len();
        let ghost offsets = csp_list@;
        let bytes = u32s_as_bytes(&mut csp_list);
        let mut i: usize = 0;
        assert(bytes@.take(0) =~= Seq::<u8>::empty());
        assert(self.const_storage_path_bytes@ =~= self.const_storage_path_bytes@ + bytes@.take(0));
        let ghost start = self.const_storage_path_bytes@;
        while i < bytes.len()
            invariant
                i <= bytes@.len(),
                self.const_storage_path_bytes@ == start + bytes@.take(i as int),
                self.const_storage_path_bytes@.len() == start.len() + i,
                self.const_storage_path_bytes@.take(start.len() as int) == start,
                self.const_storage_path_objs == old(self).const_storage_path_objs,
                start == old(self).const_storage_path_bytes@,
            decreases bytes@.len() - i,
        {
            self.const_storage_path_bytes.push(bytes[i]);
            assert(self.const_storage_path_bytes@.take(start.len() as int) =~= start);
            assert(start + bytes@.take(i + 1) =~= (start + bytes@.take(i as int)).push(bytes@[i as int]));
            i = i + 1;
        }
        assert(bytes@.take(bytes@.len() as int) =~= bytes@);
        proof {
            let big = choose|b: bool| bytes@ == #[trigger] u32s_bytes(offsets, b);
            assert(offsets == path_offsets(old(self).const_storage_path_objs));
            assert(self.const_storage_path_bytes@ == old(self).const_storage_path_bytes@ + u32s_bytes(
                path_offsets(old(self).const_storage_path_objs),
                big,
            ));
        }
        (offset_u32(csp_list_offset), offset_u32(n))
    }
}

/// `n` truncated to 32 bits.
fn offset_u32(n: usize) -> (r: u32)
    ensures
        r == n as u32,
{
    #[verifier::truncate]
    (n as u32)
}

} // verus!
