//! Entities that live in host memory and are named by opaque handles.

pub mod allocator;
pub mod model;

use vstd::prelude::*;

verus! {

/// Number of distinct values of one 32-bit half of a handle.
pub open spec fn half_range() -> int {
    0x1_0000_0000
}

/// The 64-bit wire value of the pair `(id, index)`: the id fills the low
/// word and the index the high word.
pub open spec fn encode(id: u32, index: u32) -> u64 {
    (id as int + index as int * half_range()) as u64
}

/// The generation id carried by a 64-bit wire value.
pub open spec fn id_of(bits: u64) -> u32 {
    (bits as int % half_range()) as u32
}

/// The slot index carried by a 64-bit wire value.
pub open spec fn index_of(bits: u64) -> u32 {
    (bits as int / half_range()) as u32
}

/// A wire value names an entity only if neither half is the null sentinel.
pub open spec fn well_formed(bits: u64) -> bool {
    id_of(bits) != 0 && index_of(bits) != 0
}

/// An opaque reference to an entity: a generation id and a slot index
/// packed into one 64-bit value.
#[derive(Debug, Clone, Copy, PartialEq, Eq, Hash, Structural)]
pub struct Handle {
    bits: u64,
}

impl Handle {
    /// The wire value of this handle.
    pub closed spec fn spec_bits(&self) -> u64 {
        self.bits
    }

    /// The handle whose wire value is `bits`.
    pub closed spec fn of_bits(bits: u64) -> Handle {
        Handle { bits }
    }

    /// The generation id of this handle.
    pub open spec fn spec_id(&self) -> u32 {
        id_of(self.spec_bits())
    }

    /// The slot index of this handle.
    pub open spec fn spec_index(&self) -> u32 {
        index_of(self.spec_bits())
    }

    /// Decodes a wire value, rejecting it when either half is zero.
    pub fn from_bits(bits: u64) -> (decoded: Option<Self>)
        ensures
            decoded is Some <==> well_formed(bits),
            decoded is Some ==> decoded->0 == Handle::of_bits(bits),
            decoded is Some ==> decoded->0.spec_bits() == bits,
    {
        let id: u32 = Self::bits_to_id(bits);
        let idx: u32 = Self::bits_to_index(bits);
        if id == 0 {
            return None;
        }
        if idx == 0 {
            return None;
        }
        proof {
            lemma_encode_decode(bits);
        }
        Some(Self::new(id, idx))
    }

    /// Packs a nonzero id and a nonzero index into a handle.
    pub fn new(id: u32, index: u32) -> (handle: Self)
        requires
            id != 0,
            index != 0,
        ensures
            handle == Handle::of_bits(encode(id, index)),
            handle.spec_bits() == encode(id, index),
            handle.spec_id() == id,
            handle.spec_index() == index,
    {
        proof {
            lemma_pack(id, index);
            lemma_decode_encode(id, index);
        }
        Self { bits: (id as u64) | ((index as u64) << 32) }
    }

    /// The handle made from a wire value carries that value.
    pub proof fn lemma_of_bits(bits: u64)
        ensures
            Handle::of_bits(bits).spec_bits() == bits,
    {
    }

    /// Every handle is the one made from its own wire value.
    pub proof fn lemma_of_own_bits(handle: Handle)
        ensures
            Handle::of_bits(handle.spec_bits()) == handle,
    {
    }

    #[verifier::when_used_as_spec(spec_bits)]
    pub fn bits(&self) -> (bits: u64)
        ensures
            bits == self.spec_bits(),
    {
        self.bits
    }

    #[verifier::when_used_as_spec(spec_id)]
    pub fn id(&self) -> (id: u32)
        ensures
            id == self.spec_id(),
    {
        Self::bits_to_id(self.bits)
    }

    #[verifier::when_used_as_spec(spec_index)]
    pub fn index(&self) -> (index: u32)
        ensures
            index == self.spec_index(),
    {
        Self::bits_to_index(self.bits)
    }

    /// The high word of a wire value.
    pub fn bits_to_index(bits: u64) -> (index: u32)
        ensures
            index == index_of(bits),
    {
        assert((bits >> 32) == bits / 0x1_0000_0000) by (bit_vector);
        assert(bits / 0x1_0000_0000 <= 0xffff_ffff) by (bit_vector);
        (bits >> 32) as u32
    }

    /// The low word of a wire value.
    pub fn bits_to_id(bits: u64) -> (id: u32)
        ensures
            id == id_of(bits),
    {
        assert((bits & 0xffff_ffff) == bits % 0x1_0000_0000) by (bit_vector);
        (bits & 0xffff_ffff) as u32
    }
}

/// The shift-and-or packing computes the arithmetic encoding.
proof fn lemma_pack(id: u32, index: u32)
    ensures
        (id as u64) | ((index as u64) << 32) == encode(id, index),
{
    assert((id as u64) | ((index as u64) << 32) == (id as u64) + (index as u64) * 0x1_0000_0000)
        by (bit_vector);
}

/// A handle is determined by its wire value, and so by its two halves.
pub proof fn lemma_handle_eq(a: Handle, b: Handle)
    ensures
        a.spec_bits() == b.spec_bits() ==> a == b,
        a.spec_id() == b.spec_id() && a.spec_index() == b.spec_index() ==> a == b,
{
    lemma_encode_decode(a.spec_bits());
    lemma_encode_decode(b.spec_bits());
}

/// Decoding an encoded pair gives the pair back.
pub proof fn lemma_decode_encode(id: u32, index: u32)
    ensures
        id_of(encode(id, index)) == id,
        index_of(encode(id, index)) == index,
{
}

/// Encoding the two halves of a wire value gives the value back.
pub proof fn lemma_encode_decode(bits: u64)
    ensures
        encode(id_of(bits), index_of(bits)) == bits,
{
}

} // verus!
