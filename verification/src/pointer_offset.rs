//! Segment-relative addresses of buckets, packed into a single machine word.
//!
//! A [`PointerOffset`] names a bucket by the segment it lives in and by its
//! byte distance from the start of that segment's payload. It is the only
//! datum that ever travels through a connection.

use vstd::prelude::*;

verus! {

/// Number of low bits of the packed word that hold the segment id.
pub const SEGMENT_ID_BITS: u64 = 8;

/// Largest byte distance that still fits beside the segment id.
pub const MAX_OFFSET: u64 = 0x00ff_ffff_ffff_ffff;

/// Identifies one segment of a (possibly resizable) data segment.
#[derive(Clone, Copy, Debug, PartialEq, Eq, Structural, Hash)]
pub struct SegmentId(pub u8);

impl SegmentId {
    pub fn new(value: u8) -> (id: SegmentId)
        ensures
            id.0 == value,
    {
        SegmentId(value)
    }

    pub fn value(&self) -> (value: u8)
        ensures
            value == self.0,
    {
        self.0
    }
}

/// The segment id that is packed into `value`.
pub open spec fn spec_segment_of(value: u64) -> u8 {
    (value & 0xff) as u8
}

/// The byte distance that is packed into `value`.
pub open spec fn spec_offset_of(value: u64) -> u64 {
    value >> 8
}

/// The word that packs `offset` and `segment_id`.
pub open spec fn spec_pack(offset: u64, segment_id: u8) -> u64 {
    (offset << 8) | (segment_id as u64)
}

/// Unpacking a packed word gives back both parts, provided the byte distance
/// leaves room for the segment id.
pub proof fn lemma_pack_unpack(offset: u64, segment_id: u8)
    requires
        offset <= MAX_OFFSET,
    ensures
        spec_offset_of(spec_pack(offset, segment_id)) == offset,
        spec_segment_of(spec_pack(offset, segment_id)) == segment_id,
{
    assert((((offset << 8) | (segment_id as u64)) >> 8) == offset) by (bit_vector)
        requires
            offset <= 0x00ff_ffff_ffff_ffffu64,
    ;
    assert(((((offset << 8) | (segment_id as u64)) & 0xff) as u8) == segment_id) by (bit_vector);
}

/// Packing the two parts of a word gives back the word.
pub proof fn lemma_unpack_pack(value: u64)
    ensures
        spec_pack(spec_offset_of(value), spec_segment_of(value)) == value,
        spec_offset_of(value) <= MAX_OFFSET,
{
    assert((((value >> 8) << 8) | (((value & 0xff) as u8) as u64)) == value) by (bit_vector);
    assert((value >> 8) <= 0x00ff_ffff_ffff_ffffu64) by (bit_vector);
}

/// A bucket address: segment id and byte distance, in one word.
#[derive(Clone, Copy, Debug, PartialEq, Eq, Structural, Hash)]
pub struct PointerOffset(pub u64);

impl PointerOffset {
    pub open spec fn spec_offset(&self) -> nat {
        spec_offset_of(self.0) as nat
    }

    pub open spec fn spec_segment_id(&self) -> u8 {
        spec_segment_of(self.0)
    }

    /// Address of the bucket at `offset` in segment zero.
    pub fn new(offset: usize) -> (ptr: PointerOffset)
        requires
            offset <= MAX_OFFSET,
        ensures
            ptr.0 == spec_pack(offset as u64, 0),
            ptr.spec_offset() == offset,
            ptr.spec_segment_id() == 0,
    {
        proof {
            lemma_pack_unpack(offset as u64, 0);
        }
        PointerOffset((offset as u64) << 8 | 0u64)
    }

    /// Address of the bucket at `offset` in the segment `segment_id`.
    pub fn from_offset_and_segment_id(offset: usize, segment_id: SegmentId) -> (ptr: PointerOffset)
        requires
            offset <= MAX_OFFSET,
        ensures
            ptr.0 == spec_pack(offset as u64, segment_id.0),
            ptr.spec_offset() == offset,
            ptr.spec_segment_id() == segment_id.0,
    {
        proof {
            lemma_pack_unpack(offset as u64, segment_id.0);
        }
        PointerOffset((offset as u64) << 8 | (segment_id.0 as u64))
    }

    /// Reads an address back from the word that a channel carried.
    pub fn from_value(value: u64) -> (ptr: PointerOffset)
        ensures
            ptr.0 == value,
    {
        PointerOffset(value)
    }

    /// The word that goes onto a channel.
    pub fn as_value(&self) -> (value: u64)
        ensures
            value == self.0,
    {
        self.0
    }

    /// Replaces the segment id and keeps the byte distance.
    pub fn set_segment_id(&mut self, value: SegmentId)
        ensures
            final(self).spec_offset() == old(self).spec_offset(),
            final(self).spec_segment_id() == value.0,
            final(self).0 == spec_pack(spec_offset_of(old(self).0), value.0),
    {
        let raw: u64 = self.0;
        let id: u8 = value.0;
        proof {
            assert((raw >> 8) <= 0x00ff_ffff_ffff_ffffu64) by (bit_vector);
            lemma_pack_unpack(raw >> 8, id);
            assert(((raw & 0xffff_ffff_ffff_ff00u64) | (id as u64)) == (((raw >> 8) << 8) | (id as u64)))
                by (bit_vector);
        }
        self.0 = (raw & 0xffff_ffff_ffff_ff00u64) | (id as u64);
    }

    /// Byte distance from the start of the segment's payload.
    pub fn offset(&self) -> (offset: usize)
        requires
            self.spec_offset() <= usize::MAX,
        ensures
            offset == self.spec_offset(),
    {
        (self.0 >> 8) as usize
    }

    /// The segment that the bucket lives in.
    pub fn segment_id(&self) -> (id: SegmentId)
        ensures
            id.0 == self.spec_segment_id(),
    {
        SegmentId((self.0 & 0xff) as u8)
    }
}

} // verus!
