//! Size, alignment and name of the types a message is made of.

use vstd::prelude::*;
use crate::shm_allocator::Layout;

verus! {

/// Whether the payload has a fixed size or is a slice.
#[derive(Debug, Clone, Copy, PartialEq, Eq, Structural, Hash)]
pub enum TypeVariant {
    FixedSize,
    Dynamic,
}

/// Size, alignment and name of one type.
#[derive(Debug, Clone)]
pub struct TypeDetail {
    pub variant: TypeVariant,
    pub name: String,
    pub size: usize,
    pub alignment: usize,
}

impl TypeDetail {
    pub fn new(variant: TypeVariant, name: String, size: usize, alignment: usize) -> (detail: TypeDetail)
        ensures
            detail.variant == variant,
            detail.name == name,
            detail.size == size,
            detail.alignment == alignment,
    {
        TypeDetail { variant, name, size, alignment }
    }

    /// Two details describe the same type.
    pub open spec fn spec_same(&self, other: &TypeDetail) -> bool {
        &&& self.variant == other.variant
        &&& self.name@ == other.name@
        &&& self.size == other.size
        &&& self.alignment == other.alignment
    }

    pub fn same(&self, other: &TypeDetail) -> (same: bool)
        ensures
            same == self.spec_same(other),
    {
        self.variant == other.variant && self.name == other.name && self.size == other.size
            && self.alignment == other.alignment
    }

    pub fn clone_detail(&self) -> (copy: TypeDetail)
        ensures
            copy.spec_same(self),
    {
        TypeDetail {
            variant: self.variant,
            name: self.name.clone(),
            size: self.size,
            alignment: self.alignment,
        }
    }
}

/// The least multiple of `alignment` that is not below `value`.
pub open spec fn spec_align_to(value: nat, alignment: nat) -> nat {
    if alignment == 0 || value % alignment == 0 {
        value
    } else {
        (value + alignment - value % alignment) as nat
    }
}

/// Rounds `value` up to a multiple of `alignment`, if that is a machine
/// number.
pub fn align_to(value: usize, alignment: usize) -> (aligned: Option<usize>)
    ensures
        match aligned {
            Some(a) => a == spec_align_to(value as nat, alignment as nat),
            None => spec_align_to(value as nat, alignment as nat) > usize::MAX,
        },
{
    if alignment == 0 || value % alignment == 0 {
        Some(value)
    } else {
        value.checked_add(alignment - value % alignment)
    }
}

/// The types a message is made of: the header that the service puts in
/// front, the header of the user, and the payload.
#[derive(Debug, Clone)]
pub struct MessageTypeDetails {
    pub header: TypeDetail,
    pub user_header: TypeDetail,
    pub payload: TypeDetail,
}

impl MessageTypeDetails {
    pub fn from_details(header: TypeDetail, user_header: TypeDetail, payload: TypeDetail) -> (details:
        MessageTypeDetails)
        ensures
            details.header == header,
            details.user_header == user_header,
            details.payload == payload,
    {
        MessageTypeDetails { header, user_header, payload }
    }

    /// Two descriptions name the same three types.
    pub open spec fn spec_same(&self, other: &MessageTypeDetails) -> bool {
        &&& self.header.spec_same(&other.header)
        &&& self.user_header.spec_same(&other.user_header)
        &&& self.payload.spec_same(&other.payload)
    }

    pub fn clone_details(&self) -> (copy: MessageTypeDetails)
        ensures
            copy.spec_same(self),
    {
        MessageTypeDetails {
            header: self.header.clone_detail(),
            user_header: self.user_header.clone_detail(),
            payload: self.payload.clone_detail(),
        }
    }

    /// Byte distance of the user header from the start of a sample.
    pub open spec fn spec_user_header_offset(&self) -> nat {
        spec_align_to(self.header.size as nat, self.user_header.alignment as nat)
    }

    /// Byte distance of the payload from the start of a sample.
    pub open spec fn spec_payload_offset(&self) -> nat {
        spec_align_to((self.spec_user_header_offset() + self.user_header.size) as nat, self.payload.alignment as nat)
    }

    /// Size of a sample with `number_of_elements` payload elements.
    pub open spec fn spec_sample_size(&self, number_of_elements: nat) -> nat {
        (self.spec_payload_offset() + self.payload.size * number_of_elements) as nat
    }

    /// Alignment of a sample: the strictest of its three parts.
    pub open spec fn spec_sample_alignment(&self) -> nat {
        let a = if self.header.alignment >= self.user_header.alignment {
            self.header.alignment
        } else {
            self.user_header.alignment
        };
        if a >= self.payload.alignment {
            a as nat
        } else {
            self.payload.alignment as nat
        }
    }

    /// The layout of a sample with `number_of_elements` payload elements:
    /// the header, the user header and the payload one behind the other,
    /// each at the next position that suits its alignment. `None` if the
    /// size is no machine number.
    pub fn sample_layout(&self, number_of_elements: usize) -> (layout: Option<Layout>)
        ensures
            match layout {
                Some(l) => l.size == self.spec_sample_size(number_of_elements as nat) && l.align
                    == self.spec_sample_alignment(),
                None => self.spec_sample_size(number_of_elements as nat) > usize::MAX,
            },
    {
        let user_header_offset = match align_to(self.header.size, self.user_header.alignment) {
            Some(v) => v,
            None => {
                proof {
                    lemma_align_to_grows(
                        (self.spec_user_header_offset() + self.user_header.size) as nat,
                        self.payload.alignment as nat,
                    );
                    assert(self.payload.size * number_of_elements >= 0) by (nonlinear_arith);
                }
                return None;
            },
        };
        let user_header_end = match user_header_offset.checked_add(self.user_header.size) {
            Some(v) => v,
            None => {
                proof {
                    lemma_align_to_grows(
                        (self.spec_user_header_offset() + self.user_header.size) as nat,
                        self.payload.alignment as nat,
                    );
                    assert(self.payload.size * number_of_elements >= 0) by (nonlinear_arith);
                }
                return None;
            },
        };
        let payload_offset = match align_to(user_header_end, self.payload.alignment) {
            Some(v) => v,
            None => {
                proof {
                    assert(self.payload.size * number_of_elements >= 0) by (nonlinear_arith);
                }
                return None;
            },
        };
        let payload_size = match self.payload.size.checked_mul(number_of_elements) {
            Some(v) => v,
            None => {
                return None;
            },
        };
        let size = match payload_offset.checked_add(payload_size) {
            Some(v) => v,
            None => {
                return None;
            },
        };
        let a = if self.header.alignment >= self.user_header.alignment {
            self.header.alignment
        } else {
            self.user_header.alignment
        };
        let align = if a >= self.payload.alignment { a } else { self.payload.alignment };
        Some(Layout { size, align })
    }

    /// A service with the types `rhs` can be used by a port that asks for
    /// the types `self`: the headers and the payload are the same types,
    /// and the payload of the service is aligned at least as strictly as
    /// asked for.
    pub open spec fn spec_is_compatible_to(&self, rhs: &MessageTypeDetails) -> bool {
        &&& self.header.spec_same(&rhs.header)
        &&& self.user_header.spec_same(&rhs.user_header)
        &&& self.payload.variant == rhs.payload.variant
        &&& self.payload.name@ == rhs.payload.name@
        &&& self.payload.size == rhs.payload.size
        &&& self.payload.alignment <= rhs.payload.alignment
    }

    pub fn is_compatible_to(&self, rhs: &MessageTypeDetails) -> (compatible: bool)
        ensures
            compatible == self.spec_is_compatible_to(rhs),
    {
        self.header.same(&rhs.header) && self.user_header.same(&rhs.user_header) && self.payload.variant
            == rhs.payload.variant && self.payload.name == rhs.payload.name && self.payload.size
            == rhs.payload.size && self.payload.alignment <= rhs.payload.alignment
    }
}

/// Rounding up does not make a number smaller.
pub proof fn lemma_align_to_grows(value: nat, alignment: nat)
    ensures
        spec_align_to(value, alignment) >= value,
{
    if alignment != 0 && value % alignment != 0 {
        assert(value % alignment < alignment) by (nonlinear_arith)
            requires
                alignment > 0,
        ;
    }
}

} // verus!
