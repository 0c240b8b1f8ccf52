//! An allocator that hands out the buckets of one segment.
//!
//! All buckets of a segment have the same size. A bucket is named by its
//! byte distance from the start of the segment's payload, which is a
//! multiple of the bucket size.

use vstd::prelude::*;
use crate::pointer_offset::{MAX_OFFSET, PointerOffset};
use crate::shm_allocator::{Layout, ShmAllocationError};
use iceoryx2_bb_elementary::allocator::AllocationError;

verus! {

/// What a pool allocator is set up with.
#[derive(Debug, Clone, Copy, PartialEq, Eq, Structural)]
pub struct Config {
    pub bucket_layout: Layout,
}

/// Hands out and takes back the buckets of one segment.
pub struct PoolAllocator {
    bucket_layout: Layout,
    max_supported_alignment: usize,
    /// One flag per bucket: whether it is handed out.
    in_use: Vec<bool>,
    /// The buckets that are not handed out; the last one goes out next.
    free: Vec<usize>,
}

impl PoolAllocator {
    /// The indices of the buckets that are handed out.
    pub closed spec fn view(&self) -> Set<int> {
        Set::new(|i: int| 0 <= i < self.in_use.len() && self.in_use[i])
    }

    pub closed spec fn spec_number_of_buckets(&self) -> nat {
        self.in_use.len() as nat
    }

    pub closed spec fn spec_bucket_size(&self) -> nat {
        self.bucket_layout.size as nat
    }

    pub closed spec fn spec_max_alignment(&self) -> nat {
        self.bucket_layout.align as nat
    }

    pub closed spec fn spec_max_supported_alignment(&self) -> nat {
        self.max_supported_alignment as nat
    }

    /// A request that no bucket can serve.
    pub open spec fn spec_exceeds(&self, layout: Layout) -> bool {
        layout.align > self.spec_max_supported_alignment() || layout.align > self.spec_max_alignment()
            || layout.size > self.spec_bucket_size()
    }

    /// The free list and the flags agree, and every bucket has an address
    /// that fits into a word.
    pub closed spec fn wf(&self) -> bool {
        &&& self.bucket_layout.size > 0
        &&& self.in_use.len() * self.bucket_layout.size <= MAX_OFFSET
        &&& self.in_use.len() * self.bucket_layout.size <= usize::MAX
        &&& self.free@.no_duplicates()
        &&& forall|k: int| 0 <= k < self.free.len() ==> 0 <= (#[trigger] self.free[k]) < self.in_use.len()
        &&& forall|i: int|
            0 <= i < self.in_use.len() ==> (!(#[trigger] self.in_use[i]) <==> self.spec_is_free(i))
    }

    /// The bucket `i` is on the free list.
    pub closed spec fn spec_is_free(&self, i: int) -> bool {
        exists|k: int| 0 <= k < self.free.len() && self.free[k] == i
    }

    /// What holds of a well-formed allocator.
    pub proof fn lemma_wf(&self)
        requires
            self.wf(),
        ensures
            self.spec_bucket_size() > 0,
            self.spec_number_of_buckets() * self.spec_bucket_size() <= MAX_OFFSET,
            self.spec_number_of_buckets() * self.spec_bucket_size() <= usize::MAX,
            forall|i: int| #[trigger] self@.contains(i) ==> 0 <= i < self.spec_number_of_buckets(),
    {
    }

    /// An allocator over `payload_size` bytes, cut into as many whole
    /// buckets as fit, none of them handed out.
    pub fn new(max_supported_alignment: usize, payload_size: usize, config: &Config) -> (allocator: PoolAllocator)
        requires
            config.bucket_layout.size > 0,
            payload_size <= MAX_OFFSET,
        ensures
            allocator.wf(),
            allocator@ == Set::<int>::empty(),
            allocator.spec_bucket_size() == config.bucket_layout.size,
            allocator.spec_max_alignment() == config.bucket_layout.align,
            allocator.spec_max_supported_alignment() == max_supported_alignment,
            allocator.spec_number_of_buckets() == payload_size as nat / config.bucket_layout.size as nat,
    {
        let number_of_buckets = payload_size / config.bucket_layout.size;
        proof {
            vstd::arithmetic::div_mod::lemma_fundamental_div_mod(
                payload_size as int,
                config.bucket_layout.size as int,
            );
            assert(number_of_buckets * config.bucket_layout.size <= payload_size) by (nonlinear_arith)
                requires
                    payload_size == config.bucket_layout.size * number_of_buckets + payload_size
                        % config.bucket_layout.size,
                    payload_size % config.bucket_layout.size >= 0,
            ;
        }
        let mut in_use: Vec<bool> = Vec::new();
        let mut free: Vec<usize> = Vec::new();
        let mut i: usize = 0;
        while i < number_of_buckets
            invariant
                i <= number_of_buckets,
                in_use.len() == i,
                free.len() == i,
                forall|j: int| 0 <= j < i ==> !in_use[j],
                forall|j: int| 0 <= j < i ==> free[j] == number_of_buckets - 1 - j,
            decreases number_of_buckets - i,
        {
            in_use.push(false);
            free.push(number_of_buckets - 1 - i);
            i += 1;
        }
        let allocator = PoolAllocator {
            bucket_layout: config.bucket_layout,
            max_supported_alignment,
            in_use,
            free,
        };
        proof {
            assert(allocator@ =~= Set::<int>::empty());
            assert forall|i: int| 0 <= i < allocator.in_use.len() implies !(#[trigger] allocator.in_use[i])
                <==> allocator.spec_is_free(i) by {
                assert(allocator.free[number_of_buckets - 1 - i] == i);
            }
        }
        allocator
    }

    pub fn number_of_buckets(&self) -> (buckets: usize)
        ensures
            buckets == self.spec_number_of_buckets(),
    {
        self.in_use.len()
    }

    pub fn bucket_size(&self) -> (size: usize)
        ensures
            size == self.spec_bucket_size(),
    {
        self.bucket_layout.size
    }

    /// The strictest alignment a request may ask for: that of a bucket.
    pub fn max_alignment(&self) -> (align: usize)
        ensures
            align == self.spec_max_alignment(),
    {
        self.bucket_layout.align
    }

    /// Byte distance of the first bucket from the start of the payload.
    pub fn relative_start_address(&self) -> (address: usize)
        ensures
            address == 0,
    {
        0
    }

    /// Whether the bucket at `offset` is handed out.
    pub fn is_allocated(&self, offset: PointerOffset) -> (allocated: bool)
        requires
            self.wf(),
        ensures
            allocated == (offset.spec_offset() % self.spec_bucket_size() == 0 && self@.contains(
                (offset.spec_offset() / self.spec_bucket_size()) as int,
            )),
    {
        let distance: u64 = offset.as_value() >> 8;
        let size = self.bucket_layout.size as u64;
        if distance % size != 0 {
            return false;
        }
        let index = distance / size;
        if index >= self.in_use.len() as u64 {
            return false;
        }
        self.in_use[index as usize]
    }

    /// Hands out a bucket that was free. A request that no bucket can
    /// serve is refused whether or not a bucket is free.
    pub fn allocate(&mut self, layout: Layout) -> (result: Result<PointerOffset, ShmAllocationError>)
        requires
            old(self).wf(),
        ensures
            final(self).wf(),
            final(self).spec_number_of_buckets() == old(self).spec_number_of_buckets(),
            final(self).spec_bucket_size() == old(self).spec_bucket_size(),
            final(self).spec_max_alignment() == old(self).spec_max_alignment(),
            final(self).spec_max_supported_alignment() == old(self).spec_max_supported_alignment(),
            match result {
                Ok(ptr) => {
                    &&& !old(self).spec_exceeds(layout)
                    &&& ptr.spec_segment_id() == 0
                    &&& ptr.spec_offset() % old(self).spec_bucket_size() == 0
                    &&& ptr.spec_offset() / old(self).spec_bucket_size() < old(self).spec_number_of_buckets()
                    &&& !old(self)@.contains((ptr.spec_offset() / old(self).spec_bucket_size()) as int)
                    &&& final(self)@ == old(self)@.insert((ptr.spec_offset() / old(self).spec_bucket_size()) as int)
                },
                Err(ShmAllocationError::ExceedsMaxSupportedAlignment) => {
                    &&& old(self).spec_exceeds(layout)
                    &&& final(self)@ == old(self)@
                },
                Err(ShmAllocationError::AllocationError(AllocationError::OutOfMemory)) => {
                    &&& !old(self).spec_exceeds(layout)
                    &&& forall|i: int| 0 <= i < old(self).spec_number_of_buckets() ==> old(self)@.contains(i)
                    &&& final(self)@ == old(self)@
                },
                Err(_) => false,
            },
    {
        if layout.align > self.max_supported_alignment || layout.align > self.bucket_layout.align || layout.size
            > self.bucket_layout.size {
            return Err(ShmAllocationError::ExceedsMaxSupportedAlignment);
        }
        match self.free.pop() {
            None => {
                proof {
                    assert forall|i: int| 0 <= i < self.spec_number_of_buckets() implies self@.contains(i) by {
                        if !self.in_use[i] {
                            assert(old(self).spec_is_free(i));
                        }
                    }
                }
                Err(ShmAllocationError::AllocationError(AllocationError::OutOfMemory))
            },
            Some(index) => {
                let ghost popped = old(self).free@;
                assert(popped[popped.len() - 1] == index);
                assert(!old(self).in_use[index as int]) by {
                    assert(old(self).spec_is_free(index as int));
                }
                self.in_use[index] = true;
                proof {
                    assert(self@ =~= old(self)@.insert(index as int));
                    assert(self.free@ =~= popped.take(popped.len() - 1));
                    assert forall|i: int| 0 <= i < self.in_use.len() implies (!(#[trigger] self.in_use[i])
                        <==> self.spec_is_free(i)) by {
                        if i != index {
                            if !old(self).in_use[i] {
                                assert(old(self).spec_is_free(i));
                                let k = choose|k: int| 0 <= k < popped.len() && popped[k] == i;
                                assert(self.free@[k] == i);
                            }
                            if self.spec_is_free(i) {
                                let k = choose|k: int| 0 <= k < self.free.len() && self.free[k] == i;
                                assert(popped[k] == i);
                                assert(old(self).spec_is_free(i));
                            }
                        } else {
                            if self.spec_is_free(i) {
                                let k = choose|k: int| 0 <= k < self.free.len() && self.free[k] == i;
                                assert(popped[k] == popped[popped.len() - 1]);
                            }
                        }
                    }
                    assert(index * self.bucket_layout.size <= self.in_use.len() * self.bucket_layout.size)
                        by (nonlinear_arith)
                        requires
                            index < self.in_use.len(),
                            self.bucket_layout.size > 0,
                    ;
                    crate::zero_copy_connection::lemma_scaled_divides(index as int, self.bucket_layout.size as int);
                }
                let ptr = PointerOffset::new(index * self.bucket_layout.size);
                Ok(ptr)
            },
        }
    }

    /// Takes back the bucket at `offset`, which must be handed out.
    pub fn deallocate(&mut self, offset: PointerOffset, layout: Layout)
        requires
            old(self).wf(),
            offset.spec_offset() % old(self).spec_bucket_size() == 0,
            old(self)@.contains((offset.spec_offset() / old(self).spec_bucket_size()) as int),
        ensures
            final(self).wf(),
            final(self).spec_number_of_buckets() == old(self).spec_number_of_buckets(),
            final(self).spec_bucket_size() == old(self).spec_bucket_size(),
            final(self).spec_max_alignment() == old(self).spec_max_alignment(),
            final(self).spec_max_supported_alignment() == old(self).spec_max_supported_alignment(),
            final(self)@ == old(self)@.remove((offset.spec_offset() / old(self).spec_bucket_size()) as int),
    {
        let index = ((offset.as_value() >> 8) / (self.bucket_layout.size as u64)) as usize;
        self.in_use[index] = false;
        let ghost before = self.free@;
        self.free.push(index);
        proof {
            assert(self@ =~= old(self)@.remove(index as int));
            assert(!old(self).spec_is_free(index as int));
            assert forall|a: int, b: int| 0 <= a < self.free.len() && 0 <= b < self.free.len() && a != b implies self.free[a]
                != self.free[b] by {
                if a < before.len() && b == before.len() {
                    assert(before[a] != index);
                }
                if b < before.len() && a == before.len() {
                    assert(before[b] != index);
                }
            }
            assert forall|i: int| 0 <= i < self.in_use.len() implies (!(#[trigger] self.in_use[i])
                <==> self.spec_is_free(i)) by {
                if i == index {
                    assert(self.free@[before.len() as int] == index);
                } else {
                    if !old(self).in_use[i] {
                        assert(old(self).spec_is_free(i));
                        let k = choose|k: int| 0 <= k < before.len() && before[k] == i;
                        assert(self.free@[k] == i);
                    }
                    if self.spec_is_free(i) {
                        let k = choose|k: int| 0 <= k < self.free.len() && self.free[k] == i;
                        assert(before[k] == i);
                        assert(old(self).spec_is_free(i));
                    }
                }
            }
        }
    }
}

} // verus!
