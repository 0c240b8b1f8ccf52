//! The payload memory of a publisher.
//!
//! A data segment is a family of segments of equally sized buckets. A
//! static data segment has one segment for good. A dynamic one starts with
//! one segment and adds a segment with larger buckets whenever a request
//! does not fit into the buckets of the newest one; requests are always
//! served from the newest segment. A bucket is addressed by the id of its
//! segment and its byte distance from the start of that segment, so the
//! address means the same in every process that maps the memory.

use vstd::prelude::*;
use crate::pointer_offset::{MAX_OFFSET, PointerOffset, SegmentId};
use crate::pool_allocator::{Config, PoolAllocator};
use crate::shm_allocator::{AllocationStrategy, Layout, ShmAllocationError};
use iceoryx2_bb_elementary::allocator::AllocationError;

verus! {

/// Number of times the memory of a dynamic data segment can be laid out
/// anew, the first layout included.
pub const MAX_NUMBER_OF_REALLOCATIONS: usize = 256;

/// Whether a data segment may grow.
#[derive(Debug, Clone, Copy, Eq, PartialEq, Structural)]
pub enum DataSegmentType {
    Dynamic,
    Static,
}

impl DataSegmentType {
    pub open spec fn spec_from_allocation_strategy(v: AllocationStrategy) -> DataSegmentType {
        match v {
            AllocationStrategy::Static => DataSegmentType::Static,
            _ => DataSegmentType::Dynamic,
        }
    }

    /// A data segment is static exactly if its allocation strategy is.
    pub fn new_from_allocation_strategy(v: AllocationStrategy) -> (segment_type: DataSegmentType)
        ensures
            segment_type == Self::spec_from_allocation_strategy(v),
    {
        match v {
            AllocationStrategy::Static => DataSegmentType::Static,
            _ => DataSegmentType::Dynamic,
        }
    }

    /// Greatest number of segments a data segment of this type can have.
    /// It leaves every segment id within a byte.
    pub open spec fn spec_max_number_of_segments(self) -> u8 {
        match self {
            DataSegmentType::Static => 1,
            DataSegmentType::Dynamic => 255,
        }
    }
}

/// Why the memory of a data segment could not be created.
#[derive(Debug, Clone, Copy, Eq, PartialEq, Structural)]
pub enum SharedMemoryCreateError {
    AlreadyExists,
    SizeIsZero,
    InsufficientPermissions,
    InternalError,
}

/// Why the memory of a data segment could not be opened.
#[derive(Debug, Clone, Copy, Eq, PartialEq, Structural)]
pub enum SharedMemoryOpenError {
    DoesNotExist,
    SizeIsZero,
    SizeDoesNotFit,
    InsufficientPermissions,
    WrongVersion,
    InitializationNotYetFinalized,
    InternalError,
}

/// The mathematical content of a data segment.
#[verifier::ext_equal]
pub struct DataSegmentModel {
    /// Per segment, the size of its buckets.
    pub bucket_sizes: Seq<nat>,
    /// Per segment, the alignment of its buckets.
    pub bucket_alignments: Seq<nat>,
    /// Per segment, the indices of the buckets that are handed out.
    pub allocated: Seq<Set<int>>,
    /// Number of buckets of every segment.
    pub number_of_samples: nat,
    pub segment_type: DataSegmentType,
    pub allocation_strategy: AllocationStrategy,
}

impl DataSegmentModel {
    pub open spec fn well_formed(&self) -> bool {
        &&& 1 <= self.bucket_sizes.len() <= self.segment_type.spec_max_number_of_segments()
        &&& self.number_of_samples >= 1
        &&& self.allocated.len() == self.bucket_sizes.len()
        &&& self.bucket_alignments.len() == self.bucket_sizes.len()
        &&& forall|s: int|
            0 <= s < self.bucket_sizes.len() ==> {
                &&& (#[trigger] self.bucket_sizes[s]) > 0
                &&& self.number_of_samples * self.bucket_sizes[s] <= MAX_OFFSET
            }
        &&& forall|s: int, i: int|
            0 <= s < self.allocated.len() && #[trigger] self.allocated[s].contains(i) ==> 0 <= i
                < self.number_of_samples
    }

    /// Buckets of the given size can be laid out and addressed.
    pub open spec fn spec_can_lay_out(&self, size: nat) -> bool {
        self.number_of_samples * size <= MAX_OFFSET && self.number_of_samples * size <= usize::MAX
    }

    /// The newest segment, which serves the requests.
    pub open spec fn spec_newest(&self) -> int {
        self.bucket_sizes.len() - 1
    }

    /// The request fits into a bucket of the newest segment.
    pub open spec fn spec_fits(&self, layout: Layout) -> bool {
        &&& layout.size <= self.bucket_sizes[self.spec_newest()]
        &&& layout.align <= self.bucket_alignments[self.spec_newest()]
    }

    /// The bucket that `ptr` names is handed out.
    pub open spec fn spec_is_allocated(&self, ptr: PointerOffset) -> bool {
        let segment = ptr.spec_segment_id() as int;
        &&& segment < self.bucket_sizes.len()
        &&& ptr.spec_offset() % self.bucket_sizes[segment] == 0
        &&& self.allocated[segment].contains((ptr.spec_offset() / self.bucket_sizes[segment]) as int)
    }

    /// The layout of the buckets of the segment that is added for a
    /// request that does not fit: large enough for the request and for
    /// everything that fitted before.
    pub open spec fn spec_grown_layout(&self, layout: Layout) -> (nat, nat) {
        let size = if layout.size as nat > self.bucket_sizes[self.spec_newest()] {
            layout.size as nat
        } else {
            self.bucket_sizes[self.spec_newest()]
        };
        let align = if layout.align as nat > self.bucket_alignments[self.spec_newest()] {
            layout.align as nat
        } else {
            self.bucket_alignments[self.spec_newest()]
        };
        (
            match self.allocation_strategy {
                AllocationStrategy::PowerOfTwo => spec_next_power_of_two(size),
                _ => size,
            },
            align,
        )
    }

    /// The content after a segment with buckets of the given layout was
    /// added.
    pub open spec fn spec_grown(self, size: nat, align: nat) -> DataSegmentModel {
        DataSegmentModel {
            bucket_sizes: self.bucket_sizes.push(size),
            bucket_alignments: self.bucket_alignments.push(align),
            allocated: self.allocated.push(Set::empty()),
            ..self
        }
    }

    /// The content after the bucket `index` of `segment` was handed out.
    pub open spec fn spec_with(self, segment: int, index: int) -> DataSegmentModel {
        DataSegmentModel { allocated: self.allocated.update(segment, self.allocated[segment].insert(index)), ..self }
    }

    /// The content after the bucket `index` of `segment` was taken back.
    pub open spec fn spec_without(self, segment: int, index: int) -> DataSegmentModel {
        DataSegmentModel { allocated: self.allocated.update(segment, self.allocated[segment].remove(index)), ..self }
    }

    /// Both hold the same segments with the same buckets; which of the
    /// buckets are handed out may differ.
    pub open spec fn spec_same_layout(&self, other: DataSegmentModel) -> bool {
        &&& self.bucket_sizes == other.bucket_sizes
        &&& self.bucket_alignments == other.bucket_alignments
        &&& self.number_of_samples == other.number_of_samples
        &&& self.segment_type == other.segment_type
        &&& self.allocation_strategy == other.allocation_strategy
    }

    /// Every bucket of the newest segment is handed out.
    pub open spec fn spec_newest_is_full(&self) -> bool {
        forall|i: int| 0 <= i < self.number_of_samples ==> self.allocated[self.spec_newest()].contains(i)
    }
}

/// The least power of two that is not below `n`.
pub open spec fn spec_next_power_of_two(n: nat) -> nat
    decreases n,
{
    if n <= 1 {
        1
    } else {
        2 * spec_next_power_of_two(((n + 1) / 2) as nat)
    }
}

/// Doubling a number that is not below half of `n`, rounded up, gives one
/// that is not below `n`.
proof fn lemma_next_power_of_two_bounds(n: nat)
    ensures
        spec_next_power_of_two(n) >= n,
        spec_next_power_of_two(n) >= 1,
        n >= 1 ==> spec_next_power_of_two(n) < 2 * n,
    decreases n,
{
    if n > 1 {
        lemma_next_power_of_two_bounds(((n + 1) / 2) as nat);
    }
}

/// Computes the least power of two that is not below `n`, if it fits.
fn next_power_of_two(n: usize) -> (p: Option<usize>)
    ensures
        match p {
            Some(p) => p == spec_next_power_of_two(n as nat),
            None => spec_next_power_of_two(n as nat) > usize::MAX,
        },
    decreases n,
{
    if n <= 1 {
        Some(1)
    } else {
        let half = n / 2 + n % 2;
        assert(half == (n + 1) / 2);
        match next_power_of_two(half) {
            None => None,
            Some(p) => if p > usize::MAX / 2 {
                None
            } else {
                Some(2 * p)
            },
        }
    }
}

/// The payload memory of a publisher.
pub struct DataSegment {
    segment_type: DataSegmentType,
    allocation_strategy: AllocationStrategy,
    number_of_samples: usize,
    segments: Vec<PoolAllocator>,
}

impl DataSegment {
    pub closed spec fn view(&self) -> DataSegmentModel {
        DataSegmentModel {
            bucket_sizes: Seq::new(self.segments.len() as nat, |s: int| self.segments[s].spec_bucket_size()),
            bucket_alignments: Seq::new(self.segments.len() as nat, |s: int| self.segments[s].spec_max_alignment()),
            allocated: Seq::new(self.segments.len() as nat, |s: int| self.segments[s]@),
            number_of_samples: self.number_of_samples as nat,
            segment_type: self.segment_type,
            allocation_strategy: self.allocation_strategy,
        }
    }

    pub closed spec fn wf(&self) -> bool {
        &&& self@.well_formed()
        &&& forall|s: int|
            0 <= s < self.segments.len() ==> {
                &&& (#[trigger] self.segments[s]).wf()
                &&& self.segments[s].spec_number_of_buckets() == self.number_of_samples
                &&& self.segments[s].spec_max_supported_alignment() == self.segments[s].spec_max_alignment()
            }
    }

    /// What well-formedness of a data segment says about its content.
    pub proof fn lemma_wf_view(&self)
        requires
            self.wf(),
        ensures
            self@.well_formed(),
    {
    }

    /// Greatest number of segments a data segment of the given type can
    /// have.
    pub fn max_number_of_segments(data_segment_type: DataSegmentType) -> (segments: u8)
        ensures
            segments == data_segment_type.spec_max_number_of_segments(),
    {
        match data_segment_type {
            DataSegmentType::Static => 1,
            DataSegmentType::Dynamic => (MAX_NUMBER_OF_REALLOCATIONS - 1) as u8,
        }
    }

    /// Lays out one segment of `number_of_samples` buckets.
    fn new_segment(number_of_samples: usize, bucket_layout: Layout) -> (segment: Option<PoolAllocator>)
        ensures
            segment.is_some() == (bucket_layout.size > 0 && number_of_samples * bucket_layout.size <= MAX_OFFSET
                && number_of_samples * bucket_layout.size <= usize::MAX),
            match segment {
                Some(pool) => {
                    &&& pool.wf()
                    &&& pool@ == Set::<int>::empty()
                    &&& pool.spec_bucket_size() == bucket_layout.size
                    &&& pool.spec_max_alignment() == bucket_layout.align
                    &&& pool.spec_max_supported_alignment() == bucket_layout.align
                    &&& pool.spec_number_of_buckets() == number_of_samples
                },
                None => true,
            },
    {
        if bucket_layout.size == 0 {
            return None;
        }
        let payload_size = match number_of_samples.checked_mul(bucket_layout.size) {
            Some(size) => size,
            None => {
                return None;
            },
        };
        if payload_size as u64 > MAX_OFFSET {
            return None;
        }
        proof {
            crate::zero_copy_connection::lemma_scaled_divides(number_of_samples as int, bucket_layout.size as int);
        }
        Some(PoolAllocator::new(bucket_layout.align, payload_size, &Config { bucket_layout }))
    }

    /// A data segment with one segment of `number_of_samples` buckets of
    /// the layout `sample_layout`, none of them handed out.
    pub fn create(
        data_segment_type: DataSegmentType,
        number_of_samples: usize,
        sample_layout: Layout,
        allocation_strategy: AllocationStrategy,
    ) -> (result: Result<DataSegment, SharedMemoryCreateError>)
        ensures
            match result {
                Ok(segment) => {
                    &&& segment.wf()
                    &&& sample_layout.size > 0
                    &&& number_of_samples > 0
                    &&& number_of_samples * sample_layout.size <= MAX_OFFSET
                    &&& number_of_samples * sample_layout.size <= usize::MAX
                    &&& segment@ == (DataSegmentModel {
                        bucket_sizes: seq![sample_layout.size as nat],
                        bucket_alignments: seq![sample_layout.align as nat],
                        allocated: seq![Set::<int>::empty()],
                        number_of_samples: number_of_samples as nat,
                        segment_type: data_segment_type,
                        allocation_strategy,
                    })
                },
                Err(e) => {
                    &&& e == if sample_layout.size == 0 || number_of_samples == 0 {
                        SharedMemoryCreateError::SizeIsZero
                    } else {
                        SharedMemoryCreateError::InternalError
                    }
                    &&& (sample_layout.size == 0 || number_of_samples == 0 || number_of_samples
                        * sample_layout.size > MAX_OFFSET || number_of_samples * sample_layout.size > usize::MAX)
                },
            },
    {
        if sample_layout.size == 0 || number_of_samples == 0 {
            return Err(SharedMemoryCreateError::SizeIsZero);
        }
        match Self::new_segment(number_of_samples, sample_layout) {
            None => Err(SharedMemoryCreateError::InternalError),
            Some(pool) => {
                let mut segments: Vec<PoolAllocator> = Vec::new();
                segments.push(pool);
                let segment = DataSegment {
                    segment_type: data_segment_type,
                    allocation_strategy,
                    number_of_samples,
                    segments,
                };
                proof {
                    let expected = DataSegmentModel {
                        bucket_sizes: seq![sample_layout.size as nat],
                        bucket_alignments: seq![sample_layout.align as nat],
                        allocated: seq![Set::<int>::empty()],
                        number_of_samples: number_of_samples as nat,
                        segment_type: data_segment_type,
                        allocation_strategy,
                    };
                    assert(segment@.bucket_sizes =~= expected.bucket_sizes);
                    assert(segment@.bucket_alignments =~= expected.bucket_alignments);
                    assert(segment@.allocated =~= expected.allocated);
                    assert(segment@ =~= expected);
                }
                Ok(segment)
            },
        }
    }

    /// Number of segments the data segment has at present.
    pub fn number_of_segments(&self) -> (segments: usize)
        ensures
            segments == self@.bucket_sizes.len(),
    {
        self.segments.len()
    }

    /// Size of the buckets of the segment `segment_id`.
    pub fn bucket_size(&self, segment_id: SegmentId) -> (size: usize)
        requires
            segment_id.0 < self@.bucket_sizes.len(),
        ensures
            size == self@.bucket_sizes[segment_id.0 as int],
    {
        self.segments[segment_id.value() as usize].bucket_size()
    }

    /// Whether the bucket that `offset` names is handed out.
    pub fn is_allocated(&self, offset: PointerOffset) -> (allocated: bool)
        requires
            self.wf(),
        ensures
            allocated == self@.spec_is_allocated(offset),
    {
        let segment = offset.segment_id().value() as usize;
        if segment >= self.segments.len() {
            return false;
        }
        self.segments[segment].is_allocated(offset)
    }

    /// Takes back the bucket that `offset` names, which must be handed
    /// out.
    pub fn deallocate_bucket(&mut self, offset: PointerOffset)
        requires
            old(self).wf(),
            old(self)@.spec_is_allocated(offset),
        ensures
            final(self).wf(),
            final(self)@ == old(self)@.spec_without(
                offset.spec_segment_id() as int,
                (offset.spec_offset() / old(self)@.bucket_sizes[offset.spec_segment_id() as int]) as int,
            ),
    {
        let segment = offset.segment_id().value() as usize;
        let layout = Layout { size: self.segments[segment].bucket_size(), align: self.segments[segment].max_alignment() };
        proof {
            old(self).segments[segment as int].lemma_wf();
        }
        self.segments[segment].deallocate(offset, layout);
        proof {
            let expected = old(self)@.spec_without(
                segment as int,
                (offset.spec_offset() / old(self)@.bucket_sizes[segment as int]) as int,
            );
            assert(self@.bucket_sizes =~= expected.bucket_sizes);
            assert(self@.bucket_alignments =~= expected.bucket_alignments);
            assert(self@.allocated =~= expected.allocated);
            assert(self@ =~= expected);
            assert forall|s: int, i: int| 0 <= s < self@.allocated.len() && #[trigger] self@.allocated[s].contains(
                i,
            ) implies 0 <= i < self@.number_of_samples by {
                assert(old(self)@.allocated[s].contains(i));
            }
        }
    }

    /// Hands out a bucket of the segment `segment`.
    fn allocate_from(&mut self, segment: usize, layout: Layout) -> (result: Result<PointerOffset, ShmAllocationError>)
        requires
            old(self).wf(),
            segment < old(self)@.bucket_sizes.len(),
        ensures
            final(self).wf(),
            match result {
                Ok(ptr) => {
                    &&& ptr.spec_segment_id() == segment
                    &&& ptr.spec_offset() % old(self)@.bucket_sizes[segment as int] == 0
                    &&& ptr.spec_offset() / old(self)@.bucket_sizes[segment as int] < old(self)@.number_of_samples
                    &&& !old(self)@.spec_is_allocated(ptr)
                    &&& layout.size <= old(self)@.bucket_sizes[segment as int]
                    &&& layout.align <= old(self)@.bucket_alignments[segment as int]
                    &&& final(self)@ == old(self)@.spec_with(
                        segment as int,
                        (ptr.spec_offset() / old(self)@.bucket_sizes[segment as int]) as int,
                    )
                },
                Err(ShmAllocationError::ExceedsMaxSupportedAlignment) => {
                    &&& (layout.size > old(self)@.bucket_sizes[segment as int] || layout.align > old(
                        self,
                    )@.bucket_alignments[segment as int])
                    &&& final(self)@ == old(self)@
                },
                Err(ShmAllocationError::AllocationError(AllocationError::OutOfMemory)) => {
                    &&& layout.size <= old(self)@.bucket_sizes[segment as int]
                    &&& layout.align <= old(self)@.bucket_alignments[segment as int]
                    &&& forall|i: int| 0 <= i < old(self)@.number_of_samples ==> old(self)@.allocated[segment as int].contains(i)
                    &&& final(self)@ == old(self)@
                },
                Err(_) => false,
            },
    {
        let result = self.segments[segment].allocate(layout);
        proof {
            old(self).segments[segment as int].lemma_wf();
        }
        match result {
            Ok(ptr) => {
                let mut ptr = ptr;
                let ghost local = ptr;
                ptr.set_segment_id(SegmentId::new(segment as u8));
                proof {
                    let index = (ptr.spec_offset() / old(self)@.bucket_sizes[segment as int]) as int;
                    let expected = old(self)@.spec_with(segment as int, index);
                    assert(self@.bucket_sizes =~= expected.bucket_sizes);
                    assert(self@.bucket_alignments =~= expected.bucket_alignments);
                    assert(self@.allocated =~= expected.allocated);
                    assert(self@ =~= expected);
                    assert forall|s: int, i: int| 0 <= s < self@.allocated.len() && #[trigger] self@.allocated[s].contains(
                        i,
                    ) implies 0 <= i < self@.number_of_samples by {
                        if !(s == segment && i == index) {
                            assert(old(self)@.allocated[s].contains(i));
                        }
                    }
                }
                Ok(ptr)
            },
            Err(e) => {
                proof {
                    assert(self@.bucket_sizes =~= old(self)@.bucket_sizes);
                    assert(self@.bucket_alignments =~= old(self)@.bucket_alignments);
                    assert(self@.allocated =~= old(self)@.allocated);
                    assert(self@ =~= old(self)@);
                }
                Err(e)
            },
        }
    }

    /// The layout of the buckets of the segment that is added for a
    /// request that does not fit, if it can be computed.
    fn grown_layout(&self, layout: Layout) -> (grown: Option<Layout>)
        requires
            self.wf(),
        ensures
            match grown {
                Some(l) => (l.size as nat, l.align as nat) == self@.spec_grown_layout(layout),
                None => self@.spec_grown_layout(layout).0 > usize::MAX,
            },
    {
        let newest = self.segments.len() - 1;
        let current_size = self.segments[newest].bucket_size();
        let current_align = self.segments[newest].max_alignment();
        let size = if layout.size > current_size { layout.size } else { current_size };
        let align = if layout.align > current_align { layout.align } else { current_align };
        match self.allocation_strategy {
            AllocationStrategy::PowerOfTwo => match next_power_of_two(size) {
                Some(p) => Some(Layout { size: p, align }),
                None => None,
            },
            _ => Some(Layout { size, align }),
        }
    }

    /// Hands out a bucket for a request of the given layout.
    ///
    /// The bucket comes from the newest segment. A dynamic data segment
    /// adds a segment when the request does not fit into the buckets of
    /// the newest one; it is out of memory when it cannot add another
    /// segment, or when the request fits and the newest segment has no
    /// bucket left.
    pub fn allocate(&mut self, layout: Layout) -> (result: Result<PointerOffset, ShmAllocationError>)
        requires
            old(self).wf(),
        ensures
            final(self).wf(),
            match result {
                Ok(ptr) => {
                    let before = if old(self)@.spec_fits(layout) {
                        old(self)@
                    } else {
                        old(self)@.spec_grown(
                            old(self)@.spec_grown_layout(layout).0,
                            old(self)@.spec_grown_layout(layout).1,
                        )
                    };
                    let segment = before.spec_newest();
                    &&& (old(self)@.spec_fits(layout) || old(self)@.segment_type == DataSegmentType::Dynamic)
                    &&& ptr.spec_segment_id() == segment
                    &&& ptr.spec_offset() % before.bucket_sizes[segment] == 0
                    &&& ptr.spec_offset() / before.bucket_sizes[segment] < before.number_of_samples
                    &&& !before.spec_is_allocated(ptr)
                    &&& layout.size <= before.bucket_sizes[segment]
                    &&& final(self)@ == before.spec_with(segment, (ptr.spec_offset() / before.bucket_sizes[segment]) as int)
                },
                Err(e) => {
                    &&& final(self)@ == old(self)@
                    &&& match e {
                        ShmAllocationError::ExceedsMaxSupportedAlignment => {
                            &&& old(self)@.segment_type == DataSegmentType::Static
                            &&& !old(self)@.spec_fits(layout)
                        },
                        ShmAllocationError::AllocationError(AllocationError::OutOfMemory) => {
                            ||| old(self)@.spec_fits(layout) && old(self)@.spec_newest_is_full()
                            ||| {
                                &&& !old(self)@.spec_fits(layout)
                                &&& old(self)@.segment_type == DataSegmentType::Dynamic
                                &&& old(self)@.bucket_sizes.len() == old(self)@.segment_type.spec_max_number_of_segments()
                            }
                        },
                        ShmAllocationError::AllocationError(AllocationError::InternalError) => {
                            &&& !old(self)@.spec_fits(layout)
                            &&& old(self)@.segment_type == DataSegmentType::Dynamic
                            &&& old(self)@.bucket_sizes.len() < old(self)@.segment_type.spec_max_number_of_segments()
                            &&& !old(self)@.spec_can_lay_out(old(self)@.spec_grown_layout(layout).0)
                        },
                        _ => false,
                    }
                },
            },
    {
        let newest = self.segments.len() - 1;
        let fits = layout.size <= self.segments[newest].bucket_size() && layout.align
            <= self.segments[newest].max_alignment();
        if fits {
            return self.allocate_from(newest, layout);
        }
        match self.segment_type {
            DataSegmentType::Static => Err(ShmAllocationError::ExceedsMaxSupportedAlignment),
            DataSegmentType::Dynamic => {
                if self.segments.len() >= Self::max_number_of_segments(DataSegmentType::Dynamic) as usize {
                    return Err(ShmAllocationError::AllocationError(AllocationError::OutOfMemory));
                }
                let grown = match self.grown_layout(layout) {
                    Some(grown) => grown,
                    None => {
                        proof {
                            self.lemma_grown_layout_needs_a_sample(layout);
                        }
                        return Err(ShmAllocationError::AllocationError(AllocationError::InternalError));
                    },
                };
                proof {
                    self.lemma_grown_layout_needs_a_sample(layout);
                }
                let pool = match Self::new_segment(self.number_of_samples, grown) {
                    Some(pool) => pool,
                    None => {
                        return Err(ShmAllocationError::AllocationError(AllocationError::InternalError));
                    },
                };
                self.segments.push(pool);
                proof {
                    let expected = old(self)@.spec_grown(grown.size as nat, grown.align as nat);
                    assert(self@.bucket_sizes =~= expected.bucket_sizes);
                    assert(self@.bucket_alignments =~= expected.bucket_alignments);
                    assert(self@.allocated =~= expected.allocated);
                    assert(self@ =~= expected);
                    assert forall|s: int, i: int| 0 <= s < self@.allocated.len() && #[trigger] self@.allocated[s].contains(
                        i,
                    ) implies 0 <= i < self@.number_of_samples by {
                        if s < old(self)@.allocated.len() {
                            assert(old(self)@.allocated[s].contains(i));
                        }
                    }
                }
                let result = self.allocate_from(newest + 1, layout);
                proof {
                    if result.is_err() {
                        assert(self@.allocated[newest + 1].contains(0));
                    }
                }
                result
            },
        }
    }

    /// A request that does not fit is never larger than the buckets of the
    /// segment that is added for it.
    proof fn lemma_grown_layout_needs_a_sample(&self, layout: Layout)
        requires
            self.wf(),
        ensures
            self@.spec_grown_layout(layout).0 >= layout.size,
            self@.spec_grown_layout(layout).0 >= 1,
            self@.spec_grown_layout(layout).1 >= layout.align,
            self@.spec_grown_layout(layout).0 > usize::MAX ==> !self@.spec_can_lay_out(
                self@.spec_grown_layout(layout).0,
            ),
    {
        let size = if layout.size as nat > self@.bucket_sizes[self@.spec_newest()] {
            layout.size as nat
        } else {
            self@.bucket_sizes[self@.spec_newest()]
        };
        lemma_next_power_of_two_bounds(size);
        let grown = self@.spec_grown_layout(layout).0;
        if grown > usize::MAX && self@.number_of_samples > 0 {
            assert(self@.number_of_samples * grown >= grown) by (nonlinear_arith)
                requires
                    self@.number_of_samples >= 1,
                    grown >= 0,
            ;
        }
    }
}

/// Where a subscriber has mapped one segment of a publisher's data
/// segment, and how many of its samples the subscriber holds.
#[derive(Debug, Clone, Copy, PartialEq, Eq, Structural)]
pub struct MappedSegment {
    pub payload_start_address: usize,
    pub samples_in_use: usize,
}

/// The view of a subscriber onto the data segment of a publisher. The
/// segment of a static data segment is mapped when the view is opened; the
/// segments of a dynamic one are mapped when the first sample from them
/// arrives.
pub struct DataSegmentView {
    segment_type: DataSegmentType,
    segments: Vec<Option<MappedSegment>>,
}

impl DataSegmentView {
    /// Per segment id, where the segment is mapped, if it is.
    pub closed spec fn view(&self) -> Seq<Option<MappedSegment>> {
        self.segments@
    }

    pub closed spec fn spec_segment_type(&self) -> DataSegmentType {
        self.segment_type
    }

    pub closed spec fn wf(&self) -> bool {
        &&& self.segments.len() == self.segment_type.spec_max_number_of_segments()
        &&& self.segment_type == DataSegmentType::Static ==> self.segments[0].is_some()
    }

    /// What well-formedness of a view says about its content: there is a
    /// place for every segment that the data segment may come to have, and
    /// the one segment of a static data segment is mapped.
    pub proof fn lemma_wf_view(&self)
        requires
            self.wf(),
        ensures
            self@.len() == self.spec_segment_type().spec_max_number_of_segments(),
            self.spec_segment_type() == DataSegmentType::Static ==> self@.len() == 1 && self@[0].is_some(),
    {
    }

    /// What translating the byte distance `offset` comes to on a view
    /// with the given segments: the segments afterwards, and the address
    /// of the bucket or the reason why there is none. A segment that is
    /// not mapped yet is mapped as `mapping` says.
    pub open spec fn spec_translated(
        segments: Seq<Option<MappedSegment>>,
        segment_type: DataSegmentType,
        offset: PointerOffset,
        mapping: Result<usize, SharedMemoryOpenError>,
    ) -> (Seq<Option<MappedSegment>>, Result<usize, SharedMemoryOpenError>) {
        let segment = offset.spec_segment_id() as int;
        if segment >= segments.len() {
            (segments, Err(SharedMemoryOpenError::DoesNotExist))
        } else {
            let start = match segments[segment] {
                Some(mapped) => Ok(mapped.payload_start_address),
                None => mapping,
            };
            let in_use = match segments[segment] {
                Some(mapped) => mapped.samples_in_use,
                None => 0,
            };
            match start {
                Err(e) => (segments, Err(e)),
                Ok(address) => if address + offset.spec_offset() > usize::MAX || (segment_type
                    == DataSegmentType::Dynamic && in_use == usize::MAX) {
                    (segments, Err(SharedMemoryOpenError::SizeDoesNotFit))
                } else {
                    (
                        segments.update(
                            segment,
                            Some(
                                MappedSegment {
                                    payload_start_address: address,
                                    samples_in_use: if segment_type == DataSegmentType::Static {
                                        in_use
                                    } else {
                                        (in_use + 1) as usize
                                    },
                                },
                            ),
                        ),
                        Ok((address + offset.spec_offset()) as usize),
                    )
                },
            }
        }
    }

    /// Opens the view. `mapping` is what mapping the segment of a static
    /// data segment came to; a dynamic data segment maps nothing yet.
    pub fn open(data_segment_type: DataSegmentType, mapping: Result<usize, SharedMemoryOpenError>) -> (result:
        Result<DataSegmentView, SharedMemoryOpenError>)
        ensures
            match result {
                Ok(view) => {
                    &&& view.wf()
                    &&& view.spec_segment_type() == data_segment_type
                    &&& view@.len() == data_segment_type.spec_max_number_of_segments()
                    &&& match data_segment_type {
                        DataSegmentType::Static => mapping.is_ok() && view@[0] == Some(
                            MappedSegment { payload_start_address: mapping.unwrap(), samples_in_use: 0 },
                        ),
                        DataSegmentType::Dynamic => forall|s: int| 0 <= s < view@.len() ==> (#[trigger] view@[s]).is_none(),
                    }
                },
                Err(e) => data_segment_type == DataSegmentType::Static && mapping == Err::<usize, SharedMemoryOpenError>(e),
            },
    {
        let mut segments: Vec<Option<MappedSegment>> = Vec::new();
        match data_segment_type {
            DataSegmentType::Static => {
                match mapping {
                    Ok(payload_start_address) => {
                        segments.push(Some(MappedSegment { payload_start_address, samples_in_use: 0 }));
                    },
                    Err(e) => {
                        return Err(e);
                    },
                }
            },
            DataSegmentType::Dynamic => {
                let max = DataSegment::max_number_of_segments(data_segment_type);
                let mut s: u8 = 0;
                while s < max
                    invariant
                        s <= max,
                        segments.len() == s,
                        forall|k: int| 0 <= k < s ==> (#[trigger] segments[k]).is_none(),
                    decreases max - s,
                {
                    segments.push(None);
                    s += 1;
                }
            },
        }
        Ok(DataSegmentView { segment_type: data_segment_type, segments })
    }

    /// Whether the segment that `offset` lives in still has to be mapped.
    pub fn needs_mapping(&self, offset: PointerOffset) -> (needed: bool)
        ensures
            needed == (offset.spec_segment_id() < self@.len() && self@[offset.spec_segment_id() as int].is_none()),
    {
        let segment = offset.segment_id().value() as usize;
        segment < self.segments.len() && self.segments[segment].is_none()
    }

    /// The address in this process of the bucket that `offset` names.
    ///
    /// If the segment is not mapped yet, `mapping` is what mapping it came
    /// to: a failure is passed on, an address is kept. The address of the
    /// bucket is the address of the segment plus the byte distance of the
    /// bucket, whatever the address of the segment is in the process of
    /// the publisher. A view of a dynamic data segment counts the sample
    /// as in use.
    pub fn register_and_translate_offset(&mut self, offset: PointerOffset, mapping: Result<
        usize,
        SharedMemoryOpenError,
    >) -> (result: Result<usize, SharedMemoryOpenError>)
        requires
            old(self).wf(),
        ensures
            final(self).wf(),
            final(self).spec_segment_type() == old(self).spec_segment_type(),
            final(self)@.len() == old(self)@.len(),
            (final(self)@, result) == Self::spec_translated(old(self)@, old(self).spec_segment_type(), offset, mapping),
            ({
                let segment = offset.spec_segment_id() as int;
                let start = if segment < old(self)@.len() {
                    match old(self)@[segment] {
                        Some(mapped) => Ok::<usize, SharedMemoryOpenError>(mapped.payload_start_address),
                        None => mapping,
                    }
                } else {
                    Err(SharedMemoryOpenError::DoesNotExist)
                };
                let in_use = if segment < old(self)@.len() && old(self)@[segment].is_some() {
                    old(self)@[segment].unwrap().samples_in_use
                } else {
                    0
                };
                match result {
                    Ok(address) => {
                        &&& start.is_ok()
                        &&& address == start.unwrap() + offset.spec_offset()
                        &&& address - start.unwrap() == offset.spec_offset()
                        &&& final(self)@ == old(self)@.update(
                            segment,
                            Some(
                                MappedSegment {
                                    payload_start_address: start.unwrap(),
                                    samples_in_use: if old(self).spec_segment_type() == DataSegmentType::Static {
                                        in_use
                                    } else {
                                        (in_use + 1) as usize
                                    },
                                },
                            ),
                        )
                    },
                    Err(e) => {
                        &&& final(self)@ == old(self)@
                        &&& match start {
                            Err(failure) => e == failure,
                            Ok(address) => e == SharedMemoryOpenError::SizeDoesNotFit && (address + offset.spec_offset()
                                > usize::MAX || (old(self).spec_segment_type() == DataSegmentType::Dynamic && in_use
                                == usize::MAX)),
                        }
                    },
                }
            }),
    {
        let segment = offset.segment_id().value() as usize;
        if segment >= self.segments.len() {
            return Err(SharedMemoryOpenError::DoesNotExist);
        }
        let mapped = match self.segments[segment] {
            Some(mapped) => mapped,
            None => match mapping {
                Ok(payload_start_address) => MappedSegment { payload_start_address, samples_in_use: 0 },
                Err(e) => {
                    return Err(e);
                },
            },
        };
        let distance: u64 = offset.as_value() >> 8;
        if distance > usize::MAX as u64 {
            return Err(SharedMemoryOpenError::SizeDoesNotFit);
        }
        let address = match mapped.payload_start_address.checked_add(distance as usize) {
            Some(address) => address,
            None => {
                return Err(SharedMemoryOpenError::SizeDoesNotFit);
            },
        };
        let samples_in_use = match self.segment_type {
            DataSegmentType::Static => mapped.samples_in_use,
            DataSegmentType::Dynamic => match mapped.samples_in_use.checked_add(1) {
                Some(count) => count,
                None => {
                    return Err(SharedMemoryOpenError::SizeDoesNotFit);
                },
            },
        };
        self.segments[segment] = Some(
            MappedSegment { payload_start_address: mapped.payload_start_address, samples_in_use },
        );
        Ok(address)
    }

    /// Counts one sample of the segment that `offset` lives in as no
    /// longer in use. A segment of a dynamic data segment that has no
    /// sample in use any more is unmapped.
    pub fn unregister_offset(&mut self, offset: PointerOffset)
        requires
            old(self).wf(),
        ensures
            final(self).wf(),
            final(self).spec_segment_type() == old(self).spec_segment_type(),
            ({
                let segment = offset.spec_segment_id() as int;
                final(self)@ == if old(self).spec_segment_type() == DataSegmentType::Dynamic && segment
                    < old(self)@.len() && old(self)@[segment].is_some() {
                    let mapped = old(self)@[segment].unwrap();
                    old(self)@.update(
                        segment,
                        if mapped.samples_in_use <= 1 {
                            None
                        } else {
                            Some(MappedSegment { samples_in_use: (mapped.samples_in_use - 1) as usize, ..mapped })
                        },
                    )
                } else {
                    old(self)@
                }
            }),
    {
        let segment = offset.segment_id().value() as usize;
        match self.segment_type {
            DataSegmentType::Static => {},
            DataSegmentType::Dynamic => {
                if segment < self.segments.len() {
                    match self.segments[segment] {
                        Some(mapped) => {
                            if mapped.samples_in_use <= 1 {
                                self.segments[segment] = None;
                            } else {
                                self.segments[segment] = Some(
                                    MappedSegment {
                                        payload_start_address: mapped.payload_start_address,
                                        samples_in_use: mapped.samples_in_use - 1,
                                    },
                                );
                            }
                        },
                        None => {},
                    }
                }
            },
        }
    }
}

} // verus!
