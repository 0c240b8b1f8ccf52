use std::collections::HashSet;

use iceoryx2_bb_elementary::allocator::AllocationError;
use zero_copy_transport::pointer_offset::PointerOffset;
use zero_copy_transport::pool_allocator::{Config, PoolAllocator};
use zero_copy_transport::shm_allocator::{Layout, ShmAllocationError};

const MAX_SUPPORTED_ALIGNMENT: usize = 32;
const PAYLOAD_SIZE: usize = 1024;

fn bucket_config() -> Layout {
    Layout::new(32, 4)
}

struct TestFixture {
    sut: PoolAllocator,
}

impl TestFixture {
    fn new(bucket_layout: Layout) -> Self {
        let config = &Config { bucket_layout };
        Self { sut: PoolAllocator::new(MAX_SUPPORTED_ALIGNMENT, PAYLOAD_SIZE, config) }
    }
}

#[test]
fn is_setup_correctly() {
    let test = TestFixture::new(Layout::new(2, 1));

    assert_eq!(test.sut.number_of_buckets(), PAYLOAD_SIZE / 2);
    assert_eq!(test.sut.relative_start_address(), 0);

    let test = TestFixture::new(bucket_config());

    assert_eq!(test.sut.bucket_size(), bucket_config().size());
    assert_eq!(test.sut.max_alignment(), bucket_config().align());
}

#[test]
fn allocate_and_release_all_buckets_works() {
    const REPETITIONS: usize = 10;
    let mut test = TestFixture::new(bucket_config());

    for _ in 0..REPETITIONS {
        let mut mem_set = HashSet::new();
        for _ in 0..test.sut.number_of_buckets() {
            let memory = test.sut.allocate(bucket_config()).unwrap();
            // the returned offset must be a multiple of the bucket size
            assert_eq!((memory.offset() - test.sut.relative_start_address()) % bucket_config().size(), 0);
            assert_eq!(mem_set.insert(memory.offset()), true);
        }

        assert_eq!(
            test.sut.allocate(bucket_config()),
            Err(ShmAllocationError::AllocationError(AllocationError::OutOfMemory))
        );

        for memory in mem_set {
            test.sut.deallocate(PointerOffset::new(memory), bucket_config())
        }
    }
}

#[test]
fn allocate_twice_release_once_until_memory_is_exhausted_works() {
    const REPETITIONS: usize = 10;
    let mut test = TestFixture::new(bucket_config());

    for _ in 0..REPETITIONS {
        let mut mem_set = HashSet::new();
        for _ in 0..(test.sut.number_of_buckets() - 1) {
            let memory_1 = test.sut.allocate(bucket_config()).unwrap();
            // the returned offset must be a multiple of the bucket size
            assert_eq!((memory_1.offset() - test.sut.relative_start_address()) % bucket_config().size(), 0);

            let memory_2 = test.sut.allocate(bucket_config()).unwrap();
            // the returned offset must be a multiple of the bucket size
            assert_eq!((memory_2.offset() - test.sut.relative_start_address()) % bucket_config().size(), 0);
            assert_eq!(mem_set.insert(memory_2.offset()), true);

            test.sut.deallocate(memory_1, bucket_config());
        }

        let memory = test.sut.allocate(bucket_config()).unwrap();
        // the returned offset must be a multiple of the bucket size
        assert_eq!((memory.offset() - test.sut.relative_start_address()) % bucket_config().size(), 0);
        assert_eq!(mem_set.insert(memory.offset()), true);

        assert_eq!(
            test.sut.allocate(bucket_config()),
            Err(ShmAllocationError::AllocationError(AllocationError::OutOfMemory))
        );

        for memory in mem_set {
            test.sut.deallocate(PointerOffset::new(memory), bucket_config())
        }
    }
}

#[test]
fn allocate_with_unsupported_alignment_fails() {
    let mut test = TestFixture::new(Layout::new(bucket_config().size(), 1));
    assert_eq!(test.sut.allocate(bucket_config()), Err(ShmAllocationError::ExceedsMaxSupportedAlignment));
}

#[test]
fn allocate_with_a_size_beyond_the_bucket_fails() {
    let mut test = TestFixture::new(bucket_config());
    assert_eq!(test.sut.allocate(Layout::new(33, 4)), Err(ShmAllocationError::ExceedsMaxSupportedAlignment));
    assert_eq!(test.sut.allocate(Layout::new(32, 64)), Err(ShmAllocationError::ExceedsMaxSupportedAlignment));
    assert!(test.sut.allocate(Layout::new(1, 1)).is_ok());
}

#[test]
fn the_allocator_knows_what_it_has_handed_out() {
    let mut test = TestFixture::new(bucket_config());
    let memory = test.sut.allocate(bucket_config()).unwrap();
    assert!(test.sut.is_allocated(memory));
    assert!(!test.sut.is_allocated(PointerOffset::new(memory.offset() + 1)));
    assert!(!test.sut.is_allocated(PointerOffset::new(PAYLOAD_SIZE)));
    test.sut.deallocate(memory, bucket_config());
    assert!(!test.sut.is_allocated(memory));
}
