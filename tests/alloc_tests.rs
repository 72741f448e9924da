use allocators::alloc_box::AllocBox;
use allocators::alloc_vec::{from_elem, AllocVec};
use allocators::alloc_raw_vec::{AllocRawVec, ReserveError};
use allocators::allocator::OwnedAllocator;
use allocators::arena_alloc::{Arena, ArenaOptions};
use allocators::checked_alloc::{CheckFault, CheckedAlloc, CheckedAllocOptions, LeakReport};
use allocators::simple_alloc::{BlockAlloc, MockAlloc, MockAllocResult};
use allocators::util::PowerOfTwo;
use rand::seq::SliceRandom;
use rand::{Rng, SeedableRng};

/// Hands out fresh, aligned address ranges and never reuses one.
#[derive(Default)]
struct TestHeap {
    next: usize,
    live: usize,
}

impl OwnedAllocator for TestHeap {
    fn allocate(&mut self, size: usize, align: PowerOfTwo) -> usize {
        if self.next == 0 {
            self.next = 1 << 16;
        }
        let p = align.align_size(self.next);
        self.next = p + size.max(1);
        self.live += 1;
        p
    }

    fn reallocate(&mut self, ptr: usize, old_size: usize, new_size: usize, align: PowerOfTwo) -> usize {
        let _ = (ptr, old_size);
        self.live -= 1;
        self.allocate(new_size, align)
    }

    fn reallocate_inplace(&mut self, _ptr: usize, old_size: usize, _new_size: usize, _align: PowerOfTwo) -> usize {
        old_size
    }

    fn deallocate(&mut self, _ptr: usize, _old_size: usize, _align: PowerOfTwo) {
        self.live -= 1;
    }

    fn usable_size(&self, size: usize, _align: PowerOfTwo) -> usize {
        size
    }
}

fn align(x: usize) -> PowerOfTwo {
    PowerOfTwo::new(x)
}

fn checked() -> CheckedAlloc<TestHeap> {
    CheckedAlloc::new(TestHeap::default(), CheckedAllocOptions::default())
}

#[test]
fn allocate_test() {
    let mut alloc = checked();
    let p = alloc.allocate(1, align(1));
    alloc.deallocate(p, 1, align(1));
    let p = alloc.allocate(1, align(1));
    let p = alloc.reallocate(p, 1, 100, align(1));
    alloc.deallocate(p, 100, align(1));
    let p = alloc.allocate(100, align(1));
    let p = alloc.reallocate(p, 100, 1, align(1));
    alloc.deallocate(p, 1, align(1));
    assert_eq!(alloc.fault(), None);
    assert_eq!(alloc.check_leaks(), Ok(()));
    assert_eq!(alloc.into_internal().live, 0);
}

#[test]
fn test_good_backend() {
    let mut alloc = CheckedAlloc::new(
        MockAlloc::new(vec![
            MockAllocResult::Allocate(0),
            MockAllocResult::Allocate(1),
            MockAllocResult::Reallocate(0),
            MockAllocResult::Allocate(2),
            MockAllocResult::Deallocate,
            MockAllocResult::Deallocate,
        ]),
        CheckedAllocOptions::default(),
    );
    assert_eq!(alloc.allocate(1, align(1)), 0);
    let p = alloc.allocate(1, align(1));
    let b1 = alloc.reallocate(p, 1, 10, align(1));
    assert_eq!(b1, 0);
    let b2 = alloc.allocate(1, align(1));
    alloc.deallocate(p, 1, align(1));
    alloc.deallocate(b2, 1, align(1));
    assert_eq!(alloc.fault(), None);
    assert_eq!(alloc.check_leaks(), Ok(()));
    assert_eq!(alloc.into_internal().remaining(), 0);
}

#[test]
fn overlap_is_caught() {
    let mut alloc = CheckedAlloc::new(
        MockAlloc::new(vec![MockAllocResult::Allocate(1), MockAllocResult::Allocate(2)]),
        CheckedAllocOptions::default(),
    );
    assert_eq!(alloc.allocate(10, align(1)), 1);
    assert_eq!(alloc.allocate(10, align(1)), 0);
    assert_eq!(alloc.fault(), Some(CheckFault::Overlap));
    assert!(alloc.fault().unwrap().message().starts_with("CheckedAlloc"));
}

#[test]
fn clean_shutdown_and_leak() {
    let mut alloc = checked();
    let p = alloc.allocate(1, align(1));
    alloc.deallocate(p, 1, align(1));
    assert_eq!(alloc.check_leaks(), Ok(()));

    let mut alloc = checked();
    alloc.allocate(1, align(1));
    assert_eq!(alloc.check_leaks(), Err(LeakReport { blocks: 1, bytes: 1 }));

    let mut alloc = CheckedAlloc::new(TestHeap::default(), CheckedAllocOptions { ignore_leaks: true });
    alloc.allocate(1, align(1));
    assert_eq!(alloc.check_leaks(), Ok(()));
}

fn fault_of(f: impl FnOnce(&mut CheckedAlloc<TestHeap>)) -> CheckFault {
    let mut alloc = checked();
    f(&mut alloc);
    let fault = alloc.fault().expect("a fault");
    assert!(fault.message().starts_with("CheckedAlloc"));
    fault
}

#[test]
fn misuse_is_caught() {
    assert_eq!(fault_of(|a| { a.allocate(0, align(1)); }), CheckFault::ZeroSize);
    assert_eq!(fault_of(|a| a.deallocate(0, 1, align(1))), CheckFault::NotLive);
    assert_eq!(
        fault_of(|a| {
            let p = a.allocate(1, align(1));
            a.deallocate(p, 100, align(1));
        }),
        CheckFault::WrongSize
    );
    assert_eq!(
        fault_of(|a| {
            let p = a.allocate(2, align(2));
            a.deallocate(p, 2, align(1));
        }),
        CheckFault::WrongAlign
    );
    assert_eq!(fault_of(|a| { a.reallocate(0, 1, 2, align(1)); }), CheckFault::NotLive);
    assert_eq!(
        fault_of(|a| {
            let p = a.allocate(1, align(1));
            a.reallocate(p, 100, 1000, align(1));
        }),
        CheckFault::WrongSize
    );
    assert_eq!(
        fault_of(|a| {
            let p = a.allocate(1, align(1));
            a.reallocate(p, 1, 200, align(2));
        }),
        CheckFault::WrongAlign
    );
    assert_eq!(
        fault_of(|a| {
            let p = a.allocate(1, align(1));
            a.reallocate(p, 1, 0, align(1));
        }),
        CheckFault::ZeroSize
    );
    assert_eq!(
        fault_of(|a| {
            let p = a.allocate(8, align(8));
            a.deallocate(p + 1, 8, align(8));
        }),
        CheckFault::UnalignedPointer
    );
    assert_eq!(fault_of(|a| a.deallocate(5, 0, align(1))), CheckFault::ZeroSize);
}

#[test]
fn faults_of_the_allocator_below_are_caught() {
    let mut alloc = CheckedAlloc::new(
        MockAlloc::new(vec![MockAllocResult::Allocate(3)]),
        CheckedAllocOptions::default(),
    );
    assert_eq!(alloc.allocate(4, align(4)), 0);
    assert_eq!(alloc.fault(), Some(CheckFault::MisalignedResult));

    let mut alloc = CheckedAlloc::new(
        MockAlloc::new(vec![MockAllocResult::Allocate(64), MockAllocResult::ReallocateInplace(7)]),
        CheckedAllocOptions::default(),
    );
    let p = alloc.allocate(4, align(4));
    assert_eq!(alloc.reallocate_inplace(p, 4, 8, align(4)), 4);
    assert_eq!(alloc.fault(), Some(CheckFault::BadInplaceSize));
    // Once a fault is found, nothing more is done.
    assert_eq!(alloc.allocate(4, align(4)), 0);
}

#[test]
fn failed_reallocate_keeps_the_old_region() {
    let mut alloc = CheckedAlloc::new(
        MockAlloc::new(vec![
            MockAllocResult::Allocate(64),
            MockAllocResult::Reallocate(0),
            MockAllocResult::Deallocate,
        ]),
        CheckedAllocOptions::default(),
    );
    let p = alloc.allocate(8, align(8));
    assert_eq!(alloc.reallocate(p, 8, 16, align(8)), 0);
    alloc.deallocate(p, 8, align(8));
    assert_eq!(alloc.fault(), None);
    assert_eq!(alloc.check_leaks(), Ok(()));
}

#[test]
fn inplace_resize_keeps_the_pointer() {
    let mut alloc = CheckedAlloc::new(
        MockAlloc::new(vec![
            MockAllocResult::Allocate(64),
            MockAllocResult::ReallocateInplace(16),
            MockAllocResult::ReallocateInplace(16),
            MockAllocResult::Deallocate,
        ]),
        CheckedAllocOptions::default(),
    );
    let p = alloc.allocate(8, align(8));
    assert_eq!(alloc.reallocate_inplace(p, 8, 16, align(8)), 16);
    assert_eq!(alloc.reallocate_inplace(p, 16, 32, align(8)), 16);
    alloc.deallocate(p, 16, align(8));
    assert_eq!(alloc.fault(), None);
    assert_eq!(alloc.check_leaks(), Ok(()));
}

fn arena_over_checked(start: usize, max: usize) -> Arena<CheckedAlloc<TestHeap>> {
    Arena::new(
        checked(),
        ArenaOptions { start_block_size: start, recommended_max_block_size: max },
    )
}

#[test]
fn arena_random_test() {
    let mut rng = rand::rngs::StdRng::seed_from_u64(0x5eed);
    for _ in 0..3 {
        let outer_options = CheckedAllocOptions { ignore_leaks: true };
        let mut alloc = CheckedAlloc::new(arena_over_checked(1, 256), outer_options);
        for _ in 0..30 {
            let align = PowerOfTwo::new(1 << rng.gen_range(0..5));
            let mut size = rng.gen_range(1..64);
            let mut ptr = alloc.allocate(size, align);
            assert!(ptr != 0);
            assert_eq!(ptr % align.into(), 0);
            for _ in 0..(*[0, 1, 5, 100].choose(&mut rng).unwrap()) {
                let new_size = rng.gen_range(1..64);
                if rng.gen_bool(0.5) {
                    let new_ptr = alloc.reallocate(ptr, size, new_size, align);
                    if new_ptr != 0 {
                        assert_eq!(new_ptr % align.into(), 0);
                        size = new_size;
                        ptr = new_ptr;
                    }
                } else {
                    size = alloc.reallocate_inplace(ptr, size, new_size, align);
                }
            }
            if rng.gen_bool(0.5) {
                alloc.deallocate(ptr, size, align);
            }
        }
        assert_eq!(alloc.fault(), None);
        let inner = alloc.into_internal().release();
        assert_eq!(inner.fault(), None);
        assert_eq!(inner.check_leaks(), Ok(()));
    }
}

#[test]
fn arena_tail_free_restores_cursor() {
    let mut arena = arena_over_checked(64, 256);
    let a = arena.allocate(8, align(8));
    let b = arena.allocate(8, align(8));
    assert_eq!(b, a + 8);
    arena.deallocate(b, 8, align(8));
    let c = arena.allocate(8, align(8));
    assert_eq!(c, b);
    // Only the latest region can be given back.
    arena.deallocate(a, 8, align(8));
    assert_eq!(arena.allocate(8, align(8)), c + 8);
    assert_eq!(arena.extendable_size(c + 8, 8, align(8)) >= 8, true);
    assert_eq!(arena.extendable_size(a, 8, align(8)), 0);
    assert_eq!(arena.usable_size(5, align(1)), 5);
    let inner = arena.release();
    assert_eq!(inner.check_leaks(), Ok(()));
}

#[test]
fn arena_growth_is_logarithmic() {
    let mut arena = arena_over_checked(1, 256);
    let k = 4096;
    for _ in 0..k {
        assert!(arena.allocate(1, align(1)) != 0);
    }
    // Blocks double up to 256 bytes, then stay at 256: 1, 2, 4, ..., 256
    // and then one block per 256 bytes.
    let retired = arena.retired_blocks();
    assert!(retired <= 9 + k / 256, "retired {}", retired);
    let inner = arena.release();
    assert_eq!(inner.check_leaks(), Ok(()));
}

#[test]
fn arena_inplace_growth_of_the_tail() {
    let mut arena = arena_over_checked(64, 256);
    let p = arena.allocate(8, align(1));
    assert_eq!(arena.reallocate_inplace(p, 8, 16, align(1)), 16);
    assert_eq!(arena.allocate(1, align(1)), p + 16);
    assert_eq!(arena.reallocate_inplace(p, 16, 32, align(1)), 16);
    let inner = arena.release();
    assert_eq!(inner.check_leaks(), Ok(()));
}

#[test]
fn box_on_heap_test() {
    let b = AllocBox::new(12i32, checked()).ok().unwrap();
    assert_eq!(12, *b.get());
    let (v, alloc) = b.into_inner_with_allocator();
    assert_eq!(12, v);
    assert_eq!(alloc.check_leaks(), Ok(()));

    let b = AllocBox::new(12i32, checked()).ok().unwrap();
    let alloc = b.into_allocator();
    assert_eq!(alloc.check_leaks(), Ok(()));

    let mut b = AllocBox::new(12i32, checked()).ok().unwrap();
    *b.get_mut() = 13;
    assert_eq!(b.into_inner(), 13);

    let b = AllocBox::new([1u8; 0], checked()).ok().unwrap();
    let alloc = b.into_allocator();
    assert_eq!(alloc.into_internal().live, 0);
}

#[test]
fn box_without_memory_hands_the_value_back() {
    match AllocBox::new(7u64, MockAlloc::new(vec![])) {
        Ok(_) => panic!("the allocator has nothing to give"),
        Err((v, _)) => assert_eq!(v, 7),
    }
}

#[test]
fn vec_drain_scenario() {
    let mut v: AllocVec<i32, CheckedAlloc<TestHeap>> = AllocVec::with_allocator(checked());
    for i in 1..=5 {
        v.push(i).unwrap();
    }
    let drained = v.drain(1..4);
    assert_eq!(drained, vec![2, 3, 4]);
    assert_eq!(v.as_slice(), &[1, 5]);
    assert!(v.len() <= v.capacity());
    let alloc = v.into_allocator();
    assert_eq!(alloc.check_leaks(), Ok(()));
}

#[test]
fn vec_operations() {
    let mut v: AllocVec<u32, CheckedAlloc<TestHeap>> = AllocVec::with_allocator(checked());
    assert!(v.is_empty());
    v.extend_from_slice(&[1, 1, 2, 3, 3, 3, 4]).unwrap();
    v.dedup();
    assert_eq!(v.as_slice(), &[1, 2, 3, 4]);
    v.insert(0, 9).unwrap();
    assert_eq!(v.as_slice(), &[9, 1, 2, 3, 4]);
    assert_eq!(v.remove(1), 1);
    assert_eq!(v.swap_remove(0), 9);
    assert_eq!(v.as_slice(), &[4, 2, 3]);
    v.retain(|x| *x != 2);
    assert_eq!(v.as_slice(), &[4, 3]);
    v.push(8).unwrap();
    assert_eq!(v.pop(), Some(8));
    assert_eq!(v.as_slice(), &[4, 3]);
    v.resize(5, 7).unwrap();
    assert_eq!(v.as_slice(), &[4, 3, 7, 7, 7]);
    v.resize(1, 0).unwrap();
    assert_eq!(v.as_slice(), &[4]);
    assert_eq!(*v.get(0), 4);
    let mut w: AllocVec<u32, CheckedAlloc<TestHeap>> = AllocVec::with_allocator(checked());
    w.push(5).unwrap();
    v.append(&mut w).unwrap();
    assert_eq!(v.as_slice(), &[4, 5]);
    assert!(w.is_empty());
    v.truncate(1);
    assert_eq!(v.as_slice(), &[4]);
    v.shrink_to_fit().unwrap();
    assert_eq!(v.capacity(), 1);
    v.clear();
    assert!(v.is_empty());
    assert!(v.len() <= v.capacity());
    assert_eq!(v.into_allocator().check_leaks(), Ok(()));
    assert_eq!(w.into_allocator().check_leaks(), Ok(()));
}

#[test]
fn vec_reserve_and_errors() {
    let mut v: AllocVec<u64, CheckedAlloc<TestHeap>> = AllocVec::with_allocator(checked());
    v.reserve_exact(10).unwrap();
    assert_eq!(v.capacity(), 10);
    v.reserve(3).unwrap();
    assert_eq!(v.capacity(), 10);
    v.reserve(11).unwrap();
    assert!(v.capacity() >= 20);
    assert_eq!(v.reserve(usize::MAX), Err(ReserveError::CapacityOverflow));
    assert_eq!(v.into_allocator().check_leaks(), Ok(()));

    let mut v: AllocVec<u64, MockAlloc> = AllocVec::with_allocator(MockAlloc::new(vec![]));
    assert_eq!(v.push(1), Err(ReserveError::OutOfMemory));
    assert!(v.is_empty());
}

#[test]
fn vec_from_elem_and_raw_buffer() {
    let v = from_elem(3u8, 4, checked()).ok().unwrap();
    assert_eq!(v.as_slice(), &[3, 3, 3, 3]);
    assert_eq!(v.capacity(), 4);
    assert_eq!(v.into_allocator().check_leaks(), Ok(()));

    let mut raw: AllocRawVec<u32, CheckedAlloc<TestHeap>> = AllocRawVec::new(checked());
    assert_eq!(raw.cap(), 0);
    raw.reserve(0, 3).unwrap();
    assert!(raw.cap() >= 3);
    assert_eq!(raw.ptr() % 4, 0);
    raw.shrink_to_fit(0).unwrap();
    assert_eq!(raw.cap(), 0);
    assert_eq!(raw.allocator().check_leaks(), Ok(()));

    let zst: AllocRawVec<(), CheckedAlloc<TestHeap>> = AllocRawVec::new(checked());
    assert_eq!(zst.cap(), usize::MAX);
}

#[test]
fn block_alloc_carves_in_order() {
    let mut block = BlockAlloc::new(checked(), 32);
    let a = block.allocate(10, align(1));
    let b = block.allocate(10, align(1));
    assert_eq!(b, a + 10);
    assert_eq!(block.allocate(20, align(1)), 0);
    assert_eq!(block.reallocate(a, 10, 12, align(1)), 0);
    assert_eq!(block.reallocate_inplace(a, 10, 12, align(1)), 10);
    block.deallocate(a, 10, align(1));
    assert_eq!(block.release().check_leaks(), Ok(()));
}

#[test]
fn leak_report_counts_regions_and_bytes() {
    let mut alloc = checked();
    let a = alloc.allocate(10, align(1));
    let b = alloc.allocate(20, align(1));
    alloc.allocate(5, align(1));
    alloc.deallocate(b, 20, align(1));
    let _ = a;
    assert_eq!(alloc.check_leaks(), Err(LeakReport { blocks: 2, bytes: 15 }));
    assert!(alloc.check_leaks().unwrap_err().message().starts_with("LeakChecker"));
}

#[test]
fn arena_blocks_grow_geometrically() {
    let mut arena = arena_over_checked(1, 256);
    for _ in 0..40 {
        assert!(arena.allocate(1, align(1)) != 0);
    }
    let blocks = arena.blocks();
    assert_eq!(blocks.len(), arena.retired_blocks() + 1);
    let sizes: Vec<usize> = blocks.iter().map(|b| b.1).collect();
    assert_eq!(&sizes[..6], &[1, 2, 4, 8, 16, 32]);
    let inner = arena.release();
    assert_eq!(inner.check_leaks(), Ok(()));
}

#[test]
fn arena_non_tail_resize_is_refused() {
    let mut arena = arena_over_checked(64, 256);
    let a = arena.allocate(8, align(1));
    let b = arena.allocate(8, align(1));
    assert_eq!(arena.reallocate_inplace(a, 8, 16, align(1)), 8);
    assert_eq!(arena.reallocate(b, 8, 16, align(1)), b);
    let c = arena.allocate(1, align(1));
    assert_eq!(c, b + 16);
    assert_eq!(arena.release().check_leaks(), Ok(()));
}

#[test]
fn shrink_succeeds_without_growth() {
    let mut v: AllocVec<u16, MockAlloc> = AllocVec::with_allocator(MockAlloc::new(vec![
        MockAllocResult::Allocate(64),
        MockAllocResult::Deallocate,
    ]));
    v.reserve_exact(2).unwrap();
    v.push(1).unwrap();
    v.push(2).unwrap();
    assert_eq!(v.shrink_to_fit(), Ok(()));
    v.clear();
    assert_eq!(v.shrink_to_fit(), Ok(()));
    assert_eq!(v.capacity(), 0);
    let (items, alloc) = v.into_vec();
    assert!(items.is_empty());
    assert_eq!(alloc.remaining(), 0);
}
