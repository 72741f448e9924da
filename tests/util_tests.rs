use allocators::util::{distance, do_nothing1, do_nothing2, do_nothing3, PowerOfTwo};

#[test]
fn align_test() {
    assert_eq!(0, PowerOfTwo::new(1).align_size(0));
    assert_eq!(1, PowerOfTwo::new(1).align_size(1));
    assert_eq!(2, PowerOfTwo::new(1).align_size(2));
    assert_eq!(3, PowerOfTwo::new(1).align_size(3));

    assert_eq!(0, PowerOfTwo::new(2).align_size(0));
    assert_eq!(2, PowerOfTwo::new(2).align_size(1));
    assert_eq!(2, PowerOfTwo::new(2).align_size(2));
    assert_eq!(4, PowerOfTwo::new(2).align_size(3));

    assert_eq!(0, PowerOfTwo::new(4).align_size(0));
    assert_eq!(4, PowerOfTwo::new(4).align_size(1));
    assert_eq!(4, PowerOfTwo::new(4).align_size(2));
    assert_eq!(4, PowerOfTwo::new(4).align_size(3));
    assert_eq!(4, PowerOfTwo::new(4).align_size(4));
    assert_eq!(8, PowerOfTwo::new(4).align_size(5));
}

#[test]
fn alignment_laws_on_values() {
    for shift in 0..8 {
        let a = PowerOfTwo::new(1 << shift);
        for n in 0..300usize {
            let r = a.align_size(n);
            assert!(r >= n);
            assert_eq!(r % a.into(), 0);
            assert!(r - n < a.into());
            assert!(a.is_aligned_size(r));
            assert_eq!(a.align_ptr_mut(n), r);
            assert_eq!(a.align_ptr_const(n), r);
        }
    }
    assert!(PowerOfTwo::new(8).is_aligned_ptr_mut(4096));
    assert!(!PowerOfTwo::new(8).is_aligned_ptr_mut(4100));
}

#[test]
fn align_of_and_distance() {
    assert_eq!(PowerOfTwo::align_of::<u64>().into(), std::mem::align_of::<u64>());
    assert_eq!(PowerOfTwo::align_of::<u8>().into(), 1);
    assert_eq!(distance::<u32>(4096, 4096 + 40), 10);
    assert_eq!(do_nothing1(17), 17);
    assert_eq!(do_nothing2(17), 17);
    assert_eq!(do_nothing3(17), 17);
}
