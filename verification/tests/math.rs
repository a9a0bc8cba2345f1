use sos_kernel::math::PowersOf2;

#[test]
fn test_next_pow2() {
    assert_eq!(2usize.next_pow2(), 2);
    assert_eq!(0usize.next_pow2(), 1);
    assert_eq!(3usize.next_pow2(), 4);
    assert_eq!(5678usize.next_pow2(), 8192);
    assert_eq!(((1usize << 32) + 1).next_pow2(), 1usize << 33);
    assert_eq!((1usize << 63).next_pow2(), 1usize << 63);
    assert_eq!(((1usize << 62) + 5).next_pow2(), 1usize << 63);
}

#[test]
fn is_pow2_of_small_numbers() {
    assert!(1usize.is_pow2());
    assert!(2usize.is_pow2());
    assert!(4096usize.is_pow2());
    assert!(!0usize.is_pow2());
    assert!(!3usize.is_pow2());
    assert!(!4097usize.is_pow2());
}

#[test]
fn log2_of_powers_and_others() {
    assert_eq!(0, 1usize.log2());
    assert_eq!(1, 2usize.log2());
    assert_eq!(1, 3usize.log2());
    assert_eq!(12, 4096usize.log2());
    assert_eq!(12, 8191usize.log2());
    assert_eq!(63, usize::MAX.log2());
}

#[test]
fn next_pow2_of_a_power_is_itself() {
    for k in 0..62u32 {
        let p = 1usize << k;
        assert_eq!(p, p.next_pow2());
        assert_eq!(k as usize, p.log2());
    }
}
