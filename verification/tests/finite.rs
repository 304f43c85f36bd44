use byte_supply::{arbitrary_u64, FBError, FiniteBuffer, Unstructured};

#[test]
fn finite_buffer_fill_buffer() {
    let x = [1, 2, 3, 4];
    let mut rb = FiniteBuffer::new(&x).unwrap().container_size_limit(10);
    let mut z = [0; 2];
    rb.fill_buffer(&mut z).unwrap();
    assert_eq!(z, [1, 2]);
    rb.fill_buffer(&mut z).unwrap();
    assert_eq!(z, [3, 4]);
    assert!(rb.fill_buffer(&mut z).is_err());
}

#[test]
fn finite_buffer_fill_buffer_shift() {
    let x = [1, 2, 3, 4];
    let mut rb = FiniteBuffer::new(&x).unwrap().container_size_limit(10);
    let mut z = [0; 2];
    rb.shift_right(1).unwrap();
    rb.fill_buffer(&mut z).unwrap();
    assert_eq!(z, [2, 3]);
    assert!(rb.fill_buffer(&mut z).is_err());
}

#[test]
fn finite_buffer_fill_buffer_shift_failure() {
    let x = [1, 2, 3, 4];
    let mut rb = FiniteBuffer::new(&x).unwrap().container_size_limit(10);
    assert_eq!(Err(FBError::InsufficientBytes), rb.shift_right(x.len() + 1));
}

#[test]
fn finite_buffer_fill_buffer_shrink() {
    let x = [1, 2, 3, 4];
    let mut rb = FiniteBuffer::new(&x).unwrap();
    let mut z = [0; 2];
    assert_eq!(2, rb.shrink());
    rb.fill_buffer(&mut z).unwrap();
    assert_eq!(z, [1, 2]);
    assert!(rb.fill_buffer(&mut z).is_err());
}

#[test]
fn finite_buffer_exhausts_after_exact_total() {
    let x = [10, 20, 30, 40, 50, 60];
    let mut fb = FiniteBuffer::new(&x).unwrap();
    let mut a = [0; 1];
    let mut b = [0; 3];
    let mut c = [0; 2];
    assert_eq!(fb.fill_buffer(&mut a), Ok(()));
    assert_eq!(fb.fill_buffer(&mut b), Ok(()));
    assert_eq!(fb.fill_buffer(&mut c), Ok(()));
    assert_eq!(a, [10]);
    assert_eq!(b, [20, 30, 40]);
    assert_eq!(c, [50, 60]);
    assert_eq!(fb.fill_buffer(&mut a), Err(FBError::InsufficientBytes));
    assert_eq!(fb.fill_buffer(&mut b), Err(FBError::InsufficientBytes));
    assert_eq!(fb.shift_right(1), Err(FBError::InsufficientBytes));
}

#[test]
fn finite_buffer_empty_request_always_served() {
    let x = [7, 8];
    let mut fb = FiniteBuffer::new(&x).unwrap();
    let mut none: [u8; 0] = [];
    let mut both = [0; 2];
    assert_eq!(fb.fill_buffer(&mut none), Ok(()));
    assert_eq!(fb.fill_buffer(&mut both), Ok(()));
    assert_eq!(both, [7, 8]);
    assert_eq!(fb.fill_buffer(&mut none), Ok(()));
    assert_eq!(fb.shift_right(0), Ok(()));
}

#[test]
fn finite_buffer_failure_leaves_output_and_cursor() {
    let x = [1, 2, 3];
    let mut fb = FiniteBuffer::new(&x).unwrap();
    let mut big = [9; 4];
    assert_eq!(fb.fill_buffer(&mut big), Err(FBError::InsufficientBytes));
    assert_eq!(big, [9, 9, 9, 9]);
    let mut all = [0; 3];
    assert_eq!(fb.fill_buffer(&mut all), Ok(()));
    assert_eq!(all, [1, 2, 3]);
}

#[test]
fn finite_buffer_skip_then_fill_bound() {
    let x = [1, 2, 3, 4, 5];
    for k in 0..7usize {
        for n in 0..7usize {
            let mut fb = FiniteBuffer::new(&x).unwrap();
            let mut out = vec![0u8; n];
            let skipped = fb.shift_right(k);
            assert_eq!(skipped.is_err(), k > 5);
            if skipped.is_ok() {
                let filled = fb.fill_buffer(&mut out);
                assert_eq!(filled.is_ok(), k + n <= 5);
                if filled.is_ok() {
                    assert_eq!(&out[..], &x[k..k + n]);
                }
            }
        }
    }
}

#[test]
fn finite_buffer_failed_skip_changes_nothing() {
    let x = [1, 2, 3, 4];
    let mut fb = FiniteBuffer::new(&x).unwrap();
    assert_eq!(fb.shift_right(3), Ok(()));
    assert_eq!(fb.shift_right(2), Err(FBError::InsufficientBytes));
    let mut z = [0; 1];
    assert_eq!(fb.fill_buffer(&mut z), Ok(()));
    assert_eq!(z, [4]);
}

#[test]
fn finite_buffer_over_empty_region_is_exhausted() {
    let x: [u8; 0] = [];
    let mut fb = FiniteBuffer::new(&x).unwrap();
    let mut one = [0; 1];
    let mut none: [u8; 0] = [];
    assert_eq!(fb.fill_buffer(&mut one), Err(FBError::InsufficientBytes));
    assert_eq!(fb.shift_right(1), Err(FBError::InsufficientBytes));
    assert_eq!(fb.fill_buffer(&mut none), Ok(()));
    assert_eq!(fb.container_size(), Err(FBError::InsufficientBytes));
    assert_eq!(fb.shrink(), 0);
    fb.reset();
    assert_eq!(fb.fill_buffer(&mut one), Err(FBError::InsufficientBytes));
}

#[test]
fn finite_buffer_reset_rewinds() {
    let x = [1, 2, 3, 4];
    let mut fb = FiniteBuffer::new(&x).unwrap();
    let mut z = [0; 4];
    assert_eq!(fb.fill_buffer(&mut z), Ok(()));
    assert_eq!(fb.fill_buffer(&mut z), Err(FBError::InsufficientBytes));
    fb.reset();
    let mut y = [0; 3];
    assert_eq!(fb.fill_buffer(&mut y), Ok(()));
    assert_eq!(y, [1, 2, 3]);
}

#[test]
fn finite_buffer_reset_keeps_shrunk_window() {
    let x = [1, 2, 3, 4, 5, 6, 7, 8, 9];
    let mut fb = FiniteBuffer::new(&x).unwrap();
    assert_eq!(fb.shrink(), 4);
    fb.reset();
    let mut five = [0; 5];
    assert_eq!(fb.fill_buffer(&mut five), Err(FBError::InsufficientBytes));
    let mut four = [0; 4];
    assert_eq!(fb.fill_buffer(&mut four), Ok(()));
    assert_eq!(four, [1, 2, 3, 4]);
    let mut one = [0; 1];
    assert_eq!(fb.fill_buffer(&mut one), Err(FBError::InsufficientBytes));
}

#[test]
fn finite_buffer_shrink_halves_rounding_down() {
    let x = [0u8; 13];
    let mut fb = FiniteBuffer::new(&x).unwrap();
    assert_eq!(fb.shrink(), 6);
    assert_eq!(fb.shrink(), 3);
    assert_eq!(fb.shrink(), 1);
    assert_eq!(fb.shrink(), 0);
    assert_eq!(fb.shrink(), 0);
}

#[test]
fn finite_buffer_shrink_behind_cursor_exhausts() {
    let x = [1, 2, 3, 4];
    let mut fb = FiniteBuffer::new(&x).unwrap();
    let mut three = [0; 3];
    assert_eq!(fb.fill_buffer(&mut three), Ok(()));
    assert_eq!(fb.shrink(), 2);
    let mut one = [0; 1];
    let mut none: [u8; 0] = [];
    assert_eq!(fb.fill_buffer(&mut one), Err(FBError::InsufficientBytes));
    assert_eq!(fb.fill_buffer(&mut none), Ok(()));
    fb.reset();
    let mut two = [0; 2];
    assert_eq!(fb.fill_buffer(&mut two), Ok(()));
    assert_eq!(two, [1, 2]);
    assert_eq!(fb.fill_buffer(&mut one), Err(FBError::InsufficientBytes));
}

#[test]
fn finite_buffer_container_size_decodes_then_reduces() {
    let x = [1, 2, 3, 4, 5, 1, 2, 3, 0xff, 0, 0, 0, 0, 0, 0, 0];
    let mut fb = FiniteBuffer::new(&x).unwrap().container_size_limit(11);
    assert_eq!(0x0302_0105_0403_0201u64 % 11, 9);
    assert_eq!(fb.container_size(), Ok(9));
    assert_eq!(fb.container_size(), Ok(255 % 11));
    assert_eq!(fb.container_size(), Err(FBError::InsufficientBytes));
}

#[test]
fn finite_buffer_container_size_default_limit_is_region_length() {
    let x = [9, 0, 0, 0, 0, 0, 0, 0, 1];
    let mut fb = FiniteBuffer::new(&x).unwrap();
    assert_eq!(fb.container_size(), Ok(0));
    let y = [10, 0, 0, 0, 0, 0, 0, 0, 1];
    let mut fb = FiniteBuffer::new(&y).unwrap();
    assert_eq!(fb.container_size(), Ok(1));
}

#[test]
fn finite_buffer_container_size_needs_eight_bytes() {
    let x = [1, 2, 3, 4, 5, 6, 7];
    let mut fb = FiniteBuffer::new(&x).unwrap().container_size_limit(100);
    assert_eq!(fb.container_size(), Err(FBError::InsufficientBytes));
    let mut all = [0; 7];
    assert_eq!(fb.fill_buffer(&mut all), Ok(()));
    assert_eq!(all, [1, 2, 3, 4, 5, 6, 7]);
}

#[test]
fn finite_buffer_container_size_with_zero_limit_is_zero() {
    let x = [1, 2, 3, 4, 5, 6, 7, 8, 42];
    let mut fb = FiniteBuffer::new(&x).unwrap().container_size_limit(0);
    assert_eq!(fb.container_size(), Ok(0));
    let mut z = [0; 1];
    assert_eq!(fb.fill_buffer(&mut z), Ok(()));
    assert_eq!(z, [42]);
}

#[test]
fn finite_buffer_container_size_stays_below_limit() {
    let x: Vec<u8> = (0..=255u8).collect();
    for limit in 1..40usize {
        let mut fb = FiniteBuffer::new(&x).unwrap().container_size_limit(limit);
        while let Ok(size) = fb.container_size() {
            assert!(size < limit);
        }
    }
}

#[test]
fn finite_buffer_feeds_integer_decoder() {
    let x = [0x01, 0x02, 0x03, 0x04, 0x05, 0x06, 0x07, 0x08, 0x09];
    let mut fb = FiniteBuffer::new(&x).unwrap();
    assert_eq!(arbitrary_u64(&mut fb), Ok(0x0807_0605_0403_0201));
    assert_eq!(arbitrary_u64(&mut fb), Err(FBError::InsufficientBytes));
    let mut z = [0; 1];
    assert_eq!(fb.fill_buffer(&mut z), Ok(()));
    assert_eq!(z, [9]);
}
