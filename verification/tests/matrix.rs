use nsv::matrix::{BitMatrix, BuildError, LIT, UNLIT};
use num_bigint::BigUint;

fn numbers(values: &[u64]) -> Vec<BigUint> {
    values.iter().map(|v| BigUint::from(*v)).collect()
}

fn column(m: &BitMatrix, x: usize) -> Vec<u8> {
    (0..m.height()).map(|y| m.pixels()[x + m.width() * y]).collect()
}

fn lit_count(m: &BitMatrix, x: usize) -> u64 {
    (0..m.height()).filter(|y| m.get(x, *y) == Some(true)).count() as u64
}

fn read_column(m: &BitMatrix, x: usize) -> BigUint {
    let mut value = BigUint::from(0u32);
    for y in 0..m.height() {
        value = value * 2u32 + if m.get(x, y) == Some(true) { 1u32 } else { 0u32 };
    }
    value
}

#[test]
fn counts_zero_to_three() {
    let m = BitMatrix::build(&numbers(&[0, 1, 2, 3])).unwrap();
    assert_eq!(m.width(), 4);
    assert_eq!(m.height(), 2);
    assert_eq!(column(&m, 0), vec![UNLIT, UNLIT]);
    assert_eq!(column(&m, 1), vec![UNLIT, LIT]);
    assert_eq!(column(&m, 2), vec![LIT, UNLIT]);
    assert_eq!(column(&m, 3), vec![LIT, LIT]);
    assert_eq!(m.pixels(), &vec![0, 0, 255, 255, 0, 255, 0, 255]);
}

#[test]
fn empty_sequence_is_refused() {
    let r = BitMatrix::build(&Vec::new());
    assert!(matches!(r, Err(BuildError::EmptySequence)));
}

#[test]
fn all_zero_sequence_has_no_rows() {
    let m = BitMatrix::build(&numbers(&[0, 0, 0])).unwrap();
    assert_eq!(m.width(), 3);
    assert_eq!(m.height(), 0);
    assert!(m.pixels().is_empty());
    assert_eq!(m.get(0, 0), None);
}

#[test]
fn height_is_the_largest_bit_length() {
    let seq = numbers(&[5, 1024, 0, 77, 1023]);
    let m = BitMatrix::build(&seq).unwrap();
    assert_eq!(m.width(), seq.len());
    assert_eq!(m.height() as u64, seq.iter().map(|n| n.bits()).max().unwrap());
    assert_eq!(m.height(), 11);
    assert_eq!(m.pixels().len(), 5 * 11);
}

#[test]
fn single_number_fills_one_column() {
    let m = BitMatrix::build(&numbers(&[0b1011])).unwrap();
    assert_eq!(m.width(), 1);
    assert_eq!(m.height(), 4);
    assert_eq!(m.pixels(), &vec![LIT, UNLIT, LIT, LIT]);
}

#[test]
fn lit_pixels_equal_popcount() {
    let seq = numbers(&[0, 1, 6, 255, 256, 0xdead_beef, u64::MAX]);
    let m = BitMatrix::build(&seq).unwrap();
    for (x, n) in seq.iter().enumerate() {
        assert_eq!(lit_count(&m, x), n.count_ones());
    }
}

#[test]
fn rows_above_a_number_are_unlit() {
    let seq = numbers(&[1, 0, 9, 0x8000]);
    let m = BitMatrix::build(&seq).unwrap();
    assert_eq!(m.height(), 16);
    for (x, n) in seq.iter().enumerate() {
        let own = n.bits() as usize;
        for y in 0..m.height() - own {
            assert_eq!(m.get(x, y), Some(false));
        }
        if own > 0 {
            assert_eq!(m.get(x, m.height() - own), Some(true));
        }
    }
}

#[test]
fn columns_read_back_as_the_numbers() {
    let seq = numbers(&[0, 1, 2, 3, 1000, 65535, 65536, 0x1234_5678_9abc_def0]);
    let m = BitMatrix::build(&seq).unwrap();
    for (x, n) in seq.iter().enumerate() {
        assert_eq!(&read_column(&m, x), n);
    }
}

#[test]
fn numbers_beyond_the_machine_word() {
    let big = BigUint::from(1u32) << 200usize;
    let seq = vec![big.clone(), big.clone() - 1u32, BigUint::from(3u32)];
    let m = BitMatrix::build(&seq).unwrap();
    assert_eq!(m.height(), 201);
    assert_eq!(m.get(0, 0), Some(true));
    assert_eq!(lit_count(&m, 0), 1);
    assert_eq!(m.get(1, 0), Some(false));
    assert_eq!(lit_count(&m, 1), 200);
    assert_eq!(lit_count(&m, 2), 2);
    assert_eq!(m.get(2, 200), Some(true));
    assert_eq!(m.get(2, 199), Some(true));
    assert_eq!(m.get(2, 198), Some(false));
    for (x, n) in seq.iter().enumerate() {
        assert_eq!(&read_column(&m, x), n);
    }
}

#[test]
fn cells_outside_the_matrix_are_none() {
    let m = BitMatrix::build(&numbers(&[1, 2])).unwrap();
    assert_eq!(m.get(2, 0), None);
    assert_eq!(m.get(0, 2), None);
    assert_eq!(m.get(1, 1), Some(false));
    assert_eq!(m.get(1, 0), Some(true));
}

#[test]
fn every_pixel_is_lit_or_unlit() {
    let m = BitMatrix::build(&numbers(&[12345, 678, 9])).unwrap();
    assert!(m.pixels().iter().all(|p| *p == LIT || *p == UNLIT));
}
