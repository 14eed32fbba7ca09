use polynomial::bits::swap_bits;

#[test]
fn swaps_two_single_bits() {
    assert_eq!(swap_bits(0b01, 0, 1, 1), 0b10);
    assert_eq!(swap_bits(0b10, 0, 1, 1), 0b01);
    assert_eq!(swap_bits(0b00, 0, 1, 1), 0b00);
    assert_eq!(swap_bits(0b11, 0, 1, 1), 0b11);
}

#[test]
fn swaps_adjacent_fields() {
    assert_eq!(swap_bits(0b0110, 0, 2, 2), 0b1001);
    assert_eq!(swap_bits(0b1011_0010, 0, 4, 4), 0b0010_1011);
    assert_eq!(swap_bits(0xABCD, 0, 8, 8), 0xCDAB);
}

#[test]
fn swaps_fields_with_a_gap_and_keeps_the_rest() {
    // fields [1, 3) and [5, 7); bits 0, 3, 4 and 7 stay
    assert_eq!(swap_bits(0b1_01_11_10_1, 1, 5, 2), 0b1_10_11_01_1);
    assert_eq!(swap_bits(0b0_11_00_00_0, 1, 5, 2), 0b0_00_00_11_0);
    let high = 1usize << 20;
    assert_eq!(swap_bits(high | 0b0110, 0, 2, 2), high | 0b1001);
}

#[test]
fn order_of_the_two_offsets_does_not_matter() {
    for x in 0..1024usize {
        assert_eq!(swap_bits(x, 2, 6, 3), swap_bits(x, 6, 2, 3));
    }
}

#[test]
fn empty_fields_change_nothing() {
    for x in [0usize, 1, 2, 0xFFFF, usize::MAX] {
        assert_eq!(swap_bits(x, 0, 5, 0), x);
        assert_eq!(swap_bits(x, 7, 7, 0), x);
    }
}

#[test]
fn swapping_twice_restores_every_index() {
    let ranges = [(0usize, 1usize, 1usize), (0, 3, 3), (3, 0, 3), (1, 6, 2), (5, 0, 4), (0, 10, 10)];
    for &(a, b, k) in ranges.iter() {
        for x in (0..(1usize << 12)).chain([usize::MAX, usize::MAX - 12345, 1usize << 40]) {
            assert_eq!(swap_bits(swap_bits(x, a, b, k), a, b, k), x);
        }
    }
}

#[test]
fn swapping_within_the_word_reaches_the_top_bits() {
    let bits = usize::BITS as usize;
    let half = bits / 2;
    let low_ones = (1usize << half) - 1;
    assert_eq!(swap_bits(low_ones, 0, half, half), low_ones << half);
    assert_eq!(swap_bits(1, 0, bits - 1, 1), 1usize << (bits - 1));
    assert_eq!(swap_bits(usize::MAX, 0, half, half), usize::MAX);
}

#[test]
fn swap_permutes_the_hypercube() {
    let n = 6;
    for &(a, b, k) in [(0usize, 1usize, 1usize), (0, 3, 3), (1, 4, 2), (4, 0, 2)].iter() {
        let mut seen = vec![false; 1 << n];
        for x in 0..(1usize << n) {
            let y = swap_bits(x, a, b, k);
            assert!(y < (1 << n));
            assert!(!seen[y]);
            seen[y] = true;
        }
    }
}

#[test]
fn every_bit_comes_from_its_source_position() {
    let (a, b, k) = (2usize, 9usize, 4usize);
    for x in [0x1234usize, 0xFFFF, 0x0F0F, 0xBEEF, 0x1_0000] {
        let y = swap_bits(x, a, b, k);
        for i in 0..20usize {
            let source = if a <= i && i < a + k {
                i - a + b
            } else if b <= i && i < b + k {
                i - b + a
            } else {
                i
            };
            assert_eq!((y >> i) & 1, (x >> source) & 1);
        }
    }
}
