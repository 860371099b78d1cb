use magenta::utils::{
    concat_arrays_u8, concat_u8, fill_with_end_bits, fill_with_file_size, get_original_size,
    is_file_size_can_fit, nth_byte, nth_byte_u64, pad_final, part, random_fill_tail_end,
    read_block, slice_to_u64, xor_array, xor_array_16,
};

#[test]
fn nth_byte_picks_bytes_from_the_low_end() {
    assert_eq!(nth_byte(0xABCD, 0), 0xCD);
    assert_eq!(nth_byte(0xABCD, 1), 0xAB);
    assert_eq!(nth_byte(0xABCD, 2), 0);
    assert_eq!(nth_byte_u64(0x0102030405060708, 7), 1);
    assert_eq!(nth_byte_u64(0x0102030405060708, 0), 8);
}

#[test]
fn slice_to_u64_is_big_endian() {
    assert_eq!(slice_to_u64(&[]), 0);
    assert_eq!(slice_to_u64(&[1, 2]), 0x0102);
    assert_eq!(slice_to_u64(&[0xFF; 8]), u64::MAX);
    assert_eq!(slice_to_u64(&[0, 0, 0, 0, 0, 0, 1, 0]), 256);
}

#[test]
fn concat_u8_puts_the_first_byte_high() {
    assert_eq!(concat_u8(0x12, 0x34), 0x1234);
    assert_eq!(concat_u8(0xFF, 0xFF), 0xFFFF);
}

#[test]
fn arrays_concat_and_split() {
    let a = [1, 2, 3, 4, 5, 6, 7, 8];
    let b = [9, 10, 11, 12, 13, 14, 15, 16];
    let c = concat_arrays_u8(&a, &b);
    assert_eq!(c, [1, 2, 3, 4, 5, 6, 7, 8, 9, 10, 11, 12, 13, 14, 15, 16]);
    assert_eq!(part(0, &c), a);
    assert_eq!(part(1, &c), b);
    assert_eq!(read_block(&[c, c].concat(), 1), c);
}

#[test]
fn xor_arrays() {
    assert_eq!(xor_array(&[0xF0; 8], &[0x0F; 8]), [0xFF; 8]);
    assert_eq!(xor_array(&[5; 8], &[5; 8]), [0; 8]);
    let mut a = [0u8; 16];
    let mut b = [0u8; 16];
    for i in 0..16 {
        a[i] = i as u8;
        b[i] = 0x80;
    }
    let x = xor_array_16(&a, &b);
    for i in 0..16 {
        assert_eq!(x[i], 0x80 | i as u8);
    }
}

#[test]
fn end_bits_fill() {
    let mut buf = [7u8; 5];
    fill_with_end_bits(&mut buf);
    assert_eq!(buf, [64, 0, 0, 0, 0]);
}

#[test]
fn file_size_fill_writes_the_last_eight_bytes() {
    let mut buf = [7u8; 16];
    fill_with_file_size(0x0102, &mut buf);
    assert_eq!(buf, [7, 7, 7, 7, 7, 7, 7, 7, 0, 0, 0, 0, 0, 0, 1, 2]);
    assert_eq!(get_original_size(&buf), 0x0102);
}

#[test]
fn size_fits_with_eight_free_bytes() {
    assert!(is_file_size_can_fit(8, 16));
    assert!(is_file_size_can_fit(0, 16));
    assert!(!is_file_size_can_fit(9, 16));
    assert!(!is_file_size_can_fit(15, 16));
}

#[test]
fn padding_of_short_and_long_tails() {
    let blocks = pad_final(&[1, 2, 3]);
    assert_eq!(blocks, vec![[1, 2, 3, 64, 0, 0, 0, 0, 0, 0, 0, 0, 0, 0, 0, 3]]);
    let blocks = pad_final(&[]);
    assert_eq!(blocks, vec![[64, 0, 0, 0, 0, 0, 0, 0, 0, 0, 0, 0, 0, 0, 0, 0]]);
    let data: Vec<u8> = (1..=25u8).collect();
    let blocks = pad_final(&data);
    assert_eq!(
        blocks,
        vec![
            [17, 18, 19, 20, 21, 22, 23, 24, 25, 64, 0, 0, 0, 0, 0, 0],
            [0, 0, 0, 0, 0, 0, 0, 0, 0, 0, 0, 0, 0, 0, 0, 25]
        ]
    );
    let eight: Vec<u8> = (1..=8u8).collect();
    assert_eq!(pad_final(&eight), vec![[1, 2, 3, 4, 5, 6, 7, 8, 0, 0, 0, 0, 0, 0, 0, 8]]);
}

#[test]
fn random_fill_keeps_the_count_last() {
    let mut buf = [0u8; 10];
    random_fill_tail_end(&mut buf);
    assert_eq!(buf[9], 9);
    let mut one = [5u8; 1];
    random_fill_tail_end(&mut one);
    assert_eq!(one, [0]);
}
