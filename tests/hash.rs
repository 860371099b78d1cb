use magenta::hash::h_file;

#[test]
fn digest_of_sixteen_ff_bytes_is_stable() {
    let data = [0xFFu8; 16];
    let first = h_file(&data);
    let second = h_file(&data);
    assert_eq!(first, second);
    assert_eq!(first, [123, 58, 181, 118, 9, 251, 93, 202, 44, 85, 139, 178, 174, 214, 24, 106]);
}

#[test]
fn digest_of_empty_stream() {
    assert_eq!(
        h_file(&[]),
        [137, 15, 160, 194, 27, 201, 240, 205, 211, 197, 143, 133, 114, 100, 206, 148]
    );
}

#[test]
fn digest_of_abc() {
    assert_eq!(
        h_file(b"abc"),
        [80, 118, 114, 179, 37, 70, 134, 51, 209, 254, 99, 201, 11, 168, 251, 56]
    );
}

#[test]
fn digest_changes_with_one_byte() {
    let a: Vec<u8> = (0..40u8).collect();
    let mut b = a.clone();
    b[17] ^= 1;
    assert_ne!(h_file(&a), h_file(&b));
    assert_ne!(h_file(&a), h_file(&a[..39]));
}

#[test]
fn digest_of_each_length_is_deterministic() {
    let data: Vec<u8> = (0..50u8).map(|i| i.wrapping_mul(13)).collect();
    for n in 0..data.len() {
        assert_eq!(h_file(&data[..n]), h_file(&data[..n].to_vec()));
    }
}
