use magenta::cipher::Magenta;

#[test]
fn enc_zero_block_zero_key_128() {
    let c = Magenta::new_128(&[0u8; 16]);
    assert_eq!(
        c.enc(&[0u8; 16]),
        [202, 125, 43, 114, 159, 243, 95, 189, 117, 232, 199, 46, 128, 73, 247, 212]
    );
}

#[test]
fn enc_zero_block_zero_key_192() {
    let c = Magenta::new_192(&[0u8; 24]);
    assert_eq!(
        c.enc(&[0u8; 16]),
        [202, 125, 43, 114, 159, 243, 95, 189, 117, 232, 199, 46, 128, 73, 247, 212]
    );
}

#[test]
fn enc_zero_block_zero_key_256() {
    let c = Magenta::new_256(&[0u8; 32]);
    assert_eq!(
        c.enc(&[0u8; 16]),
        [240, 246, 108, 8, 92, 119, 202, 148, 51, 201, 94, 3, 0, 199, 24, 145]
    );
}

#[test]
fn enc_counting_key_and_block() {
    let mut k = [0u8; 16];
    let mut m = [0u8; 16];
    for i in 0..16 {
        k[i] = i as u8;
        m[i] = 100 + i as u8;
    }
    let c = Magenta::new_128(&k);
    let e = c.enc(&m);
    assert_eq!(e, [189, 127, 104, 70, 252, 13, 13, 14, 38, 13, 59, 9, 72, 167, 24, 105]);
    assert_eq!(c.dec(&e), m);
}

#[test]
fn dec_undoes_enc_for_each_key_size() {
    let mut k32 = [0u8; 32];
    for i in 0..32 {
        k32[i] = (i as u8).wrapping_mul(37).wrapping_add(11);
    }
    let mut k24 = [0u8; 24];
    k24.copy_from_slice(&k32[..24]);
    let mut k16 = [0u8; 16];
    k16.copy_from_slice(&k32[..16]);
    let ciphers = [Magenta::new_128(&k16), Magenta::new_192(&k24), Magenta::new_256(&k32)];
    for c in ciphers.iter() {
        for seed in 0..20u8 {
            let mut m = [0u8; 16];
            for i in 0..16 {
                m[i] = seed.wrapping_mul(29).wrapping_add((i as u8).wrapping_mul(7));
            }
            let e = c.enc(&m);
            assert_ne!(e, m);
            assert_eq!(c.dec(&e), m);
        }
    }
}

#[test]
fn key_returns_key_bytes() {
    let mut k = [0u8; 24];
    for i in 0..24 {
        k[i] = 3 * i as u8;
    }
    assert_eq!(Magenta::new_192(&k).key(), k.to_vec());
    assert_eq!(Magenta::new_128(&[7u8; 16]).key(), vec![7u8; 16]);
    assert_eq!(Magenta::new_256(&[9u8; 32]).key().len(), 32);
}
