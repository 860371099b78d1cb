use magenta::pbc::{PbcError, PBC};

fn counting_key() -> [u8; 16] {
    let mut k = [0u8; 16];
    for i in 0..16 {
        k[i] = i as u8;
    }
    k
}

#[test]
fn empty_stream_round_trips() {
    let codec = PBC::new(&[0u8; 16], &[0u8; 16]);
    let enc = codec.enc_file(&[]);
    assert_eq!(enc.len(), 16);
    assert_eq!(enc, vec![170, 33, 161, 161, 19, 228, 228, 136, 241, 45, 54, 58, 206, 110, 129, 31]);
    assert_eq!(codec.dec_file(&enc), Ok(Vec::new()));
}

#[test]
fn hello_world_encrypts_to_two_blocks() {
    let codec = PBC::new(&counting_key(), &[0u8; 16]);
    let enc = codec.enc_file(b"hello world");
    assert_eq!(
        enc,
        vec![
            6, 107, 150, 66, 143, 190, 139, 150, 31, 228, 65, 58, 179, 177, 200, 161, 58, 172,
            186, 217, 188, 133, 249, 233, 11, 90, 157, 89, 218, 41, 83, 129
        ]
    );
    assert_eq!(codec.dec_file(&enc), Ok(b"hello world".to_vec()));
}

#[test]
fn every_length_round_trips() {
    let codec = PBC::new(&counting_key(), &[5u8; 16]);
    let data: Vec<u8> = (0..70u8).map(|i| i.wrapping_mul(31).wrapping_add(3)).collect();
    for n in 0..data.len() {
        let enc = codec.enc_file(&data[..n]);
        assert_eq!(enc.len() % 16, 0);
        let rem = n % 16;
        let extra = if 16 - rem < 8 { 32 } else { 16 };
        assert_eq!(enc.len(), n - rem + extra);
        assert_eq!(codec.dec_file(&enc), Ok(data[..n].to_vec()));
    }
}

#[test]
fn whole_block_stream_gets_one_more_block() {
    let codec = PBC::new(&counting_key(), &[0u8; 16]);
    let data = [0xABu8; 32];
    let enc = codec.enc_file(&data);
    assert_eq!(enc.len(), 48);
    assert_eq!(codec.dec_file(&enc), Ok(data.to_vec()));
}

#[test]
fn initialization_vector_changes_output() {
    let a = PBC::new(&counting_key(), &[0u8; 16]);
    let b = PBC::new(&counting_key(), &[1u8; 16]);
    assert_ne!(a.enc_file(b"some text"), b.enc_file(b"some text"));
}

#[test]
fn wrong_key_does_not_give_back_the_stream() {
    let a = PBC::new(&counting_key(), &[0u8; 16]);
    let b = PBC::new(&[0u8; 16], &[0u8; 16]);
    let enc = a.enc_file(b"secret message!");
    assert_ne!(b.dec_file(&enc), Ok(b"secret message!".to_vec()));
}

#[test]
fn dec_rejects_streams_not_in_blocks() {
    let codec = PBC::new(&[0u8; 16], &[0u8; 16]);
    assert_eq!(codec.dec_file(&[]), Err(PbcError::NotBlockAligned));
    assert_eq!(codec.dec_file(&[1u8; 15]), Err(PbcError::NotBlockAligned));
    assert_eq!(codec.dec_file(&[1u8; 33]), Err(PbcError::NotBlockAligned));
}

#[test]
fn dec_rejects_a_recorded_size_too_large() {
    let codec = PBC::new(&[0u8; 16], &[0u8; 16]);
    assert_eq!(codec.dec_file(&[0xFFu8; 16]), Err(PbcError::SizeOutOfRange));
}

#[test]
fn key_from_file_takes_sixteen_bytes() {
    let content: Vec<u8> = (1..=20u8).collect();
    let k = PBC::key_from_file(&content);
    assert_eq!(k.to_vec(), (1..=16u8).collect::<Vec<u8>>());
    let short = PBC::key_from_file(&[9, 8, 7]);
    assert_eq!(short, [9, 8, 7, 0, 0, 0, 0, 0, 0, 0, 0, 0, 0, 0, 0, 0]);
}

#[test]
fn random_keys_differ() {
    let a = PBC::rnd_key();
    let b = PBC::rnd_key();
    assert_ne!(a, b);
}
