use magenta::bignum::BigNum;
use magenta::ds::DigSig;

fn num(s: &str) -> BigNum {
    BigNum::from_decimal(s.as_bytes()).unwrap()
}

fn text(n: &BigNum) -> String {
    String::from_utf8(n.to_decimal()).unwrap()
}

const Y: &str = "92193646064605724696047289979774223351484591740285768739495856481588123260263";
const R: &str = "13066007886172820105056758754443622936568943954185012758577460815754625225287";
const S: &str = "160897737779495832180888635397067224739";

#[test]
fn fixed_signature_of_one_byte() {
    let (y, sig) = DigSig::of_file_with_k(&[0x41], &num("12345"), &num("67890"));
    assert_eq!(text(&y), Y);
    assert_eq!(text(&sig.r), R);
    assert_eq!(text(&sig.s), S);
    assert!(sig.verify_file(&[0x41], y));
}

#[test]
fn flipped_bit_of_s_fails() {
    let sig = DigSig::new(num(R), num("160897737779495832180888635397067224738"));
    assert!(!sig.verify_file(&[0x41], num(Y)));
}

#[test]
fn signing_then_verifying_succeeds() {
    let data = b"the quick brown fox".to_vec();
    for _ in 0..3 {
        let x = DigSig::rnd_key();
        let (y, sig) = DigSig::of_file(&data, &x);
        assert!(sig.verify_file(&data, y));
    }
}

#[test]
fn changed_stream_fails() {
    let data = b"the quick brown fox".to_vec();
    let x = num("987654321987654321");
    let (y, sig) = DigSig::of_file(&data, &x);
    let mut other = data.clone();
    other[4] ^= 0x20;
    assert!(!sig.verify_file(&other, y));
}

#[test]
fn wrong_public_key_fails() {
    let data = b"abc".to_vec();
    let (_, sig) = DigSig::of_file(&data, &num("1111"));
    let (other_y, _) = DigSig::of_file(&data, &num("2222"));
    assert!(!sig.verify_file(&data, other_y));
}

#[test]
fn signature_text_round_trips() {
    let sig = DigSig::new(num("123"), num("4567"));
    let t = sig.to_file();
    assert_eq!(t, b"123\n4567".to_vec());
    let back = DigSig::from_file(&t).unwrap();
    assert_eq!(text(&back.r), "123");
    assert_eq!(text(&back.s), "4567");
    let with_newline = DigSig::from_file(b"8\n9\n").unwrap();
    assert_eq!(text(&with_newline.r), "8");
    assert_eq!(text(&with_newline.s), "9");
}

#[test]
fn malformed_signature_text_is_refused() {
    assert!(DigSig::from_file(b"").is_none());
    assert!(DigSig::from_file(b"123").is_none());
    assert!(DigSig::from_file(b"1\n2\n3").is_none());
    assert!(DigSig::from_file(b"1\nx").is_none());
    assert!(DigSig::from_file(b"\n2").is_none());
    assert!(DigSig::from_file(b"1\n\n").is_none());
}

#[test]
fn signed_stream_round_trips() {
    let sig = DigSig::new(num("31"), num("415"));
    let t = sig.concat_ds(b"line one\nline two\n");
    assert_eq!(t, b"line one\nline two\n\n31\n415".to_vec());
    let (content, back) = DigSig::read_ds(&t).unwrap();
    assert_eq!(content, b"line one\nline two\n".to_vec());
    assert_eq!(text(&back.r), "31");
    assert_eq!(text(&back.s), "415");
    let (empty, _) = DigSig::read_ds(&sig.concat_ds(b"")).unwrap();
    assert!(empty.is_empty());
    assert!(DigSig::read_ds(b"no signature").is_none());
    assert!(DigSig::read_ds(b"x\n1\nz").is_none());
}

#[test]
fn key_text_round_trips() {
    let k = num("294378924251756658506775180343451703610");
    let t = DigSig::key_to_file(&k);
    assert_eq!(t, b"294378924251756658506775180343451703610".to_vec());
    assert!(DigSig::key_from_file(&t).unwrap().equals(&k));
    assert!(DigSig::key_from_file(b"12\n").is_none());
}

#[test]
fn private_keys_lie_in_range() {
    let q = num("294378924251756658506775180343451703611");
    for _ in 0..5 {
        let x = DigSig::rnd_key();
        let t = text(&x);
        assert!(t.len() <= 39);
        assert!(!x.equals(&BigNum::from_u32(0)) && !x.equals(&BigNum::from_u32(1)));
        assert!(!x.equals(&q));
    }
}
