use magenta::bignum::{mod_pow, BigNum};

fn num(s: &str) -> BigNum {
    BigNum::from_decimal(s.as_bytes()).unwrap()
}

fn text(n: &BigNum) -> String {
    String::from_utf8(n.to_decimal()).unwrap()
}

#[test]
fn decimal_text_round_trips() {
    assert_eq!(text(&num("0")), "0");
    assert_eq!(text(&num("42")), "42");
    let big = "100171957116027409589353405993935820347426201265179460517658228929832800232041";
    assert_eq!(text(&num(big)), big);
}

#[test]
fn decimal_text_rejects_other_bytes() {
    assert!(BigNum::from_decimal(b"").is_none());
    assert!(BigNum::from_decimal(b"12a").is_none());
    assert!(BigNum::from_decimal(b"-1").is_none());
    assert!(BigNum::from_decimal(b"1 2").is_none());
}

#[test]
fn mod_pow_small() {
    let r = mod_pow(BigNum::from_u32(3), BigNum::from_u32(200), BigNum::from_u32(1000007));
    assert_eq!(text(&r), "959082");
}

#[test]
fn mod_pow_large() {
    let r = mod_pow(
        num("123456789123456789"),
        num("987654321"),
        num("1000000000000000000000000000057"),
    );
    assert_eq!(text(&r), "391445503517507817711585968314");
}

#[test]
fn mod_pow_edge_exponents() {
    let m = BigNum::from_u32(7);
    assert_eq!(text(&mod_pow(BigNum::from_u32(10), BigNum::from_u32(1), m.clone_num())), "3");
    assert_eq!(text(&mod_pow(BigNum::from_u32(10), BigNum::from_u32(0), m.clone_num())), "1");
    assert_eq!(text(&mod_pow(BigNum::from_u32(10), BigNum::from_u32(0), BigNum::from_u32(1))), "0");
}

#[test]
fn arithmetic_helpers() {
    let m = BigNum::from_u32(13);
    assert_eq!(text(&BigNum::from_u32(9).mul_mod(&BigNum::from_u32(5), &m)), "6");
    assert_eq!(text(&BigNum::from_u32(3).sub_mod(&BigNum::from_u32(5), &m)), "11");
    assert_eq!(text(&BigNum::from_u32(30).rem(&m)), "4");
    assert!(BigNum::from_u32(0).is_zero());
    assert!(!BigNum::from_u32(4).is_zero());
    assert!(BigNum::from_digits(vec![0, 0]).is_zero());
    assert!(BigNum::from_u32(5).is_odd());
    assert!(!BigNum::from_digits(vec![2, 1]).is_odd());
    assert!(num("4294967296").equals(&BigNum::from_digits(vec![0, 1])));
    assert_eq!(BigNum::from_digits(vec![5, 6]).to_digits(), vec![5, 6]);
}

#[test]
fn random_range_stays_in_range() {
    let low = BigNum::from_u32(10);
    let high = BigNum::from_u32(13);
    for _ in 0..50 {
        let r = BigNum::random_range(&low, &high);
        let t = text(&r);
        assert!(t == "10" || t == "11" || t == "12");
    }
}
