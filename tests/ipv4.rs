use netter::ipv4::{valid_ipv4, InvalidAddrErr};

#[test]
fn test_valid_ip() {
    let valids = Vec::from([
        "127.0.0.1",
        "192.168.0.9",
        "10.0.0.1",
        "255.255.255.255",
        "2.255.99.254",
    ]);
    let invalids = Vec::from([
        "295.34.1.5.",
        "215.0",
        "215",
        ".10.256.0.9",
        "365",
        "365.1.0.9",
        "10.256.0.1",
        "10.358.0.1",
    ]);

    for addr in valids {
        let r = valid_ipv4(addr);
        if r.is_err() {
            panic!(
                "correctness error: {} failed but should have succeeded",
                addr
            );
        }
    }

    for addr in invalids {
        let r = valid_ipv4(addr);
        if r.is_ok() {
            panic!(
                "correctness error: {} succeeded but should have failed",
                addr
            );
        }
    }
}

#[test]
fn accepted_address_returns_true() {
    assert_eq!(valid_ipv4("10.0.0.1"), Ok(true));
    assert_eq!(valid_ipv4("0.0.0.0"), Ok(true));
}

#[test]
fn boundary_lengths() {
    assert_eq!(valid_ipv4("1.1.1.1"), Ok(true));
    assert_eq!(valid_ipv4("255.255.255.255"), Ok(true));
    assert_eq!(valid_ipv4("256.1.1.1"), Err(InvalidAddrErr));
    assert_eq!(valid_ipv4("192.168.0.9"), Ok(true));
    assert_eq!(valid_ipv4("2.255.99.254"), Ok(true));
}

#[test]
fn lengths_out_of_range_fail() {
    assert!(valid_ipv4("").is_err());
    assert!(valid_ipv4("1.1.1.").is_err());
    assert!(valid_ipv4("1.1.1").is_err());
    assert!(valid_ipv4("255.255.255.2550").is_err());
    assert!(valid_ipv4("1111111111111111").is_err());
}

#[test]
fn malformed_separators_fail() {
    assert!(valid_ipv4(".10.256.0.9").is_err());
    assert!(valid_ipv4("10..256.0.9").is_err());
    assert!(valid_ipv4("10.25.0.9.").is_err());
    assert!(valid_ipv4("1.2.3.4..").is_err());
    assert!(valid_ipv4("10.1.2.").is_err());
}

#[test]
fn octets_above_255_fail() {
    assert!(valid_ipv4("10.256.0.1").is_err());
    assert!(valid_ipv4("10.358.0.1").is_err());
    assert!(valid_ipv4("10.260.0.1").is_err());
    assert!(valid_ipv4("300.1.1.1").is_err());
    assert_eq!(valid_ipv4("10.250.0.1"), Ok(true));
    assert_eq!(valid_ipv4("10.199.0.1"), Ok(true));
}

#[test]
fn last_octet_is_range_checked() {
    assert!(valid_ipv4("1.1.1.256").is_err());
    assert!(valid_ipv4("1.1.1.999").is_err());
    assert_eq!(valid_ipv4("1.1.1.255"), Ok(true));
}

#[test]
fn too_few_octets_fail() {
    assert!(valid_ipv4("215").is_err());
    assert!(valid_ipv4("215.0").is_err());
    assert!(valid_ipv4("215.0.1").is_err());
    assert!(valid_ipv4("215.0.10.").is_err());
    assert!(valid_ipv4("100.100.100").is_err());
}

#[test]
fn too_many_separators_fail() {
    assert!(valid_ipv4("295.34.1.5.").is_err());
    assert!(valid_ipv4("1.2.3.4.5").is_err());
}

#[test]
fn four_digit_octet_fails() {
    assert!(valid_ipv4("1000.1.1.1").is_err());
    assert!(valid_ipv4("1.1.1.0001").is_err());
}

#[test]
fn leading_zeros_within_three_digits_pass() {
    assert_eq!(valid_ipv4("01.002.0.255"), Ok(true));
    assert_eq!(valid_ipv4("000.000.000.000"), Ok(true));
}

#[test]
fn illegal_characters_fail() {
    assert!(valid_ipv4("1.1.1.a").is_err());
    assert!(valid_ipv4(" 1.1.1.1").is_err());
    assert!(valid_ipv4("1.1.1.1 ").is_err());
    assert!(valid_ipv4("1.1.1.-1").is_err());
    assert!(valid_ipv4("1.1.\u{e9}.1").is_err());
    assert!(valid_ipv4("\u{661}.1.1.1").is_err());
}

#[test]
fn repeated_validation_agrees() {
    for addr in ["10.0.0.1", "10.256.0.1", "215.0", "1.1.1.1"] {
        assert_eq!(valid_ipv4(addr), valid_ipv4(addr));
        assert_eq!(valid_ipv4(addr), valid_ipv4(&String::from(addr)));
    }
}

#[test]
fn every_octet_value_accepted() {
    for v in 0..=255u32 {
        let a = format!("{}.{}.{}.{}", v, 255 - v, v / 2, v % 10);
        assert_eq!(valid_ipv4(&a), Ok(true), "{}", a);
    }
}

#[test]
fn error_message() {
    assert_eq!(InvalidAddrErr.message(), "invalid ipv4 address string");
}
