use shaman_core::vault::{from_hex, to_hex};

#[test]
fn hex_round_trips() {
    let bytes = [0x00u8, 0x0f, 0x7f, 0x80, 0xff];
    assert_eq!(to_hex(&bytes), "000f7f80ff");
    assert_eq!(from_hex("000f7f80ff").unwrap(), bytes);
}

#[test]
fn malformed_hex_is_rejected_rather_than_panicking() {
    assert!(from_hex("abc").is_err(), "odd length");
    assert!(from_hex("zz").is_err(), "not hex");
}

#[test]
fn hex_errors_say_what_is_wrong() {
    assert_eq!(from_hex("abc").unwrap_err().message(), "stored secret is malformed (odd length)");
    assert_eq!(
        from_hex("zz").unwrap_err().message(),
        "stored secret is malformed: invalid digit found in string"
    );
}

#[test]
fn upper_case_hex_is_read_too() {
    assert_eq!(from_hex("ABcd").unwrap(), vec![0xab, 0xcd]);
    assert_eq!(from_hex("").unwrap(), Vec::<u8>::new());
}

#[test]
fn hex_of_either_case_is_read_and_written_back_in_lowercase() {
    let v = from_hex("0A1bFf").unwrap();
    assert_eq!(v, [0x0a, 0x1b, 0xff]);
    assert_eq!(to_hex(&v), "0a1bff");
    assert!(from_hex("0g").is_err());
    assert!(from_hex("é1").is_err());
    assert_eq!(from_hex("").unwrap(), Vec::<u8>::new());
}

#[test]
fn a_plus_sign_reads_as_from_str_radix_reads_it() {
    assert_eq!(from_hex("+f").unwrap(), [0x0f]);
}
