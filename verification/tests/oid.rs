use branchless_hooks::oid::{MaybeZeroOid, ParseOidError};

fn bytes(text: &str) -> [u8; 20] {
    MaybeZeroOid::from_str(text).unwrap().to_bytes()
}

#[test]
fn full_oid_is_parsed() {
    let id = bytes("0123456789abcdef0123456789abcdef01234567");
    assert_eq!(
        id,
        [
            0x01, 0x23, 0x45, 0x67, 0x89, 0xab, 0xcd, 0xef, 0x01, 0x23, 0x45, 0x67, 0x89, 0xab,
            0xcd, 0xef, 0x01, 0x23, 0x45, 0x67
        ]
    );
}

#[test]
fn short_oid_is_padded_with_zeros() {
    let mut expected = [0u8; 20];
    expected[0] = 0x12;
    expected[1] = 0x3a;
    expected[2] = 0xb0;
    assert_eq!(bytes("123ab"), expected);
    assert_eq!(bytes("123ab0"), expected);
    assert_eq!(bytes("123ab00000"), expected);
}

#[test]
fn digits_may_have_either_case() {
    assert_eq!(bytes("ABCDEF"), bytes("abcdef"));
    assert_ne!(bytes("ABCDEF"), bytes("ABCDEE"));
}

#[test]
fn zeros_are_the_zero_oid() {
    assert_eq!(MaybeZeroOid::from_str("000000"), Ok(MaybeZeroOid::Zero));
    assert_eq!(MaybeZeroOid::from_str("0"), Ok(MaybeZeroOid::Zero));
    let all = "0000000000000000000000000000000000000000";
    assert_eq!(MaybeZeroOid::from_str(all), Ok(MaybeZeroOid::Zero));
    assert!(MaybeZeroOid::from_str(all).unwrap().is_zero());
    let last = MaybeZeroOid::from_str("0000000000000000000000000000000000000001").unwrap();
    assert!(!last.is_zero());
    assert_eq!(MaybeZeroOid::from_bytes([0u8; 20]), MaybeZeroOid::Zero);
}

#[test]
fn texts_that_are_no_oid_are_refused() {
    assert_eq!(MaybeZeroOid::from_str(""), Err(ParseOidError::Empty));
    assert_eq!(
        MaybeZeroOid::from_str("12345678123456781234567812345678123456781"),
        Err(ParseOidError::TooLong)
    );
    assert_eq!(MaybeZeroOid::from_str("12g"), Err(ParseOidError::InvalidCharacter));
    assert_eq!(MaybeZeroOid::from_str("12/"), Err(ParseOidError::InvalidCharacter));
    assert_eq!(MaybeZeroOid::from_str("12:"), Err(ParseOidError::InvalidCharacter));
    assert_eq!(MaybeZeroOid::from_str("12@"), Err(ParseOidError::InvalidCharacter));
    assert_eq!(MaybeZeroOid::from_str("12`"), Err(ParseOidError::InvalidCharacter));
    assert_eq!(MaybeZeroOid::from_str("1 2"), Err(ParseOidError::InvalidCharacter));
    assert_eq!(MaybeZeroOid::from_hex(b"\xff"), Err(ParseOidError::InvalidCharacter));
}

#[test]
fn oids_are_compared_by_their_bytes() {
    let left = MaybeZeroOid::from_str("abc").unwrap();
    let same = MaybeZeroOid::from_str("ABC0").unwrap();
    let other = MaybeZeroOid::from_str("abd").unwrap();
    assert!(left.same_oid(&same));
    assert!(!left.same_oid(&other));
    assert!(!left.same_oid(&MaybeZeroOid::Zero));
    assert!(MaybeZeroOid::Zero.same_oid(&MaybeZeroOid::Zero));
    match MaybeZeroOid::from_bytes(left.to_bytes()) {
        MaybeZeroOid::NonZero(oid) => assert_eq!(oid.to_bytes(), left.to_bytes()),
        MaybeZeroOid::Zero => panic!("not zero"),
    }
}

#[test]
fn oids_are_read_as_git_reads_them() {
    for text in [
        "",
        "0",
        "f",
        "123abc",
        "456DEF",
        "xyz",
        "1234567812345678123456781234567812345678",
        "12345678123456781234567812345678123456789",
    ] {
        match (MaybeZeroOid::from_str(text), git2::Oid::from_str(text)) {
            (Ok(ours), Ok(theirs)) => {
                assert_eq!(&ours.to_bytes()[..], theirs.as_bytes());
                assert_eq!(ours.is_zero(), theirs.is_zero());
            }
            (Err(_), Err(_)) => {}
            (ours, theirs) => panic!("{:?}: {:?}, {:?}", text, ours, theirs.is_ok()),
        }
    }
}
