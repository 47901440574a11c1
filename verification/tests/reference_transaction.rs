use branchless_hooks::event_log::should_ignore_ref_updates;
use branchless_hooks::oid::{MaybeZeroOid, ParseOidError};
use branchless_hooks::packed_refs::PackedReferences;
use branchless_hooks::reference_transaction::{
    collect_updates, fix_packed_reference_oid, parse_decoded_fields, parse_fields,
    parse_reference_transaction_line, ParsedReferenceTransactionLine, TransactionLineError,
};

fn oid(text: &str) -> MaybeZeroOid {
    MaybeZeroOid::from_str(text).unwrap()
}

fn update(old_oid: &str, new_oid: &str, ref_name: &str) -> ParsedReferenceTransactionLine {
    ParsedReferenceTransactionLine {
        ref_name: ref_name.as_bytes().to_vec(),
        old_oid: oid(old_oid),
        new_oid: oid(new_oid),
    }
}

#[test]
fn test_parse_reference_transaction_line() {
    let line = b"123abc 456def refs/heads/mybranch";
    assert_eq!(
        parse_reference_transaction_line(line).unwrap(),
        ParsedReferenceTransactionLine {
            old_oid: MaybeZeroOid::from_str("123abc").unwrap(),
            new_oid: {
                let oid: MaybeZeroOid = MaybeZeroOid::from_str("456def").unwrap();
                oid
            },
            ref_name: b"refs/heads/mybranch".to_vec(),
        }
    );

    {
        let line = b"123abc 456def ORIG_HEAD";
        let parsed_line = parse_reference_transaction_line(line).unwrap();
        assert_eq!(
            parsed_line,
            ParsedReferenceTransactionLine {
                old_oid: MaybeZeroOid::from_str("123abc").unwrap(),
                new_oid: {
                    let oid: MaybeZeroOid = MaybeZeroOid::from_str("456def").unwrap();
                    oid
                },
                ref_name: b"ORIG_HEAD".to_vec(),
            }
        );
        assert!(should_ignore_ref_updates(&parsed_line.ref_name));
    }

    let line = b"there are not three fields here";
    assert!(parse_reference_transaction_line(line).is_err());
}

#[test]
fn lines_that_report_no_update_are_refused() {
    let count = Err(TransactionLineError::UnexpectedFieldCount);
    assert_eq!(parse_reference_transaction_line(b""), count);
    assert_eq!(parse_reference_transaction_line(b"1 2"), count);
    assert_eq!(parse_reference_transaction_line(b"1 2 "), count);
    assert_eq!(parse_reference_transaction_line(b"1 2 a b"), count);
    assert_eq!(parse_reference_transaction_line(b"there are not three fields here"), count);
    assert_eq!(
        parse_reference_transaction_line(b"x y refs/foo"),
        Err(TransactionLineError::InvalidOldOid(ParseOidError::InvalidCharacter))
    );
    assert_eq!(
        parse_reference_transaction_line(b" 1 refs/foo"),
        Err(TransactionLineError::InvalidOldOid(ParseOidError::Empty))
    );
    assert_eq!(
        parse_reference_transaction_line(b"1 y refs/foo"),
        Err(TransactionLineError::InvalidNewOid(ParseOidError::InvalidCharacter))
    );
    assert_eq!(
        parse_fields(&vec![b"1".to_vec(), b"2".to_vec()]),
        Err(TransactionLineError::UnexpectedFieldCount)
    );
}

#[test]
fn separator_at_the_end_of_a_line_is_no_field() {
    assert_eq!(parse_reference_transaction_line(b"1 2 refs/foo "), Ok(update("1", "2", "refs/foo")));
    assert_eq!(parse_reference_transaction_line(b"1 2  "), Ok(update("1", "2", "")));
}

#[test]
fn one_refused_field_makes_the_line_undecodable() {
    let field = |text: &str| Some(text.as_bytes().to_vec());
    assert_eq!(
        parse_decoded_fields(&vec![field("1"), field("2"), field("refs/foo")]),
        Ok(update("1", "2", "refs/foo"))
    );
    for refused in 0..3 {
        let mut fields = vec![field("1"), field("2"), field("refs/foo")];
        fields[refused] = None;
        assert_eq!(parse_decoded_fields(&fields), Err(TransactionLineError::UndecodableField));
    }
    assert_eq!(
        parse_decoded_fields(&vec![field("x"), None]),
        Err(TransactionLineError::UndecodableField)
    );
    assert_eq!(
        parse_decoded_fields(&vec![field("x"), field("2")]),
        Err(TransactionLineError::UnexpectedFieldCount)
    );
    assert_eq!(
        parse_decoded_fields(&vec![field("x"), field("2"), field("refs/foo")]),
        Err(TransactionLineError::InvalidOldOid(ParseOidError::InvalidCharacter))
    );
}

#[test]
fn names_need_not_be_utf8_where_the_platform_holds_them() {
    let parsed = parse_reference_transaction_line(b"1 2 refs/\xff");
    match parsed {
        Ok(parsed) => assert_eq!(parsed.ref_name, b"refs/\xff".to_vec()),
        Err(err) => assert_eq!(err, TransactionLineError::UndecodableField),
    }
}

#[test]
fn packing_leaves_the_reference() {
    let mut packed = PackedReferences::new();
    packed.insert(b"refs/heads/foo".to_vec(), oid("abc123"));
    assert_eq!(
        fix_packed_reference_oid(&packed, update("000000", "abc123", "refs/heads/foo")),
        update("abc123", "abc123", "refs/heads/foo")
    );
    assert_eq!(
        fix_packed_reference_oid(&packed, update("abc123", "000000", "refs/heads/foo")),
        update("abc123", "abc123", "refs/heads/foo")
    );
}

#[test]
fn other_updates_are_left_alone() {
    let mut packed = PackedReferences::new();
    packed.insert(b"refs/heads/foo".to_vec(), oid("abc123"));
    for (old_oid, new_oid, ref_name) in [
        ("0", "def456", "refs/heads/foo"),
        ("def456", "0", "refs/heads/foo"),
        ("abc123", "def456", "refs/heads/foo"),
        ("def456", "abc123", "refs/heads/foo"),
        ("0", "abc123", "refs/heads/bar"),
        ("abc123", "0", "refs/heads/bar"),
        ("0", "0", "refs/heads/foo"),
    ] {
        assert_eq!(
            fix_packed_reference_oid(&packed, update(old_oid, new_oid, ref_name)),
            update(old_oid, new_oid, ref_name)
        );
    }
}

#[test]
fn fixing_is_idempotent() {
    let mut packed = PackedReferences::new();
    packed.insert(b"refs/heads/foo".to_vec(), oid("abc123"));
    packed.insert(b"refs/heads/zero".to_vec(), MaybeZeroOid::Zero);
    for (old_oid, new_oid, ref_name) in [
        ("0", "abc123", "refs/heads/foo"),
        ("abc123", "0", "refs/heads/foo"),
        ("0", "0", "refs/heads/zero"),
        ("1", "2", "refs/heads/foo"),
    ] {
        let once = fix_packed_reference_oid(&packed, update(old_oid, new_oid, ref_name));
        let again = fix_packed_reference_oid(&packed, update(old_oid, new_oid, ref_name));
        assert_eq!(fix_packed_reference_oid(&packed, once), again);
    }
}

#[test]
fn ignored_references_are_known_by_name() {
    assert!(should_ignore_ref_updates(b"ORIG_HEAD"));
    assert!(should_ignore_ref_updates(b"refs/branchless/123abc"));
    assert!(!should_ignore_ref_updates(b"HEAD"));
    assert!(!should_ignore_ref_updates(b"ORIG_HEAD2"));
    assert!(!should_ignore_ref_updates(b"refs/heads/ORIG_HEAD"));
    assert!(!should_ignore_ref_updates(b"refs/heads/mybranch"));
    assert!(!should_ignore_ref_updates(b""));
}

#[test]
fn updates_of_interest_are_collected_in_order() {
    let mut packed = PackedReferences::new();
    packed.insert(b"refs/heads/foo".to_vec(), oid("abc123"));
    let lines = vec![
        Some(b"1 2 refs/heads/bar".to_vec()),
        None,
        Some(b"1 2 ORIG_HEAD".to_vec()),
        Some(b"there are not three fields here".to_vec()),
        Some(b"0 abc123 refs/heads/foo".to_vec()),
        Some(b"".to_vec()),
        Some(b"2 3 HEAD".to_vec()),
    ];
    assert_eq!(collect_updates(&packed, &lines), vec![
        update("1", "2", "refs/heads/bar"),
        update("abc123", "abc123", "refs/heads/foo"),
        update("2", "3", "HEAD"),
    ]);
}

#[test]
fn updates_of_two_lists_follow_each_other() {
    let packed = PackedReferences::new();
    let first = || vec![Some(b"1 2 refs/b".to_vec()), Some(b"1 2 ORIG_HEAD".to_vec())];
    let second = || vec![None, Some(b"3 4 refs/a".to_vec())];
    let both = first().into_iter().chain(second()).collect();
    let mut expected = collect_updates(&packed, &first());
    expected.extend(collect_updates(&packed, &second()));
    assert_eq!(collect_updates(&packed, &both), expected);
    assert_eq!(expected, vec![update("1", "2", "refs/b"), update("3", "4", "refs/a")]);
}
