use branchless_hooks::bytes::{same_bytes, split_on, starts_with};
use branchless_hooks::oid::{MaybeZeroOid, ParseOidError};
use branchless_hooks::packed_refs::{
    parse_packed_refs_line, read_packed_refs_file, read_packed_refs_line, PackedReferences,
    UnusableLine,
};

const OID: &str = "1234567812345678123456781234567812345678";

fn oid(text: &str) -> MaybeZeroOid {
    MaybeZeroOid::from_str(text).unwrap()
}

#[test]
fn test_parse_packed_refs_line() {
    let line: &[u8] = b"1234567812345678123456781234567812345678 refs/foo/bar";
    let name = b"refs/foo/bar".to_vec();
    let oid = MaybeZeroOid::from_str("1234567812345678123456781234567812345678").unwrap();
    assert_eq!(parse_packed_refs_line(line), Some((name, oid)));
}

#[test]
fn lines_that_are_no_references_are_passed_over() {
    assert_eq!(parse_packed_refs_line(b""), None);
    assert_eq!(parse_packed_refs_line(b"# pack-refs with: peeled fully-peeled sorted "), None);
    assert_eq!(parse_packed_refs_line(b"^1234567812345678123456781234567812345678"), None);
    assert_eq!(parse_packed_refs_line(b"1234567812345678123456781234567812345678"), None);
    assert_eq!(parse_packed_refs_line(b"1234567812345678123456781234567812345678 "), None);
    assert_eq!(parse_packed_refs_line(b" refs/foo/bar"), None);
    assert_eq!(parse_packed_refs_line(b"12xy refs/foo/bar"), None);
    assert_eq!(
        parse_packed_refs_line(b"12345678123456781234567812345678123456781 refs/foo/bar"),
        None
    );
}

#[test]
fn unusable_lines_say_why() {
    assert_eq!(read_packed_refs_line(b""), Ok(None));
    assert_eq!(read_packed_refs_line(b"# pack-refs with: peeled"), Ok(None));
    assert_eq!(
        read_packed_refs_line(b"12 refs/foo"),
        Ok(Some((b"refs/foo".to_vec(), oid("12"))))
    );
    assert_eq!(read_packed_refs_line(b"^12"), Err(UnusableLine::UnrecognizedStart));
    assert_eq!(read_packed_refs_line(b"9 refs/foo"), Err(UnusableLine::UnrecognizedStart));
    assert_eq!(read_packed_refs_line(b"12"), Err(UnusableLine::NoMatch));
    assert_eq!(read_packed_refs_line(b"12 refs/\xe4"), Err(UnusableLine::NoMatch));
    assert_eq!(
        read_packed_refs_line(b"12xy refs/foo"),
        Err(UnusableLine::InvalidOid(ParseOidError::InvalidCharacter))
    );
    assert_eq!(
        read_packed_refs_line(b"12345678123456781234567812345678123456781 refs/foo"),
        Err(UnusableLine::InvalidOid(ParseOidError::TooLong))
    );
}

#[test]
fn first_character_decides_whether_a_line_is_read() {
    for (first, read) in [
        (b'/', false),
        (b'0', true),
        (b'8', true),
        (b'9', false),
        (b'`', false),
        (b'a', true),
        (b'e', true),
        (b'f', false),
        (b'A', false),
    ] {
        let mut line = vec![first];
        line.extend_from_slice(b"1 refs/foo");
        assert_eq!(parse_packed_refs_line(&line).is_some(), read, "{}", first as char);
    }
}

#[test]
fn names_are_utf8_without_newlines_and_may_hold_spaces() {
    assert_eq!(
        parse_packed_refs_line(b"12 refs/a b "),
        Some((b"refs/a b ".to_vec(), oid("12")))
    );
    assert_eq!(
        parse_packed_refs_line("12 refs/\u{e4}".as_bytes()),
        Some(("refs/\u{e4}".as_bytes().to_vec(), oid("12")))
    );
    assert_eq!(parse_packed_refs_line(b"12  refs"), Some((b" refs".to_vec(), oid("12"))));
    assert_eq!(parse_packed_refs_line(b"12 refs/\xe4"), None);
    assert_eq!(parse_packed_refs_line(b"12 refs/\xed\xa0\x80"), None);
    assert_eq!(parse_packed_refs_line(b"12 refs/a\nb"), None);
    assert_eq!(parse_packed_refs_line(b"12 refs/a\n"), None);
    assert_eq!(
        parse_packed_refs_line(b"12 refs/a\r"),
        Some((b"refs/a\r".to_vec(), oid("12")))
    );
    assert_eq!(parse_packed_refs_line(b"1\xff refs/a"), None);
}

#[test]
fn missing_file_has_no_references() {
    let packed = read_packed_refs_file(None);
    assert_eq!(packed.get(b"refs/foo"), None);
    assert_eq!(PackedReferences::new().get(b""), None);
}

#[test]
fn file_is_read_line_by_line() {
    let text = b"# pack-refs with: peeled fully-peeled sorted \n\
        1234567812345678123456781234567812345678 refs/heads/foo\n\
        \n\
        ^abc\n\
        abcdef refs/tags/bar\n\
        abc000 refs/heads/foo\n\
        0 refs/heads/zero";
    let packed = read_packed_refs_file(Some(&text[..]));
    assert_eq!(packed.get(b"refs/heads/foo"), Some(&oid("abc")));
    assert_eq!(packed.get(b"refs/tags/bar"), Some(&oid("abcdef")));
    assert_eq!(packed.get(b"refs/heads/zero"), Some(&MaybeZeroOid::Zero));
    assert_eq!(packed.get(b"refs/heads/baz"), None);
}

#[test]
fn later_references_win() {
    let mut packed = PackedReferences::new();
    packed.insert(b"refs/foo".to_vec(), oid("1"));
    packed.insert(b"refs/bar".to_vec(), oid("2"));
    packed.insert(b"refs/foo".to_vec(), oid(OID));
    assert_eq!(packed.get(b"refs/foo"), Some(&oid(OID)));
    assert_eq!(packed.get(b"refs/bar"), Some(&oid("2")));
}

#[test]
fn texts_are_split_after_separators() {
    let none: Vec<Vec<u8>> = Vec::new();
    assert_eq!(split_on(b"", b' '), none);
    assert_eq!(split_on(b" ", b' '), vec![b"".to_vec()]);
    assert_eq!(split_on(b"a b", b' '), vec![b"a".to_vec(), b"b".to_vec()]);
    assert_eq!(split_on(b"a b ", b' '), vec![b"a".to_vec(), b"b".to_vec()]);
    assert_eq!(split_on(b" a  b", b' '), vec![
        b"".to_vec(),
        b"a".to_vec(),
        b"".to_vec(),
        b"b".to_vec()
    ]);
}

#[test]
fn split_texts_are_what_a_buffered_reader_yields() {
    for text in ["", " ", "a", "a b", "a b ", "  a  ", "there are not three fields here"] {
        let expected: Vec<Vec<u8>> = std::io::BufRead::split(text.as_bytes(), b' ')
            .map(|piece| piece.unwrap())
            .collect();
        assert_eq!(split_on(text.as_bytes(), b' '), expected);
    }
}

#[test]
fn byte_strings_are_compared() {
    assert!(same_bytes(b"abc", b"abc"));
    assert!(!same_bytes(b"abc", b"abd"));
    assert!(!same_bytes(b"abc", b"ab"));
    assert!(starts_with(b"abc", b"ab"));
    assert!(starts_with(b"abc", b""));
    assert!(!starts_with(b"abc", b"b"));
    assert!(!starts_with(b"ab", b"abc"));
}

#[test]
fn pieces_rebuild_the_text() {
    for (text, rebuilt) in [("", ""), ("a b", "a b "), ("a  b ", "a  b "), (" ", " ")] {
        let mut joined = Vec::new();
        for piece in split_on(text.as_bytes(), b' ') {
            assert!(!piece.contains(&b' '));
            joined.extend_from_slice(&piece);
            joined.push(b' ');
        }
        assert_eq!(joined, rebuilt.as_bytes());
    }
}

#[test]
fn written_pieces_are_split_back() {
    let list = vec![b"a".to_vec(), b"".to_vec(), b"b c".to_vec(), b"".to_vec()];
    assert_eq!(split_on(b"a\n\nb c\n\n", b'\n'), list);
}

#[test]
fn two_texts_are_split_one_after_the_other() {
    let mut expected = split_on(b"a b ", b' ');
    expected.extend(split_on(b"c  d", b' '));
    assert_eq!(split_on(b"a b c  d", b' '), expected);
}

#[test]
fn files_in_a_row_add_up() {
    let packed = read_packed_refs_file(Some(b"1 refs/a\n2 refs/b\n3 refs/a\n4 refs/c"));
    assert_eq!(packed.get(b"refs/a"), Some(&oid("3")));
    assert_eq!(packed.get(b"refs/b"), Some(&oid("2")));
    assert_eq!(packed.get(b"refs/c"), Some(&oid("4")));
}
