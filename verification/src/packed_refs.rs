//! The `packed-refs` file, in which Git keeps references that rarely change.

use crate::bytes::{
    contents, first_piece_len, law_pieces_of_two_texts, lemma_first_piece_len,
    lemma_first_piece_len_bounds, pieces, same_bytes, split_on,
};
use crate::oid::{is_hex_digit, parsed_oid, MaybeZeroOid, ParseOidError};
use crate::outside::{capture_two_groups, platform_string, split_at_first_space};
use vstd::prelude::*;
use vstd::utf8::valid_utf8;

verus! {

/// One reference of the `packed-refs` file.
#[derive(Debug)]
struct PackedReference {
    name: Vec<u8>,
    oid: MaybeZeroOid,
}

/// The references of a `packed-refs` file: each name with the object ID that the file gives it
/// last.
#[derive(Debug)]
pub struct PackedReferences {
    /// In the order of the file; of two entries with one name the later counts.
    entries: Vec<PackedReference>,
}

/// The map that `entries` make, the later over the earlier.
spec fn entry_map(entries: Seq<PackedReference>) -> Map<Seq<u8>, Seq<u8>>
    decreases entries.len(),
{
    if entries.len() == 0 {
        Map::empty()
    } else {
        entry_map(entries.drop_last()).insert(entries.last().name@, entries.last().oid@)
    }
}

impl View for PackedReferences {
    type V = Map<Seq<u8>, Seq<u8>>;

    closed spec fn view(&self) -> Map<Seq<u8>, Seq<u8>> {
        entry_map(self.entries@)
    }
}

/// Whether a line that begins with `c` is taken for a reference: `0` to `8` (0x30 to 0x38) or
/// `a` to `e` (0x61 to 0x65).
///
/// The last digit of each range, `9` and `f`, is not among them, nor are the `#` of the pragma
/// and the `^` of a peeled tag.
pub open spec fn begins_reference(c: u8) -> bool {
    ||| 0x30 <= c < 0x39
    ||| 0x61 <= c < 0x66
}

/// The name and the object ID that a line of the file gives, if it is a reference: the
/// hexadecimal digits of the ID, a space, and the name.
pub open spec fn packed_line(line: Seq<u8>) -> Option<(Seq<u8>, Seq<u8>)> {
    if line.len() == 0 || !begins_reference(line[0]) {
        None
    } else {
        match split_at_first_space(line) {
            None => None,
            Some((digits, name)) => match parsed_oid(digits) {
                Ok(oid) => Some((name, oid)),
                Err(_) => None,
            },
        }
    }
}

/// Why a line cannot be used.
#[derive(Clone, Copy, Debug, PartialEq, Eq)]
pub enum UnusableLine {
    /// It does not begin as a reference does.
    UnrecognizedStart,
    /// It is not made of two parts that a space separates.
    NoMatch,
    /// Its first part is no object ID.
    InvalidOid(ParseOidError),
    /// A string of this platform cannot hold its second part. The part is UTF-8, so this does not
    /// come about.
    UndecodableName,
}

/// What reading a line of the file comes to: the reference that it gives; or none, for an empty
/// line and the pragma (`#`, 0x23); or why it cannot be used.
pub open spec fn line_reading(line: Seq<u8>) -> Result<Option<(Seq<u8>, Seq<u8>)>, UnusableLine> {
    if line.len() == 0 || line[0] == 0x23 {
        Ok(None)
    } else if !begins_reference(line[0]) {
        Err(UnusableLine::UnrecognizedStart)
    } else {
        match split_at_first_space(line) {
            None => Err(UnusableLine::NoMatch),
            Some((digits, name)) => match parsed_oid(digits) {
                Ok(oid) => Ok(Some((name, oid))),
                Err(err) => Err(UnusableLine::InvalidOid(err)),
            },
        }
    }
}

/// The references that `lines` give, the later over the earlier.
pub open spec fn packed_lines(lines: Seq<Seq<u8>>) -> Map<Seq<u8>, Seq<u8>>
    decreases lines.len(),
{
    if lines.len() == 0 {
        Map::empty()
    } else {
        let earlier = packed_lines(lines.drop_last());
        match packed_line(lines.last()) {
            Some((name, oid)) => earlier.insert(name, oid),
            None => earlier,
        }
    }
}

/// The references of a file with the contents `text`.
pub open spec fn packed_file(text: Seq<u8>) -> Map<Seq<u8>, Seq<u8>> {
    packed_lines(pieces(text, 0x0a))
}

/// The view of a parsed line.
pub open spec fn line_view(line: Option<(Vec<u8>, MaybeZeroOid)>) -> Option<(Seq<u8>, Seq<u8>)> {
    match line {
        Some((name, oid)) => Some((name@, oid@)),
        None => None,
    }
}

/// The view of the outcome of reading a line.
pub open spec fn reading_view(
    reading: Result<Option<(Vec<u8>, MaybeZeroOid)>, UnusableLine>,
) -> Result<Option<(Seq<u8>, Seq<u8>)>, UnusableLine> {
    match reading {
        Ok(line) => Ok(line_view(line)),
        Err(err) => Err(err),
    }
}

/// Reads a line of the `packed-refs` file, and says why where it cannot be used.
pub fn read_packed_refs_line(line: &[u8]) -> (res: Result<
    Option<(Vec<u8>, MaybeZeroOid)>,
    UnusableLine,
>)
    ensures
        reading_view(res) == line_reading(line@),
{
    if line.len() == 0 {
        return Ok(None);
    }
    let first = line[0];
    if first == 0x23 {
        return Ok(None);
    }
    if !(0x30 <= first && first < 0x39) && !(0x61 <= first && first < 0x66) {
        return Err(UnusableLine::UnrecognizedStart);
    }
    let (digits, name) = match capture_two_groups("^([^ ]+) (.+)$", line) {
        None => {
            return Err(UnusableLine::NoMatch);
        },
        Some(groups) => groups,
    };
    let oid = match MaybeZeroOid::from_hex(digits.as_slice()) {
        Ok(oid) => oid,
        Err(err) => {
            return Err(UnusableLine::InvalidOid(err));
        },
    };
    match platform_string(name) {
        Ok(name) => Ok(Some((name, oid))),
        Err(_) => Err(UnusableLine::UndecodableName),
    }
}

/// Parses a line of the `packed-refs` file.
pub fn parse_packed_refs_line(line: &[u8]) -> (res: Option<(Vec<u8>, MaybeZeroOid)>)
    ensures
        line_view(res) == packed_line(line@),
{
    match read_packed_refs_line(line) {
        Ok(reference) => reference,
        Err(_) => None,
    }
}

impl PackedReferences {
    /// No references.
    pub fn new() -> (res: PackedReferences)
        ensures
            res@ == Map::<Seq<u8>, Seq<u8>>::empty(),
    {
        PackedReferences { entries: Vec::new() }
    }

    /// Gives `name` the object ID `oid`.
    pub fn insert(&mut self, name: Vec<u8>, oid: MaybeZeroOid)
        ensures
            final(self)@ == old(self)@.insert(name@, oid@),
    {
        let entry = PackedReference { name, oid };
        proof {
            assert(self.entries@.push(entry).drop_last() =~= self.entries@);
        }
        self.entries.push(entry);
    }

    /// The object ID of `name`, if there is one.
    pub fn get(&self, name: &[u8]) -> (res: Option<&MaybeZeroOid>)
        ensures
            match res {
                Some(oid) => self@.contains_key(name@) && self@[name@] == oid@,
                None => !self@.contains_key(name@),
            },
    {
        let mut i: usize = self.entries.len();
        assert(self.entries@.take(i as int) =~= self.entries@);
        while i > 0
            invariant
                i <= self.entries@.len(),
                self@.contains_key(name@) == entry_map(
                    self.entries@.take(i as int),
                ).contains_key(name@),
                self@.contains_key(name@) ==> self@[name@] == entry_map(
                    self.entries@.take(i as int),
                )[name@],
            decreases i,
        {
            let ghost prefix = self.entries@.take(i as int);
            assert(prefix.drop_last() =~= self.entries@.take(i - 1));
            i = i - 1;
            if same_bytes(self.entries[i].name.as_slice(), name) {
                return Some(&self.entries[i].oid);
            }
        }
        None
    }
}

/// Reads a `packed-refs` file with the given contents; `None` stands for a repository that has no
/// such file, and so no packed references.
pub fn read_packed_refs_file(file: Option<&[u8]>) -> (res: PackedReferences)
    ensures
        res@ == match file {
            Some(text) => packed_file(text@),
            None => Map::empty(),
        },
{
    let mut res = PackedReferences::new();
    let text = match file {
        Some(text) => text,
        None => {
            return res;
        },
    };
    let lines = split_on(text, 0x0a);
    let ghost all = contents(lines@);
    let mut i: usize = 0;
    while i < lines.len()
        invariant
            i <= lines@.len(),
            all == contents(lines@),
            res@ == packed_lines(all.take(i as int)),
        decreases lines@.len() - i,
    {
        proof {
            assert(all.take(i + 1).drop_last() =~= all.take(i as int));
            assert(all.take(i + 1).last() == lines@[i as int]@);
        }
        if let Some((name, oid)) = parse_packed_refs_line(lines[i].as_slice()) {
            res.insert(name, oid);
        }
        i = i + 1;
    }
    assert(all.take(i as int) =~= all);
    res
}

proof fn lemma_packed_lines_in_a_row(first: Seq<Seq<u8>>, second: Seq<Seq<u8>>)
    ensures
        packed_lines(first + second) == packed_lines(first).union_prefer_right(
            packed_lines(second),
        ),
    decreases second.len(),
{
    let both = first + second;
    if second.len() == 0 {
        assert(both =~= first);
        assert(packed_lines(first).union_prefer_right(packed_lines(second)) =~= packed_lines(
            first,
        ));
    } else {
        assert(both.drop_last() =~= first + second.drop_last());
        assert(both.last() == second.last());
        lemma_packed_lines_in_a_row(first, second.drop_last());
        assert(packed_lines(both) =~= packed_lines(first).union_prefer_right(
            packed_lines(second),
        ));
    }
}

/// Where the first part of a file ends in a newline, the file gives the references of both its
/// parts, those of the second over those of the first.
pub proof fn law_later_references_win(first: Seq<u8>, second: Seq<u8>)
    requires
        first.len() == 0 || first.last() == 0x0a,
    ensures
        packed_file(first + second) == packed_file(first).union_prefer_right(packed_file(second)),
{
    law_pieces_of_two_texts(first, second, 0x0a);
    lemma_packed_lines_in_a_row(pieces(first, 0x0a), pieces(second, 0x0a));
}

/// The pragma at the head of the file (`#`, 0x23), peeled tags (`^`, 0x5e) and empty lines give no
/// reference.
pub proof fn law_other_lines_give_no_reference(line: Seq<u8>)
    requires
        line.len() == 0 || line[0] == 0x23 || line[0] == 0x5e,
    ensures
        packed_line(line) is None,
{
}

/// A reference that is written as a line, its object ID in hexadecimal digits that begin as a
/// reference does, a space and its name in UTF-8, is read back.
pub proof fn law_written_references_are_read_back(digits: Seq<u8>, oid: Seq<u8>, name: Seq<u8>)
    requires
        parsed_oid(digits) == Ok::<Seq<u8>, ParseOidError>(oid),
        begins_reference(digits[0]),
        name.len() > 0,
        valid_utf8(name),
        !name.contains(0x0a),
    ensures
        packed_line(digits.push(0x20) + name) == Some((name, oid)),
{
    let line = digits.push(0x20) + name;
    assert forall|i: int| 0 <= i < digits.len() implies is_hex_digit(#[trigger] digits[i]) by {}
    lemma_first_piece_len(line, 0x20, digits.len());
    assert(line.take(digits.len() as int) =~= digits);
    assert(line.skip(digits.len() as int + 1) =~= name);
    lemma_digits_are_utf8(digits);
}

/// Hexadecimal digits are UTF-8.
proof fn lemma_digits_are_utf8(digits: Seq<u8>)
    requires
        forall|i: int| 0 <= i < digits.len() ==> is_hex_digit(#[trigger] digits[i]),
    ensures
        valid_utf8(digits),
    decreases digits.len(),
{
    if digits.len() > 0 {
        assert(is_hex_digit(digits[0]));
        let byte = digits[0];
        assert(byte <= 0x7f ==> (byte & 0x7f) <= 0x7f) by (bit_vector);
        let rest = vstd::utf8::pop_first_scalar(digits);
        assert(rest =~= digits.drop_first());
        lemma_digits_are_utf8(rest);
    }
}

/// Just the lines of one shape give a reference: the digits of its object ID, which begin with `0`
/// to `8` or `a` to `e`, a space, and its name, which is UTF-8, not empty and without a newline.
pub proof fn law_lines_of_one_shape_give_references(line: Seq<u8>, name: Seq<u8>, oid: Seq<u8>)
    ensures
        packed_line(line) == Some((name, oid)) <==> exists|digits: Seq<u8>|
            {
                &&& line == #[trigger] (digits.push(0x20) + name)
                &&& parsed_oid(digits) == Ok::<Seq<u8>, ParseOidError>(oid)
                &&& 0x30 <= digits[0] <= 0x38 || 0x61 <= digits[0] <= 0x65
                &&& name.len() > 0
                &&& valid_utf8(name)
                &&& !name.contains(0x0a)
            },
{
    if packed_line(line) == Some((name, oid)) {
        lemma_first_piece_len_bounds(line, 0x20);
        let digits = line.take(first_piece_len(line, 0x20) as int);
        assert(line =~= digits.push(0x20) + name);
    }
    if exists|digits: Seq<u8>|
        {
            &&& line == #[trigger] (digits.push(0x20) + name)
            &&& parsed_oid(digits) == Ok::<Seq<u8>, ParseOidError>(oid)
            &&& 0x30 <= digits[0] <= 0x38 || 0x61 <= digits[0] <= 0x65
            &&& name.len() > 0
            &&& valid_utf8(name)
            &&& !name.contains(0x0a)
        } {
        let digits = choose|digits: Seq<u8>|
            {
                &&& line == #[trigger] (digits.push(0x20) + name)
                &&& parsed_oid(digits) == Ok::<Seq<u8>, ParseOidError>(oid)
                &&& 0x30 <= digits[0] <= 0x38 || 0x61 <= digits[0] <= 0x65
                &&& name.len() > 0
                &&& valid_utf8(name)
                &&& !name.contains(0x0a)
            };
        law_written_references_are_read_back(digits, oid, name);
    }
}

/// Every line is a reference, or is passed over, or cannot be used for one reason: it begins as no
/// reference does, what stands before its first space is no object ID, or it has not two parts.
pub proof fn law_unusable_lines_have_a_reason(
    line: Seq<u8>,
    reference: (Seq<u8>, Seq<u8>),
    err: ParseOidError,
)
    ensures
        line_reading(line) == Ok::<Option<(Seq<u8>, Seq<u8>)>, UnusableLine>(Some(reference))
            <==> packed_line(line) == Some(reference),
        line_reading(line) == Ok::<Option<(Seq<u8>, Seq<u8>)>, UnusableLine>(None) <==> line.len()
            == 0 || line[0] == 0x23,
        line_reading(line) == Err::<Option<(Seq<u8>, Seq<u8>)>, UnusableLine>(
            UnusableLine::UnrecognizedStart,
        ) <==> line.len() > 0 && line[0] != 0x23 && !(0x30 <= line[0] <= 0x38) && !(0x61 <= line[0]
            <= 0x65),
        line_reading(line) == Err::<Option<(Seq<u8>, Seq<u8>)>, UnusableLine>(
            UnusableLine::InvalidOid(err),
        ) <==> (0x30 <= line[0] <= 0x38 || 0x61 <= line[0] <= 0x65) && exists|
            head: Seq<u8>,
            tail: Seq<u8>,
        |
            {
                &&& line == #[trigger] (head.push(0x20) + tail)
                &&& parsed_oid(head) == Err::<Seq<u8>, ParseOidError>(err)
                &&& head.len() > 0 && !head.contains(0x20) && valid_utf8(head)
                &&& tail.len() > 0 && !tail.contains(0x0a) && valid_utf8(tail)
            },
        line_reading(line) != Err::<Option<(Seq<u8>, Seq<u8>)>, UnusableLine>(
            UnusableLine::UndecodableName,
        ),
{
    lemma_first_piece_len_bounds(line, 0x20);
    let n = first_piece_len(line, 0x20) as int;
    if line_reading(line) == Err::<Option<(Seq<u8>, Seq<u8>)>, UnusableLine>(
        UnusableLine::InvalidOid(err),
    ) {
        assert(line =~= line.take(n).push(0x20) + line.skip(n + 1));
        assert(!line.take(n).contains(0x20));
    }
    if exists|head: Seq<u8>, tail: Seq<u8>|
        {
            &&& line == #[trigger] (head.push(0x20) + tail)
            &&& parsed_oid(head) == Err::<Seq<u8>, ParseOidError>(err)
            &&& head.len() > 0 && !head.contains(0x20) && valid_utf8(head)
            &&& tail.len() > 0 && !tail.contains(0x0a) && valid_utf8(tail)
        } {
        let (head, tail) = choose|head: Seq<u8>, tail: Seq<u8>|
            {
                &&& line == #[trigger] (head.push(0x20) + tail)
                &&& parsed_oid(head) == Err::<Seq<u8>, ParseOidError>(err)
                &&& head.len() > 0 && !head.contains(0x20) && valid_utf8(head)
                &&& tail.len() > 0 && !tail.contains(0x0a) && valid_utf8(tail)
            };
        assert forall|i: int| 0 <= i < head.len() implies line[i] != 0x20 by {
            assert(head.contains(head[i]));
        }
        lemma_first_piece_len(line, 0x20, head.len());
        assert(line.take(head.len() as int) =~= head);
        assert(line.skip(head.len() as int + 1) =~= tail);
    }
}

/// A file gives a name an object ID just if one of its lines does and no later line gives that name
/// another.
pub proof fn law_files_hold_what_their_lines_give(text: Seq<u8>, name: Seq<u8>, oid: Seq<u8>)
    ensures
        packed_file(text).contains_pair(name, oid) <==> exists|k: int|
            {
                &&& 0 <= k < pieces(text, 0x0a).len()
                &&& packed_line(#[trigger] pieces(text, 0x0a)[k]) == Some((name, oid))
                &&& forall|j: int|
                    k < j < pieces(text, 0x0a).len() ==> !(packed_line(
                        #[trigger] pieces(text, 0x0a)[j],
                    ) matches Some(later) && later.0 == name)
            },
{
    lemma_lines_give_the_last(pieces(text, 0x0a), name, oid);
}

/// Whether line `k` of `lines` gives `name` the object ID `oid`, and no later line gives that name
/// one.
spec fn gives_last(lines: Seq<Seq<u8>>, name: Seq<u8>, oid: Seq<u8>, k: int) -> bool {
    &&& 0 <= k < lines.len()
    &&& packed_line(lines[k]) == Some((name, oid))
    &&& forall|j: int|
        k < j < lines.len() ==> !(packed_line(#[trigger] lines[j]) matches Some(later) && later.0
            == name)
}

proof fn lemma_lines_give_the_last(lines: Seq<Seq<u8>>, name: Seq<u8>, oid: Seq<u8>)
    ensures
        packed_lines(lines).contains_pair(name, oid) <==> exists|k: int| #[trigger]
            gives_last(lines, name, oid, k),
        packed_lines(lines).contains_pair(name, oid) <==> exists|k: int|
            {
                &&& 0 <= k < lines.len()
                &&& packed_line(#[trigger] lines[k]) == Some((name, oid))
                &&& forall|j: int|
                    k < j < lines.len() ==> !(packed_line(#[trigger] lines[j]) matches Some(later)
                        && later.0 == name)
            },
    decreases lines.len(),
{
    if lines.len() > 0 {
        let shorter = lines.drop_last();
        let last = lines.len() - 1;
        lemma_lines_give_the_last(shorter, name, oid);
        let names_it = match packed_line(lines[last]) {
            Some((given, _)) => given == name,
            None => false,
        };
        if names_it {
            assert(packed_line(lines[last]) == Some((name, oid)) ==> gives_last(
                lines,
                name,
                oid,
                last,
            ));
        } else {
            if packed_lines(lines).contains_pair(name, oid) {
                let k = choose|k: int| #[trigger] gives_last(shorter, name, oid, k);
                assert(lines[k] == shorter[k]);
                assert forall|j: int| k < j < lines.len() implies !(packed_line(
                    #[trigger] lines[j],
                ) matches Some(later) && later.0 == name) by {
                    if j < last {
                        assert(lines[j] == shorter[j]);
                    }
                }
                assert(gives_last(lines, name, oid, k));
            }
            if exists|k: int| #[trigger] gives_last(lines, name, oid, k) {
                let k = choose|k: int| #[trigger] gives_last(lines, name, oid, k);
                assert(k < last);
                assert(lines[k] == shorter[k]);
                assert forall|j: int| k < j < shorter.len() implies !(packed_line(
                    #[trigger] shorter[j],
                ) matches Some(later) && later.0 == name) by {
                    assert(lines[j] == shorter[j]);
                }
                assert(gives_last(shorter, name, oid, k));
            }
        }
    }
    if exists|k: int| #[trigger] gives_last(lines, name, oid, k) {
        let k = choose|k: int| #[trigger] gives_last(lines, name, oid, k);
        assert(packed_line(lines[k]) == Some((name, oid)));
    }
    if exists|k: int|
        {
            &&& 0 <= k < lines.len()
            &&& packed_line(#[trigger] lines[k]) == Some((name, oid))
            &&& forall|j: int|
                k < j < lines.len() ==> !(packed_line(#[trigger] lines[j]) matches Some(later)
                    && later.0 == name)
        } {
        let k = choose|k: int|
            {
                &&& 0 <= k < lines.len()
                &&& packed_line(#[trigger] lines[k]) == Some((name, oid))
                &&& forall|j: int|
                    k < j < lines.len() ==> !(packed_line(#[trigger] lines[j]) matches Some(later)
                        && later.0 == name)
            };
        assert(gives_last(lines, name, oid, k));
    }
}

/// What is read of a line is viewed as it is: the name by its bytes, the object ID by its own, an
/// error as that error.
pub proof fn law_readings_are_viewed_as_they_are(name: Vec<u8>, oid: MaybeZeroOid, err: UnusableLine)
    ensures
        line_view(Some((name, oid))) == Some((name@, oid@)),
        line_view(None) is None,
        reading_view(Ok(Some((name, oid)))) == Ok::<Option<(Seq<u8>, Seq<u8>)>, UnusableLine>(
            Some((name@, oid@)),
        ),
        reading_view(Ok(None)) == Ok::<Option<(Seq<u8>, Seq<u8>)>, UnusableLine>(None),
        reading_view(Err(err)) == Err::<Option<(Seq<u8>, Seq<u8>)>, UnusableLine>(err),
{
}

} // verus!
