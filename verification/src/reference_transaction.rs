//! The lines that Git hands to the `reference-transaction` hook.

use crate::bytes::{
    contents, law_a_piece_is_split_off, law_pieces_rebuild_the_text, pieces, split_on, terminated,
};
use crate::event_log::{is_ignored_ref, should_ignore_ref_updates};
use crate::oid::{
    law_hexadecimal_texts_are_oids, parsed_oid, zero_oid, MaybeZeroOid, ParseOidError,
};
use crate::outside::platform_string;
use crate::packed_refs::PackedReferences;
use vstd::prelude::*;
use vstd::utf8::valid_utf8;

verus! {

/// An update of a reference, as a line of the hook's input reports it.
#[derive(Debug, PartialEq, Eq)]
pub struct ParsedReferenceTransactionLine {
    pub ref_name: Vec<u8>,
    pub old_oid: MaybeZeroOid,
    pub new_oid: MaybeZeroOid,
}

/// What an update says: the reference, where it pointed before, and where it points now.
#[verifier::ext_equal]
pub struct RefUpdate {
    pub ref_name: Seq<u8>,
    pub old_oid: Seq<u8>,
    pub new_oid: Seq<u8>,
}

impl View for ParsedReferenceTransactionLine {
    type V = RefUpdate;

    open spec fn view(&self) -> RefUpdate {
        RefUpdate {
            ref_name: self.ref_name@,
            old_oid: self.old_oid@,
            new_oid: self.new_oid@,
        }
    }
}

/// What each of `updates` says.
pub open spec fn update_views(updates: Seq<ParsedReferenceTransactionLine>) -> Seq<RefUpdate> {
    Seq::new(updates.len(), |i: int| updates[i]@)
}

/// The contents of a byte string that may be missing.
pub open spec fn optional_bytes(bytes: Option<Vec<u8>>) -> Option<Seq<u8>> {
    match bytes {
        Some(bytes) => Some(bytes@),
        None => None,
    }
}

/// The contents of each line.
pub open spec fn line_views(lines: Seq<Option<Vec<u8>>>) -> Seq<Option<Seq<u8>>> {
    Seq::new(lines.len(), |i: int| optional_bytes(lines[i]))
}

/// Why a line reports no update.
#[derive(Clone, Copy, Debug, PartialEq, Eq)]
pub enum TransactionLineError {
    /// A string of this platform cannot hold one of the fields.
    UndecodableField,
    /// There are not three fields.
    UnexpectedFieldCount,
    /// The first field is no object ID.
    InvalidOldOid(ParseOidError),
    /// The second field is no object ID.
    InvalidNewOid(ParseOidError),
}

/// The update that the fields of a line report: the old object ID, the new one, and the name.
pub open spec fn update_from_fields(fields: Seq<Seq<u8>>) -> Result<
    RefUpdate,
    TransactionLineError,
> {
    if fields.len() != 3 {
        Err(TransactionLineError::UnexpectedFieldCount)
    } else {
        match (parsed_oid(fields[0]), parsed_oid(fields[1])) {
            (Err(err), _) => Err(TransactionLineError::InvalidOldOid(err)),
            (_, Err(err)) => Err(TransactionLineError::InvalidNewOid(err)),
            (Ok(old_oid), Ok(new_oid)) => Ok(
                RefUpdate { ref_name: fields[2], old_oid, new_oid },
            ),
        }
    }
}

/// The fields of a line, which spaces (0x20) separate.
pub open spec fn line_fields(line: Seq<u8>) -> Seq<Seq<u8>> {
    pieces(line, 0x20)
}

/// The update that a line reports, on a platform whose strings hold every field.
pub open spec fn line_update(line: Seq<u8>) -> Result<RefUpdate, TransactionLineError> {
    update_from_fields(line_fields(line))
}

/// Whether each of `fields` is UTF-8.
pub open spec fn all_utf8(fields: Seq<Seq<u8>>) -> bool {
    forall|i: int| 0 <= i < fields.len() ==> valid_utf8(#[trigger] fields[i])
}

/// The update that the fields of a line report once the platform has decoded them; `None` stands
/// for a field that it refused, and one such field makes the whole line undecodable.
pub open spec fn decoded_update(fields: Seq<Option<Seq<u8>>>) -> Result<
    RefUpdate,
    TransactionLineError,
> {
    if exists|i: int| 0 <= i < fields.len() && #[trigger] fields[i] is None {
        Err(TransactionLineError::UndecodableField)
    } else {
        update_from_fields(Seq::new(fields.len(), |i: int| fields[i]->0))
    }
}

/// The view of the outcome of parsing a line.
pub open spec fn line_result(
    res: Result<ParsedReferenceTransactionLine, TransactionLineError>,
) -> Result<RefUpdate, TransactionLineError> {
    match res {
        Ok(line) => Ok(line@),
        Err(err) => Err(err),
    }
}

/// Makes an update of the fields of a line.
pub fn parse_fields(fields: &Vec<Vec<u8>>) -> (res: Result<
    ParsedReferenceTransactionLine,
    TransactionLineError,
>)
    ensures
        line_result(res) == update_from_fields(contents(fields@)),
{
    if fields.len() != 3 {
        return Err(TransactionLineError::UnexpectedFieldCount);
    }
    assert(contents(fields@)[0] == fields@[0]@);
    assert(contents(fields@)[1] == fields@[1]@);
    assert(contents(fields@)[2] == fields@[2]@);
    let old_oid = match MaybeZeroOid::from_hex(fields[0].as_slice()) {
        Ok(oid) => oid,
        Err(err) => {
            return Err(TransactionLineError::InvalidOldOid(err));
        },
    };
    let new_oid = match MaybeZeroOid::from_hex(fields[1].as_slice()) {
        Ok(oid) => oid,
        Err(err) => {
            return Err(TransactionLineError::InvalidNewOid(err));
        },
    };
    let ref_name = fields[2].clone();
    assert(ref_name@ =~= fields@[2]@);
    Ok(ParsedReferenceTransactionLine { ref_name, old_oid, new_oid })
}

/// Makes an update of the fields of a line as the platform has decoded them, unless it has refused
/// one.
pub fn parse_decoded_fields(fields: &Vec<Option<Vec<u8>>>) -> (res: Result<
    ParsedReferenceTransactionLine,
    TransactionLineError,
>)
    ensures
        line_result(res) == decoded_update(line_views(fields@)),
{
    let ghost all = line_views(fields@);
    let ghost decoded_all = Seq::new(all.len(), |i: int| all[i]->0);
    let mut decoded: Vec<Vec<u8>> = Vec::new();
    let mut i: usize = 0;
    while i < fields.len()
        invariant
            i <= fields@.len(),
            all == line_views(fields@),
            decoded_all == Seq::new(all.len(), |i: int| all[i]->0),
            forall|j: int| 0 <= j < i ==> all[j] is Some,
            contents(decoded@) =~= decoded_all.take(i as int),
        decreases fields@.len() - i,
    {
        assert(all[i as int] == optional_bytes(fields@[i as int]));
        match &fields[i] {
            Some(field) => {
                let field = field.clone();
                assert(field@ =~= decoded_all[i as int]);
                assert(contents(decoded@.push(field)) =~= contents(decoded@).push(field@));
                assert(decoded_all.take(i + 1) =~= decoded_all.take(i as int).push(
                    decoded_all[i as int],
                ));
                decoded.push(field);
            },
            None => {
                return Err(TransactionLineError::UndecodableField);
            },
        }
        i = i + 1;
    }
    assert(decoded_all.take(i as int) =~= decoded_all);
    parse_fields(&decoded)
}

/// Parses a line of the hook's input.
///
/// Only a line with a field that is not UTF-8 can be refused as undecodable; whether it is
/// depends on the platform. What a refused field does to its line is [`decoded_update`].
pub fn parse_reference_transaction_line(line: &[u8]) -> (res: Result<
    ParsedReferenceTransactionLine,
    TransactionLineError,
>)
    ensures
        line_result(res) == line_update(line@) || res == Err::<
            ParsedReferenceTransactionLine,
            TransactionLineError,
        >(TransactionLineError::UndecodableField),
        all_utf8(line_fields(line@)) ==> line_result(res) == line_update(line@),
{
    let raw_fields = split_on(line, 0x20);
    let ghost all = contents(raw_fields@);
    let mut fields: Vec<Option<Vec<u8>>> = Vec::new();
    let mut i: usize = 0;
    while i < raw_fields.len()
        invariant
            i <= raw_fields@.len(),
            all == line_fields(line@),
            all == contents(raw_fields@),
            fields@.len() == i,
            forall|j: int|
                0 <= j < i ==> match #[trigger] fields@[j] {
                    Some(field) => field@ == all[j],
                    None => !valid_utf8(all[j]),
                },
        decreases raw_fields@.len() - i,
    {
        let raw_field = raw_fields[i].clone();
        assert(raw_field@ =~= all[i as int]);
        match platform_string(raw_field) {
            Ok(field) => {
                fields.push(Some(field));
            },
            Err(_) => {
                fields.push(None);
            },
        }
        i = i + 1;
    }
    proof {
        let views = line_views(fields@);
        if forall|j: int| 0 <= j < views.len() ==> #[trigger] views[j] is Some {
            assert forall|j: int| 0 <= j < all.len() implies #[trigger] views[j]->0 == all[j] by {
                assert(views[j] is Some);
                assert(fields@[j] is Some);
            }
            assert(Seq::new(views.len(), |j: int| views[j]->0) =~= all);
        } else {
            let j = choose|j: int| 0 <= j < views.len() && #[trigger] views[j] is None;
            assert(fields@[j] is None);
            assert(!valid_utf8(all[j]));
        }
    }
    parse_decoded_fields(&fields)
}

/// An update with the object IDs that Git reports for a reference that it is packing put right.
///
/// While Git packs a reference it reports the reference as created, and then as deleted. Where
/// `packed` still gives the reference the object ID that it is said to have got or lost, the
/// reference has not moved.
pub open spec fn fixed_update(packed: Map<Seq<u8>, Seq<u8>>, update: RefUpdate) -> RefUpdate {
    if update.old_oid == zero_oid() && packed.contains_pair(update.ref_name, update.new_oid) {
        RefUpdate { old_oid: update.new_oid, ..update }
    } else if update.new_oid == zero_oid() && packed.contains_pair(
        update.ref_name,
        update.old_oid,
    ) {
        RefUpdate { new_oid: update.old_oid, ..update }
    } else {
        update
    }
}

/// Puts right the object IDs of an update, as [`fixed_update`] says.
///
/// The object IDs that Git passes cannot be trusted where packed references are concerned. For a
/// reference `refs/heads/foo` that points to `abc123`, packing is first reported as
///
/// ```text
/// 000000 abc123 refs/heads/foo
/// ```
///
/// and immediately afterwards as
///
/// ```text
/// abc123 000000 refs/heads/foo
/// ```
///
/// though the reference neither appeared nor disappeared.
pub fn fix_packed_reference_oid(
    packed_references: &PackedReferences,
    parsed_line: ParsedReferenceTransactionLine,
) -> (res: ParsedReferenceTransactionLine)
    ensures
        res@ == fixed_update(packed_references@, parsed_line@),
{
    let ParsedReferenceTransactionLine { ref_name, old_oid, new_oid } = parsed_line;
    let packed_oid = packed_references.get(ref_name.as_slice());
    match packed_oid {
        Some(packed_oid) => {
            if old_oid.is_zero() && packed_oid.same_oid(&new_oid) {
                ParsedReferenceTransactionLine { ref_name, old_oid: new_oid, new_oid }
            } else if new_oid.is_zero() && packed_oid.same_oid(&old_oid) {
                ParsedReferenceTransactionLine { ref_name, old_oid, new_oid: old_oid }
            } else {
                ParsedReferenceTransactionLine { ref_name, old_oid, new_oid }
            }
        },
        None => ParsedReferenceTransactionLine { ref_name, old_oid, new_oid },
    }
}

/// The update that a line reports, if it could be read, its fields could be decoded, and it is
/// well-formed. `refused` says that the platform could not decode it.
pub open spec fn reported_update(line: Option<Seq<u8>>, refused: bool) -> Option<RefUpdate> {
    match line {
        None => None,
        Some(text) => match line_update(text) {
            Ok(update) => if refused {
                None
            } else {
                Some(update)
            },
            Err(_) => None,
        },
    }
}

/// The update that is kept of a line: the one that it reports, put right, unless the reference is
/// of no interest.
pub open spec fn kept_update(
    packed: Map<Seq<u8>, Seq<u8>>,
    line: Option<Seq<u8>>,
    refused: bool,
) -> Option<RefUpdate> {
    match reported_update(line, refused) {
        None => None,
        Some(update) => if is_ignored_ref(update.ref_name) {
            None
        } else {
            Some(fixed_update(packed, update))
        },
    }
}

/// The updates that are kept of `lines`, in their order.
pub open spec fn kept_updates(
    packed: Map<Seq<u8>, Seq<u8>>,
    lines: Seq<Option<Seq<u8>>>,
    refused: Seq<bool>,
) -> Seq<RefUpdate>
    decreases lines.len(),
{
    if lines.len() == 0 {
        seq![]
    } else {
        let earlier = kept_updates(packed, lines.drop_last(), refused);
        match kept_update(packed, lines.last(), refused[lines.len() - 1]) {
            Some(update) => earlier.push(update),
            None => earlier,
        }
    }
}

/// Whether a platform may have refused just the lines that `refused` marks: none but lines with a
/// field that is not UTF-8.
pub open spec fn may_refuse(lines: Seq<Option<Seq<u8>>>, refused: Seq<bool>) -> bool {
    &&& refused.len() == lines.len()
    &&& forall|i: int|
        0 <= i < lines.len() && #[trigger] refused[i] ==> lines[i] is Some && !all_utf8(
            line_fields(lines[i]->0),
        )
}

proof fn lemma_kept_updates_prefix(
    packed: Map<Seq<u8>, Seq<u8>>,
    lines: Seq<Option<Seq<u8>>>,
    left: Seq<bool>,
    right: Seq<bool>,
)
    requires
        left.len() >= lines.len(),
        right.len() >= lines.len(),
        forall|i: int| 0 <= i < lines.len() ==> left[i] == right[i],
    ensures
        kept_updates(packed, lines, left) == kept_updates(packed, lines, right),
    decreases lines.len(),
{
    if lines.len() > 0 {
        lemma_kept_updates_prefix(packed, lines.drop_last(), left, right);
    }
}

/// Collects the updates that the lines of the hook's input report: those of interest, put right.
/// Lines that could not be read and lines that report no update are passed over.
///
/// Which lines the platform refuses is not known, but that they have a field that is not UTF-8.
pub fn collect_updates(
    packed_references: &PackedReferences,
    lines: &Vec<Option<Vec<u8>>>,
) -> (res: Vec<ParsedReferenceTransactionLine>)
    ensures
        exists|refused: Seq<bool>|
            may_refuse(line_views(lines@), refused) && update_views(res@) == #[trigger] kept_updates(
                packed_references@,
                line_views(lines@),
                refused,
            ),
{
    let ghost all = line_views(lines@);
    let ghost packed = packed_references@;
    let ghost mut refused: Seq<bool> = seq![];
    let mut res: Vec<ParsedReferenceTransactionLine> = Vec::new();
    let mut i: usize = 0;
    assert(update_views(res@) =~= kept_updates(packed, all.take(0), refused));
    while i < lines.len()
        invariant
            i <= lines@.len(),
            all == line_views(lines@),
            packed == packed_references@,
            may_refuse(all.take(i as int), refused),
            update_views(res@) == kept_updates(packed, all.take(i as int), refused),
        decreases lines@.len() - i,
    {
        let ghost before = refused;
        let ghost shorter = all.take(i as int);
        let ghost longer = all.take(i + 1);
        assert(longer.drop_last() =~= shorter);
        assert(longer.last() == optional_bytes(lines@[i as int]));
        let ghost mut refused_line: bool = false;
        let mut kept: Option<ParsedReferenceTransactionLine> = None;
        if let Some(line) = &lines[i] {
            let parsed = parse_reference_transaction_line(line.as_slice());
            proof {
                refused_line = line_result(parsed) != line_update(line@);
            }
            if let Ok(update) = parsed {
                if !should_ignore_ref_updates(update.ref_name.as_slice()) {
                    kept = Some(fix_packed_reference_oid(packed_references, update));
                }
            }
        }
        proof {
            refused = refused.push(refused_line);
            assert(may_refuse(longer, refused)) by {
                assert forall|j: int| 0 <= j < longer.len() && #[trigger] refused[j] implies
                    longer[j] is Some && !all_utf8(line_fields(longer[j]->0)) by {
                    if j < i {
                        assert(before[j]);
                        assert(longer[j] == shorter[j]);
                    }
                }
            }
            lemma_kept_updates_prefix(packed, shorter, before, refused);
        }
        if let Some(update) = kept {
            assert(update_views(res@.push(update)) =~= update_views(res@).push(update@));
            res.push(update);
        }
        i = i + 1;
    }
    assert(all.take(i as int) =~= all);
    res
}

/// Packing a reference is no change: the creation and the deletion that Git reports of a
/// reference that the `packed-refs` file holds both become an update that leaves the reference
/// where it is.
pub proof fn law_packing_leaves_the_reference(
    packed: Map<Seq<u8>, Seq<u8>>,
    ref_name: Seq<u8>,
    oid: Seq<u8>,
)
    requires
        packed.contains_pair(ref_name, oid),
    ensures
        fixed_update(packed, (RefUpdate { ref_name, old_oid: zero_oid(), new_oid: oid })) == (
        RefUpdate { ref_name, old_oid: oid, new_oid: oid }),
        fixed_update(packed, (RefUpdate { ref_name, old_oid: oid, new_oid: zero_oid() })) == (
        RefUpdate { ref_name, old_oid: oid, new_oid: oid }),
{
}

/// The lines by which Git reports that it is packing a reference record no move of it: what is kept
/// of them says that the reference stays where the `packed-refs` file has it.
pub proof fn law_packing_lines_report_no_move(
    packed: Map<Seq<u8>, Seq<u8>>,
    line: Seq<u8>,
    update: RefUpdate,
    oid: Seq<u8>,
)
    requires
        line_update(line) == Ok::<RefUpdate, TransactionLineError>(update),
        packed.contains_pair(update.ref_name, oid),
        (update.old_oid == zero_oid() && update.new_oid == oid) || (update.old_oid == oid
            && update.new_oid == zero_oid()),
        !is_ignored_ref(update.ref_name),
    ensures
        kept_update(packed, Some(line), false) == Some(
            RefUpdate { ref_name: update.ref_name, old_oid: oid, new_oid: oid },
        ),
{
    law_packing_leaves_the_reference(packed, update.ref_name, oid);
}

/// Putting an update right twice is the same as doing it once.
pub proof fn law_fixing_is_idempotent(packed: Map<Seq<u8>, Seq<u8>>, update: RefUpdate)
    ensures
        fixed_update(packed, fixed_update(packed, update)) == fixed_update(packed, update),
{
}

/// The name of an update is never changed; nor are its object IDs, unless one of them is zero and
/// the other is the one that the `packed-refs` file gives the reference. Then both become that
/// one.
pub proof fn law_fixing_changes_nothing_else(packed: Map<Seq<u8>, Seq<u8>>, update: RefUpdate)
    ensures
        fixed_update(packed, update).ref_name == update.ref_name,
        fixed_update(packed, update) != update ==> {
            let oid = packed[update.ref_name];
            &&& packed.contains_key(update.ref_name)
            &&& fixed_update(packed, update).old_oid == oid
            &&& fixed_update(packed, update).new_oid == oid
            &&& (update.old_oid == zero_oid() && update.new_oid == oid) || (update.old_oid == oid
                && update.new_oid == zero_oid())
        },
{
}

/// No update of an ignored reference is kept.
pub proof fn law_ignored_refs_are_not_kept(
    packed: Map<Seq<u8>, Seq<u8>>,
    lines: Seq<Option<Seq<u8>>>,
    refused: Seq<bool>,
)
    ensures
        forall|i: int|
            #![trigger kept_updates(packed, lines, refused)[i]]
            0 <= i < kept_updates(packed, lines, refused).len() ==> !is_ignored_ref(
                kept_updates(packed, lines, refused)[i].ref_name,
            ),
    decreases lines.len(),
{
    if lines.len() > 0 {
        let earlier = kept_updates(packed, lines.drop_last(), refused);
        let all = kept_updates(packed, lines, refused);
        law_ignored_refs_are_not_kept(packed, lines.drop_last(), refused);
        assert forall|i: int| 0 <= i < all.len() implies !is_ignored_ref(
            (#[trigger] all[i]).ref_name,
        ) by {
            if i < earlier.len() {
                assert(all[i] == earlier[i]);
            }
        }
    }
}

/// Where every field of every line is UTF-8, the lines alone decide which updates are kept: no
/// platform refuses any.
pub proof fn law_utf8_lines_are_never_refused(
    packed: Map<Seq<u8>, Seq<u8>>,
    lines: Seq<Option<Seq<u8>>>,
    refused: Seq<bool>,
)
    requires
        may_refuse(lines, refused),
        forall|i: int|
            0 <= i < lines.len() && #[trigger] lines[i] is Some ==> all_utf8(
                line_fields(lines[i]->0),
            ),
    ensures
        kept_updates(packed, lines, refused) == kept_updates(
            packed,
            lines,
            Seq::new(lines.len(), |i: int| false),
        ),
{
    assert forall|i: int| 0 <= i < lines.len() implies !refused[i] by {
        let line = lines[i];
    }
    lemma_kept_updates_prefix(packed, lines, refused, Seq::new(lines.len(), |i: int| false));
}

/// The updates of two lists of lines, one after the other, are those of the first and then those
/// of the second.
pub proof fn law_updates_keep_the_order_of_the_lines(
    packed: Map<Seq<u8>, Seq<u8>>,
    first: Seq<Option<Seq<u8>>>,
    second: Seq<Option<Seq<u8>>>,
    first_refused: Seq<bool>,
    second_refused: Seq<bool>,
)
    requires
        first_refused.len() == first.len(),
        second_refused.len() == second.len(),
    ensures
        kept_updates(packed, first + second, first_refused + second_refused) == kept_updates(
            packed,
            first,
            first_refused,
        ) + kept_updates(packed, second, second_refused),
    decreases second.len(),
{
    let lines = first + second;
    let refused = first_refused + second_refused;
    if second.len() == 0 {
        assert(lines =~= first);
        lemma_kept_updates_prefix(packed, first, refused, first_refused);
        assert(kept_updates(packed, first, first_refused) + kept_updates(
            packed,
            second,
            second_refused,
        ) =~= kept_updates(packed, first, first_refused));
    } else {
        let shorter = second.drop_last();
        let shorter_refused = second_refused.drop_last();
        law_updates_keep_the_order_of_the_lines(
            packed,
            first,
            shorter,
            first_refused,
            shorter_refused,
        );
        assert(lines.drop_last() =~= first + shorter);
        lemma_kept_updates_prefix(packed, first + shorter, refused, first_refused + shorter_refused);
        lemma_kept_updates_prefix(packed, shorter, second_refused, shorter_refused);
        assert(lines.last() == second.last());
        assert(refused[lines.len() - 1] == second_refused[second.len() - 1]);
        assert(kept_updates(packed, lines, refused) =~= kept_updates(packed, first, first_refused)
            + kept_updates(packed, second, second_refused));
    }
}

/// Whether a line has no part in what is kept: it could not be read, is empty, reports no update,
/// is refused by the platform, or is about an ignored reference.
pub open spec fn is_idle(line: Option<Seq<u8>>, refused: bool) -> bool {
    match line {
        None => true,
        Some(text) => {
            ||| text.len() == 0
            ||| refused
            ||| match line_update(text) {
                Ok(update) => is_ignored_ref(update.ref_name),
                Err(_) => true,
            }
        },
    }
}

/// What is left of `items` without those that `marks` marks, in their order.
pub open spec fn unmarked<A>(items: Seq<A>, marks: Seq<bool>) -> Seq<A>
    decreases items.len(),
{
    if items.len() == 0 {
        seq![]
    } else {
        let earlier = unmarked(items.drop_last(), marks);
        if marks[items.len() - 1] {
            earlier
        } else {
            earlier.push(items.last())
        }
    }
}

/// Lines without a part in what is kept may stand anywhere between the others: leaving them out
/// changes nothing.
pub proof fn law_idle_lines_change_no_update(
    packed: Map<Seq<u8>, Seq<u8>>,
    lines: Seq<Option<Seq<u8>>>,
    refused: Seq<bool>,
    marks: Seq<bool>,
)
    requires
        refused.len() == lines.len(),
        marks.len() == lines.len(),
        forall|i: int| 0 <= i < lines.len() && #[trigger] marks[i] ==> is_idle(lines[i], refused[i]),
    ensures
        kept_updates(packed, lines, refused) == kept_updates(
            packed,
            unmarked(lines, marks),
            unmarked(refused, marks),
        ),
    decreases lines.len(),
{
    if lines.len() > 0 {
        let last = lines.len() - 1;
        let (shorter, shorter_refused, shorter_marks) = (
            lines.drop_last(),
            refused.drop_last(),
            marks.drop_last(),
        );
        assert forall|i: int| 0 <= i < shorter.len() && #[trigger] shorter_marks[i] implies is_idle(
            shorter[i],
            shorter_refused[i],
        ) by {
            assert(marks[i]);
        }
        law_idle_lines_change_no_update(packed, shorter, shorter_refused, shorter_marks);
        lemma_kept_updates_prefix(packed, shorter, refused, shorter_refused);
        lemma_unmarked_prefix(shorter, marks, shorter_marks);
        lemma_unmarked_prefix(shorter_refused, marks, shorter_marks);
        lemma_unmarked_len(shorter, shorter_refused, shorter_marks);
        let left = unmarked(shorter, shorter_marks);
        let left_refused = unmarked(shorter_refused, shorter_marks);
        if marks[last] {
            assert(kept_update(packed, lines[last], refused[last]) is None) by {
                if let Some(text) = lines[last] {
                    if text.len() == 0 {
                        assert(line_fields(text).len() == 0);
                    }
                }
            }
        } else {
            let longer = left.push(lines[last]);
            let longer_refused = left_refused.push(refused[last]);
            assert(longer.drop_last() =~= left);
            lemma_kept_updates_prefix(packed, left, longer_refused, left_refused);
        }
    }
}

proof fn lemma_unmarked_prefix<A>(items: Seq<A>, left: Seq<bool>, right: Seq<bool>)
    requires
        left.len() >= items.len(),
        right.len() >= items.len(),
        forall|i: int| 0 <= i < items.len() ==> left[i] == right[i],
    ensures
        unmarked(items, left) == unmarked(items, right),
    decreases items.len(),
{
    if items.len() > 0 {
        lemma_unmarked_prefix(items.drop_last(), left, right);
    }
}

proof fn lemma_unmarked_len<A, B>(left: Seq<A>, right: Seq<B>, marks: Seq<bool>)
    requires
        left.len() == right.len(),
    ensures
        unmarked(left, marks).len() == unmarked(right, marks).len(),
    decreases left.len(),
{
    if left.len() > 0 {
        lemma_unmarked_len(left.drop_last(), right.drop_last(), marks);
    }
}

/// Three fields are an update just if the first two are object IDs: the third is the name, the
/// first is where the reference pointed, the second is where it points. Else the first thing that
/// is wrong is the error.
pub proof fn law_three_fields_are_an_update(
    fields: Seq<Seq<u8>>,
    old_oid: Seq<u8>,
    new_oid: Seq<u8>,
    ref_name: Seq<u8>,
    err: ParseOidError,
)
    ensures
        update_from_fields(fields) == Ok::<RefUpdate, TransactionLineError>(
            RefUpdate { ref_name, old_oid, new_oid },
        ) <==> {
            &&& fields.len() == 3
            &&& parsed_oid(fields[0]) == Ok::<Seq<u8>, ParseOidError>(old_oid)
            &&& parsed_oid(fields[1]) == Ok::<Seq<u8>, ParseOidError>(new_oid)
            &&& fields[2] == ref_name
        },
        update_from_fields(fields) == Err::<RefUpdate, TransactionLineError>(
            TransactionLineError::UnexpectedFieldCount,
        ) <==> fields.len() != 3,
        update_from_fields(fields) == Err::<RefUpdate, TransactionLineError>(
            TransactionLineError::InvalidOldOid(err),
        ) <==> fields.len() == 3 && parsed_oid(fields[0]) == Err::<Seq<u8>, ParseOidError>(err),
        update_from_fields(fields) == Err::<RefUpdate, TransactionLineError>(
            TransactionLineError::InvalidNewOid(err),
        ) <==> fields.len() == 3 && parsed_oid(fields[0]) is Ok && parsed_oid(fields[1]) == Err::<
            Seq<u8>,
            ParseOidError,
        >(err),
        update_from_fields(fields) != Err::<RefUpdate, TransactionLineError>(
            TransactionLineError::UndecodableField,
        ),
{
}

/// A field that the platform refuses makes its line undecodable, and nothing else does; where it
/// refuses none, the line says what its fields say.
pub proof fn law_refused_fields_make_lines_undecodable(
    fields: Seq<Option<Seq<u8>>>,
    i: int,
    decoded: Seq<Seq<u8>>,
)
    ensures
        0 <= i < fields.len() && fields[i] is None ==> decoded_update(fields) == Err::<
            RefUpdate,
            TransactionLineError,
        >(TransactionLineError::UndecodableField),
        decoded_update(Seq::new(decoded.len(), |k: int| Some(decoded[k]))) == update_from_fields(
            decoded,
        ),
{
    let all = Seq::new(decoded.len(), |k: int| Some(decoded[k]));
    assert forall|k: int| 0 <= k < all.len() implies #[trigger] all[k] is Some by {}
    assert(Seq::new(all.len(), |k: int| all[k]->0) =~= decoded);
}

/// An update that is written as a line, the old object ID, the new one and the name with a space
/// between them, is read back; and no other line reports an update, but that a space at the end
/// does not matter.
pub proof fn law_written_updates_are_read_back(
    line: Seq<u8>,
    old_oid: Seq<u8>,
    new_oid: Seq<u8>,
    ref_name: Seq<u8>,
)
    ensures
        line_update(line) == Ok::<RefUpdate, TransactionLineError>(
            RefUpdate { ref_name, old_oid, new_oid },
        ) <==> !ref_name.contains(0x20) && exists|old_digits: Seq<u8>, new_digits: Seq<u8>|
            {
                let written = #[trigger] (old_digits.push(0x20) + (new_digits.push(0x20)
                    + ref_name));
                &&& parsed_oid(old_digits) == Ok::<Seq<u8>, ParseOidError>(old_oid)
                &&& parsed_oid(new_digits) == Ok::<Seq<u8>, ParseOidError>(new_oid)
                &&& (line == written && ref_name.len() > 0) || line == written.push(0x20)
            },
{
    let fields = line_fields(line);
    if line_update(line) == Ok::<RefUpdate, TransactionLineError>(
        RefUpdate { ref_name, old_oid, new_oid },
    ) {
        let (old_digits, new_digits) = (fields[0], fields[1]);
        let written = old_digits.push(0x20) + (new_digits.push(0x20) + ref_name);
        law_pieces_rebuild_the_text(line, 0x20);
        assert(!pieces(line, 0x20)[2].contains(0x20));
        reveal_with_fuel(terminated, 4);
        assert(fields.drop_first().drop_first().drop_first() =~= seq![]);
        assert(terminated(fields, 0x20) =~= written.push(0x20));
        if line.len() == 0 || line.last() == 0x20 {
            assert(line == written.push(0x20));
        } else {
            assert(line.push(0x20) == written.push(0x20));
            assert(line =~= line.push(0x20).drop_last());
            assert(written =~= written.push(0x20).drop_last());
            if ref_name.len() == 0 {
                assert(written.last() == 0x20);
            }
        }
        assert((line == written && ref_name.len() > 0) || line == written.push(0x20));
    }
    if !ref_name.contains(0x20) && exists|old_digits: Seq<u8>, new_digits: Seq<u8>|
        {
            let written = #[trigger] (old_digits.push(0x20) + (new_digits.push(0x20) + ref_name));
            &&& parsed_oid(old_digits) == Ok::<Seq<u8>, ParseOidError>(old_oid)
            &&& parsed_oid(new_digits) == Ok::<Seq<u8>, ParseOidError>(new_oid)
            &&& (line == written && ref_name.len() > 0) || line == written.push(0x20)
        } {
        let (old_digits, new_digits) = choose|old_digits: Seq<u8>, new_digits: Seq<u8>|
            {
                let written = #[trigger] (old_digits.push(0x20) + (new_digits.push(0x20)
                    + ref_name));
                &&& parsed_oid(old_digits) == Ok::<Seq<u8>, ParseOidError>(old_oid)
                &&& parsed_oid(new_digits) == Ok::<Seq<u8>, ParseOidError>(new_oid)
                &&& (line == written && ref_name.len() > 0) || line == written.push(0x20)
            };
        lemma_written_fields(old_digits, new_digits, ref_name);
        let written = old_digits.push(0x20) + (new_digits.push(0x20) + ref_name);
        assert(written.push(0x20) =~= old_digits.push(0x20) + (new_digits.push(0x20)
            + ref_name.push(0x20)));
    }
}

proof fn lemma_written_fields(old_digits: Seq<u8>, new_digits: Seq<u8>, ref_name: Seq<u8>)
    requires
        parsed_oid(old_digits) is Ok,
        parsed_oid(new_digits) is Ok,
        !ref_name.contains(0x20),
    ensures
        ref_name.len() > 0 ==> line_fields(
            old_digits.push(0x20) + (new_digits.push(0x20) + ref_name),
        ) == seq![old_digits, new_digits, ref_name],
        line_fields(old_digits.push(0x20) + (new_digits.push(0x20) + ref_name.push(0x20))) == seq![
            old_digits,
            new_digits,
            ref_name,
        ],
{
    law_hexadecimal_texts_are_oids(old_digits);
    law_hexadecimal_texts_are_oids(new_digits);
    law_a_piece_is_split_off(old_digits, new_digits.push(0x20) + ref_name, 0x20);
    law_a_piece_is_split_off(old_digits, new_digits.push(0x20) + ref_name.push(0x20), 0x20);
    law_a_piece_is_split_off(new_digits, ref_name, 0x20);
    law_a_piece_is_split_off(new_digits, ref_name.push(0x20), 0x20);
    law_a_piece_is_split_off(ref_name, seq![], 0x20);
    assert(ref_name.push(0x20) + seq![] =~= ref_name.push(0x20));
    let all = seq![old_digits, new_digits, ref_name];
    assert(seq![old_digits] + (seq![new_digits] + seq![ref_name]) =~= all);
    assert(seq![ref_name] + Seq::<Seq<u8>>::empty() =~= seq![ref_name]);
}

/// Of a line that can be read, is not refused, reports an update and is not about an ignored
/// reference that update is kept, put right; of every other line nothing is.
pub proof fn law_updates_of_interest_are_kept(
    packed: Map<Seq<u8>, Seq<u8>>,
    line: Seq<u8>,
    refused: bool,
    update: RefUpdate,
    err: TransactionLineError,
)
    ensures
        line_update(line) == Ok::<RefUpdate, TransactionLineError>(update) ==> {
            &&& kept_update(packed, Some(line), refused) is Some <==> !refused && !is_ignored_ref(
                update.ref_name,
            )
            &&& kept_update(packed, Some(line), refused) is Some ==> kept_update(
                packed,
                Some(line),
                refused,
            ) == Some(fixed_update(packed, update))
        },
        line_update(line) == Err::<RefUpdate, TransactionLineError>(err) ==> kept_update(
            packed,
            Some(line),
            refused,
        ) is None,
        kept_update(packed, None, refused) is None,
{
}

/// Whatever a line reports of a reference that the `packed-refs` file does not hold with one of the
/// two object IDs is kept as it is: a move, a creation, and a deletion, too.
pub proof fn law_real_changes_are_kept_as_they_are(
    packed: Map<Seq<u8>, Seq<u8>>,
    line: Seq<u8>,
    update: RefUpdate,
)
    requires
        line_update(line) == Ok::<RefUpdate, TransactionLineError>(update),
        !is_ignored_ref(update.ref_name),
        !packed.contains_pair(update.ref_name, update.old_oid),
        !packed.contains_pair(update.ref_name, update.new_oid),
    ensures
        kept_update(packed, Some(line), false) == Some(update),
{
}

/// A line more keeps what was kept before, and adds its own update at the end if it has one.
pub proof fn law_lines_are_taken_one_by_one(
    packed: Map<Seq<u8>, Seq<u8>>,
    lines: Seq<Option<Seq<u8>>>,
    refused: Seq<bool>,
    line: Option<Seq<u8>>,
    line_refused: bool,
    update: RefUpdate,
)
    requires
        refused.len() == lines.len(),
    ensures
        kept_updates(packed, Seq::empty(), Seq::empty()) == Seq::<RefUpdate>::empty(),
        kept_update(packed, line, line_refused) == Some(update) ==> kept_updates(
            packed,
            lines.push(line),
            refused.push(line_refused),
        ) == kept_updates(packed, lines, refused).push(update),
        kept_update(packed, line, line_refused) is None ==> kept_updates(
            packed,
            lines.push(line),
            refused.push(line_refused),
        ) == kept_updates(packed, lines, refused),
{
    assert(lines.push(line).drop_last() =~= lines);
    lemma_kept_updates_prefix(packed, lines, refused.push(line_refused), refused);
}

/// Where every line reports an update in UTF-8 and none is about an ignored reference, each of the
/// updates is kept, put right and in its place, whatever the platform.
pub proof fn law_every_reported_update_is_kept(
    packed: Map<Seq<u8>, Seq<u8>>,
    lines: Seq<Option<Seq<u8>>>,
    refused: Seq<bool>,
    updates: Seq<RefUpdate>,
)
    requires
        may_refuse(lines, refused),
        updates.len() == lines.len(),
        forall|i: int|
            0 <= i < lines.len() ==> {
                &&& #[trigger] lines[i] is Some
                &&& line_update(lines[i]->0) == Ok::<RefUpdate, TransactionLineError>(updates[i])
                &&& !is_ignored_ref(updates[i].ref_name)
                &&& forall|k: int|
                    0 <= k < pieces(lines[i]->0, 0x20).len() ==> valid_utf8(
                        #[trigger] pieces(lines[i]->0, 0x20)[k],
                    )
            },
    ensures
        kept_updates(packed, lines, refused).len() == updates.len(),
        forall|i: int|
            0 <= i < updates.len() ==> #[trigger] kept_updates(packed, lines, refused)[i]
                == fixed_update(packed, updates[i]),
    decreases lines.len(),
{
    if lines.len() > 0 {
        let last = lines.len() - 1;
        let (shorter, shorter_refused, shorter_updates) = (
            lines.drop_last(),
            refused.drop_last(),
            updates.drop_last(),
        );
        assert(may_refuse(shorter, shorter_refused)) by {
            assert forall|i: int| 0 <= i < shorter.len() && #[trigger] shorter_refused[i] implies
                shorter[i] is Some && !all_utf8(line_fields(shorter[i]->0)) by {
                assert(refused[i]);
            }
        }
        assert forall|i: int| 0 <= i < shorter.len() implies {
            &&& #[trigger] shorter[i] is Some
            &&& line_update(shorter[i]->0) == Ok::<RefUpdate, TransactionLineError>(
                shorter_updates[i],
            )
            &&& !is_ignored_ref(shorter_updates[i].ref_name)
            &&& forall|k: int|
                0 <= k < pieces(shorter[i]->0, 0x20).len() ==> valid_utf8(
                    #[trigger] pieces(shorter[i]->0, 0x20)[k],
                )
        } by {
            assert(lines[i] is Some);
        }
        law_every_reported_update_is_kept(packed, shorter, shorter_refused, shorter_updates);
        lemma_kept_updates_prefix(packed, shorter, refused, shorter_refused);
        assert(lines[last] is Some);
        assert(!refused[last]);
    }
}

/// Only lines that could be read and that have a field that is not UTF-8 are refused, and each line
/// is refused or not.
pub proof fn law_only_other_encodings_are_refused(
    lines: Seq<Option<Seq<u8>>>,
    refused: Seq<bool>,
    i: int,
)
    requires
        may_refuse(lines, refused),
    ensures
        refused.len() == lines.len(),
        0 <= i < lines.len() && refused[i] ==> lines[i] is Some && exists|k: int|
            0 <= k < pieces(lines[i]->0, 0x20).len() && !valid_utf8(
                #[trigger] pieces(lines[i]->0, 0x20)[k],
            ),
{
}

/// The view of an update leaves nothing out and changes nothing, and so does that of the outcome of
/// parsing.
pub proof fn law_update_views_say_everything(
    line: ParsedReferenceTransactionLine,
    err: TransactionLineError,
)
    ensures
        line@.ref_name == line.ref_name@,
        line@.old_oid == line.old_oid@,
        line@.new_oid == line.new_oid@,
        line_result(Ok(line)) == Ok::<RefUpdate, TransactionLineError>(line@),
        line_result(Err(err)) == Err::<RefUpdate, TransactionLineError>(err),
{
}

/// The views of a list of updates are those of each of them, in their order; and so are the
/// contents of a list of lines, of which one that is missing stays so.
pub proof fn law_list_views_are_those_of_each(
    updates: Seq<ParsedReferenceTransactionLine>,
    update: ParsedReferenceTransactionLine,
    lines: Seq<Option<Vec<u8>>>,
    line: Vec<u8>,
)
    ensures
        update_views(Seq::empty()) == Seq::<RefUpdate>::empty(),
        update_views(updates.push(update)) == update_views(updates).push(update@),
        line_views(Seq::empty()) == Seq::<Option<Seq<u8>>>::empty(),
        line_views(lines.push(Some(line))) == line_views(lines).push(Some(line@)),
        line_views(lines.push(None)) == line_views(lines).push(None),
        optional_bytes(Some(line)) == Some(line@),
        optional_bytes(None) is None,
{
    assert(update_views(updates.push(update)) =~= update_views(updates).push(update@));
    assert(line_views(lines.push(Some(line))) =~= line_views(lines).push(Some(line@)));
    assert(line_views(lines.push(None)) =~= line_views(lines).push(None));
}

} // verus!
