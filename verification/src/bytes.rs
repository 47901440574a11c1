//! Byte strings: splitting at a separator, comparing, and testing prefixes.

use vstd::prelude::*;
use vstd::slice::{slice_subrange, slice_to_vec};

verus! {

/// The contents of each byte string of `pieces`.
pub open spec fn contents(pieces: Seq<Vec<u8>>) -> Seq<Seq<u8>> {
    Seq::new(pieces.len(), |i: int| pieces[i]@)
}

/// How many bytes stand before the first `separator` in `text`; all of them if there is none.
pub open spec fn first_piece_len(text: Seq<u8>, separator: u8) -> nat
    decreases text.len(),
{
    if text.len() == 0 || text[0] == separator {
        0
    } else {
        1 + first_piece_len(text.drop_first(), separator)
    }
}

/// The pieces of `text` that `separator` ends.
///
/// Every separator ends a piece, and so does the end of `text`, unless nothing follows the last
/// separator: `"a b"` and `"a b "` have the same two pieces, and an empty text has none.
pub open spec fn pieces(text: Seq<u8>, separator: u8) -> Seq<Seq<u8>>
    decreases text.len(),
{
    let n = first_piece_len(text, separator);
    if text.len() == 0 {
        seq![]
    } else if n >= text.len() {
        seq![text]
    } else {
        seq![text.take(n as int)] + pieces(text.skip(n as int + 1), separator)
    }
}

/// The pieces in a row, each followed by `separator`.
pub open spec fn terminated(list: Seq<Seq<u8>>, separator: u8) -> Seq<u8>
    decreases list.len(),
{
    if list.len() == 0 {
        seq![]
    } else {
        list[0].push(separator) + terminated(list.drop_first(), separator)
    }
}

/// `first_piece_len` is the position of the first separator.
pub proof fn lemma_first_piece_len(text: Seq<u8>, separator: u8, n: nat)
    requires
        n <= text.len(),
        forall|i: int| 0 <= i < n ==> text[i] != separator,
        n < text.len() ==> text[n as int] == separator,
    ensures
        first_piece_len(text, separator) == n,
    decreases text.len(),
{
    if n > 0 {
        lemma_first_piece_len(text.drop_first(), separator, (n - 1) as nat);
    }
}

/// No separator stands before `first_piece_len`, and one stands there unless the text ends.
pub proof fn lemma_first_piece_len_bounds(text: Seq<u8>, separator: u8)
    ensures
        first_piece_len(text, separator) <= text.len(),
        forall|i: int| 0 <= i < first_piece_len(text, separator) ==> text[i] != separator,
        first_piece_len(text, separator) < text.len() ==> text[first_piece_len(
            text,
            separator,
        ) as int] == separator,
    decreases text.len(),
{
    if text.len() > 0 && text[0] != separator {
        let rest = text.drop_first();
        lemma_first_piece_len_bounds(rest, separator);
        assert forall|i: int| 0 <= i < first_piece_len(text, separator) implies text[i]
            != separator by {
            if i > 0 {
                assert(text[i] == rest[i - 1]);
            }
        }
    }
}

/// Splitting a text loses nothing: its pieces, each followed by the separator, are the text, with
/// a separator added where the text did not end in one; and no piece holds a separator.
pub proof fn law_pieces_rebuild_the_text(text: Seq<u8>, separator: u8)
    ensures
        terminated(pieces(text, separator), separator) == if text.len() == 0 || text.last()
            == separator {
            text
        } else {
            text.push(separator)
        },
        forall|i: int|
            #![trigger pieces(text, separator)[i]]
            0 <= i < pieces(text, separator).len() ==> !pieces(text, separator)[i].contains(
                separator,
            ),
    decreases text.len(),
{
    let n = first_piece_len(text, separator);
    lemma_first_piece_len_bounds(text, separator);
    let list = pieces(text, separator);
    if text.len() == 0 {
    } else if n >= text.len() {
        assert(list.drop_first() =~= seq![]);
        assert(terminated(list.drop_first(), separator) =~= seq![]);
        assert(terminated(list, separator) =~= text.push(separator));
        assert(text.last() != separator);
    } else {
        let rest = text.skip(n as int + 1);
        law_pieces_rebuild_the_text(rest, separator);
        assert(list.drop_first() =~= pieces(rest, separator));
        let head = text.take(n as int);
        assert(list[0] == head);
        assert(head.push(separator) + rest =~= text);
        if rest.len() == 0 {
            assert(terminated(list, separator) =~= text);
        } else {
            assert(text.last() == rest.last());
            assert(terminated(list, separator) =~= if rest.last() == separator {
                text
            } else {
                text.push(separator)
            });
        }
        assert forall|i: int| 0 <= i < list.len() implies !(#[trigger] list[i]).contains(
            separator,
        ) by {
            if i > 0 {
                assert(list[i] == pieces(rest, separator)[i - 1]);
            }
        }
    }
}

/// Pieces without a separator that are written in a row, each followed by the separator, are split
/// back into the same pieces.
pub proof fn law_written_pieces_are_split_back(list: Seq<Seq<u8>>, separator: u8)
    requires
        forall|i: int| 0 <= i < list.len() ==> !(#[trigger] list[i]).contains(separator),
    ensures
        pieces(terminated(list, separator), separator) == list,
    decreases list.len(),
{
    let text = terminated(list, separator);
    if list.len() > 0 {
        let n = list[0].len();
        let rest = list.drop_first();
        assert forall|i: int| 0 <= i < rest.len() implies !(#[trigger] rest[i]).contains(
            separator,
        ) by {
            assert(rest[i] == list[i + 1]);
        }
        law_written_pieces_are_split_back(rest, separator);
        assert forall|i: int| 0 <= i < n implies text[i] != separator by {
            assert(text[i] == list[0][i]);
        }
        lemma_first_piece_len(text, separator, n);
        assert(text.take(n as int) =~= list[0]);
        assert(text.skip(n as int + 1) =~= terminated(rest, separator));
        assert(seq![list[0]] + rest =~= list);
    }
}

/// Where the first text ends in a separator, splitting two texts in a row is splitting the one and
/// then the other.
pub proof fn law_pieces_of_two_texts(first: Seq<u8>, second: Seq<u8>, separator: u8)
    requires
        first.len() == 0 || first.last() == separator,
    ensures
        pieces(first + second, separator) == pieces(first, separator) + pieces(second, separator),
    decreases first.len(),
{
    let both = first + second;
    if first.len() == 0 {
        assert(both =~= second);
        assert(pieces(first, separator) + pieces(second, separator) =~= pieces(second, separator));
    } else {
        let n = first_piece_len(first, separator);
        lemma_first_piece_len_bounds(first, separator);
        assert(n < first.len());
        lemma_first_piece_len(both, separator, n);
        let rest = first.skip(n as int + 1);
        assert(both.take(n as int) =~= first.take(n as int));
        assert(both.skip(n as int + 1) =~= rest + second);
        assert(rest.len() > 0 ==> rest.last() == first.last());
        law_pieces_of_two_texts(rest, second, separator);
        assert(pieces(both, separator) =~= pieces(first, separator) + pieces(second, separator));
    }
}

/// Splits `text` after every `separator`, as [`pieces`] says.
pub fn split_on(text: &[u8], separator: u8) -> (res: Vec<Vec<u8>>)
    ensures
        contents(res@) == pieces(text@, separator),
{
    let mut res: Vec<Vec<u8>> = Vec::new();
    let mut start: usize = 0;
    let mut i: usize = 0;
    assert(text@.skip(0) =~= text@);
    assert(contents(res@) + pieces(text@.skip(0), separator) =~= pieces(text@, separator));
    while i < text.len()
        invariant
            start <= i <= text@.len(),
            forall|j: int| start <= j < i ==> text@[j] != separator,
            contents(res@) + pieces(text@.skip(start as int), separator) == pieces(
                text@,
                separator,
            ),
        decreases text@.len() - i,
    {
        if text[i] == separator {
            let piece = slice_to_vec(slice_subrange(text, start, i));
            let ghost rest = text@.skip(start as int);
            proof {
                lemma_first_piece_len(rest, separator, (i - start) as nat);
                assert(rest.take(i - start) =~= piece@);
                assert(rest.skip(i - start + 1) =~= text@.skip(i + 1));
                assert(contents(res@.push(piece)) =~= contents(res@) + seq![piece@]);
                assert(contents(res@) + (seq![piece@] + pieces(text@.skip(i + 1), separator))
                    =~= contents(res@.push(piece)) + pieces(text@.skip(i + 1), separator));
            }
            res.push(piece);
            start = i + 1;
        }
        i = i + 1;
    }
    let ghost rest = text@.skip(start as int);
    if start < text.len() {
        let piece = slice_to_vec(slice_subrange(text, start, text.len()));
        proof {
            lemma_first_piece_len(rest, separator, rest.len());
            assert(piece@ =~= rest);
            assert(contents(res@.push(piece)) =~= contents(res@) + seq![piece@]);
        }
        res.push(piece);
    } else {
        assert(contents(res@) + seq![] =~= contents(res@));
    }
    res
}

/// Whether two byte strings hold the same bytes.
pub fn same_bytes(left: &[u8], right: &[u8]) -> (res: bool)
    ensures
        res == (left@ == right@),
{
    if left.len() != right.len() {
        return false;
    }
    let mut i: usize = 0;
    while i < left.len()
        invariant
            i <= left@.len() == right@.len(),
            forall|j: int| 0 <= j < i ==> left@[j] == right@[j],
        decreases left@.len() - i,
    {
        if left[i] != right[i] {
            return false;
        }
        i = i + 1;
    }
    assert(left@ =~= right@);
    true
}

/// Whether `text` begins with `prefix`.
pub fn starts_with(text: &[u8], prefix: &[u8]) -> (res: bool)
    ensures
        res == prefix@.is_prefix_of(text@),
{
    if text.len() < prefix.len() {
        return false;
    }
    same_bytes(slice_subrange(text, 0, prefix.len()), prefix)
}

/// A text is split at its separators and nowhere else: what stands before the first separator is
/// the first piece, the rest is split in the same way, and a text without a separator is one piece
/// unless it is empty.
pub proof fn law_a_piece_is_split_off(piece: Seq<u8>, rest: Seq<u8>, separator: u8)
    requires
        !piece.contains(separator),
    ensures
        pieces(piece.push(separator) + rest, separator) == seq![piece] + pieces(rest, separator),
        piece.len() > 0 ==> pieces(piece, separator) == seq![piece],
        pieces(Seq::<u8>::empty(), separator) == Seq::<Seq<u8>>::empty(),
{
    let text = piece.push(separator) + rest;
    let n = piece.len();
    assert forall|i: int| 0 <= i < n implies piece[i] != separator by {
        assert(piece.contains(piece[i]));
    }
    assert forall|i: int| 0 <= i < n implies text[i] != separator by {
        assert(text[i] == piece[i]);
    }
    lemma_first_piece_len(text, separator, n);
    lemma_first_piece_len(piece, separator, n);
    assert(text.take(n as int) =~= piece);
    assert(text.skip(n as int + 1) =~= rest);
}

/// The contents of a list of byte strings are those of each of them, in their order.
pub proof fn law_contents_are_those_of_each(list: Seq<Vec<u8>>, last: Vec<u8>)
    ensures
        contents(Seq::empty()) == Seq::<Seq<u8>>::empty(),
        contents(list.push(last)) == contents(list).push(last@),
{
    assert(contents(list.push(last)) =~= contents(list).push(last@));
}

} // verus!
