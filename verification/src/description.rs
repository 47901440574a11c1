//! Messages for the user.

use crate::bytes::starts_with;
use crate::outside::{
    green_text, lossy_text, sort_strings, style_green, text_le, texts, utf8_lossy,
};
use crate::reference_transaction::{update_views, ParsedReferenceTransactionLine, RefUpdate};
use vstd::prelude::*;
use vstd::relations::{sorted_by, total_ordering};
use vstd::slice::slice_subrange;
use vstd::utf8::{decode_utf8, encode_utf8, valid_utf8};

verus! {

/// The character of a decimal digit.
pub open spec fn digit_char(digit: nat) -> char
    recommends
        digit < 10,
{
    ('0' as u32 + digit) as char
}

/// The decimal digits of `n`.
pub open spec fn decimal_text(n: nat) -> Seq<char>
    decreases n,
{
    if n < 10 {
        seq![digit_char(n)]
    } else {
        decimal_text(n / 10).push(digit_char(n % 10))
    }
}

/// An amount and its unit, in the singular for one and in the plural otherwise.
pub open spec fn pluralized(amount: nat, singular: Seq<char>, plural: Seq<char>) -> Seq<char> {
    decimal_text(amount) + " "@ + if amount == 1 {
        singular
    } else {
        plural
    }
}

/// The kinds of references that messages tell apart.
#[derive(Clone, Copy, Debug, PartialEq, Eq)]
pub enum ReferenceCategory {
    LocalBranch,
    RemoteBranch,
    OtherRef,
}

/// The kind of a reference, by its name.
pub open spec fn category(ref_name: Seq<u8>) -> ReferenceCategory {
    if encode_utf8("refs/heads/"@).is_prefix_of(ref_name) {
        ReferenceCategory::LocalBranch
    } else if encode_utf8("refs/remotes/"@).is_prefix_of(ref_name) {
        ReferenceCategory::RemoteBranch
    } else {
        ReferenceCategory::OtherRef
    }
}

/// The part of a reference's name that its kind does not tell already.
pub open spec fn suffix(ref_name: Seq<u8>) -> Seq<u8> {
    match category(ref_name) {
        ReferenceCategory::LocalBranch => ref_name.skip(encode_utf8("refs/heads/"@).len() as int),
        ReferenceCategory::RemoteBranch => ref_name.skip(
            encode_utf8("refs/remotes/"@).len() as int,
        ),
        ReferenceCategory::OtherRef => ref_name,
    }
}

/// What a reference of some kind is called in messages.
pub open spec fn labelled(category: ReferenceCategory, name: Seq<char>) -> Seq<char> {
    match category {
        ReferenceCategory::LocalBranch => "branch "@ + name,
        ReferenceCategory::RemoteBranch => "remote branch "@ + name,
        ReferenceCategory::OtherRef => "ref "@ + name,
    }
}

/// The text that is shown for a byte string: the one that it encodes, if it is UTF-8.
pub open spec fn shown(bytes: Seq<u8>) -> Seq<char> {
    if valid_utf8(bytes) {
        decode_utf8(bytes)
    } else {
        utf8_lossy(bytes)
    }
}

/// What a reference is called in messages: a branch by its name, a remote branch by that of the
/// remote and its own, and any other reference by its full name.
pub open spec fn described(ref_name: Seq<u8>) -> Seq<char> {
    labelled(category(ref_name), shown(suffix(ref_name)))
}

/// The names of the references that `updates` are about.
pub open spec fn updated_refs(updates: Seq<RefUpdate>) -> Seq<Seq<u8>> {
    Seq::new(updates.len(), |i: int| updates[i].ref_name)
}

/// The texts of `list` in a row, with `separator` between them.
pub open spec fn joined(list: Seq<Seq<char>>, separator: Seq<char>) -> Seq<char>
    decreases list.len(),
{
    if list.len() == 0 {
        seq![]
    } else if list.len() == 1 {
        list.last()
    } else {
        joined(list.drop_last(), separator) + (separator + list.last())
    }
}

/// `list` in dictionary order.
pub open spec fn in_order(list: Seq<Seq<char>>) -> Seq<Seq<char>> {
    list.sort_by(|left: Seq<char>, right: Seq<char>| text_le(left, right))
}

/// What each reference is called, in green if `colors` is set.
pub open spec fn colored_descriptions(ref_names: Seq<Seq<u8>>, colors: bool) -> Seq<Seq<char>> {
    Seq::new(ref_names.len(), |i: int| green_text(described(ref_names[i]), colors))
}

/// The message that announces updates of the references `ref_names`: how many there are, and what
/// the references are called, in dictionary order.
pub open spec fn update_message(ref_names: Seq<Seq<u8>>, colors: bool) -> Seq<char> {
    "branchless: processing "@ + pluralized(ref_names.len(), "update"@, "updates"@) + ": "@ + joined(
        in_order(colored_descriptions(ref_names, colors)),
        ", "@,
    )
}

/// The message that announces a commit, which `description` describes.
pub open spec fn commit_message(description: Seq<char>) -> Seq<char> {
    "branchless: processed commit: "@ + description
}

proof fn lemma_text_le_reflexive(a: Seq<char>)
    ensures
        text_le(a, a),
    decreases a.len(),
{
    if a.len() > 0 {
        lemma_text_le_reflexive(a.drop_first());
    }
}

proof fn lemma_text_le_antisymmetric(a: Seq<char>, b: Seq<char>)
    requires
        text_le(a, b),
        text_le(b, a),
    ensures
        a == b,
    decreases a.len(),
{
    if a.len() > 0 && b.len() > 0 {
        assert(a[0] == b[0]);
        lemma_text_le_antisymmetric(a.drop_first(), b.drop_first());
        assert(a =~= seq![a[0]] + a.drop_first());
        assert(b =~= seq![b[0]] + b.drop_first());
    } else {
        assert(a =~= b);
    }
}

proof fn lemma_text_le_transitive(a: Seq<char>, b: Seq<char>, c: Seq<char>)
    requires
        text_le(a, b),
        text_le(b, c),
    ensures
        text_le(a, c),
    decreases a.len(),
{
    if a.len() > 0 && b.len() > 0 && c.len() > 0 {
        if a[0] == b[0] && b[0] == c[0] {
            lemma_text_le_transitive(a.drop_first(), b.drop_first(), c.drop_first());
        }
    }
}

proof fn lemma_text_le_connected(a: Seq<char>, b: Seq<char>)
    ensures
        text_le(a, b) || text_le(b, a),
    decreases a.len(),
{
    if a.len() > 0 && b.len() > 0 {
        if a[0] == b[0] {
            lemma_text_le_connected(a.drop_first(), b.drop_first());
        } else {
            vstd::utf8::char_u32_cast(a[0], a[0] as u32);
            vstd::utf8::char_u32_cast(b[0], b[0] as u32);
        }
    }
}

/// The dictionary order is total.
proof fn lemma_text_le_total()
    ensures
        total_ordering(|left: Seq<char>, right: Seq<char>| text_le(left, right)),
{
    let leq = |left: Seq<char>, right: Seq<char>| text_le(left, right);
    assert forall|a: Seq<char>| #[trigger] leq(a, a) by {
        lemma_text_le_reflexive(a);
    }
    assert forall|a: Seq<char>, b: Seq<char>| #[trigger] leq(a, b) && #[trigger] leq(
        b,
        a,
    ) implies a == b by {
        lemma_text_le_antisymmetric(a, b);
    }
    assert forall|a: Seq<char>, b: Seq<char>, c: Seq<char>| #[trigger] leq(a, b) && #[trigger] leq(
        b,
        c,
    ) implies leq(a, c) by {
        lemma_text_le_transitive(a, b, c);
    }
    assert forall|a: Seq<char>, b: Seq<char>| #[trigger] leq(a, b) || #[trigger] leq(b, a) by {
        lemma_text_le_connected(a, b);
    }
}

/// There is one way to put texts in dictionary order.
proof fn lemma_in_order_unique(list: Seq<Seq<char>>, sorted: Seq<Seq<char>>)
    requires
        sorted.to_multiset() == list.to_multiset(),
        sorted_by(sorted, |left: Seq<char>, right: Seq<char>| text_le(left, right)),
    ensures
        sorted == in_order(list),
{
    let leq = |left: Seq<char>, right: Seq<char>| text_le(left, right);
    lemma_text_le_total();
    list.lemma_sort_by_ensures(leq);
    vstd::seq_lib::lemma_sorted_unique(sorted, list.sort_by(leq), leq);
}

/// The message does not depend on the order in which the updates came.
pub proof fn law_update_message_ignores_order(
    left: Seq<Seq<u8>>,
    right: Seq<Seq<u8>>,
    colors: bool,
)
    requires
        left.to_multiset() == right.to_multiset(),
    ensures
        update_message(left, colors) == update_message(right, colors),
{
    let name = |ref_name: Seq<u8>| green_text(described(ref_name), colors);
    let leq = |a: Seq<char>, b: Seq<char>| text_le(a, b);
    let left_names = colored_descriptions(left, colors);
    let right_names = colored_descriptions(right, colors);
    assert(left_names =~= left.map_values(name));
    assert(right_names =~= right.map_values(name));
    broadcast use vstd::seq_lib::group_to_multiset_ensures;
    assert(left.len() == left.to_multiset().len() == right.len());
    lemma_map_permutation(left, right, name);
    lemma_text_le_total();
    left_names.lemma_sort_by_ensures(leq);
    lemma_in_order_unique(right_names, in_order(left_names));
}

/// Mapping two permutations of one list gives permutations of one list.
proof fn lemma_map_permutation<A, B>(left: Seq<A>, right: Seq<A>, f: spec_fn(A) -> B)
    requires
        left.to_multiset() == right.to_multiset(),
    ensures
        left.map_values(f).to_multiset() == right.map_values(f).to_multiset(),
    decreases left.len(),
{
    broadcast use vstd::seq_lib::group_to_multiset_ensures;
    broadcast use vstd::multiset::group_multiset_axioms;

    assert(left.len() == left.to_multiset().len() == right.len());
    if left.len() == 0 {
        assert(left.map_values(f) =~= right.map_values(f));
    } else {
        let last = left.last();
        assert(left.to_multiset().contains(last));
        assert(right.contains(last));
        let k = right.index_of(last);
        let left_rest = left.drop_last();
        let right_rest = right.remove(k);
        assert(left =~= left_rest.push(last));
        assert(left.to_multiset() =~= left_rest.to_multiset().insert(last));
        assert(right_rest.to_multiset() =~= right.to_multiset().remove(last));
        assert(left_rest.to_multiset() =~= right_rest.to_multiset());
        lemma_map_permutation(left_rest, right_rest, f);
        assert(left.map_values(f) =~= left_rest.map_values(f).push(f(last)));
        let mapped = right.map_values(f);
        assert(mapped.remove(k) =~= right_rest.map_values(f));
        assert(mapped[k] == f(last));
        assert(mapped.to_multiset().contains(f(last)));
        assert(mapped.remove(k).to_multiset() =~= mapped.to_multiset().remove(f(last)));
        assert(mapped.to_multiset() =~= mapped.remove(k).to_multiset().insert(f(last)));
    }
}

/// The text of a decimal digit.
fn digit_text(digit: usize) -> (res: &'static str)
    requires
        digit < 10,
    ensures
        res@ == seq![digit_char(digit as nat)],
{
    proof {
        reveal_strlit("0");
        reveal_strlit("1");
        reveal_strlit("2");
        reveal_strlit("3");
        reveal_strlit("4");
        reveal_strlit("5");
        reveal_strlit("6");
        reveal_strlit("7");
        reveal_strlit("8");
        reveal_strlit("9");
    }
    match digit {
        0 => "0",
        1 => "1",
        2 => "2",
        3 => "3",
        4 => "4",
        5 => "5",
        6 => "6",
        7 => "7",
        8 => "8",
        _ => "9",
    }
}

/// Writes `n` in decimal.
pub fn decimal(n: usize) -> (res: String)
    ensures
        res@ == decimal_text(n as nat),
    decreases n,
{
    if n < 10 {
        String::from_str(digit_text(n))
    } else {
        let mut res = decimal(n / 10);
        res.append(digit_text(n % 10));
        assert(res@ =~= decimal_text(n as nat));
        res
    }
}

/// Writes an amount with its unit.
pub fn pluralize(amount: usize, singular: &str, plural: &str) -> (res: String)
    ensures
        res@ == pluralized(amount as nat, singular@, plural@),
{
    let mut res = decimal(amount);
    res.append(" ");
    if amount == 1 {
        res.append(singular);
    } else {
        res.append(plural);
    }
    res
}

/// Tells the kind of a reference, and the part of its name that the kind does not tell already.
pub fn categorize(ref_name: &[u8]) -> (res: (ReferenceCategory, &[u8]))
    ensures
        res.0 == category(ref_name@),
        res.1@ == suffix(ref_name@),
{
    let heads = "refs/heads/".as_bytes();
    let remotes = "refs/remotes/".as_bytes();
    if starts_with(ref_name, heads) {
        let rest = slice_subrange(ref_name, heads.len(), ref_name.len());
        assert(rest@ =~= ref_name@.skip(heads@.len() as int));
        (ReferenceCategory::LocalBranch, rest)
    } else if starts_with(ref_name, remotes) {
        let rest = slice_subrange(ref_name, remotes.len(), ref_name.len());
        assert(rest@ =~= ref_name@.skip(remotes@.len() as int));
        (ReferenceCategory::RemoteBranch, rest)
    } else {
        (ReferenceCategory::OtherRef, ref_name)
    }
}

/// Says what a reference of some kind is called in messages.
pub fn describe_as(category: ReferenceCategory, name: &str) -> (res: String)
    ensures
        res@ == labelled(category, name@),
{
    match category {
        ReferenceCategory::LocalBranch => String::from_str("branch ").concat(name),
        ReferenceCategory::RemoteBranch => String::from_str("remote branch ").concat(name),
        ReferenceCategory::OtherRef => String::from_str("ref ").concat(name),
    }
}

/// Says what a reference is called in messages.
pub fn friendly_describe(ref_name: &[u8]) -> (res: String)
    ensures
        res@ == described(ref_name@),
{
    let (category, rest) = categorize(ref_name);
    describe_as(category, lossy_text(rest).as_str())
}

/// Writes the strings of `list` in a row, with `separator` between them.
fn join(list: &Vec<String>, separator: &str) -> (res: String)
    ensures
        res@ == joined(texts(list@), separator@),
{
    let mut res = String::new();
    let ghost all = texts(list@);
    let mut i: usize = 0;
    assert(all.take(0) =~= seq![]);
    while i < list.len()
        invariant
            i <= list@.len(),
            all == texts(list@),
            res@ == joined(all.take(i as int), separator@),
        decreases list@.len() - i,
    {
        if i > 0 {
            res.append(separator);
        }
        res.append(list[i].as_str());
        proof {
            let longer = all.take(i + 1);
            assert(longer.drop_last() =~= all.take(i as int));
            assert(longer.last() == list@[i as int]@);
            assert(res@ =~= joined(longer, separator@));
        }
        i = i + 1;
    }
    assert(all.take(i as int) =~= all);
    res
}

/// Writes the message that announces updates, in colour if `colors` is set.
pub fn describe_updates(updates: &Vec<ParsedReferenceTransactionLine>, colors: bool) -> (res:
    String)
    ensures
        res@ == update_message(updated_refs(update_views(updates@)), colors),
{
    let ghost all = colored_descriptions(updated_refs(update_views(updates@)), colors);
    let mut descriptions: Vec<String> = Vec::new();
    let mut i: usize = 0;
    while i < updates.len()
        invariant
            i <= updates@.len(),
            all == colored_descriptions(updated_refs(update_views(updates@)), colors),
            texts(descriptions@) =~= all.take(i as int),
        decreases updates@.len() - i,
    {
        let description = friendly_describe(updates[i].ref_name.as_slice());
        let styled = style_green(description.as_str(), colors);
        proof {
            assert(styled@ == all[i as int]);
            assert(texts(descriptions@.push(styled)) =~= texts(descriptions@).push(styled@));
            assert(all.take(i + 1) =~= all.take(i as int).push(all[i as int]));
        }
        descriptions.push(styled);
        i = i + 1;
    }
    assert(texts(descriptions@) =~= all);
    let sorted = sort_strings(descriptions);
    proof {
        lemma_in_order_unique(all, texts(sorted@));
    }
    let mut res = String::from_str("branchless: processing ");
    res.append(pluralize(updates.len(), "update", "updates").as_str());
    res.append(": ");
    res.append(join(&sorted, ", ").as_str());
    res
}

/// Writes the message that announces a commit.
pub fn describe_commit(description: &str) -> (res: String)
    ensures
        res@ == commit_message(description@),
{
    String::from_str("branchless: processed commit: ").concat(description)
}

/// Numbers are written in decimal: below ten by one digit, and ten times a number and a digit more
/// by what writes the number and then that digit.
pub proof fn law_numbers_are_written_in_decimal(n: nat, digit: nat)
    requires
        digit < 10,
    ensures
        decimal_text(digit) == seq!["0123456789"@[digit as int]],
        n > 0 ==> decimal_text(10 * n + digit) == decimal_text(n).push(
            "0123456789"@[digit as int],
        ),
{
    reveal_strlit("0123456789");
    assert(digit_char(digit) == "0123456789"@[digit as int]);
    assert((10 * n + digit) / 10 == n && (10 * n + digit) % 10 == digit);
}

/// One has its unit in the singular, and every other amount in the plural.
pub proof fn law_units_agree_with_their_amount(
    amount: nat,
    singular: Seq<char>,
    plural: Seq<char>,
)
    ensures
        pluralized(1, singular, plural) == decimal_text(1) + " "@ + singular,
        amount != 1 ==> pluralized(amount, singular, plural) == decimal_text(amount) + " "@
            + plural,
{
}

/// What follows `refs/heads/` is the name of a branch, what follows `refs/remotes/` that of a remote
/// branch, and a reference that begins with neither goes by its full name.
pub proof fn law_references_are_told_apart_by_their_prefix(rest: Seq<u8>, ref_name: Seq<u8>)
    ensures
        category(encode_utf8("refs/heads/"@) + rest) is LocalBranch,
        suffix(encode_utf8("refs/heads/"@) + rest) == rest,
        category(encode_utf8("refs/remotes/"@) + rest) is RemoteBranch,
        suffix(encode_utf8("refs/remotes/"@) + rest) == rest,
        !encode_utf8("refs/heads/"@).is_prefix_of(ref_name) && !encode_utf8(
            "refs/remotes/"@,
        ).is_prefix_of(ref_name) ==> category(ref_name) is OtherRef && suffix(ref_name) == ref_name,
{
    let heads = encode_utf8("refs/heads/"@);
    let remotes = encode_utf8("refs/remotes/"@);
    assert(heads.is_prefix_of(heads + rest));
    assert((heads + rest).skip(heads.len() as int) =~= rest);
    assert(remotes.is_prefix_of(remotes + rest));
    assert((remotes + rest).skip(remotes.len() as int) =~= rest);
    lemma_prefixes_differ(rest);
}

/// No name that begins with `refs/remotes/` begins with `refs/heads/`.
proof fn lemma_prefixes_differ(rest: Seq<u8>)
    ensures
        !encode_utf8("refs/heads/"@).is_prefix_of(encode_utf8("refs/remotes/"@) + rest),
{
    let heads = encode_utf8("refs/heads/"@);
    let remotes = encode_utf8("refs/remotes/"@);
    reveal_strlit("refs/heads/");
    reveal_strlit("refs/remotes/");
    vstd::utf8::is_ascii_chars_encode_utf8("refs/heads/"@);
    vstd::utf8::is_ascii_chars_encode_utf8("refs/remotes/"@);
    assert(heads[5] != remotes[5]);
    if heads.is_prefix_of(remotes + rest) {
        assert((remotes + rest)[5] == heads[5]);
        assert((remotes + rest)[5] == remotes[5]);
    }
}

/// A branch is called by its name, a remote branch by that of the remote and its own, and any other
/// reference by its full name; each is said to be what it is.
pub proof fn law_references_are_called_by_their_names(text: Seq<char>)
    ensures
        described(encode_utf8("refs/heads/"@) + encode_utf8(text)) == "branch "@ + text,
        described(encode_utf8("refs/remotes/"@) + encode_utf8(text)) == "remote branch "@ + text,
        !encode_utf8("refs/heads/"@).is_prefix_of(encode_utf8(text)) && !encode_utf8(
            "refs/remotes/"@,
        ).is_prefix_of(encode_utf8(text)) ==> described(encode_utf8(text)) == "ref "@ + text,
        labelled(ReferenceCategory::LocalBranch, text) == "branch "@ + text,
        labelled(ReferenceCategory::RemoteBranch, text) == "remote branch "@ + text,
        labelled(ReferenceCategory::OtherRef, text) == "ref "@ + text,
{
    law_references_are_told_apart_by_their_prefix(encode_utf8(text), encode_utf8(text));
    vstd::utf8::encode_utf8_valid_utf8(text);
    vstd::utf8::encode_utf8_decode_utf8(text);
}

/// A name that is not UTF-8 is shown with replacement characters.
pub proof fn law_other_names_are_shown_with_replacements(rest: Seq<u8>)
    requires
        !valid_utf8(rest),
    ensures
        described(encode_utf8("refs/heads/"@) + rest) == "branch "@ + utf8_lossy(rest),
        described(encode_utf8("refs/remotes/"@) + rest) == "remote branch "@ + utf8_lossy(rest),
        !encode_utf8("refs/heads/"@).is_prefix_of(rest) && !encode_utf8(
            "refs/remotes/"@,
        ).is_prefix_of(rest) ==> described(rest) == "ref "@ + utf8_lossy(rest),
{
    law_references_are_told_apart_by_their_prefix(rest, rest);
}

/// Joining two lists is joining each and putting the separator between the two; a list of one is
/// that one, and an empty list is nothing.
pub proof fn law_separators_stand_between_texts(
    first: Seq<Seq<char>>,
    second: Seq<Seq<char>>,
    text: Seq<char>,
    separator: Seq<char>,
)
    requires
        first.len() > 0,
        second.len() > 0,
    ensures
        joined(Seq::empty(), separator) == Seq::<char>::empty(),
        joined(seq![text], separator) == text,
        joined(first + second, separator) == joined(first, separator) + separator + joined(
            second,
            separator,
        ),
    decreases second.len(),
{
    let both = first + second;
    assert(both.last() == second.last());
    if second.len() == 1 {
        assert(both.drop_last() =~= first);
        assert(joined(both, separator) =~= joined(first, separator) + separator + joined(
            second,
            separator,
        ));
    } else {
        assert(both.drop_last() =~= first + second.drop_last());
        law_separators_stand_between_texts(first, second.drop_last(), text, separator);
        assert(joined(both, separator) =~= joined(first, separator) + separator + joined(
            second,
            separator,
        ));
    }
}

/// One text comes no later than another just if it is the beginning of the other, or has the lesser
/// character where the two first differ.
pub proof fn law_texts_are_ordered_as_in_a_dictionary(left: Seq<char>, right: Seq<char>)
    ensures
        text_le(left, right) <==> left.is_prefix_of(right) || exists|k: int|
            {
                &&& 0 <= k < left.len() && k < right.len()
                &&& #[trigger] left.take(k) == right.take(k)
                &&& (left[k] as u32) < (right[k] as u32)
            },
    decreases left.len(),
{
    if left.len() > 0 && right.len() > 0 {
        let (a, b) = (left.drop_first(), right.drop_first());
        if left[0] == right[0] {
            law_texts_are_ordered_as_in_a_dictionary(a, b);
            if a.is_prefix_of(b) {
                assert(left =~= seq![left[0]] + a);
                assert(right.take(left.len() as int) =~= seq![right[0]] + b.take(a.len() as int));
            }
            if left.is_prefix_of(right) {
                assert(a =~= b.take(a.len() as int)) by {
                    assert forall|i: int| 0 <= i < a.len() implies a[i] == b[i] by {
                        assert(left[i + 1] == right.take(left.len() as int)[i + 1]);
                    }
                }
            }
            if exists|k: int|
                {
                    &&& 0 <= k < a.len() && k < b.len()
                    &&& #[trigger] a.take(k) == b.take(k)
                    &&& (a[k] as u32) < (b[k] as u32)
                } {
                let k = choose|k: int|
                    {
                        &&& 0 <= k < a.len() && k < b.len()
                        &&& #[trigger] a.take(k) == b.take(k)
                        &&& (a[k] as u32) < (b[k] as u32)
                    };
                assert(left.take(k + 1) =~= seq![left[0]] + a.take(k));
                assert(right.take(k + 1) =~= seq![right[0]] + b.take(k));
                assert(left.take(k + 1) == right.take(k + 1));
            }
            if exists|k: int|
                {
                    &&& 0 <= k < left.len() && k < right.len()
                    &&& #[trigger] left.take(k) == right.take(k)
                    &&& (left[k] as u32) < (right[k] as u32)
                } {
                let k = choose|k: int|
                    {
                        &&& 0 <= k < left.len() && k < right.len()
                        &&& #[trigger] left.take(k) == right.take(k)
                        &&& (left[k] as u32) < (right[k] as u32)
                    };
                assert(a.take(k - 1) =~= left.take(k).drop_first());
                assert(b.take(k - 1) =~= right.take(k).drop_first());
                assert(a.take(k - 1) == b.take(k - 1));
            }
        } else {
            if left.is_prefix_of(right) {
                assert(left[0] == right.take(left.len() as int)[0]);
            }
            if (left[0] as u32) < (right[0] as u32) {
                assert(left.take(0) =~= right.take(0));
            }
            if exists|k: int|
                {
                    &&& 0 <= k < left.len() && k < right.len()
                    &&& #[trigger] left.take(k) == right.take(k)
                    &&& (left[k] as u32) < (right[k] as u32)
                } {
                let k = choose|k: int|
                    {
                        &&& 0 <= k < left.len() && k < right.len()
                        &&& #[trigger] left.take(k) == right.take(k)
                        &&& (left[k] as u32) < (right[k] as u32)
                    };
                if k > 0 {
                    assert(left.take(k)[0] == right.take(k)[0]);
                }
            }
        }
    } else if left.len() == 0 {
        assert(left =~= right.take(0));
    }
}

/// The message says how many updates there are and, after a colon, what each updated reference is
/// called, none left out, each in green if there are colours, and all in dictionary order.
pub proof fn law_update_messages_name_every_reference(
    ref_names: Seq<Seq<u8>>,
    colors: bool,
    sorted: Seq<Seq<char>>,
)
    requires
        sorted.to_multiset() == Seq::new(
            ref_names.len(),
            |i: int|
                if colors {
                    "\x1b[32m"@ + described(ref_names[i]) + "\x1b[0m"@
                } else {
                    described(ref_names[i])
                },
        ).to_multiset(),
        forall|i: int, j: int| 0 <= i < j < sorted.len() ==> text_le(sorted[i], sorted[j]),
    ensures
        update_message(ref_names, colors) == "branchless: processing "@ + (decimal_text(
            ref_names.len(),
        ) + " "@ + if ref_names.len() == 1 {
            "update"@
        } else {
            "updates"@
        }) + ": "@ + joined(sorted, ", "@),
{
    let list = Seq::new(
        ref_names.len(),
        |i: int|
            if colors {
                "\x1b[32m"@ + described(ref_names[i]) + "\x1b[0m"@
            } else {
                described(ref_names[i])
            },
    );
    assert(list =~= colored_descriptions(ref_names, colors));
    lemma_in_order_unique(list, sorted);
}

/// Texts in order are the same texts, and each comes no later than those behind it.
pub proof fn law_order_loses_no_text(list: Seq<Seq<char>>)
    ensures
        in_order(list).to_multiset() == list.to_multiset(),
        forall|i: int, j: int|
            0 <= i < j < list.len() ==> text_le(#[trigger] in_order(list)[i], #[trigger] in_order(
                list,
            )[j]),
{
    let leq = |left: Seq<char>, right: Seq<char>| text_le(left, right);
    lemma_text_le_total();
    list.lemma_sort_by_ensures(leq);
    broadcast use vstd::seq_lib::group_to_multiset_ensures;

    assert(in_order(list).len() == in_order(list).to_multiset().len() == list.len());
    assert forall|i: int, j: int| 0 <= i < j < list.len() implies text_le(
        #[trigger] in_order(list)[i],
        #[trigger] in_order(list)[j],
    ) by {
        assert(leq(in_order(list)[i], in_order(list)[j]));
    }
}

/// The references that a message is about are those of the updates, in their order.
pub proof fn law_updated_references_are_those_of_each(updates: Seq<RefUpdate>, last: RefUpdate)
    ensures
        updated_refs(Seq::empty()) == Seq::<Seq<u8>>::empty(),
        updated_refs(updates.push(last)) == updated_refs(updates).push(last.ref_name),
{
    assert(updated_refs(updates.push(last)) =~= updated_refs(updates).push(last.ref_name));
}

/// A commit is announced by its whole description.
pub proof fn law_commits_are_announced_by_their_description(description: Seq<char>)
    ensures
        commit_message(description) == "branchless: processed commit: "@ + description,
{
}

/// The texts of a list of strings are those of each of them, in their order.
pub proof fn law_texts_are_those_of_each(list: Seq<String>, last: String)
    ensures
        texts(Seq::empty()) == Seq::<Seq<char>>::empty(),
        texts(list.push(last)) == texts(list).push(last@),
{
    assert(texts(list.push(last)) =~= texts(list).push(last@));
}

} // verus!
