//! Object IDs: the names that Git gives to commits, and the all-zero ID that stands for "none".

use vstd::prelude::*;

verus! {

/// How many bytes an object ID has.
pub const OID_LEN: usize = 20;

/// How many hexadecimal digits write an object ID in full.
pub const OID_HEX_LEN: usize = 40;

/// The all-zero object ID, which stands for a reference that does not exist.
pub open spec fn zero_oid() -> Seq<u8> {
    Seq::new(OID_LEN as nat, |i: int| 0u8)
}

/// An object ID that is not all zeros.
#[derive(Clone, Copy, Debug, PartialEq, Eq)]
pub struct NonZeroOid {
    id: [u8; 20],
}

/// An object ID, or the all-zero ID.
#[derive(Clone, Copy, Debug, PartialEq, Eq)]
pub enum MaybeZeroOid {
    NonZero(NonZeroOid),
    Zero,
}

/// Why a text is no object ID.
#[derive(Clone, Copy, Debug, PartialEq, Eq)]
pub enum ParseOidError {
    /// The text is empty.
    Empty,
    /// The text has more digits than an object ID.
    TooLong,
    /// The text holds something other than hexadecimal digits.
    InvalidCharacter,
}

impl View for NonZeroOid {
    type V = Seq<u8>;

    closed spec fn view(&self) -> Seq<u8> {
        self.id@
    }
}

impl View for MaybeZeroOid {
    type V = Seq<u8>;

    open spec fn view(&self) -> Seq<u8> {
        match self {
            MaybeZeroOid::NonZero(oid) => oid@,
            MaybeZeroOid::Zero => zero_oid(),
        }
    }
}

/// Whether `c` is a hexadecimal digit: `0` to `9` (0x30 to 0x39), `a` to `f` (0x61 to 0x66) or
/// `A` to `F` (0x41 to 0x46).
pub open spec fn is_hex_digit(c: u8) -> bool {
    ||| 0x30 <= c <= 0x39
    ||| 0x61 <= c <= 0x66
    ||| 0x41 <= c <= 0x46
}

/// The value of a hexadecimal digit.
pub open spec fn hex_value(c: u8) -> int
    recommends
        is_hex_digit(c),
{
    if c <= 0x39 {
        c - 0x30
    } else if c <= 0x46 {
        c - 0x41 + 10
    } else {
        c - 0x61 + 10
    }
}

/// The value of the digit at `i`, where the digits that are left out count as zeros.
pub open spec fn padded_hex_value(text: Seq<u8>, i: int) -> int {
    if i < text.len() {
        hex_value(text[i])
    } else {
        0
    }
}

/// The object ID that the hexadecimal digits of `text` begin; the digits that are left out are
/// zeros.
pub open spec fn oid_from_digits(text: Seq<u8>) -> Seq<u8> {
    Seq::new(
        OID_LEN as nat,
        |i: int| (16 * padded_hex_value(text, 2 * i) + padded_hex_value(text, 2 * i + 1)) as u8,
    )
}

/// The object ID that `text` writes, or why it writes none.
pub open spec fn parsed_oid(text: Seq<u8>) -> Result<Seq<u8>, ParseOidError> {
    if text.len() == 0 {
        Err(ParseOidError::Empty)
    } else if text.len() > OID_HEX_LEN {
        Err(ParseOidError::TooLong)
    } else if exists|i: int| 0 <= i < text.len() && !is_hex_digit(text[i]) {
        Err(ParseOidError::InvalidCharacter)
    } else {
        Ok(oid_from_digits(text))
    }
}

/// The view of the outcome of parsing an object ID.
pub open spec fn oid_result(res: Result<MaybeZeroOid, ParseOidError>) -> Result<
    Seq<u8>,
    ParseOidError,
> {
    match res {
        Ok(oid) => Ok(oid@),
        Err(err) => Err(err),
    }
}

/// The value of `c` if it is a hexadecimal digit.
fn parse_hex_digit(c: u8) -> (res: Option<u8>)
    ensures
        res is Some <==> is_hex_digit(c),
        res matches Some(v) ==> v == hex_value(c) && v < 16,
{
    if 0x30 <= c && c <= 0x39 {
        Some(c - 0x30)
    } else if 0x61 <= c && c <= 0x66 {
        Some(c - 0x61 + 10)
    } else if 0x41 <= c && c <= 0x46 {
        Some(c - 0x41 + 10)
    } else {
        None
    }
}

impl NonZeroOid {
    #[verifier::type_invariant]
    spec fn well_formed(self) -> bool {
        self.id@ != zero_oid()
    }

    /// The bytes of the object ID.
    pub fn to_bytes(&self) -> (res: [u8; 20])
        ensures
            res@ == self@,
            res@ != zero_oid(),
    {
        proof {
            use_type_invariant(self);
        }
        self.id
    }
}

impl MaybeZeroOid {
    /// The object ID with these bytes.
    pub fn from_bytes(id: [u8; 20]) -> (res: MaybeZeroOid)
        ensures
            res@ == id@,
            res is Zero <==> id@ == zero_oid(),
    {
        let mut i: usize = 0;
        while i < OID_LEN
            invariant
                i <= OID_LEN,
                forall|j: int| 0 <= j < i ==> id@[j] == 0,
            decreases OID_LEN - i,
        {
            if id[i] != 0 {
                assert(zero_oid()[i as int] == 0);
                return MaybeZeroOid::NonZero(NonZeroOid { id });
            }
            i = i + 1;
        }
        assert(id@ =~= zero_oid());
        MaybeZeroOid::Zero
    }

    /// Parses the hexadecimal digits of an object ID. Trailing digits may be left out and are
    /// then zeros.
    pub fn from_hex(text: &[u8]) -> (res: Result<MaybeZeroOid, ParseOidError>)
        ensures
            oid_result(res) == parsed_oid(text@),
            res matches Ok(oid) ==> (oid is Zero <==> oid@ == zero_oid()),
    {
        if text.len() == 0 {
            return Err(ParseOidError::Empty);
        }
        if text.len() > OID_HEX_LEN {
            return Err(ParseOidError::TooLong);
        }
        let mut id: [u8; 20] = [0u8; 20];
        let mut i: usize = 0;
        while i < text.len()
            invariant
                i <= text@.len() <= OID_HEX_LEN,
                forall|j: int| 0 <= j < i ==> is_hex_digit(#[trigger] text@[j]),
                id@ =~= oid_from_digits(text@.take(i as int)),
            decreases text@.len() - i,
        {
            match parse_hex_digit(text[i]) {
                None => {
                    assert(!is_hex_digit(text@[i as int]));
                    return Err(ParseOidError::InvalidCharacter);
                },
                Some(digit) => {
                    let ghost before = id@;
                    let ghost shorter = text@.take(i as int);
                    let ghost longer = text@.take(i + 1);
                    let k: usize = i / 2;
                    assert(oid_from_digits(shorter)[k as int] == id@[k as int]);
                    if i % 2 == 0 {
                        id[k] = digit * 16;
                    } else {
                        assert(padded_hex_value(shorter, 2 * k) == hex_value(text@[2 * k as int]));
                        assert(is_hex_digit(text@[2 * k as int]));
                        assert(id@[k as int] == 16 * hex_value(text@[2 * k as int]));
                        id[k] = id[k] + digit;
                    }
                    assert forall|j: int| 0 <= j < OID_LEN implies id@[j] == oid_from_digits(
                        longer,
                    )[j] by {
                        assert(oid_from_digits(shorter)[j] == before[j]);
                        if j != k {
                            assert(padded_hex_value(shorter, 2 * j) == padded_hex_value(
                                longer,
                                2 * j,
                            ));
                            assert(padded_hex_value(shorter, 2 * j + 1) == padded_hex_value(
                                longer,
                                2 * j + 1,
                            ));
                        }
                    }
                },
            }
            i = i + 1;
        }
        assert(text@.take(i as int) =~= text@);
        Ok(MaybeZeroOid::from_bytes(id))
    }

    /// Parses an object ID as [`MaybeZeroOid::from_hex`] does.
    pub fn from_str(text: &str) -> (res: Result<MaybeZeroOid, ParseOidError>)
        ensures
            oid_result(res) == parsed_oid(vstd::utf8::encode_utf8(text@)),
            res matches Ok(oid) ==> (oid is Zero <==> oid@ == zero_oid()),
    {
        MaybeZeroOid::from_hex(text.as_bytes())
    }

    /// Whether this is the all-zero ID.
    pub fn is_zero(&self) -> (res: bool)
        ensures
            res == (self@ == zero_oid()),
            res == (self is Zero),
    {
        match self {
            MaybeZeroOid::Zero => true,
            MaybeZeroOid::NonZero(oid) => {
                proof {
                    use_type_invariant(oid);
                }
                false
            },
        }
    }

    /// The bytes of the object ID.
    pub fn to_bytes(&self) -> (res: [u8; 20])
        ensures
            res@ == self@,
    {
        match self {
            MaybeZeroOid::Zero => {
                let id: [u8; 20] = [0u8; 20];
                assert(id@ =~= zero_oid());
                id
            },
            MaybeZeroOid::NonZero(oid) => oid.to_bytes(),
        }
    }

    /// Whether two object IDs are the same.
    pub fn same_oid(&self, other: &MaybeZeroOid) -> (res: bool)
        ensures
            res == (self@ == other@),
            res == (*self == *other),
    {
        let left = self.to_bytes();
        let right = other.to_bytes();
        let mut i: usize = 0;
        while i < OID_LEN
            invariant
                i <= OID_LEN,
                left@ == self@,
                right@ == other@,
                forall|j: int| 0 <= j < i ==> left@[j] == right@[j],
            decreases OID_LEN - i,
        {
            if left[i] != right[i] {
                return false;
            }
            i = i + 1;
        }
        assert(left@ =~= right@);
        let _ = self.is_zero();
        let _ = other.is_zero();
        proof {
            match (*self, *other) {
                (MaybeZeroOid::NonZero(a), MaybeZeroOid::NonZero(b)) => {
                    assert forall|j: int| 0 <= j < OID_LEN implies a.id[j] == b.id[j] by {
                        assert(a.id@[j] == b.id@[j]);
                    }
                    assert(a.id =~= b.id);
                },
                _ => {},
            }
        }
        true
    }
}

/// Zeros at the end of an object ID may be left out.
pub proof fn law_trailing_zeros_may_be_left_out(text: Seq<u8>)
    requires
        0 < text.len() < OID_HEX_LEN,
    ensures
        parsed_oid(text.push(0x30)) == parsed_oid(text),
{
    let longer = text.push(0x30);
    assert(is_hex_digit(longer.last()));
    if exists|i: int| 0 <= i < text.len() && !is_hex_digit(text[i]) {
        let i = choose|i: int| 0 <= i < text.len() && !is_hex_digit(text[i]);
        assert(!is_hex_digit(longer[i]));
    } else {
        assert forall|i: int| 0 <= i < longer.len() implies is_hex_digit(longer[i]) by {
            if i < text.len() {
                assert(longer[i] == text[i]);
            }
        }
        assert forall|i: int| 0 <= i implies padded_hex_value(longer, i) == padded_hex_value(
            text,
            i,
        ) by {}
        assert(oid_from_digits(longer) =~= oid_from_digits(text));
    }
}

/// The case of the digits does not matter: texts whose digits have the same values are the same
/// object ID.
pub proof fn law_digit_values_decide(left: Seq<u8>, right: Seq<u8>)
    requires
        left.len() == right.len(),
        forall|i: int|
            0 <= i < left.len() ==> is_hex_digit(#[trigger] left[i]) && is_hex_digit(right[i])
                && hex_value(left[i]) == hex_value(right[i]),
    ensures
        parsed_oid(left) == parsed_oid(right),
{
    assert forall|i: int| 0 <= i < right.len() implies is_hex_digit(right[i]) by {
        assert(is_hex_digit(left[i]));
    }
    assert forall|i: int| 0 <= i implies padded_hex_value(left, i) == padded_hex_value(
        right,
        i,
    ) by {
        if i < left.len() {
            assert(is_hex_digit(left[i]));
        }
    }
    assert(oid_from_digits(left) =~= oid_from_digits(right));
}

/// A text is the all-zero ID just if it is made of zeros, at least one and at most as many as an
/// object ID has digits.
pub proof fn law_zeros_are_the_zero_oid(text: Seq<u8>)
    ensures
        parsed_oid(text) == Ok::<Seq<u8>, ParseOidError>(zero_oid()) <==> (0 < text.len()
            <= OID_HEX_LEN && forall|i: int| 0 <= i < text.len() ==> text[i] == 0x30),
{
    if parsed_oid(text) == Ok::<Seq<u8>, ParseOidError>(zero_oid()) {
        assert forall|i: int| 0 <= i < text.len() implies text[i] == 0x30 by {
            assert(is_hex_digit(text[i]));
            let k = i / 2;
            assert(oid_from_digits(text)[k] == zero_oid()[k]);
            if 2 * k + 1 < text.len() {
                assert(is_hex_digit(text[2 * k + 1]));
            }
            assert(is_hex_digit(text[2 * k]));
        }
    }
    if 0 < text.len() <= OID_HEX_LEN && forall|i: int| 0 <= i < text.len() ==> text[i] == 0x30 {
        assert(oid_from_digits(text) =~= zero_oid());
    }
}

/// A text writes an object ID just if it has one to forty characters and all of them are
/// hexadecimal digits. An empty text, one that is too long, and any other text are told apart.
pub proof fn law_hexadecimal_texts_are_oids(text: Seq<u8>)
    ensures
        parsed_oid(text) is Ok <==> 1 <= text.len() <= 40 && forall|i: int|
            0 <= i < text.len() ==> {
                ||| 0x30 <= #[trigger] text[i] <= 0x39
                ||| 0x61 <= text[i] <= 0x66
                ||| 0x41 <= text[i] <= 0x46
            },
        text.len() == 0 <==> parsed_oid(text) == Err::<Seq<u8>, ParseOidError>(ParseOidError::Empty),
        text.len() > 40 <==> parsed_oid(text) == Err::<Seq<u8>, ParseOidError>(
            ParseOidError::TooLong,
        ),
        parsed_oid(text) is Err && 1 <= text.len() <= 40 <==> parsed_oid(text) == Err::<
            Seq<u8>,
            ParseOidError,
        >(ParseOidError::InvalidCharacter),
{
    if parsed_oid(text) is Ok {
        assert forall|i: int| 0 <= i < text.len() implies is_hex_digit(#[trigger] text[i]) by {}
    } else if exists|i: int| 0 <= i < text.len() && !is_hex_digit(text[i]) {
        let i = choose|i: int| 0 <= i < text.len() && !is_hex_digit(text[i]);
        assert(!(0x30 <= text[i] <= 0x39));
    }
}

/// An object ID has twenty bytes, and each of its forty digits is one half of a byte, the first
/// the upper one. A digit is written as `0` to `9`, `a` to `f` or `A` to `F`; digits that are left
/// out at the end are zeros.
pub proof fn law_each_digit_is_half_a_byte(text: Seq<u8>, oid: Seq<u8>, i: int, digit: int)
    requires
        parsed_oid(text) == Ok::<Seq<u8>, ParseOidError>(oid),
        0 <= i < 40,
        0 <= digit < 16,
        i < text.len() ==> {
            ||| digit < 10 && text[i] == 0x30 + digit
            ||| digit >= 10 && text[i] == 0x61 + (digit - 10)
            ||| digit >= 10 && text[i] == 0x41 + (digit - 10)
        },
        i >= text.len() ==> digit == 0,
    ensures
        oid.len() == 20,
        i % 2 == 0 ==> oid[i / 2] / 16 == digit,
        i % 2 == 1 ==> oid[i / 2] % 16 == digit,
{
    let k = i / 2;
    if 2 * k < text.len() {
        assert(is_hex_digit(text[2 * k]));
    }
    if 2 * k + 1 < text.len() {
        assert(is_hex_digit(text[2 * k + 1]));
    }
}

/// The all-zero object ID is twenty zero bytes.
pub proof fn law_zero_oid_is_all_zeros(oid: Seq<u8>)
    ensures
        oid == zero_oid() <==> oid.len() == 20 && forall|i: int| 0 <= i < 20 ==> oid[i] == 0,
{
    if oid.len() == 20 && forall|i: int| 0 <= i < 20 ==> oid[i] == 0 {
        assert(oid =~= zero_oid());
    } else if oid == zero_oid() {
        assert forall|i: int| 0 <= i < 20 implies oid[i] == 0 by {}
    }
}

/// The outcome of parsing is viewed as it is: an object ID by its bytes, an error as that error.
pub proof fn law_oid_results_are_viewed_as_they_are(oid: MaybeZeroOid, err: ParseOidError)
    ensures
        oid_result(Ok(oid)) == Ok::<Seq<u8>, ParseOidError>(oid@),
        oid_result(Err(err)) == Err::<Seq<u8>, ParseOidError>(err),
{
}

/// An object ID is viewed as its bytes, whether or not it is known not to be zero, and the all-zero
/// one as twenty zeros.
pub proof fn law_oid_views_are_their_bytes(oid: NonZeroOid, i: int)
    ensures
        MaybeZeroOid::NonZero(oid)@ == oid@,
        MaybeZeroOid::Zero@.len() == 20,
        0 <= i < 20 ==> MaybeZeroOid::Zero@[i] == 0,
{
}

} // verus!
