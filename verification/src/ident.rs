//! Secret identifiers: 128-bit values with a textual form.

use std::str::FromStr;
use vstd::prelude::*;

verus! {

/// The identifier of a secret: a 128-bit universally unique identifier,
/// held as the number that its sixteen bytes spell, first byte first.
#[derive(Clone, Copy, Debug, PartialEq, Eq, Hash, Structural)]
pub struct SecretId {
    pub value: u128,
}

/// What `uuid::Uuid::from_str` makes of a text: the identifier's number, or
/// the message of the error that it refuses the text with.
pub uninterp spec fn uuid_from_str(text: Seq<char>) -> Result<u128, Seq<char>>;

/// The lower-case hexadecimal digit of a number below sixteen.
pub open spec fn hex_char(n: int) -> char {
    seq!['0', '1', '2', '3', '4', '5', '6', '7', '8', '9', 'a', 'b', 'c', 'd', 'e', 'f'][n]
}

/// The last `n` hexadecimal digits of `v`, the most significant first.
pub open spec fn hex_digits(v: int, n: nat) -> Seq<char>
    decreases n,
{
    if n == 0 {
        Seq::empty()
    } else {
        hex_digits(v / 16, (n - 1) as nat).push(hex_char(v % 16))
    }
}

/// The canonical text of an identifier: its thirty-two hexadecimal digits
/// in lower case, in groups of 8, 4, 4, 4 and 12 with a hyphen between
/// them.
pub open spec fn hyphenated(value: u128) -> Seq<char> {
    let digits = hex_digits(value as int, 32);
    digits.subrange(0, 8) + seq!['-'] + digits.subrange(8, 12) + seq!['-'] + digits.subrange(
        12,
        16,
    ) + seq!['-'] + digits.subrange(16, 20) + seq!['-'] + digits.subrange(20, 32)
}

/// Whether `value` carries the marks of a randomly drawn identifier: the
/// version digit 4 and the two variant bits `10`.
pub open spec fn is_random_id(value: u128) -> bool {
    value & 0x0000_0000_0000_f000_c000_0000_0000_0000 == 0x0000_0000_0000_4000_8000_0000_0000_0000
}

/// Calls `uuid::Uuid::from_str` and hands out the identifier as a number
/// (`Uuid::as_u128`) or the error as its message. Trusted: the outcome
/// depends on the text alone, so it is the value that `uuid_from_str`
/// names; nothing more is claimed of it.
#[verifier::external_body]
pub(crate) fn parse_uuid(text: &str) -> (res: Result<u128, String>)
    ensures
        match res {
            Ok(value) => uuid_from_str(text@) == Ok::<u128, Seq<char>>(value),
            Err(message) => uuid_from_str(text@) == Err::<u128, Seq<char>>(message@),
        },
{
    match uuid::Uuid::from_str(text) {
        Ok(id) => Ok(id.as_u128()),
        Err(err) => Err(err.to_string()),
    }
}

/// Formats `uuid::Uuid::from_u128(value)` with its `Display`. Trusted: the
/// text is the hyphenated lower-case form of the sixteen bytes.
#[verifier::external_body]
pub(crate) fn uuid_text(value: u128) -> (res: String)
    ensures
        res@ == hyphenated(value),
{
    uuid::Uuid::from_u128(value).to_string()
}

/// Calls `uuid::Uuid::new_v4`. Trusted: whatever the random source gave,
/// the version and variant bits are set as for a random identifier. The
/// call does not return where the system has no random source.
#[verifier::external_body]
pub(crate) fn random_uuid() -> (res: u128)
    ensures
        is_random_id(res),
{
    uuid::Uuid::new_v4().as_u128()
}

impl SecretId {
    /// Reads an identifier from its text, or says why the text is none.
    pub fn parse(text: &str) -> (res: Result<SecretId, String>)
        ensures
            match res {
                Ok(id) => uuid_from_str(text@) == Ok::<u128, Seq<char>>(id.value),
                Err(message) => uuid_from_str(text@) == Err::<u128, Seq<char>>(message@),
            },
    {
        match parse_uuid(text) {
            Ok(value) => Ok(SecretId { value }),
            Err(message) => Err(message),
        }
    }

    /// The canonical text of the identifier.
    pub fn to_text(&self) -> (res: String)
        ensures
            res@ == hyphenated(self.value),
    {
        uuid_text(self.value)
    }
}

/// Whether `c` is a lower-case hexadecimal digit.
pub open spec fn is_hex_char(c: char) -> bool {
    ('0' <= c && c <= '9') || ('a' <= c && c <= 'f')
}

/// Every digit that `hex_digits` gives is a lower-case hexadecimal digit.
pub proof fn lemma_hex_digits_chars(v: int, n: nat)
    ensures
        hex_digits(v, n).len() == n,
        forall|i: int| 0 <= i < n ==> is_hex_char(#[trigger] hex_digits(v, n)[i]),
    decreases n,
{
    if n > 0 {
        lemma_hex_digits_chars(v / 16, (n - 1) as nat);
        let d = v % 16;
        assert(0 <= d < 16);
        assert(is_hex_char(hex_char(d))) by {
            let table = seq![
                '0',
                '1',
                '2',
                '3',
                '4',
                '5',
                '6',
                '7',
                '8',
                '9',
                'a',
                'b',
                'c',
                'd',
                'e',
                'f',
            ];
            assert(is_hex_char(table[0]) && is_hex_char(table[1]) && is_hex_char(table[2])
                && is_hex_char(table[3]) && is_hex_char(table[4]) && is_hex_char(table[5])
                && is_hex_char(table[6]) && is_hex_char(table[7]) && is_hex_char(table[8])
                && is_hex_char(table[9]) && is_hex_char(table[10]) && is_hex_char(table[11])
                && is_hex_char(table[12]) && is_hex_char(table[13]) && is_hex_char(table[14])
                && is_hex_char(table[15]));
        }
    }
}

/// The canonical text has thirty-six characters: a hyphen at each of the
/// four group boundaries and a lower-case hexadecimal digit elsewhere.
pub proof fn lemma_hyphenated_shape(value: u128)
    ensures
        hyphenated(value).len() == 36,
        forall|i: int|
            0 <= i < 36 ==> if i == 8 || i == 13 || i == 18 || i == 23 {
                hyphenated(value)[i] == '-'
            } else {
                is_hex_char(#[trigger] hyphenated(value)[i])
            },
{
    lemma_hex_digits_chars(value as int, 32);
    let digits = hex_digits(value as int, 32);
    assert forall|i: int| 0 <= i < 36 implies if i == 8 || i == 13 || i == 18 || i == 23 {
        hyphenated(value)[i] == '-'
    } else {
        is_hex_char(#[trigger] hyphenated(value)[i])
    } by {
        if i < 8 {
            assert(hyphenated(value)[i] == digits[i]);
        } else if i == 8 {
        } else if i < 13 {
            assert(hyphenated(value)[i] == digits[i - 1]);
        } else if i == 13 {
        } else if i < 18 {
            assert(hyphenated(value)[i] == digits[i - 2]);
        } else if i == 18 {
        } else if i < 23 {
            assert(hyphenated(value)[i] == digits[i - 3]);
        } else if i == 23 {
        } else {
            assert(hyphenated(value)[i] == digits[i - 4]);
        }
    }
}

} // verus!
