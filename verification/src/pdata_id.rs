//! Identities of pdata.

use uuid::Uuid;
use vstd::arithmetic::power::pow;
use vstd::prelude::*;

verus! {

/// The idempotency key of a pdata batch: a UUID, as the number that its sixteen bytes make, the
/// first byte being the highest.
#[derive(Clone, Copy, Debug, PartialEq, Eq, Structural)]
pub struct PdataId {
    /// The bits of the UUID.
    pub value: u128,
}

/// The version field of a UUID: the high half of its seventh byte.
pub open spec fn uuid_version(value: u128) -> nat {
    ((value / 0x1000_0000_0000_0000_0000) % 16) as nat
}

/// The first six bytes of a UUID, which hold the milliseconds since the start of 1970 in a UUID
/// of version 7.
pub open spec fn uuid_millis(value: u128) -> nat {
    (value / 0x1_0000_0000_0000_0000_0000) as nat
}

/// A digit of a number that is written with thirty-two digits to the base 16, counted from the
/// left.
pub open spec fn hex_digit(value: nat, index: int) -> nat
    recommends
        0 <= index < 32,
{
    (value / (pow(16, (31 - index) as nat) as nat)) % 16
}

/// A digit to the base 16 as a small letter or a figure.
pub open spec fn hex_char(digit: nat) -> char {
    if digit < 10 {
        ((48 + digit) as u8) as char
    } else {
        ((87 + digit) as u8) as char
    }
}

/// A UUID as text: its digits to the base 16, in groups of eight, four, four, four and twelve
/// with hyphens between them.
pub open spec fn uuid_text(value: u128) -> Seq<char> {
    Seq::new(
        36,
        |i: int|
            if i < 8 {
                hex_char(hex_digit(value as nat, i))
            } else if i == 8 || i == 13 || i == 18 || i == 23 {
                '-'
            } else if i < 13 {
                hex_char(hex_digit(value as nat, i - 1))
            } else if i < 18 {
                hex_char(hex_digit(value as nat, i - 2))
            } else if i < 23 {
                hex_char(hex_digit(value as nat, i - 3))
            } else {
                hex_char(hex_digit(value as nat, i - 4))
            },
    )
}

/// `uuid::Uuid::get_version_num`: the version field.
#[verifier::external_body]
pub(crate) fn version_num(id: PdataId) -> (version: usize)
    ensures
        version == uuid_version(id.value),
{
    Uuid::from_u128(id.value).get_version_num()
}

/// `uuid::Uuid::get_timestamp` and `uuid::Timestamp::to_unix`, for UUIDs of version 7: there is a
/// timestamp, and it is the whole seconds and the remaining nanoseconds of the milliseconds that
/// the UUID starts with.
#[verifier::external_body]
pub(crate) fn unix_timestamp(id: PdataId) -> (timestamp: Option<(u64, u32)>)
    requires
        uuid_version(id.value) == 7,
    ensures
        timestamp is Some,
        (timestamp->0).0 == uuid_millis(id.value) / 1000,
        (timestamp->0).1 == (uuid_millis(id.value) % 1000) * 1_000_000,
{
    Uuid::from_u128(id.value).get_timestamp().map(|timestamp| timestamp.to_unix())
}

/// `uuid::Uuid` as text, by its `Display`: the hyphenated form in small letters.
#[verifier::external_body]
pub(crate) fn id_text(id: PdataId) -> (text: String)
    ensures
        text@ == uuid_text(id.value),
{
    Uuid::from_u128(id.value).to_string()
}

/// `uuid::Uuid::new_v4`: a random UUID of version 4. Which one is left open. It does not return on
/// a system without a source of random numbers.
#[verifier::external_body]
pub(crate) fn random_id() -> (id: PdataId)
    ensures
        uuid_version(id.value) == 4,
{
    PdataId { value: Uuid::new_v4().as_u128() }
}

/// The digits of a number to the base 16, from the left up to one of them, determine the number
/// without the digits after it.
proof fn lemma_leading_digits(left: nat, right: nat, count: nat)
    requires
        count <= 32,
        left < pow(16, 32),
        right < pow(16, 32),
        forall|i: int| 0 <= i < count ==> hex_digit(left, i) == #[trigger] hex_digit(right, i),
    ensures
        left / (pow(16, (32 - count) as nat) as nat) == right / (pow(16, (32 - count) as nat) as nat),
    decreases count,
{
    let base = pow(16, (32 - count) as nat);
    vstd::arithmetic::power::lemma_pow_positive(16, (32 - count) as nat);
    if count == 0 {
        vstd::arithmetic::div_mod::lemma_basic_div(left as int, base);
        vstd::arithmetic::div_mod::lemma_basic_div(right as int, base);
    } else {
        lemma_leading_digits(left, right, (count - 1) as nat);
        let longer = pow(16, (33 - count) as nat);
        assert(longer == base * 16) by {
            reveal(pow);
        }
        vstd::arithmetic::div_mod::lemma_div_denominator(left as int, base, 16);
        vstd::arithmetic::div_mod::lemma_div_denominator(right as int, base, 16);
        assert(hex_digit(left, count - 1) == hex_digit(right, count - 1));
        assert(31 - (count - 1) == 32 - count);
        vstd::arithmetic::div_mod::lemma_fundamental_div_mod(left as int / base, 16);
        vstd::arithmetic::div_mod::lemma_fundamental_div_mod(right as int / base, 16);
    }
}

/// Digits that are written alike are the same.
proof fn lemma_hex_chars(left: nat, right: nat)
    requires
        left < 16,
        right < 16,
        hex_char(left) == hex_char(right),
    ensures
        left == right,
{
}

/// UUIDs that are written alike are the same.
pub proof fn lemma_uuid_text_injective(left: u128, right: u128)
    ensures
        uuid_text(left) == uuid_text(right) ==> left == right,
{
    if uuid_text(left) == uuid_text(right) {
        assert forall|i: int| 0 <= i < 32 implies hex_digit(left as nat, i) == #[trigger] hex_digit(
            right as nat,
            i,
        ) by {
            let at = if i < 8 {
                i
            } else if i < 12 {
                i + 1
            } else if i < 16 {
                i + 2
            } else if i < 20 {
                i + 3
            } else {
                i + 4
            };
            assert(uuid_text(left)[at] == uuid_text(right)[at]);
            vstd::arithmetic::power::lemma_pow_positive(16, (31 - i) as nat);
            lemma_hex_chars(hex_digit(left as nat, i), hex_digit(right as nat, i));
        }
        assert(pow(16, 32) == 0x1_0000_0000_0000_0000_0000_0000_0000_0000int) by {
            reveal_with_fuel(pow, 33);
        }
        lemma_leading_digits(left as nat, right as nat, 32);
        vstd::arithmetic::power::lemma_pow0(16);
        assert(pow(16, (32 - 32) as nat) == 1);
        assert((left as nat) / 1nat == left);
        assert((right as nat) / 1nat == right);
    }
}

} // verus!
