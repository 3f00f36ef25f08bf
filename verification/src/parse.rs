//! Values that are given as text.

use crate::text;
use crate::types::{self, Address, Amount, Digest, Nonce};
use vstd::prelude::*;

verus! {

/// The bytes that a text spells, if they are as many as they have to be.
pub open spec fn spelled(
    s: Seq<char>,
    count: int,
    not_hex: Seq<char>,
    wrong_length: Seq<char>,
) -> Result<Seq<u8>, Seq<char>> {
    match text::hex_bytes(s) {
        None => Err(not_hex),
        Some(bytes) => if bytes.len() == count {
            Ok(bytes)
        } else {
            Err(wrong_length)
        },
    }
}

/// The bytes of the address that a text spells.
pub open spec fn address_in(s: Seq<char>) -> Result<Seq<u8>, Seq<char>> {
    spelled(s, 20, "invalid address hex"@, "address has invalid length"@)
}

/// The bytes of the hash that a text spells.
pub open spec fn hash_in(s: Seq<char>) -> Result<Seq<u8>, Seq<char>> {
    spelled(s, 64, "invalid hash hex"@, "hash has invalid length"@)
}

/// The bytes of the secret key that a text spells.
pub open spec fn secret_key_in(s: Seq<char>, size: int) -> Result<Seq<u8>, Seq<char>> {
    spelled(s, size, "invalid secret key hex"@, "secret key has invalid length"@)
}

/// Some text may be there.
pub open spec fn text_of(value: Option<&String>) -> Option<Seq<char>> {
    match value {
        Some(value) => Some(value@),
        None => None,
    }
}

/// The address that a text spells.
pub fn parse_address_hex(value: &str) -> (r: Result<Address, String>)
    ensures
        match r {
            Ok(address) => address_in(value@) == Ok::<Seq<u8>, Seq<char>>(address.0@),
            Err(error) => address_in(value@) == Err::<Seq<u8>, Seq<char>>(error@),
        },
{
    match text::hex_decode(value) {
        None => Err(text::owned("invalid address hex")),
        Some(bytes) => match types::address_from_slice(bytes.as_slice()) {
            Some(address) => Ok(address),
            None => Err(text::owned("address has invalid length")),
        },
    }
}

/// The address that a text spells, if there is one.
pub open spec fn address_given(value: Option<Seq<char>>) -> Result<Seq<u8>, Seq<char>> {
    match value {
        None => Err("missing address hex"@),
        Some(value) => address_in(value),
    }
}

/// The address that a text spells, if there is one.
pub fn parse_address(value: Option<&String>) -> (r: Result<Address, String>)
    ensures
        match r {
            Ok(address) => address_given(text_of(value)) == Ok::<Seq<u8>, Seq<char>>(address.0@),
            Err(error) => address_given(text_of(value)) == Err::<Seq<u8>, Seq<char>>(error@),
        },
{
    match value {
        None => Err(text::owned("missing address hex")),
        Some(value) => parse_address_hex(value.as_str()),
    }
}

/// The hash that a text spells.
pub fn parse_hash_hex(value: &str) -> (r: Result<Digest, String>)
    ensures
        match r {
            Ok(hash) => hash_in(value@) == Ok::<Seq<u8>, Seq<char>>(hash.0@),
            Err(error) => hash_in(value@) == Err::<Seq<u8>, Seq<char>>(error@),
        },
{
    match text::hex_decode(value) {
        None => Err(text::owned("invalid hash hex")),
        Some(bytes) => match types::hash_from_slice(bytes.as_slice()) {
            Some(hash) => Ok(hash),
            None => Err(text::owned("hash has invalid length")),
        },
    }
}

/// The secret key that a text spells, if there is one.
pub open spec fn secret_key_given(value: Option<Seq<char>>, size: int) -> Result<
    Seq<u8>,
    Seq<char>,
> {
    match value {
        None => Err("missing secret key hex"@),
        Some(value) => secret_key_in(value, size),
    }
}

/// The secret key that a text spells, if there is one. A key has `size` bytes.
pub fn parse_secret_key(value: Option<&String>, size: usize) -> (r: Result<Vec<u8>, String>)
    ensures
        match r {
            Ok(key) => secret_key_given(text_of(value), size as int) == Ok::<Seq<u8>, Seq<char>>(
                key@,
            ),
            Err(error) => secret_key_given(text_of(value), size as int) == Err::<
                Seq<u8>,
                Seq<char>,
            >(error@),
        },
{
    match value {
        None => Err(text::owned("missing secret key hex")),
        Some(value) => match text::hex_decode(value.as_str()) {
            None => Err(text::owned("invalid secret key hex")),
            Some(bytes) => {
                if bytes.len() == size {
                    Ok(bytes)
                } else {
                    Err(text::owned("secret key has invalid length"))
                }
            },
        },
    }
}

/// The number that a text spells, if it is at most `max`; `refusal` are the words
/// for a text that spells none.
pub open spec fn number_in(s: Seq<char>, max: int, refusal: Seq<char>) -> Result<nat, Seq<char>> {
    match text::number_value(s) {
        Some(n) => if n <= max {
            Ok(n)
        } else {
            Err(refusal)
        },
        None => Err(refusal),
    }
}

/// The amount that a text gives for a flag.
pub open spec fn amount_given(value: Option<Seq<char>>, flag: Seq<char>) -> Result<
    nat,
    Seq<char>,
> {
    match value {
        None => Err("missing value for "@ + flag),
        Some(value) => number_in(
            value,
            u32::MAX as int,
            "invalid amount for "@ + flag + ": "@ + text::u32_refusal(value),
        ),
    }
}

/// The amount that a text gives for a flag.
pub fn parse_amount(value: Option<&String>, flag: &str) -> (r: Result<Amount, String>)
    ensures
        match r {
            Ok(amount) => amount_given(text_of(value), flag@) == Ok::<nat, Seq<char>>(
                amount.0 as nat,
            ),
            Err(error) => amount_given(text_of(value), flag@) == Err::<nat, Seq<char>>(error@),
        },
{
    match value {
        None => Err(text::join2("missing value for ", flag)),
        Some(value) => match text::parse_u32(value.as_str()) {
            Ok(amount) => Ok(Amount(amount)),
            Err(error) => Err(text::join4("invalid amount for ", flag, ": ", error.as_str())),
        },
    }
}

/// The nonce that a text gives.
pub open spec fn nonce_given(value: Option<Seq<char>>) -> Result<nat, Seq<char>> {
    match value {
        None => Err("missing value for --nonce"@),
        Some(value) => number_in(
            value,
            u64::MAX as int,
            "invalid nonce: "@ + text::u64_refusal(value),
        ),
    }
}

/// The nonce that a text gives.
pub fn parse_nonce(value: Option<&String>) -> (r: Result<Nonce, String>)
    ensures
        match r {
            Ok(nonce) => nonce_given(text_of(value)) == Ok::<nat, Seq<char>>(nonce.0 as nat),
            Err(error) => nonce_given(text_of(value)) == Err::<nat, Seq<char>>(error@),
        },
{
    match value {
        None => Err(text::owned("missing value for --nonce")),
        Some(value) => match text::parse_u64(value.as_str()) {
            Ok(nonce) => Ok(Nonce(nonce)),
            Err(error) => Err(text::join2("invalid nonce: ", error.as_str())),
        },
    }
}

/// The bytes of a signed transaction in hexadecimal digits.
pub fn transaction_bytes_from_hex(value: &str) -> (r: Result<Vec<u8>, String>)
    ensures
        match r {
            Ok(bytes) => text::hex_bytes(value@) == Some(bytes@),
            Err(error) => text::hex_bytes(value@) is None && error@ == "invalid transaction hex"@,
        },
{
    match text::hex_decode(value) {
        Some(bytes) => Ok(bytes),
        None => Err(text::owned("invalid transaction hex")),
    }
}

/// Bytes in hexadecimal digits.
pub fn bytes_to_hex(bytes: &[u8]) -> (r: String)
    ensures
        r@ == text::hex_text(bytes@),
{
    text::hex_encode(bytes)
}

/// An address in hexadecimal digits.
pub fn address_to_string(address: &Address) -> (r: String)
    ensures
        r@ == text::hex_text(address.0@),
{
    text::hex_encode(address.0.as_slice())
}

/// The digits of an address are parsed back to it.
pub proof fn address_text_is_parsed(address: Address)
    ensures
        address_in(text::hex_text(address.0@)) == Ok::<Seq<u8>, Seq<char>>(address.0@),
        text::hex_text(address.0@).len() == 40,
{
    text::hex_text_spells_its_bytes(address.0@);
}

/// The digits of a hash are parsed back to it.
pub proof fn hash_text_is_parsed(hash: Digest)
    ensures
        hash_in(text::hex_text(hash.0@)) == Ok::<Seq<u8>, Seq<char>>(hash.0@),
        text::hex_text(hash.0@).len() == 128,
{
    text::hex_text_spells_its_bytes(hash.0@);
}

} // verus!
