//! Hashes, difficulties and targets in words.

use crate::parse;
use crate::text;
use crate::types::Digest;
use vstd::prelude::*;
use vstd::string::*;

verus! {

/// A hash in hexadecimal digits, or the word for none.
pub open spec fn hash_words(hash: Option<Digest>) -> Seq<char> {
    match hash {
        Some(hash) => text::hex_text(hash.0@),
        None => "none"@,
    }
}

/// A hash in hexadecimal digits, or the word for none.
pub fn format_hash(hash: Option<Digest>) -> (r: String)
    ensures
        r@ == hash_words(hash),
{
    match hash {
        Some(hash) => parse::bytes_to_hex(hash.0.as_slice()),
        None => text::owned("none"),
    }
}

/// The first and the last eight digits of a hash, or the word for none.
pub open spec fn short(hash: Option<Digest>) -> Seq<char> {
    match hash {
        Some(hash) => text::hex_text(hash.0@).take(8) + ".."@ + text::hex_text(hash.0@).skip(120),
        None => "none"@,
    }
}

/// The first and the last eight digits of a hash, or the word for none.
pub fn short_hash(hash: Option<Digest>) -> (r: String)
    ensures
        r@ == short(hash),
{
    let digits = format_hash(hash);
    let s = digits.as_str();
    let len: usize = s.unicode_len();
    proof {
        reveal_strlit("none");
        match hash {
            Some(hash) => {
                text::hex_text_spells_its_bytes(hash.0@);
            },
            None => {},
        }
    }
    if len <= 16 {
        return digits;
    }
    let front = s.substring_char(0, 8);
    let back = s.substring_char(len - 8, len);
    proof {
        assert(front@ =~= s@.take(8));
        assert(back@ =~= s@.skip(120));
    }
    text::join3(front, "..", back)
}

/// A difficulty in words, or its error.
pub fn format_difficulty(difficulty: &Result<u32, String>) -> (r: String)
    ensures
        r@ == (match *difficulty {
            Ok(difficulty) => text::decimal(difficulty as nat),
            Err(error) => "error:"@ + error@,
        }),
{
    match difficulty {
        Ok(difficulty) => text::decimal_text(*difficulty as u64),
        Err(error) => text::join2("error:", error.as_str()),
    }
}

/// The byte whose first `bits` bits are set.
pub open spec fn mask_byte(bits: int) -> u8 {
    if bits == 1 {
        0x80
    } else if bits == 2 {
        0xc0
    } else if bits == 3 {
        0xe0
    } else if bits == 4 {
        0xf0
    } else if bits == 5 {
        0xf8
    } else if bits == 6 {
        0xfc
    } else {
        0xfe
    }
}

fn mask_of(bits: u32) -> (r: u8)
    requires
        1 <= bits <= 7,
    ensures
        r == mask_byte(bits as int),
{
    let shift: u8 = (8 - bits) as u8;
    proof {
        assert(0xffu8 << 7u8 == 0x80u8) by (bit_vector);
        assert(0xffu8 << 6u8 == 0xc0u8) by (bit_vector);
        assert(0xffu8 << 5u8 == 0xe0u8) by (bit_vector);
        assert(0xffu8 << 4u8 == 0xf0u8) by (bit_vector);
        assert(0xffu8 << 3u8 == 0xf8u8) by (bit_vector);
        assert(0xffu8 << 2u8 == 0xfcu8) by (bit_vector);
        assert(0xffu8 << 1u8 == 0xfeu8) by (bit_vector);
    }
    0xffu8 << shift
}

/// What a difficulty asks of a hash: so many leading zero bits.
pub open spec fn target_words(difficulty: u32) -> Seq<char> {
    if difficulty == 0 {
        "disabled_for_test"@
    } else if difficulty % 8 == 0 {
        "hash_prefix_zero_bytes>="@ + text::decimal((difficulty / 8) as nat)
    } else {
        "hash_prefix_zero_bytes>="@ + text::decimal((difficulty / 8) as nat)
            + ",next_byte_mask=0x"@ + text::hex_text(
            seq![mask_byte((difficulty % 8) as int)],
        ) + ",leading_zero_bits>="@ + text::decimal(difficulty as nat)
    }
}

/// What a difficulty asks of a hash.
pub fn pow_target_description(difficulty: u32) -> (r: String)
    ensures
        r@ == target_words(difficulty),
{
    if difficulty == 0 {
        return text::owned("disabled_for_test");
    }
    let zero_bytes: u32 = difficulty / 8;
    let zero_bits: u32 = difficulty % 8;
    let mut out = text::join2(
        "hash_prefix_zero_bytes>=",
        text::decimal_text(zero_bytes as u64).as_str(),
    );
    if zero_bits != 0 {
        let mut mask: Vec<u8> = Vec::new();
        mask.push(mask_of(zero_bits));
        proof {
            assert(mask@ =~= seq![mask_byte((difficulty % 8) as int)]);
        }
        out.append(",next_byte_mask=0x");
        out.append(parse::bytes_to_hex(mask.as_slice()).as_str());
        out.append(",leading_zero_bits>=");
        out.append(text::decimal_text(difficulty as u64).as_str());
    }
    out
}

} // verus!
