//! Integers as bytes.

use crate::text;
use vstd::bytes;
use vstd::prelude::*;

verus! {

/// The eight bytes of a number, the most significant first.
pub open spec fn be64(x: u64) -> Seq<u8> {
    bytes::spec_u64_to_le_bytes(x).reverse()
}

/// The four bytes of a number, the most significant first.
pub open spec fn be32(x: u32) -> Seq<u8> {
    bytes::spec_u32_to_le_bytes(x).reverse()
}

/// Eight bytes determine the number that they stand for.
pub proof fn be64_is_injective(x: u64, y: u64)
    ensures
        be64(x).len() == 8,
        be64(x) == be64(y) <==> x == y,
{
    bytes::lemma_auto_spec_u64_to_from_le_bytes();
    let (a, b) = (bytes::spec_u64_to_le_bytes(x), bytes::spec_u64_to_le_bytes(y));
    if a.reverse() == b.reverse() {
        assert(a.reverse().reverse() =~= a);
        assert(b.reverse().reverse() =~= b);
    }
}

/// Four bytes determine the number that they stand for.
pub proof fn be32_is_injective(x: u32, y: u32)
    ensures
        be32(x).len() == 4,
        be32(x) == be32(y) <==> x == y,
{
    bytes::lemma_auto_spec_u32_to_from_le_bytes();
    let (a, b) = (bytes::spec_u32_to_le_bytes(x), bytes::spec_u32_to_le_bytes(y));
    if a.reverse() == b.reverse() {
        assert(a.reverse().reverse() =~= a);
        assert(b.reverse().reverse() =~= b);
    }
}

/// The bytes of `bytes` from the last to the first.
fn reversed(bytes: &[u8]) -> (r: Vec<u8>)
    ensures
        r@ == bytes@.reverse(),
{
    let mut out: Vec<u8> = Vec::new();
    let mut i: usize = bytes.len();
    while i > 0
        invariant
            i <= bytes@.len(),
            out@.len() == bytes@.len() - i,
            forall|j: int| 0 <= j < out@.len() ==> out@[j] == bytes@[bytes@.len() - 1 - j],
        decreases i,
    {
        i = i - 1;
        out.push(bytes[i]);
    }
    assert(out@ =~= bytes@.reverse());
    out
}

/// The eight bytes of a number, the most significant first.
pub fn u64_to_be_bytes(x: u64) -> (r: Vec<u8>)
    ensures
        r@ == be64(x),
        r@.len() == 8,
{
    let le = bytes::u64_to_le_bytes(x);
    reversed(le.as_slice())
}

/// The four bytes of a number, the most significant first.
pub fn u32_to_be_bytes(x: u32) -> (r: Vec<u8>)
    ensures
        r@ == be32(x),
        r@.len() == 4,
{
    let le = bytes::u32_to_le_bytes(x);
    reversed(le.as_slice())
}

/// The number whose bytes are `s`, the most significant first.
pub fn u64_from_be_bytes(s: &[u8]) -> (x: u64)
    requires
        s@.len() == 8,
    ensures
        be64(x) == s@,
{
    let le = reversed(s);
    proof {
        bytes::lemma_auto_spec_u64_to_from_le_bytes();
        assert(s@.reverse().reverse() =~= s@);
    }
    bytes::u64_from_le_bytes(le.as_slice())
}

/// The number whose bytes are `s`, the most significant first.
pub fn u32_from_be_bytes(s: &[u8]) -> (x: u32)
    requires
        s@.len() == 4,
    ensures
        be32(x) == s@,
{
    let le = reversed(s);
    proof {
        bytes::lemma_auto_spec_u32_to_from_le_bytes();
        assert(s@.reverse().reverse() =~= s@);
    }
    bytes::u32_from_le_bytes(le.as_slice())
}

/// The words for a count of bytes that is not the one wanted.
pub open spec fn length_refusal(given: nat, wanted: nat) -> &'static str {
    if given < wanted {
        "Unexpected length of input"
    } else {
        "Not all bytes read"
    }
}

/// The words for a count of bytes that is not the one wanted.
pub fn length_words(given: usize, wanted: usize) -> (r: &'static str)
    ensures
        r == length_refusal(given as nat, wanted as nat),
{
    if given < wanted {
        "Unexpected length of input"
    } else {
        "Not all bytes read"
    }
}

/// `borsh::to_vec` of a `u64`: its eight bytes, the least significant first. It
/// does not fail.
#[verifier::external_body]
fn borsh_u64_to_vec(x: u64) -> (r: Option<Vec<u8>>)
    ensures
        match r {
            Some(v) => v@ == bytes::spec_u64_to_le_bytes(x),
            None => false,
        },
{
    borsh::to_vec(&x).ok()
}

/// `try_from_slice` of borsh for a `u64`: the number whose eight bytes are
/// given, the least significant first. Fewer bytes are refused in one set of
/// words, more in another.
#[verifier::external_body]
fn borsh_u64_from_slice(s: &[u8]) -> (r: Result<u64, String>)
    ensures
        match r {
            Ok(x) => s@.len() == 8 && x == bytes::spec_u64_from_le_bytes(s@),
            Err(words) => s@.len() != 8 && words@ == length_refusal(s@.len(), 8)@,
        },
{
    <u64 as borsh::BorshDeserialize>::try_from_slice(s).map_err(|error| error.to_string())
}

/// `borsh::to_vec` of a `u8`: the byte itself. It does not fail.
#[verifier::external_body]
fn borsh_u8_to_vec(x: u8) -> (r: Option<Vec<u8>>)
    ensures
        match r {
            Some(v) => v@ == seq![x],
            None => false,
        },
{
    borsh::to_vec(&x).ok()
}

/// `try_from_slice` of borsh for a `u8`: the one byte given. No byte is refused
/// in one set of words, more than one in another.
#[verifier::external_body]
fn borsh_u8_from_slice(s: &[u8]) -> (r: Result<u8, String>)
    ensures
        match r {
            Ok(x) => s@.len() == 1 && x == s@[0],
            Err(words) => s@.len() != 1 && words@ == length_refusal(s@.len(), 1)@,
        },
{
    <u8 as borsh::BorshDeserialize>::try_from_slice(s).map_err(|error| error.to_string())
}

/// The words of a refusal, which are one of two.
fn settled_words(words: &String, Ghost(given): Ghost<nat>, Ghost(wanted): Ghost<nat>) -> (r:
    &'static str)
    requires
        words@ == length_refusal(given, wanted)@,
    ensures
        r == length_refusal(given, wanted),
{
    proof {
        reveal_strlit("Unexpected length of input");
        reveal_strlit("Not all bytes read");
        assert("Unexpected length of input"@.len() != "Not all bytes read"@.len());
    }
    if text::same_text(words.as_str(), "Unexpected length of input") {
        "Unexpected length of input"
    } else {
        "Not all bytes read"
    }
}

/// A stored number, as it lies in the database.
pub fn encode_u64(x: u64) -> (r: Vec<u8>)
    ensures
        r@ == bytes::spec_u64_to_le_bytes(x),
{
    match borsh_u64_to_vec(x) {
        Some(v) => v,
        None => Vec::new(),
    }
}

/// A number out of the database.
pub fn decode_u64(s: &[u8]) -> (r: Result<u64, &'static str>)
    ensures
        match r {
            Ok(x) => s@ == bytes::spec_u64_to_le_bytes(x),
            Err(words) => s@.len() != 8 && words == length_refusal(s@.len(), 8),
        },
        forall|x: u64|
            s@ == #[trigger] bytes::spec_u64_to_le_bytes(x) ==> r == Ok::<u64, &'static str>(x),
{
    proof {
        bytes::lemma_auto_spec_u64_to_from_le_bytes();
    }
    match borsh_u64_from_slice(s) {
        Ok(x) => Ok(x),
        Err(words) => Err(settled_words(&words, Ghost(s@.len()), Ghost(8))),
    }
}

/// A stored byte, as it lies in the database.
pub fn encode_u8(x: u8) -> (r: Vec<u8>)
    ensures
        r@ == seq![x],
{
    match borsh_u8_to_vec(x) {
        Some(v) => v,
        None => Vec::new(),
    }
}

/// A byte out of the database.
pub fn decode_u8(s: &[u8]) -> (r: Result<u8, &'static str>)
    ensures
        match r {
            Ok(x) => s@ == seq![x],
            Err(words) => s@.len() != 1 && words == length_refusal(s@.len(), 1),
        },
{
    match borsh_u8_from_slice(s) {
        Ok(x) => {
            assert(s@ =~= seq![x]);
            Ok(x)
        },
        Err(words) => Err(settled_words(&words, Ghost(s@.len()), Ghost(1))),
    }
}

} // verus!
