//! What the explorer shows of a node's answer.

use crate::text;
use vstd::prelude::*;

verus! {

/// What `serde_json` makes of a text and a key: the words that refuse the text
/// as JSON, or nothing where the value has no member under the key, or the member
/// laid out for reading, or the words that refuse to lay it out.
pub uninterp spec fn member_shown(body: Seq<char>, key: Seq<char>) -> Result<Option<Result<Seq<char>, Seq<char>>>, Seq<char>>;

/// `serde_json::from_str` of a text into a `serde_json::Value`, `Value::get` of a
/// key in it, and `serde_json::to_string_pretty` of what stands there. Nothing is
/// claimed of the result but that it depends on the text and the key alone.
#[verifier::external_body]
fn json_member(body: &str, key: &str) -> (r: Result<Option<Result<String, String>>, String>)
    ensures
        member_shown(body@, key@) == shown_as(r),
{
    match serde_json::from_str::<serde_json::Value>(body) {
        Err(error) => Err(error.to_string()),
        Ok(value) => match value.get(key) {
            None => Ok(None),
            Some(member) => Ok(
                Some(serde_json::to_string_pretty(member).map_err(|error| error.to_string())),
            ),
        },
    }
}

/// The same as texts.
pub open spec fn shown_as(r: Result<Option<Result<String, String>>, String>) -> Result<
    Option<Result<Seq<char>, Seq<char>>>,
    Seq<char>,
> {
    match r {
        Err(words) => Err(words@),
        Ok(None) => Ok(None),
        Ok(Some(Ok(laid_out))) => Ok(Some(Ok(laid_out@))),
        Ok(Some(Err(words))) => Ok(Some(Err(words@))),
    }
}

/// What is shown of the transactions in an answer: an empty list where it names
/// none.
pub open spec fn listing(found: Result<Option<Result<Seq<char>, Seq<char>>>, Seq<char>>) -> Result<
    Seq<char>,
    Seq<char>,
> {
    match found {
        Err(error) => Err("failed to parse explorer response: "@ + error),
        Ok(None) => Ok("[]"@),
        Ok(Some(Ok(laid_out))) => Ok(laid_out),
        Ok(Some(Err(error))) => Err("failed to render transactions: "@ + error),
    }
}

/// What is shown of the transactions that were found in an answer.
pub fn listing_of(found: Result<Option<Result<String, String>>, String>) -> (r: Result<
    String,
    String,
>)
    ensures
        match listing(shown_as(found)) {
            Ok(shown) => r matches Ok(s) && s@ == shown,
            Err(error) => r matches Err(words) && words@ == error,
        },
{
    match found {
        Err(error) => Err(text::join2("failed to parse explorer response: ", error.as_str())),
        Ok(None) => Ok(text::owned("[]")),
        Ok(Some(Ok(laid_out))) => Ok(laid_out),
        Ok(Some(Err(error))) => Err(
            text::join2("failed to render transactions: ", error.as_str()),
        ),
    }
}

/// What is shown of a node's answer on the transactions of an address.
pub fn explorer_listing(body: &str) -> (r: Result<String, String>)
    ensures
        match listing(member_shown(body@, "transactions"@)) {
            Ok(shown) => r matches Ok(s) && s@ == shown,
            Err(error) => r matches Err(words) && words@ == error,
        },
{
    listing_of(json_member(body, "transactions"))
}

} // verus!
