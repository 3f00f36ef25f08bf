//! What holds of requests to a node and of their answers.

use crate::display;
use crate::http;
use crate::text;
use crate::text_laws;
use crate::types::Digest;
use vstd::prelude::*;
use vstd::utf8;

verus! {

proof fn there_is_one_end(s: Seq<u8>, i: int, j: int)
    requires
        http::headers_end(s, i),
        http::headers_end(s, j),
    ensures
        i == j,
{
    if i < j {
        assert(http::mark_at(s, i));
    } else if j < i {
        assert(http::mark_at(s, j));
    }
}

/// An answer is whole exactly when so many bytes have come behind the first blank
/// line as its headers say.
pub proof fn an_answer_is_whole_when_its_body_is(head: Seq<u8>, body: Seq<u8>, n: nat)
    requires
        ({
            let whole = head + seq![13u8, 10u8, 13u8, 10u8] + body;
            &&& forall|j: int| 0 <= j < head.len() ==> !#[trigger] http::mark_at(whole, j)
            &&& utf8::valid_utf8(head)
            &&& http::stated_length(head) == Some(n)
        }),
    ensures
        ({
            let whole = head + seq![13u8, 10u8, 13u8, 10u8] + body;
            &&& http::completeness(whole, Ok(true)) <==> body.len() >= n
            &&& http::completeness(whole, Ok(false)) <==> body.len() < n
        }),
{
    let whole = head + seq![13u8, 10u8, 13u8, 10u8] + body;
    let end = head.len() as int;
    assert(http::mark_at(whole, end));
    assert(http::headers_end(whole, end));
    assert(whole.take(end) =~= head);
    assert forall|i: int| #[trigger] http::headers_end(whole, i) implies i == end by {
        there_is_one_end(whole, i, end);
    }
}

/// As long as no blank line has come an answer is not whole.
pub proof fn without_a_blank_line_more_is_to_come(s: Seq<u8>)
    requires
        forall|j: int| !#[trigger] http::mark_at(s, j),
    ensures
        http::completeness(s, Ok(false)),
        !http::completeness(s, Ok(true)),
{
    if exists|i: int| http::headers_end(s, i) {
        let i = choose|i: int| http::headers_end(s, i);
        assert(http::mark_at(s, i));
    }
}

/// The body is what stands behind the first blank line.
pub proof fn the_body_stands_behind_the_headers(
    head: Seq<char>,
    rest: Seq<char>,
    body: Seq<char>,
)
    requires
        ({
            let whole = head + seq!['\r', '\n', '\r', '\n'] + rest;
            &&& forall|j: int| 0 <= j < head.len() ==> !#[trigger] http::text_mark_at(whole, j)
            &&& http::is_body(whole, body)
        }),
    ensures
        body == rest,
{
    let whole = head + seq!['\r', '\n', '\r', '\n'] + rest;
    let end = head.len() as int;
    assert(http::text_mark_at(whole, end));
    assert(whole.skip(end + 4) =~= rest);
    let i = choose|i: int| #[trigger]
        http::text_mark_at(whole, i) && body == whole.skip(i + 4) && forall|j: int|
            0 <= j < i ==> !#[trigger] http::text_mark_at(whole, j);
    assert(http::text_mark_at(whole, i));
    if i > end {
        assert(!http::text_mark_at(whole, end));
    }
}

/// A header states a length with the number behind its colon, if it has the right
/// name, in large or small letters; and no other header does.
pub proof fn a_length_stands_behind_its_name(name: Seq<char>, value: Seq<char>)
    requires
        !name.contains(':'),
    ensures
        ({
            let line = name + seq![':'] + value;
            &&& !text::same_letters(name, "content-length"@) ==> http::length_in(line) is None
            &&& text::same_letters(name, "content-length"@) ==> match text::number_value(
                text::trimmed(value),
            ) {
                Some(n) => if n <= usize::MAX {
                    http::length_in(line) == Some(n)
                } else {
                    http::length_in(line) is None
                },
                None => http::length_in(line) is None,
            }
        }),
{
    let line = name + seq![':'] + value;
    text_laws::the_first_place_has_the_letter(line, ':');
    let k = text::first_of(line, ':');
    let end = name.len() as int;
    assert(line[end] == ':');
    if k < end {
        assert(line[k] == name[k]);
        assert(name.contains(name[k]));
    }
    assert(k == end);
    assert(line.take(k) =~= name);
    assert(line.skip(k + 1) =~= value);
}

/// The first header that states a length is the one that holds.
pub proof fn the_first_length_holds(lines: Seq<Seq<char>>)
    ensures
        match http::first_length(lines) {
            Some(n) => exists|k: int|
                0 <= k < lines.len() && http::length_in(#[trigger] lines[k]) == Some(n) && forall|
                    i: int,
                |
                    0 <= i < k ==> http::length_in(#[trigger] lines[i]) is None,
            None => forall|i: int|
                0 <= i < lines.len() ==> http::length_in(#[trigger] lines[i]) is None,
        },
    decreases lines.len(),
{
    if lines.len() > 0 {
        if http::length_in(lines[0]) is None {
            let rest = lines.skip(1);
            the_first_length_holds(rest);
            match http::first_length(lines) {
                Some(n) => {
                    let k = choose|k: int|
                        0 <= k < rest.len() && http::length_in(#[trigger] rest[k]) == Some(n)
                            && forall|i: int|
                            0 <= i < k ==> http::length_in(#[trigger] rest[i]) is None;
                    assert(lines[k + 1] == rest[k]);
                    assert forall|i: int| 0 <= i < k + 1 implies http::length_in(
                        #[trigger] lines[i],
                    ) is None by {
                        if i > 0 {
                            assert(lines[i] == rest[i - 1]);
                        }
                    }
                },
                None => {
                    assert forall|i: int| 0 <= i < lines.len() implies http::length_in(
                        #[trigger] lines[i],
                    ) is None by {
                        if i > 0 {
                            assert(lines[i] == rest[i - 1]);
                        }
                    }
                },
            }
        } else {
            assert(http::length_in(lines[0]) == http::first_length(lines));
        }
    }
}

/// A request ends with its body, behind a blank line and a header that states how
/// many bytes it has.
pub proof fn a_request_carries_its_body(host: Seq<char>, path: Seq<char>, body: Seq<char>)
    ensures
        ({
            let whole = http::post_text(host, path, body);
            &&& body.len() <= whole.len()
            &&& whole.skip(whole.len() - body.len()) == body
            &&& whole.take(whole.len() - body.len()) == "POST "@ + path
                + " HTTP/1.1\r\nhost: "@ + host
                + "\r\ncontent-type: application/json\r\ncontent-length: "@ + text::decimal(
                utf8::encode_utf8(body).len(),
            ) + "\r\nconnection: close\r\n\r\n"@
        }),
{
    let whole = http::post_text(host, path, body);
    let head = "POST "@ + path + " HTTP/1.1\r\nhost: "@ + host
        + "\r\ncontent-type: application/json\r\ncontent-length: "@ + text::decimal(
        utf8::encode_utf8(body).len(),
    ) + "\r\nconnection: close\r\n\r\n"@;
    assert(whole =~= head + body);
    assert(whole.skip(whole.len() - body.len()) =~= body);
    assert(whole.take(whole.len() - body.len()) =~= head);
}

/// A hash in short shows its first and its last eight digits.
pub proof fn a_short_hash_shows_both_ends(hash: Digest)
    ensures
        ({
            let digits = text::hex_text(hash.0@);
            let shown = display::short(Some(hash));
            &&& digits.len() == 128
            &&& shown.len() == 18
            &&& shown.take(8) == digits.take(8)
            &&& shown.skip(10) == digits.skip(120)
            &&& shown[8] == '.' && shown[9] == '.'
            &&& display::hash_words(Some(hash)) == digits
        }),
{
    let digits = text::hex_text(hash.0@);
    let shown = display::short(Some(hash));
    text::hex_text_spells_its_bytes(hash.0@);
    reveal_strlit("..");
    assert(shown.take(8) =~= digits.take(8));
    assert(shown.skip(10) =~= digits.skip(120));
}

} // verus!
