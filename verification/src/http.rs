//! The requests that a wallet makes of a node, and how the answers are read.

use crate::text;
use vstd::prelude::*;
use vstd::string::*;
use vstd::utf8;

verus! {

/// The text of a request to read `path`.
pub fn get_request(host: &str, path: &str) -> (r: String)
    ensures
        r@ == "GET "@ + path@ + " HTTP/1.1\r\nhost: "@ + host@ + "\r\nconnection: close\r\n\r\n"@,
{
    let mut out = text::join4("GET ", path, " HTTP/1.1\r\nhost: ", host);
    out.append("\r\nconnection: close\r\n\r\n");
    out
}

/// The text of a request to post a JSON body to `path`.
pub open spec fn post_text(host: Seq<char>, path: Seq<char>, body: Seq<char>) -> Seq<char> {
    "POST "@ + path + " HTTP/1.1\r\nhost: "@ + host
        + "\r\ncontent-type: application/json\r\ncontent-length: "@ + text::decimal(
        utf8::encode_utf8(body).len(),
    ) + "\r\nconnection: close\r\n\r\n"@ + body
}

/// The text of a request to post a JSON body to `path`.
pub fn post_request(host: &str, path: &str, body: &str) -> (r: String)
    ensures
        r@ == post_text(host@, path@, body@),
{
    let mut out = text::join4("POST ", path, " HTTP/1.1\r\nhost: ", host);
    out.append("\r\ncontent-type: application/json\r\ncontent-length: ");
    let length: usize = body.as_bytes().len();
    out.append(text::decimal_text(length as u64).as_str());
    out.append("\r\nconnection: close\r\n\r\n");
    out.append(body);
    out
}

/// At `i` stands the mark between the headers and the body.
pub open spec fn mark_at(s: Seq<u8>, i: int) -> bool {
    &&& 0 <= i
    &&& i + 4 <= s.len()
    &&& s[i] == 13
    &&& s[i + 1] == 10
    &&& s[i + 2] == 13
    &&& s[i + 3] == 10
}

/// The headers end at `i`: there stands the first mark.
pub open spec fn headers_end(s: Seq<u8>, i: int) -> bool {
    &&& mark_at(s, i)
    &&& forall|j: int| 0 <= j < i ==> !#[trigger] mark_at(s, j)
}

/// Where the headers end, if the mark is there.
pub fn find_headers_end(s: &[u8]) -> (r: Option<usize>)
    ensures
        match r {
            Some(i) => headers_end(s@, i as int),
            None => forall|i: int| !#[trigger] mark_at(s@, i),
        },
{
    if s.len() < 4 {
        return None;
    }
    let mut i: usize = 0;
    while i <= s.len() - 4
        invariant
            4 <= s@.len(),
            i <= s@.len() - 3,
            forall|j: int| 0 <= j < i ==> !#[trigger] mark_at(s@, j),
        decreases s@.len() - i,
    {
        if s[i] == 13 && s[i + 1] == 10 && s[i + 2] == 13 && s[i + 3] == 10 {
            return Some(i);
        }
        i = i + 1;
    }
    None
}

/// The length that a header line gives for the body.
pub open spec fn length_in(line: Seq<char>) -> Option<nat> {
    let colon = text::first_of(line, ':');
    if colon >= line.len() {
        None
    } else if text::same_letters(line.take(colon), "content-length"@) {
        match text::number_value(text::trimmed(line.skip(colon + 1))) {
            Some(n) => if n <= usize::MAX {
                Some(n)
            } else {
                None
            },
            None => None,
        }
    } else {
        None
    }
}

/// The length that a header line gives for the body.
pub fn content_length(line: &str) -> (r: Option<usize>)
    ensures
        match r {
            Some(n) => length_in(line@) == Some(n as nat),
            None => length_in(line@) is None,
        },
{
    let len: usize = line.unicode_len();
    let colon: usize = text::find_char(line, ':');
    if colon == len {
        return None;
    }
    let name = line.substring_char(0, colon);
    let value = line.substring_char(colon + 1, len);
    proof {
        assert(name@ =~= line@.take(colon as int));
        assert(value@ =~= line@.skip(colon + 1));
    }
    if text::same_ignoring_case(name, "content-length") {
        match text::parse_usize(text::trim(value)) {
            Ok(n) => Some(n),
            Err(_) => None,
        }
    } else {
        None
    }
}

/// The first length that header lines give.
pub open spec fn first_length(lines: Seq<Seq<char>>) -> Option<nat>
    decreases lines.len(),
{
    if lines.len() == 0 {
        None
    } else {
        match length_in(lines[0]) {
            Some(n) => Some(n),
            None => first_length(lines.skip(1)),
        }
    }
}

fn first_content_length(lines: &Vec<&str>) -> (r: Option<usize>)
    ensures
        match r {
            Some(n) => first_length(text::slices(lines@)) == Some(n as nat),
            None => first_length(text::slices(lines@)) is None,
        },
{
    let mut i: usize = 0;
    let ghost all = text::slices(lines@);
    proof {
        assert(all.skip(0) =~= all);
    }
    while i < lines.len()
        invariant
            all == text::slices(lines@),
            i <= lines@.len(),
            first_length(all.skip(i as int)) == first_length(all),
        decreases lines@.len() - i,
    {
        proof {
            assert(all.skip(i as int)[0] == lines@[i as int]@);
            assert(all.skip(i as int).skip(1) =~= all.skip(i + 1));
        }
        match content_length(lines[i]) {
            Some(n) => {
                return Some(n);
            },
            None => {},
        }
        i = i + 1;
    }
    None
}

/// The length that the headers give for the body.
pub open spec fn stated_length(headers: Seq<u8>) -> Option<nat> {
    first_length(text::lines_of(utf8::decode_utf8(headers)))
}

/// Whether a response is complete, its headers ending at `end`.
pub open spec fn complete_from(response: Seq<u8>, end: int) -> Result<bool, Seq<char>> {
    if !utf8::valid_utf8(response.take(end)) {
        Err(
            "failed to decode rpc response headers: "@ + text::utf8_refusal(response.take(end)),
        )
    } else {
        match stated_length(response.take(end)) {
            Some(n) => Ok(response.len() >= end + 4 + n),
            None => Ok(false),
        }
    }
}

/// Whether a response is complete: its headers have ended, they give the length
/// of the body, and that much has come.
pub fn response_body_complete(response: &[u8]) -> (r: Result<bool, String>)
    ensures
        (forall|i: int| !#[trigger] mark_at(response@, i)) ==> r == Ok::<bool, String>(false),
        forall|i: int| #[trigger]
            headers_end(response@, i) ==> match complete_from(response@, i) {
                Ok(complete) => r == Ok::<bool, String>(complete),
                Err(error) => r matches Err(words) && words@ == error,
            },
{
    let end: usize = match find_headers_end(response) {
        Some(end) => end,
        None => {
            proof {
                assert(forall|i: int| #[trigger] headers_end(response@, i) ==> mark_at(response@, i));
            }
            return Ok(false);
        },
    };
    proof {
        assert(mark_at(response@, end as int));
        assert forall|i: int| #[trigger] headers_end(response@, i) implies i == end by {
            assert(mark_at(response@, i));
        }
    }
    let headers = copy_front(response, end);
    match text::text_from_utf8(headers) {
        Err(error) => Err(
            text::join2("failed to decode rpc response headers: ", error.as_str()),
        ),
        Ok(headers) => {
            let lines = text::lines(headers.as_str());
            match first_content_length(&lines) {
                Some(n) => Ok(response.len() - (end + 4) >= n),
                None => Ok(false),
            }
        },
    }
}

fn copy_front(s: &[u8], n: usize) -> (r: Vec<u8>)
    requires
        n <= s@.len(),
    ensures
        r@ == s@.take(n as int),
{
    let mut out: Vec<u8> = Vec::new();
    let mut i: usize = 0;
    while i < n
        invariant
            i <= n <= s@.len(),
            out@ == s@.take(i as int),
        decreases n - i,
    {
        out.push(s[i]);
        i = i + 1;
        assert(out@ =~= s@.take(i as int));
    }
    out
}

/// At `i` stands the mark between the headers and the body.
pub open spec fn text_mark_at(s: Seq<char>, i: int) -> bool {
    &&& 0 <= i
    &&& i + 4 <= s.len()
    &&& s[i] == '\r'
    &&& s[i + 1] == '\n'
    &&& s[i + 2] == '\r'
    &&& s[i + 3] == '\n'
}

/// The body of a response: what stands behind the first mark, or all of it.
pub open spec fn is_body(s: Seq<char>, body: Seq<char>) -> bool {
    ||| exists|i: int| #[trigger]
        text_mark_at(s, i) && body == s.skip(i + 4) && forall|j: int|
            0 <= j < i ==> !#[trigger] text_mark_at(s, j)
    ||| body == s && forall|j: int| !#[trigger] text_mark_at(s, j)
}

fn body_of(response: String) -> (r: String)
    ensures
        is_body(response@, r@),
{
    let s = response.as_str();
    let len: usize = s.unicode_len();
    if len >= 4 {
        let mut i: usize = 0;
        while i <= len - 4
            invariant
                4 <= len,
                len == s@.len(),
                s@ == response@,
                i <= len - 3,
                forall|j: int| 0 <= j < i ==> !#[trigger] text_mark_at(s@, j),
            decreases len - i,
        {
            if s.get_char(i) == '\r' && s.get_char(i + 1) == '\n' && s.get_char(i + 2) == '\r'
                && s.get_char(i + 3) == '\n' {
                let body = text::owned(s.substring_char(i + 4, len));
                proof {
                    assert(text_mark_at(s@, i as int));
                    assert(body@ =~= s@.skip(i + 4));
                }
                return body;
            }
            i = i + 1;
        }
    }
    response
}

/// The body of a whole response.
pub fn response_body(response: Vec<u8>) -> (r: Result<String, String>)
    ensures
        match r {
            Ok(body) => utf8::valid_utf8(response@) && is_body(
                utf8::decode_utf8(response@),
                body@,
            ),
            Err(error) => !utf8::valid_utf8(response@) && error@
                == "failed to decode rpc response: "@ + text::utf8_refusal(response@),
        },
{
    match text::text_from_utf8(response) {
        Ok(response) => Ok(body_of(response)),
        Err(error) => Err(text::join2("failed to decode rpc response: ", error.as_str())),
    }
}

/// What reading from a node brings: the end, some bytes, nothing in time, or an
/// error.
#[derive(Debug, PartialEq, Eq)]
pub enum ReadEvent {
    Closed,
    Received(Vec<u8>),
    TimedOut,
    Failed(String),
}

/// The body of a response or the error that it ends with.
pub open spec fn ends_with(response: Seq<u8>, r: Result<Option<String>, String>) -> bool {
    match r {
        Ok(Some(body)) => utf8::valid_utf8(response) && is_body(
            utf8::decode_utf8(response),
            body@,
        ),
        Ok(None) => false,
        Err(error) => !utf8::valid_utf8(response) && error@
            == "failed to decode rpc response: "@ + text::utf8_refusal(response),
    }
}

/// A response is complete, not yet complete, or cannot be told.
pub open spec fn completeness(response: Seq<u8>, verdict: Result<bool, Seq<char>>) -> bool {
    if exists|i: int| headers_end(response, i) {
        forall|i: int| #[trigger]
            headers_end(response, i) ==> verdict == complete_from(response, i)
    } else {
        verdict == Ok::<bool, Seq<char>>(false)
    }
}

/// What a read makes of the bytes so far: with `Ok(None)` the reading goes on.
pub open spec fn read_outcome(
    response: Seq<u8>,
    event: ReadEvent,
    after: Seq<u8>,
    r: Result<Option<String>, String>,
) -> bool {
    match event {
        ReadEvent::Closed => ends_with(response, r),
        ReadEvent::Received(bytes) => {
            let whole = response + bytes@;
            if completeness(whole, Ok(true)) {
                ends_with(whole, r)
            } else if completeness(whole, Ok(false)) {
                r == Ok::<Option<String>, String>(None) && after == whole
            } else {
                r matches Err(error) && completeness(whole, Err(error@))
            }
        },
        ReadEvent::TimedOut => if completeness(response, Ok(true)) {
            ends_with(response, r)
        } else if completeness(response, Ok(false)) {
            r matches Err(error) && error@
                == "failed to read rpc response: timed out waiting for node response"@
        } else {
            r matches Err(error) && completeness(response, Err(error@))
        },
        ReadEvent::Failed(words) => r matches Err(error) && error@
            == "failed to read rpc response: "@ + words@,
    }
}

/// A response that is being read.
#[derive(Debug)]
pub struct ResponseReader {
    pub response: Vec<u8>,
}

impl ResponseReader {
    /// A response of which nothing has come.
    pub fn new() -> (r: Self)
        ensures
            r.response@ == Seq::<u8>::empty(),
    {
        ResponseReader { response: Vec::new() }
    }

    fn complete(&self) -> (r: Result<bool, String>)
        ensures
            match r {
                Ok(complete) => completeness(self.response@, Ok(complete)),
                Err(error) => completeness(self.response@, Err(error@)),
            },
            forall|a: bool, b: bool|
                completeness(self.response@, Ok(a)) && completeness(self.response@, Ok(b)) ==> a
                    == b,
            forall|a: bool, w: Seq<char>|
                !(completeness(self.response@, Ok(a)) && completeness(self.response@, Err(w))),
    {
        let outcome = response_body_complete(self.response.as_slice());
        proof {
            let s = self.response@;
            if exists|i: int| headers_end(s, i) {
                let end = choose|i: int| headers_end(s, i);
                assert forall|i: int| #[trigger] headers_end(s, i) implies i == end by {
                    assert(mark_at(s, i));
                    assert(mark_at(s, end));
                }
            } else {
                if exists|i: int| #[trigger] mark_at(s, i) {
                    let i = choose|i: int| #[trigger] mark_at(s, i);
                    first_mark(s, i);
                }
            }
        }
        outcome
    }

    fn finish(&mut self) -> (r: Result<Option<String>, String>)
        ensures
            ends_with(old(self).response@, r),
    {
        let mut response: Vec<u8> = Vec::new();
        std::mem::swap(&mut response, &mut self.response);
        match response_body(response) {
            Ok(body) => Ok(Some(body)),
            Err(error) => Err(error),
        }
    }

    /// Takes what a read brought. With `Ok(None)` the reading goes on; else the
    /// response is done, and this is its body.
    pub fn step(&mut self, event: ReadEvent) -> (r: Result<Option<String>, String>)
        ensures
            read_outcome(old(self).response@, event, final(self).response@, r),
    {
        match event {
            ReadEvent::Closed => self.finish(),
            ReadEvent::Received(bytes) => {
                let mut bytes = bytes;
                self.response.append(&mut bytes);
                match self.complete() {
                    Ok(true) => self.finish(),
                    Ok(false) => Ok(None),
                    Err(error) => Err(error),
                }
            },
            ReadEvent::TimedOut => match self.complete() {
                Ok(true) => self.finish(),
                Ok(false) => Err(
                    text::owned(
                        "failed to read rpc response: timed out waiting for node response",
                    ),
                ),
                Err(error) => Err(error),
            },
            ReadEvent::Failed(words) => Err(
                text::join2("failed to read rpc response: ", words.as_str()),
            ),
        }
    }
}

/// Where there is a mark, there is a first one.
proof fn first_mark(s: Seq<u8>, i: int)
    requires
        mark_at(s, i),
    ensures
        exists|j: int| headers_end(s, j),
    decreases i,
{
    if exists|j: int| 0 <= j < i && #[trigger] mark_at(s, j) {
        let j = choose|j: int| 0 <= j < i && #[trigger] mark_at(s, j);
        first_mark(s, j);
    } else {
        assert(headers_end(s, i));
    }
}

} // verus!
