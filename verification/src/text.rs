//! Text: numbers and bytes as characters, and the small operations on strings
//! that the node needs.

use vstd::prelude::*;
use vstd::utf8;

verus! {

/// Whether two texts are equal.
pub fn same_text(a: &str, b: &str) -> (r: bool)
    ensures
        r == (a@ == b@),
{
    let r = crate::order::same_bytes(a.as_bytes(), b.as_bytes());
    proof {
        utf8::encode_utf8_decode_utf8(a@);
        utf8::encode_utf8_decode_utf8(b@);
    }
    r
}

/// A copy of a text.
pub fn owned(a: &str) -> (r: String)
    ensures
        r@ == a@,
{
    String::from_str(a)
}

/// Two texts, one after the other.
pub fn join2(a: &str, b: &str) -> (r: String)
    ensures
        r@ == a@ + b@,
{
    let mut out = String::from_str(a);
    out.append(b);
    out
}

/// Three texts, one after the other.
pub fn join3(a: &str, b: &str, c: &str) -> (r: String)
    ensures
        r@ == a@ + b@ + c@,
{
    let mut out = join2(a, b);
    out.append(c);
    out
}

/// Four texts, one after the other.
pub fn join4(a: &str, b: &str, c: &str, d: &str) -> (r: String)
    ensures
        r@ == a@ + b@ + c@ + d@,
{
    let mut out = join3(a, b, c);
    out.append(d);
    out
}

/// The texts of a list.
pub open spec fn texts(list: Seq<String>) -> Seq<Seq<char>> {
    Seq::new(list.len(), |i: int| list[i]@)
}

/// Whether a text starts with a dash.
pub fn starts_with_dash(text: &str) -> (r: bool)
    ensures
        r == (text@.len() > 0 && text@[0] == '-'),
{
    text.unicode_len() > 0 && text.get_char(0) == '-'
}

/// The character is white space: a control that breaks a line or sets a tab, or
/// one of the separators.
pub open spec fn whitespace(c: char) -> bool {
    ||| '\u{9}' <= c <= '\u{d}'
    ||| c == '\u{20}'
    ||| c == '\u{85}'
    ||| c == '\u{a0}'
    ||| c == '\u{1680}'
    ||| '\u{2000}' <= c <= '\u{200a}'
    ||| c == '\u{2028}'
    ||| c == '\u{2029}'
    ||| c == '\u{202f}'
    ||| c == '\u{205f}'
    ||| c == '\u{3000}'
}

fn is_whitespace(c: char) -> (r: bool)
    ensures
        r == whitespace(c),
{
    ('\u{9}' <= c && c <= '\u{d}') || c == '\u{20}' || c == '\u{85}' || c == '\u{a0}' || c
        == '\u{1680}' || ('\u{2000}' <= c && c <= '\u{200a}') || c == '\u{2028}' || c == '\u{2029}'
        || c == '\u{202f}' || c == '\u{205f}' || c == '\u{3000}'
}

/// A text without the white space at its start.
pub open spec fn trimmed_start(s: Seq<char>) -> Seq<char>
    decreases s.len(),
{
    if s.len() > 0 && whitespace(s[0]) {
        trimmed_start(s.skip(1))
    } else {
        s
    }
}

/// A text without the white space at its end.
pub open spec fn trimmed_end(s: Seq<char>) -> Seq<char>
    decreases s.len(),
{
    if s.len() > 0 && whitespace(s.last()) {
        trimmed_end(s.drop_last())
    } else {
        s
    }
}

/// A text without the white space around it.
pub open spec fn trimmed(s: Seq<char>) -> Seq<char> {
    trimmed_end(trimmed_start(s))
}

/// A text without the white space around it.
pub fn trim(text: &str) -> (r: &str)
    ensures
        r@ == trimmed(text@),
{
    let len: usize = text.unicode_len();
    let mut from: usize = 0;
    proof {
        assert(text@.skip(0) =~= text@);
    }
    while from < len && is_whitespace(text.get_char(from))
        invariant
            len == text@.len(),
            from <= len,
            trimmed_start(text@.skip(from as int)) == trimmed_start(text@),
        decreases len - from,
    {
        proof {
            assert(text@.skip(from as int).skip(1) =~= text@.skip(from + 1));
        }
        from = from + 1;
    }
    let ghost rest = text@.skip(from as int);
    proof {
        if from < len {
            assert(rest[0] == text@[from as int]);
        }
    }
    let mut to: usize = len;
    proof {
        assert(text@.subrange(from as int, to as int) =~= rest);
    }
    while to > from && is_whitespace(text.get_char(to - 1))
        invariant
            len == text@.len(),
            from <= to <= len,
            rest == trimmed_start(text@),
            trimmed_end(text@.subrange(from as int, to as int)) == trimmed_end(rest),
        decreases to,
    {
        proof {
            assert(text@.subrange(from as int, to as int).last() == text@[to - 1]);
            assert(text@.subrange(from as int, to as int).drop_last() =~= text@.subrange(
                from as int,
                to - 1,
            ));
        }
        to = to - 1;
    }
    proof {
        let left = text@.subrange(from as int, to as int);
        if to > from {
            assert(left.last() == text@[to - 1]);
        }
    }
    text.substring_char(from, to)
}

/// The digit for a number below ten.
pub open spec fn digit(n: int) -> char {
    (48 + n) as char
}

/// The decimal digits of a number.
pub open spec fn decimal(n: nat) -> Seq<char>
    decreases n,
{
    if n < 10 {
        seq![digit(n as int)]
    } else {
        decimal(n / 10).push(digit((n % 10) as int))
    }
}

fn digit_text(n: u64) -> (r: &'static str)
    requires
        n < 10,
    ensures
        r@ == seq![digit(n as int)],
{
    proof {
        reveal_strlit("0");
        reveal_strlit("1");
        reveal_strlit("2");
        reveal_strlit("3");
        reveal_strlit("4");
        reveal_strlit("5");
        reveal_strlit("6");
        reveal_strlit("7");
        reveal_strlit("8");
        reveal_strlit("9");
        assert("0"@ =~= seq![digit(0)]);
        assert("1"@ =~= seq![digit(1)]);
        assert("2"@ =~= seq![digit(2)]);
        assert("3"@ =~= seq![digit(3)]);
        assert("4"@ =~= seq![digit(4)]);
        assert("5"@ =~= seq![digit(5)]);
        assert("6"@ =~= seq![digit(6)]);
        assert("7"@ =~= seq![digit(7)]);
        assert("8"@ =~= seq![digit(8)]);
        assert("9"@ =~= seq![digit(9)]);
    }
    if n == 0 {
        "0"
    } else if n == 1 {
        "1"
    } else if n == 2 {
        "2"
    } else if n == 3 {
        "3"
    } else if n == 4 {
        "4"
    } else if n == 5 {
        "5"
    } else if n == 6 {
        "6"
    } else if n == 7 {
        "7"
    } else if n == 8 {
        "8"
    } else {
        "9"
    }
}

/// The decimal digits of a number.
pub fn decimal_text(n: u64) -> (r: String)
    ensures
        r@ == decimal(n as nat),
    decreases n,
{
    if n < 10 {
        String::from_str(digit_text(n))
    } else {
        let mut out = decimal_text(n / 10);
        out.append(digit_text(n % 10));
        proof {
            assert(decimal((n / 10) as nat) + seq![digit((n % 10) as int)] =~= decimal(n as nat));
        }
        out
    }
}

/// The number that decimal digits spell, if there are any and nothing else.
pub open spec fn digits_value(s: Seq<char>) -> Option<nat>
    decreases s.len(),
{
    if s.len() == 0 {
        None
    } else if !('0' <= s.last() <= '9') {
        None
    } else {
        let last = (s.last() as nat - 48) as nat;
        if s.len() == 1 {
            Some(last)
        } else {
            match digits_value(s.drop_last()) {
                Some(n) => Some(10 * n + last),
                None => None,
            }
        }
    }
}

/// The number that a text spells: decimal digits behind an optional plus sign.
pub open spec fn number_value(s: Seq<char>) -> Option<nat> {
    if s.len() > 0 && s[0] == '+' {
        digits_value(s.skip(1))
    } else {
        digits_value(s)
    }
}

/// The digits of a number spell it.
pub proof fn decimal_spells_its_number(n: nat)
    ensures
        number_value(decimal(n)) == Some(n),
        digits_value(decimal(n)) == Some(n),
        decimal(n).len() > 0,
        forall|i: int| 0 <= i < decimal(n).len() ==> '0' <= #[trigger] decimal(n)[i] <= '9',
    decreases n,
{
    if n < 10 {
        let s = seq![digit(n as int)];
        assert(s.last() == digit(n as int));
    } else {
        decimal_spells_its_number(n / 10);
        let s = decimal(n);
        assert(s.drop_last() =~= decimal(n / 10));
        assert(s.last() == digit((n % 10) as int));
        assert(s[0] == decimal(n / 10)[0]);
    }
}

/// What `u32::from_str` says of a text that it refuses.
pub uninterp spec fn u32_refusal(s: Seq<char>) -> Seq<char>;

/// What `u64::from_str` says of a text that it refuses.
pub uninterp spec fn u64_refusal(s: Seq<char>) -> Seq<char>;

/// What `usize::from_str` says of a text that it refuses.
pub uninterp spec fn usize_refusal(s: Seq<char>) -> Seq<char>;

/// `str::parse` to a `u32`: decimal digits behind an optional plus sign whose
/// number fits are taken, anything else is refused. The words of a refusal are
/// named.
#[verifier::external_body]
pub(crate) fn parse_u32(text: &str) -> (r: Result<u32, String>)
    ensures
        match r {
            Ok(n) => number_value(text@) == Some(n as nat),
            Err(error) => error@ == u32_refusal(text@) && (match number_value(text@) {
                Some(n) => n > u32::MAX,
                None => true,
            }),
        },
{
    text.parse::<u32>().map_err(|error| error.to_string())
}

/// `str::parse` to a `u64`: decimal digits behind an optional plus sign whose
/// number fits are taken, anything else is refused. The words of a refusal are
/// named.
#[verifier::external_body]
pub(crate) fn parse_u64(text: &str) -> (r: Result<u64, String>)
    ensures
        match r {
            Ok(n) => number_value(text@) == Some(n as nat),
            Err(error) => error@ == u64_refusal(text@) && (match number_value(text@) {
                Some(n) => n > u64::MAX,
                None => true,
            }),
        },
{
    text.parse::<u64>().map_err(|error| error.to_string())
}

/// `str::parse` to a `usize`: decimal digits behind an optional plus sign whose
/// number fits are taken, anything else is refused. The words of a refusal are
/// named.
#[verifier::external_body]
pub(crate) fn parse_usize(text: &str) -> (r: Result<usize, String>)
    ensures
        match r {
            Ok(n) => number_value(text@) == Some(n as nat),
            Err(error) => error@ == usize_refusal(text@) && (match number_value(text@) {
                Some(n) => n > usize::MAX,
                None => true,
            }),
        },
{
    text.parse::<usize>().map_err(|error| error.to_string())
}

/// What `String::from_utf8` says of bytes that it refuses.
pub uninterp spec fn utf8_refusal(bytes: Seq<u8>) -> Seq<char>;

/// `String::from_utf8`: the text that valid UTF-8 spells. Other bytes are
/// refused. The words of a refusal are named.
#[verifier::external_body]
pub(crate) fn text_from_utf8(bytes: Vec<u8>) -> (r: Result<String, String>)
    ensures
        match r {
            Ok(text) => utf8::valid_utf8(bytes@) && text@ == utf8::decode_utf8(bytes@),
            Err(error) => error@ == utf8_refusal(bytes@) && !utf8::valid_utf8(bytes@),
        },
{
    String::from_utf8(bytes).map_err(|error| error.to_string())
}

/// The digit for a number below sixteen.
pub open spec fn hex_digit(n: int) -> char {
    if n < 10 {
        (48 + n) as char
    } else {
        (87 + n) as char
    }
}

/// Two digits for each byte, the higher half first.
pub open spec fn hex_text(bytes: Seq<u8>) -> Seq<char>
    decreases bytes.len(),
{
    if bytes.len() == 0 {
        Seq::empty()
    } else {
        hex_text(bytes.drop_last()).push(hex_digit(bytes.last() as int / 16)).push(
            hex_digit(bytes.last() as int % 16),
        )
    }
}

/// The number that a hexadecimal digit stands for.
pub open spec fn hex_value(c: char) -> Option<int> {
    if '0' <= c <= '9' {
        Some(c as int - 48)
    } else if 'a' <= c <= 'f' {
        Some(c as int - 87)
    } else if 'A' <= c <= 'F' {
        Some(c as int - 55)
    } else {
        None
    }
}

/// The bytes that hexadecimal digits spell, two for each byte.
pub open spec fn hex_bytes(s: Seq<char>) -> Option<Seq<u8>>
    decreases s.len(),
{
    if s.len() == 0 {
        Some(Seq::empty())
    } else if s.len() == 1 {
        None
    } else {
        match (
            hex_bytes(s.take(s.len() - 2)),
            hex_value(s[s.len() - 2]),
            hex_value(s[s.len() - 1]),
        ) {
            (Some(earlier), Some(high), Some(low)) => Some(earlier.push((16 * high + low) as u8)),
            _ => None,
        }
    }
}

/// The digits of bytes spell them.
pub proof fn hex_text_spells_its_bytes(bytes: Seq<u8>)
    ensures
        hex_bytes(hex_text(bytes)) == Some(bytes),
        hex_text(bytes).len() == 2 * bytes.len(),
    decreases bytes.len(),
{
    if bytes.len() > 0 {
        let short = bytes.drop_last();
        hex_text_spells_its_bytes(short);
        let s = hex_text(bytes);
        let b = bytes.last() as int;
        assert(s.take(s.len() - 2) =~= hex_text(short));
        assert(s[s.len() - 2] == hex_digit(b / 16));
        assert(s[s.len() - 1] == hex_digit(b % 16));
        assert(16 * (b / 16) + b % 16 == b);
        assert(hex_value(hex_digit(b / 16)) == Some(b / 16));
        assert(hex_value(hex_digit(b % 16)) == Some(b % 16));
        assert(short.push(bytes.last()) =~= bytes);
    }
}

/// `hex::encode`: two lower-case digits for each byte, the higher half first.
#[verifier::external_body]
pub(crate) fn hex_encode(bytes: &[u8]) -> (r: String)
    ensures
        r@ == hex_text(bytes@),
{
    hex::encode(bytes)
}

/// `hex::decode`: the bytes that an even number of hexadecimal digits spell.
/// Any other text is refused.
#[verifier::external_body]
pub(crate) fn hex_decode(text: &str) -> (r: Option<Vec<u8>>)
    ensures
        match r {
            Some(bytes) => hex_bytes(text@) == Some(bytes@),
            None => hex_bytes(text@) is None,
        },
{
    hex::decode(text).ok()
}

/// The line breaks off at its first line feed: the place of that, or the length.
pub open spec fn line_end(s: Seq<char>) -> int
    decreases s.len(),
{
    if s.len() == 0 || s[0] == '\n' {
        0
    } else {
        1 + line_end(s.skip(1))
    }
}

/// A line without the carriage return before its line feed.
pub open spec fn without_return(s: Seq<char>) -> Seq<char> {
    if s.len() > 0 && s.last() == '\r' {
        s.drop_last()
    } else {
        s
    }
}

/// The end of a line lies in the text.
pub proof fn line_end_is_within(s: Seq<char>)
    ensures
        0 <= line_end(s) <= s.len(),
        line_end(s) < s.len() ==> s[line_end(s)] == '\n',
        forall|i: int| 0 <= i < line_end(s) ==> s[i] != '\n',
    decreases s.len(),
{
    if s.len() > 0 && s[0] != '\n' {
        line_end_is_within(s.skip(1));
        assert forall|i: int| 0 <= i < line_end(s) implies s[i] != '\n' by {
            if i > 0 {
                assert(s.skip(1)[i - 1] == s[i]);
            }
        }
    }
}

/// The lines of a text. A line ends with a line feed, or a carriage return and a
/// line feed, or with the text; behind the last line feed an empty line does not
/// count.
pub open spec fn lines_of(s: Seq<char>) -> Seq<Seq<char>>
    decreases s.len(),
{
    if s.len() == 0 {
        Seq::empty()
    } else if line_end(s) < 0 || line_end(s) >= s.len() {
        seq![s]
    } else {
        seq![without_return(s.take(line_end(s)))] + lines_of(s.skip(line_end(s) + 1))
    }
}

/// The texts of a list of slices.
pub open spec fn slices(list: Seq<&str>) -> Seq<Seq<char>> {
    Seq::new(list.len(), |i: int| list[i]@)
}

/// The lines of a text.
pub fn lines<'a>(text: &'a str) -> (r: Vec<&'a str>)
    ensures
        slices(r@) == lines_of(text@),
{
    let len: usize = text.unicode_len();
    let mut out: Vec<&'a str> = Vec::new();
    let mut from: usize = 0;
    proof {
        assert(text@.skip(0) =~= text@);
        assert(slices(out@) + lines_of(text@) =~= lines_of(text@));
    }
    while from < len
        invariant
            len == text@.len(),
            from <= len,
            slices(out@) + lines_of(text@.skip(from as int)) == lines_of(text@),
        decreases len - from,
    {
        let ghost rest = text@.skip(from as int);
        let ghost before = out@;
        let mut to: usize = from;
        proof {
            assert(rest.skip(0) =~= rest);
        }
        while to < len && text.get_char(to) != '\n'
            invariant
                len == text@.len(),
                from <= to <= len,
                rest == text@.skip(from as int),
                line_end(rest) == to - from + line_end(rest.skip(to - from)),
            decreases len - to,
        {
            proof {
                assert(rest.skip(to - from)[0] == text@[to as int]);
                assert(rest.skip(to - from).skip(1) =~= rest.skip(to + 1 - from));
            }
            to = to + 1;
        }
        proof {
            if to < len {
                assert(rest.skip(to - from)[0] == text@[to as int]);
            }
        }
        if to == len {
            out.push(text.substring_char(from, to));
            proof {
                assert(text@.subrange(from as int, to as int) =~= rest);
                assert(slices(out@) =~= slices(before).push(rest));
                assert(text@.skip(len as int) =~= Seq::empty());
                assert(slices(before) + seq![rest] =~= slices(out@) + lines_of(
                    text@.skip(len as int),
                ));
            }
            from = len;
        } else {
            let mut end: usize = to;
            if to > from && text.get_char(to - 1) == '\r' {
                end = to - 1;
            }
            out.push(text.substring_char(from, end));
            proof {
                let line = rest.take(line_end(rest));
                assert(line =~= text@.subrange(from as int, to as int));
                if to > from {
                    assert(line.last() == text@[to - 1]);
                }
                assert(without_return(line) =~= text@.subrange(from as int, end as int));
                assert(slices(out@) =~= slices(before).push(without_return(line)));
                assert(rest.skip(line_end(rest) + 1) =~= text@.skip(to + 1));
                assert(slices(before) + (seq![without_return(line)] + lines_of(
                    text@.skip(to + 1),
                )) =~= slices(out@) + lines_of(text@.skip(to + 1)));
            }
            from = to + 1;
        }
    }
    proof {
        assert(text@.skip(from as int) =~= Seq::empty());
        assert(slices(out@) + Seq::<Seq<char>>::empty() =~= slices(out@));
    }
    out
}

/// The place of the first character `c`, or the length.
pub open spec fn first_of(s: Seq<char>, c: char) -> int
    decreases s.len(),
{
    if s.len() == 0 || s[0] == c {
        0
    } else {
        1 + first_of(s.skip(1), c)
    }
}

/// The place of the first character `c`, or the length.
pub fn find_char(text: &str, c: char) -> (r: usize)
    ensures
        r == first_of(text@, c),
        r <= text@.len(),
        r < text@.len() ==> text@[r as int] == c,
{
    let len: usize = text.unicode_len();
    let mut i: usize = 0;
    proof {
        assert(text@.skip(0) =~= text@);
    }
    while i < len && text.get_char(i) != c
        invariant
            len == text@.len(),
            i <= len,
            first_of(text@, c) == i + first_of(text@.skip(i as int), c),
        decreases len - i,
    {
        proof {
            assert(text@.skip(i as int)[0] == text@[i as int]);
            assert(text@.skip(i as int).skip(1) =~= text@.skip(i + 1));
        }
        i = i + 1;
    }
    proof {
        if i < len {
            assert(text@.skip(i as int)[0] == text@[i as int]);
        }
    }
    i
}

/// Two characters are the same, letters of the Latin alphabet in either case.
pub open spec fn same_letter(a: char, b: char) -> bool {
    ||| a == b
    ||| 'A' <= a <= 'Z' && b as int == a as int + 32
    ||| 'A' <= b <= 'Z' && a as int == b as int + 32
}

/// Two texts are the same, letters of the Latin alphabet in either case.
pub open spec fn same_letters(a: Seq<char>, b: Seq<char>) -> bool {
    &&& a.len() == b.len()
    &&& forall|i: int| 0 <= i < a.len() ==> same_letter(#[trigger] a[i], b[i])
}

/// Whether two texts are the same, letters of the Latin alphabet in either case.
pub fn same_ignoring_case(a: &str, b: &str) -> (r: bool)
    ensures
        r == same_letters(a@, b@),
{
    let len: usize = a.unicode_len();
    if len != b.unicode_len() {
        return false;
    }
    let mut i: usize = 0;
    while i < len
        invariant
            len == a@.len(),
            len == b@.len(),
            i <= len,
            forall|j: int| 0 <= j < i ==> same_letter(#[trigger] a@[j], b@[j]),
        decreases len - i,
    {
        let x = a.get_char(i);
        let y = b.get_char(i);
        let same = x == y || ('A' <= x && x <= 'Z' && y as u32 == x as u32 + 32) || ('A' <= y && y
            <= 'Z' && x as u32 == y as u32 + 32);
        if !same {
            assert(!same_letter(a@[i as int], b@[i as int]));
            return false;
        }
        i = i + 1;
    }
    true
}

} // verus!
