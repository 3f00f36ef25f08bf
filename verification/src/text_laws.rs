//! What holds of the texts that are read and shown.

use crate::answers;
use crate::cli;
use crate::display;
use crate::parse;
use crate::peers_file;
use crate::storage;
use crate::tables::Rows;
use crate::text;
use crate::types::{Block, Height};
use vstd::prelude::*;

verus! {

/// All of the text is white space.
pub open spec fn is_blank(s: Seq<char>) -> bool {
    forall|i: int| 0 <= i < s.len() ==> text::whitespace(#[trigger] s[i])
}

proof fn start_is_trimmed(s: Seq<char>) -> (lead: Seq<char>)
    ensures
        is_blank(lead),
        s == lead + text::trimmed_start(s),
        text::trimmed_start(s).len() > 0 ==> !text::whitespace(text::trimmed_start(s)[0]),
    decreases s.len(),
{
    if s.len() > 0 && text::whitespace(s[0]) {
        let rest = start_is_trimmed(s.skip(1));
        let lead = seq![s[0]] + rest;
        let kept = text::trimmed_start(s);
        assert(kept == text::trimmed_start(s.skip(1)));
        assert(s =~= seq![s[0]] + s.skip(1));
        assert(lead + kept =~= seq![s[0]] + (rest + kept));
        lead
    } else {
        let lead = Seq::<char>::empty();
        assert(s =~= lead + s);
        lead
    }
}

proof fn end_is_trimmed(s: Seq<char>) -> (tail: Seq<char>)
    ensures
        is_blank(tail),
        s == text::trimmed_end(s) + tail,
        text::trimmed_end(s).len() > 0 ==> !text::whitespace(text::trimmed_end(s).last()),
    decreases s.len(),
{
    if s.len() > 0 && text::whitespace(s.last()) {
        let rest = end_is_trimmed(s.drop_last());
        let tail = rest.push(s.last());
        let kept = text::trimmed_end(s);
        assert(kept == text::trimmed_end(s.drop_last()));
        assert(s =~= s.drop_last().push(s.last()));
        assert(kept + tail =~= (kept + rest).push(s.last()));
        tail
    } else {
        let tail = Seq::<char>::empty();
        assert(s =~= s + tail);
        tail
    }
}

/// Trimming takes away white space at both ends, all of it, and nothing else.
pub proof fn trimming_takes_white_space_alone(s: Seq<char>) -> (ends: (Seq<char>, Seq<char>))
    ensures
        is_blank(ends.0),
        is_blank(ends.1),
        s == ends.0 + text::trimmed(s) + ends.1,
        text::trimmed(s).len() > 0 ==> !text::whitespace(text::trimmed(s)[0]) && !text::whitespace(
            text::trimmed(s).last(),
        ),
{
    let lead = start_is_trimmed(s);
    let rest = text::trimmed_start(s);
    let tail = end_is_trimmed(rest);
    let middle = text::trimmed(s);
    assert(s =~= lead + middle + tail);
    if middle.len() > 0 {
        assert(rest[0] == middle[0]);
    }
    (lead, tail)
}

/// The place of a letter is the first that has it, or the end where none has.
pub proof fn the_first_place_has_the_letter(s: Seq<char>, c: char)
    ensures
        0 <= text::first_of(s, c) <= s.len(),
        text::first_of(s, c) < s.len() ==> s[text::first_of(s, c)] == c,
        forall|i: int| 0 <= i < text::first_of(s, c) ==> #[trigger] s[i] != c,
    decreases s.len(),
{
    if s.len() > 0 && s[0] != c {
        let rest = s.skip(1);
        the_first_place_has_the_letter(rest, c);
        let k = text::first_of(rest, c);
        if k < rest.len() {
            assert(s[k + 1] == rest[k]);
        }
        assert forall|i: int| 0 <= i < k + 1 implies #[trigger] s[i] != c by {
            if i > 0 {
                assert(s[i] == rest[i - 1]);
            }
        }
    }
}

/// What stands before the first line break is the first line, without a return at
/// its end, and the other lines are those of what follows. Text without a break
/// is one line, and no text is none.
pub proof fn lines_end_at_breaks(line: Seq<char>, rest: Seq<char>)
    requires
        !line.contains('\n'),
    ensures
        text::lines_of(line + seq!['\n'] + rest) == seq![
            if line.len() > 0 && line.last() == '\r' {
                line.drop_last()
            } else {
                line
            },
        ] + text::lines_of(rest),
        line.len() > 0 ==> text::lines_of(line) == seq![line],
        text::lines_of(Seq::<char>::empty()).len() == 0,
{
    let s = line + seq!['\n'] + rest;
    break_is_found(line, rest);
    assert(s.take(line.len() as int) =~= line);
    assert(s.skip(line.len() as int + 1) =~= rest);
    if line.len() > 0 {
        no_break_is_found(line);
    }
}

proof fn break_is_found(line: Seq<char>, rest: Seq<char>)
    requires
        !line.contains('\n'),
    ensures
        text::line_end(line + seq!['\n'] + rest) == line.len(),
    decreases line.len(),
{
    let s = line + seq!['\n'] + rest;
    if line.len() > 0 {
        assert(line.contains(line[0]));
        let short = line.skip(1);
        if short.contains('\n') {
            let k = choose|k: int| 0 <= k < short.len() && short[k] == '\n';
            assert(line[k + 1] == '\n');
        }
        break_is_found(short, rest);
        assert(s.skip(1) =~= short + seq!['\n'] + rest);
        assert(s[0] == line[0]);
    } else {
        assert(s[0] == '\n');
    }
}

proof fn no_break_is_found(line: Seq<char>)
    requires
        !line.contains('\n'),
    ensures
        text::line_end(line) == line.len(),
    decreases line.len(),
{
    if line.len() > 0 {
        assert(line.contains(line[0]));
        let short = line.skip(1);
        if short.contains('\n') {
            let k = choose|k: int| 0 <= k < short.len() && short[k] == '\n';
            assert(line[k + 1] == '\n');
        }
        no_break_is_found(short);
    }
}

/// The mask of so many bits sets just those, from the highest on: it lacks from a
/// full byte what the lower bits hold.
pub proof fn a_mask_sets_the_highest_bits(bits: int)
    requires
        1 <= bits <= 6,
    ensures
        display::mask_byte(1) == 128,
        display::mask_byte(bits + 1) == 128 + display::mask_byte(bits) / 2,
{
}

/// A number is read as what its digits spell, as long as it is not too large.
pub proof fn a_number_is_what_it_spells(n: nat, max: int, refusal: Seq<char>)
    ensures
        n <= max ==> parse::number_in(text::decimal(n), max, refusal) == Ok::<nat, Seq<char>>(n),
        n > max ==> parse::number_in(text::decimal(n), max, refusal) == Err::<nat, Seq<char>>(
            refusal,
        ),
{
    text::decimal_spells_its_number(n);
}

/// A row of a menu is picked by its number, counted from one.
pub proof fn a_row_is_picked_by_its_number(n: nat, count: int)
    requires
        n <= usize::MAX,
        0 <= count < usize::MAX,
    ensures
        1 <= n <= count ==> cli::picked(text::decimal(n), count) == Ok::<int, Seq<char>>(n - 1),
        n == 0 || n > count ==> cli::picked(text::decimal(n), count) is Err,
        1 <= n <= count ==> cli::wallet_picked(text::decimal(n), count) == Ok::<
            Option<int>,
            Seq<char>,
        >(Some(n - 1)),
        n == count + 1 ==> cli::wallet_picked(text::decimal(n), count) == Ok::<
            Option<int>,
            Seq<char>,
        >(None),
        n > count + 1 ==> cli::wallet_picked(text::decimal(n), count) is Err,
{
    let s = text::decimal(n);
    a_number_is_what_it_spells(
        n,
        usize::MAX as int,
        "invalid selection: "@ + text::usize_refusal(s),
    );
}

/// The blocks from a height down are those that are stored there, each at its own
/// height, from the highest to the lowest; and none is left out.
pub proof fn blocks_come_from_the_top_down(rows: Rows, height: int, down_to: int)
    requires
        0 <= down_to,
        height <= u64::MAX,
        answers::blocks_down(rows, height, down_to) is Ok,
    ensures
        ({
            let list = answers::blocks_down(rows, height, down_to)->Ok_0;
            &&& forall|i: int|
                0 <= i < list.len() ==> down_to <= (#[trigger] list[i]).data.height.0 <= height
                    && storage::block_at(rows, list[i].data.height) == Ok::<
                    Option<Block>,
                    storage::StorageError,
                >(Some(list[i]))
            &&& forall|i: int, j: int|
                0 <= i < j < list.len() ==> (#[trigger] list[i]).data.height.0 > (
                #[trigger] list[j]).data.height.0
            &&& forall|h: u64|
                down_to <= h <= height ==> ((#[trigger] storage::block_at(
                    rows,
                    Height(h),
                )) matches Ok(Some(block)) ==> list.contains(block))
        }),
    decreases height + 1 - down_to,
{
    if height >= down_to {
        let list = answers::blocks_down(rows, height, down_to)->Ok_0;
        let here = height as u64;
        blocks_come_from_the_top_down(rows, height - 1, down_to);
        let below = answers::blocks_down(rows, height - 1, down_to)->Ok_0;
        match storage::block_at(rows, Height(here)) {
            Ok(Some(block)) => {
                assert(list =~= seq![block] + below);
                assert forall|i: int| 0 <= i < list.len() implies down_to <= (
                #[trigger] list[i]).data.height.0 <= height && storage::block_at(
                    rows,
                    list[i].data.height,
                ) == Ok::<Option<Block>, storage::StorageError>(Some(list[i])) by {
                    if i > 0 {
                        assert(list[i] == below[i - 1]);
                    }
                }
                assert forall|i: int, j: int| 0 <= i < j < list.len() implies (
                #[trigger] list[i]).data.height.0 > (#[trigger] list[j]).data.height.0 by {
                    assert(list[j] == below[j - 1]);
                    if i > 0 {
                        assert(list[i] == below[i - 1]);
                    }
                }
                assert forall|h: u64| down_to <= h <= height implies ((
                #[trigger] storage::block_at(rows, Height(h))) matches Ok(Some(b))
                    ==> list.contains(b)) by {
                    match storage::block_at(rows, Height(h)) {
                        Ok(Some(b)) => {
                            if h == here {
                                assert(list[0] == b);
                            } else {
                                assert(below.contains(b));
                                let k = choose|k: int| 0 <= k < below.len() && below[k] == b;
                                assert(list[k + 1] == b);
                            }
                        },
                        _ => {},
                    }
                }
            },
            _ => {
                assert(list == below);
            },
        }
    }
}

/// Line `k` of the list names something: that is left of it, before a `#`, when
/// the white space at its ends is gone.
pub open spec fn names_something(lines: Seq<Seq<char>>, k: int) -> bool {
    0 <= k < lines.len() && peers_file::named_in(lines[k]).len() > 0
}

/// The lines that name a node are read with their numbers, counted from one, in
/// their order; blank lines and remarks are passed over.
pub proof fn named_lines_keep_their_numbers(lines: Seq<Seq<char>>)
    ensures
        ({
            let out = peers_file::named_lines(lines);
            &&& forall|i: int|
                0 <= i < out.len() ==> names_something(lines, (#[trigger] out[i]).0 - 1)
                    && out[i].1 == peers_file::named_in(lines[out[i].0 - 1])
            &&& forall|i: int, j: int|
                0 <= i < j < out.len() ==> (#[trigger] out[i]).0 < (#[trigger] out[j]).0
            &&& forall|k: int| #[trigger]
                names_something(lines, k) ==> out.contains(
                    (k + 1, peers_file::named_in(lines[k])),
                )
        }),
    decreases lines.len(),
{
    if lines.len() > 0 {
        let short = lines.drop_last();
        named_lines_keep_their_numbers(short);
        let before = peers_file::named_lines(short);
        let out = peers_file::named_lines(lines);
        let last = lines.len() - 1;
        assert(lines[last] == lines.last());
        assert forall|i: int| 0 <= i < out.len() implies names_something(
            lines,
            (#[trigger] out[i]).0 - 1,
        ) && out[i].1 == peers_file::named_in(lines[out[i].0 - 1]) by {
            if i < before.len() {
                assert(out[i] == before[i]);
                assert(names_something(short, before[i].0 - 1));
                assert(lines[out[i].0 - 1] == short[out[i].0 - 1]);
            }
        }
        assert forall|i: int, j: int| 0 <= i < j < out.len() implies (#[trigger] out[i]).0 < (
        #[trigger] out[j]).0 by {
            assert(out[i] == before[i]);
            assert(names_something(short, before[i].0 - 1));
            if j < before.len() {
                assert(out[j] == before[j]);
            }
        }
        assert forall|k: int| #[trigger] names_something(lines, k) implies out.contains(
            (k + 1, peers_file::named_in(lines[k])),
        ) by {
            let row = (k + 1, peers_file::named_in(lines[k]));
            if k < last {
                assert(short[k] == lines[k]);
                assert(names_something(short, k));
                assert(before.contains(row));
                let i = choose|i: int| 0 <= i < before.len() && before[i] == row;
                assert(out[i] == row);
            } else {
                assert(out[before.len() as int] == row);
            }
        }
    }
}

/// Bytes are spelled in digits and small letters, the upper half of each first.
pub proof fn bytes_are_spelled_upper_half_first(bytes: Seq<u8>, k: int)
    requires
        0 <= k < bytes.len(),
    ensures
        ({
            let s = text::hex_text(bytes);
            &&& s.len() == 2 * bytes.len()
            &&& '0' <= s[2 * k] <= '9' || 'a' <= s[2 * k] <= 'f'
            &&& '0' <= s[2 * k + 1] <= '9' || 'a' <= s[2 * k + 1] <= 'f'
            &&& text::hex_value(s[2 * k]) == Some(bytes[k] as int / 16)
            &&& text::hex_value(s[2 * k + 1]) == Some(bytes[k] as int % 16)
        }),
    decreases bytes.len(),
{
    let short = bytes.drop_last();
    text::hex_text_spells_its_bytes(bytes);
    text::hex_text_spells_its_bytes(short);
    if k < bytes.len() - 1 {
        bytes_are_spelled_upper_half_first(short, k);
        assert(text::hex_text(bytes)[2 * k] == text::hex_text(short)[2 * k]);
        assert(text::hex_text(bytes)[2 * k + 1] == text::hex_text(short)[2 * k + 1]);
    }
}

/// Digits of both sizes are read, each as its value, and nothing else is one.
pub proof fn digits_have_their_values(c: char)
    ensures
        '0' <= c <= '9' ==> text::hex_value(c) == Some(c as int - '0' as int),
        'a' <= c <= 'f' ==> text::hex_value(c) == Some(c as int - 'a' as int + 10),
        'A' <= c <= 'F' ==> text::hex_value(c) == Some(c as int - 'A' as int + 10),
        !('0' <= c <= '9') && !('a' <= c <= 'f') && !('A' <= c <= 'F') ==> text::hex_value(
            c,
        ) is None,
{
}

/// A number is shown without zeros in front.
pub proof fn a_number_has_no_zeros_in_front(n: nat)
    ensures
        text::decimal(n).len() > 0,
        n > 0 ==> text::decimal(n)[0] != '0',
        n < 10 ==> text::decimal(n).len() == 1,
        n >= 10 ==> text::decimal(n).len() == text::decimal(n / 10).len() + 1,
    decreases n,
{
    if n >= 10 {
        a_number_has_no_zeros_in_front(n / 10);
        assert(text::decimal(n)[0] == text::decimal(n / 10)[0]);
    }
}

} // verus!
