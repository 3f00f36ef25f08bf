//! The file that names nodes to connect to.

use crate::peers::SocketAddress;
use crate::run_config::AddressText;
use crate::text;
use vstd::prelude::*;
use vstd::string::*;

verus! {

/// A line of the file that names a node: its number, which counts from one, and
/// the name.
#[derive(Debug, PartialEq, Eq)]
pub struct PeerLine {
    pub number: usize,
    pub text: String,
}

impl View for PeerLine {
    type V = (int, Seq<char>);

    open spec fn view(&self) -> (int, Seq<char>) {
        (self.number as int, self.text@)
    }
}

/// What a line names: what stands before a number sign, without the white space
/// around it.
pub open spec fn named_in(line: Seq<char>) -> Seq<char> {
    text::trimmed(line.take(text::first_of(line, '#')))
}

/// What lines name, without those that name nothing.
pub open spec fn named_lines(lines: Seq<Seq<char>>) -> Seq<(int, Seq<char>)>
    decreases lines.len(),
{
    if lines.len() == 0 {
        Seq::empty()
    } else {
        let before = named_lines(lines.drop_last());
        let name = named_in(lines.last());
        if name.len() == 0 {
            before
        } else {
            before.push((lines.len() as int, name))
        }
    }
}

/// The numbered names in a list of lines.
pub open spec fn line_views(lines: Seq<PeerLine>) -> Seq<(int, Seq<char>)> {
    Seq::new(lines.len(), |i: int| lines[i]@)
}

/// The lines of a file that name nodes.
pub fn peer_lines(contents: &str) -> (r: Vec<PeerLine>)
    ensures
        line_views(r@) == named_lines(text::lines_of(contents@)),
{
    let lines = text::lines(contents);
    let ghost all = text::slices(lines@);
    let mut out: Vec<PeerLine> = Vec::new();
    let mut i: usize = 0;
    proof {
        assert(all.take(0) =~= Seq::empty());
        assert(line_views(out@) =~= Seq::empty());
    }
    while i < lines.len()
        invariant
            all == text::slices(lines@),
            i <= lines@.len(),
            line_views(out@) == named_lines(all.take(i as int)),
        decreases lines@.len() - i,
    {
        let ghost before = out@;
        let line = lines[i];
        let end: usize = text::find_char(line, '#');
        let name = text::trim(line.substring_char(0, end));
        proof {
            assert(line@.subrange(0, end as int) =~= line@.take(end as int));
            assert(all.take(i + 1).drop_last() =~= all.take(i as int));
            assert(all.take(i + 1).last() == line@);
        }
        i = i + 1;
        if name.unicode_len() > 0 {
            out.push(PeerLine { number: i, text: text::owned(name) });
            proof {
                assert(line_views(out@) =~= line_views(before).push((i as int, name@)));
            }
        }
    }
    proof {
        assert(all.take(i as int) =~= all);
    }
    out
}

/// The words for a line that names no node.
pub open spec fn invalid_line(path: Seq<char>, number: nat, error: Seq<char>) -> Seq<char> {
    "invalid peer in "@ + path + " line "@ + text::decimal(number) + ": "@ + error
}

/// The words for a line that names no node.
pub fn invalid_peer_line(path: &str, number: usize, error: &str) -> (r: String)
    ensures
        r@ == invalid_line(path@, number as nat, error@),
{
    let mut out = text::join3("invalid peer in ", path, " line ");
    out.append(text::decimal_text(number as u64).as_str());
    out.append(": ");
    out.append(error);
    out
}

/// The words for a name in a list that names no node.
pub open spec fn invalid_name(path: Seq<char>, name: Seq<char>, error: Seq<char>) -> Seq<char> {
    "invalid peer `"@ + name + "` in "@ + path + ": "@ + error
}

fn invalid_peer_name(path: &str, name: &str, error: &str) -> (r: String)
    ensures
        r@ == invalid_name(path@, name@, error@),
{
    let mut out = text::join4("invalid peer `", name, "` in ", path);
    out.append(": ");
    out.append(error);
    out
}

/// A line that names a node: its number, and the address or why there is none.
#[derive(Debug, PartialEq, Eq)]
pub struct ParsedLine {
    pub number: usize,
    pub socket: Result<SocketAddress, String>,
}

/// The addresses of lines, or the words for the first that has none.
pub open spec fn line_sockets(path: Seq<char>, lines: Seq<ParsedLine>) -> Result<
    Seq<SocketAddress>,
    Seq<char>,
>
    decreases lines.len(),
{
    if lines.len() == 0 {
        Ok(Seq::empty())
    } else {
        match line_sockets(path, lines.drop_last()) {
            Err(error) => Err(error),
            Ok(earlier) => match lines.last().socket {
                Ok(addr) => Ok(earlier.push(addr)),
                Err(error) => Err(invalid_line(path, lines.last().number as nat, error@)),
            },
        }
    }
}

proof fn line_sockets_stops(path: Seq<char>, lines: Seq<ParsedLine>, k: int)
    requires
        0 <= k <= lines.len(),
        line_sockets(path, lines.take(k)) is Err,
    ensures
        line_sockets(path, lines) == line_sockets(path, lines.take(k)),
    decreases lines.len(),
{
    if k == lines.len() {
        assert(lines.take(k) =~= lines);
    } else {
        assert(lines.drop_last().take(k) =~= lines.take(k));
        line_sockets_stops(path, lines.drop_last(), k);
    }
}

/// The addresses of listed names, or the words for the first that has none.
pub open spec fn name_sockets(path: Seq<char>, names: Seq<AddressText>) -> Result<
    Seq<SocketAddress>,
    Seq<char>,
>
    decreases names.len(),
{
    if names.len() == 0 {
        Ok(Seq::empty())
    } else {
        match name_sockets(path, names.drop_last()) {
            Err(error) => Err(error),
            Ok(earlier) => match names.last().socket {
                Ok(addr) => Ok(earlier.push(addr)),
                Err(error) => Err(invalid_name(path, names.last().text@, error@)),
            },
        }
    }
}

proof fn name_sockets_stops(path: Seq<char>, names: Seq<AddressText>, k: int)
    requires
        0 <= k <= names.len(),
        name_sockets(path, names.take(k)) is Err,
    ensures
        name_sockets(path, names) == name_sockets(path, names.take(k)),
    decreases names.len(),
{
    if k == names.len() {
        assert(names.take(k) =~= names);
    } else {
        assert(names.drop_last().take(k) =~= names.take(k));
        name_sockets_stops(path, names.drop_last(), k);
    }
}

fn line_addresses(path: &str, lines: &Vec<ParsedLine>) -> (r: Result<Vec<SocketAddress>, String>)
    ensures
        match line_sockets(path@, lines@) {
            Ok(addrs) => r matches Ok(list) && list@ == addrs,
            Err(error) => r matches Err(words) && words@ == error,
        },
{
    let mut out: Vec<SocketAddress> = Vec::new();
    let mut i: usize = 0;
    assert(lines@.take(0) =~= Seq::empty());
    while i < lines.len()
        invariant
            i <= lines@.len(),
            line_sockets(path@, lines@.take(i as int)) == Ok::<Seq<SocketAddress>, Seq<char>>(
                out@,
            ),
        decreases lines@.len() - i,
    {
        proof {
            assert(lines@.take(i + 1).drop_last() =~= lines@.take(i as int));
        }
        match &lines[i].socket {
            Ok(addr) => {
                out.push(*addr);
            },
            Err(error) => {
                proof {
                    line_sockets_stops(path@, lines@, i + 1);
                }
                return Err(invalid_peer_line(path, lines[i].number, error.as_str()));
            },
        }
        i = i + 1;
    }
    assert(lines@.take(i as int) =~= lines@);
    Ok(out)
}

fn name_addresses(path: &str, names: &Vec<AddressText>) -> (r: Result<Vec<SocketAddress>, String>)
    ensures
        match name_sockets(path@, names@) {
            Ok(addrs) => r matches Ok(list) && list@ == addrs,
            Err(error) => r matches Err(words) && words@ == error,
        },
{
    let mut out: Vec<SocketAddress> = Vec::new();
    let mut i: usize = 0;
    assert(names@.take(0) =~= Seq::empty());
    while i < names.len()
        invariant
            i <= names@.len(),
            name_sockets(path@, names@.take(i as int)) == Ok::<Seq<SocketAddress>, Seq<char>>(
                out@,
            ),
        decreases names@.len() - i,
    {
        proof {
            assert(names@.take(i + 1).drop_last() =~= names@.take(i as int));
        }
        match &names[i].socket {
            Ok(addr) => {
                out.push(*addr);
            },
            Err(error) => {
                proof {
                    name_sockets_stops(path@, names@, i + 1);
                }
                return Err(invalid_peer_name(path, names[i].text.as_str(), error.as_str()));
            },
        }
        i = i + 1;
    }
    assert(names@.take(i as int) =~= names@);
    Ok(out)
}

/// The nodes that a file names, up to the first name that is no address. Where
/// the file holds a list, its names count; otherwise its lines.
pub fn known_peers(path: &str, listed: Option<Vec<AddressText>>, lines: &Vec<ParsedLine>) -> (r:
    Result<Vec<SocketAddress>, String>)
    ensures
        match (match listed {
            Some(names) => name_sockets(path@, names@),
            None => line_sockets(path@, lines@),
        }) {
            Ok(addrs) => r matches Ok(list) && list@ == addrs,
            Err(error) => r matches Err(words) && words@ == error,
        },
{
    match listed {
        Some(names) => name_addresses(path, &names),
        None => line_addresses(path, lines),
    }
}

} // verus!
