//! The nodes that this node speaks with.

use crate::message::PeerInfo;
use crate::order::{self, OrderedKey, Rank};
use crate::ordered_map::{self, OrderedMap};
use crate::sort::{self, SortOrder};
use crate::text;
use crate::types::Height;
use vstd::prelude::*;

verus! {

/// How long a node that answered is left alone, in milliseconds.
pub const DEFAULT_SYNC_INTERVAL: u64 = 5_000;

/// How long a node that failed for the first time is left alone, in
/// milliseconds.
pub const PEER_RETRY_BASE: u64 = 2_000;

/// How long a node that failed is left alone at most, in milliseconds.
pub const PEER_RETRY_MAX: u64 = 60_000;

/// How many blocks are asked for at a time.
pub const MAX_BLOCKS_PER_SYNC: u64 = 64;

/// After how many failures in a row a node is dropped.
pub const MAX_PEER_FAILURES: u32 = 3;

/// An address and a port. An address of the fourth version of the protocol
/// takes up the first four octets and leaves the others zero.
#[derive(Clone, Copy, Debug, PartialEq, Eq)]
pub struct SocketAddress {
    pub v6: bool,
    pub octets: [u8; 16],
    pub port: u16,
    pub flow: u32,
    pub scope: u32,
}

/// Addresses with the same parts are equal.
proof fn address_is_its_parts(a: SocketAddress, b: SocketAddress)
    ensures
        a == b <==> a.v6 == b.v6 && a.octets@ == b.octets@ && a.port == b.port && a.flow == b.flow
            && a.scope == b.scope,
{
    if a.octets@ == b.octets@ {
        assert(forall|i: int| 0 <= i < 16 ==> a.octets@[i] == b.octets@[i]);
        assert(a.octets =~= b.octets);
    }
}

impl OrderedKey for SocketAddress {
    open spec fn precedes(self, other: Self) -> bool {
        ||| !self.v6 && other.v6
        ||| self.v6 == other.v6 && (order::lex_less(self.octets@, other.octets@) || (self.octets@
            == other.octets@ && (self.port < other.port || (self.port == other.port && (self.flow
            < other.flow || (self.flow == other.flow && self.scope < other.scope))))))
    }

    proof fn irreflexive(a: Self) {
        order::lex_less_irreflexive(a.octets@);
    }

    proof fn transitive(a: Self, b: Self, c: Self) {
        if order::lex_less(a.octets@, b.octets@) && order::lex_less(b.octets@, c.octets@) {
            order::lex_less_transitive(a.octets@, b.octets@, c.octets@);
        }
    }

    fn rank(&self, other: &Self) -> (r: Rank) {
        proof {
            address_is_its_parts(*self, *other);
            order::lex_less_irreflexive(self.octets@);
        }
        if self.v6 != other.v6 {
            return if other.v6 {
                Rank::Before
            } else {
                Rank::After
            };
        }
        match order::rank(self.octets.as_slice(), other.octets.as_slice()) {
            Rank::Before => {
                proof {
                    order::lex_less_asymmetric(self.octets@, other.octets@);
                }
                Rank::Before
            },
            Rank::After => {
                proof {
                    order::lex_less_asymmetric(other.octets@, self.octets@);
                }
                Rank::After
            },
            Rank::Same => {
                if self.port < other.port {
                    Rank::Before
                } else if other.port < self.port {
                    Rank::After
                } else if self.flow < other.flow {
                    Rank::Before
                } else if other.flow < self.flow {
                    Rank::After
                } else if self.scope < other.scope {
                    Rank::Before
                } else if other.scope < self.scope {
                    Rank::After
                } else {
                    Rank::Same
                }
            },
        }
    }
}

impl SocketAddress {
    /// Whether two addresses are equal.
    pub fn same(&self, other: &Self) -> (r: bool)
        ensures
            r == (*self == *other),
    {
        match self.rank(other) {
            Rank::Same => true,
            _ => false,
        }
    }
}

/// Whether a list holds an address.
pub fn holds_address(list: &Vec<SocketAddress>, addr: &SocketAddress) -> (r: bool)
    ensures
        r == list@.contains(*addr),
{
    let mut i: usize = 0;
    while i < list.len()
        invariant
            i <= list@.len(),
            forall|j: int| 0 <= j < i ==> list@[j] != *addr,
        decreases list@.len() - i,
    {
        if list[i].same(addr) {
            assert(list@[i as int] == *addr);
            return true;
        }
        i = i + 1;
    }
    false
}

/// A list without what occurs earlier in it.
pub open spec fn deduped(list: Seq<SocketAddress>) -> Seq<SocketAddress>
    decreases list.len(),
{
    if list.len() == 0 {
        list
    } else {
        let earlier = deduped(list.drop_last());
        if earlier.contains(list.last()) {
            earlier
        } else {
            earlier.push(list.last())
        }
    }
}

/// Nothing occurs twice in what is left, and nothing is lost.
pub proof fn deduped_holds_each_once(list: Seq<SocketAddress>)
    ensures
        deduped(list).no_duplicates(),
        forall|a: SocketAddress| #[trigger] deduped(list).contains(a) <==> list.contains(a),
        deduped(list).len() <= list.len(),
    decreases list.len(),
{
    let out = deduped(list);
    if list.len() > 0 {
        let short = list.drop_last();
        let last = list.last();
        let earlier = deduped(short);
        deduped_holds_each_once(short);
        assert forall|a: SocketAddress| #[trigger] out.contains(a) <==> list.contains(a) by {
            if out.contains(a) {
                let i = choose|i: int| 0 <= i < out.len() && out[i] == a;
                if i < earlier.len() {
                    assert(earlier[i] == a);
                    assert(earlier.contains(a));
                    let j = choose|j: int| 0 <= j < short.len() && short[j] == a;
                    assert(list[j] == a);
                } else {
                    assert(list[list.len() - 1] == a);
                }
            }
            if list.contains(a) {
                let j = choose|j: int| 0 <= j < list.len() && list[j] == a;
                if j < list.len() - 1 {
                    assert(short[j] == a);
                    assert(earlier.contains(a));
                }
                if earlier.contains(a) {
                    let i = choose|i: int| 0 <= i < earlier.len() && earlier[i] == a;
                    assert(out[i] == a);
                } else {
                    assert(out[out.len() - 1] == a);
                }
            }
        }
    }
}

/// Takes out of a list what occurs earlier in it.
pub fn dedupe_socket_addrs(list: &mut Vec<SocketAddress>)
    ensures
        final(list)@ == deduped(old(list)@),
{
    let ghost all = list@;
    let mut kept: Vec<SocketAddress> = Vec::new();
    let mut i: usize = 0;
    while i < list.len()
        invariant
            list@ == all,
            i <= all.len(),
            kept@ == deduped(all.take(i as int)),
        decreases all.len() - i,
    {
        let addr = list[i];
        proof {
            assert(all.take(i + 1).drop_last() =~= all.take(i as int));
        }
        if !holds_address(&kept, &addr) {
            kept.push(addr);
        }
        i = i + 1;
    }
    proof {
        assert(all.take(i as int) =~= all);
    }
    *list = kept;
}

/// Takes out of a list of nodes what occurs earlier in it.
pub fn dedupe_peers(list: &mut Vec<SocketAddress>)
    ensures
        final(list)@ == deduped(old(list)@),
{
    dedupe_socket_addrs(list);
}

/// What is known of a node: its address, its address in words, how often it
/// failed in a row, from when on to try it (on a clock of milliseconds), and the
/// height of its tip.
#[derive(Clone, Debug, PartialEq, Eq)]
pub struct PeerState {
    pub addr: SocketAddress,
    pub name: String,
    pub failures: u32,
    pub next_attempt: u64,
    pub last_tip: Option<Height>,
}

/// How long a node is left alone after so many failures: twice as long each
/// time, up to a limit.
pub open spec fn retry_delay(failures: u32) -> u64 {
    if failures <= 1 {
        2_000
    } else if failures == 2 {
        4_000
    } else if failures == 3 {
        8_000
    } else if failures == 4 {
        16_000
    } else if failures == 5 {
        32_000
    } else {
        60_000
    }
}

/// One more, up to the largest number.
pub open spec fn one_more(n: u32) -> u32 {
    if n == u32::MAX {
        n
    } else {
        (n + 1) as u32
    }
}

impl PeerState {
    /// A node of which nothing is known yet.
    pub fn new(addr: SocketAddress, name: String, now: u64) -> (r: Self)
        ensures
            r.addr == addr,
            r.name == name,
            r.failures == 0,
            r.next_attempt == now,
            r.last_tip is None,
    {
        PeerState { addr, name, failures: 0, next_attempt: now, last_tip: None }
    }

    /// Notes that the node answered.
    pub fn mark_ok(&mut self, tip: Option<Height>, now: u64)
        requires
            now + DEFAULT_SYNC_INTERVAL <= u64::MAX,
        ensures
            *final(self) == (PeerState {
                failures: 0,
                last_tip: tip,
                next_attempt: (now + DEFAULT_SYNC_INTERVAL) as u64,
                ..*old(self)
            }),
    {
        self.failures = 0;
        self.last_tip = tip;
        self.next_attempt = now + DEFAULT_SYNC_INTERVAL;
    }

    /// Notes that the node failed.
    pub fn mark_failed(&mut self, now: u64)
        requires
            now + PEER_RETRY_MAX <= u64::MAX,
        ensures
            *final(self) == (PeerState {
                failures: one_more(old(self).failures),
                next_attempt: (now + retry_delay(one_more(old(self).failures))) as u64,
                ..*old(self)
            }),
    {
        self.failures = self.failures.saturating_add(1);
        let shift: u32 = if self.failures.saturating_sub(1) < 5 {
            self.failures.saturating_sub(1)
        } else {
            5
        };
        let factor: u64 = if shift == 0 {
            1
        } else if shift == 1 {
            2
        } else if shift == 2 {
            4
        } else if shift == 3 {
            8
        } else if shift == 4 {
            16
        } else {
            32
        };
        let doubled: u64 = PEER_RETRY_BASE * factor;
        let secs: u64 = if doubled < PEER_RETRY_MAX {
            doubled
        } else {
            PEER_RETRY_MAX
        };
        self.next_attempt = now + secs;
    }
}

/// What came of asking a node for its blocks.
#[derive(Clone, Copy, Debug, PartialEq, Eq, Structural)]
pub enum PeerPoll {
    Idle { remote_tip: Height },
    Synced { remote_tip: Height },
}

/// The heights to ask a node for, from the first to the last, or none if it is
/// not ahead.
pub fn blocks_to_request(local_height: u64, remote_tip: Height) -> (r: Option<(u64, u64)>)
    ensures
        r == if remote_tip.0 <= local_height {
            None
        } else if remote_tip.0 <= local_height + MAX_BLOCKS_PER_SYNC {
            Some(((local_height + 1) as u64, remote_tip.0))
        } else {
            Some(((local_height + 1) as u64, (local_height + MAX_BLOCKS_PER_SYNC) as u64))
        },
{
    if remote_tip.0 <= local_height {
        return None;
    }
    let limit: u64 = local_height.saturating_add(MAX_BLOCKS_PER_SYNC);
    let target: u64 = if remote_tip.0 < limit {
        remote_tip.0
    } else {
        limit
    };
    Some((local_height + 1, target))
}

/// The nodes that this node speaks with, by address.
#[derive(Clone, Debug, PartialEq, Eq)]
pub struct PeerTable {
    peers: OrderedMap<SocketAddress, PeerState>,
}

impl View for PeerTable {
    type V = Map<SocketAddress, PeerState>;

    closed spec fn view(&self) -> Map<SocketAddress, PeerState> {
        self.peers@
    }
}

/// An address that another node named: its words and, if they are one, the
/// address.
#[derive(Clone, Debug, PartialEq, Eq)]
pub struct NamedAddress {
    pub name: String,
    pub addr: Option<SocketAddress>,
}

/// The nodes after the first `n` addresses are added: each that is one, that is
/// not this node's own and not known, as long as there is room.
pub open spec fn with_named(
    peers: Map<SocketAddress, PeerState>,
    named: Seq<NamedAddress>,
    public_addrs: Seq<SocketAddress>,
    listen_addrs: Seq<SocketAddress>,
    max_peers: usize,
    now: u64,
    n: int,
) -> Map<SocketAddress, PeerState>
    decreases n,
{
    if n <= 0 {
        peers
    } else {
        let earlier = with_named(
            peers,
            named,
            public_addrs,
            listen_addrs,
            max_peers,
            now,
            n - 1,
        );
        match named[n - 1].addr {
            None => earlier,
            Some(addr) => if earlier.dom().len() >= max_peers || public_addrs.contains(addr)
                || listen_addrs.contains(addr) || earlier.contains_key(addr) {
                earlier
            } else {
                earlier.insert(
                    addr,
                    PeerState {
                        addr,
                        name: named[n - 1].name,
                        failures: 0,
                        next_attempt: now,
                        last_tip: None,
                    },
                )
            },
        }
    }
}

/// Once there is no room, nothing is added.
proof fn no_room_no_change(
    peers: Map<SocketAddress, PeerState>,
    named: Seq<NamedAddress>,
    public_addrs: Seq<SocketAddress>,
    listen_addrs: Seq<SocketAddress>,
    max_peers: usize,
    now: u64,
    k: int,
    n: int,
)
    requires
        0 <= k <= n,
        with_named(peers, named, public_addrs, listen_addrs, max_peers, now, k).dom().len()
            >= max_peers,
    ensures
        with_named(peers, named, public_addrs, listen_addrs, max_peers, now, n) == with_named(
            peers,
            named,
            public_addrs,
            listen_addrs,
            max_peers,
            now,
            k,
        ),
    decreases n,
{
    if k < n {
        no_room_no_change(peers, named, public_addrs, listen_addrs, max_peers, now, k, n - 1);
    }
}

/// Addresses are added one by one: no own address gets in, nothing known
/// leaves or changes, and there are never more nodes than there may be, unless
/// there were before. What is added was named, and starts without failures and
/// without a tip. As long as there is room left, every address that was named
/// and is not the node's own is known.
pub proof fn with_named_keeps_to_the_rules(
    peers: Map<SocketAddress, PeerState>,
    named: Seq<NamedAddress>,
    public_addrs: Seq<SocketAddress>,
    listen_addrs: Seq<SocketAddress>,
    max_peers: usize,
    now: u64,
    n: int,
    a: SocketAddress,
)
    requires
        peers.dom().finite(),
        0 <= n <= named.len(),
    ensures
        ({
            let after = with_named(
                peers,
                named,
                public_addrs,
                listen_addrs,
                max_peers,
                now,
                n,
            );
            &&& after.dom().finite()
            &&& peers.contains_key(a) ==> after.contains_key(a) && after[a] == peers[a]
            &&& after.contains_key(a) && !peers.contains_key(a) ==> !public_addrs.contains(a)
                && !listen_addrs.contains(a)
            &&& after.dom().len() <= max_peers || after.dom().len() == peers.dom().len()
            &&& after.contains_key(a) && !peers.contains_key(a) ==> after[a].failures == 0
                && after[a].last_tip is None && after[a].next_attempt == now && after[a].addr == a
                && exists|k: int|
                0 <= k < n && (#[trigger] named[k]).addr == Some(a) && named[k].name == after[a].name
            &&& forall|k: int|
                0 <= k < n && (#[trigger] named[k]).addr == Some(a) && !public_addrs.contains(a)
                    && !listen_addrs.contains(a) && after.dom().len() < max_peers
                    ==> after.contains_key(a)
        }),
    decreases n,
{
    if n > 0 {
        with_named_keeps_to_the_rules(
            peers,
            named,
            public_addrs,
            listen_addrs,
            max_peers,
            now,
            n - 1,
            a,
        );
    }
}

/// Which nodes have to be tried, in the order of their addresses.
pub open spec fn due(rows: Seq<(SocketAddress, PeerState)>, now: u64) -> Seq<SocketAddress>
    decreases rows.len(),
{
    if rows.len() == 0 {
        Seq::empty()
    } else {
        let earlier = due(rows.drop_last(), now);
        if now >= rows.last().1.next_attempt {
            earlier.push(rows.last().0)
        } else {
            earlier
        }
    }
}

/// Some node's tip is known.
pub open spec fn some_tip_known(rows: Seq<(SocketAddress, PeerState)>) -> bool {
    exists|i: int| 0 <= i < rows.len() && (#[trigger] rows[i]).1.last_tip is Some
}

/// Some node's tip lies above a height.
pub open spec fn some_tip_above(rows: Seq<(SocketAddress, PeerState)>, height: u64) -> bool {
    exists|i: int|
        0 <= i < rows.len() && ((#[trigger] rows[i]).1.last_tip matches Some(tip) && tip.0
            > height)
}

/// Texts in the order of their bytes.
pub struct ByBytes;

impl SortOrder<String> for ByBytes {
    open spec fn before(a: String, b: String) -> bool {
        order::lex_less(vstd::utf8::encode_utf8(a@), vstd::utf8::encode_utf8(b@))
    }

    proof fn irreflexive(a: String) {
        order::lex_less_irreflexive(vstd::utf8::encode_utf8(a@));
    }

    proof fn transitive(a: String, b: String, c: String) {
        order::lex_less_transitive(
            vstd::utf8::encode_utf8(a@),
            vstd::utf8::encode_utf8(b@),
            vstd::utf8::encode_utf8(c@),
        );
    }

    proof fn negatively_transitive(a: String, b: String, c: String) {
        let (x, y, z) = (
            vstd::utf8::encode_utf8(a@),
            vstd::utf8::encode_utf8(b@),
            vstd::utf8::encode_utf8(c@),
        );
        if order::lex_less(x, z) {
            if x != y {
                order::lex_less_total(x, y);
                order::lex_less_transitive(y, x, z);
            }
        }
    }

    fn is_before(a: &String, b: &String) -> (r: bool) {
        match order::rank(a.as_str().as_bytes(), b.as_str().as_bytes()) {
            Rank::Before => true,
            _ => false,
        }
    }
}

/// The names of the nodes, then those of this node's own addresses.
pub open spec fn known_names(
    rows: Seq<(SocketAddress, PeerState)>,
    own: Seq<String>,
) -> Seq<String> {
    Seq::new(rows.len(), |i: int| rows[i].1.name) + own
}

/// A list of texts without those that equal the one before.
pub open spec fn without_repeats(list: Seq<String>) -> Seq<String>
    decreases list.len(),
{
    if list.len() == 0 {
        list
    } else {
        let earlier = without_repeats(list.drop_last());
        if earlier.len() > 0 && earlier.last()@ == list.last()@ {
            earlier
        } else {
            earlier.push(list.last())
        }
    }
}

/// An ordered list of texts without repeats ascends strictly, and no text is
/// lost.
proof fn without_repeats_is_strict(list: Seq<String>)
    requires
        sort::sorted::<String, ByBytes>(list),
    ensures
        ({
            let r = without_repeats(list);
            &&& forall|i: int, j: int|
                0 <= i < j < r.len() ==> ByBytes::before(#[trigger] r[i], #[trigger] r[j])
            &&& forall|i: int|
                0 <= i < list.len() ==> exists|j: int|
                    0 <= j < r.len() && (#[trigger] r[j])@ == (#[trigger] list[i])@
            &&& list.len() > 0 ==> r.len() > 0 && r.last()@ == list.last()@
        }),
    decreases list.len(),
{
    if list.len() > 0 {
        let short = list.drop_last();
        let earlier = without_repeats(short);
        let r = without_repeats(list);
        without_repeats_is_strict(short);
        assert forall|i: int| 0 <= i < list.len() implies exists|j: int|
            0 <= j < r.len() && (#[trigger] r[j])@ == (#[trigger] list[i])@ by {
            if i < short.len() {
                assert(short[i] == list[i]);
                let j = choose|j: int|
                    0 <= j < earlier.len() && (#[trigger] earlier[j])@ == short[i]@;
                assert(r[j] == earlier[j]);
            } else {
                assert(r[r.len() - 1]@ == list[i]@);
            }
        }
        if earlier.len() > 0 && earlier.last()@ != list.last()@ {
            let x = vstd::utf8::encode_utf8(earlier.last()@);
            let y = vstd::utf8::encode_utf8(list.last()@);
            assert(!ByBytes::before(list[list.len() - 1], list[short.len() - 1]));
            vstd::utf8::encode_utf8_decode_utf8(earlier.last()@);
            vstd::utf8::encode_utf8_decode_utf8(list.last()@);
            assert(x != y);
            order::lex_less_total(x, y);
            assert forall|i: int, j: int| 0 <= i < j < r.len() implies ByBytes::before(
                #[trigger] r[i],
                #[trigger] r[j],
            ) by {
                if j < earlier.len() {
                    assert(earlier[i] == r[i] && earlier[j] == r[j]);
                } else if i < earlier.len() - 1 {
                    assert(ByBytes::before(earlier[i], earlier[earlier.len() - 1]));
                    ByBytes::transitive(earlier[i], earlier.last(), list.last());
                }
            }
        }
    }
}

/// The names that a node shares ascend strictly in the order of their bytes, so
/// that each comes once, and every known name is among them.
pub proof fn shared_names_come_once(
    rows: Seq<(SocketAddress, PeerState)>,
    own: Seq<String>,
)
    ensures
        ({
            let names = known_names(rows, own);
            let r = without_repeats(sort::stable_sorted::<String, ByBytes>(names));
            &&& forall|i: int, j: int|
                0 <= i < j < r.len() ==> ByBytes::before(#[trigger] r[i], #[trigger] r[j])
            &&& forall|i: int|
                0 <= i < names.len() ==> exists|j: int|
                    0 <= j < r.len() && (#[trigger] r[j])@ == (#[trigger] names[i])@
        }),
{
    let names = known_names(rows, own);
    let s = sort::stable_sorted::<String, ByBytes>(names);
    let r = without_repeats(s);
    sort::stable_sorted_is_sorted::<String, ByBytes>(names);
    sort::stable_sorted_is_permutation::<String, ByBytes>(names);
    without_repeats_is_strict(s);
    assert forall|i: int| 0 <= i < names.len() implies exists|j: int|
        0 <= j < r.len() && (#[trigger] r[j])@ == (#[trigger] names[i])@ by {
        broadcast use vstd::seq_lib::group_to_multiset_ensures;

        assert(names.contains(names[i]));
        assert(names.to_multiset().count(names[i]) > 0);
        assert(s.contains(names[i]));
        let k = choose|k: int| 0 <= k < s.len() && s[k] == names[i];
        assert(s[k]@ == names[i]@);
    }
}

impl PeerTable {
    /// The nodes lie in the order of their addresses.
    pub closed spec fn wf(&self) -> bool {
        self.peers.wf()
    }

    /// The nodes in the order of their addresses.
    pub closed spec fn rows(&self) -> Seq<(SocketAddress, PeerState)> {
        self.peers.rows()
    }

    /// What holds of every table.
    pub proof fn is_in_order(&self)
        requires
            self.wf(),
        ensures
            ordered_map::ascending(self.rows()),
            self.rows() == ordered_map::rows_of(self@),
            ordered_map::rows_map(self.rows()) == self@,
            self@.dom().finite(),
            self.rows().len() == self@.dom().len(),
    {
        ordered_map::rows_are_rows_of(self.rows());
        ordered_map::rows_count(self.rows());
    }

    /// No node.
    pub fn new() -> (r: Self)
        ensures
            r.wf(),
            r@ == Map::<SocketAddress, PeerState>::empty(),
    {
        PeerTable { peers: OrderedMap::new() }
    }

    /// The number of nodes.
    pub fn len(&self) -> (r: usize)
        requires
            self.wf(),
        ensures
            r == self@.dom().len(),
    {
        proof {
            self.is_in_order();
        }
        self.peers.len()
    }

    /// Notes a node, in the place of what was known of it.
    pub fn insert(&mut self, peer: PeerState)
        requires
            old(self).wf(),
        ensures
            final(self).wf(),
            final(self)@ == old(self)@.insert(peer.addr, peer),
    {
        let addr = peer.addr;
        self.peers.insert(addr, peer);
    }

    /// The addresses of the nodes, in their order.
    pub fn addresses(&self) -> (r: Vec<SocketAddress>)
        ensures
            r@ == Seq::new(self.rows().len(), |i: int| self.rows()[i].0),
    {
        let mut out: Vec<SocketAddress> = Vec::new();
        let mut i: usize = 0;
        while i < self.peers.len()
            invariant
                i <= self.rows().len(),
                out@.len() == i,
                forall|j: int| 0 <= j < i ==> #[trigger] out@[j] == self.rows()[j].0,
            decreases self.rows().len() - i,
        {
            out.push(self.peers.key(i));
            i = i + 1;
        }
        assert(out@ =~= Seq::new(self.rows().len(), |i: int| self.rows()[i].0));
        out
    }

    /// The node at position `i` in the order of addresses.
    pub fn peer_at(&self, i: usize) -> (r: &PeerState)
        requires
            i < self.rows().len(),
        ensures
            *r == self.rows()[i as int].1,
    {
        self.peers.value(i)
    }

    /// The nodes that have to be tried now.
    pub fn due_peers(&self, now: u64) -> (r: Vec<SocketAddress>)
        ensures
            r@ == due(self.rows(), now),
    {
        let mut out: Vec<SocketAddress> = Vec::new();
        let mut i: usize = 0;
        while i < self.peers.len()
            invariant
                i <= self.rows().len(),
                out@ == due(self.rows().take(i as int), now),
            decreases self.rows().len() - i,
        {
            proof {
                assert(self.rows().take(i + 1).drop_last() =~= self.rows().take(i as int));
            }
            if now >= self.peers.value(i).next_attempt {
                out.push(self.peers.key(i));
            }
            i = i + 1;
        }
        proof {
            assert(self.rows().take(i as int) =~= self.rows());
        }
        out
    }

    /// Notes that a node answered, if it is still known.
    pub fn mark_ok(&mut self, addr: &SocketAddress, tip: Height, now: u64)
        requires
            old(self).wf(),
            now + DEFAULT_SYNC_INTERVAL <= u64::MAX,
        ensures
            final(self).wf(),
            final(self)@ == if old(self)@.contains_key(*addr) {
                old(self)@.insert(
                    *addr,
                    PeerState {
                        failures: 0,
                        last_tip: Some(tip),
                        next_attempt: (now + DEFAULT_SYNC_INTERVAL) as u64,
                        ..old(self)@[*addr]
                    },
                )
            } else {
                old(self)@
            },
    {
        let ghost before = self@;
        match self.peers.remove(addr) {
            Some(state) => {
                let mut state = state;
                state.mark_ok(Some(tip), now);
                self.peers.insert(*addr, state);
                proof {
                    assert(self@ =~= before.insert(*addr, state));
                }
            },
            None => {
                proof {
                    assert(self@ =~= before);
                }
            },
        }
    }

    /// Notes that a node failed, if it is still known. After too many failures
    /// in a row it is dropped, which the result says, if `drops` is set.
    pub fn mark_failed(&mut self, addr: &SocketAddress, now: u64, drops: bool) -> (dropped: bool)
        requires
            old(self).wf(),
            now + PEER_RETRY_MAX <= u64::MAX,
        ensures
            final(self).wf(),
            dropped == (drops && old(self)@.contains_key(*addr) && one_more(
                old(self)@[*addr].failures,
            ) >= MAX_PEER_FAILURES),
            final(self)@ == if !old(self)@.contains_key(*addr) {
                old(self)@
            } else if dropped {
                old(self)@.remove(*addr)
            } else {
                old(self)@.insert(
                    *addr,
                    PeerState {
                        failures: one_more(old(self)@[*addr].failures),
                        next_attempt: (now + retry_delay(one_more(old(self)@[*addr].failures))) as u64,
                        ..old(self)@[*addr]
                    },
                )
            },
    {
        let ghost before = self@;
        match self.peers.remove(addr) {
            Some(state) => {
                let mut state = state;
                state.mark_failed(now);
                if drops && state.failures >= MAX_PEER_FAILURES {
                    return true;
                }
                self.peers.insert(*addr, state);
                proof {
                    assert(self@ =~= before.insert(*addr, state));
                }
                false
            },
            None => {
                proof {
                    assert(self@ =~= before);
                }
                false
            },
        }
    }

    /// Whether some node's tip is known.
    pub fn any_tip_known(&self) -> (r: bool)
        ensures
            r == some_tip_known(self.rows()),
    {
        let mut i: usize = 0;
        while i < self.peers.len()
            invariant
                i <= self.rows().len(),
                forall|j: int| 0 <= j < i ==> (#[trigger] self.rows()[j]).1.last_tip is None,
            decreases self.rows().len() - i,
        {
            if self.peers.value(i).last_tip.is_some() {
                assert(self.rows()[i as int].1.last_tip is Some);
                return true;
            }
            i = i + 1;
        }
        false
    }

    /// Whether some node's tip lies above a height.
    pub fn any_tip_above(&self, height: u64) -> (r: bool)
        ensures
            r == some_tip_above(self.rows(), height),
    {
        let mut i: usize = 0;
        while i < self.peers.len()
            invariant
                i <= self.rows().len(),
                forall|j: int|
                    0 <= j < i ==> !((#[trigger] self.rows()[j]).1.last_tip matches Some(tip)
                        && tip.0 > height),
            decreases self.rows().len() - i,
        {
            if let Some(tip) = self.peers.value(i).last_tip {
                if tip.0 > height {
                    assert(self.rows()[i as int].1.last_tip is Some);
                    return true;
                }
            }
            i = i + 1;
        }
        false
    }

    /// Adds the addresses that another node named, as long as there is room.
    /// Says whether one was added.
    pub fn add_peer_infos(
        &mut self,
        named: Vec<NamedAddress>,
        public_addrs: &Vec<SocketAddress>,
        listen_addrs: &Vec<SocketAddress>,
        max_peers: usize,
        now: u64,
    ) -> (changed: bool)
        requires
            old(self).wf(),
        ensures
            final(self).wf(),
            final(self)@ == with_named(
                old(self)@,
                named@,
                public_addrs@,
                listen_addrs@,
                max_peers,
                now,
                named@.len() as int,
            ),
            changed == (final(self)@.dom().len() > old(self)@.dom().len()),
    {
        let ghost start = self@;
        let mut changed = false;
        let mut i: usize = 0;
        proof {
            self.is_in_order();
        }
        while i < named.len()
            invariant
                self.wf(),
                i <= named@.len(),
                start.dom().finite(),
                start == old(self)@,
                self@ == with_named(
                    start,
                    named@,
                    public_addrs@,
                    listen_addrs@,
                    max_peers,
                    now,
                    i as int,
                ),
                changed == (self@.dom().len() > start.dom().len()),
                self@.dom().len() >= start.dom().len(),
            decreases named@.len() - i,
        {
            proof {
                self.is_in_order();
            }
            if self.peers.len() >= max_peers {
                proof {
                    no_room_no_change(
                        start,
                        named@,
                        public_addrs@,
                        listen_addrs@,
                        max_peers,
                        now,
                        i as int,
                        named@.len() as int,
                    );
                }
                return changed;
            }
            if let Some(addr) = named[i].addr {
                if !holds_address(public_addrs, &addr) && !holds_address(listen_addrs, &addr)
                    && !self.peers.contains_key(&addr) {
                    let name = named[i].name.clone();
                    self.peers.insert(addr, PeerState::new(addr, name, now));
                    changed = true;
                }
            }
            i = i + 1;
        }
        changed
    }

    /// The names of all nodes and of this node's own addresses, in the order of
    /// their bytes, each once.
    pub fn peer_infos(&self, own: &Vec<String>) -> (r: Vec<PeerInfo>)
        ensures
            r@.len() == without_repeats(
                sort::stable_sorted::<String, ByBytes>(known_names(self.rows(), own@)),
            ).len(),
            forall|i: int|
                0 <= i < r@.len() ==> (#[trigger] r@[i]).address@ == without_repeats(
                    sort::stable_sorted::<String, ByBytes>(known_names(self.rows(), own@)),
                )[i]@,
    {
        let mut names: Vec<String> = Vec::new();
        let mut i: usize = 0;
        while i < self.peers.len()
            invariant
                i <= self.rows().len(),
                names@ == Seq::new(i as nat, |j: int| self.rows()[j].1.name),
            decreases self.rows().len() - i,
        {
            names.push(self.peers.value(i).name.clone());
            i = i + 1;
            assert(names@ =~= Seq::new(i as nat, |j: int| self.rows()[j].1.name));
        }
        let ghost head = names@;
        let mut k: usize = 0;
        while k < own.len()
            invariant
                k <= own@.len(),
                names@ == head + own@.take(k as int),
            decreases own@.len() - k,
        {
            names.push(own[k].clone());
            k = k + 1;
            assert(names@ =~= head + own@.take(k as int));
        }
        proof {
            assert(names@ =~= known_names(self.rows(), own@));
        }
        let sorted = sort::stable_sort::<String, ByBytes>(names);
        let ghost all = sorted@;
        let mut infos: Vec<PeerInfo> = Vec::new();
        let mut n: usize = 0;
        while n < sorted.len()
            invariant
                sorted@ == all,
                n <= all.len(),
                infos@.len() == without_repeats(all.take(n as int)).len(),
                forall|j: int|
                    0 <= j < infos@.len() ==> (#[trigger] infos@[j]).address@ == without_repeats(
                        all.take(n as int),
                    )[j]@,
            decreases all.len() - n,
        {
            proof {
                assert(all.take(n + 1).drop_last() =~= all.take(n as int));
                assert(all.take(n + 1).last() == all[n as int]);
            }
            let ghost earlier = without_repeats(all.take(n as int));
            let repeated = if infos.len() > 0 {
                proof {
                    assert(infos@[infos@.len() - 1].address@ == earlier[earlier.len() - 1]@);
                }
                text::same_text(infos[infos.len() - 1].address.as_str(), sorted[n].as_str())
            } else {
                false
            };
            if !repeated {
                let ghost before = infos@;
                infos.push(PeerInfo { address: sorted[n].clone() });
                proof {
                    let now = without_repeats(all.take(n + 1));
                    assert(now == earlier.push(all[n as int]));
                    assert forall|j: int| 0 <= j < infos@.len() implies (
                    #[trigger] infos@[j]).address@ == now[j]@ by {
                        if j < before.len() {
                            assert(infos@[j] == before[j]);
                            assert(now[j] == earlier[j]);
                        }
                    }
                }
            }
            n = n + 1;
        }
        proof {
            assert(all.take(n as int) =~= all);
        }
        infos
    }
}

} // verus!
