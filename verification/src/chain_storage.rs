//! The rows in which a chain is kept as bytes: blocks by height and by hash,
//! transactions and where they stand, accounts, and the tip.

use crate::codec;
use crate::run_config::copy_bytes;
use crate::text;
use crate::types::{self, Account, Block, BlockHash, Digest, Height, SignedTransaction};
use vstd::bytes;
use vstd::prelude::*;
use vstd::string::*;

verus! {

/// The tables of a chain.
#[derive(Clone, Copy, Debug, PartialEq, Eq, Structural)]
pub enum Table {
    BlocksByHeight,
    BlocksByHash,
    Txs,
    TxIndex,
    Accounts,
    Meta,
}

/// A row that is to be written: its table, its key and its value.
#[derive(Debug, PartialEq, Eq)]
pub struct Put {
    pub table: Table,
    pub key: Vec<u8>,
    pub value: Vec<u8>,
}

/// The same, as it is spoken of.
#[verifier::ext_equal]
pub struct Row {
    pub table: Table,
    pub key: Seq<u8>,
    pub value: Seq<u8>,
}

impl View for Put {
    type V = Row;

    open spec fn view(&self) -> Row {
        Row { table: self.table, key: self.key@, value: self.value@ }
    }
}

/// The rows in a list.
pub open spec fn rows_in(puts: Seq<Put>) -> Seq<Row> {
    Seq::new(puts.len(), |i: int| puts[i]@)
}

/// What is stored after rows are written, the last on a key counting.
pub open spec fn written(stored: Map<(Table, Seq<u8>), Seq<u8>>, rows: Seq<Row>) -> Map<
    (Table, Seq<u8>),
    Seq<u8>,
>
    decreases rows.len(),
{
    if rows.len() == 0 {
        stored
    } else {
        written(stored, rows.drop_last()).insert(
            (rows.last().table, rows.last().key),
            rows.last().value,
        )
    }
}

/// Where a transaction stands: the height and the hash of its block.
#[derive(Clone, Copy, Debug, PartialEq, Eq)]
pub struct TxLocation {
    pub height: Height,
    pub block_hash: BlockHash,
}

/// The bytes of a place: the height, the least significant byte first, and the
/// hash.
pub open spec fn location_bytes(location: TxLocation) -> Seq<u8> {
    bytes::spec_u64_to_le_bytes(location.height.0) + location.block_hash.0@
}

fn append_bytes(out: &mut Vec<u8>, more: &[u8])
    ensures
        final(out)@ == old(out)@ + more@,
{
    let mut i: usize = 0;
    while i < more.len()
        invariant
            i <= more@.len(),
            out@ == old(out)@ + more@.take(i as int),
        decreases more@.len() - i,
    {
        out.push(more[i]);
        i = i + 1;
        assert(out@ =~= old(out)@ + more@.take(i as int));
    }
    assert(more@.take(i as int) =~= more@);
}

impl TxLocation {
    /// The bytes of the place.
    pub fn to_bytes(&self) -> (r: Vec<u8>)
        ensures
            r@ == location_bytes(*self),
    {
        let mut out = codec::encode_u64(self.height.0);
        append_bytes(&mut out, self.block_hash.0.as_slice());
        out
    }

    /// The place with the given bytes.
    pub fn from_bytes(s: &[u8]) -> (r: Option<TxLocation>)
        ensures
            match r {
                Some(location) => s@ == location_bytes(location),
                None => forall|location: TxLocation| s@ != #[trigger] location_bytes(location),
            },
    {
        proof {
            bytes::lemma_auto_spec_u64_to_from_le_bytes();
        }
        if s.len() != 72 {
            return None;
        }
        let front = vstd::slice::slice_subrange(s, 0, 8);
        let back = vstd::slice::slice_subrange(s, 8, 72);
        match (codec::decode_u64(front), types::hash_from_slice(back)) {
            (Ok(height), Some(block_hash)) => {
                let location = TxLocation { height: Height(height), block_hash };
                assert(s@ =~= location_bytes(location));
                Some(location)
            },
            _ => None,
        }
    }
}

/// The place that is written is the place that is read.
pub proof fn written_location_is_read(a: TxLocation, b: TxLocation)
    ensures
        location_bytes(a) == location_bytes(b) ==> a.height == b.height && a.block_hash.0@
            == b.block_hash.0@,
        location_bytes(a).len() == 72,
{
    bytes::lemma_auto_spec_u64_to_from_le_bytes();
    if location_bytes(a) == location_bytes(b) {
        assert(location_bytes(a).take(8) =~= bytes::spec_u64_to_le_bytes(a.height.0));
        assert(location_bytes(b).take(8) =~= bytes::spec_u64_to_le_bytes(b.height.0));
        assert(location_bytes(a).skip(8) =~= a.block_hash.0@);
        assert(location_bytes(b).skip(8) =~= b.block_hash.0@);
    }
}

/// The rows of a transaction: its bytes, and, if it stands in a block, where.
pub open spec fn transaction_rows(
    hash: Digest,
    encoded: Seq<u8>,
    location: Option<TxLocation>,
) -> Seq<Row> {
    let own = Row { table: Table::Txs, key: hash.0@, value: encoded };
    match location {
        Some(location) => seq![
            own,
            Row { table: Table::TxIndex, key: hash.0@, value: location_bytes(location) },
        ],
        None => seq![own],
    }
}

/// The location that a height and a block hash give, if both are there.
pub open spec fn location_of(height: Option<Height>, block_hash: Option<Digest>) -> Option<
    TxLocation,
> {
    match (height, block_hash) {
        (Some(height), Some(block_hash)) => Some(TxLocation { height, block_hash }),
        _ => None,
    }
}

/// The rows to write for a transaction with the given bytes.
pub fn save_transaction(
    transaction: &SignedTransaction,
    encoded: Vec<u8>,
    height: Option<Height>,
    block_hash: Option<BlockHash>,
) -> (r: Vec<Put>)
    ensures
        rows_in(r@) == transaction_rows(
            transaction.hash,
            encoded@,
            location_of(height, block_hash),
        ),
{
    let mut puts: Vec<Put> = Vec::new();
    let key = digest_key(&transaction.hash);
    puts.push(Put { table: Table::Txs, key, value: encoded });
    match (height, block_hash) {
        (Some(height), Some(block_hash)) => {
            let location = TxLocation { height, block_hash };
            puts.push(
                Put {
                    table: Table::TxIndex,
                    key: digest_key(&transaction.hash),
                    value: location.to_bytes(),
                },
            );
        },
        _ => {},
    }
    assert(rows_in(puts@) =~= transaction_rows(
        transaction.hash,
        encoded@,
        location_of(height, block_hash),
    ));
    puts
}

fn digest_key(hash: &Digest) -> (r: Vec<u8>)
    ensures
        r@ == hash.0@,
{
    let mut key: Vec<u8> = Vec::new();
    append_bytes(&mut key, hash.0.as_slice());
    assert(key@ =~= hash.0@);
    key
}

fn text_key(text: &str) -> (r: Vec<u8>)
    ensures
        r@ == vstd::utf8::encode_utf8(text@),
{
    text.as_bytes_vec()
}

/// The key of the height of the tip.
pub open spec fn tip_height_key() -> Seq<u8> {
    vstd::utf8::encode_utf8("tip_height"@)
}

/// The key of the hash of the tip.
pub open spec fn tip_hash_key() -> Seq<u8> {
    vstd::utf8::encode_utf8("tip_hash"@)
}

/// The rows of a block without its transactions.
pub open spec fn header_rows(block: Block, encoded: Seq<u8>) -> Seq<Row> {
    seq![
        Row {
            table: Table::BlocksByHeight,
            key: codec::be64(block.data.height.0),
            value: encoded,
        },
        Row { table: Table::BlocksByHash, key: block.data.hash.0@, value: encoded },
        Row {
            table: Table::Meta,
            key: tip_height_key(),
            value: codec::be64(block.data.height.0),
        },
        Row { table: Table::Meta, key: tip_hash_key(), value: block.data.hash.0@ },
    ]
}

/// The rows of the first `n` transactions of a block.
pub open spec fn body_rows(block: Block, transactions: Seq<Vec<u8>>, n: int) -> Seq<Row>
    decreases n,
{
    if n <= 0 {
        Seq::empty()
    } else {
        body_rows(block, transactions, n - 1) + transaction_rows(
            block.data.transactions@[n - 1].hash,
            transactions[n - 1]@,
            Some(TxLocation { height: block.data.height, block_hash: block.data.hash }),
        )
    }
}

/// The rows of a block: by its height and its hash, as the tip, and each of its
/// transactions.
pub open spec fn block_rows(block: Block, encoded: Seq<u8>, transactions: Seq<Vec<u8>>) -> Seq<
    Row,
> {
    header_rows(block, encoded) + body_rows(
        block,
        transactions,
        block.data.transactions@.len() as int,
    )
}

/// The rows to write for a block with the given bytes, its transactions having
/// theirs.
pub fn save_block(block: &Block, encoded: Vec<u8>, transactions: &Vec<Vec<u8>>) -> (r: Vec<Put>)
    requires
        transactions@.len() == block.data.transactions@.len(),
    ensures
        rows_in(r@) == block_rows(*block, encoded@, transactions@),
{
    let height = block.height();
    let hash = block.hash();
    let mut puts: Vec<Put> = Vec::new();
    puts.push(
        Put {
            table: Table::BlocksByHeight,
            key: codec::u64_to_be_bytes(height.0),
            value: copy_bytes(&encoded),
        },
    );
    puts.push(Put { table: Table::BlocksByHash, key: digest_key(&hash), value: encoded });
    puts.push(
        Put {
            table: Table::Meta,
            key: text_key("tip_height"),
            value: codec::u64_to_be_bytes(height.0),
        },
    );
    puts.push(Put { table: Table::Meta, key: text_key("tip_hash"), value: digest_key(&hash) });
    proof {
        assert(rows_in(puts@) =~= header_rows(*block, encoded@));
        assert(header_rows(*block, encoded@) + Seq::<Row>::empty() =~= header_rows(
            *block,
            encoded@,
        ));
    }
    let mut i: usize = 0;
    while i < transactions.len()
        invariant
            i <= transactions@.len(),
            transactions@.len() == block.data.transactions@.len(),
            height == block.data.height,
            hash == block.data.hash,
            rows_in(puts@) == header_rows(*block, encoded@) + body_rows(
                *block,
                transactions@,
                i as int,
            ),
        decreases transactions@.len() - i,
    {
        let ghost before = puts@;
        let transaction = block.transaction(i);
        let mut more = save_transaction(
            &transaction,
            copy_bytes(&transactions[i]),
            Some(height),
            Some(hash),
        );
        let ghost added = more@;
        puts.append(&mut more);
        proof {
            assert(rows_in(puts@) =~= rows_in(before) + rows_in(added));
            assert(rows_in(puts@) =~= header_rows(*block, encoded@) + body_rows(
                *block,
                transactions@,
                i + 1,
            ));
        }
        i = i + 1;
    }
    puts
}

/// The row to write for an account with the given bytes.
pub fn save_account(account: &Account, encoded: Vec<u8>) -> (r: Put)
    ensures
        r@ == (Row { table: Table::Accounts, key: account.address.0@, value: encoded@ }),
{
    let mut key: Vec<u8> = Vec::new();
    append_bytes(&mut key, account.address.0.as_slice());
    assert(key@ =~= account.address.0@);
    Put { table: Table::Accounts, key, value: encoded }
}

/// What a load gives: nothing where there is no row, else what its bytes are, or
/// the words for bytes that are none; `words` open them.
pub fn loaded<T>(decoded: Option<Result<T, String>>, words: &str) -> (r: Result<Option<T>, String>)
    ensures
        match decoded {
            None => r == Ok::<Option<T>, String>(None),
            Some(Ok(value)) => r == Ok::<Option<T>, String>(Some(value)),
            Some(Err(error)) => r matches Err(refusal) && refusal@ == words@ + error@,
        },
{
    match decoded {
        None => Ok(None),
        Some(Ok(value)) => Ok(Some(value)),
        Some(Err(error)) => Err(text::join2(words, error.as_str())),
    }
}

/// Rows are written one after the other.
proof fn written_in_turn(stored: Map<(Table, Seq<u8>), Seq<u8>>, a: Seq<Row>, b: Seq<Row>)
    ensures
        written(stored, a + b) == written(written(stored, a), b),
    decreases b.len(),
{
    if b.len() == 0 {
        assert(a + b =~= a);
    } else {
        assert((a + b).drop_last() =~= a + b.drop_last());
        written_in_turn(stored, a, b.drop_last());
    }
}

/// The rows of transactions touch no other table.
proof fn body_keeps_other_tables(
    stored: Map<(Table, Seq<u8>), Seq<u8>>,
    block: Block,
    transactions: Seq<Vec<u8>>,
    n: int,
    table: Table,
    key: Seq<u8>,
)
    requires
        table != Table::Txs && table != Table::TxIndex,
        0 <= n,
    ensures
        ({
            let after = written(stored, body_rows(block, transactions, n));
            &&& after.contains_key((table, key)) == stored.contains_key((table, key))
            &&& after[(table, key)] == stored[(table, key)]
        }),
    decreases n,
{
    if n > 0 {
        body_keeps_other_tables(stored, block, transactions, n - 1, table, key);
        let rows = transaction_rows(
            block.data.transactions@[n - 1].hash,
            transactions[n - 1]@,
            Some(TxLocation { height: block.data.height, block_hash: block.data.hash }),
        );
        let before = written(stored, body_rows(block, transactions, n - 1));
        written_in_turn(stored, body_rows(block, transactions, n - 1), rows);
        two_rows_written(before, rows[0], rows[1]);
        assert(rows =~= seq![rows[0], rows[1]]);
    }
}

/// Two rows written one after the other.
proof fn two_rows_written(stored: Map<(Table, Seq<u8>), Seq<u8>>, a: Row, b: Row)
    ensures
        written(stored, seq![a, b]) == stored.insert((a.table, a.key), a.value).insert(
            (b.table, b.key),
            b.value,
        ),
{
    assert(seq![a, b].drop_last() =~= seq![a]);
    assert(seq![a].drop_last() =~= Seq::<Row>::empty());
    reveal_with_fuel(written, 3);
}

/// A block that was saved is what is stored at its height and at its hash, and
/// it is the tip.
pub proof fn saved_block_is_stored(
    stored: Map<(Table, Seq<u8>), Seq<u8>>,
    block: Block,
    encoded: Seq<u8>,
    transactions: Seq<Vec<u8>>,
)
    ensures
        ({
            let after = written(stored, block_rows(block, encoded, transactions));
            let height = codec::be64(block.data.height.0);
            &&& after.contains_key((Table::BlocksByHeight, height))
            &&& after[(Table::BlocksByHeight, height)] == encoded
            &&& after.contains_key((Table::BlocksByHash, block.data.hash.0@))
            &&& after[(Table::BlocksByHash, block.data.hash.0@)] == encoded
            &&& after.contains_key((Table::Meta, tip_height_key()))
            &&& after[(Table::Meta, tip_height_key())] == height
            &&& after.contains_key((Table::Meta, tip_hash_key()))
            &&& after[(Table::Meta, tip_hash_key())] == block.data.hash.0@
        }),
{
    let head = header_rows(block, encoded);
    let n = block.data.transactions@.len() as int;
    let body = body_rows(block, transactions, n);
    let height = codec::be64(block.data.height.0);
    written_in_turn(stored, head, body);
    let first = written(stored, head);
    body_keeps_other_tables(first, block, transactions, n, Table::BlocksByHeight, height);
    body_keeps_other_tables(
        first,
        block,
        transactions,
        n,
        Table::BlocksByHash,
        block.data.hash.0@,
    );
    body_keeps_other_tables(first, block, transactions, n, Table::Meta, tip_height_key());
    body_keeps_other_tables(first, block, transactions, n, Table::Meta, tip_hash_key());
    assert(head =~= seq![head[0], head[1]] + seq![head[2], head[3]]);
    written_in_turn(stored, seq![head[0], head[1]], seq![head[2], head[3]]);
    two_rows_written(stored, head[0], head[1]);
    two_rows_written(written(stored, seq![head[0], head[1]]), head[2], head[3]);
    tip_keys_differ();
}

/// The two keys of the tip are different.
proof fn tip_keys_differ()
    ensures
        tip_height_key() != tip_hash_key(),
{
    reveal_strlit("tip_height");
    reveal_strlit("tip_hash");
    vstd::utf8::encode_utf8_decode_utf8("tip_height"@);
    vstd::utf8::encode_utf8_decode_utf8("tip_hash"@);
    assert("tip_height"@.len() == 10);
    assert("tip_hash"@.len() == 8);
}

/// After a block was saved, each of its transactions is stored with its bytes,
/// and with the block as its place, if its hash is its own in the block.
pub proof fn saved_transaction_is_stored(
    stored: Map<(Table, Seq<u8>), Seq<u8>>,
    block: Block,
    encoded: Seq<u8>,
    transactions: Seq<Vec<u8>>,
    i: int,
)
    requires
        0 <= i < block.data.transactions@.len(),
        forall|j: int|
            0 <= j < block.data.transactions@.len() && j != i ==> (
            #[trigger] block.data.transactions@[j]).hash.0@
                != block.data.transactions@[i].hash.0@,
    ensures
        ({
            let after = written(stored, block_rows(block, encoded, transactions));
            let key = block.data.transactions@[i].hash.0@;
            &&& after.contains_key((Table::Txs, key))
            &&& after[(Table::Txs, key)] == transactions[i]@
            &&& after.contains_key((Table::TxIndex, key))
            &&& after[(Table::TxIndex, key)] == location_bytes(
                TxLocation { height: block.data.height, block_hash: block.data.hash },
            )
        }),
{
    let head = header_rows(block, encoded);
    let n = block.data.transactions@.len() as int;
    written_in_turn(stored, head, body_rows(block, transactions, n));
    body_stores_transaction(written(stored, head), block, transactions, n, i);
}

proof fn body_stores_transaction(
    stored: Map<(Table, Seq<u8>), Seq<u8>>,
    block: Block,
    transactions: Seq<Vec<u8>>,
    n: int,
    i: int,
)
    requires
        0 <= i < n <= block.data.transactions@.len(),
        forall|j: int|
            0 <= j < block.data.transactions@.len() && j != i ==> (
            #[trigger] block.data.transactions@[j]).hash.0@
                != block.data.transactions@[i].hash.0@,
    ensures
        ({
            let after = written(stored, body_rows(block, transactions, n));
            let key = block.data.transactions@[i].hash.0@;
            &&& after.contains_key((Table::Txs, key))
            &&& after[(Table::Txs, key)] == transactions[i]@
            &&& after.contains_key((Table::TxIndex, key))
            &&& after[(Table::TxIndex, key)] == location_bytes(
                TxLocation { height: block.data.height, block_hash: block.data.hash },
            )
        }),
    decreases n,
{
    let rows = transaction_rows(
        block.data.transactions@[n - 1].hash,
        transactions[n - 1]@,
        Some(TxLocation { height: block.data.height, block_hash: block.data.hash }),
    );
    let before = written(stored, body_rows(block, transactions, n - 1));
    written_in_turn(stored, body_rows(block, transactions, n - 1), rows);
    assert(rows =~= seq![rows[0], rows[1]]);
    two_rows_written(before, rows[0], rows[1]);
    if i < n - 1 {
        body_stores_transaction(stored, block, transactions, n - 1, i);
        assert(block.data.transactions@[n - 1].hash.0@ != block.data.transactions@[i].hash.0@);
    }
}

} // verus!
