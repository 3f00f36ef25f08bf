# paqus_node

The core of a full node for the Paqus network, written and proved in Verus: the
mempool and its fee policy, the choice of transactions for a block, block import
with reorganisations and orphans, the tables of the chain database, the peer
table, the wire format, the command line, the run configuration, and what the
RPC answers.

## Layout

- `src/` is the library. Everything in it is verified.
  - `types`, `params`, `ledger`: plain values of the chain.
  - `order`, `ordered_map`, `sort`, `text`, `codec`, `parse`: the ground floor.
  - `mempool`, `selection`, `miner`, `mining`: pending transactions and new blocks.
  - `tables`, `storage`, `chain_storage`, `cache`: what is kept, and where.
  - `node`, `import`, `apply`, `branch`, `orphans`, `fork_index`: blocks coming in.
  - `message`, `transport`, `handler`, `peers`, `polling`, `peers_file`: other nodes.
  - `run_config`, `cli`, `payment`, `wallet`, `http`, `explorer`: the program's inputs.
  - `service`, `run_loop`, `rpc`, `answers`, `display`, `errors`: the running node.
  - `mempool_laws`, `storage_laws`, `import_laws`, `waiting_laws`: what holds across
    functions.
- `tests/` runs the library on concrete values.
- `app/` is the program around it: sockets, files, LMDB, HTTP, libp2p, and the
  `paqus` crate with the chain's own rules.

## How the library meets the outside

Ledger, fork choice, proof of work and signatures are computed by the `paqus`
crate. The library holds what its decisions read of them as plain values, and
asks for what it needs step by step: `Node::import_step`, `BranchBuild::step`,
`Poll::step`, `MiningRun` and `ServiceState::next_task` each take what happened
and return the next action, which `app/` performs.

`Storage` is a set of tables in memory that names every row it changes;
`app/store.rs` reads the tables from LMDB and writes the named rows back.

What is believed without proof is small: the clock, `Arc::clone`, number and
UTF-8 parsing of the standard library, hexadecimal digits from `hex`, the
encoding of two integer types from `borsh`, and what `serde_json` makes of an
answer for the explorer. Each stands in a function of its own whose comment says
what is claimed.
