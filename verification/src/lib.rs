//! The verified core of a full node for the Paqus network.

pub mod answers;
pub mod apply;
pub mod branch;
pub mod cache;
pub mod chain_laws;
pub mod chain_storage;
pub mod cli;
pub mod clock;
pub mod codec;
pub mod command_laws;
pub mod display;
pub mod errors;
pub mod explorer;
pub mod fork_index;
pub mod handler;
pub mod http;
pub mod http_laws;
pub mod import;
pub mod import_laws;
pub mod layout_laws;
pub mod ledger;
pub mod mempool;
pub mod mempool_laws;
pub mod message;
pub mod miner;
pub mod mining;
pub mod node;
pub mod node_laws;
pub mod order;
pub mod ordered_map;
pub mod orphans;
pub mod params;
pub mod parse;
pub mod payment;
pub mod peers;
pub mod peers_file;
pub mod polling;
pub mod recovery_laws;
pub mod request_laws;
pub mod rpc;
pub mod rpc_laws;
pub mod run_config;
pub mod run_loop;
pub mod selection;
pub mod service;
pub mod service_laws;
pub mod sort;
pub mod storage;
pub mod storage_laws;
pub mod tables;
pub mod text;
pub mod text_laws;
pub mod transport;
pub mod types;
pub mod waiting_laws;
pub mod wallet;
