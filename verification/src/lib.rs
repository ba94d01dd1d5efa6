//! Rollback-safe storage and ingestion engine for a UTxO-based chain
//! follower.
//!
//! The engine keeps a bounded suffix of the chain verbatim (the volatile
//! store) so that rollbacks up to a configured depth can be replayed in
//! reverse, and coordinates a list of pluggable indexers that project
//! filtered on-chain data into their own tables.
//!
//! The store lives in [`db`], with its state machine contracts; the
//! indexer contract is [`indexer`], and [`utxo`] holds the reference
//! indexer with its filter-soundness proof, and [`oracle_indexer`] the
//! second one, projecting one policy's priced outputs and their
//! decodable datums. The chain entities live in
//! [`tx`], [`asset`], [`script`], [`point`] and [`volatile`]; [`sync`]
//! holds the decision core of the chain-sync pipeline and the writer;
//! [`env`] the memory-map resize plan; [`oracle`] the oracle datum
//! model with its datum decoder; and [`laws`] the engine-wide theorems.

pub mod asset;
pub mod db;
pub mod env;
pub mod indexer;
pub mod laws;
pub mod hash;
pub mod oracle;
pub mod oracle_indexer;
pub mod point;
pub mod script;
pub mod sync;
pub mod table;
pub mod tx;
pub mod utxo;
pub mod volatile;
