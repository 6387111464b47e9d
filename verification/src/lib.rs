//! Cross-checking of proofs of indexing.
//!
//! Independent indexers that process the same subgraph deployment up to the
//! same block must arrive at the same proof of indexing, a 32-byte digest of
//! what they have derived. This library holds the rules by which a fleet of
//! indexers is held to that: which block to compare at, what to ask of whom,
//! how far the indexers agree, where two of them first diverged, and what
//! the store of proofs of indexing may and may not hold.
//!
//! The library asks nothing of the network and keeps nothing on disk. Where
//! work alternates with waiting, as in a bisection, it is a state machine
//! that its caller drives.
//!
//! - [`types`], [`models`]: the values that flow through, and the rows of the store.
//! - [`hexcodec`], [`text`], [`ordering`]: hexadecimal and decimal text, and the order of byte strings.
//! - [`block_choice`]: the one block per deployment at which indexers are compared.
//! - [`polling`]: what a round of polling asks, and what its answers amount to.
//! - [`indexer_queries`], [`indexer_client`]: what is put to an indexer, and what its answers mean.
//! - [`agreement`]: majorities among the live proofs of indexing of a deployment.
//! - [`bisect`], [`evidence`], [`report`]: the search for the first diverging block, and its report.
//! - [`rows`], [`writes`], [`report_table`], [`store`]: the tables of the store and their rules.
//! - [`retry`], [`error`]: when a failed write is tried again, and the kinds of failure.

pub mod agreement;
pub mod bisect;
pub mod block_choice;
pub mod error;
pub mod evidence;
pub mod hexcodec;
pub mod indexer_client;
pub mod indexer_queries;
pub mod models;
pub mod ordering;
pub mod polling;
pub mod report;
pub mod report_table;
pub mod retry;
pub mod rows;
pub mod store;
pub mod text;
pub mod types;
pub mod writes;
