//! forge: the coordination logic of a batch-inference work distributor.
//!
//! A batch is one fan-out of independent items, each keyed by a caller-supplied
//! `custom_id`. The modules hold what decides: how an item is read, leased, dispatched,
//! retried, stored and accounted for, and how batches are offered over HTTP. Files,
//! sockets, databases and clocks are the callers' part.

pub mod agent;
pub mod aimd;
pub mod batch_run;
pub mod big;
pub mod bucket;
pub mod cli;
pub mod clock;
pub mod cooldown;
pub mod coordinator;
pub mod cost;
pub mod decimal;
pub mod delivery;
pub mod dispatch;
pub mod double;
pub mod duration;
pub mod error;
pub mod failure;
pub mod fleet;
pub mod front_door;
pub mod id_set;
pub mod import;
pub mod ingest;
pub mod item;
pub mod json;
pub mod load;
pub mod objstore;
pub mod openai;
pub mod paths;
pub mod queue;
pub mod redb_queue;
pub mod redb_tables;
pub mod registry;
pub mod report;
pub mod result;
pub mod retry;
pub mod rows;
pub mod run;
pub mod server;
pub mod spot;
pub mod sqlite;
pub mod state;
pub mod store;
pub mod table;
pub mod text;
pub mod types;
pub mod validate;
pub mod verify;
pub mod wire;
pub mod worker;
