//! SQLite storage: the rules by which an account's state is written to, read from and
//! kept apart in a SQLite database.
//!
//! The store's operations are plans ([`plan`]): statements and queries as data ([`sql`]) over
//! the tables of [`schema`], with the queue, the transaction and the retries they run under.
//! What a plan does is stated over a model of the database ([`model`]): rows by their keys, and
//! what each statement leaves of them. Where an operation has to look before it writes, a small
//! function decides from the rows that came back. What came back is read by the answers beside
//! each operation.
//!
//! Opening a database ([`open`]), the write queue ([`retry`]) and maintenance ([`upkeep`]) are
//! state machines: they say what to do next, and are told how it ended.
//!
//! What a caller may rely on is stated as laws: of accounts and keys ([`promises`]), of everything
//! else that is stored ([`holdings`]), of several operations together ([`laws`]), of values
//! ([`representation`]), of statements and their text ([`meaning`]), and of a store as it runs
//! ([`running`]).

pub mod account;
pub mod app_state;
pub mod binding;
pub mod cast;
pub mod config;
pub mod device;
pub mod effects;
pub mod error;
pub mod groups;
pub mod holdings;
pub mod keys;
pub mod laws;
pub mod load;
pub mod location;
pub mod mapping;
pub mod meaning;
pub mod merge;
pub mod model;
pub mod open;
pub mod outbox;
pub mod pattern;
pub mod plan;
pub mod promises;
pub mod registry;
pub mod representation;
pub mod retry;
pub mod rows;
pub mod running;
pub mod schema;
pub mod secrets;
pub mod signal;
pub mod sql;
pub mod store;
pub mod text;
pub mod tokens;
pub mod upkeep;
pub mod value;
