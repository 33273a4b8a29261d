//! A typed access layer over an embedded SQL engine: binding native values into
//! prepared statements, decoding typed rows, per-thread connections and
//! savepoint-scoped transactions.
//!
//! The engine itself is reached through the [`engine::Engine`] trait, one method per
//! native call. Nothing is assumed of what those calls return: every contract below
//! holds for every answer the engine may give, and is stated over the log of native
//! calls that each statement keeps.

pub mod bindable;
pub mod connection;
pub mod engine;
pub mod result;
pub mod schema;
pub mod statement;
pub mod thread_safe_connection;
pub mod transaction;

pub use bindable::{Bind, Column, Double};
pub use connection::Connection;
pub use engine::{Engine, Event, Param};
pub use result::{Error, Result};
pub use schema::{Contacts, Db, IntegerColumn, TextColumn};
pub use statement::{SqlType, Statement, StepResult};
pub use thread_safe_connection::ThreadSafeConnection;
pub use transaction::Transaction;
