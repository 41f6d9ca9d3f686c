//! The store and its transactions.

pub mod ds;
pub mod tx;

pub use self::ds::Datastore;
pub use self::tx::{Record, RecordView, ScopeDefinition, ScopeDefinitionView, Transaction};
