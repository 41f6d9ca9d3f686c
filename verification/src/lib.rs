//! The statement execution core of a multi-tenant document database:
//! the `DELETE` statement with its grammar, the permission levels and
//! their order, an in-memory transactional store, and the
//! signup flow that issues signed session tokens.

pub mod clock;
pub mod cnf;
pub mod dbs;
pub mod err;
pub mod iam;
pub mod kvs;
pub mod sql;
