//! The statements of the language.

pub mod create;
pub mod delete;

pub use self::create::{CreateStatement, CreateStatementView};
pub use self::delete::{delete, DeleteStatement, DeleteStatementView};
