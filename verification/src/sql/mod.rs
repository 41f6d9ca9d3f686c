//! The query language: values, clauses and statements.

pub mod common;
pub mod cond;
pub mod expression;
pub mod output;
pub mod statements;
pub mod timeout;
pub mod value;
pub mod what;

pub use self::cond::{Cond, CondView, Operator};
pub use self::expression::{Expression, ExpressionView};
pub use self::output::Output;
pub use self::statements::{
    delete, CreateStatement, CreateStatementView, DeleteStatement, DeleteStatementView,
};
pub use self::timeout::{Duration, Timeout, Unit};
pub use self::value::{Id, IdView, Model, ModelView, Object, Thing, ThingView, Value, ValueView};
pub use self::what::Values;
