//! The conditions under which an operation fails.

use crate::sql::value::{Value, ValueView};
use vstd::prelude::*;

verus! {

#[derive(Debug, PartialEq, Eq)]
pub enum Error {
    /// Signing up failed, at whatever step.
    InvalidAuth,
    /// The session's level does not reach the level that was asked for.
    PermissionDenied,
    /// A target of a statement is of a kind that cannot be one.
    StatementTargetError { value: Value },
    /// The statement ran longer than it was allowed to.
    Timeout,
    /// The text is not a statement.
    SyntaxError,
    /// No scope of that name is defined in that namespace and database.
    ScopeNotFound,
}

pub enum ErrorView {
    InvalidAuth,
    PermissionDenied,
    StatementTargetError { value: ValueView },
    Timeout,
    SyntaxError,
    ScopeNotFound,
}

impl View for Error {
    type V = ErrorView;

    open spec fn view(&self) -> ErrorView {
        match self {
            Error::InvalidAuth => ErrorView::InvalidAuth,
            Error::PermissionDenied => ErrorView::PermissionDenied,
            Error::StatementTargetError { value } => ErrorView::StatementTargetError {
                value: value@,
            },
            Error::Timeout => ErrorView::Timeout,
            Error::SyntaxError => ErrorView::SyntaxError,
            Error::ScopeNotFound => ErrorView::ScopeNotFound,
        }
    }
}

} // verus!
