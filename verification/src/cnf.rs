//! Fixed settings.

use vstd::prelude::*;

verus! {

/// The name under which this server issues tokens.
pub const SERVER_NAME: &'static str = "SurrealDB";

} // verus!
