//! Running statements: the executor, the iterator, the
//! session.

pub mod executor;
pub mod iterator;
pub mod options;
pub mod runtime;
pub mod session;

pub use self::executor::{Executor, ExecutorView};
pub use self::iterator::Iterator;
pub use self::options::Options;
pub use self::runtime::Runtime;
pub use self::session::{Session, SessionView};
pub use crate::iam::auth::Level;
