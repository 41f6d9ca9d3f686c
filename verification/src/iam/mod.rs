//! Authentication: levels, actors, tokens and the signup flow.

pub mod auth;
pub mod jwt;
pub mod signup;
pub mod token;

pub use self::auth::{Actor, ActorView, Level, LevelView};
pub use self::token::{Claims, ClaimsView};
