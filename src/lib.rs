//! A pattern-matching dispatch engine: pattern keys are strings with a small
//! prefix grammar, a pattern set binds keys to handlers, and a dispatch picks
//! the one entry whose pattern best matches a value.
pub mod text;
pub mod value;
pub mod re;
pub mod keys;
pub mod patterns;
pub mod classify;
pub mod engine;
pub mod registry;
pub mod laws;

pub use engine::{if_let, match_pattern, Step, Verdict};
pub use keys::{any, none, not, regex, some, Condition, PatternError};
pub use patterns::PatternSet;
pub use value::{JsType, Value};
