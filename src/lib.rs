//! A tagged song library: songs carry tags with values from 0 to 9, and are
//! found again by conjunctions of conditions such as `energy>=7`.
pub mod cli;
pub mod condition;
pub mod library;
pub mod query;
pub mod sql;

pub use cli::{Cli, Commands, SongArgs, SongSubcommand};
pub use condition::{parse_tag_condition, Condition, ConditionError, Op};
pub use library::{Library, Song, StoreError};
pub use query::{compile_query, QueryPlan, SqlParam};
