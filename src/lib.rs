//! Process execution and measurement: a portable duration model, the
//! decisions of a spawn/wait/collect run, and the extraction of tags that a
//! benchmarked program writes to its standard output.

pub mod cli;
pub mod duration;
pub mod error;
pub mod execution;
pub mod show;
pub mod git;
pub mod storage;
pub mod tags;
mod text;

pub use cli::CliCommand;
pub use duration::{Duration, FileTime, ProcessTimes, TimeVal};
pub use error::{EncodingSite, ExecutionError};
pub use execution::{Action, Completed, Event, Execution, ExecutionResult, Progress};
pub use git::{GitError, GitInfo};
pub use storage::Data;
pub use tags::{is_key_value_pair, parse_key_value_pair, parse_tags_from_stdout, TagExtraction, TagMap};
