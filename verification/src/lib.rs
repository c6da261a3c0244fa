//! Bulk-edit of capture timestamps in image metadata.
//!
//! The heart of the library is a pure transformation on timestamp strings of
//! the shape `YYYY:MM:DD HH:MM:SS[±HH:MM]`: the date fields are replaced by a
//! requested day, month and (optionally) year, while the time of day and the
//! timezone offset are carried through unchanged. Around it stand the decision
//! logic of a per-file worker, a batch driver that reports one outcome per
//! file, a model of the concurrency limiter that bounds simultaneous work, and
//! the command-line argument rules.

pub mod cli;
pub mod gateway;
pub mod limiter;
pub mod transform;
pub mod worker;

pub use cli::CliError;
pub use cli::Config;
pub use cli::format_two_digits;
pub use cli::parse_args;
pub use gateway::interpret_read_output;
pub use gateway::read_command_args;
pub use gateway::write_command_args;
pub use limiter::ConcurrencyLimiter;
pub use limiter::default_limiter;
pub use transform::build_new_datetime;
pub use worker::DateEdit;
pub use worker::Outcome;
pub use worker::WorkerStep;
pub use worker::decide_after_read;
pub use worker::decide_after_write;
pub use worker::run_batch;
pub use worker::worker_outcome;
