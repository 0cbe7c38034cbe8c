//! Planning for running a fuzzing engine over a wordlist in sequential partitions:
//! how many partitions a time budget calls for, how each engine run is invoked,
//! and how the bearer token attached to each run is obtained and checked.
pub mod command;
pub mod number;
pub mod parts;
pub mod token;
