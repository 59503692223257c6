//! Habit tracking rules engine: calendar arithmetic, schedules, completion
//! rules, penalty debts and the read-only aggregations built on them.

pub mod checkins;
pub mod completion;
pub mod date;
pub mod db;
pub mod declarations;
pub mod due;
pub mod error;
pub mod excuses;
pub mod export;
pub mod habits;
pub mod model;
pub mod output;
pub mod penalty;
pub mod recap;
pub mod schedule;
pub mod seqs;
pub mod sorting;
pub mod stats;
pub mod status;
pub mod tally;
pub mod text;
pub mod ts;
