//! A verified model of the sequential topology engine: the decisions that
//! close a run, promote a judged candidate, dispatch a generation, emit an
//! event and judge an attempt, stated over explicit models of the event fold,
//! the repository's refs and worktrees, and the process ledger.

pub mod text;
pub mod model;
pub mod error;
pub mod fold;
pub mod closure;
pub mod effects;
pub mod refs;
pub mod resolution;
pub mod journal;
pub mod workspace;
pub mod candidate;
pub mod identity;
pub mod emit;
pub mod dispatch;
pub mod runner;
pub mod review;
pub mod attempt;
pub mod json;
pub mod coverage;
pub mod records;
