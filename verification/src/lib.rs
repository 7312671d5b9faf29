//! Git identity profiles and repository pools: the rules by which an identity
//! is discovered, matched against conditional includes and selected, and by
//! which a pool of repositories is scanned and remembered.

pub mod apply;
pub mod catalog;
pub mod cloning;
pub mod config;
pub mod environment;
pub mod find;
pub mod git;
pub mod glob;
pub mod include_if;
pub mod listing;
pub mod manage;
pub mod paths;
pub mod profile;
pub mod scan;
pub mod seqs;
pub mod state;
pub mod status;
pub mod term;
pub mod text;
