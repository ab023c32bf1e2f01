//! Sports-market research and paper-risk tooling.

pub mod accounts;
pub mod audit;
pub mod config;
pub mod consensus;
pub mod dashboard;
pub mod decimal;
pub mod domain;
pub mod error;
pub mod exposure;
pub mod health;
pub mod history;
pub mod laws;
pub mod matching;
pub mod metrics;
pub mod news;
pub mod opportunity;
pub mod paper;
pub mod polymarket;
pub mod records;
pub mod replay;
pub mod risk;
pub mod scan;
pub mod scanner;
pub mod seqs;
pub mod sizing;
pub mod sources;
pub mod storage;
pub mod text;
pub mod textmap;
pub mod time;
pub mod tui;
