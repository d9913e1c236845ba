//! Detection of logical dependencies between prediction markets and of the
//! price inconsistencies they expose, with an incremental per-tick pipeline.

pub mod decimal;
pub mod text;
pub mod normalization;
pub mod date;
pub mod shared_types;
pub mod ranges;
pub mod entities;
pub mod arbitrage_engine;
pub mod pipeline;
pub mod market_fetcher;
pub mod topic_classifier;
pub mod execution_analyzer;
pub mod clob_client;
pub mod blockchain;
