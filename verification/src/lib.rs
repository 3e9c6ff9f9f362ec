//! A personal-bookkeeping record store: a section-partitioned, line-oriented
//! flat-file format with UUID-identified rows, a generic record codec, a
//! secondary lookup index, and the paired-write protocol that keeps the two
//! halves of an account-to-account transfer consistent.

pub mod accounts;
pub mod contacts;
pub mod dates;
pub mod forecasts;
pub mod import;
pub mod laws;
pub mod lines;
pub mod model;
pub mod payload;
pub mod rules;
pub mod storage;
pub mod tags;
pub mod transactions;
pub mod ui;
pub mod numtext;
pub mod text;
