//! A single-election voting service: ranked ballots keyed by elector,
//! validated, stored, tallied into a head-to-head duel graph, and frozen
//! into a result snapshot when the election closes.

pub mod ballot;
pub mod data;
pub mod duel;
pub mod model;
pub mod election;
