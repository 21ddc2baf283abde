//! Monte Carlo estimation of head-to-head win rates from historical scores.
//!
//! Scores are fixed-point integers (for fantasy points, hundredths of a
//! point). Each entity's scores become a [`stats::Stats`] distribution model;
//! a [`league::League`] pairs entities, draws from their models and tallies
//! the winners.
pub mod error;
pub mod math;
pub mod stats;
pub mod league;
pub mod records;
pub mod league_data;
