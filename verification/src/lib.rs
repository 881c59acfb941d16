//! Synthetic data for a fictional sandwich shop: products, supplies, stores,
//! customers with personas, their orders and tweets, simulated day by day.

pub mod random;
pub mod text;
pub mod calendar;
pub mod simulation;
pub mod models;
pub mod rows;
pub mod ids;
pub mod seqs;
pub mod web;
pub mod laws;
