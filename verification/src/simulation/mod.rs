pub mod time;
pub mod market;
pub mod sim;
pub mod tables;
