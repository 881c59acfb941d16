pub mod item;
pub mod supply;
pub mod customer;
pub mod order;
pub mod store;
pub mod tweet;
