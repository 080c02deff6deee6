pub mod address;
pub mod calculator;
pub mod hierarchy;
pub mod types;
