pub mod address;
pub mod calculator;
pub mod types;
