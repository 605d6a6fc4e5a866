pub mod calculator;
pub mod parser;
