pub mod fuzzy;
pub mod ranking;
pub mod types;
