pub mod builder;
pub mod discover;
