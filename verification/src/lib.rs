pub mod error;
pub mod fetcher;
pub mod resolver;
