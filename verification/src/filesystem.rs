pub mod error;
pub mod marker;
pub mod repository;
