pub mod codec;
pub mod library;
pub mod records;
pub mod repository;
