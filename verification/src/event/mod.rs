pub mod types;
pub mod serialize;
pub mod builder;
pub mod validate;
