pub mod db;
pub mod budget;
pub mod cache;
pub mod own_events;
