pub mod protocol;
pub mod node;
pub mod sync;
pub mod bootstrap;
pub mod dht;
