pub mod keypair;
pub mod pow;
