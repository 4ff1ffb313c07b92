pub mod coprime;
pub mod ip;
pub mod port;
pub mod strategy;
