pub mod address;
pub mod errors;
pub mod probe;
pub mod scanner;
pub mod socket;
