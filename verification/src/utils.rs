pub mod formats;
pub mod keccak256;
pub mod ripemd160;
