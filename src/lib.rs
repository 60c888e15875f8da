//! Classical ciphers and a message digest, with their behaviour stated as
//! contracts and proved.

pub mod bruteforce;
pub mod caesar;
pub mod cipher;
pub mod hashing;
pub mod md5;
pub mod md5_model;
mod text;

pub use bruteforce::BruteForce;
pub use caesar::Caesar;
pub use cipher::Cipher;
pub use hashing::Hasher;
pub use md5::MD5;
