//! SAVER verifiable encryption over BLS12-381.
pub mod commitment;
pub mod decryption;
pub mod encryption;
pub mod error;
pub mod group;
pub mod keygen;
pub mod pairing_powers;
pub mod scalar;
pub mod setup;
pub mod utils;
