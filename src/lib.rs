//! Data layer of a content catalog: products with their tag associations, kept
//! consistent by every operation, and expiring activation tokens, encrypted and
//! authenticated with ChaCha20-Poly1305.
pub mod catalog;
pub mod token;
pub mod user;
