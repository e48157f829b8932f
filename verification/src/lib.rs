//! Secret-file pointers in environment variable names: pattern recognition,
//! key derivation and the merging of loaded documents into one tree.

pub mod collect;
pub mod pattern;
pub mod secret;
pub mod text;
pub mod tree;

pub use secret::EnvironmentSecretFile;
