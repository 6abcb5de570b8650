//! The two server list ping protocols.
pub mod varint;
pub mod java;
pub mod bedrock;
