//! Covert two-stage gesture recognition and the backup planning it triggers.
pub mod activation;
pub mod backup;
pub mod config;
pub mod input;
