//! Scans directory trees for regenerable dependency directories (package
//! manager caches, build outputs) and flags them for exclusion from backups.
//!
//! The crate is organised around four pieces: the pattern registry
//! ([`patterns`]), the exclusion-path resolver and configuration
//! ([`config`]), the tree walker and matcher ([`scanner`]), and small
//! helpers for the background service and run state ([`service`],
//! [`state`]).

pub mod config;
pub mod patterns;
pub mod scanner;
pub mod service;
pub mod state;
pub mod text;
