//! A small APT-style package fetcher: it reads a repository's package index,
//! resolves a package for an architecture and checks what was downloaded
//! against the digest that the index declares.
//!
//! This crate holds the rules of that pipeline as verified functions on plain
//! values. Network and file access are left to the caller.

pub mod config;
pub mod error;
pub mod http;
pub mod install;
pub mod package;
pub mod text;
pub mod utils;
