//! Helpers that turn a request into addresses and download tasks.

pub mod url;
