//! Configuration, request selection, statistics and report logic of the
//! `dhanush` HTTP load tester.
pub mod cli;
pub mod config;
pub mod error;
pub mod text;
pub mod stats;
pub mod http_client;
pub mod worker;
pub mod engine;
pub mod reporter;
