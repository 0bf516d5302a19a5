//! The command-line arguments, as plain values.
use vstd::prelude::*;

verus! {

/// dhanush - High-performance HTTP load testing tool
#[derive(Debug, Clone)]
pub struct CliArgs {
    /// Target URL (for single-URL mode)
    pub url: Option<String>,
    /// Number of concurrent connections per group
    pub connections: usize,
    /// Test duration (e.g. "10s", "1m", "2m30s")
    pub duration: String,
    /// Total number of requests (switches to count mode, overrides duration)
    pub num_requests: Option<u64>,
    /// Number of tokio worker threads
    pub threads: Option<usize>,
    /// HTTP method
    pub method: String,
    /// HTTP headers (repeatable, format: "Key: Value")
    pub headers: Vec<String>,
    /// Request body
    pub body: Option<String>,
    /// Request timeout (e.g. "5s", "30s")
    pub timeout: String,
    /// Disable TLS certificate verification
    pub insecure: bool,
    /// Output format: text or json
    pub output_format: String,
    /// Disable progress display
    pub no_progress: bool,
    /// Ramp-up time to gradually add connections (e.g. "5s", "30s")
    pub ramp_up: Option<String>,
    /// Path to YAML config file for multi-group mode
    pub config: Option<String>,
}

} // verus!
