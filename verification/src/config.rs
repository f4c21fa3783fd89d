//! Process configuration, supplied once at startup and immutable afterwards.

use vstd::prelude::*;

verus! {

/// Configuration as plain values: addresses are kept as text, already
/// validated by whoever loaded them.
#[derive(Clone, Debug)]
pub struct Config {
    /// Where the playlist text is fetched from at startup.
    pub iptv_url: Option<String>,
    /// The address clients reach this service under.
    pub base_url: String,
    pub port: u16,
    pub tuner_count: u16,
    /// Timeout in seconds for HTTP requests to the playlist provider.
    pub http_timeout: u64,
    /// Optional outbound proxy, passed through to the decode process.
    pub http_proxy: Option<String>,
}

impl Default for Config {
    fn default() -> (c: Self)
        ensures
            c.iptv_url is None,
            c.base_url@ == "http://localhost:8080"@,
            c.port == 8080,
            c.tuner_count == 10,
            c.http_timeout == 10,
            c.http_proxy is None,
    {
        Config {
            iptv_url: None,
            base_url: "http://localhost:8080".to_owned(),
            port: 8080,
            tuner_count: 10,
            http_timeout: 10,
            http_proxy: None,
        }
    }
}

} // verus!
