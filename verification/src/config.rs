//! Settings of the service and their defaults.

use vstd::prelude::*;

verus! {

/// The port the service listens on when none is configured.
pub fn port() -> (p: u16)
    ensures
        p == 8080,
{
    8080
}

/// The number of pooled storage connections when none is configured.
pub fn pool_size() -> (n: usize)
    ensures
        n == 16,
{
    16
}

/// The settings of the service.
#[derive(Debug)]
pub struct Config {
    /// Where the storage engine is reached.
    pub postgres_url: String,
    /// The port the service listens on.
    pub port: u16,
    /// The number of pooled storage connections.
    pub pool_size: usize,
}

impl Config {
    /// The settings with the given storage connection string, and with the
    /// default for each of the others that is not given.
    pub fn new(postgres_url: String, port: Option<u16>, pool_size: Option<usize>) -> (config:
        Config)
        ensures
            config.postgres_url == postgres_url,
            config.port == (match port {
                Some(p) => p,
                None => 8080,
            }),
            config.pool_size == (match pool_size {
                Some(n) => n,
                None => 16,
            }),
    {
        Config {
            postgres_url,
            port: match port {
                Some(p) => p,
                None => self::port(),
            },
            pool_size: match pool_size {
                Some(n) => n,
                None => self::pool_size(),
            },
        }
    }
}

} // verus!
