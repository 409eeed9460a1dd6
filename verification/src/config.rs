//! Server configuration. Malformed or missing initialization options fall
//! back to these defaults.

use vstd::prelude::*;

verus! {

/// Configuration of the schema cache.
#[derive(Debug, Clone)]
pub struct ServerConfig {
    pub schema_ttl_secs: u64,
    pub cache_dir: Option<String>,
    pub schema_cache_capacity: u64,
}

/// Default positive-cache time to live: eight hours, in seconds.
pub fn default_ttl() -> (r: u64)
    ensures
        r == 28800,
{
    28800
}

/// Default capacity of the positive cache.
pub fn default_cache_capacity() -> (r: u64)
    ensures
        r == 128,
{
    128
}

impl Default for ServerConfig {
    fn default() -> (r: Self)
        ensures
            r.schema_ttl_secs == 28800,
            r.cache_dir is None,
            r.schema_cache_capacity == 128,
    {
        ServerConfig { schema_ttl_secs: 28800, cache_dir: None, schema_cache_capacity: 128 }
    }
}

} // verus!
