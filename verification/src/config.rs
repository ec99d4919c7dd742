//! Configuration: environment variables only, read once at startup. What must
//! change at run time lives in the registry.

use vstd::prelude::*;

verus! {

/// Every variable's name starts with this.
pub const PREFIX: &'static str = "HAZ_";

/// What the gateway runs with.
#[derive(Clone, Debug)]
pub struct Config {
    /// Where the HTTP listener binds.
    pub bind_addr: String,
    pub database_url: String,
    pub redis_url: String,
    /// The directory of the spool file.
    pub spool_dir: String,
    /// How many readings the warm lane's channel holds: the backpressure policy.
    pub warm_channel_capacity: usize,
    /// How many readings a batch may hold.
    pub max_batch_size: usize,
}

/// What the environment gave. A variable that has a default may be missing.
#[derive(Clone, Debug)]
pub struct Environment {
    pub bind_addr: Option<String>,
    pub database_url: String,
    pub redis_url: String,
    pub spool_dir: String,
    pub warm_channel_capacity: Option<usize>,
    pub max_batch_size: Option<usize>,
}

pub fn default_bind() -> (r: String)
    ensures
        r@ == "127.0.0.1:8020"@,
{
    "127.0.0.1:8020".to_owned()
}

pub fn default_channel_capacity() -> (r: usize)
    ensures
        r == 50_000,
{
    50_000
}

pub fn default_max_batch() -> (r: usize)
    ensures
        r == 2_000,
{
    2_000
}

impl Config {
    /// What is given, with the defaults for what is missing.
    pub fn load(given: Environment) -> (r: Config)
        ensures
            r.bind_addr@ == match given.bind_addr {
                Some(bind_addr) => bind_addr@,
                None => "127.0.0.1:8020"@,
            },
            r.database_url@ == given.database_url@,
            r.redis_url@ == given.redis_url@,
            r.spool_dir@ == given.spool_dir@,
            r.warm_channel_capacity == match given.warm_channel_capacity {
                Some(capacity) => capacity,
                None => 50_000,
            },
            r.max_batch_size == match given.max_batch_size {
                Some(size) => size,
                None => 2_000,
            },
    {
        Config {
            bind_addr: match given.bind_addr {
                Some(bind_addr) => bind_addr,
                None => default_bind(),
            },
            database_url: given.database_url,
            redis_url: given.redis_url,
            spool_dir: given.spool_dir,
            warm_channel_capacity: match given.warm_channel_capacity {
                Some(capacity) => capacity,
                None => default_channel_capacity(),
            },
            max_batch_size: match given.max_batch_size {
                Some(size) => size,
                None => default_max_batch(),
            },
        }
    }
}

} // verus!
