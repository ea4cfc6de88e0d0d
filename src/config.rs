//! Settings read at start-up.
use vstd::prelude::*;

verus! {

/// Where the server listens and which web origins may call it.
#[derive(Debug)]
pub struct Config {
    pub port: u16,
    pub ip: [u8; 4],
    pub wed_domains: Vec<String>,
}

} // verus!
