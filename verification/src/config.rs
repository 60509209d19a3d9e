//! The proxy's configuration: which DNS-over-HTTPS resolver it forwards to.
use vstd::prelude::*;

use crate::resolver::Resolver;

verus! {

/// What the proxy is set up with.
pub struct Config {
    pub resolver: Resolver,
}

impl Config {
    /// A configuration that forwards to Cloudflare.
    pub fn init_cloudflare() -> (c: Self)
        ensures
            c.resolver == Resolver::Cloudflare(),
    {
        Config { resolver: Resolver::new_cloudflare() }
    }

    /// A configuration that forwards to Google. Google's resolver is reached
    /// through its host name, so the machine must be able to resolve that name
    /// without this proxy.
    pub fn init_google() -> (c: Self)
        ensures
            c.resolver == Resolver::Google(),
    {
        Config { resolver: Resolver::new_google() }
    }
}

} // verus!
