//! The deployment configuration of the service. Reading it from disk is the
//! surrounding program's concern; the engine only carries the values.

use vstd::prelude::*;

verus! {

/// Where the service listens, where it advertises itself, and which origin
/// it allows.
#[derive(Debug)]
pub struct Config {
    pub listen: String,
    pub base_url: String,
    pub allow_origin: String,
}

impl Config {
    /// A copy of this configuration for a component that stores it.
    pub fn get(&self) -> (c: Self)
        ensures
            c.listen@ == self.listen@,
            c.base_url@ == self.base_url@,
            c.allow_origin@ == self.allow_origin@,
    {
        Config {
            listen: self.listen.clone(),
            base_url: self.base_url.clone(),
            allow_origin: self.allow_origin.clone(),
        }
    }
}

} // verus!
