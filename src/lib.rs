use vstd::prelude::*;

pub mod forward;
pub mod gateway;
pub mod limiter;
pub mod policy;
pub mod resources;
pub mod text;

verus! {

/// Name and version of a running service.
#[derive(Debug, Clone)]
pub struct BuildInfo {
    pub service: &'static str,
    pub version: &'static str,
}

impl BuildInfo {
    pub fn new(service: &'static str, version: &'static str) -> (r: Self)
        ensures
            r.service == service,
            r.version == version,
    {
        BuildInfo { service, version }
    }
}

} // verus!
