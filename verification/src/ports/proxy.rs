use vstd::prelude::*;

verus! {

/// The routing of one domain to its upstreams, with its TLS setting.
#[derive(Debug, Clone)]
pub struct RouteConfig {
    pub domain: String,
    pub upstream: Vec<Upstream>,
    pub tls: TlsConfig,
}

/// One upstream address of a route and its share of the traffic.
#[derive(Debug, Clone)]
pub struct Upstream {
    pub address: String,
    pub weight: u32,
}

/// How a route's TLS certificate is obtained. `Manual` names the
/// certificate and key files by their paths.
#[derive(Debug, Clone)]
pub enum TlsConfig {
    Disabled,
    Auto { email: String },
    Manual { cert: String, key: String },
}

} // verus!
