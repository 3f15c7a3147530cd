//! Configuration for pushing snapshots to an OTLP telemetry collector.
//! The exporter itself is I/O and lives with the caller.

use vstd::prelude::*;

verus! {

/// Where and as whom to push telemetry.
#[derive(Debug, Clone, PartialEq)]
pub struct OtelConfig {
    /// The OTLP endpoint.
    pub endpoint: String,
    /// The service name metrics are attributed to.
    pub service_name: String,
}

impl OtelConfig {
    /// A builder for the configuration.
    pub fn builder() -> (b: OtelConfigBuilder)
        ensures
            b.endpoint is None,
            b.service_name is None,
    {
        OtelConfigBuilder { endpoint: None, service_name: None }
    }
}

/// Builder for `OtelConfig`.
#[derive(Debug)]
pub struct OtelConfigBuilder {
    /// The endpoint, if chosen.
    pub endpoint: Option<String>,
    /// The service name, if chosen.
    pub service_name: Option<String>,
}

impl OtelConfigBuilder {
    /// Set the OTLP endpoint.
    pub fn endpoint(self, endpoint: &str) -> (b: OtelConfigBuilder)
        ensures
            b.endpoint matches Some(e) && e@ == endpoint@,
            b.service_name == self.service_name,
    {
        OtelConfigBuilder { endpoint: Some(endpoint.to_owned()), service_name: self.service_name }
    }

    /// Set the service name.
    pub fn service_name(self, name: &str) -> (b: OtelConfigBuilder)
        ensures
            b.service_name matches Some(n) && n@ == name@,
            b.endpoint == self.endpoint,
    {
        OtelConfigBuilder { endpoint: self.endpoint, service_name: Some(name.to_owned()) }
    }

    /// Build the configuration, with the usual local collector endpoint and
    /// the library's own name as defaults.
    pub fn build(self) -> (c: OtelConfig)
        ensures
            self.endpoint matches Some(e) ==> c.endpoint == e,
            self.endpoint is None ==> c.endpoint@ == "http://localhost:4318"@,
            self.service_name matches Some(n) ==> c.service_name == n,
            self.service_name is None ==> c.service_name@ == "buswatch"@,
    {
        OtelConfig {
            endpoint: match self.endpoint {
                Some(e) => e,
                None => String::from_str("http://localhost:4318"),
            },
            service_name: match self.service_name {
                Some(n) => n,
                None => String::from_str("buswatch"),
            },
        }
    }
}

} // verus!
