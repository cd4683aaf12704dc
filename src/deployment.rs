use vstd::prelude::*;

verus! {

/// The path that the ingress of a service routes to it.
pub const INGRESS_ROUTE: &'static str = "/gateway";

/// The port that the ingress of a service routes to.
pub const INGRESS_PORT: u16 = 8080;

/// How the cluster runs a service.
#[derive(Clone, Copy, Debug, PartialEq, Eq, Structural)]
pub enum Controller {
    Deployment,
    StatefulSet,
}

/// The node pool that a service tolerates.
#[derive(Clone, Copy, Debug, PartialEq, Eq, Structural)]
pub enum Toleration {
    ApolloCoreService,
    ApolloGeneralService,
}

/// The domain under which an ingress is reached, and its other names.
#[derive(Clone, Debug, PartialEq, Eq)]
pub struct IngressParams {
    pub domain: String,
    pub alternative_names: Option<Vec<String>>,
}

impl IngressParams {
    pub fn new(domain: String, alternative_names: Option<Vec<String>>) -> (r: Self)
        ensures
            r.domain == domain,
            r.alternative_names == alternative_names,
    {
        Self { domain, alternative_names }
    }
}

/// One route of an ingress: a path, the port it leads to, and the backend that
/// serves it, if not the service itself.
#[derive(Clone, Debug, PartialEq, Eq)]
pub struct IngressRule {
    pub path: String,
    pub port: u16,
    pub backend: Option<String>,
}

impl IngressRule {
    pub fn new(path: String, port: u16, backend: Option<String>) -> (r: Self)
        ensures
            r.path == path,
            r.port == port,
            r.backend == backend,
    {
        Self { path, port, backend }
    }
}

/// How a service is reached from outside the cluster, or from inside it only when
/// `internal`.
#[derive(Clone, Debug, PartialEq, Eq)]
pub struct Ingress {
    pub ingress_params: IngressParams,
    pub internal: bool,
    pub rules: Vec<IngressRule>,
}

impl Ingress {
    pub fn new(ingress_params: IngressParams, internal: bool, rules: Vec<IngressRule>) -> (r: Self)
        ensures
            r.ingress_params == ingress_params,
            r.internal == internal,
            r.rules == rules,
    {
        Self { ingress_params, internal, rules }
    }
}

/// The ingress of a service that serves the gateway route: one rule, for
/// `INGRESS_ROUTE` on `INGRESS_PORT`, with no separate backend.
pub fn get_ingress(ingress_params: IngressParams, internal: bool) -> (r: Option<Ingress>)
    ensures
        r matches Some(i) && i.ingress_params == ingress_params && i.internal == internal && i.rules@.len() == 1
            && i.rules@[0].path@ == INGRESS_ROUTE@ && i.rules@[0].port == INGRESS_PORT && i.rules@[0].backend is None,
{
    let mut rules: Vec<IngressRule> = Vec::new();
    rules.push(IngressRule::new(INGRESS_ROUTE.to_owned(), INGRESS_PORT, None));
    Some(Ingress::new(ingress_params, internal, rules))
}

/// The key under which a service's secret is kept in the secret manager.
#[derive(Clone, Copy, Debug, PartialEq, Eq)]
pub struct ExternalSecret {
    pub gcsm_key: &'static str,
}

impl ExternalSecret {
    pub fn new(gcsm_key: &'static str) -> (r: Self)
        ensures
            r.gcsm_key == gcsm_key,
    {
        Self { gcsm_key }
    }
}

/// An amount of compute: CPU cores and memory (in GiB).
#[derive(Clone, Copy, Debug, PartialEq, Eq, Structural)]
pub struct Resource {
    pub cpu: usize,
    pub memory: usize,
}

impl Resource {
    pub fn new(cpu: usize, memory: usize) -> (r: Self)
        ensures
            r.cpu == cpu,
            r.memory == memory,
    {
        Self { cpu, memory }
    }
}

/// What a service asks for, and the most it may use.
#[derive(Clone, Copy, Debug, PartialEq, Eq, Structural)]
pub struct Resources {
    pub requests: Resource,
    pub limits: Resource,
}

impl Resources {
    pub fn new(requests: Resource, limits: Resource) -> (r: Self)
        ensures
            r.requests == requests,
            r.limits == limits,
    {
        Self { requests, limits }
    }
}

} // verus!
