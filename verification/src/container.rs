//! Service container: long-lived shared services, wired explicitly at
//! startup through a builder. All wiring errors surface at `build`,
//! never mid-request, and the container is read-only afterwards.

use crate::token::{Algorithm, TokenConfig};
use vstd::prelude::*;

verus! {

/// A required capability was never registered with the builder.
#[derive(Clone, Copy, Debug, PartialEq, Eq, Structural)]
pub enum WiringError {
    UnresolvedDependency,
}

/// The immutable per-process service container. Shared read-only by
/// all concurrent requests.
pub struct Container {
    pub token_cfg: TokenConfig,
}

impl Container {
    /// Resolves the token-creation capability.
    pub fn token_creator(&self) -> (r: &TokenConfig)
        ensures
            r == &self.token_cfg,
    {
        &self.token_cfg
    }
}

/// Startup-time builder: every component's parameters are given
/// explicitly and checked for completeness at `build`.
pub struct ContainerBuilder {
    pub secret: Option<Vec<u8>>,
    pub algorithm: Option<Algorithm>,
}

impl ContainerBuilder {
    pub fn new() -> (b: ContainerBuilder)
        ensures
            b.secret is None,
            b.algorithm is None,
    {
        ContainerBuilder { secret: None, algorithm: None }
    }

    pub fn with_secret(self, secret: Vec<u8>) -> (b: ContainerBuilder)
        ensures
            b.secret == Some(secret),
            b.algorithm == self.algorithm,
    {
        ContainerBuilder { secret: Some(secret), ..self }
    }

    pub fn with_algorithm(self, algorithm: Algorithm) -> (b: ContainerBuilder)
        ensures
            b.algorithm == Some(algorithm),
            b.secret == self.secret,
    {
        ContainerBuilder { algorithm: Some(algorithm), ..self }
    }

    /// Fails fast, before any request is served, if a capability's
    /// parameters are missing.
    pub fn build(self) -> (r: Result<Container, WiringError>)
        ensures
            r is Ok <==> self.secret is Some && self.algorithm is Some,
            r matches Ok(c) ==> c.token_cfg.secret == self.secret.unwrap()
                && c.token_cfg.algorithm == self.algorithm.unwrap(),
            r is Err ==> r == Err::<Container, WiringError>(WiringError::UnresolvedDependency),
    {
        match (self.secret, self.algorithm) {
            (Some(secret), Some(algorithm)) => Ok(
                Container { token_cfg: TokenConfig { secret, algorithm } },
            ),
            _ => Err(WiringError::UnresolvedDependency),
        }
    }
}

/// The secret the process is wired with.
pub open spec fn default_secret() -> Seq<u8> {
    seq![109u8, 121, 32, 115, 101, 99, 114, 101, 116]
}

/// Wires the process container: the signing secret and algorithm of
/// the token service, registered once at startup.
pub fn make_container() -> (c: Container)
    ensures
        c.token_cfg.secret@ == default_secret(),
        c.token_cfg.algorithm == Algorithm::HS256,
{
    let secret: Vec<u8> = vec![109u8, 121, 32, 115, 101, 99, 114, 101, 116];
    assert(secret@ =~= default_secret());
    let b = ContainerBuilder::new().with_secret(secret).with_algorithm(Algorithm::HS256);
    match b.build() {
        Ok(c) => c,
        Err(_) => unreached(),
    }
}

} // verus!
