//! Cluster configuration: per-node connection settings, the SASL-like
//! authenticator plugin surface, and the round-robin load balancer.

use vstd::prelude::*;

verus! {

/// Default upper bound of a node pool.
pub const DEFAULT_MAX_SIZE: u32 = 10;

/// Default lease/connect wait cap, in milliseconds.
pub const DEFAULT_CONNECTION_TIMEOUT_MS: u64 = 30000;

/// The SASL-like authentication plugin: the initial response sent with
/// `AUTH_RESPONSE`, and an answer to each server challenge.
pub trait Authenticator {
    /// The token opening the exchange.
    fn initial_response(&self) -> Vec<u8>;

    /// The answer to one server challenge.
    fn respond(&self, challenge: &[u8]) -> Vec<u8>;
}

/// The authenticator for clusters that demand none: every token is empty.
#[derive(Debug, Clone, Copy, PartialEq, Eq, Structural)]
pub struct NoneAuthenticator {}

impl Authenticator for NoneAuthenticator {
    fn initial_response(&self) -> Vec<u8> {
        Vec::new()
    }

    fn respond(&self, challenge: &[u8]) -> Vec<u8> {
        Vec::new()
    }
}

/// Single node connection config. Durations are plain milliseconds.
#[derive(Debug, Clone)]
pub struct NodeTcpConfig<A> {
    pub addr: String,
    pub authenticator: A,
    pub max_size: u32,
    pub min_idle: Option<u32>,
    pub max_lifetime: Option<u64>,
    pub idle_timeout: Option<u64>,
    pub connection_timeout: u64,
}

/// Cluster configuration that holds per node connection configs.
#[derive(Debug, Clone)]
pub struct ClusterTcpConfig<A>(pub Vec<NodeTcpConfig<A>>);

/// Builder that helps to configure the connection for one node.
#[derive(Debug, Clone)]
pub struct NodeTcpConfigBuilder<A> {
    pub addr: String,
    pub authenticator: A,
    pub max_size: Option<u32>,
    pub min_idle: Option<u32>,
    pub max_lifetime: Option<u64>,
    pub idle_timeout: Option<u64>,
    pub connection_timeout: Option<u64>,
}

impl<A> NodeTcpConfigBuilder<A> {
    /// Starts a builder for `addr` with `authenticator` and no limits
    /// chosen yet.
    pub fn new(addr: String, authenticator: A) -> (r: NodeTcpConfigBuilder<A>)
        ensures
            r.addr@ == addr@,
            r.authenticator == authenticator,
            r.max_size is None,
            r.min_idle is None,
            r.max_lifetime is None,
            r.idle_timeout is None,
            r.connection_timeout is None,
    {
        NodeTcpConfigBuilder {
            addr,
            authenticator,
            max_size: None,
            min_idle: None,
            max_lifetime: None,
            idle_timeout: None,
            connection_timeout: None,
        }
    }

    /// Sets the maximum number of connections managed by the pool.
    /// Defaults to 10.
    pub fn max_size(self, size: u32) -> (r: NodeTcpConfigBuilder<A>)
        ensures
            r == (NodeTcpConfigBuilder { max_size: Some(size), ..self }),
    {
        NodeTcpConfigBuilder { max_size: Some(size), ..self }
    }

    /// Sets the minimum idle connection count maintained by the pool,
    /// respecting `max_size`. Defaults to none (treated as `max_size`).
    pub fn min_idle(self, min_idle: Option<u32>) -> (r: NodeTcpConfigBuilder<A>)
        ensures
            r == (NodeTcpConfigBuilder { min_idle: min_idle, ..self }),
    {
        NodeTcpConfigBuilder { min_idle, ..self }
    }

    /// Sets the maximum lifetime of connections in the pool, in
    /// milliseconds; they are closed at most 30 seconds beyond it.
    /// Defaults to 30 minutes.
    pub fn max_lifetime(self, max_lifetime: Option<u64>) -> (r: NodeTcpConfigBuilder<A>)
        ensures
            r == (NodeTcpConfigBuilder { max_lifetime: max_lifetime, ..self }),
    {
        NodeTcpConfigBuilder { max_lifetime, ..self }
    }

    /// Sets the idle timeout used by the pool, in milliseconds; idle
    /// connections are closed at most 30 seconds beyond it. Defaults to
    /// 10 minutes.
    pub fn idle_timeout(self, idle_timeout: Option<u64>) -> (r: NodeTcpConfigBuilder<A>)
        ensures
            r == (NodeTcpConfigBuilder { idle_timeout: idle_timeout, ..self }),
    {
        NodeTcpConfigBuilder { idle_timeout, ..self }
    }

    /// Sets the connection timeout used by the pool, in milliseconds.
    /// Defaults to 30 seconds.
    pub fn connection_timeout(self, connection_timeout: u64) -> (r: NodeTcpConfigBuilder<A>)
        ensures
            r == (NodeTcpConfigBuilder { connection_timeout: Some(connection_timeout), ..self }),
    {
        NodeTcpConfigBuilder { connection_timeout: Some(connection_timeout), ..self }
    }

    /// Sets a new authenticator.
    pub fn authenticator(self, authenticator: A) -> (r: NodeTcpConfigBuilder<A>)
        ensures
            r == (NodeTcpConfigBuilder { authenticator: authenticator, ..self }),
    {
        NodeTcpConfigBuilder { authenticator, ..self }
    }

    /// Finalizes the building process. Unset limits take their defaults,
    /// and `min_idle` is capped by `max_size`, so the config never asks
    /// for more idle connections than the pool may hold.
    pub fn build(self) -> (r: NodeTcpConfig<A>)
        ensures
            r.addr@ == self.addr@,
            r.authenticator == self.authenticator,
            r.max_size == (match self.max_size {
                Some(m) => m,
                None => DEFAULT_MAX_SIZE,
            }),
            r.min_idle == (match self.min_idle {
                Some(m) => Some(
                    if m <= (match self.max_size {
                        Some(x) => x,
                        None => DEFAULT_MAX_SIZE,
                    }) {
                        m
                    } else {
                        match self.max_size {
                            Some(x) => x,
                            None => DEFAULT_MAX_SIZE,
                        }
                    },
                ),
                None => None::<u32>,
            }),
            r.max_lifetime == self.max_lifetime,
            r.idle_timeout == self.idle_timeout,
            r.connection_timeout == (match self.connection_timeout {
                Some(t) => t,
                None => DEFAULT_CONNECTION_TIMEOUT_MS,
            }),
            r.min_idle matches Some(m) ==> m <= r.max_size,
    {
        let max_size = match self.max_size {
            Some(m) => m,
            None => DEFAULT_MAX_SIZE,
        };
        let min_idle = match self.min_idle {
            Some(m) => Some(
                if m <= max_size {
                    m
                } else {
                    max_size
                },
            ),
            None => None,
        };
        NodeTcpConfig {
            addr: self.addr,
            authenticator: self.authenticator,
            max_size,
            min_idle,
            max_lifetime: self.max_lifetime,
            idle_timeout: self.idle_timeout,
            connection_timeout: match self.connection_timeout {
                Some(t) => t,
                None => DEFAULT_CONNECTION_TIMEOUT_MS,
            },
        }
    }
}

/// The round-robin load balancer: a monotone counter, reduced modulo the
/// node count at each pick.
#[derive(Debug)]
pub struct RoundRobinBalancer {
    counter: u64,
}

impl RoundRobinBalancer {
    /// The picks made so far.
    pub closed spec fn counter(&self) -> nat {
        self.counter as nat
    }

    /// A fresh balancer, starting at the first node.
    pub fn new() -> (r: RoundRobinBalancer)
        ensures
            r.counter() == 0,
    {
        RoundRobinBalancer { counter: 0 }
    }

    /// Picks the pool for the next request among `n` nodes: the counter
    /// modulo `n`, advancing the counter (it wraps at the top of `u64`).
    pub fn next(&mut self, n: usize) -> (r: usize)
        requires
            n > 0,
        ensures
            r < n,
            r as int == old(self).counter() as int % n as int,
            final(self).counter() == (if old(self).counter() == u64::MAX {
                0
            } else {
                old(self).counter() + 1
            }),
    {
        let r = (self.counter % (n as u64)) as usize;
        proof {
            vstd::arithmetic::div_mod::lemma_mod_bound(self.counter as int, n as int);
        }
        if self.counter == u64::MAX {
            self.counter = 0;
        } else {
            self.counter = self.counter + 1;
        }
        r
    }
}

} // verus!
