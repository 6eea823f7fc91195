//! The accept-loop decision: a hard connection ceiling. The caller owns
//! the listener and the worker threads; the library decides, arrival by
//! arrival, whether a connection is taken on, and proves that accepting
//! stops at exactly the configured count.

use vstd::prelude::*;

use crate::config::Config;

verus! {

/// The server's listen-phase state: the bound address, the read-buffer
/// size, the connection ceiling, and how many connections were accepted.
#[derive(Debug)]
pub struct Server {
    pub host: String,
    pub port: u16,
    pub max_connections: u16,
    pub buffer_size: usize,
    pub connections: u16,
}

impl Server {
    /// A server configured but not yet serving: no connection accepted.
    pub fn new(config: &Config) -> (r: Server)
        ensures
            r.host == config.spec_host().host,
            r.port == config.spec_host().port,
            r.max_connections == config.spec_connection().max_connections,
            r.buffer_size == config.spec_connection().buffer_size,
            r.connections == 0,
    {
        Server {
            host: config.host().host.clone(),
            port: config.host().port,
            max_connections: config.connection().max_connections,
            buffer_size: config.connection().buffer_size,
            connections: 0,
        }
    }

    /// One arrival at the accept loop: accepted exactly while the count
    /// stands below the ceiling, and counted when accepted.
    pub fn try_accept(&mut self) -> (r: bool)
        ensures
            r == (old(self).connections < old(self).max_connections),
            final(self).connections == if r {
                (old(self).connections + 1) as u16
            } else {
                old(self).connections
            },
            final(self).host == old(self).host,
            final(self).port == old(self).port,
            final(self).max_connections == old(self).max_connections,
            final(self).buffer_size == old(self).buffer_size,
    {
        if self.connections < self.max_connections {
            self.connections = self.connections + 1;
            true
        } else {
            false
        }
    }
}

/// How many of `arrivals` connections are let through, each one
/// accepted exactly while the count of earlier acceptances stands below
/// `max` — the step [`Server::try_accept`] takes.
pub open spec fn accepted_within(arrivals: nat, max: nat) -> nat
    decreases arrivals,
{
    if arrivals == 0 {
        0
    } else {
        let before = accepted_within((arrivals - 1) as nat, max);
        if before < max {
            before + 1
        } else {
            before
        }
    }
}

/// The connection ceiling is exact: however many connections arrive,
/// the first `max` of them are accepted and nothing afterwards.
pub proof fn lemma_connection_ceiling(arrivals: nat, max: nat)
    ensures
        accepted_within(arrivals, max) == if arrivals <= max {
            arrivals
        } else {
            max
        },
    decreases arrivals,
{
    if arrivals > 0 {
        lemma_connection_ceiling((arrivals - 1) as nat, max);
    }
}

} // verus!
