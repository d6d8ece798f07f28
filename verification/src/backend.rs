//! A single upstream endpoint: its stable id, address, connection and
//! failure accounting, and the attempt to open a connection to it.

use vstd::prelude::*;
use crate::addr::Addr;

verus! {

/// A backend is disabled once this many consecutive connect failures have
/// accumulated.
pub const MAX_FAILURES_PER_BACKEND: usize = 10;

/// Errors surfaced by backend selection and connection attempts.
#[derive(Clone, Copy, Debug, PartialEq, Eq, Structural)]
pub enum ConnectionError {
    /// The application is unknown, its list is empty, no eligible backend
    /// exists, or the retry budget was exhausted.
    NoBackendAvailable,
    /// The transport-level connection attempt failed.
    ConnectionFailed,
}

/// The protocol the upstream connection will speak.
#[derive(Clone, Copy, Debug, PartialEq, Eq, Structural)]
pub enum BackendProtocol {
    TCP,
    HTTP1,
    HTTP2,
}

/// Opens a transport connection to an address. The pool core never performs
/// I/O itself: the enclosing session supplies an implementation (a real TCP
/// connector, or a stub in tests), and nothing is assumed of its outcome.
pub trait Connector<S> {
    fn connect(&mut self, addr: &Addr, protocol: BackendProtocol, server_name: Option<&str>)
        -> Result<S, ConnectionError>;
}

/// An upstream endpoint. `id` is the sticky-session key, assigned once by the
/// owning list and never reused; `failures` counts consecutive connect
/// failures and gates eligibility.
#[derive(Debug)]
pub struct Backend {
    pub instance_id: String,
    pub address: Addr,
    pub id: u32,
    pub active_connections: usize,
    pub failures: usize,
}

impl Backend {
    pub fn new(instance_id: &str, address: Addr, id: u32) -> (r: Backend)
        ensures
            r.instance_id@ == instance_id@,
            r.address == address,
            r.id == id,
            r.active_connections == 0,
            r.failures == 0,
    {
        Backend {
            instance_id: instance_id.to_owned(),
            address,
            id,
            active_connections: 0,
            failures: 0,
        }
    }

    /// True iff the endpoint is currently eligible to receive new traffic.
    pub open spec fn spec_can_open(self) -> bool {
        self.failures < MAX_FAILURES_PER_BACKEND
    }

    pub fn can_open(&self) -> (r: bool)
        ensures
            r == self.spec_can_open(),
    {
        self.failures < MAX_FAILURES_PER_BACKEND
    }

    /// A copy of this record, handed out to the session as its endpoint
    /// handle.
    pub fn snapshot(&self) -> (r: Backend)
        ensures
            r == *self,
    {
        Backend {
            instance_id: self.instance_id.clone(),
            address: self.address,
            id: self.id,
            active_connections: self.active_connections,
            failures: self.failures,
        }
    }

    /// One connection attempt through the supplied connector. Success resets
    /// the consecutive-failure count and takes one connection slot; failure
    /// adds one consecutive failure. Identity fields never change; which
    /// branch is taken is the connector's decision alone.
    pub fn try_connect<S, C: Connector<S>>(
        &mut self,
        protocol: BackendProtocol,
        server_name: Option<&str>,
        connector: &mut C,
    ) -> (r: Result<S, ConnectionError>)
        ensures
            final(self).instance_id == old(self).instance_id,
            final(self).address == old(self).address,
            final(self).id == old(self).id,
            r is Ok ==> {
                &&& final(self).failures == 0
                &&& final(self).active_connections == if old(self).active_connections
                    < usize::MAX { old(self).active_connections + 1 } else {
                    old(self).active_connections as int
                }
            },
            r is Err ==> {
                &&& final(self).active_connections == old(self).active_connections
                &&& final(self).failures == if old(self).failures < usize::MAX {
                    old(self).failures + 1
                } else {
                    old(self).failures as int
                }
            },
    {
        match connector.connect(&self.address, protocol, server_name) {
            Ok(s) => {
                self.failures = 0;
                if self.active_connections < usize::MAX {
                    self.active_connections = self.active_connections + 1;
                }
                Ok(s)
            },
            Err(e) => {
                if self.failures < usize::MAX {
                    self.failures = self.failures + 1;
                }
                Err(e)
            },
        }
    }

    /// Releases one connection slot; called when the session closes the
    /// upstream connection.
    pub fn dec_connections(&mut self)
        ensures
            final(self).instance_id == old(self).instance_id,
            final(self).address == old(self).address,
            final(self).id == old(self).id,
            final(self).failures == old(self).failures,
            final(self).active_connections == if old(self).active_connections > 0 {
                old(self).active_connections - 1
            } else {
                0
            },
    {
        if self.active_connections > 0 {
            self.active_connections = self.active_connections - 1;
        }
    }
}

} // verus!
