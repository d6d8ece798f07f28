//! Core of a reverse-proxy data plane: a backend pool that tracks the
//! upstream endpoints of each application and selects one per request, and an
//! HTTP/2 connection state machine that recognises the client preface, frames
//! the byte stream and drives the proxy's I/O-readiness interest set.

pub mod addr;
pub mod backend;
pub mod backends;
pub mod frame;
pub mod state;
mod hpack_dec;
mod hpack_scan;
mod rng;
