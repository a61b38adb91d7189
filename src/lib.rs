//! Multiplexing core of a reverse TCP tunnel: the frame codec that carries
//! many flows over one control connection, the per-flow buffers and flow
//! table, and the decisions that the server and client event loops take.
use vstd::prelude::*;

pub mod error;
pub mod buffer;
pub mod packet;
pub mod pacing;
pub mod streams;
pub mod tunnel_server;
