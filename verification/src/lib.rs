//! Runtime topology orchestration for a WHEP-to-SRT audio bridge.
//!
//! The crate decides how a running processing graph is rewired when a
//! negotiated session surfaces new media tracks, and how the graph's
//! lifecycle is supervised. Every decision is a verified function over a
//! plain-value model; the caller performs the resulting commands on the
//! real media framework.

pub mod command;
pub mod diagnostics;
pub mod launch;
pub mod media;
pub mod observe;
pub mod orchestrator;
pub mod promote;
pub mod route;
pub mod session;
pub mod state;
pub mod supervisor;
pub mod text;
pub mod topology;
