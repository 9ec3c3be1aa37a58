//! Core of an embedded, off-screen Wayland compositor.
//!
//! The crate holds the verified logic of the compositor: window layout and
//! handle management, socket-address probing, child-process environment
//! assembly, input routing, and dmabuf export negotiation. The protocol
//! server, the GPU driver and process launching are external collaborators,
//! driven by a thin unverified shell around this library.

pub mod wayvr;
pub mod client;
pub mod egl_data;
pub mod window;
