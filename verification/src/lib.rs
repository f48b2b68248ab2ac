//! The rules and decisions of a forwarder that relays TCP connections and
//! UDP datagrams from a bound local endpoint to a fixed remote endpoint.
//!
//! Nothing here opens a socket or reads a clock. The forwarder's tasks do
//! that; they hand what they meet to the step functions of this library,
//! which keep the state and say what is done next:
//!
//! - [`config`]: the forwarding rules, their validation, and the rendering
//!   of a configuration as text;
//! - [`addr`]: internet addresses as plain values and their textual forms;
//! - [`tcp_forwarder`]: the pump that carries one direction of a TCP
//!   connection pair, and the life of the pair;
//! - [`udp_forwarder`]: the table of UDP sessions by client address, with
//!   their refreshing, relaying and sweeping;
//! - [`text`]: decimal numerals.

pub mod addr;
pub mod config;
pub mod tcp_forwarder;
pub mod text;
pub mod udp_forwarder;
