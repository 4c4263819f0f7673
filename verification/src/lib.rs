//! Verified core of a two-node serial/SPI calculator link: a bounded byte
//! channel, the interrupt-driven transport bridge built on it, and the
//! calculator protocol engine that turns a byte stream into a formatted reply.

pub mod bridge;
pub mod calculator;
pub mod channel;
pub mod decimal;
pub mod node;
pub mod operand;
pub mod protocol;
