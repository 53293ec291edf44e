//! Loader for a secondary FPGA configured over its slave-serial interface.
//!
//! The library validates a header-tagged gateware image and drives the
//! configuration handshake (reset pulse, init-ready wait, MSB-first bit
//! shifting, bounded completion poll) through an abstract register and
//! timing port, so that the whole protocol is verified against the trace
//! of port operations it performs.

pub mod driver;
pub mod error;
pub mod image;
pub mod port;
pub mod sim;
