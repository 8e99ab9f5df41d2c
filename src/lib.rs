//! A J1939 stack: frame codec, transport protocols, address management and the
//! dispatcher that ties them to a CAN bus.

/// J1939 frames and their encoding in 29-bit CAN identifiers
pub mod frame;
/// Transport protocols: TP (BAM and RTS/CTS) and NMEA 2000 fast packet
pub mod transport;
/// J1939 NAME
pub mod name;
/// Addresses in use on the bus
pub mod address;
/// Millisecond clock arithmetic
pub mod time;
/// Bounded frame queues that drop their oldest frame when full
pub mod queue;
/// Control functions and their address claim
pub mod control_function;
/// The stack: dispatch between the bus, the transport protocols and the control functions
pub mod stack;
