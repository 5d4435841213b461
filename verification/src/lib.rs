//! A small tool library: a stateful counter, a checked integer adder, an
//! IPv4 address validator, a CIDR membership checker, and a registry that
//! dispatches named invocations to those operations.

pub mod counter;
pub mod errors;
pub mod ops;
pub mod ip;
pub mod cidr;
pub mod dispatch;
