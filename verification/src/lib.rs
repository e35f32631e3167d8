//! Find the processes listening on a set of TCP ports and report on
//! terminating them.
//!
//! The crate holds the pure logic of a small port-killing command line tool:
//! validating and de-duplicating port arguments, scanning the text table
//! produced by a connection-listing utility for listening sockets, and
//! building the status messages that the tool prints.  All I/O — reading the
//! command line, invoking the system utilities — lives outside this crate;
//! every function here is a total function from plain values to plain values
//! with a proved contract.

pub mod args;
pub mod format;
pub mod report;
pub mod resolver;
pub mod text;
