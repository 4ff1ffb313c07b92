//! The engine of a port scanner, with its contracts.
//!
//! * `net` orders the ports of a scan: upwards, or scattered by a stride
//!   that is coprime to the size of the range, which visits every port
//!   once.
//! * `scanner` resolves the hosts of a scan to addresses, hands out the
//!   targets, counts the attempts of each probe, and keeps what the probes
//!   find.
//! * `config` holds the settings of a scan and reads them.
//! * `scripts` chooses the scripts that run on the open ports and writes
//!   their commands.
//! * `benchmark` times the parts of a run.
//! * `support` holds the operations on text that the others share.
//!
//! Nothing here opens a socket or a file. Where a decision waits on the
//! network, the caller makes the attempt or the lookup and says how it
//! went; which attempt comes next, and what is made of its outcome, is
//! decided here.

pub mod benchmark;
pub mod config;
pub mod net;
pub mod scanner;
pub mod scripts;
pub mod support;
