//! The settings of a scan as they come from the command line and from the
//! configuration file.

use vstd::prelude::*;
use std::path::PathBuf;

verus! {

/// `std::path::PathBuf`: a path of the file system. It is carried along
/// and nothing is known of it.
#[verifier::external_type_specification]
#[verifier::external_body]
pub struct ExPathBuf(PathBuf);

pub const LOWEST_PORT_NUMBER: u16 = 1;

pub const TOP_PORT_NUMBER: u16 = 65535;

/// The order in which the ports of a scan are visited. It never changes
/// which ports are visited.
#[derive(Debug, Clone, Copy, PartialEq, Eq, Structural)]
pub enum ScanOrder {
    Serial,
    Random,
}

/// Which scripts run on the open ports once a scan is over.
#[derive(Debug, Clone, Copy, PartialEq, Eq, Structural)]
pub enum ScriptRequired {
    Off,
    Default,
    Custom,
}

/// An inclusive range of ports, `start ..= end`.
#[derive(Debug, Clone, Copy, PartialEq, Eq, Structural)]
pub struct PortRange {
    pub start: u16,
    pub end: u16,
}

impl PortRange {
    /// A range is well formed when it holds at least one port.
    pub open spec fn wf(self) -> bool {
        self.start <= self.end
    }

    /// The number of ports in a well-formed range.
    pub open spec fn count(self) -> int {
        self.end - self.start + 1
    }

    /// The range `start ..= end`. A range whose end lies before its start
    /// is refused.
    pub fn new(start: u16, end: u16) -> (range: Option<Self>)
        ensures
            range == (if start <= end {
                Some(PortRange { start, end })
            } else {
                None
            }),
    {
        if start <= end {
            Some(PortRange { start, end })
        } else {
            None
        }
    }

    /// Whether the range holds at least one port.
    pub fn is_valid(&self) -> (valid: bool)
        ensures
            valid == self.wf(),
    {
        self.start <= self.end
    }
}

/// The settings given on the command line.
#[derive(Debug, Clone)]
pub struct Opts {
    /// The hosts to scan: addresses, CIDR blocks, names or files of hosts.
    pub addresses: Vec<String>,
    /// The ports to scan, where they are listed.
    pub ports: Option<Vec<u16>>,
    /// The ports to scan, where they are a range.
    pub range: Option<PortRange>,
    /// Whether the configuration file is passed over.
    pub no_config: bool,
    /// Where the configuration file lies, if not at its usual place.
    pub config_path: Option<PathBuf>,
    /// Whether the output is meant for other programs to read.
    pub greppable: bool,
    /// Whether the output is meant for a screen reader.
    pub accessible: bool,
    /// The name servers to ask, or a file that lists them.
    pub resolver: Option<String>,
    /// The number of probes that may be under way at once.
    pub batch_size: u16,
    /// The time allowed to each attempt, in milliseconds.
    pub timeout: u32,
    /// The number of attempts allowed to each probe.
    pub tries: u8,
    /// The limit of open files to ask the system for.
    pub ulimit: Option<u64>,
    /// The order in which the ports are visited.
    pub scan_order: ScanOrder,
    /// Which scripts run once the scan is over.
    pub scripts: ScriptRequired,
    /// Whether the ports are those that the configuration file names.
    pub top: bool,
    /// What is handed on to the scripts.
    pub command: Vec<String>,
    /// The ports that are left out of the scan.
    pub exclude_ports: Option<Vec<u16>>,
    /// Whether the probes go over UDP rather than TCP.
    pub udp: bool,
}

/// The settings of the configuration file. What the file does not name is
/// `None`.
#[derive(Debug)]
pub struct Config {
    pub addresses: Option<Vec<String>>,
    /// The ports that the file names, each with the text that it has for
    /// a key.
    pub ports: Option<Vec<(String, u16)>>,
    pub range: Option<PortRange>,
    pub greppable: Option<bool>,
    pub accessible: Option<bool>,
    pub batch_size: Option<u16>,
    pub timeout: Option<u32>,
    pub tries: Option<u8>,
    pub ulimit: Option<u64>,
    pub resolver: Option<String>,
    pub scan_order: Option<ScanOrder>,
    pub command: Option<Vec<String>>,
    pub scripts: Option<ScriptRequired>,
    pub exclude_ports: Option<Vec<u16>>,
    pub udp: Option<bool>,
}

/// The head of a script: where it lies, what it is tagged with, and how it
/// is called.
#[derive(Debug, Clone)]
pub struct ScriptFile {
    pub path: Option<String>,
    pub tags: Option<Vec<String>>,
    pub developer: Option<Vec<String>>,
    pub port: Option<String>,
    pub ports_separator: Option<String>,
    pub call_format: Option<String>,
}

/// The settings that choose among the scripts.
#[derive(Debug, Clone)]
pub struct ScriptConfig {
    pub tags: Option<Vec<String>>,
    pub ports: Option<Vec<String>>,
    pub developer: Option<Vec<String>>,
}

} // verus!
