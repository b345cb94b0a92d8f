//! The command-line surface as plain data: the parsed invocation the
//! front-end hands the library, and the mode decision the inspection run
//! makes from it.

use vstd::prelude::*;

verus! {

/// One parsed invocation.
pub struct Cli {
    pub command: Commands,
}

/// The subcommands: a port scan, a web crawl, a capture-file analysis, or an
/// inspection run.
pub enum Commands {
    Scan { target: String, ports: Option<String>, json: bool, udp: bool },
    Web { url: String, depth: usize },
    Pcap { file: String },
    Ids { file: Option<String>, device: Option<String>, rules: Option<String>, log: Option<String> },
}

/// How an inspection run proceeds: bounded replay of a stored capture file,
/// live acquisition from a named interface, or nothing (neither was given).
pub enum RunMode {
    Batch,
    Live,
    Invalid,
}

/// Picks the inspection run's mode: a capture file selects batch replay, an
/// interface name (with no file) selects live acquisition, and neither is an
/// error reported to the user.
pub fn select_mode(file: &Option<String>, device: &Option<String>) -> (r: RunMode)
    ensures
        file is Some ==> r is Batch,
        file is None && device is Some ==> r is Live,
        file is None && device is None ==> r is Invalid,
{
    if file.is_some() {
        RunMode::Batch
    } else if device.is_some() {
        RunMode::Live
    } else {
        RunMode::Invalid
    }
}

} // verus!
