//! The command surface: what a caller asks a scan to do.

use vstd::prelude::*;
use crate::bridge::parsed_terms;
use crate::engine::{Scan, ScanState};
use crate::error::SpecParseError;
use crate::options::{port_notation, port_range_option};
use crate::parse::parse_outcome;
use crate::probe::Mode;

verus! {

/// Milliseconds allowed for one connect where the caller names no timeout.
pub const DEFAULT_TIMEOUT_MS: u64 = 3000;

/// An IP address as plain numbers: the four octets of a version 4 address,
/// or the eight segments of a version 6 address.
#[derive(Clone, Copy, Debug, PartialEq, Eq, Structural)]
pub enum Address {
    V4(u8, u8, u8, u8),
    V6(u16, u16, u16, u16, u16, u16, u16, u16),
}

impl Address {
    /// The unspecified version 4 address, `0.0.0.0`: where a listener binds
    /// when the caller names no address.
    pub fn unspecified() -> (address: Address)
        ensures
            address == Address::V4(0, 0, 0, 0),
    {
        Address::V4(0, 0, 0, 0)
    }
}

/// The two operations.
#[derive(Debug)]
pub enum Commands {
    /// Try to listen at range
    Listen { ip_addr: Address, port_range: String },
    /// Try to connect to range
    Connect { ip_addr: Address, port_range: String, timeout_ms: u64 },
}

impl Commands {
    /// A listen command on the unspecified address.
    pub fn listen(port_range: String) -> (command: Commands)
        ensures
            command == (Commands::Listen { ip_addr: Address::V4(0, 0, 0, 0), port_range }),
    {
        Commands::Listen { ip_addr: Address::unspecified(), port_range }
    }

    /// A connect command with the default timeout.
    pub fn connect(ip_addr: Address, port_range: String) -> (command: Commands)
        ensures
            command == (Commands::Connect { ip_addr, port_range, timeout_ms: DEFAULT_TIMEOUT_MS }),
    {
        Commands::Connect { ip_addr, port_range, timeout_ms: DEFAULT_TIMEOUT_MS }
    }

    /// The scan mode that the command asks for.
    pub open spec fn spec_mode(&self) -> Mode {
        match self {
            Commands::Listen { .. } => Mode::Listen,
            Commands::Connect { timeout_ms, .. } => Mode::Connect { timeout_ms: *timeout_ms },
        }
    }

    /// The port range text of the command.
    pub open spec fn spec_port_range(&self) -> Seq<char> {
        match self {
            Commands::Listen { port_range, .. } => port_range@,
            Commands::Connect { port_range, .. } => port_range@,
        }
    }

    /// The address of the command.
    pub open spec fn spec_ip_addr(&self) -> Address {
        match self {
            Commands::Listen { ip_addr, .. } => *ip_addr,
            Commands::Connect { ip_addr, .. } => *ip_addr,
        }
    }

    /// The scan mode that the command asks for.
    pub fn mode(&self) -> (mode: Mode)
        ensures
            mode == self.spec_mode(),
    {
        match self {
            Commands::Listen { .. } => Mode::Listen,
            Commands::Connect { timeout_ms, .. } => Mode::Connect { timeout_ms: *timeout_ms },
        }
    }

    /// The port range text of the command.
    pub fn port_range(&self) -> (text: &str)
        ensures
            text@ == self.spec_port_range(),
    {
        match self {
            Commands::Listen { port_range, .. } => port_range.as_str(),
            Commands::Connect { port_range, .. } => port_range.as_str(),
        }
    }

    /// The address to bind or connect to.
    pub fn ip_addr(&self) -> (address: Address)
        ensures
            address == self.spec_ip_addr(),
    {
        match self {
            Commands::Listen { ip_addr, .. } => *ip_addr,
            Commands::Connect { ip_addr, .. } => *ip_addr,
        }
    }

    /// Starts the scan that the command asks for, in the port notation. A
    /// port range text that is refused starts no scan.
    pub fn scan(&self) -> (res: Result<Scan, SpecParseError>)
        ensures
            match parse_outcome(
                port_notation(),
                self.spec_port_range(),
                parsed_terms(port_notation(), self.spec_port_range()),
            ) {
                Ok(ports) => res is Ok && res->Ok_0.wf() && res->Ok_0@ == ScanState::initial(
                    self.spec_mode(),
                    ports,
                ),
                Err(fault) => res is Err && res->Err_0 == fault,
            },
    {
        let options = port_range_option();
        Scan::start(self.mode(), &options, self.port_range())
    }
}

/// A command and how much of its progress is logged.
#[derive(Debug)]
pub struct Cli {
    pub command: Commands,
    pub verbose: bool,
}

} // verus!
