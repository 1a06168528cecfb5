//! The values that describe a mapping table and the outcome of a command.

use vstd::prelude::*;

verus! {

/// A concrete transport protocol, as carried to the device.
#[derive(Clone, Copy, Debug, PartialEq, Eq, Structural)]
pub enum Protocol {
    Tcp,
    Udp,
}

/// What the user asked for: one protocol, or the same operation once per
/// protocol.  `Both` is never sent to the device.
#[derive(Clone, Copy, Debug, PartialEq, Eq, Structural)]
pub enum ProtocolSelector {
    Tcp,
    Udp,
    Both,
}

/// An IPv4 address, held as its four octets in network order
/// (`192.0.2.5` is `0xC0000205`).
#[derive(Clone, Copy, Debug, PartialEq, Eq, Structural)]
pub struct Ipv4 {
    pub bits: u32,
}

/// One row of the device's mapping table, as it stood when it was read.
#[derive(Clone, Debug, PartialEq, Eq)]
pub struct MappingEntry {
    /// Empty means any remote host.
    pub remote_host: String,
    pub external_port: u16,
    pub protocol: Protocol,
    pub internal_client: Ipv4,
    pub internal_port: u16,
    /// Zero means the mapping never expires.
    pub lease_seconds: u32,
    pub description: String,
}

/// The protocol and external port that identify a mapping on the device.
#[derive(Clone, Copy, Debug, PartialEq, Eq, Structural)]
pub struct Target {
    pub protocol: Protocol,
    pub external_port: u16,
}

/// Why a command did not succeed.
#[derive(Clone, Copy, Debug, PartialEq, Eq, Structural)]
pub enum ErrorKind {
    InvalidArgument,
    DiscoveryFailure,
    ExternalIpQueryFailure,
    EnumerationFailure,
    MutationFailure,
}

/// Where a command stands.  The last three are terminal.
#[derive(Clone, Copy, Debug, PartialEq, Eq, Structural)]
pub enum CommandState {
    Start,
    GatewayAcquired,
    Completed,
    CompletedWithErrors,
    Failed,
}

impl CommandState {
    /// Whether this is one of the three final states.
    pub open spec fn terminal(self) -> bool {
        self == CommandState::Completed || self == CommandState::CompletedWithErrors || self
            == CommandState::Failed
    }

    /// Whether no further step will change this state.
    pub fn is_terminal(self) -> (r: bool)
        ensures
            r == self.terminal(),
    {
        match self {
            CommandState::Start | CommandState::GatewayAcquired => false,
            _ => true,
        }
    }

    /// Zero for `Completed`, one for every other state.
    pub open spec fn spec_exit_code(self) -> u8 {
        if self == CommandState::Completed {
            0
        } else {
            1
        }
    }

    /// The process exit status for a command that ended in this state:
    /// zero exactly for `Completed`.
    pub fn exit_code(self) -> (code: u8)
        ensures
            code == self.spec_exit_code(),
            code == 0 <==> self == CommandState::Completed,
    {
        match self {
            CommandState::Completed => 0,
            _ => 1,
        }
    }
}

impl ErrorKind {
    /// A sentence for the user that says what went wrong.
    pub fn message(self) -> (text: &'static str)
        ensures
            text@ == match self {
                ErrorKind::InvalidArgument => "Invalid argument."@,
                ErrorKind::DiscoveryFailure => "Failed to find UPNP-enabled gateway."@,
                ErrorKind::ExternalIpQueryFailure => "Failed to get external IP address."@,
                ErrorKind::EnumerationFailure => "Error getting port mapping."@,
                ErrorKind::MutationFailure => "Error changing port mapping."@,
            },
    {
        match self {
            ErrorKind::InvalidArgument => "Invalid argument.",
            ErrorKind::DiscoveryFailure => "Failed to find UPNP-enabled gateway.",
            ErrorKind::ExternalIpQueryFailure => "Failed to get external IP address.",
            ErrorKind::EnumerationFailure => "Error getting port mapping.",
            ErrorKind::MutationFailure => "Error changing port mapping.",
        }
    }
}

impl MappingEntry {
    /// The protocol and external port of this row.
    pub open spec fn spec_target(&self) -> Target {
        Target { protocol: self.protocol, external_port: self.external_port }
    }

    /// The key by which this row is removed from the device.
    pub fn target(&self) -> (t: Target)
        ensures
            t == self.spec_target(),
    {
        Target { protocol: self.protocol, external_port: self.external_port }
    }
}

} // verus!
