//! The settings the proxy derives from its configuration: how much it logs
//! and where it listens.
use vstd::prelude::*;

verus! {

/// How much the proxy logs, from the most severe messages only to all.
#[derive(Copy, Clone, Debug, PartialEq, Eq, Structural)]
pub enum LogLevel {
    Critical,
    Error,
    Warning,
    Info,
    Debug,
    Trace,
}

/// The level for the number of times verbose output was asked for.
pub open spec fn spec_log_level(verbose: u64) -> LogLevel {
    if verbose == 0 {
        LogLevel::Critical
    } else if verbose == 1 {
        LogLevel::Error
    } else if verbose == 2 {
        LogLevel::Warning
    } else if verbose == 3 {
        LogLevel::Info
    } else if verbose == 4 {
        LogLevel::Debug
    } else {
        LogLevel::Trace
    }
}

/// The place of a level from the least to the most output.
pub open spec fn level_rank(level: LogLevel) -> nat {
    match level {
        LogLevel::Critical => 0,
        LogLevel::Error => 1,
        LogLevel::Warning => 2,
        LogLevel::Info => 3,
        LogLevel::Debug => 4,
        LogLevel::Trace => 5,
    }
}

/// Each time verbose output is asked for, the log shows one level more,
/// from only critical messages up to everything: the level's place is the
/// count, capped at the last level.
pub proof fn lemma_log_level_rises_with_verbosity(verbose: u64)
    ensures
        level_rank(spec_log_level(verbose)) == (if verbose < 5 {
            verbose as nat
        } else {
            5nat
        }),
{
}

pub fn log_level(verbose: u64) -> (res: LogLevel)
    ensures
        res == spec_log_level(verbose),
{
    match verbose {
        0 => LogLevel::Critical,
        1 => LogLevel::Error,
        2 => LogLevel::Warning,
        3 => LogLevel::Info,
        4 => LogLevel::Debug,
        _ => LogLevel::Trace,
    }
}

/// An IP address.
#[derive(Copy, Clone, Debug)]
pub enum IpAddress {
    V4([u8; 4]),
    V6([u16; 8]),
}

/// The port the proxy listens on when none is configured.
pub const DEFAULT_BIND_PORT: u16 = 8331;

/// The address the proxy listens on when none is configured: the loopback
/// address.
pub open spec fn spec_default_bind_address() -> IpAddress {
    IpAddress::V4([127u8, 0u8, 0u8, 1u8])
}

pub fn default_bind_address() -> (res: IpAddress)
    ensures
        res == spec_default_bind_address(),
{
    IpAddress::V4([127, 0, 0, 1])
}

/// Where the proxy listens: an address and port, or a socket that systemd
/// passes under a name.
#[derive(Debug)]
pub enum BindTarget<S> {
    Inet { address: IpAddress, port: u16 },
    Systemd(S),
}

/// A configuration that names both a systemd socket and an address or port.
#[derive(Copy, Clone, Debug, PartialEq, Eq, Structural)]
pub enum BindError {
    SystemdWithInet,
}

impl BindError {
    pub open spec fn spec_message(self) -> Seq<char> {
        "bind_systemd_socket_name can NOT be specified when bind_address or bind_port is specified"@
    }

    pub fn message(&self) -> (res: &'static str)
        ensures
            res@ == self.spec_message(),
    {
        "bind_systemd_socket_name can NOT be specified when bind_address or bind_port is specified"
    }
}

/// Where the proxy listens: a systemd socket alone, or an address and a
/// port, each defaulting when it is not configured.
pub fn bind_target<S>(address: Option<IpAddress>, port: Option<u16>, socket_name: Option<S>) -> (res: Result<BindTarget<S>, BindError>)
    ensures
        match (address, port, socket_name) {
            (None, None, Some(name)) => res == Ok::<BindTarget<S>, BindError>(BindTarget::Systemd(name)),
            (_, _, Some(_)) => res == Err::<BindTarget<S>, BindError>(BindError::SystemdWithInet),
            (a, p, None) => res == Ok::<BindTarget<S>, BindError>(BindTarget::Inet {
                address: match a {
                    Some(x) => x,
                    None => spec_default_bind_address(),
                },
                port: match p {
                    Some(x) => x,
                    None => DEFAULT_BIND_PORT,
                },
            }),
        },
{
    match (address, port, socket_name) {
        (Some(addr), Some(port), None) => Ok(BindTarget::Inet { address: addr, port }),
        (None, Some(port), None) => Ok(BindTarget::Inet { address: default_bind_address(), port }),
        (Some(addr), None, None) => Ok(BindTarget::Inet { address: addr, port: DEFAULT_BIND_PORT }),
        (None, None, None) => Ok(BindTarget::Inet { address: default_bind_address(), port: DEFAULT_BIND_PORT }),
        (None, None, Some(socket_name)) => Ok(BindTarget::Systemd(socket_name)),
        _ => Err(BindError::SystemdWithInet),
    }
}

} // verus!
