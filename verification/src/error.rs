//! The ways an operation of this library can fail.

use vstd::prelude::*;

verus! {

/// Why an operation did not succeed. Every failure leaves the state it
/// was given unchanged.
#[derive(Clone, Copy, Debug, PartialEq, Eq, Structural)]
pub enum ConfigError {
    /// The operating system's random source could not supply bytes.
    EntropyUnavailable,
    /// The network is not an IPv4 address, a slash and a prefix length.
    InvalidNetworkFormat,
    /// A client of that name is already registered.
    DuplicateClientName,
    /// No client of that name is registered.
    ClientNotFound,
    /// The next address would lie beyond 255.255.255.255.
    AddressSpaceExhausted,
    /// A client address lies outside the server's network block.
    AddressOutsideNetwork,
    /// A client address is already held by a registered client.
    AddressInUse,
}

/// The text that describes an error.
pub open spec fn error_text(e: ConfigError) -> Seq<char> {
    match e {
        ConfigError::EntropyUnavailable => "secure random source unavailable"@,
        ConfigError::InvalidNetworkFormat =>
            "Invalid network format. Expected CIDR notation (e.g., 10.0.0.0/24)"@,
        ConfigError::DuplicateClientName => "Client already exists"@,
        ConfigError::ClientNotFound => "Client not found"@,
        ConfigError::AddressSpaceExhausted => "No address is left to assign"@,
        ConfigError::AddressOutsideNetwork => "Address lies outside the server network"@,
        ConfigError::AddressInUse => "Address is already assigned to a client"@,
    }
}

impl ConfigError {
    /// A one-line description for the person at the terminal.
    pub fn message(&self) -> (s: String)
        ensures
            s@ == error_text(*self),
    {
        match self {
            ConfigError::EntropyUnavailable => String::from_str("secure random source unavailable"),
            ConfigError::InvalidNetworkFormat => String::from_str(
                "Invalid network format. Expected CIDR notation (e.g., 10.0.0.0/24)",
            ),
            ConfigError::DuplicateClientName => String::from_str("Client already exists"),
            ConfigError::ClientNotFound => String::from_str("Client not found"),
            ConfigError::AddressSpaceExhausted => String::from_str("No address is left to assign"),
            ConfigError::AddressOutsideNetwork => String::from_str(
                "Address lies outside the server network",
            ),
            ConfigError::AddressInUse => String::from_str("Address is already assigned to a client"),
        }
    }
}

} // verus!
