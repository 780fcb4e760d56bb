//! The operations a caller asks for: set up a server, add a client,
//! list the clients, revoke one, show the server. Each takes the state
//! and plain values and gives back the new state and the texts to
//! store; reading and writing files is the caller's part.

use crate::address::Ipv4Address;
use crate::config::{ClientConfig, ServerConfig, WireGuardConfig};
use crate::crypto::{generate_keypair, KeyPair, KeyPairView};
use crate::error::ConfigError;
use crate::model::{
    add_refused, client_added, client_revoked, client_text, has_name, init_refused, server_text,
    server_initialized, ClientView,
};
use vstd::prelude::*;

verus! {

/// What adding a client gives: the new record, the server's new
/// configuration text and the client's own.
#[derive(Debug)]
pub struct IssuedClient {
    pub client: ClientConfig,
    pub server_config: String,
    pub client_config: String,
}

/// The server's summary fields.
#[derive(Debug)]
pub struct ServerSummary {
    pub endpoint: String,
    pub port: u16,
    pub network: String,
    pub interface: String,
    pub public_key: String,
    pub client_count: usize,
}

/// The number of an address that may or may not be given.
pub open spec fn address_bits(ip: Option<Ipv4Address>) -> Option<u32> {
    match ip {
        Some(a) => Some(a.bits),
        None => None,
    }
}

/// Sets up a server with the given keys: the new state, without
/// clients, and its configuration text.
pub fn init_server_with_keys(
    endpoint: &str,
    port: u16,
    network: &str,
    interface: &str,
    keys: KeyPair,
) -> (r: Result<(ServerConfig, String), ConfigError>)
    ensures
        match server_initialized(endpoint@, port, network@, interface@, keys@) {
            Ok((state, text)) => r matches Ok((s, t)) && s@ == state && t@ == text,
            Err(e) => r matches Err(e2) && e2 == e,
        },
        keys@.wf() ==> (r matches Ok((s, _)) ==> s@.wf()),
{
    let state = match ServerConfig::new(
        String::from_str(endpoint),
        port,
        String::from_str(network),
        String::from_str(interface),
        keys,
    ) {
        Ok(state) => state,
        Err(e) => {
            return Err(e);
        },
    };
    match state.to_wireguard_config() {
        Ok(text) => Ok((state, text)),
        Err(e) => Err(e),
    }
}

/// Whether a server can be set up on `network`.
fn check_network(network: &str) -> (r: Option<ConfigError>)
    ensures
        r == init_refused(network@),
{
    match ServerConfig::parse_network_base(network) {
        Ok(base) => {
            if base.bits > u32::MAX - 2 {
                Some(ConfigError::AddressSpaceExhausted)
            } else {
                None
            }
        },
        Err(e) => Some(e),
    }
}

/// Sets up a server with freshly generated keys.
///
/// A network that cannot be used is refused whatever the random source
/// does. On any other network the only failure is `EntropyUnavailable`,
/// and what comes back is the set-up with some well-formed key pair
/// that belongs to a secret.
pub fn init_server(endpoint: &str, port: u16, network: &str, interface: &str) -> (r: Result<
    (ServerConfig, String),
    ConfigError,
>)
    ensures
        match init_refused(network@) {
            Some(e) => r matches Err(e2) && e2 == e,
            None => match r {
                Ok((s, t)) => s@.wf() && exists|keys: KeyPairView|
                    keys.is_derived() && keys.wf() && #[trigger] server_initialized(
                        endpoint@,
                        port,
                        network@,
                        interface@,
                        keys,
                    ) == Ok::<(crate::model::ServerView, Seq<char>), ConfigError>((s@, t@)),
                Err(e) => e == ConfigError::EntropyUnavailable,
            },
        },
{
    match check_network(network) {
        Some(e) => {
            return Err(e);
        },
        None => {},
    }
    let keys = match generate_keypair() {
        Ok(keys) => keys,
        Err(e) => {
            return Err(e);
        },
    };
    let ghost key_view = keys@;
    let r = init_server_with_keys(endpoint, port, network, interface, keys);
    proof {
        if let Ok(pair) = &r {
            assert(server_initialized(endpoint@, port, network@, interface@, key_view) == Ok::<
                (crate::model::ServerView, Seq<char>),
                ConfigError,
            >((pair.0@, pair.1@)));
        }
    }
    r
}

/// Why a client cannot be added to `state`, if it cannot.
fn check_addition(state: &ServerConfig, name: &str, explicit_ip: Option<Ipv4Address>) -> (r: Option<
    ConfigError,
>)
    ensures
        r == add_refused(state@, name@, address_bits(explicit_ip)),
{
    if state.has_client(name) {
        return Some(ConfigError::DuplicateClientName);
    }
    match state.server_ip_with_cidr() {
        Ok(_) => {},
        Err(e) => {
            return Some(e);
        },
    }
    match explicit_ip {
        Some(ip) => match state.check_client_address(ip) {
            Ok(_) => None,
            Err(e) => Some(e),
        },
        None => {
            if state.next_ip == u32::MAX {
                Some(ConfigError::AddressSpaceExhausted)
            } else {
                None
            }
        },
    }
}

/// Adds a client with the given keys.
///
/// An explicit address is refused with `AddressOutsideNetwork` where it
/// lies outside the server's block and with `AddressInUse` where a
/// client holds it. On success the state holds the new record at the
/// end of its list, and the record and both configuration texts come
/// back. On failure the state is as it was.
pub fn add_client_with_keys(
    state: &mut ServerConfig,
    name: &str,
    explicit_ip: Option<Ipv4Address>,
    full_tunnel: bool,
    keys: KeyPair,
) -> (r: Result<IssuedClient, ConfigError>)
    ensures
        match client_added(old(state)@, name@, address_bits(explicit_ip), full_tunnel, keys@) {
            Ok((after, client)) => {
                &&& r matches Ok(issued)
                &&& final(state)@ == after
                &&& issued.client@ == client
                &&& server_text(after) == Ok::<Seq<char>, ConfigError>(issued.server_config@)
                &&& issued.client_config@ == client_text(client)
            },
            Err(e) => r matches Err(e2) && e2 == e && final(state)@ == old(state)@,
        },
        old(state)@.wf() && keys@.wf() ==> final(state)@.wf(),
{
    match check_addition(state, name, explicit_ip) {
        Some(e) => {
            return Err(e);
        },
        None => {},
    }
    let ip = match explicit_ip {
        Some(ip) => ip,
        None => state.next_client_ip(),
    };
    let allowed_ips = if full_tunnel {
        String::from_str("0.0.0.0/0")
    } else {
        state.network.clone()
    };
    let client = ClientConfig::new(
        String::from_str(name),
        ip,
        keys,
        state.endpoint.clone(),
        state.port,
        state.keys.public.clone(),
        allowed_ips,
    );
    match state.add_client(&client) {
        Ok(()) => {},
        Err(e) => {
            return Err(e);
        },
    }
    let server_config = match state.to_wireguard_config() {
        Ok(text) => text,
        Err(e) => {
            return Err(e);
        },
    };
    let client_config = match client.to_wireguard_config() {
        Ok(text) => text,
        Err(e) => {
            return Err(e);
        },
    };
    Ok(IssuedClient { client, server_config, client_config })
}

/// Adds a client with freshly generated keys.
///
/// Whether the client can be added is settled by the state and the
/// arguments alone. Where it can, the only failure is
/// `EntropyUnavailable`, and what comes back is the addition with some
/// well-formed key pair that belongs to a secret. On any failure the
/// state is as it was.
pub fn add_client(
    state: &mut ServerConfig,
    name: &str,
    explicit_ip: Option<Ipv4Address>,
    full_tunnel: bool,
) -> (r: Result<IssuedClient, ConfigError>)
    ensures
        match add_refused(old(state)@, name@, address_bits(explicit_ip)) {
            Some(e) => r matches Err(e2) && e2 == e && final(state)@ == old(state)@,
            None => match r {
                Ok(issued) => {
                    &&& issued.client@.keys.is_derived()
                    &&& issued.client@.keys.wf()
                    &&& client_added(
                        old(state)@,
                        name@,
                        address_bits(explicit_ip),
                        full_tunnel,
                        issued.client@.keys,
                    ) == Ok::<(crate::model::ServerView, ClientView), ConfigError>(
                        (final(state)@, issued.client@),
                    )
                    &&& server_text(final(state)@) == Ok::<Seq<char>, ConfigError>(
                        issued.server_config@,
                    )
                    &&& issued.client_config@ == client_text(issued.client@)
                },
                Err(e) => e == ConfigError::EntropyUnavailable && final(state)@ == old(state)@,
            },
        },
        old(state)@.wf() ==> final(state)@.wf(),
{
    match check_addition(state, name, explicit_ip) {
        Some(e) => {
            return Err(e);
        },
        None => {},
    }
    let keys = match generate_keypair() {
        Ok(keys) => keys,
        Err(e) => {
            return Err(e);
        },
    };
    add_client_with_keys(state, name, explicit_ip, full_tunnel, keys)
}

/// The clients' names and addresses, in the order of the list.
pub fn list_clients(state: &ServerConfig) -> (listing: Vec<(String, Ipv4Address)>)
    ensures
        listing.len() == state@.clients.len(),
        forall|i: int|
            0 <= i < listing.len() ==> (#[trigger] listing[i]).0@ == state@.clients[i].name
                && listing[i].1.bits == state@.clients[i].ip,
{
    let mut listing: Vec<(String, Ipv4Address)> = Vec::new();
    let mut i: usize = 0;
    while i < state.clients.len()
        invariant
            i <= state.clients.len(),
            listing.len() == i,
            forall|j: int|
                0 <= j < i ==> (#[trigger] listing[j]).0@ == state@.clients[j].name
                    && listing[j].1.bits == state@.clients[j].ip,
        decreases state.clients.len() - i,
    {
        listing.push((state.clients[i].name.clone(), state.clients[i].ip));
        i += 1;
    }
    listing
}

/// Revokes a client: removes its record and gives the server's new
/// configuration text. `ClientNotFound`, and nothing changed, where no
/// client bears the name.
pub fn revoke_client(state: &mut ServerConfig, name: &str) -> (r: Result<String, ConfigError>)
    ensures
        match client_revoked(old(state)@, name@) {
            Ok((after, text)) => {
                &&& r matches Ok(t) && t@ == text
                &&& final(state)@ == after
                &&& !has_name(final(state)@.clients, name@)
            },
            Err(e) => r matches Err(e2) && e2 == e && final(state)@ == old(state)@,
        },
        old(state)@.wf() ==> final(state)@.wf(),
{
    if !state.has_client(name) {
        return Err(ConfigError::ClientNotFound);
    }
    match state.server_ip_with_cidr() {
        Ok(_) => {},
        Err(e) => {
            return Err(e);
        },
    }
    match state.remove_client(name) {
        Ok(_) => {},
        Err(e) => {
            return Err(e);
        },
    }
    state.to_wireguard_config()
}

/// The server's summary fields.
pub fn show_server(state: &ServerConfig) -> (summary: ServerSummary)
    ensures
        summary.endpoint@ == state@.endpoint,
        summary.port == state@.port,
        summary.network@ == state@.network,
        summary.interface@ == state@.interface,
        summary.public_key@ == state@.keys.public,
        summary.client_count == state@.clients.len(),
{
    ServerSummary {
        endpoint: state.endpoint.clone(),
        port: state.port,
        network: state.network.clone(),
        interface: state.interface.clone(),
        public_key: state.keys.public.clone(),
        client_count: state.clients.len(),
    }
}

} // verus!
