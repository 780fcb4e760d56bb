//! The mathematical model of the server state: what a state holds, when
//! it is well formed, what each operation makes of it, and the text that
//! is written from it.

use crate::address::{cidr_base, cidr_prefix, cidr_text, dotted_quad, in_block, read_cidr};
use crate::crypto::KeyPairView;
use crate::decimal::decimal;
use crate::error::ConfigError;
use crate::text::unlines;
use vstd::prelude::*;

verus! {

/// What a client record holds. The four `server_*` and `allowed_ips`
/// fields are a snapshot taken when the client was made; later changes
/// of the server do not reach them.
pub struct ClientView {
    pub name: Seq<char>,
    pub ip: u32,
    pub keys: KeyPairView,
    pub server_endpoint: Seq<char>,
    pub server_port: u16,
    pub server_public_key: Seq<char>,
    pub allowed_ips: Seq<char>,
}

/// What a server state holds. `next_ip` is the address that the next
/// automatic assignment hands out.
pub struct ServerView {
    pub endpoint: Seq<char>,
    pub port: u16,
    pub network: Seq<char>,
    pub interface: Seq<char>,
    pub keys: KeyPairView,
    pub clients: Seq<ClientView>,
    pub next_ip: u32,
}

/// Some record in `clients` bears `name` (exact match, case and all).
pub open spec fn has_name(clients: Seq<ClientView>, name: Seq<char>) -> bool {
    exists|i: int| 0 <= i < clients.len() && (#[trigger] clients[i]).name == name
}

/// Some record in `clients` holds the address `ip`.
pub open spec fn has_address(clients: Seq<ClientView>, ip: u32) -> bool {
    exists|i: int| 0 <= i < clients.len() && (#[trigger] clients[i]).ip == ip
}

/// No two records bear the same name.
pub open spec fn names_unique(clients: Seq<ClientView>) -> bool {
    forall|i: int, j: int|
        0 <= i < j < clients.len() ==> (#[trigger] clients[i]).name != (#[trigger] clients[j]).name
}

/// The records of `clients` that do not bear `name`, in their order.
pub open spec fn without_name(clients: Seq<ClientView>, name: Seq<char>) -> Seq<ClientView>
    decreases clients.len(),
{
    if clients.len() == 0 {
        clients
    } else {
        let kept = without_name(clients.drop_last(), name);
        if clients.last().name == name {
            kept
        } else {
            kept.push(clients.last())
        }
    }
}

/// The routes a client is given: everything for a full tunnel, else the
/// server's own network block.
pub open spec fn allowed_routes(full_tunnel: bool, network: Seq<char>) -> Seq<char> {
    if full_tunnel {
        "0.0.0.0/0"@
    } else {
        network
    }
}

impl ServerView {
    /// The state's invariant: the network reads as a CIDR block, the
    /// counter has not fallen behind the first client address (base + 2),
    /// every key has the shape of a key, and client names are unique.
    pub open spec fn wf(self) -> bool {
        &&& read_cidr(self.network) is Some
        &&& cidr_base(self.network) + 2 <= self.next_ip
        &&& self.keys.wf()
        &&& forall|i: int| 0 <= i < self.clients.len() ==> (#[trigger] self.clients[i]).keys.wf()
        &&& names_unique(self.clients)
    }

    /// The server's own address, base + 1.
    pub open spec fn server_address(self) -> Result<u32, ConfigError> {
        if read_cidr(self.network) is None {
            Err(ConfigError::InvalidNetworkFormat)
        } else if cidr_base(self.network) == u32::MAX {
            Err(ConfigError::AddressSpaceExhausted)
        } else {
            Ok((cidr_base(self.network) + 1) as u32)
        }
    }

    /// The server's address with the network's prefix length.
    pub open spec fn server_address_text(self) -> Result<Seq<char>, ConfigError> {
        match self.server_address() {
            Ok(a) => Ok(cidr_text(a, cidr_prefix(self.network))),
            Err(e) => Err(e),
        }
    }

    /// The state with another client list.
    pub open spec fn with_clients(self, clients: Seq<ClientView>) -> ServerView {
        ServerView {
            endpoint: self.endpoint,
            port: self.port,
            network: self.network,
            interface: self.interface,
            keys: self.keys,
            clients: clients,
            next_ip: self.next_ip,
        }
    }

    /// The state with another counter.
    pub open spec fn with_next_ip(self, next_ip: u32) -> ServerView {
        ServerView {
            endpoint: self.endpoint,
            port: self.port,
            network: self.network,
            interface: self.interface,
            keys: self.keys,
            clients: self.clients,
            next_ip: next_ip,
        }
    }

    /// The record of a new client of this server.
    pub open spec fn new_client(
        self,
        name: Seq<char>,
        ip: u32,
        full_tunnel: bool,
        keys: KeyPairView,
    ) -> ClientView {
        ClientView {
            name: name,
            ip: ip,
            keys: keys,
            server_endpoint: self.endpoint,
            server_port: self.port,
            server_public_key: self.keys.public,
            allowed_ips: allowed_routes(full_tunnel, self.network),
        }
    }
}

/// A new server state: no clients, the counter at base + 2.
pub open spec fn initial_state(
    endpoint: Seq<char>,
    port: u16,
    network: Seq<char>,
    interface: Seq<char>,
    keys: KeyPairView,
) -> Result<ServerView, ConfigError> {
    if read_cidr(network) is None {
        Err(ConfigError::InvalidNetworkFormat)
    } else if cidr_base(network) + 2 > u32::MAX {
        Err(ConfigError::AddressSpaceExhausted)
    } else {
        Ok(
            ServerView {
                endpoint: endpoint,
                port: port,
                network: network,
                interface: interface,
                keys: keys,
                clients: Seq::<ClientView>::empty(),
                next_ip: (cidr_base(network) + 2) as u32,
            },
        )
    }
}

/// Appending a record: refused when its name is taken.
pub open spec fn with_client(s: ServerView, client: ClientView) -> Result<ServerView, ConfigError> {
    if has_name(s.clients, client.name) {
        Err(ConfigError::DuplicateClientName)
    } else {
        Ok(s.with_clients(s.clients.push(client)))
    }
}

/// Why a client cannot be added, if it cannot: its name is taken; the
/// server has no address to write into its configuration; the address
/// asked for lies outside the server's block or is held by a client; or
/// no address was asked for and the counter cannot move on.
pub open spec fn add_refused(s: ServerView, name: Seq<char>, explicit_ip: Option<u32>) -> Option<
    ConfigError,
> {
    if has_name(s.clients, name) {
        Some(ConfigError::DuplicateClientName)
    } else if s.server_address() is Err {
        Some(s.server_address()->Err_0)
    } else {
        match explicit_ip {
            Some(ip) => match address_check(s, ip) {
                Ok(_) => None,
                Err(e) => Some(e),
            },
            None => if s.next_ip == u32::MAX {
                Some(ConfigError::AddressSpaceExhausted)
            } else {
                None
            },
        }
    }
}

/// Adding a client: the state after it and the new record.
///
/// An explicit address is given to the client only where it lies in the
/// server's block and no client holds it; the counter then stays.
/// Without one the client gets the counter's address and the counter
/// moves on by one.
pub open spec fn client_added(
    s: ServerView,
    name: Seq<char>,
    explicit_ip: Option<u32>,
    full_tunnel: bool,
    keys: KeyPairView,
) -> Result<(ServerView, ClientView), ConfigError> {
    match add_refused(s, name, explicit_ip) {
        Some(e) => Err(e),
        None => match explicit_ip {
            Some(ip) => {
                let client = s.new_client(name, ip, full_tunnel, keys);
                Ok((s.with_clients(s.clients.push(client)), client))
            },
            None => {
                let client = s.new_client(name, s.next_ip, full_tunnel, keys);
                Ok(
                    (
                        s.with_clients(s.clients.push(client)).with_next_ip((s.next_ip + 1) as u32),
                        client,
                    ),
                )
            },
        },
    }
}

/// Why a server cannot be set up on a network, if it cannot.
pub open spec fn init_refused(network: Seq<char>) -> Option<ConfigError> {
    if read_cidr(network) is None {
        Some(ConfigError::InvalidNetworkFormat)
    } else if cidr_base(network) + 2 > u32::MAX {
        Some(ConfigError::AddressSpaceExhausted)
    } else {
        None
    }
}

/// Setting up a server: the new state and its configuration text.
pub open spec fn server_initialized(
    endpoint: Seq<char>,
    port: u16,
    network: Seq<char>,
    interface: Seq<char>,
    keys: KeyPairView,
) -> Result<(ServerView, Seq<char>), ConfigError> {
    match initial_state(endpoint, port, network, interface, keys) {
        Ok(s) => match server_text(s) {
            Ok(text) => Ok((s, text)),
            Err(e) => Err(e),
        },
        Err(e) => Err(e),
    }
}

/// Revoking a client: the state without it and the server's new
/// configuration text; `ClientNotFound` where no client bears the name.
pub open spec fn client_revoked(s: ServerView, name: Seq<char>) -> Result<
    (ServerView, Seq<char>),
    ConfigError,
> {
    if !has_name(s.clients, name) {
        Err(ConfigError::ClientNotFound)
    } else {
        match server_text(client_removed(s, name)) {
            Ok(text) => Ok((client_removed(s, name), text)),
            Err(e) => Err(e),
        }
    }
}

/// Removing a client: the state after it. The counter stays.
pub open spec fn client_removed(s: ServerView, name: Seq<char>) -> ServerView {
    s.with_clients(without_name(s.clients, name))
}

/// Whether an explicit address may be given to a new client: `Ok` where
/// it lies in the server's block and no client holds it, else the
/// reason.
pub open spec fn address_check(s: ServerView, ip: u32) -> Result<(), ConfigError> {
    if read_cidr(s.network) is None {
        Err(ConfigError::InvalidNetworkFormat)
    } else if !in_block(cidr_base(s.network), cidr_prefix(s.network), ip) {
        Err(ConfigError::AddressOutsideNetwork)
    } else if has_address(s.clients, ip) {
        Err(ConfigError::AddressInUse)
    } else {
        Ok(())
    }
}

pub open spec fn post_up_line() -> Seq<char> {
    "PostUp = iptables -A FORWARD -i %i -j ACCEPT; iptables -t nat -A POSTROUTING -j MASQUERADE"@
}

pub open spec fn post_down_line() -> Seq<char> {
    "PostDown = iptables -D FORWARD -i %i -j ACCEPT; iptables -t nat -D POSTROUTING -j MASQUERADE"@
}

/// The lines of the server's `[Interface]` section and its two rules.
pub open spec fn interface_lines(private_key: Seq<char>, address: Seq<char>, port: u16) -> Seq<
    Seq<char>,
> {
    seq![
        "[Interface]"@,
        "PrivateKey = "@ + private_key,
        "Address = "@ + address,
        "ListenPort = "@ + decimal(port as nat),
        Seq::<char>::empty(),
        post_up_line(),
        Seq::<char>::empty(),
        post_down_line(),
    ]
}

/// The lines of one `[Peer]` section: a blank line, the header, the
/// client's public key and its address as a host route.
pub open spec fn peer_lines(client: ClientView) -> Seq<Seq<char>> {
    seq![
        Seq::<char>::empty(),
        "[Peer]"@,
        "PublicKey = "@ + client.keys.public,
        "AllowedIPs = "@ + dotted_quad(client.ip) + "/32"@,
    ]
}

/// The `[Peer]` sections of all clients, in their order.
pub open spec fn peers_lines(clients: Seq<ClientView>) -> Seq<Seq<char>>
    decreases clients.len(),
{
    if clients.len() == 0 {
        Seq::<Seq<char>>::empty()
    } else {
        peers_lines(clients.drop_last()) + peer_lines(clients.last())
    }
}

/// The lines of the server's configuration, given its address text.
pub open spec fn server_lines(s: ServerView, address: Seq<char>) -> Seq<Seq<char>> {
    interface_lines(s.keys.private, address, s.port) + peers_lines(s.clients)
}

/// The server's configuration text, or why it cannot be written.
pub open spec fn server_text(s: ServerView) -> Result<Seq<char>, ConfigError> {
    match s.server_address_text() {
        Ok(address) => Ok(unlines(server_lines(s, address))),
        Err(e) => Err(e),
    }
}

/// The lines of a client's configuration.
pub open spec fn client_lines(c: ClientView) -> Seq<Seq<char>> {
    seq![
        "[Interface]"@,
        "PrivateKey = "@ + c.keys.private,
        "Address = "@ + dotted_quad(c.ip) + "/32"@,
        "DNS = 1.1.1.1, 9.9.9.9"@,
        Seq::<char>::empty(),
        "[Peer]"@,
        "PublicKey = "@ + c.server_public_key,
        "Endpoint = "@ + c.server_endpoint + ":"@ + decimal(c.server_port as nat),
        "AllowedIPs = "@ + c.allowed_ips,
        "PersistentKeepalive = 25"@,
    ]
}

/// A client's configuration text.
pub open spec fn client_text(c: ClientView) -> Seq<char> {
    unlines(client_lines(c))
}

/// A name is borne after an append exactly when it was borne before or
/// is the new record's.
pub proof fn lemma_has_name_push(clients: Seq<ClientView>, client: ClientView, name: Seq<char>)
    ensures
        has_name(clients.push(client), name) == (has_name(clients, name) || client.name == name),
{
    let longer = clients.push(client);
    if has_name(clients, name) {
        let i = choose|i: int| 0 <= i < clients.len() && (#[trigger] clients[i]).name == name;
        assert(longer[i].name == name);
    }
    if client.name == name {
        assert(longer[clients.len() as int].name == name);
    }
    if has_name(longer, name) {
        let i = choose|i: int| 0 <= i < longer.len() && (#[trigger] longer[i]).name == name;
        if i < clients.len() {
            assert(clients[i].name == name);
        }
    }
}

/// Removing a name that no record bears changes nothing.
pub proof fn lemma_without_absent(clients: Seq<ClientView>, name: Seq<char>)
    requires
        !has_name(clients, name),
    ensures
        without_name(clients, name) == clients,
    decreases clients.len(),
{
    if clients.len() > 0 {
        let front = clients.drop_last();
        assert(clients.last() == clients[clients.len() - 1]);
        assert(clients.last().name != name);
        assert(!has_name(front, name)) by {
            if has_name(front, name) {
                let i = choose|i: int| 0 <= i < front.len() && (#[trigger] front[i]).name == name;
                assert(clients[i].name == name);
            }
        }
        lemma_without_absent(front, name);
        assert(front.push(clients.last()) == clients);
    }
}

/// Every record that is kept was there before and does not bear the
/// name; nothing is kept twice.
pub proof fn lemma_without_members(clients: Seq<ClientView>, name: Seq<char>)
    ensures
        !has_name(without_name(clients, name), name),
        without_name(clients, name).len() <= clients.len(),
        forall|k: int|
            0 <= k < without_name(clients, name).len() ==> exists|j: int|
                0 <= j < clients.len() && clients[j] == #[trigger] without_name(clients, name)[k],
        names_unique(clients) ==> names_unique(without_name(clients, name)),
    decreases clients.len(),
{
    let kept = without_name(clients, name);
    if clients.len() > 0 {
        let front = clients.drop_last();
        let last = clients.last();
        let before = without_name(front, name);
        lemma_without_members(front, name);
        assert forall|k: int| 0 <= k < kept.len() implies exists|j: int|
            0 <= j < clients.len() && clients[j] == #[trigger] kept[k] by {
            if k < before.len() {
                let j = choose|j: int| 0 <= j < front.len() && front[j] == before[k];
                assert(clients[j] == kept[k]);
            } else {
                assert(clients[clients.len() - 1] == kept[k]);
            }
        }
        assert(!has_name(kept, name)) by {
            if has_name(kept, name) {
                let i = choose|i: int| 0 <= i < kept.len() && (#[trigger] kept[i]).name == name;
                if i < before.len() {
                    assert(before[i].name == name);
                }
            }
        }
        if names_unique(clients) {
            assert(names_unique(front)) by {
                assert forall|i: int, j: int| 0 <= i < j < front.len() implies (
                #[trigger] front[i]).name != (#[trigger] front[j]).name by {
                    assert(clients[i].name != clients[j].name);
                }
            }
            assert forall|i: int, j: int| 0 <= i < j < kept.len() implies (#[trigger] kept[i]).name
                != (#[trigger] kept[j]).name by {
                if j < before.len() {
                    assert(before[i].name != before[j].name);
                } else {
                    let m = choose|m: int| 0 <= m < front.len() && front[m] == before[i];
                    assert(clients[m].name != clients[clients.len() - 1].name);
                }
            }
        }
    } else {
        assert(!has_name(kept, name));
    }
}

/// Where names are unique, removing a name that a record bears takes
/// out that one record and leaves the others as they were.
pub proof fn lemma_without_present(clients: Seq<ClientView>, name: Seq<char>, at: int)
    requires
        names_unique(clients),
        0 <= at < clients.len(),
        clients[at].name == name,
    ensures
        without_name(clients, name) == clients.remove(at),
    decreases clients.len(),
{
    let front = clients.drop_last();
    let last = clients.last();
    assert(last == clients[clients.len() - 1]);
    if at == clients.len() - 1 {
        assert(!has_name(front, name)) by {
            if has_name(front, name) {
                let i = choose|i: int| 0 <= i < front.len() && (#[trigger] front[i]).name == name;
                assert(clients[i].name != clients[at].name);
            }
        }
        lemma_without_absent(front, name);
        assert(clients.remove(at) == front);
    } else {
        assert(clients[at].name != last.name);
        assert(names_unique(front)) by {
            assert forall|i: int, j: int| 0 <= i < j < front.len() implies (#[trigger] front[i]).name
                != (#[trigger] front[j]).name by {
                assert(clients[i].name != clients[j].name);
            }
        }
        assert(front[at] == clients[at]);
        lemma_without_present(front, name, at);
        assert(front.remove(at).push(last) == clients.remove(at));
    }
}

} // verus!
