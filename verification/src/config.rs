//! The server state and its client records: making them, changing them,
//! and writing the configuration text of each.

use crate::address::{
    cidr_base, dotted_quad, lemma_join2, parse_cidr_chars, read_cidr, Ipv4Address,
};
use crate::crypto::KeyPair;
use crate::decimal::{decimal, format_decimal};
use crate::error::ConfigError;
use crate::laws::law_client_removed_wf;
use crate::model::{
    address_check, client_lines, client_removed, client_text, has_name, initial_state,
    interface_lines, lemma_has_name_push, lemma_without_members, names_unique, peer_lines,
    peers_lines, server_lines, server_text, with_client, without_name, ClientView, ServerView,
};
use crate::text::{chars_of, lemma_unlines_push, unlines};
use vstd::prelude::*;

verus! {

/// Something that can be written as tunnel configuration text.
pub trait WireGuardConfig {
    /// The text, or the reason why there is none.
    spec fn wireguard_text(&self) -> Result<Seq<char>, ConfigError>;

    /// Writes the configuration text.
    fn to_wireguard_config(&self) -> (r: Result<String, ConfigError>)
        ensures
            match self.wireguard_text() {
                Ok(text) => r matches Ok(s) && s@ == text,
                Err(e) => r matches Err(e2) && e2 == e,
            },
    ;
}

/// One authorised peer.
#[derive(Debug)]
pub struct ClientConfig {
    pub name: String,
    pub ip: Ipv4Address,
    pub keys: KeyPair,
    pub server_endpoint: String,
    pub server_port: u16,
    pub server_public_key: String,
    pub allowed_ips: String,
}

impl View for ClientConfig {
    type V = ClientView;

    open spec fn view(&self) -> ClientView {
        ClientView {
            name: self.name@,
            ip: self.ip.bits,
            keys: self.keys@,
            server_endpoint: self.server_endpoint@,
            server_port: self.server_port,
            server_public_key: self.server_public_key@,
            allowed_ips: self.allowed_ips@,
        }
    }
}

impl Clone for ClientConfig {
    fn clone(&self) -> (copy: ClientConfig)
        ensures
            copy@ == self@,
    {
        ClientConfig {
            name: self.name.clone(),
            ip: self.ip,
            keys: self.keys.clone(),
            server_endpoint: self.server_endpoint.clone(),
            server_port: self.server_port,
            server_public_key: self.server_public_key.clone(),
            allowed_ips: self.allowed_ips.clone(),
        }
    }
}

/// What a list of client records holds.
pub open spec fn client_views(clients: Seq<ClientConfig>) -> Seq<ClientView> {
    Seq::new(clients.len(), |i: int| clients[i]@)
}

/// The tunnel network's root record.
#[derive(Debug)]
pub struct ServerConfig {
    pub endpoint: String,
    pub port: u16,
    pub network: String,
    pub interface: String,
    pub keys: KeyPair,
    pub clients: Vec<ClientConfig>,
    /// The address that the next automatic assignment hands out.
    pub next_ip: u32,
}

impl View for ServerConfig {
    type V = ServerView;

    open spec fn view(&self) -> ServerView {
        ServerView {
            endpoint: self.endpoint@,
            port: self.port,
            network: self.network@,
            interface: self.interface@,
            keys: self.keys@,
            clients: client_views(self.clients@),
            next_ip: self.next_ip,
        }
    }
}

impl Clone for ServerConfig {
    fn clone(&self) -> (copy: ServerConfig)
        ensures
            copy@ == self@,
    {
        ServerConfig {
            endpoint: self.endpoint.clone(),
            port: self.port,
            network: self.network.clone(),
            interface: self.interface.clone(),
            keys: self.keys.clone(),
            clients: clone_clients(&self.clients),
            next_ip: self.next_ip,
        }
    }
}

/// Appends `line` and a line feed to a text that is written in lines.
fn push_line(out: &mut String, line: &str, Ghost(lines): Ghost<Seq<Seq<char>>>)
    requires
        old(out)@ == unlines(lines),
    ensures
        final(out)@ == unlines(lines.push(line@)),
{
    out.append(line);
    out.append("\n");
    proof {
        reveal_strlit("\n");
        lemma_unlines_push(lines, line@);
        assert(out@ =~= (unlines(lines) + line@).push('\n'));
    }
}

/// Appends `label`, `value` and a line feed.
fn push_labelled(out: &mut String, label: &str, value: &str, Ghost(lines): Ghost<Seq<Seq<char>>>)
    requires
        old(out)@ == unlines(lines),
    ensures
        final(out)@ == unlines(lines.push(label@ + value@)),
{
    out.append(label);
    out.append(value);
    out.append("\n");
    proof {
        reveal_strlit("\n");
        lemma_unlines_push(lines, label@ + value@);
        assert(out@ =~= (unlines(lines) + (label@ + value@)).push('\n'));
    }
}

/// A copy of a list of client records.
fn clone_clients(clients: &Vec<ClientConfig>) -> (copy: Vec<ClientConfig>)
    ensures
        client_views(copy@) == client_views(clients@),
{
    let mut copy: Vec<ClientConfig> = Vec::new();
    let mut i: usize = 0;
    while i < clients.len()
        invariant
            i <= clients.len(),
            copy.len() == i,
            forall|j: int| 0 <= j < i ==> copy@[j]@ == clients@[j]@,
        decreases clients.len() - i,
    {
        copy.push(clients[i].clone());
        i += 1;
    }
    assert(client_views(copy@) =~= client_views(clients@));
    copy
}

/// Whether some record in `clients` bears `name`.
fn any_named(clients: &Vec<ClientConfig>, name: &str) -> (r: bool)
    ensures
        r == has_name(client_views(clients@), name@),
{
    let wanted = String::from_str(name);
    let ghost views = client_views(clients@);
    let mut i: usize = 0;
    while i < clients.len()
        invariant
            i <= clients.len(),
            wanted@ == name@,
            views == client_views(clients@),
            forall|j: int| 0 <= j < i ==> (#[trigger] views[j]).name != name@,
        decreases clients.len() - i,
    {
        if clients[i].name == wanted {
            assert(views[i as int].name == name@);
            return true;
        }
        i += 1;
    }
    false
}

/// Whether no two records in `clients` bear the same name.
fn all_names_differ(clients: &Vec<ClientConfig>) -> (r: bool)
    ensures
        r == names_unique(client_views(clients@)),
{
    let ghost views = client_views(clients@);
    let mut j: usize = 0;
    while j < clients.len()
        invariant
            j <= clients.len(),
            views == client_views(clients@),
            forall|a: int, b: int|
                0 <= a < b < j ==> (#[trigger] views[a]).name != (#[trigger] views[b]).name,
        decreases clients.len() - j,
    {
        let mut i: usize = 0;
        while i < j
            invariant
                i <= j,
                j < clients.len(),
                views == client_views(clients@),
                forall|a: int| 0 <= a < i ==> (#[trigger] views[a]).name != views[j as int].name,
            decreases j - i,
        {
            if clients[i].name == clients[j].name {
                assert(views[i as int].name == views[j as int].name);
                return false;
            }
            i += 1;
        }
        j += 1;
    }
    true
}

/// Whether every record in `clients` has keys of the shape of a key.
fn all_keys_well_formed(clients: &Vec<ClientConfig>) -> (r: bool)
    ensures
        r == (forall|i: int|
            0 <= i < clients.len() ==> (#[trigger] client_views(clients@)[i]).keys.wf()),
{
    let ghost views = client_views(clients@);
    let mut i: usize = 0;
    while i < clients.len()
        invariant
            i <= clients.len(),
            views == client_views(clients@),
            forall|j: int| 0 <= j < i ==> (#[trigger] views[j]).keys.wf(),
        decreases clients.len() - i,
    {
        if !clients[i].keys.is_well_formed() {
            assert(!views[i as int].keys.wf());
            return false;
        }
        i += 1;
    }
    true
}

impl ClientConfig {
    /// A client record of the given parts.
    pub fn new(
        name: String,
        ip: Ipv4Address,
        keys: KeyPair,
        server_endpoint: String,
        server_port: u16,
        server_public_key: String,
        allowed_ips: String,
    ) -> (client: ClientConfig)
        ensures
            client@ == (ClientView {
                name: name@,
                ip: ip.bits,
                keys: keys@,
                server_endpoint: server_endpoint@,
                server_port: server_port,
                server_public_key: server_public_key@,
                allowed_ips: allowed_ips@,
            }),
    {
        ClientConfig {
            name,
            ip,
            keys,
            server_endpoint,
            server_port,
            server_public_key,
            allowed_ips,
        }
    }
}

impl WireGuardConfig for ClientConfig {
    open spec fn wireguard_text(&self) -> Result<Seq<char>, ConfigError> {
        Ok(client_text(self@))
    }

    /// The client's configuration: its `[Interface]` section and the
    /// server as its one `[Peer]`.
    fn to_wireguard_config(&self) -> (r: Result<String, ConfigError>) {
        let mut out = String::new();
        let ghost mut lines: Seq<Seq<char>> = Seq::empty();
        let ip = self.ip.to_string();
        let mut address = ip.clone();
        address.append("/32");
        let port = format_decimal(self.server_port as u32);
        let mut endpoint = self.server_endpoint.clone();
        endpoint.append(":");
        endpoint.append(port.as_str());
        proof {
            reveal_strlit("");
        }
        push_line(&mut out, "[Interface]", Ghost(lines));
        proof {
            lines = lines.push("[Interface]"@);
        }
        push_labelled(&mut out, "PrivateKey = ", self.keys.private.as_str(), Ghost(lines));
        proof {
            lines = lines.push("PrivateKey = "@ + self.keys.private@);
        }
        push_labelled(&mut out, "Address = ", address.as_str(), Ghost(lines));
        proof {
            lines = lines.push("Address = "@ + address@);
        }
        push_line(&mut out, "DNS = 1.1.1.1, 9.9.9.9", Ghost(lines));
        proof {
            lines = lines.push("DNS = 1.1.1.1, 9.9.9.9"@);
        }
        push_line(&mut out, "", Ghost(lines));
        proof {
            lines = lines.push(""@);
        }
        push_line(&mut out, "[Peer]", Ghost(lines));
        proof {
            lines = lines.push("[Peer]"@);
        }
        push_labelled(&mut out, "PublicKey = ", self.server_public_key.as_str(), Ghost(lines));
        proof {
            lines = lines.push("PublicKey = "@ + self.server_public_key@);
        }
        push_labelled(&mut out, "Endpoint = ", endpoint.as_str(), Ghost(lines));
        proof {
            lines = lines.push("Endpoint = "@ + endpoint@);
        }
        push_labelled(&mut out, "AllowedIPs = ", self.allowed_ips.as_str(), Ghost(lines));
        proof {
            lines = lines.push("AllowedIPs = "@ + self.allowed_ips@);
        }
        push_line(&mut out, "PersistentKeepalive = 25", Ghost(lines));
        proof {
            lines = lines.push("PersistentKeepalive = 25"@);
            let wanted = client_lines(self@);
            assert(""@ =~= Seq::<char>::empty());
            assert("Address = "@ + address@ =~= wanted[2]);
            assert("Endpoint = "@ + endpoint@ =~= wanted[7]);
            assert(lines =~= wanted);
        }
        Ok(out)
    }
}

impl ServerConfig {
    /// A new server state for `network`, with no clients.
    ///
    /// Fails with `InvalidNetworkFormat` where `network` is no CIDR
    /// block, and with `AddressSpaceExhausted` where base + 2 is no
    /// address.
    pub fn new(
        endpoint: String,
        port: u16,
        network: String,
        interface: String,
        keys: KeyPair,
    ) -> (r: Result<ServerConfig, ConfigError>)
        ensures
            match initial_state(endpoint@, port, network@, interface@, keys@) {
                Ok(state) => r matches Ok(s) && s@ == state,
                Err(e) => r matches Err(e2) && e2 == e,
            },
            keys@.wf() ==> (r matches Ok(s) ==> s@.wf()),
    {
        let base = match ServerConfig::parse_network_base(network.as_str()) {
            Ok(base) => base,
            Err(e) => {
                return Err(e);
            },
        };
        if base.bits > u32::MAX - 2 {
            return Err(ConfigError::AddressSpaceExhausted);
        }
        let s = ServerConfig {
            endpoint,
            port,
            network,
            interface,
            keys,
            clients: Vec::new(),
            next_ip: base.bits + 2,
        };
        assert(s@.clients =~= Seq::<ClientView>::empty());
        Ok(s)
    }

    /// Whether a client of that name is registered.
    pub fn has_client(&self, name: &str) -> (r: bool)
        ensures
            r == has_name(self@.clients, name@),
    {
        any_named(&self.clients, name)
    }

    /// Appends a client record; refused with `DuplicateClientName`, and
    /// nothing changed, where its name is taken.
    pub fn add_client(&mut self, client: &ClientConfig) -> (r: Result<(), ConfigError>)
        ensures
            match with_client(old(self)@, client@) {
                Ok(state) => r is Ok && final(self)@ == state,
                Err(e) => r matches Err(e2) && e2 == e && final(self)@ == old(self)@,
            },
            old(self)@.wf() && client@.keys.wf() ==> final(self)@.wf(),
    {
        if any_named(&self.clients, client.name.as_str()) {
            return Err(ConfigError::DuplicateClientName);
        }
        let ghost before = self@.clients;
        self.clients.push(client.clone());
        proof {
            assert(self@.clients =~= before.push(client@));
            if old(self)@.wf() && client@.keys.wf() {
                let after = self@.clients;
                assert forall|i: int, j: int| 0 <= i < j < after.len() implies (
                #[trigger] after[i]).name != (#[trigger] after[j]).name by {
                    if j < before.len() {
                        assert(before[i].name != before[j].name);
                    } else {
                        assert(before[i].name != client@.name);
                    }
                }
                assert forall|i: int| 0 <= i < after.len() implies (#[trigger] after[i]).keys.wf() by {
                    if i < before.len() {
                        assert(before[i].keys.wf());
                    }
                }
            }
        }
        Ok(())
    }

    /// Removes every record that bears `name` and says whether there was
    /// one. The counter stays where it is.
    pub fn remove_client(&mut self, name: &str) -> (r: Result<bool, ConfigError>)
        ensures
            r matches Ok(removed) && removed == has_name(old(self)@.clients, name@),
            final(self)@ == client_removed(old(self)@, name@),
            !has_name(final(self)@.clients, name@),
            old(self)@.wf() ==> final(self)@.wf(),
    {
        let wanted = String::from_str(name);
        let mut kept: Vec<ClientConfig> = Vec::new();
        let mut found = false;
        let ghost views = self@.clients;
        let mut i: usize = 0;
        while i < self.clients.len()
            invariant
                i <= self.clients.len(),
                wanted@ == name@,
                *self == *old(self),
                views == client_views(self.clients@),
                client_views(kept@) == without_name(views.take(i as int), name@),
                found == has_name(views.take(i as int), name@),
            decreases self.clients.len() - i,
        {
            let ghost shorter = views.take(i as int);
            let ghost kept_before = client_views(kept@);
            proof {
                assert(views.take(i + 1) == shorter.push(views[i as int]));
                assert(shorter.push(views[i as int]).drop_last() == shorter);
                lemma_has_name_push(shorter, views[i as int], name@);
            }
            if self.clients[i].name == wanted {
                found = true;
            } else {
                kept.push(self.clients[i].clone());
                assert(client_views(kept@) =~= kept_before.push(views[i as int]));
            }
            i += 1;
        }
        proof {
            assert(views.take(self.clients.len() as int) == views);
            lemma_without_members(views, name@);
            if old(self)@.wf() {
                law_client_removed_wf(old(self)@, name@);
            }
        }
        self.clients = kept;
        Ok(found)
    }

    /// Hands out the counter's address and moves the counter on by one.
    pub fn next_client_ip(&mut self) -> (ip: Ipv4Address)
        requires
            old(self)@.next_ip < u32::MAX,
        ensures
            ip.bits == old(self)@.next_ip,
            final(self)@ == old(self)@.with_next_ip((old(self)@.next_ip + 1) as u32),
    {
        let ip = Ipv4Address { bits: self.next_ip };
        self.next_ip += 1;
        ip
    }

    /// The base address of a network given as a CIDR block.
    pub fn parse_network_base(network: &str) -> (r: Result<Ipv4Address, ConfigError>)
        ensures
            match r {
                Ok(base) => read_cidr(network@) is Some && base.bits == cidr_base(network@),
                Err(e) => read_cidr(network@) is None && e == ConfigError::InvalidNetworkFormat,
            },
    {
        let v = chars_of(network);
        match parse_cidr_chars(&v) {
            Some((base, _)) => Ok(base),
            None => Err(ConfigError::InvalidNetworkFormat),
        }
    }

    /// The server's own address, base + 1, with the network's prefix
    /// length.
    pub fn server_ip_with_cidr(&self) -> (r: Result<String, ConfigError>)
        ensures
            match self@.server_address_text() {
                Ok(text) => r matches Ok(s) && s@ == text,
                Err(e) => r matches Err(e2) && e2 == e,
            },
    {
        let v = chars_of(self.network.as_str());
        match parse_cidr_chars(&v) {
            None => Err(ConfigError::InvalidNetworkFormat),
            Some((base, prefix)) => {
                if base.bits == u32::MAX {
                    return Err(ConfigError::AddressSpaceExhausted);
                }
                let server = Ipv4Address { bits: base.bits + 1 };
                let mut s = server.to_string();
                s.append("/");
                let p = format_decimal(prefix as u32);
                s.append(p.as_str());
                proof {
                    reveal_strlit("/");
                    lemma_join2(dotted_quad(server.bits), decimal(prefix as nat), '/');
                    assert(s@ =~= dotted_quad(server.bits).push('/') + decimal(prefix as nat));
                }
                Ok(s)
            },
        }
    }

    /// Whether an explicit address may be given to a new client: `Ok`
    /// where it lies in the server's block and no client holds it.
    #[verifier::loop_isolation(false)]
    pub fn check_client_address(&self, ip: Ipv4Address) -> (r: Result<(), ConfigError>)
        ensures
            r == address_check(self@, ip.bits),
    {
        let v = chars_of(self.network.as_str());
        let (base, prefix) = match parse_cidr_chars(&v) {
            Some(block) => block,
            None => {
                return Err(ConfigError::InvalidNetworkFormat);
            },
        };
        if !ip.is_in_block(base, prefix) {
            return Err(ConfigError::AddressOutsideNetwork);
        }
        let ghost views = self@.clients;
        let mut i: usize = 0;
        while i < self.clients.len()
            invariant
                i <= self.clients.len(),
                views == client_views(self.clients@),
                forall|j: int| 0 <= j < i ==> (#[trigger] views[j]).ip != ip.bits,
            decreases self.clients.len() - i,
        {
            if self.clients[i].ip.bits == ip.bits {
                assert(views[i as int].ip == ip.bits);
                return Err(ConfigError::AddressInUse);
            }
            i += 1;
        }
        Ok(())
    }

    /// Whether the state is well formed.
    pub fn is_valid(&self) -> (r: bool)
        ensures
            r == self@.wf(),
    {
        let v = chars_of(self.network.as_str());
        match parse_cidr_chars(&v) {
            None => false,
            Some((base, _)) => {
                base.bits as u64 + 2 <= self.next_ip as u64 && self.keys.is_well_formed()
                    && all_keys_well_formed(&self.clients) && all_names_differ(&self.clients)
            },
        }
    }

    /// Writes the configuration text around a given address text.
    fn write_config(&self, address: &str) -> (text: String)
        ensures
            text@ == unlines(server_lines(self@, address@)),
    {
        let mut out = String::new();
        let ghost mut lines: Seq<Seq<char>> = Seq::empty();
        let port = format_decimal(self.port as u32);
        proof {
            reveal_strlit("");
        }
        push_line(&mut out, "[Interface]", Ghost(lines));
        proof {
            lines = lines.push("[Interface]"@);
        }
        push_labelled(&mut out, "PrivateKey = ", self.keys.private.as_str(), Ghost(lines));
        proof {
            lines = lines.push("PrivateKey = "@ + self.keys.private@);
        }
        push_labelled(&mut out, "Address = ", address, Ghost(lines));
        proof {
            lines = lines.push("Address = "@ + address@);
        }
        push_labelled(&mut out, "ListenPort = ", port.as_str(), Ghost(lines));
        proof {
            lines = lines.push("ListenPort = "@ + port@);
        }
        push_line(&mut out, "", Ghost(lines));
        proof {
            lines = lines.push(""@);
        }
        push_line(
            &mut out,
            "PostUp = iptables -A FORWARD -i %i -j ACCEPT; iptables -t nat -A POSTROUTING -j MASQUERADE",
            Ghost(lines),
        );
        proof {
            lines = lines.push(
                "PostUp = iptables -A FORWARD -i %i -j ACCEPT; iptables -t nat -A POSTROUTING -j MASQUERADE"@,
            );
        }
        push_line(&mut out, "", Ghost(lines));
        proof {
            lines = lines.push(""@);
        }
        push_line(
            &mut out,
            "PostDown = iptables -D FORWARD -i %i -j ACCEPT; iptables -t nat -D POSTROUTING -j MASQUERADE",
            Ghost(lines),
        );
        let ghost header = interface_lines(self@.keys.private, address@, self.port);
        let ghost views = self@.clients;
        proof {
            lines = lines.push(
                "PostDown = iptables -D FORWARD -i %i -j ACCEPT; iptables -t nat -D POSTROUTING -j MASQUERADE"@,
            );
            assert(""@ =~= Seq::<char>::empty());
            assert(lines =~= header);
            assert(views.take(0) =~= Seq::<ClientView>::empty());
            assert(lines =~= header + peers_lines(views.take(0)));
        }
        let mut i: usize = 0;
        while i < self.clients.len()
            invariant
                i <= self.clients.len(),
                views == client_views(self.clients@),
                out@ == unlines(lines),
                lines == header + peers_lines(views.take(i as int)),
            decreases self.clients.len() - i,
        {
            let client = &self.clients[i];
            let mut route = client.ip.to_string();
            route.append("/32");
            let ghost before = lines;
            proof {
                reveal_strlit("");
            }
            push_line(&mut out, "", Ghost(lines));
            proof {
                lines = lines.push(""@);
            }
            push_line(&mut out, "[Peer]", Ghost(lines));
            proof {
                lines = lines.push("[Peer]"@);
            }
            push_labelled(&mut out, "PublicKey = ", client.keys.public.as_str(), Ghost(lines));
            proof {
                lines = lines.push("PublicKey = "@ + client.keys.public@);
            }
            push_labelled(&mut out, "AllowedIPs = ", route.as_str(), Ghost(lines));
            proof {
                lines = lines.push("AllowedIPs = "@ + route@);
                let longer = views.take(i + 1);
                assert(longer.drop_last() == views.take(i as int));
                assert(longer.last() == views[i as int]);
                assert(views[i as int] == client@);
                assert(""@ =~= Seq::<char>::empty());
                assert("AllowedIPs = "@ + route@ =~= peer_lines(client@)[3]);
                assert(lines =~= before + peer_lines(client@));
                assert(lines =~= header + peers_lines(longer));
            }
            i += 1;
        }
        proof {
            assert(views.take(self.clients.len() as int) == views);
        }
        out
    }
}

impl WireGuardConfig for ServerConfig {
    open spec fn wireguard_text(&self) -> Result<Seq<char>, ConfigError> {
        server_text(self@)
    }

    /// The server's configuration: its `[Interface]` section, then one
    /// `[Peer]` section for each client.
    fn to_wireguard_config(&self) -> (r: Result<String, ConfigError>) {
        match self.server_ip_with_cidr() {
            Ok(address) => Ok(self.write_config(address.as_str())),
            Err(e) => Err(e),
        }
    }
}

} // verus!
