use rusty_wire::address::Ipv4Address;
use rusty_wire::config::{ClientConfig, ServerConfig, WireGuardConfig};
use rusty_wire::crypto::{generate_keypair, keypair_from_secret, KeyPair};
use rusty_wire::error::ConfigError;

const SERVER_SECRET: [u8; 32] = [
    119, 7, 109, 10, 115, 24, 165, 125, 60, 22, 193, 114, 81, 178, 102, 69, 223, 76, 47, 135, 235,
    192, 153, 42, 177, 119, 251, 165, 29, 185, 44, 42,
];

const CLIENT_SECRET: [u8; 32] = [
    93, 171, 8, 126, 98, 74, 138, 75, 121, 225, 127, 139, 131, 128, 14, 230, 111, 59, 177, 41, 38,
    24, 182, 253, 28, 47, 139, 39, 255, 136, 224, 235,
];

const SERVER_PRIVATE: &str = "dwdtCnMYpX08FsFyUbJmRd9ML4frwJkqsXf7pR25LCo=";
const SERVER_PUBLIC: &str = "hSDwCYkwp1R0i33ctD73Wg2/Og0mOBr066SpjqqbTmo=";
const CLIENT_PRIVATE: &str = "XasIfmJKikt54X+Lg4AO5m87sSkmGLb9HC+LJ/+I4Os=";
const CLIENT_PUBLIC: &str = "3p7bfXt9wbTTW2HC7OQ1Nz+DQ8hbeGdNrfx+FG+IK08=";

fn fixed_server(network: &str) -> ServerConfig {
    ServerConfig::new(
        "vpn.example.com".to_string(),
        51820,
        network.to_string(),
        "eth0".to_string(),
        keypair_from_secret(&SERVER_SECRET),
    )
    .unwrap()
}

fn fixed_client(name: &str, ip: &str, keys: KeyPair) -> ClientConfig {
    ClientConfig::new(
        name.to_string(),
        Ipv4Address::parse(ip).unwrap(),
        keys,
        "vpn.example.com".to_string(),
        51820,
        SERVER_PUBLIC.to_string(),
        "10.0.0.0/24".to_string(),
    )
}

#[test]
fn test_server_config_creation() {
    let keys = generate_keypair().unwrap();
    let server = ServerConfig::new(
        "example.com".to_string(),
        51820,
        "10.0.0.0/24".to_string(),
        "eth0".to_string(),
        keys,
    )
    .unwrap();

    assert_eq!(server.endpoint, "example.com");
    assert_eq!(server.port, 51820);
    assert_eq!(server.network, "10.0.0.0/24");
    assert!(server.clients.is_empty());
}

#[test]
fn test_next_client_ip() {
    let keys = generate_keypair().unwrap();
    let mut server = ServerConfig::new(
        "example.com".to_string(),
        51820,
        "10.0.0.0/24".to_string(),
        "eth0".to_string(),
        keys,
    )
    .unwrap();

    let ip1 = server.next_client_ip();
    let ip2 = server.next_client_ip();

    assert_eq!(ip1.to_string(), "10.0.0.2");
    assert_eq!(ip2.to_string(), "10.0.0.3");
}

#[test]
fn test_wireguard_config_generation() {
    let keys = generate_keypair().unwrap();
    let server = ServerConfig::new(
        "example.com".to_string(),
        51820,
        "10.0.0.0/24".to_string(),
        "eth0".to_string(),
        keys,
    )
    .unwrap();

    let config = server.to_wireguard_config().unwrap();

    assert!(config.contains("[Interface]"));
    assert!(config.contains("PrivateKey ="));
    assert!(config.contains("Address = 10.0.0.1/24")); // Should have CIDR notation
    assert!(config.contains("ListenPort = 51820"));
    assert!(config.contains("iptables"));
}

#[test]
fn test_server_ip_with_cidr() {
    let keys = generate_keypair().unwrap();
    let server = ServerConfig::new(
        "example.com".to_string(),
        51820,
        "10.0.0.0/24".to_string(),
        "eth0".to_string(),
        keys,
    )
    .unwrap();

    let server_ip = server.server_ip_with_cidr().unwrap();
    assert_eq!(server_ip, "10.0.0.1/24");
}

#[test]
fn new_server_starts_counting_at_base_plus_two() {
    let server = fixed_server("192.168.5.0/24");
    assert_eq!(server.next_ip, 3232236802);
    assert_eq!(server.interface, "eth0");
    assert_eq!(server.keys.private, SERVER_PRIVATE);
    assert_eq!(server.keys.public, SERVER_PUBLIC);
    assert_eq!(server.server_ip_with_cidr().unwrap(), "192.168.5.1/24");
    assert!(server.is_valid());
}

#[test]
fn new_server_on_an_unaligned_base_counts_from_it() {
    let mut server = fixed_server("10.1.2.200/16");
    assert_eq!(server.server_ip_with_cidr().unwrap(), "10.1.2.201/16");
    assert_eq!(server.next_client_ip().to_string(), "10.1.2.202");
    let mut wide = fixed_server("10.0.0.254/8");
    assert_eq!(wide.server_ip_with_cidr().unwrap(), "10.0.0.255/8");
    assert_eq!(wide.next_client_ip().to_string(), "10.0.1.0");
    assert_eq!(wide.next_client_ip().to_string(), "10.0.1.1");
}

#[test]
fn new_server_rejects_a_malformed_network() {
    for bad in ["", "10.0.0.0", "10.0.0.0/", "10.0.0/24", "10.0.0.0/33", "10.0.0.0/24/1", "net/24", "10.0.0.0/abc"] {
        let r = ServerConfig::new(
            "vpn.example.com".to_string(),
            51820,
            bad.to_string(),
            "eth0".to_string(),
            keypair_from_secret(&SERVER_SECRET),
        );
        assert!(matches!(r, Err(ConfigError::InvalidNetworkFormat)), "{}", bad);
    }
}

#[test]
fn new_server_rejects_a_base_without_room() {
    for full in ["255.255.255.254/31", "255.255.255.255/32"] {
        let r = ServerConfig::new(
            "vpn.example.com".to_string(),
            51820,
            full.to_string(),
            "eth0".to_string(),
            keypair_from_secret(&SERVER_SECRET),
        );
        assert!(matches!(r, Err(ConfigError::AddressSpaceExhausted)), "{}", full);
    }
    let last = fixed_server("255.255.255.253/30");
    assert_eq!(last.next_ip, u32::MAX);
    assert_eq!(last.server_ip_with_cidr().unwrap(), "255.255.255.254/30");
}

#[test]
fn parse_network_base_gives_the_base_address() {
    assert_eq!(
        ServerConfig::parse_network_base("10.0.0.0/24").unwrap(),
        Ipv4Address::from_octets(10, 0, 0, 0)
    );
    assert_eq!(ServerConfig::parse_network_base("172.16.4.9/12").unwrap().to_string(), "172.16.4.9");
    assert!(matches!(
        ServerConfig::parse_network_base("10.0.0.0"),
        Err(ConfigError::InvalidNetworkFormat)
    ));
    assert!(matches!(
        ServerConfig::parse_network_base("10.0.0.0/24/3"),
        Err(ConfigError::InvalidNetworkFormat)
    ));
}

#[test]
fn add_client_appends_in_order() {
    let mut server = fixed_server("10.0.0.0/24");
    let first = fixed_client("alice", "10.0.0.2", keypair_from_secret(&CLIENT_SECRET));
    let second = fixed_client("bob", "10.0.0.3", keypair_from_secret(&SERVER_SECRET));
    assert!(server.add_client(&first).is_ok());
    assert!(server.add_client(&second).is_ok());
    assert_eq!(server.clients.len(), 2);
    assert_eq!(server.clients[0].name, "alice");
    assert_eq!(server.clients[1].name, "bob");
    assert_eq!(server.clients[0].keys.public, CLIENT_PUBLIC);
    assert_eq!(server.clients[1].ip.to_string(), "10.0.0.3");
    assert_eq!(server.next_ip, 167772162);
    assert!(server.has_client("alice"));
    assert!(!server.has_client("Alice"));
    assert!(server.is_valid());
}

#[test]
fn add_client_refuses_a_taken_name_and_changes_nothing() {
    let mut server = fixed_server("10.0.0.0/24");
    let first = fixed_client("alice", "10.0.0.2", keypair_from_secret(&CLIENT_SECRET));
    server.add_client(&first).unwrap();
    let again = fixed_client("alice", "10.0.0.9", keypair_from_secret(&SERVER_SECRET));
    let r = server.add_client(&again);
    assert!(matches!(r, Err(ConfigError::DuplicateClientName)));
    assert_eq!(server.clients.len(), 1);
    assert_eq!(server.clients[0].ip.to_string(), "10.0.0.2");
    assert_eq!(server.clients[0].keys.private, CLIENT_PRIVATE);
    assert_eq!(server.next_ip, 167772162);
}

#[test]
fn names_differ_by_case() {
    let mut server = fixed_server("10.0.0.0/24");
    server.add_client(&fixed_client("alice", "10.0.0.2", keypair_from_secret(&CLIENT_SECRET))).unwrap();
    assert!(server
        .add_client(&fixed_client("ALICE", "10.0.0.3", keypair_from_secret(&CLIENT_SECRET)))
        .is_ok());
    assert_eq!(server.clients.len(), 2);
}

#[test]
fn remove_client_takes_out_the_named_record_only() {
    let mut server = fixed_server("10.0.0.0/24");
    for (name, ip) in [("alice", "10.0.0.2"), ("bob", "10.0.0.3"), ("carol", "10.0.0.4")] {
        server.add_client(&fixed_client(name, ip, keypair_from_secret(&CLIENT_SECRET))).unwrap();
    }
    assert_eq!(server.remove_client("bob").unwrap(), true);
    assert_eq!(server.clients.len(), 2);
    assert_eq!(server.clients[0].name, "alice");
    assert_eq!(server.clients[0].ip.to_string(), "10.0.0.2");
    assert_eq!(server.clients[1].name, "carol");
    assert_eq!(server.clients[1].ip.to_string(), "10.0.0.4");
    assert!(!server.has_client("bob"));
}

#[test]
fn remove_client_with_an_unknown_name_changes_nothing() {
    let mut server = fixed_server("10.0.0.0/24");
    server.add_client(&fixed_client("alice", "10.0.0.2", keypair_from_secret(&CLIENT_SECRET))).unwrap();
    let before = server.to_wireguard_config().unwrap();
    assert_eq!(server.remove_client("mallory").unwrap(), false);
    assert_eq!(server.remove_client("").unwrap(), false);
    assert_eq!(server.clients.len(), 1);
    assert_eq!(server.clients[0].name, "alice");
    assert_eq!(server.next_ip, 167772162);
    assert_eq!(server.to_wireguard_config().unwrap(), before);
}

#[test]
fn remove_client_does_not_move_the_counter() {
    let mut server = fixed_server("10.0.0.0/24");
    let ip = server.next_client_ip();
    server.add_client(&fixed_client("alice", &ip.to_string(), keypair_from_secret(&CLIENT_SECRET))).unwrap();
    assert_eq!(server.next_ip, 167772163);
    server.remove_client("alice").unwrap();
    assert_eq!(server.next_ip, 167772163);
    assert_eq!(server.next_client_ip().to_string(), "10.0.0.3");
}

#[test]
fn server_config_text_without_clients() {
    let server = fixed_server("10.0.0.0/24");
    let expected = "[Interface]\n\
PrivateKey = dwdtCnMYpX08FsFyUbJmRd9ML4frwJkqsXf7pR25LCo=\n\
Address = 10.0.0.1/24\n\
ListenPort = 51820\n\
\n\
PostUp = iptables -A FORWARD -i %i -j ACCEPT; iptables -t nat -A POSTROUTING -j MASQUERADE\n\
\n\
PostDown = iptables -D FORWARD -i %i -j ACCEPT; iptables -t nat -D POSTROUTING -j MASQUERADE\n";
    assert_eq!(server.to_wireguard_config().unwrap(), expected);
}

#[test]
fn server_config_text_with_two_clients() {
    let mut server = fixed_server("10.0.0.0/24");
    server.add_client(&fixed_client("alice", "10.0.0.2", keypair_from_secret(&CLIENT_SECRET))).unwrap();
    server.add_client(&fixed_client("bob", "10.0.0.77", keypair_from_secret(&SERVER_SECRET))).unwrap();
    let expected = "[Interface]\n\
PrivateKey = dwdtCnMYpX08FsFyUbJmRd9ML4frwJkqsXf7pR25LCo=\n\
Address = 10.0.0.1/24\n\
ListenPort = 51820\n\
\n\
PostUp = iptables -A FORWARD -i %i -j ACCEPT; iptables -t nat -A POSTROUTING -j MASQUERADE\n\
\n\
PostDown = iptables -D FORWARD -i %i -j ACCEPT; iptables -t nat -D POSTROUTING -j MASQUERADE\n\
\n\
[Peer]\n\
PublicKey = 3p7bfXt9wbTTW2HC7OQ1Nz+DQ8hbeGdNrfx+FG+IK08=\n\
AllowedIPs = 10.0.0.2/32\n\
\n\
[Peer]\n\
PublicKey = hSDwCYkwp1R0i33ctD73Wg2/Og0mOBr066SpjqqbTmo=\n\
AllowedIPs = 10.0.0.77/32\n";
    assert_eq!(server.to_wireguard_config().unwrap(), expected);
}

#[test]
fn server_config_has_one_interface_and_one_peer_per_client() {
    let mut server = fixed_server("172.16.0.0/12");
    for n in 0..5 {
        let text = server.to_wireguard_config().unwrap();
        let lines: Vec<&str> = text.split('\n').collect();
        assert_eq!(lines.iter().filter(|l| **l == "[Interface]").count(), 1);
        assert_eq!(lines.iter().filter(|l| **l == "[Peer]").count(), n);
        assert_eq!(text.matches("[Interface]").count(), 1);
        assert_eq!(text.matches("[Peer]").count(), n);
        let routes: Vec<&&str> = lines.iter().filter(|l| l.starts_with("AllowedIPs = ")).collect();
        assert_eq!(routes.len(), n);
        assert!(routes.iter().all(|l| l.ends_with("/32")));
        let ip = server.next_client_ip();
        let name = format!("client{}", n);
        server.add_client(&fixed_client(&name, &ip.to_string(), generate_keypair().unwrap())).unwrap();
    }
}

#[test]
fn server_config_does_not_name_the_interface() {
    let mut server = fixed_server("10.0.0.0/24");
    let before = server.to_wireguard_config().unwrap();
    server.interface = "wan7".to_string();
    assert_eq!(server.to_wireguard_config().unwrap(), before);
    assert!(!before.contains("eth0"));
}

#[test]
fn server_config_fails_on_a_broken_network() {
    let mut server = fixed_server("10.0.0.0/24");
    server.network = "10.0.0.0".to_string();
    assert!(matches!(server.to_wireguard_config(), Err(ConfigError::InvalidNetworkFormat)));
    assert!(matches!(server.server_ip_with_cidr(), Err(ConfigError::InvalidNetworkFormat)));
    assert!(!server.is_valid());
    server.network = "255.255.255.255/32".to_string();
    assert!(matches!(server.to_wireguard_config(), Err(ConfigError::AddressSpaceExhausted)));
}

#[test]
fn client_config_text() {
    let client = ClientConfig::new(
        "alice".to_string(),
        Ipv4Address::parse("10.0.0.2").unwrap(),
        keypair_from_secret(&CLIENT_SECRET),
        "vpn.example.com".to_string(),
        51820,
        SERVER_PUBLIC.to_string(),
        "0.0.0.0/0".to_string(),
    );
    let expected = "[Interface]\n\
PrivateKey = XasIfmJKikt54X+Lg4AO5m87sSkmGLb9HC+LJ/+I4Os=\n\
Address = 10.0.0.2/32\n\
DNS = 1.1.1.1, 9.9.9.9\n\
\n\
[Peer]\n\
PublicKey = hSDwCYkwp1R0i33ctD73Wg2/Og0mOBr066SpjqqbTmo=\n\
Endpoint = vpn.example.com:51820\n\
AllowedIPs = 0.0.0.0/0\n\
PersistentKeepalive = 25\n";
    assert_eq!(client.to_wireguard_config().unwrap(), expected);
}

#[test]
fn client_config_keeps_its_snapshot_of_the_server() {
    let mut server = fixed_server("10.0.0.0/24");
    let client = fixed_client("alice", "10.0.0.2", keypair_from_secret(&CLIENT_SECRET));
    server.add_client(&client).unwrap();
    server.endpoint = "other.example.org".to_string();
    server.port = 1;
    assert_eq!(server.clients[0].server_endpoint, "vpn.example.com");
    assert_eq!(server.clients[0].server_port, 51820);
    let text = server.clients[0].to_wireguard_config().unwrap();
    assert!(text.contains("Endpoint = vpn.example.com:51820\n"));
}

#[test]
fn client_new_keeps_every_part() {
    let client = fixed_client("alice", "10.0.0.2", keypair_from_secret(&CLIENT_SECRET));
    assert_eq!(client.name, "alice");
    assert_eq!(client.ip, Ipv4Address::new(167772162));
    assert_eq!(client.keys.public, CLIENT_PUBLIC);
    assert_eq!(client.server_endpoint, "vpn.example.com");
    assert_eq!(client.server_port, 51820);
    assert_eq!(client.server_public_key, SERVER_PUBLIC);
    assert_eq!(client.allowed_ips, "10.0.0.0/24");
    let copy = client.clone();
    assert_eq!(copy.name, "alice");
    assert_eq!(copy.ip, client.ip);
    assert_eq!(copy.keys.private, CLIENT_PRIVATE);
    assert_eq!(copy.allowed_ips, "10.0.0.0/24");
}

#[test]
fn server_clone_keeps_every_part() {
    let mut server = fixed_server("10.0.0.0/24");
    server.add_client(&fixed_client("alice", "10.0.0.2", keypair_from_secret(&CLIENT_SECRET))).unwrap();
    server.next_client_ip();
    let copy = server.clone();
    assert_eq!(copy.endpoint, server.endpoint);
    assert_eq!(copy.port, server.port);
    assert_eq!(copy.network, server.network);
    assert_eq!(copy.interface, server.interface);
    assert_eq!(copy.keys.public, server.keys.public);
    assert_eq!(copy.keys.private, server.keys.private);
    assert_eq!(copy.next_ip, server.next_ip);
    assert_eq!(copy.clients.len(), 1);
    assert_eq!(copy.clients[0].name, "alice");
    assert_eq!(copy.to_wireguard_config().unwrap(), server.to_wireguard_config().unwrap());
}

#[test]
fn explicit_addresses_can_be_checked() {
    let mut server = fixed_server("10.0.0.0/24");
    server.add_client(&fixed_client("alice", "10.0.0.2", keypair_from_secret(&CLIENT_SECRET))).unwrap();
    assert!(server.check_client_address(Ipv4Address::parse("10.0.0.50").unwrap()).is_ok());
    assert!(matches!(
        server.check_client_address(Ipv4Address::parse("10.0.1.50").unwrap()),
        Err(ConfigError::AddressOutsideNetwork)
    ));
    assert!(matches!(
        server.check_client_address(Ipv4Address::parse("10.0.0.2").unwrap()),
        Err(ConfigError::AddressInUse)
    ));
    server.network = "nonsense".to_string();
    assert!(matches!(
        server.check_client_address(Ipv4Address::parse("10.0.0.50").unwrap()),
        Err(ConfigError::InvalidNetworkFormat)
    ));
}

#[test]
fn validity_is_checked_part_by_part() {
    let mut server = fixed_server("10.0.0.0/24");
    server.add_client(&fixed_client("alice", "10.0.0.2", keypair_from_secret(&CLIENT_SECRET))).unwrap();
    assert!(server.is_valid());

    let mut behind = server.clone();
    behind.next_ip = 167772161;
    assert!(!behind.is_valid());

    let mut twice = server.clone();
    twice.clients.push(fixed_client("alice", "10.0.0.3", keypair_from_secret(&CLIENT_SECRET)));
    assert!(!twice.is_valid());

    let mut bad_key = server.clone();
    bad_key.keys.private = "secret".to_string();
    assert!(!bad_key.is_valid());

    let mut bad_client_key = server.clone();
    bad_client_key.clients[0].keys.public = "x\n[Peer]".to_string();
    assert!(!bad_client_key.is_valid());
}

#[test]
fn errors_describe_themselves() {
    assert_eq!(
        ConfigError::InvalidNetworkFormat.message(),
        "Invalid network format. Expected CIDR notation (e.g., 10.0.0.0/24)"
    );
    assert_eq!(ConfigError::DuplicateClientName.message(), "Client already exists");
    assert_eq!(ConfigError::ClientNotFound.message(), "Client not found");
    assert_eq!(ConfigError::EntropyUnavailable.message(), "secure random source unavailable");
    assert_eq!(ConfigError::AddressSpaceExhausted.message(), "No address is left to assign");
    assert_eq!(
        ConfigError::AddressOutsideNetwork.message(),
        "Address lies outside the server network"
    );
    assert_eq!(ConfigError::AddressInUse.message(), "Address is already assigned to a client");
}
