use rusty_wire::address::Ipv4Address;
use rusty_wire::commands::{
    add_client, add_client_with_keys, init_server, init_server_with_keys, list_clients,
    revoke_client, show_server,
};
use rusty_wire::config::{ServerConfig, WireGuardConfig};
use rusty_wire::crypto::keypair_from_secret;
use rusty_wire::error::ConfigError;

const FIRST_SECRET: [u8; 32] = [
    119, 7, 109, 10, 115, 24, 165, 125, 60, 22, 193, 114, 81, 178, 102, 69, 223, 76, 47, 135, 235,
    192, 153, 42, 177, 119, 251, 165, 29, 185, 44, 42,
];

const SECOND_SECRET: [u8; 32] = [
    93, 171, 8, 126, 98, 74, 138, 75, 121, 225, 127, 139, 131, 128, 14, 230, 111, 59, 177, 41, 38,
    24, 182, 253, 28, 47, 139, 39, 255, 136, 224, 235,
];

fn started(network: &str) -> ServerConfig {
    init_server_with_keys("vpn.example.com", 51820, network, "eth0", keypair_from_secret(&FIRST_SECRET))
        .unwrap()
        .0
}

#[test]
fn scenario_init_add_add_remove_add() {
    let (mut state, text) = init_server("vpn.example.com", 51820, "10.0.0.0/24", "eth0").unwrap();
    assert_eq!(state.server_ip_with_cidr().unwrap(), "10.0.0.1/24");
    assert_eq!(state.port, 51820);
    assert!(text.contains("Address = 10.0.0.1/24\n"));
    assert!(text.contains("ListenPort = 51820\n"));
    assert!(state.clients.is_empty());

    let alice = add_client(&mut state, "alice", None, false).unwrap();
    assert_eq!(alice.client.ip.to_string(), "10.0.0.2");
    assert_eq!(alice.client.allowed_ips, "10.0.0.0/24");

    let bob = add_client(&mut state, "bob", None, true).unwrap();
    assert_eq!(bob.client.ip.to_string(), "10.0.0.3");
    assert_eq!(bob.client.allowed_ips, "0.0.0.0/0");

    revoke_client(&mut state, "alice").unwrap();
    let carol = add_client(&mut state, "carol", None, false).unwrap();
    assert_eq!(carol.client.ip.to_string(), "10.0.0.4");
    assert_ne!(carol.client.ip.to_string(), "10.0.0.2");
    assert_eq!(state.clients.len(), 2);
    assert_eq!(state.clients[0].name, "bob");
    assert_eq!(state.clients[1].name, "carol");
}

#[test]
fn init_gives_state_and_text() {
    let (state, text) = init_server_with_keys(
        "vpn.example.com",
        51820,
        "192.168.5.0/24",
        "eth0",
        keypair_from_secret(&FIRST_SECRET),
    )
    .unwrap();
    assert_eq!(state.endpoint, "vpn.example.com");
    assert_eq!(state.network, "192.168.5.0/24");
    assert_eq!(state.interface, "eth0");
    assert_eq!(state.next_ip, 3232236802);
    assert!(state.clients.is_empty());
    assert_eq!(text, state.to_wireguard_config().unwrap());
    assert!(text.starts_with(
        "[Interface]\nPrivateKey = dwdtCnMYpX08FsFyUbJmRd9ML4frwJkqsXf7pR25LCo=\nAddress = 192.168.5.1/24\nListenPort = 51820\n"
    ));
}

#[test]
fn init_server_address_and_first_client_follow_the_base() {
    for (network, server, first) in [
        ("10.0.0.0/24", "10.0.0.1/24", "10.0.0.2"),
        ("192.168.5.0/24", "192.168.5.1/24", "192.168.5.2"),
        ("0.0.0.0/0", "0.0.0.1/0", "0.0.0.2"),
        ("10.9.255.255/8", "10.10.0.0/8", "10.10.0.1"),
        ("255.255.255.252/30", "255.255.255.253/30", "255.255.255.254"),
    ] {
        let (mut state, _) = init_server("h", 1, network, "eth0").unwrap();
        assert_eq!(state.server_ip_with_cidr().unwrap(), server);
        let issued = add_client(&mut state, "first", None, false).unwrap();
        assert_eq!(issued.client.ip.to_string(), first);
    }
}

#[test]
fn init_refuses_a_malformed_network() {
    for bad in ["", "10.0.0.0", "10.0.0.0/40", "ten/8", "10.0.0.0/24 "] {
        assert!(matches!(
            init_server("vpn.example.com", 51820, bad, "eth0"),
            Err(ConfigError::InvalidNetworkFormat)
        ));
        assert!(matches!(
            init_server_with_keys("vpn.example.com", 51820, bad, "eth0", keypair_from_secret(&FIRST_SECRET)),
            Err(ConfigError::InvalidNetworkFormat)
        ));
    }
    assert!(matches!(
        init_server("vpn.example.com", 51820, "255.255.255.254/31", "eth0"),
        Err(ConfigError::AddressSpaceExhausted)
    ));
}

#[test]
fn init_generates_fresh_keys() {
    let (one, _) = init_server("vpn.example.com", 51820, "10.0.0.0/24", "eth0").unwrap();
    let (two, _) = init_server("vpn.example.com", 51820, "10.0.0.0/24", "eth0").unwrap();
    assert_ne!(one.keys.private, two.keys.private);
    assert!(one.keys.is_consistent());
    assert!(one.is_valid());
}

#[test]
fn added_client_carries_a_snapshot_of_the_server() {
    let mut state = started("10.0.0.0/24");
    let issued = add_client_with_keys(&mut state, "alice", None, false, keypair_from_secret(&SECOND_SECRET)).unwrap();
    assert_eq!(issued.client.name, "alice");
    assert_eq!(issued.client.server_endpoint, "vpn.example.com");
    assert_eq!(issued.client.server_port, 51820);
    assert_eq!(issued.client.server_public_key, "hSDwCYkwp1R0i33ctD73Wg2/Og0mOBr066SpjqqbTmo=");
    assert_eq!(issued.client.keys.private, "XasIfmJKikt54X+Lg4AO5m87sSkmGLb9HC+LJ/+I4Os=");
    assert_eq!(issued.client.keys.public, "3p7bfXt9wbTTW2HC7OQ1Nz+DQ8hbeGdNrfx+FG+IK08=");
    assert_eq!(state.clients.len(), 1);
    assert_eq!(state.clients[0].name, "alice");
    assert_eq!(state.next_ip, 167772163);
    assert_eq!(issued.server_config, state.to_wireguard_config().unwrap());
    assert!(issued.server_config.ends_with(
        "\n[Peer]\nPublicKey = 3p7bfXt9wbTTW2HC7OQ1Nz+DQ8hbeGdNrfx+FG+IK08=\nAllowedIPs = 10.0.0.2/32\n"
    ));
    assert_eq!(
        issued.client_config,
        "[Interface]\nPrivateKey = XasIfmJKikt54X+Lg4AO5m87sSkmGLb9HC+LJ/+I4Os=\nAddress = 10.0.0.2/32\nDNS = 1.1.1.1, 9.9.9.9\n\n[Peer]\nPublicKey = hSDwCYkwp1R0i33ctD73Wg2/Og0mOBr066SpjqqbTmo=\nEndpoint = vpn.example.com:51820\nAllowedIPs = 10.0.0.0/24\nPersistentKeepalive = 25\n"
    );
}

#[test]
fn added_clients_get_contiguous_addresses_across_removals() {
    let mut state = started("10.0.0.0/24");
    let mut seen = Vec::new();
    for round in 0..6u32 {
        let name = format!("c{}", round);
        let issued = add_client(&mut state, &name, None, round % 2 == 0).unwrap();
        seen.push(issued.client.ip.bits);
        if round % 2 == 1 {
            revoke_client(&mut state, &name).unwrap();
        }
        if round == 3 {
            revoke_client(&mut state, "c0").unwrap();
        }
    }
    assert_eq!(seen, vec![167772162, 167772163, 167772164, 167772165, 167772166, 167772167]);
    assert_eq!(state.next_ip, 167772168);
    assert_eq!(state.clients.len(), 2);
}

#[test]
fn explicit_address_in_the_block_is_given_and_counter_stays() {
    let mut state = started("10.0.0.0/24");
    let wanted = Ipv4Address::parse("10.0.0.200").unwrap();
    let issued = add_client(&mut state, "roamer", Some(wanted), false).unwrap();
    assert_eq!(issued.client.ip, wanted);
    assert_eq!(state.next_ip, 167772162);
    assert!(issued.client_config.contains("Address = 10.0.0.200/32\n"));
    assert!(issued.server_config.ends_with("AllowedIPs = 10.0.0.200/32\n"));
    let next = add_client(&mut state, "auto", None, false).unwrap();
    assert_eq!(next.client.ip.to_string(), "10.0.0.2");
    assert_eq!(state.clients.len(), 2);
}

#[test]
fn explicit_address_outside_the_block_is_refused() {
    let mut state = started("10.0.0.0/24");
    add_client(&mut state, "alice", None, false).unwrap();
    let before = state.to_wireguard_config().unwrap();
    for far in ["172.31.0.9", "10.0.1.0", "9.255.255.255", "0.0.0.0", "255.255.255.255"] {
        let ip = Ipv4Address::parse(far).unwrap();
        let r = add_client(&mut state, "roamer", Some(ip), false);
        assert!(matches!(r, Err(ConfigError::AddressOutsideNetwork)), "{}", far);
        let r = add_client_with_keys(&mut state, "roamer", Some(ip), true, keypair_from_secret(&SECOND_SECRET));
        assert!(matches!(r, Err(ConfigError::AddressOutsideNetwork)), "{}", far);
    }
    assert_eq!(state.clients.len(), 1);
    assert_eq!(state.clients[0].name, "alice");
    assert_eq!(state.next_ip, 167772163);
    assert_eq!(state.to_wireguard_config().unwrap(), before);
    assert!(!state.has_client("roamer"));
}

#[test]
fn explicit_address_of_another_client_is_refused() {
    let mut state = started("10.0.0.0/24");
    let alice = add_client(&mut state, "alice", None, false).unwrap();
    let wanted = Ipv4Address::parse("10.0.0.200").unwrap();
    add_client(&mut state, "bob", Some(wanted), false).unwrap();
    let before = state.to_wireguard_config().unwrap();
    let r = add_client(&mut state, "twin", Some(wanted), true);
    assert!(matches!(r, Err(ConfigError::AddressInUse)));
    let r = add_client(&mut state, "twin", Some(alice.client.ip), false);
    assert!(matches!(r, Err(ConfigError::AddressInUse)));
    let r = add_client_with_keys(&mut state, "twin", Some(wanted), false, keypair_from_secret(&SECOND_SECRET));
    assert!(matches!(r, Err(ConfigError::AddressInUse)));
    assert_eq!(state.clients.len(), 2);
    assert_eq!(state.next_ip, 167772163);
    assert_eq!(state.to_wireguard_config().unwrap(), before);
    revoke_client(&mut state, "bob").unwrap();
    let again = add_client(&mut state, "twin", Some(wanted), false).unwrap();
    assert_eq!(again.client.ip, wanted);
}

#[test]
fn a_taken_name_is_reported_before_a_bad_address() {
    let mut state = started("10.0.0.0/24");
    add_client(&mut state, "alice", None, false).unwrap();
    let far = Ipv4Address::parse("172.31.0.9").unwrap();
    let r = add_client(&mut state, "alice", Some(far), false);
    assert!(matches!(r, Err(ConfigError::DuplicateClientName)));
}

#[test]
fn duplicate_name_is_refused_and_state_unchanged() {
    let mut state = started("10.0.0.0/24");
    add_client(&mut state, "alice", None, false).unwrap();
    let before = state.clone();
    let r = add_client(&mut state, "alice", None, true);
    assert!(matches!(r, Err(ConfigError::DuplicateClientName)));
    let r = add_client(&mut state, "alice", Some(Ipv4Address::new(7)), false);
    assert!(matches!(r, Err(ConfigError::DuplicateClientName)));
    let r = add_client_with_keys(&mut state, "alice", None, false, keypair_from_secret(&SECOND_SECRET));
    assert!(matches!(r, Err(ConfigError::DuplicateClientName)));
    assert_eq!(state.clients.len(), before.clients.len());
    assert_eq!(state.clients[0].name, before.clients[0].name);
    assert_eq!(state.clients[0].ip, before.clients[0].ip);
    assert_eq!(state.clients[0].keys.private, before.clients[0].keys.private);
    assert_eq!(state.clients[0].allowed_ips, before.clients[0].allowed_ips);
    assert_eq!(state.next_ip, before.next_ip);
    assert_eq!(state.to_wireguard_config().unwrap(), before.to_wireguard_config().unwrap());
}

#[test]
fn add_client_stops_when_no_address_is_left() {
    let mut state = started("255.255.255.252/30");
    let last = add_client(&mut state, "last", None, false).unwrap();
    assert_eq!(last.client.ip.to_string(), "255.255.255.254");
    assert_eq!(state.next_ip, u32::MAX);
    let r = add_client(&mut state, "none", None, false);
    assert!(matches!(r, Err(ConfigError::AddressSpaceExhausted)));
    assert_eq!(state.clients.len(), 1);
    assert_eq!(state.next_ip, u32::MAX);
    let given = add_client(&mut state, "given", Some(Ipv4Address::new(u32::MAX)), false).unwrap();
    assert_eq!(given.client.ip.to_string(), "255.255.255.255");
}

#[test]
fn add_client_on_a_broken_network_changes_nothing() {
    let mut state = started("10.0.0.0/24");
    state.network = "10.0.0.0".to_string();
    let r = add_client(&mut state, "alice", None, false);
    assert!(matches!(r, Err(ConfigError::InvalidNetworkFormat)));
    assert!(state.clients.is_empty());
    assert_eq!(state.next_ip, 167772162);
}

#[test]
fn revoke_gives_the_new_server_text() {
    let mut state = started("10.0.0.0/24");
    let empty_text = state.to_wireguard_config().unwrap();
    add_client(&mut state, "alice", None, false).unwrap();
    let with_alice = state.to_wireguard_config().unwrap();
    assert_ne!(with_alice, empty_text);
    let text = revoke_client(&mut state, "alice").unwrap();
    assert_eq!(text, empty_text);
    assert!(state.clients.is_empty());
    assert_eq!(state.next_ip, 167772163);
}

#[test]
fn revoke_of_an_unknown_client_fails_and_changes_nothing() {
    let mut state = started("10.0.0.0/24");
    add_client(&mut state, "alice", None, false).unwrap();
    let before = state.to_wireguard_config().unwrap();
    assert!(matches!(revoke_client(&mut state, "bob"), Err(ConfigError::ClientNotFound)));
    assert!(matches!(revoke_client(&mut state, "Alice"), Err(ConfigError::ClientNotFound)));
    assert_eq!(state.clients.len(), 1);
    assert_eq!(state.to_wireguard_config().unwrap(), before);
    let mut fresh = started("10.0.0.0/24");
    assert!(matches!(revoke_client(&mut fresh, "alice"), Err(ConfigError::ClientNotFound)));
}

#[test]
fn list_gives_names_and_addresses_in_order() {
    let mut state = started("10.0.0.0/24");
    assert!(list_clients(&state).is_empty());
    add_client(&mut state, "alice", None, false).unwrap();
    add_client(&mut state, "bob", Some(Ipv4Address::parse("10.0.0.200").unwrap()), false).unwrap();
    add_client(&mut state, "carol", None, true).unwrap();
    let listing = list_clients(&state);
    assert_eq!(listing, vec![
        ("alice".to_string(), Ipv4Address::parse("10.0.0.2").unwrap()),
        ("bob".to_string(), Ipv4Address::parse("10.0.0.200").unwrap()),
        ("carol".to_string(), Ipv4Address::parse("10.0.0.3").unwrap()),
    ]);
}

#[test]
fn show_gives_the_summary_fields() {
    let mut state = started("10.0.0.0/24");
    add_client(&mut state, "alice", None, false).unwrap();
    add_client(&mut state, "bob", None, false).unwrap();
    let summary = show_server(&state);
    assert_eq!(summary.endpoint, "vpn.example.com");
    assert_eq!(summary.port, 51820);
    assert_eq!(summary.network, "10.0.0.0/24");
    assert_eq!(summary.interface, "eth0");
    assert_eq!(summary.public_key, "hSDwCYkwp1R0i33ctD73Wg2/Og0mOBr066SpjqqbTmo=");
    assert_eq!(summary.client_count, 2);
}

#[test]
fn states_stay_valid_through_a_session() {
    let mut state = started("10.0.0.0/24");
    assert!(state.is_valid());
    add_client(&mut state, "alice", None, false).unwrap();
    assert!(state.is_valid());
    add_client(&mut state, "bob", Some(Ipv4Address::parse("10.0.0.77").unwrap()), true).unwrap();
    assert!(state.is_valid());
    revoke_client(&mut state, "alice").unwrap();
    assert!(state.is_valid());
    for client in &state.clients {
        assert!(client.keys.is_consistent());
    }
}
