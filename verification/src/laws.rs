//! What holds of every state and every sequence of operations, stated
//! over the model and proved.

use crate::address::{
    cidr_base, cidr_prefix, cidr_text, dotted_quad, in_block, lemma_cidr_text_free_of,
    lemma_dotted_quad_free_of, read_cidr,
};
use crate::crypto::{lemma_key_text_free_of, KeyPairView};
use crate::decimal::{decimal, lemma_decimal_reads_back};
use crate::error::ConfigError;
use crate::model::{
    add_refused, address_check, client_added, client_removed, has_address, has_name,
    initial_state, interface_lines,
    lemma_without_absent, lemma_without_members, lemma_without_present, names_unique,
    peer_lines, peers_lines, server_lines, server_text, without_name, ClientView, ServerView,
};
use crate::text::{
    count_lines, ends_with, free_of, lemma_count_lines_add, lemma_count_lines_none,
    lemma_count_lines_once, lemma_count_lines_push, lemma_lines_of_unlines, lines_of,
    parts_free_of, starts_with,
};
use vstd::prelude::*;

verus! {

/// A state that is set up is well formed, given keys of the right
/// shape.
pub proof fn law_initial_state_wf(
    endpoint: Seq<char>,
    port: u16,
    network: Seq<char>,
    interface: Seq<char>,
    keys: KeyPairView,
)
    requires
        keys.wf(),
    ensures
        initial_state(endpoint, port, network, interface, keys) matches Ok(s) ==> s.wf(),
{
}

/// Adding a client keeps a state well formed, keeps every record that
/// was there, and never moves the counter back.
pub proof fn law_client_added_wf(
    s: ServerView,
    name: Seq<char>,
    explicit_ip: Option<u32>,
    full_tunnel: bool,
    keys: KeyPairView,
)
    requires
        s.wf(),
        keys.wf(),
    ensures
        client_added(s, name, explicit_ip, full_tunnel, keys) matches Ok((after, client)) ==> {
            &&& after.wf()
            &&& after.next_ip >= s.next_ip
            &&& after.clients == s.clients.push(client)
        },
{
    if let Ok((after, client)) = client_added(s, name, explicit_ip, full_tunnel, keys) {
        let before = s.clients;
        assert(after.clients == before.push(client));
        assert forall|i: int, j: int| 0 <= i < j < after.clients.len() implies (
        #[trigger] after.clients[i]).name != (#[trigger] after.clients[j]).name by {
            if j < before.len() {
                assert(before[i].name != before[j].name);
            } else {
                assert(before[i].name != name);
            }
        }
        assert forall|i: int| 0 <= i < after.clients.len() implies (
        #[trigger] after.clients[i]).keys.wf() by {
            if i < before.len() {
                assert(before[i].keys.wf());
            }
        }
    }
}

/// Removing a client keeps a state well formed and leaves the counter
/// where it is: an address that was handed out is never handed out
/// again.
pub proof fn law_client_removed_wf(s: ServerView, name: Seq<char>)
    requires
        s.wf(),
    ensures
        client_removed(s, name).wf(),
        client_removed(s, name).next_ip == s.next_ip,
{
    lemma_without_members(s.clients, name);
    let kept = without_name(s.clients, name);
    assert forall|k: int| 0 <= k < kept.len() implies (#[trigger] kept[k]).keys.wf() by {
        let j = choose|j: int| 0 <= j < s.clients.len() && s.clients[j] == kept[k];
        assert(s.clients[j].keys.wf());
    }
}

/// On a network `A/N` the server's address is `A + 1`, and the first
/// client that is added without an address of its own gets `A + 2`.
pub proof fn law_first_addresses(
    endpoint: Seq<char>,
    port: u16,
    network: Seq<char>,
    interface: Seq<char>,
    keys: KeyPairView,
    name: Seq<char>,
    full_tunnel: bool,
    client_keys: KeyPairView,
)
    requires
        read_cidr(network) is Some,
        cidr_base(network) + 2 < u32::MAX,
    ensures
        initial_state(endpoint, port, network, interface, keys) matches Ok(s) && {
            &&& s.server_address() == Ok::<u32, ConfigError>((cidr_base(network) + 1) as u32)
            &&& s.server_address_text() == Ok::<Seq<char>, ConfigError>(
                cidr_text((cidr_base(network) + 1) as u32, cidr_prefix(network)),
            )
            &&& client_added(s, name, None, full_tunnel, client_keys) matches Ok((_, client))
                && client.ip == cidr_base(network) + 2
        },
{
    let s = initial_state(endpoint, port, network, interface, keys)->Ok_0;
    assert(!has_name(s.clients, name));
}

/// One step of a session: a client is added, with an address of its own
/// or without, or a client is removed.
pub enum Step {
    Add { name: Seq<char>, explicit_ip: Option<u32>, full_tunnel: bool, keys: KeyPairView },
    Remove { name: Seq<char> },
}

/// The state after one step. An addition that is refused changes
/// nothing.
pub open spec fn after_step(s: ServerView, step: Step) -> ServerView {
    match step {
        Step::Add { name, explicit_ip, full_tunnel, keys } => match client_added(
            s,
            name,
            explicit_ip,
            full_tunnel,
            keys,
        ) {
            Ok((after, _)) => after,
            Err(_) => s,
        },
        Step::Remove { name } => client_removed(s, name),
    }
}

/// The address that a step hands out from the counter, if it hands one
/// out: the address of a client that is added without one of its own.
pub open spec fn issued_by(s: ServerView, step: Step) -> Option<u32> {
    match step {
        Step::Add { name, explicit_ip, full_tunnel, keys } => match client_added(
            s,
            name,
            explicit_ip,
            full_tunnel,
            keys,
        ) {
            Ok((_, client)) => if explicit_ip is None {
                Some(client.ip)
            } else {
                None
            },
            Err(_) => None,
        },
        Step::Remove { name } => None,
    }
}

/// The state after a sequence of steps.
pub open spec fn after_steps(s: ServerView, steps: Seq<Step>) -> ServerView
    decreases steps.len(),
{
    if steps.len() == 0 {
        s
    } else {
        after_step(after_steps(s, steps.drop_last()), steps.last())
    }
}

/// The addresses that a sequence of steps hands out, in order.
pub open spec fn issued(s: ServerView, steps: Seq<Step>) -> Seq<u32>
    decreases steps.len(),
{
    if steps.len() == 0 {
        Seq::<u32>::empty()
    } else {
        let before = issued(s, steps.drop_last());
        match issued_by(after_steps(s, steps.drop_last()), steps.last()) {
            Some(ip) => before.push(ip),
            None => before,
        }
    }
}

/// Whatever additions and removals are made in whatever order, the
/// addresses handed out from the counter are the counter's value at the
/// start and the numbers that follow it, one by one: strictly
/// increasing, without a gap, and none twice. The counter ends that many
/// places further on.
pub proof fn law_addresses_contiguous(s: ServerView, steps: Seq<Step>)
    ensures
        after_steps(s, steps).next_ip == s.next_ip + issued(s, steps).len(),
        forall|k: int| 0 <= k < issued(s, steps).len() ==> #[trigger] issued(s, steps)[k] == s.next_ip + k,
    decreases steps.len(),
{
    if steps.len() > 0 {
        law_addresses_contiguous(s, steps.drop_last());
    }
}

/// From a fresh state on network `A/N`, the addresses handed out are
/// `A + 2`, `A + 3`, and so on.
pub proof fn law_addresses_from_base(
    endpoint: Seq<char>,
    port: u16,
    network: Seq<char>,
    interface: Seq<char>,
    keys: KeyPairView,
    steps: Seq<Step>,
)
    requires
        initial_state(endpoint, port, network, interface, keys) is Ok,
    ensures
        forall|k: int|
            0 <= k < issued(
                initial_state(endpoint, port, network, interface, keys)->Ok_0,
                steps,
            ).len() ==> #[trigger] issued(
                initial_state(endpoint, port, network, interface, keys)->Ok_0,
                steps,
            )[k] == cidr_base(network) + 2 + k,
{
    law_addresses_contiguous(initial_state(endpoint, port, network, interface, keys)->Ok_0, steps);
}

/// A sequence of steps keeps a well-formed state well formed, given
/// keys of the right shape in every addition.
pub proof fn law_steps_keep_wf(s: ServerView, steps: Seq<Step>)
    requires
        s.wf(),
        forall|k: int|
            0 <= k < steps.len() ==> (#[trigger] steps[k] matches Step::Add { keys, .. }
                ==> keys.wf()),
    ensures
        after_steps(s, steps).wf(),
    decreases steps.len(),
{
    if steps.len() > 0 {
        let front = steps.drop_last();
        assert forall|k: int| 0 <= k < front.len() implies (#[trigger] front[k] matches Step::Add {
            keys,
            ..
        } ==> keys.wf()) by {
            assert(front[k] == steps[k]);
        }
        law_steps_keep_wf(s, front);
        let mid = after_steps(s, front);
        assert(steps.last() == steps[steps.len() - 1]);
        match steps.last() {
            Step::Add { name, explicit_ip, full_tunnel, keys } => {
                law_client_added_wf(mid, name, explicit_ip, full_tunnel, keys);
            },
            Step::Remove { name } => {
                law_client_removed_wf(mid, name);
            },
        }
    }
}

/// A client whose name is taken is refused with `DuplicateClientName`,
/// whatever else is asked for.
pub proof fn law_duplicate_name_refused(
    s: ServerView,
    name: Seq<char>,
    explicit_ip: Option<u32>,
    full_tunnel: bool,
    keys: KeyPairView,
)
    requires
        has_name(s.clients, name),
    ensures
        add_refused(s, name, explicit_ip) == Some(ConfigError::DuplicateClientName),
        client_added(s, name, explicit_ip, full_tunnel, keys) == Err::<
            (ServerView, ClientView),
            ConfigError,
        >(ConfigError::DuplicateClientName),
{
}

/// An explicit address that a client is given lies in the server's
/// block and was held by no client; one that does not is refused with
/// the reason that the address check gives, whatever the keys.
pub proof fn law_explicit_address_checked(
    s: ServerView,
    name: Seq<char>,
    ip: u32,
    full_tunnel: bool,
    keys: KeyPairView,
)
    ensures
        client_added(s, name, Some(ip), full_tunnel, keys) is Ok ==> {
            &&& in_block(cidr_base(s.network), cidr_prefix(s.network), ip)
            &&& !has_address(s.clients, ip)
        },
        !has_name(s.clients, name) && s.server_address() is Ok ==> (address_check(s, ip) matches Err(e)
            ==> client_added(s, name, Some(ip), full_tunnel, keys) == Err::<
            (ServerView, ClientView),
            ConfigError,
        >(e)),
{
}

/// Removing a name that no client bears leaves the state as it is.
pub proof fn law_remove_unknown(s: ServerView, name: Seq<char>)
    requires
        !has_name(s.clients, name),
    ensures
        client_removed(s, name) == s,
{
    lemma_without_absent(s.clients, name);
}

/// Removing a name that a client bears takes out that client's record
/// and alters nothing else.
pub proof fn law_remove_known(s: ServerView, name: Seq<char>, at: int)
    requires
        names_unique(s.clients),
        0 <= at < s.clients.len(),
        s.clients[at].name == name,
    ensures
        client_removed(s, name) == s.with_clients(s.clients.remove(at)),
        !has_name(client_removed(s, name).clients, name),
{
    lemma_without_present(s.clients, name, at);
    lemma_without_members(s.clients, name);
}

/// The lines of the `[Interface]` section: none holds a line feed, one
/// is the `[Interface]` header, none is a `[Peer]` header, none sets
/// `AllowedIPs`.
pub proof fn lemma_interface_lines(private_key: Seq<char>, address: Seq<char>, port: u16)
    requires
        free_of(private_key, '\n'),
        free_of(address, '\n'),
    ensures
        parts_free_of(interface_lines(private_key, address, port), '\n'),
        count_lines(interface_lines(private_key, address, port), "[Interface]"@) == 1,
        count_lines(interface_lines(private_key, address, port), "[Peer]"@) == 0,
        forall|k: int|
            0 <= k < interface_lines(private_key, address, port).len() ==> !starts_with(
                #[trigger] interface_lines(private_key, address, port)[k],
                "AllowedIPs = "@,
            ),
{
    let lines = interface_lines(private_key, address, port);
    let wanted = "AllowedIPs = "@;
    reveal_strlit("[Interface]");
    reveal_strlit("[Peer]");
    reveal_strlit("PrivateKey = ");
    reveal_strlit("Address = ");
    reveal_strlit("ListenPort = ");
    reveal_strlit("AllowedIPs = ");
    reveal_strlit(
        "PostUp = iptables -A FORWARD -i %i -j ACCEPT; iptables -t nat -A POSTROUTING -j MASQUERADE",
    );
    reveal_strlit(
        "PostDown = iptables -D FORWARD -i %i -j ACCEPT; iptables -t nat -D POSTROUTING -j MASQUERADE",
    );
    lemma_decimal_reads_back(port as nat);
    assert(free_of(decimal(port as nat), '\n')) by {
        let t = decimal(port as nat);
        assert forall|i: int| 0 <= i < t.len() implies t[i] != '\n' by {
            assert(crate::decimal::is_digit(t[i]));
        }
    }
    assert(lines.len() == 8);
    assert(lines[1][0] == 'P');
    assert(lines[2][0] == 'A' && lines[2][1] == 'd');
    assert(lines[3][0] == 'L');
    assert(lines[5][0] == 'P');
    assert(lines[7][0] == 'P');
    assert(parts_free_of(lines, '\n')) by {
        assert forall|k: int| 0 <= k < lines.len() implies free_of(#[trigger] lines[k], '\n') by {
            if k == 1 {
                assert(free_of("PrivateKey = "@ + private_key, '\n'));
            } else if k == 2 {
                assert(free_of("Address = "@ + address, '\n'));
            } else if k == 3 {
                assert(free_of("ListenPort = "@ + decimal(port as nat), '\n'));
            }
        }
    }
    lemma_count_lines_once(lines, "[Interface]"@, 0);
    lemma_count_lines_none(lines, "[Peer]"@);
    assert forall|k: int| 0 <= k < lines.len() implies !starts_with(#[trigger] lines[k], wanted) by {
        if starts_with(lines[k], wanted) {
            let head = lines[k].take(wanted.len() as int);
            assert(head[0] == lines[k][0]);
            assert(head[1] == lines[k][1]);
        }
    }
}

/// The lines of one `[Peer]` section: none holds a line feed, one is
/// the `[Peer]` header, none is an `[Interface]` header, and the line
/// that sets `AllowedIPs` ends in `/32`.
pub proof fn lemma_peer_lines(client: ClientView)
    requires
        free_of(client.keys.public, '\n'),
    ensures
        parts_free_of(peer_lines(client), '\n'),
        count_lines(peer_lines(client), "[Interface]"@) == 0,
        count_lines(peer_lines(client), "[Peer]"@) == 1,
        forall|k: int|
            0 <= k < peer_lines(client).len() && starts_with(
                #[trigger] peer_lines(client)[k],
                "AllowedIPs = "@,
            ) ==> ends_with(peer_lines(client)[k], "/32"@),
{
    let lines = peer_lines(client);
    let wanted = "AllowedIPs = "@;
    reveal_strlit("[Interface]");
    reveal_strlit("[Peer]");
    reveal_strlit("PublicKey = ");
    reveal_strlit("AllowedIPs = ");
    reveal_strlit("/32");
    lemma_dotted_quad_free_of(client.ip, '\n');
    assert(lines.len() == 4);
    assert(lines[2][0] == 'P');
    assert(lines[3][0] == 'A');
    assert(parts_free_of(lines, '\n')) by {
        assert forall|k: int| 0 <= k < lines.len() implies free_of(#[trigger] lines[k], '\n') by {
            if k == 2 {
                assert(free_of("PublicKey = "@ + client.keys.public, '\n'));
            } else if k == 3 {
                assert(free_of("AllowedIPs = "@ + dotted_quad(client.ip) + "/32"@, '\n'));
            }
        }
    }
    lemma_count_lines_none(lines, "[Interface]"@);
    lemma_count_lines_once(lines, "[Peer]"@, 1);
    assert forall|k: int| 0 <= k < lines.len() && starts_with(#[trigger] lines[k], wanted) implies ends_with(
        lines[k],
        "/32"@,
    ) by {
        if k == 2 {
            let head = lines[k].take(wanted.len() as int);
            assert(head[0] == lines[k][0]);
        } else if k == 3 {
            let line = lines[3];
            assert(line.skip(line.len() - 3) =~= "/32"@);
        }
    }
}

/// The `[Peer]` sections of a client list: as many `[Peer]` headers as
/// clients, no `[Interface]` header, no line feed inside a line, and
/// every line that sets `AllowedIPs` ends in `/32`.
pub proof fn lemma_peers_lines(clients: Seq<ClientView>)
    requires
        forall|i: int| 0 <= i < clients.len() ==> (#[trigger] clients[i]).keys.wf(),
    ensures
        parts_free_of(peers_lines(clients), '\n'),
        count_lines(peers_lines(clients), "[Interface]"@) == 0,
        count_lines(peers_lines(clients), "[Peer]"@) == clients.len(),
        forall|k: int|
            0 <= k < peers_lines(clients).len() && starts_with(
                #[trigger] peers_lines(clients)[k],
                "AllowedIPs = "@,
            ) ==> ends_with(peers_lines(clients)[k], "/32"@),
    decreases clients.len(),
{
    let lines = peers_lines(clients);
    if clients.len() == 0 {
    } else {
        let front = clients.drop_last();
        let last = clients.last();
        assert(last == clients[clients.len() - 1]);
        assert forall|i: int| 0 <= i < front.len() implies (#[trigger] front[i]).keys.wf() by {
            assert(front[i] == clients[i]);
        }
        lemma_peers_lines(front);
        lemma_key_text_free_of(last.keys.public, '\n');
        lemma_peer_lines(last);
        let a = peers_lines(front);
        let b = peer_lines(last);
        assert(lines == a + b);
        lemma_count_lines_add(a, b, "[Interface]"@);
        lemma_count_lines_add(a, b, "[Peer]"@);
        assert forall|k: int| 0 <= k < lines.len() implies free_of(#[trigger] lines[k], '\n') by {
            if k < a.len() {
                assert(lines[k] == a[k]);
            } else {
                assert(lines[k] == b[k - a.len()]);
            }
        }
        assert forall|k: int|
            0 <= k < lines.len() && starts_with(#[trigger] lines[k], "AllowedIPs = "@) implies ends_with(
            lines[k],
            "/32"@,
        ) by {
            if k < a.len() {
                assert(lines[k] == a[k]);
            } else {
                assert(lines[k] == b[k - a.len()]);
            }
        }
    }
}

/// The configuration text of a well-formed server state, read line by
/// line, holds exactly one `[Interface]` header and exactly one
/// `[Peer]` header for each client, and every line that sets
/// `AllowedIPs` ends in `/32`.
pub proof fn law_server_text_sections(s: ServerView)
    requires
        s.wf(),
    ensures
        server_text(s) matches Ok(text) && {
            &&& count_lines(lines_of(text), "[Interface]"@) == 1
            &&& count_lines(lines_of(text), "[Peer]"@) == s.clients.len()
            &&& forall|k: int|
                0 <= k < lines_of(text).len() && starts_with(
                    #[trigger] lines_of(text)[k],
                    "AllowedIPs = "@,
                ) ==> ends_with(lines_of(text)[k], "/32"@)
        },
{
    let address = s.server_address_text()->Ok_0;
    lemma_cidr_text_free_of((cidr_base(s.network) + 1) as u32, cidr_prefix(s.network), '\n');
    lemma_key_text_free_of(s.keys.private, '\n');
    lemma_interface_lines(s.keys.private, address, s.port);
    lemma_peers_lines(s.clients);
    let a = interface_lines(s.keys.private, address, s.port);
    let b = peers_lines(s.clients);
    let lines = server_lines(s, address);
    let empty = Seq::<char>::empty();
    assert(lines == a + b);
    assert(parts_free_of(lines, '\n')) by {
        assert forall|k: int| 0 <= k < lines.len() implies free_of(#[trigger] lines[k], '\n') by {
            if k < a.len() {
                assert(lines[k] == a[k]);
            } else {
                assert(lines[k] == b[k - a.len()]);
            }
        }
    }
    lemma_lines_of_unlines(lines);
    let text = server_text(s)->Ok_0;
    let all = lines_of(text);
    assert(all == lines.push(empty));
    reveal_strlit("[Interface]");
    reveal_strlit("[Peer]");
    reveal_strlit("AllowedIPs = ");
    lemma_count_lines_add(a, b, "[Interface]"@);
    lemma_count_lines_add(a, b, "[Peer]"@);
    lemma_count_lines_push(lines, empty, "[Interface]"@);
    lemma_count_lines_push(lines, empty, "[Peer]"@);
    assert forall|k: int|
        0 <= k < all.len() && starts_with(#[trigger] all[k], "AllowedIPs = "@) implies ends_with(
        all[k],
        "/32"@,
    ) by {
        if k < a.len() {
            assert(all[k] == a[k]);
        } else if k < lines.len() {
            assert(all[k] == b[k - a.len()]);
        } else {
            assert(all[k] == empty);
        }
    }
}

/// The server's configuration text does not depend on the name of the
/// outbound interface.
pub proof fn law_server_text_ignores_interface(s: ServerView, interface: Seq<char>)
    ensures
        server_text(
            ServerView {
                endpoint: s.endpoint,
                port: s.port,
                network: s.network,
                interface: interface,
                keys: s.keys,
                clients: s.clients,
                next_ip: s.next_ip,
            },
        ) == server_text(s),
{
}

} // verus!
