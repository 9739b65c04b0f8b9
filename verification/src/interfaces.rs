//! Joining the network interfaces of this machine with the devices that a
//! router reports.

use crate::clients::{
    client_is_online, first_text, has_record, is_online, last_deny, last_raw, lemma_reconciled,
    reconciled, row_mac, seen, summary,
};
use crate::json::JsonView;
use crate::model::{
    client_views, copy_opt_text, interface_views, ClientInfo, ClientView, InterfaceInfo,
    InterfaceView,
};
use crate::net::{ipv4_text, ipv4_to_text, Ipv4Net};
use crate::text::{
    chars_of, hex_pair, is_plain_lower, is_plain_lower_char, lemma_lowered_plain, lowered,
    starts_with, text_eq, to_lowercase,
};
use vstd::prelude::*;

verus! {

/// A network that an interface is configured with.
#[derive(Clone, Copy, Debug)]
pub enum IpNet {
    /// An IPv4 address of the interface, with the prefix of its network.
    V4(Ipv4Net),
    /// An IPv6 address; nothing more is read of it.
    V6,
}

/// A network interface of this machine, as the operating system lists it.
#[derive(Clone, Debug)]
pub struct LocalInterface {
    pub name: String,
    pub mac: Option<[u8; 6]>,
    pub loopback: bool,
    pub ips: Vec<IpNet>,
}

/// The kind of an interface whose name, in lower case, is `lname`.
pub open spec fn interface_kind(lname: Seq<char>) -> Seq<char> {
    if "wl"@.is_prefix_of(lname) || "wlan"@.is_prefix_of(lname) || "wifi"@.is_prefix_of(lname) {
        "Wi-Fi"@
    } else if "en"@.is_prefix_of(lname) || "eth"@.is_prefix_of(lname) {
        "Ethernet"@
    } else {
        "Unknown"@
    }
}

/// Whether `s` begins with `prefix`.
fn has_prefix(s: &[char], prefix: &str) -> (found: bool)
    ensures
        found == prefix@.is_prefix_of(s@),
{
    let p = chars_of(prefix);
    starts_with(s, p.as_slice())
}

/// The kind of an interface from its name in lower case: `Wi-Fi`,
/// `Ethernet` or `Unknown`.
pub fn classify_interface(lname: &str) -> (kind: String)
    ensures
        kind@ == interface_kind(lname@),
{
    let l = chars_of(lname);
    if has_prefix(l.as_slice(), "wl") || has_prefix(l.as_slice(), "wlan") || has_prefix(
        l.as_slice(),
        "wifi",
    ) {
        "Wi-Fi".to_owned()
    } else if has_prefix(l.as_slice(), "en") || has_prefix(l.as_slice(), "eth") {
        "Ethernet".to_owned()
    } else {
        "Unknown".to_owned()
    }
}

/// The kind of an interface from its name, whatever its case.
pub fn interface_type(name: &str) -> (kind: String)
    ensures
        kind@ == interface_kind(lowered(name@)),
{
    let lname = to_lowercase(name);
    classify_interface(lname.as_str())
}

/// The text of a hardware address: its six bytes as pairs of lower-case
/// hexadecimal digits with a colon between them.
pub open spec fn mac_text(m: Seq<u8>) -> Seq<char> {
    hex_pair(m[0]) + seq![':'] + hex_pair(m[1]) + seq![':'] + hex_pair(m[2]) + seq![':']
        + hex_pair(m[3]) + seq![':'] + hex_pair(m[4]) + seq![':'] + hex_pair(m[5])
}

/// The text of a hardware address.
///
/// Trusted: builds a `pnet::util::MacAddr` and formats it with its
/// `Display` impl, which writes the six bytes as `{:02x}` with colons
/// between them.
#[verifier::external_body]
fn mac_to_text(mac: &[u8; 6]) -> (out: String)
    ensures
        out@ == mac_text(mac@),
{
    pnet::util::MacAddr::new(mac[0], mac[1], mac[2], mac[3], mac[4], mac[5]).to_string()
}

/// The IPv4 networks among `ips`, in order.
pub open spec fn v4_only(ips: Seq<IpNet>) -> Seq<Ipv4Net>
    decreases ips.len(),
{
    if ips.len() == 0 {
        Seq::empty()
    } else {
        match ips.last() {
            IpNet::V4(net) => v4_only(ips.drop_last()).push(net),
            IpNet::V6 => v4_only(ips.drop_last()),
        }
    }
}

/// The IPv4 networks of all of `ifaces`, interface by interface.
pub open spec fn v4_networks(ifaces: Seq<LocalInterface>) -> Seq<Ipv4Net>
    decreases ifaces.len(),
{
    if ifaces.len() == 0 {
        Seq::empty()
    } else {
        v4_networks(ifaces.drop_last()) + v4_only(ifaces.last().ips@)
    }
}

/// The IPv4 networks that this machine is on: those of every interface,
/// loopback included, in the order listed.
pub fn local_networks(ifaces: &[LocalInterface]) -> (out: Vec<Ipv4Net>)
    ensures
        out@ == v4_networks(ifaces@),
{
    let mut out: Vec<Ipv4Net> = Vec::new();
    let n: usize = ifaces.len();
    let mut i: usize = 0;
    assert(ifaces@.subrange(0, 0) =~= Seq::empty());
    while i < n
        invariant
            n == ifaces@.len(),
            i <= n,
            out@ == v4_networks(ifaces@.subrange(0, i as int)),
        decreases n - i,
    {
        let ips = &ifaces[i].ips;
        let m: usize = ips.len();
        let mut k: usize = 0;
        let ghost before = out@;
        assert(ips@.subrange(0, 0) =~= Seq::empty());
        while k < m
            invariant
                m == ips@.len(),
                k <= m,
                out@ == before + v4_only(ips@.subrange(0, k as int)),
            decreases m - k,
        {
            assert(ips@.subrange(0, k + 1).drop_last() =~= ips@.subrange(0, k as int));
            match ips[k] {
                IpNet::V4(net) => {
                    out.push(net);
                    assert(out@ =~= before + v4_only(ips@.subrange(0, k + 1)));
                },
                IpNet::V6 => {},
            }
            k += 1;
        }
        assert(ips@.subrange(0, m as int) =~= ips@);
        assert(ifaces@.subrange(0, i + 1).drop_last() =~= ifaces@.subrange(0, i as int));
        i += 1;
    }
    assert(ifaces@.subrange(0, n as int) =~= ifaces@);
    out
}

/// The first IPv4 address among `ips` at or after `from`.
pub open spec fn first_v4(ips: Seq<IpNet>, from: int) -> Option<u32>
    decreases ips.len() - from,
{
    if from < 0 || from >= ips.len() {
        None
    } else {
        match ips[from] {
            IpNet::V4(net) => Some(net@.addr),
            IpNet::V6 => first_v4(ips, from + 1),
        }
    }
}

/// The address shown for an interface: its first IPv4 address, or `N/A`.
pub open spec fn address_text(ips: Seq<IpNet>) -> Seq<char> {
    match first_v4(ips, 0) {
        Some(a) => ipv4_text(a),
        None => "N/A"@,
    }
}

/// The address shown for an interface.
fn shown_address(ips: &Vec<IpNet>) -> (out: String)
    ensures
        out@ == address_text(ips@),
{
    let n: usize = ips.len();
    let mut i: usize = 0;
    while i < n
        invariant
            n == ips@.len(),
            i <= n,
            first_v4(ips@, 0) == first_v4(ips@, i as int),
        decreases n - i,
    {
        match ips[i] {
            IpNet::V4(net) => {
                return ipv4_to_text(net.ip());
            },
            IpNet::V6 => {},
        }
        i += 1;
    }
    "N/A".to_owned()
}

/// The last record among the first `upto` of `clients` whose address, in
/// lower case, is `key`.
pub open spec fn client_for(clients: Seq<ClientView>, key: Seq<char>, upto: int) -> Option<
    ClientView,
>
    decreases upto,
{
    if upto <= 0 || upto > clients.len() {
        None
    } else if lowered(clients[upto - 1].mac) == key {
        Some(clients[upto - 1])
    } else {
        client_for(clients, key, upto - 1)
    }
}

/// The row for one interface, or `None` where it is left out: a loopback
/// interface, one without a hardware address, and, where the router
/// reported any device at all, one that is none of them.
pub open spec fn interface_row(iface: LocalInterface, clients: Seq<ClientView>) -> Option<
    InterfaceView,
> {
    if iface.loopback || iface.mac is None {
        None
    } else {
        let mac = lowered(mac_text(iface.mac->0@));
        let hit = client_for(clients, mac, clients.len() as int);
        if clients.len() > 0 && hit is None {
            None
        } else {
            Some(
                InterfaceView {
                    name: iface.name@,
                    display_name: match hit {
                        Some(c) => match c.name {
                            Some(n) => n,
                            None => iface.name@,
                        },
                        None => iface.name@,
                    },
                    mac,
                    ip: address_text(iface.ips@),
                    iface_type: interface_kind(lowered(iface.name@)),
                    online: match hit {
                        Some(c) => is_online(c.raw),
                        None => false,
                    },
                    policy: match hit {
                        Some(c) => c.policy,
                        None => None,
                    },
                    deny: match hit {
                        Some(c) => c.deny,
                        None => false,
                    },
                },
            )
        }
    }
}

/// The rows for `ifaces`, in order, without those that are left out.
pub open spec fn correlated(ifaces: Seq<LocalInterface>, clients: Seq<ClientView>) -> Seq<
    InterfaceView,
>
    decreases ifaces.len(),
{
    if ifaces.len() == 0 {
        Seq::empty()
    } else {
        let before = correlated(ifaces.drop_last(), clients);
        match interface_row(ifaces.last(), clients) {
            Some(row) => before.push(row),
            None => before,
        }
    }
}

/// No row stands for a loopback interface or for an interface without a
/// hardware address: every row is the row of a listed interface that is
/// neither, and carries that interface's name and address. Where the
/// router reported devices, every row is one of them.
pub proof fn lemma_correlated_rows(ifaces: Seq<LocalInterface>, clients: Seq<ClientView>)
    ensures
        correlated(ifaces, clients).len() <= ifaces.len(),
        forall|r: int|
            0 <= r < correlated(ifaces, clients).len() ==> exists|k: int|
                {
                    &&& 0 <= k < ifaces.len()
                    &&& !ifaces[k].loopback
                    &&& ifaces[k].mac is Some
                    &&& interface_row(ifaces[k], clients) == Some(
                        #[trigger] correlated(ifaces, clients)[r],
                    )
                    &&& correlated(ifaces, clients)[r].name == ifaces[k].name@
                    &&& correlated(ifaces, clients)[r].mac == lowered(
                        mac_text(ifaces[k].mac->0@),
                    )
                    &&& clients.len() > 0 ==> client_for(
                        clients,
                        correlated(ifaces, clients)[r].mac,
                        clients.len() as int,
                    ) is Some
                },
    decreases ifaces.len(),
{
    if ifaces.len() > 0 {
        let earlier = ifaces.drop_last();
        let before = correlated(earlier, clients);
        let after = correlated(ifaces, clients);
        lemma_correlated_rows(earlier, clients);
        assert forall|r: int| 0 <= r < after.len() implies exists|k: int|
            {
                &&& 0 <= k < ifaces.len()
                &&& !ifaces[k].loopback
                &&& ifaces[k].mac is Some
                &&& interface_row(ifaces[k], clients) == Some(#[trigger] after[r])
                &&& after[r].name == ifaces[k].name@
                &&& after[r].mac == lowered(mac_text(ifaces[k].mac->0@))
                &&& clients.len() > 0 ==> client_for(clients, after[r].mac, clients.len() as int)
                    is Some
            } by {
            if r < before.len() {
                assert(after[r] == before[r]);
                let k = choose|k: int|
                    {
                        &&& 0 <= k < earlier.len()
                        &&& !earlier[k].loopback
                        &&& earlier[k].mac is Some
                        &&& interface_row(earlier[k], clients) == Some(#[trigger] before[r])
                        &&& before[r].name == earlier[k].name@
                        &&& before[r].mac == lowered(mac_text(earlier[k].mac->0@))
                        &&& clients.len() > 0 ==> client_for(
                            clients,
                            before[r].mac,
                            clients.len() as int,
                        ) is Some
                    };
                assert(earlier[k] == ifaces[k]);
            } else {
                let k = ifaces.len() - 1;
                assert(ifaces[k] == ifaces.last());
                assert(interface_row(ifaces[k], clients) == Some(after[r]));
            }
        }
    }
}

/// `client_for` finds the last of the first `upto` records whose
/// address in lower case is `key`, and finds one whenever there is one.
pub proof fn lemma_client_for(clients: Seq<ClientView>, key: Seq<char>, upto: int)
    requires
        0 <= upto <= clients.len(),
    ensures
        match client_for(clients, key, upto) {
            Some(c) => exists|i: int|
                {
                    &&& 0 <= i < upto
                    &&& c == #[trigger] clients[i]
                    &&& lowered(clients[i].mac) == key
                    &&& forall|j: int| i < j < upto ==> lowered((#[trigger] clients[j]).mac) != key
                },
            None => forall|i: int| 0 <= i < upto ==> lowered((#[trigger] clients[i]).mac) != key,
        },
    decreases upto,
{
    if upto > 0 && lowered(clients[upto - 1].mac) != key {
        lemma_client_for(clients, key, upto - 1);
        if client_for(clients, key, upto - 1) is Some {
            let i = choose|i: int|
                {
                    &&& 0 <= i < upto - 1
                    &&& client_for(clients, key, upto - 1)->0 == #[trigger] clients[i]
                    &&& lowered(clients[i].mac) == key
                    &&& forall|j: int|
                        i < j < upto - 1 ==> lowered((#[trigger] clients[j]).mac) != key
                };
            assert(forall|j: int| i < j < upto ==> lowered((#[trigger] clients[j]).mac) != key);
        }
    } else if upto > 0 {
        assert(client_for(clients, key, upto) == Some(clients[upto - 1]));
    }
}

/// The text of a hardware address is ASCII without capital letters, and
/// seventeen characters long.
pub proof fn lemma_mac_text_plain(m: Seq<u8>)
    requires
        m.len() == 6,
    ensures
        mac_text(m).len() == 17,
        is_plain_lower(mac_text(m)),
        lowered(mac_text(m)) == mac_text(m),
{
    assert forall|k: int| 0 <= k < 6 implies is_plain_lower_char(hex_pair(#[trigger] m[k])[0])
        && is_plain_lower_char(hex_pair(m[k])[1]) && hex_pair(m[k]).len() == 2 by {}
    let t = mac_text(m);
    assert(t =~= seq![
        hex_pair(m[0])[0],
        hex_pair(m[0])[1],
        ':',
        hex_pair(m[1])[0],
        hex_pair(m[1])[1],
        ':',
        hex_pair(m[2])[0],
        hex_pair(m[2])[1],
        ':',
        hex_pair(m[3])[0],
        hex_pair(m[3])[1],
        ':',
        hex_pair(m[4])[0],
        hex_pair(m[4])[1],
        ':',
        hex_pair(m[5])[0],
        hex_pair(m[5])[1],
    ]);
    assert(is_plain_lower_char(':'));
}

/// Whether the router writes every address in `rows` in ASCII without
/// capital letters.
pub open spec fn plain_addresses(rows: Seq<JsonView>) -> bool {
    forall|k: int|
        0 <= k < rows.len() && (#[trigger] rows[k]).text_member("mac"@) is Some
            ==> is_plain_lower(rows[k].text_member("mac"@)->0)
}

/// What the rows of a router and one interface of this machine give
/// together, where the router writes addresses in lower case.
///
/// If a row is filed under the interface's address, there is exactly one
/// row for the interface, whatever the number of rows the router sent for
/// it. It carries the interface's name and address. Its block state is
/// that of the last row for the address that says one, its state of
/// connection that of the last row for the address, and its policy that
/// of the first row that names one. It is the active interface.
pub proof fn lemma_device_row(rows: Seq<JsonView>, iface: LocalInterface)
    requires
        !iface.loopback,
        iface.mac is Some,
        plain_addresses(rows),
        seen(rows, mac_text(iface.mac->0@)),
    ensures
        ({
            let key = mac_text(iface.mac->0@);
            let out = correlated(seq![iface], reconciled(rows));
            &&& out.len() == 1
            &&& out[0].name == iface.name@
            &&& out[0].mac == key
            &&& out[0].deny == last_deny(rows, key)
            &&& out[0].online == is_online(last_raw(rows, key))
            &&& out[0].policy == first_text(rows, key, "policy"@)
            &&& out[0].display_name == match first_text(rows, key, "name"@) {
                Some(n) => n,
                None => iface.name@,
            }
            &&& active_row(out) == Some(out[0])
        }),
{
    let key = mac_text(iface.mac->0@);
    let table = reconciled(rows);
    lemma_mac_text_plain(iface.mac->0@);
    lemma_reconciled(rows);
    let k = choose|k: int| 0 <= k < rows.len() && row_mac(#[trigger] rows[k]) == key;
    assert(has_record(table, row_mac(rows[k])));
    let slot = choose|i: int| 0 <= i < table.len() && (#[trigger] table[i]).mac == key;
    assert forall|i: int| 0 <= i < table.len() implies lowered((#[trigger] table[i]).mac)
        == table[i].mac by {
        lemma_plain_key(rows, table[i].mac);
    }
    lemma_client_for(table, key, table.len() as int);
    assert(lowered(table[slot].mac) == key);
    let hit = client_for(table, key, table.len() as int);
    assert(hit is Some);
    assert(hit->0 == table[slot]) by {
        let i = choose|i: int|
            {
                &&& 0 <= i < table.len()
                &&& hit->0 == #[trigger] table[i]
                &&& lowered(table[i].mac) == key
                &&& forall|j: int|
                    i < j < table.len() ==> lowered((#[trigger] table[j]).mac) != key
            };
        assert(table[i].mac == key);
        if i < slot {
            assert(table[i].mac != table[slot].mac);
        } else if slot < i {
            assert(table[slot].mac != table[i].mac);
        }
    }
    assert(table[slot] == summary(rows, key));
    let single = seq![iface];
    assert(single.drop_last() =~= Seq::<LocalInterface>::empty());
    assert(single.last() == iface);
    reveal_with_fuel(correlated, 2);
    let row = interface_row(iface, table)->0;
    assert(correlated(single, table) =~= seq![row]);
    reveal_with_fuel(first_online, 2);
}

/// A key under which a row with a plain address is filed is that address.
proof fn lemma_plain_key(rows: Seq<JsonView>, mac: Seq<char>)
    requires
        plain_addresses(rows),
        seen(rows, mac),
    ensures
        is_plain_lower(mac),
        lowered(mac) == mac,
{
    let k = choose|k: int| 0 <= k < rows.len() && row_mac(#[trigger] rows[k]) == mac;
    if rows[k].text_member("mac"@) is Some {
        lemma_lowered_plain(rows[k].text_member("mac"@)->0);
    } else {
        lemma_lowered_plain(Seq::<char>::empty());
    }
}

/// The end-to-end case of a device that the router lists twice: two rows
/// for one address, the later saying whether the device is blocked, and
/// one interface of this machine with that address. There is one row for
/// the interface. Its block state is what the later row says, and its
/// state of connection is that of the later row alone, whatever the
/// earlier row says.
pub proof fn lemma_device_listed_twice(
    first: JsonView,
    second: JsonView,
    deny: bool,
    iface: LocalInterface,
)
    requires
        !iface.loopback,
        iface.mac is Some,
        first.text_member("mac"@) == Some(mac_text(iface.mac->0@)),
        second.text_member("mac"@) == Some(mac_text(iface.mac->0@)),
        second.bool_member("deny"@) == Some(deny),
    ensures
        ({
            let out = correlated(seq![iface], reconciled(seq![first, second]));
            &&& out.len() == 1
            &&& out[0].mac == mac_text(iface.mac->0@)
            &&& out[0].deny == deny
            &&& out[0].online == is_online(second)
            &&& active_row(out) == Some(out[0])
        }),
{
    let key = mac_text(iface.mac->0@);
    let rows = seq![first, second];
    lemma_mac_text_plain(iface.mac->0@);
    assert(row_mac(rows[1]) == key);
    assert(plain_addresses(rows));
    lemma_device_row(rows, iface);
    assert(rows.last() == second);
    assert(!(second is Null));
}

/// The addresses of `clients` in lower case.
fn lowered_macs(clients: &[ClientInfo]) -> (keys: Vec<String>)
    ensures
        keys@.len() == clients@.len(),
        forall|i: int| 0 <= i < keys@.len() ==> (#[trigger] keys@[i])@ == lowered(clients@[i].mac@),
{
    let mut keys: Vec<String> = Vec::new();
    let n: usize = clients.len();
    let mut i: usize = 0;
    while i < n
        invariant
            n == clients@.len(),
            i <= n,
            keys@.len() == i,
            forall|k: int| 0 <= k < i ==> (#[trigger] keys@[k])@ == lowered(clients@[k].mac@),
        decreases n - i,
    {
        keys.push(to_lowercase(clients[i].mac.as_str()));
        i += 1;
    }
    keys
}

/// The index of the last of `keys` that equals `key`.
fn find_last(keys: &Vec<String>, key: &str, Ghost(clients): Ghost<Seq<ClientView>>) -> (slot: Option<usize>)
    requires
        keys@.len() == clients.len(),
        forall|i: int| 0 <= i < keys@.len() ==> (#[trigger] keys@[i])@ == lowered(clients[i].mac),
    ensures
        match slot {
            Some(i) => i < clients.len() && client_for(clients, key@, clients.len() as int) == Some(
                clients[i as int],
            ),
            None => client_for(clients, key@, clients.len() as int) is None,
        },
{
    let n: usize = keys.len();
    let mut i: usize = n;
    while i > 0
        invariant
            n == keys@.len(),
            n == clients.len(),
            i <= n,
            forall|k: int| 0 <= k < keys@.len() ==> (#[trigger] keys@[k])@ == lowered(clients[k].mac),
            client_for(clients, key@, n as int) == client_for(clients, key@, i as int),
        decreases i,
    {
        if text_eq(keys[i - 1].as_str(), key) {
            return Some(i - 1);
        }
        i -= 1;
    }
    None
}

/// The row for one interface, or `None` where it is left out.
fn correlate_one(iface: &LocalInterface, clients: &[ClientInfo], keys: &Vec<String>) -> (row: Option<InterfaceInfo>)
    requires
        keys@.len() == clients@.len(),
        forall|i: int| 0 <= i < keys@.len() ==> (#[trigger] keys@[i])@ == lowered(clients@[i].mac@),
    ensures
        match row {
            Some(r) => interface_row(*iface, client_views(clients@)) == Some(r@),
            None => interface_row(*iface, client_views(clients@)) is None,
        },
{
    if iface.loopback {
        return None;
    }
    let bytes = match &iface.mac {
        Some(m) => m,
        None => { return None; },
    };
    let shown = mac_to_text(bytes);
    let mac = to_lowercase(shown.as_str());
    let hit = find_last(keys, mac.as_str(), Ghost(client_views(clients@)));
    if clients.len() > 0 && hit.is_none() {
        return None;
    }
    let name = iface.name.clone();
    let ip = shown_address(&iface.ips);
    let iface_type = interface_type(iface.name.as_str());
    match hit {
        Some(i) => {
            let client = &clients[i];
            let display_name = match &client.name {
                Some(n) => n.clone(),
                None => iface.name.clone(),
            };
            Some(
                InterfaceInfo {
                    name,
                    display_name,
                    mac,
                    ip,
                    iface_type,
                    online: client_is_online(client),
                    policy: copy_opt_text(&client.policy),
                    deny: client.deny,
                },
            )
        },
        None => Some(
            InterfaceInfo {
                name,
                display_name: iface.name.clone(),
                mac,
                ip,
                iface_type,
                online: false,
                policy: None,
                deny: false,
            },
        ),
    }
}

/// The interfaces of this machine as the router knows them.
///
/// Loopback interfaces and interfaces without a hardware address are left
/// out. Where `clients` is not empty, so are interfaces that are none of
/// the clients. What is known of the matching client is copied into the
/// row.
pub fn local_interfaces(clients: &[ClientInfo], ifaces: &[LocalInterface]) -> (out: Vec<InterfaceInfo>)
    ensures
        interface_views(out@) == correlated(ifaces@, client_views(clients@)),
{
    let keys = lowered_macs(clients);
    let mut out: Vec<InterfaceInfo> = Vec::new();
    let n: usize = ifaces.len();
    let mut i: usize = 0;
    assert(ifaces@.subrange(0, 0) =~= Seq::empty());
    assert(interface_views(out@) =~= Seq::empty());
    while i < n
        invariant
            n == ifaces@.len(),
            i <= n,
            keys@.len() == clients@.len(),
            forall|k: int| 0 <= k < keys@.len() ==> (#[trigger] keys@[k])@ == lowered(clients@[k].mac@),
            interface_views(out@) == correlated(
                ifaces@.subrange(0, i as int),
                client_views(clients@),
            ),
        decreases n - i,
    {
        assert(ifaces@.subrange(0, i + 1).drop_last() =~= ifaces@.subrange(0, i as int));
        let ghost before = interface_views(out@);
        match correlate_one(&ifaces[i], clients, &keys) {
            Some(row) => {
                out.push(row);
                assert(interface_views(out@) =~= before.push(row@));
            },
            None => {},
        }
        i += 1;
    }
    assert(ifaces@.subrange(0, n as int) =~= ifaces@);
    out
}

/// The index of the first row at or after `from` that is online.
pub open spec fn first_online(rows: Seq<InterfaceView>, from: int) -> Option<int>
    decreases rows.len() - from,
{
    if from < 0 || from >= rows.len() {
        None
    } else if rows[from].online {
        Some(from)
    } else {
        first_online(rows, from + 1)
    }
}

/// The row that stands for the machine: the first that is online, or the
/// first of all where none is; `None` where there is no row.
pub open spec fn active_row(rows: Seq<InterfaceView>) -> Option<InterfaceView> {
    match first_online(rows, 0) {
        Some(i) => Some(rows[i]),
        None => if rows.len() > 0 {
            Some(rows[0])
        } else {
            None
        },
    }
}

/// The interface that stands for the machine: the first that is online, or
/// the first of all where none is.
pub fn active_interface(rows: &[InterfaceInfo]) -> (active: Option<InterfaceInfo>)
    ensures
        match active {
            Some(r) => active_row(interface_views(rows@)) == Some(r@),
            None => active_row(interface_views(rows@)) is None,
        },
{
    let ghost all = interface_views(rows@);
    let n: usize = rows.len();
    let mut i: usize = 0;
    while i < n
        invariant
            n == rows@.len(),
            i <= n,
            all == interface_views(rows@),
            first_online(all, 0) == first_online(all, i as int),
        decreases n - i,
    {
        if rows[i].online {
            return Some(rows[i].duplicate());
        }
        i += 1;
    }
    if n > 0 {
        Some(rows[0].duplicate())
    } else {
        None
    }
}

} // verus!
