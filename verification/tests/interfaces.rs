use router_core::interfaces::classify_interface;
use router_core::{
    active_interface, interface_type, local_interfaces, local_networks, ClientInfo, InterfaceInfo,
    IpNet, Ipv4Net, JsonValue, LocalInterface,
};

fn ip(a: u32, b: u32, c: u32, d: u32) -> u32 {
    (a << 24) | (b << 16) | (c << 8) | d
}

fn v4(a: u32, b: u32, c: u32, d: u32, prefix: u8) -> IpNet {
    IpNet::V4(Ipv4Net::new(ip(a, b, c, d), prefix).unwrap())
}

fn iface(name: &str, mac: Option<[u8; 6]>, loopback: bool, ips: Vec<IpNet>) -> LocalInterface {
    LocalInterface {
        name: name.to_string(),
        mac,
        loopback,
        ips,
    }
}

fn object(members: Vec<(&str, JsonValue)>) -> JsonValue {
    JsonValue::Object(
        members
            .into_iter()
            .map(|(k, v)| (k.to_string(), v))
            .collect(),
    )
}

fn client(mac: &str, name: Option<&str>, policy: Option<&str>, deny: bool, up: bool) -> ClientInfo {
    ClientInfo {
        name: name.map(|s| s.to_string()),
        ip: None,
        mac: mac.to_string(),
        policy: policy.map(|s| s.to_string()),
        deny,
        raw: object(vec![(
            "link",
            JsonValue::Text(if up { "up" } else { "down" }.to_string()),
        )]),
    }
}

fn row(name: &str, online: bool) -> InterfaceInfo {
    InterfaceInfo {
        name: name.to_string(),
        display_name: name.to_string(),
        mac: "00:00:00:00:00:00".to_string(),
        ip: "N/A".to_string(),
        iface_type: "Unknown".to_string(),
        online,
        policy: None,
        deny: false,
    }
}

const MAC_A: [u8; 6] = [0xaa, 0xbb, 0xcc, 0xdd, 0xee, 0xff];
const MAC_B: [u8; 6] = [0x00, 0x1b, 0x2c, 0x3d, 0x4e, 0x0f];

#[test]
fn classifies_by_name_prefix() {
    assert_eq!(interface_type("wlan0"), "Wi-Fi");
    assert_eq!(interface_type("eth0"), "Ethernet");
    assert_eq!(interface_type("docker0"), "Unknown");
    assert_eq!(interface_type("WLAN0"), "Wi-Fi");
}

#[test]
fn classifies_other_prefixes() {
    assert_eq!(interface_type("wlp3s0"), "Wi-Fi");
    assert_eq!(interface_type("wifi0"), "Wi-Fi");
    assert_eq!(interface_type("WiFi"), "Wi-Fi");
    assert_eq!(interface_type("wl"), "Wi-Fi");
    assert_eq!(interface_type("en0"), "Ethernet");
    assert_eq!(interface_type("enp0s31f6"), "Ethernet");
    assert_eq!(interface_type("ETH1"), "Ethernet");
    assert_eq!(interface_type("En"), "Ethernet");
    assert_eq!(interface_type(""), "Unknown");
    assert_eq!(interface_type("w"), "Unknown");
    assert_eq!(interface_type("e"), "Unknown");
    assert_eq!(interface_type("lo"), "Unknown");
    assert_eq!(interface_type("xwlan0"), "Unknown");
    assert_eq!(interface_type("wi-fi"), "Unknown");
}

#[test]
fn classifying_a_lowered_name_does_not_lower_it() {
    assert_eq!(classify_interface("wlan0"), "Wi-Fi");
    assert_eq!(classify_interface("WLAN0"), "Unknown");
    assert_eq!(classify_interface("eth0"), "Ethernet");
}

#[test]
fn local_networks_are_the_ipv4_networks_in_order() {
    let ifaces = vec![
        iface("lo", None, true, vec![v4(127, 0, 0, 1, 8), IpNet::V6]),
        iface("eth0", Some(MAC_A), false, vec![IpNet::V6, v4(192, 168, 1, 50, 24)]),
        iface("tun0", None, false, vec![]),
        iface("wlan0", Some(MAC_B), false, vec![v4(10, 0, 0, 7, 16), v4(10, 1, 0, 7, 16)]),
    ];
    let nets = local_networks(&ifaces);
    let seen: Vec<(u32, u8)> = nets.iter().map(|n| (n.ip(), n.prefix())).collect();
    assert_eq!(
        seen,
        vec![
            (ip(127, 0, 0, 1), 8),
            (ip(192, 168, 1, 50), 24),
            (ip(10, 0, 0, 7), 16),
            (ip(10, 1, 0, 7), 16)
        ]
    );
    assert!(local_networks(&[]).is_empty());
}

#[test]
fn loopback_and_macless_interfaces_are_left_out() {
    let ifaces = vec![
        iface("lo", Some(MAC_A), true, vec![v4(127, 0, 0, 1, 8)]),
        iface("tun0", None, false, vec![v4(10, 8, 0, 2, 24)]),
        iface("eth0", Some(MAC_B), false, vec![v4(192, 168, 1, 50, 24)]),
    ];
    let rows = local_interfaces(&[], &ifaces);
    assert_eq!(rows.len(), 1);
    assert_eq!(rows[0].name, "eth0");
    assert_eq!(rows[0].display_name, "eth0");
    assert_eq!(rows[0].mac, "00:1b:2c:3d:4e:0f");
    assert_eq!(rows[0].ip, "192.168.1.50");
    assert_eq!(rows[0].iface_type, "Ethernet");
    assert!(!rows[0].online);
    assert_eq!(rows[0].policy, None);
    assert!(!rows[0].deny);
}

#[test]
fn without_clients_all_interfaces_are_kept() {
    let ifaces = vec![
        iface("eth0", Some(MAC_A), false, vec![]),
        iface("wlan0", Some(MAC_B), false, vec![IpNet::V6]),
    ];
    let rows = local_interfaces(&[], &ifaces);
    assert_eq!(rows.len(), 2);
    assert_eq!(rows[0].ip, "N/A");
    assert_eq!(rows[1].ip, "N/A");
    assert_eq!(rows[1].iface_type, "Wi-Fi");
}

#[test]
fn with_clients_only_matching_interfaces_are_kept() {
    let ifaces = vec![
        iface("eth0", Some(MAC_A), false, vec![v4(192, 168, 1, 50, 24)]),
        iface("wlan0", Some(MAC_B), false, vec![v4(192, 168, 1, 51, 24)]),
    ];
    let clients = vec![
        client("11:22:33:44:55:66", Some("Other"), None, false, true),
        client("AA:BB:CC:DD:EE:FF", Some("Laptop"), Some("Policy0"), true, true),
    ];
    let rows = local_interfaces(&clients, &ifaces);
    assert_eq!(rows.len(), 1);
    assert_eq!(rows[0].name, "eth0");
    assert_eq!(rows[0].display_name, "Laptop");
    assert_eq!(rows[0].mac, "aa:bb:cc:dd:ee:ff");
    assert_eq!(rows[0].policy.as_deref(), Some("Policy0"));
    assert!(rows[0].deny);
    assert!(rows[0].online);
}

#[test]
fn client_without_name_keeps_interface_name() {
    let ifaces = vec![iface("eth0", Some(MAC_A), false, vec![])];
    let clients = vec![client("aa:bb:cc:dd:ee:ff", None, None, false, false)];
    let rows = local_interfaces(&clients, &ifaces);
    assert_eq!(rows.len(), 1);
    assert_eq!(rows[0].display_name, "eth0");
    assert!(!rows[0].online);
}

#[test]
fn later_client_with_same_mac_wins() {
    let ifaces = vec![iface("eth0", Some(MAC_A), false, vec![])];
    let clients = vec![
        client("aa:bb:cc:dd:ee:ff", Some("first"), None, false, false),
        client("AA:BB:CC:DD:EE:FF", Some("second"), None, true, true),
    ];
    let rows = local_interfaces(&clients, &ifaces);
    assert_eq!(rows.len(), 1);
    assert_eq!(rows[0].display_name, "second");
    assert!(rows[0].deny);
}

#[test]
fn no_interface_matches_no_rows() {
    let ifaces = vec![iface("eth0", Some(MAC_A), false, vec![])];
    let clients = vec![client("11:22:33:44:55:66", None, None, false, true)];
    assert!(local_interfaces(&clients, &ifaces).is_empty());
    assert!(local_interfaces(&clients, &[]).is_empty());
}

#[test]
fn first_ipv4_address_is_shown() {
    let ifaces = vec![iface(
        "eth0",
        Some(MAC_A),
        false,
        vec![IpNet::V6, v4(10, 0, 0, 7, 8), v4(192, 168, 1, 50, 24)],
    )];
    let rows = local_interfaces(&[], &ifaces);
    assert_eq!(rows[0].ip, "10.0.0.7");
}

#[test]
fn active_interface_is_first_online() {
    let rows = vec![row("a", false), row("b", true), row("c", true)];
    assert_eq!(active_interface(&rows).map(|r| r.name), Some("b".to_string()));
}

#[test]
fn active_interface_falls_back_to_first() {
    let rows = vec![row("a", false), row("b", false)];
    assert_eq!(active_interface(&rows).map(|r| r.name), Some("a".to_string()));
    assert!(active_interface(&[]).is_none());
}
