use router_core::clients::{absorb_row, find_client, merge_row, row_key};
use router_core::{client_is_online, reconcile, ClientInfo, JsonValue};

fn text(s: &str) -> JsonValue {
    JsonValue::Text(s.to_string())
}

fn object(members: Vec<(&str, JsonValue)>) -> JsonValue {
    JsonValue::Object(
        members
            .into_iter()
            .map(|(k, v)| (k.to_string(), v))
            .collect(),
    )
}

fn client_with(raw: JsonValue) -> ClientInfo {
    ClientInfo {
        name: None,
        ip: None,
        mac: "aa:bb:cc:dd:ee:ff".to_string(),
        policy: None,
        deny: false,
        raw,
    }
}

#[test]
fn first_seen_wins_for_descriptive_fields() {
    let rows = vec![
        object(vec![
            ("mac", text("aa:bb:cc:dd:ee:ff")),
            ("name", JsonValue::Null),
            ("ip", text("10.0.0.5")),
        ]),
        object(vec![
            ("mac", text("aa:bb:cc:dd:ee:ff")),
            ("name", text("Phone")),
            ("ip", text("10.0.0.9")),
        ]),
    ];
    let table = reconcile(&rows);
    assert_eq!(table.len(), 1);
    assert_eq!(table[0].mac, "aa:bb:cc:dd:ee:ff");
    assert_eq!(table[0].name.as_deref(), Some("Phone"));
    assert_eq!(table[0].ip.as_deref(), Some("10.0.0.5"));
}

#[test]
fn one_record_per_lower_cased_mac() {
    let rows = vec![
        object(vec![("mac", text("AA:BB:CC:DD:EE:FF")), ("name", text("A"))]),
        object(vec![("mac", text("11:22:33:44:55:66")), ("name", text("B"))]),
        object(vec![("mac", text("aa:bb:cc:dd:ee:ff")), ("policy", text("Policy0"))]),
        object(vec![("mac", text("Aa:Bb:Cc:Dd:Ee:Ff")), ("policy", text("Policy1"))]),
    ];
    let table = reconcile(&rows);
    assert_eq!(table.len(), 2);
    assert_eq!(table[0].mac, "aa:bb:cc:dd:ee:ff");
    assert_eq!(table[0].name.as_deref(), Some("A"));
    assert_eq!(table[0].policy.as_deref(), Some("Policy0"));
    assert_eq!(table[1].mac, "11:22:33:44:55:66");
    assert_eq!(table[1].name.as_deref(), Some("B"));
    assert_eq!(table[1].policy, None);
}

#[test]
fn rows_without_mac_are_dropped() {
    let rows = vec![
        object(vec![("name", text("nameless"))]),
        object(vec![("mac", text("")), ("name", text("empty"))]),
        object(vec![("mac", JsonValue::Number("5".to_string()))]),
        JsonValue::Null,
        text("aa:bb:cc:dd:ee:ff"),
        JsonValue::Array(vec![]),
    ];
    assert!(reconcile(&rows).is_empty());
    assert!(reconcile(&Vec::new()).is_empty());
}

#[test]
fn deny_is_last_seen_wins() {
    let rows = vec![
        object(vec![("mac", text("aa:bb:cc:dd:ee:ff")), ("deny", JsonValue::Bool(true))]),
        object(vec![("mac", text("aa:bb:cc:dd:ee:ff"))]),
        object(vec![("mac", text("aa:bb:cc:dd:ee:ff")), ("deny", JsonValue::Bool(false))]),
        object(vec![("mac", text("aa:bb:cc:dd:ee:ff")), ("deny", text("true"))]),
    ];
    let table = reconcile(&rows);
    assert_eq!(table.len(), 1);
    assert!(!table[0].deny);

    let rows = vec![
        object(vec![("mac", text("aa:bb:cc:dd:ee:ff")), ("deny", JsonValue::Bool(false))]),
        object(vec![("mac", text("aa:bb:cc:dd:ee:ff")), ("deny", JsonValue::Bool(true))]),
        object(vec![("mac", text("aa:bb:cc:dd:ee:ff"))]),
    ];
    let table = reconcile(&rows);
    assert!(table[0].deny);
}

#[test]
fn raw_is_the_latest_row() {
    let rows = vec![
        object(vec![("mac", text("aa:bb:cc:dd:ee:ff")), ("link", text("up"))]),
        object(vec![("mac", text("aa:bb:cc:dd:ee:ff")), ("link", text("down"))]),
    ];
    let table = reconcile(&rows);
    assert_eq!(table.len(), 1);
    assert_eq!(
        table[0].raw.get("link").and_then(|v| v.as_str()),
        Some("down")
    );
    assert!(!client_is_online(&table[0]));
}

#[test]
fn records_come_in_first_seen_order() {
    let rows = vec![
        object(vec![("mac", text("03"))]),
        object(vec![("mac", text("01"))]),
        object(vec![("mac", text("03"))]),
        object(vec![("mac", text("02"))]),
        object(vec![("mac", text("01"))]),
    ];
    let macs: Vec<String> = reconcile(&rows).into_iter().map(|c| c.mac).collect();
    assert_eq!(macs, vec!["03", "01", "02"]);
}

#[test]
fn row_key_is_lower_cased_mac() {
    assert_eq!(row_key(&object(vec![("mac", text("AA:0B"))])), "aa:0b");
    assert_eq!(row_key(&object(vec![("name", text("x"))])), "");
    assert_eq!(row_key(&JsonValue::Null), "");
}

#[test]
fn merge_row_adds_or_updates() {
    let mut table: Vec<ClientInfo> = Vec::new();
    let row = object(vec![("mac", text("AA")), ("name", text("first"))]);
    merge_row(&mut table, "aa".to_string(), &row);
    assert_eq!(table.len(), 1);
    assert_eq!(table[0].mac, "aa");
    assert_eq!(table[0].name.as_deref(), Some("first"));
    assert_eq!(find_client(&table, "aa"), Some(0));
    assert_eq!(find_client(&table, "bb"), None);
    let row = object(vec![
        ("mac", text("AA")),
        ("name", text("second")),
        ("ip", text("1.2.3.4")),
    ]);
    merge_row(&mut table, "aa".to_string(), &row);
    assert_eq!(table.len(), 1);
    assert_eq!(table[0].name.as_deref(), Some("first"));
    assert_eq!(table[0].ip.as_deref(), Some("1.2.3.4"));
}

#[test]
fn absorb_row_keeps_what_is_set() {
    let rec = ClientInfo {
        name: Some("kept".to_string()),
        ip: None,
        mac: "aa".to_string(),
        policy: Some("P".to_string()),
        deny: true,
        raw: text("old"),
    };
    let row = object(vec![
        ("name", text("new")),
        ("ip", text("10.0.0.1")),
        ("policy", text("Q")),
    ]);
    let out = absorb_row(&rec, &row);
    assert_eq!(out.name.as_deref(), Some("kept"));
    assert_eq!(out.ip.as_deref(), Some("10.0.0.1"));
    assert_eq!(out.policy.as_deref(), Some("P"));
    assert!(out.deny);
    assert_eq!(out.mac, "aa");
    assert!(out.raw.get("name").is_some());
    let same = absorb_row(&rec, &JsonValue::Null);
    assert_eq!(same.raw.as_str(), Some("old"));
}

#[test]
fn online_when_mesh_link_is_up() {
    let raw = object(vec![
        ("link", text("down")),
        ("mws", object(vec![("link", text("up"))])),
    ]);
    assert!(client_is_online(&client_with(raw)));
}

#[test]
fn offline_when_link_is_down() {
    let raw = object(vec![("link", text("down"))]);
    assert!(!client_is_online(&client_with(raw)));
}

#[test]
fn online_when_link_is_up() {
    let raw = object(vec![("link", text("up"))]);
    assert!(client_is_online(&client_with(raw)));
}

#[test]
fn offline_for_anything_else() {
    assert!(!client_is_online(&client_with(JsonValue::Null)));
    assert!(!client_is_online(&client_with(object(vec![]))));
    assert!(!client_is_online(&client_with(object(vec![("link", text("UP"))]))));
    assert!(!client_is_online(&client_with(object(vec![(
        "link",
        JsonValue::Bool(true)
    )]))));
    assert!(!client_is_online(&client_with(object(vec![("mws", text("up"))]))));
    assert!(!client_is_online(&client_with(object(vec![(
        "mws",
        object(vec![("link", text("down"))])
    )]))));
}

#[test]
fn copy_of_a_record_is_equal() {
    let rec = ClientInfo {
        name: Some("n".to_string()),
        ip: Some("i".to_string()),
        mac: "m".to_string(),
        policy: None,
        deny: true,
        raw: object(vec![("a", JsonValue::Array(vec![text("x"), JsonValue::Null]))]),
    };
    let copy = rec.duplicate();
    assert_eq!(copy.name, rec.name);
    assert_eq!(copy.ip, rec.ip);
    assert_eq!(copy.mac, rec.mac);
    assert_eq!(copy.policy, rec.policy);
    assert_eq!(copy.deny, rec.deny);
    assert_eq!(format!("{:?}", copy.raw), format!("{:?}", rec.raw));
}
