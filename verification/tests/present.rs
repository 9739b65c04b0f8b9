use router_core::{
    apply_policy, decode_mac, encode_mac, policy_label, policy_short, HttpRequest, HttpResponse,
    JsonValue, Method, Phase, PolicyInfo, Reply, RouterError, RouterInfo, Step,
};

fn policies() -> Vec<(String, PolicyInfo)> {
    vec![
        (
            "Policy0".to_string(),
            PolicyInfo {
                description: Some("VPN".to_string()),
            },
        ),
        ("Policy1".to_string(), PolicyInfo { description: None }),
    ]
}

fn router() -> RouterInfo {
    RouterInfo {
        name: "home".to_string(),
        address: "192.168.1.1".to_string(),
        login: "admin".to_string(),
        network_ip: None,
        keendns_urls: None,
    }
}

fn ok(body: Option<JsonValue>) -> Reply {
    Reply::Response(HttpResponse {
        status: 200,
        headers: Vec::new(),
        body,
    })
}

fn sent(step: Step<()>) -> HttpRequest {
    match step {
        Step::Send(q) => q,
        Step::Done(_) => panic!("expected a request"),
    }
}

fn body_text(q: &HttpRequest, key: &str) -> Option<String> {
    q.body
        .as_ref()
        .and_then(|b| b.get(key))
        .and_then(|v| v.as_str())
        .map(|s| s.to_string())
}

fn body_bool(q: &HttpRequest, key: &str) -> Option<bool> {
    q.body.as_ref().and_then(|b| b.get(key)).and_then(|v| v.as_bool())
}

#[test]
fn label_for_blocked_device() {
    assert_eq!(policy_label(Some("Policy0"), true, &policies()), "Blocked");
    assert_eq!(policy_label(None, true, &policies()), "Blocked");
}

#[test]
fn label_for_default_policy() {
    assert_eq!(policy_label(None, false, &policies()), "Default");
}

#[test]
fn label_is_description_or_name() {
    assert_eq!(policy_label(Some("Policy0"), false, &policies()), "VPN");
    assert_eq!(policy_label(Some("Policy1"), false, &policies()), "Policy1");
    assert_eq!(policy_label(Some("Policy9"), false, &policies()), "Policy9");
    assert_eq!(policy_label(Some("Policy0"), false, &Vec::new()), "Policy0");
}

#[test]
fn short_label_is_three_characters() {
    assert_eq!(policy_short("Blocked"), "Blo");
    assert_eq!(policy_short("VPN"), "VPN");
    assert_eq!(policy_short("ab"), "ab");
    assert_eq!(policy_short(""), "");
    assert_eq!(policy_short("Дом и сад"), "Дом");
}

#[test]
fn encode_drops_colons() {
    assert_eq!(encode_mac("aa:bb:cc:dd:ee:ff"), "aabbccddeeff");
    assert_eq!(encode_mac("aabbcc"), "aabbcc");
    assert_eq!(encode_mac(":::"), "");
    assert_eq!(encode_mac(""), "");
}

#[test]
fn decode_puts_colons_back() {
    assert_eq!(decode_mac("aabbccddeeff"), "aa:bb:cc:dd:ee:ff");
    assert_eq!(decode_mac("aa:bb:cc:dd:ee:ff"), "aa:bb:cc:dd:ee:ff");
    assert_eq!(decode_mac("abc"), "ab:c");
    assert_eq!(decode_mac("a"), "a");
    assert_eq!(decode_mac("ab"), "ab");
    assert_eq!(decode_mac(""), "");
}

#[test]
fn decode_undoes_encode_for_addresses() {
    for mac in ["aa:bb:cc:dd:ee:ff", "00:1b:2c:3d:4e:0f", "ff:ff:ff:ff:ff:ff"] {
        assert_eq!(decode_mac(&encode_mac(mac)), mac);
    }
}

#[test]
fn apply_policy_blocks_when_asked() {
    let r = router();
    let (phase, step) = apply_policy("aa:bb", Some("Policy0"), true, &r, "192.168.1.1", "pw", Phase::Start, None);
    assert_eq!(phase, Phase::Probing);
    let probe = sent(step);
    assert_eq!(probe.method, Method::Get);
    assert_eq!(probe.url, "http://192.168.1.1/auth");
    let reply = ok(None);
    let (phase, step) = apply_policy("aa:bb", Some("Policy0"), true, &r, "192.168.1.1", "pw", phase, Some(&reply));
    assert_eq!(phase, Phase::Requesting);
    let q = sent(step);
    assert_eq!(q.method, Method::Post);
    assert_eq!(q.url, "http://192.168.1.1/rci/ip/hotspot/host");
    assert_eq!(body_text(&q, "mac").as_deref(), Some("aa:bb"));
    assert_eq!(body_bool(&q, "deny"), Some(true));
    assert_eq!(body_bool(&q, "schedule"), Some(false));
    assert!(q.body.as_ref().unwrap().get("policy").is_none());
    let reply = ok(Some(JsonValue::Object(Vec::new())));
    let (phase, step) = apply_policy("aa:bb", Some("Policy0"), true, &r, "192.168.1.1", "pw", phase, Some(&reply));
    assert_eq!(phase, Phase::Finished);
    assert!(matches!(step, Step::Done(Ok(()))));
}

#[test]
fn apply_policy_assigns_named_policy() {
    let r = router();
    let reply = ok(None);
    let (_, step) = apply_policy("aa:bb", Some("Policy0"), false, &r, "192.168.1.1", "pw", Phase::Probing, Some(&reply));
    let q = sent(step);
    assert_eq!(body_text(&q, "policy").as_deref(), Some("Policy0"));
    assert_eq!(body_bool(&q, "permit"), Some(true));
    assert_eq!(body_bool(&q, "schedule"), Some(false));
    assert!(q.body.as_ref().unwrap().get("deny").is_none());
}

#[test]
fn apply_policy_restores_default_as_false() {
    let r = router();
    let reply = ok(None);
    let (_, step) = apply_policy("aa:bb", None, false, &r, "192.168.1.1", "pw", Phase::Probing, Some(&reply));
    let q = sent(step);
    assert_eq!(body_bool(&q, "policy"), Some(false));
    assert_eq!(body_bool(&q, "permit"), Some(true));
}

#[test]
fn apply_policy_surfaces_failure() {
    let r = router();
    let reply = Reply::Response(HttpResponse {
        status: 500,
        headers: Vec::new(),
        body: None,
    });
    let (phase, step) = apply_policy("aa:bb", None, false, &r, "192.168.1.1", "pw", Phase::Requesting, Some(&reply));
    assert_eq!(phase, Phase::Finished);
    match step {
        Step::Done(Err(RouterError::InvalidResponse(m))) => assert_eq!(m, "status 500"),
        _ => panic!("expected an invalid response"),
    }
}
