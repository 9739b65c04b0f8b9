use router_core::overrides::{find_override, forget_override};
use router_core::{
    apply_overrides, override_for, record_override, ActiveState, InterfaceInfo, PolicyOverride,
    PolicyRequest, RouterInfo,
};

fn iface(mac: &str, policy: Option<&str>, deny: bool) -> InterfaceInfo {
    InterfaceInfo {
        name: "eth0".to_string(),
        display_name: "eth0".to_string(),
        mac: mac.to_string(),
        ip: "N/A".to_string(),
        iface_type: "Ethernet".to_string(),
        online: true,
        policy: policy.map(|s| s.to_string()),
        deny,
    }
}

fn state(interfaces: Vec<InterfaceInfo>, active: Option<usize>) -> ActiveState {
    ActiveState {
        router: RouterInfo {
            name: "home".to_string(),
            address: "192.168.1.1".to_string(),
            login: "admin".to_string(),
            network_ip: Some("192.168.1.1".to_string()),
            keendns_urls: Some(vec!["a.example".to_string()]),
        },
        active_iface: active.map(|i| interfaces[i].clone()),
        interfaces,
        policies: Vec::new(),
        active_address: "192.168.1.1".to_string(),
    }
}

fn change(policy: Option<&str>, deny: bool) -> PolicyOverride {
    PolicyOverride {
        policy: policy.map(|s| s.to_string()),
        deny,
    }
}

#[test]
fn override_for_each_request() {
    let o = override_for(&PolicyRequest::Default).unwrap();
    assert_eq!((o.policy, o.deny), (None, false));
    let o = override_for(&PolicyRequest::Blocked).unwrap();
    assert_eq!((o.policy, o.deny), (None, true));
    let o = override_for(&PolicyRequest::Assign("P".to_string())).unwrap();
    assert_eq!((o.policy, o.deny), (Some("P".to_string()), false));
    assert!(override_for(&PolicyRequest::SetWithoutName).is_none());
    assert!(override_for(&PolicyRequest::Other).is_none());
}

#[test]
fn recording_replaces_earlier_change() {
    let mut pending = Vec::new();
    record_override(&mut pending, "aa", change(Some("P"), false));
    record_override(&mut pending, "bb", change(None, true));
    record_override(&mut pending, "aa", change(None, false));
    assert_eq!(pending.len(), 2);
    assert_eq!(pending[0].0, "bb");
    assert_eq!(pending[1].0, "aa");
    assert_eq!(pending[1].1.policy, None);
    assert_eq!(find_override(&pending, "aa"), Some(1));
    assert_eq!(find_override(&pending, "cc"), None);
    forget_override(&mut pending, "bb");
    assert_eq!(pending.len(), 1);
    forget_override(&mut pending, "zz");
    assert_eq!(pending.len(), 1);
}

#[test]
fn pending_change_is_shown_until_confirmed() {
    let s = state(vec![iface("aa", Some("Old"), false), iface("bb", None, false)], Some(0));
    let mut pending = Vec::new();
    record_override(&mut pending, "aa", change(Some("New"), false));
    let shown = apply_overrides(&s, &mut pending);
    assert_eq!(shown.interfaces[0].policy.as_deref(), Some("New"));
    assert!(!shown.interfaces[0].deny);
    assert_eq!(shown.interfaces[1].policy, None);
    assert_eq!(shown.active_iface.as_ref().unwrap().policy.as_deref(), Some("New"));
    assert_eq!(pending.len(), 1);
    assert_eq!(shown.router.name, "home");
    assert_eq!(shown.router.keendns_urls, Some(vec!["a.example".to_string()]));
    assert_eq!(shown.active_address, "192.168.1.1");
}

#[test]
fn confirmed_change_is_dropped() {
    let s = state(vec![iface("aa", Some("New"), false)], Some(0));
    let mut pending = Vec::new();
    record_override(&mut pending, "aa", change(Some("New"), false));
    let shown = apply_overrides(&s, &mut pending);
    assert!(pending.is_empty());
    assert_eq!(shown.interfaces[0].policy.as_deref(), Some("New"));
    assert_eq!(shown.active_iface.unwrap().policy.as_deref(), Some("New"));
}

#[test]
fn block_state_counts_for_confirmation() {
    let s = state(vec![iface("aa", None, false)], None);
    let mut pending = Vec::new();
    record_override(&mut pending, "aa", change(None, true));
    let shown = apply_overrides(&s, &mut pending);
    assert_eq!(pending.len(), 1);
    assert!(shown.interfaces[0].deny);
    assert!(shown.active_iface.is_none());
}

#[test]
fn without_pending_changes_nothing_changes() {
    let s = state(vec![iface("aa", Some("P"), true)], Some(0));
    let mut pending = Vec::new();
    let shown = apply_overrides(&s, &mut pending);
    assert_eq!(shown.interfaces.len(), 1);
    assert_eq!(shown.interfaces[0].policy.as_deref(), Some("P"));
    assert!(shown.interfaces[0].deny);
    assert!(pending.is_empty());
}
