use router_core::registry::{has_name_conflict, is_name_taken, strip_trailing_slashes};
use router_core::{
    delete_router, remove_router, save_router, Header, HttpRequest, HttpResponse, JsonValue,
    Method, RegisterCommand, RegisterStage, Registration, Reply, RouterInfo,
};

fn router(name: &str) -> RouterInfo {
    RouterInfo {
        name: name.to_string(),
        address: "192.168.1.1".to_string(),
        login: "admin".to_string(),
        network_ip: None,
        keendns_urls: None,
    }
}

fn names(routers: &[RouterInfo]) -> Vec<String> {
    routers.iter().map(|r| r.name.clone()).collect()
}

fn status(code: u16) -> Reply {
    Reply::Response(HttpResponse {
        status: code,
        headers: Vec::new(),
        body: None,
    })
}

fn document(body: JsonValue) -> Reply {
    Reply::Response(HttpResponse {
        status: 200,
        headers: Vec::new(),
        body: Some(body),
    })
}

fn object(members: Vec<(&str, JsonValue)>) -> JsonValue {
    JsonValue::Object(
        members
            .into_iter()
            .map(|(k, v)| (k.to_string(), v))
            .collect(),
    )
}

fn sent(command: RegisterCommand) -> HttpRequest {
    match command {
        RegisterCommand::Send(q) => q,
        other => panic!("expected a request, got {:?}", other),
    }
}

#[test]
fn trailing_slashes_go() {
    assert_eq!(strip_trailing_slashes("192.168.1.1///"), "192.168.1.1");
    assert_eq!(strip_trailing_slashes("http://a/b/"), "http://a/b");
    assert_eq!(strip_trailing_slashes("a"), "a");
    assert_eq!(strip_trailing_slashes("//"), "");
    assert_eq!(strip_trailing_slashes(""), "");
    assert_eq!(strip_trailing_slashes("/a"), "/a");
}

#[test]
fn name_conflicts() {
    let routers = vec![router("home"), router("lab")];
    assert!(is_name_taken(&routers, "home"));
    assert!(!is_name_taken(&routers, "Home"));
    assert!(has_name_conflict(&routers, "home", None));
    assert!(!has_name_conflict(&routers, "new", None));
    assert!(!has_name_conflict(&routers, "home", Some("home")));
    assert!(has_name_conflict(&routers, "lab", Some("home")));
    assert!(!has_name_conflict(&routers, "new", Some("home")));
    assert!(!has_name_conflict(&[], "home", None));
}

#[test]
fn taken_name_ends_the_trial() {
    let routers = vec![router("home")];
    let (state, command) = Registration::start(&routers, "home", "10.0.0.1", "admin", "pw", None);
    assert!(matches!(state.stage, RegisterStage::Finished));
    match command {
        RegisterCommand::Finish(Err(m)) => assert_eq!(m, "Router with this name already exists"),
        other => panic!("expected a refusal, got {:?}", other),
    }
}

#[test]
fn failed_login_ends_the_trial() {
    let (state, command) = Registration::start(&[], "home", "10.0.0.1/", "admin", "pw", None);
    assert_eq!(state.address, "10.0.0.1");
    let q = sent(command);
    assert_eq!(q.method, Method::Get);
    assert_eq!(q.url, "http://10.0.0.1/auth");
    let (_, command) = save_router(state, status(500));
    match command {
        RegisterCommand::Finish(Err(m)) => assert_eq!(m, "Authentication failed"),
        other => panic!("expected a refusal, got {:?}", other),
    }
}

#[test]
fn rejected_credentials_end_the_trial() {
    let (state, _) = Registration::start(&[], "home", "10.0.0.1", "admin", "pw", None);
    let challenge = Reply::Response(HttpResponse {
        status: 401,
        headers: vec![
            Header {
                name: "x-ndm-realm".to_string(),
                value: Some("r".to_string()),
            },
            Header {
                name: "x-ndm-challenge".to_string(),
                value: Some("c".to_string()),
            },
        ],
        body: None,
    });
    let (state, command) = save_router(state, challenge);
    assert_eq!(sent(command).method, Method::Post);
    let (_, command) = save_router(state, status(401));
    assert!(matches!(command, RegisterCommand::Finish(Err(ref m)) if m == "Authentication failed"));
}

#[test]
fn trial_collects_address_and_domains() {
    let (state, command) =
        Registration::start(&[router("old")], "home", "10.0.0.1//", "admin", "pw", Some("old"));
    assert_eq!(sent(command).url, "http://10.0.0.1/auth");
    let (state, command) = save_router(state, status(200));
    assert!(matches!(state.stage, RegisterStage::Bridge(_)));
    assert_eq!(sent(command).url, "http://10.0.0.1/auth");
    let (state, command) = save_router(state, status(200));
    assert_eq!(
        sent(command).url,
        "http://10.0.0.1/rci/sc/interface/Bridge0/ip/address"
    );
    let (state, command) = save_router(
        state,
        document(object(vec![("address", JsonValue::Text("192.168.1.1".to_string()))])),
    );
    assert!(matches!(state.stage, RegisterStage::Certificates(_)));
    assert_eq!(sent(command).url, "http://10.0.0.1/auth");
    let (state, command) = save_router(state, status(200));
    assert_eq!(
        sent(command).url,
        "http://10.0.0.1/rci/ip/http/ssl/acme/list/certificate"
    );
    let (state, command) = save_router(
        state,
        document(JsonValue::Array(vec![object(vec![(
            "domain",
            JsonValue::Text("a.keenetic.pro".to_string()),
        )])])),
    );
    assert!(matches!(state.stage, RegisterStage::Finished));
    match command {
        RegisterCommand::Finish(Ok(info)) => {
            assert_eq!(info.name, "home");
            assert_eq!(info.address, "10.0.0.1");
            assert_eq!(info.login, "admin");
            assert_eq!(info.network_ip.as_deref(), Some("192.168.1.1"));
            assert_eq!(info.keendns_urls, Some(vec!["a.keenetic.pro".to_string()]));
        }
        other => panic!("expected the router, got {:?}", other),
    }
    let (_, command) = save_router(state, status(200));
    assert!(matches!(command, RegisterCommand::Finish(Err(ref m)) if m == "unexpected event"));
}

#[test]
fn trial_goes_on_when_details_cannot_be_read() {
    let (state, _) = Registration::start(&[], "home", "10.0.0.1", "admin", "pw", None);
    let (state, _) = save_router(state, status(200));
    let (state, _) = save_router(state, status(200));
    let (state, command) = save_router(state, status(404));
    assert!(matches!(state.stage, RegisterStage::Certificates(_)));
    assert_eq!(sent(command).url, "http://10.0.0.1/auth");
    let (_, command) = save_router(state, Reply::Failure("gone".to_string()));
    match command {
        RegisterCommand::Finish(Ok(info)) => {
            assert_eq!(info.network_ip, None);
            assert_eq!(info.keendns_urls, None);
        }
        other => panic!("expected the router, got {:?}", other),
    }
}

#[test]
fn remove_takes_first_of_that_name() {
    let mut routers = vec![router("a"), router("b"), router("a"), router("c")];
    remove_router(&mut routers, "a");
    assert_eq!(names(&routers), vec!["b", "a", "c"]);
    remove_router(&mut routers, "z");
    assert_eq!(names(&routers), vec!["b", "a", "c"]);
    remove_router(&mut routers, "c");
    assert_eq!(names(&routers), vec!["b", "a"]);
}

#[test]
fn delete_takes_all_of_that_name() {
    let mut routers = vec![router("a"), router("b"), router("a"), router("c")];
    delete_router(&mut routers, "a");
    assert_eq!(names(&routers), vec!["b", "c"]);
    delete_router(&mut routers, "z");
    assert_eq!(names(&routers), vec!["b", "c"]);
    delete_router(&mut routers, "b");
    delete_router(&mut routers, "c");
    assert!(routers.is_empty());
}
