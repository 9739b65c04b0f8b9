use router_core::{
    build_active_state, router_candidates, ActiveState, Command, Event, Header, HttpRequest,
    HttpResponse, IpNet, Ipv4Net, JsonValue, LocalInterface, Method, Outcome, Pipeline, Reply,
    RouterError, RouterInfo, Stage,
};

fn ip(a: u32, b: u32, c: u32, d: u32) -> u32 {
    (a << 24) | (b << 16) | (c << 8) | d
}

fn text(s: &str) -> JsonValue {
    JsonValue::Text(s.to_string())
}

fn object(members: Vec<(&str, JsonValue)>) -> JsonValue {
    JsonValue::Object(
        members
            .into_iter()
            .map(|(k, v)| (k.to_string(), v))
            .collect(),
    )
}

fn router(name: &str, address: &str, network_ip: Option<&str>) -> RouterInfo {
    RouterInfo {
        name: name.to_string(),
        address: address.to_string(),
        login: "admin".to_string(),
        network_ip: network_ip.map(|s| s.to_string()),
        keendns_urls: None,
    }
}

fn machine() -> Vec<LocalInterface> {
    vec![
        LocalInterface {
            name: "lo".to_string(),
            mac: None,
            loopback: true,
            ips: vec![IpNet::V4(Ipv4Net::new(ip(127, 0, 0, 1), 8).unwrap())],
        },
        LocalInterface {
            name: "eth0".to_string(),
            mac: Some([0xaa, 0xbb, 0xcc, 0xdd, 0xee, 0xff]),
            loopback: false,
            ips: vec![
                IpNet::V6,
                IpNet::V4(Ipv4Net::new(ip(192, 168, 1, 50), 24).unwrap()),
            ],
        },
        LocalInterface {
            name: "wlan0".to_string(),
            mac: Some([0x02, 0x00, 0x00, 0x00, 0x00, 0x01]),
            loopback: false,
            ips: vec![IpNet::V4(Ipv4Net::new(ip(192, 168, 2, 77), 24).unwrap())],
        },
    ]
}

fn status(code: u16) -> Reply {
    Reply::Response(HttpResponse {
        status: code,
        headers: Vec::new(),
        body: None,
    })
}

fn challenge() -> Reply {
    Reply::Response(HttpResponse {
        status: 401,
        headers: vec![
            Header {
                name: "x-ndm-realm".to_string(),
                value: Some("Keenetic".to_string()),
            },
            Header {
                name: "x-ndm-challenge".to_string(),
                value: Some("XYZ".to_string()),
            },
        ],
        body: None,
    })
}

fn document(body: JsonValue) -> Reply {
    Reply::Response(HttpResponse {
        status: 200,
        headers: Vec::new(),
        body: Some(body),
    })
}

/// A router as the tests imagine it: it accepts one password and answers
/// the two listings.
struct FakeRouter {
    base: String,
    accepts: bool,
    logged_in: bool,
    policies: JsonValue,
    clients: JsonValue,
}

impl FakeRouter {
    fn answer(&mut self, request: &HttpRequest) -> Reply {
        let path = &request.url[self.base.len()..];
        match (request.method, path) {
            (Method::Get, "/auth") => {
                if self.logged_in {
                    status(200)
                } else {
                    challenge()
                }
            }
            (Method::Post, "/auth") => {
                if self.accepts {
                    self.logged_in = true;
                    status(200)
                } else {
                    status(401)
                }
            }
            (Method::Get, "/rci/show/rc/ip/policy") => document(self.policies.duplicate()),
            (Method::Get, "/rci/show/ip/hotspot/host") => document(self.clients.duplicate()),
            _ => status(404),
        }
    }
}

struct Run {
    result: Result<Outcome, RouterError>,
    asked: Vec<String>,
    urls: Vec<String>,
    listed: usize,
}

fn run(
    routers: &[RouterInfo],
    passwords: &[(&str, &str)],
    fakes: &mut Vec<FakeRouter>,
    later: Vec<LocalInterface>,
) -> Run {
    let mut asked = Vec::new();
    let mut urls = Vec::new();
    let mut listed = 0;
    let (mut state, mut command) = Pipeline::start(routers, &machine());
    for _ in 0..100 {
        let event = match command {
            Command::Finish(result) => {
                assert!(matches!(state.stage, Stage::Finished));
                return Run {
                    result,
                    asked,
                    urls,
                    listed,
                };
            }
            Command::AskPassword(name) => {
                let found = passwords
                    .iter()
                    .find(|(n, _)| *n == name)
                    .map(|(_, p)| p.to_string());
                asked.push(name);
                Event::Password(found)
            }
            Command::Send(request) => {
                urls.push(request.url.clone());
                let fake = fakes
                    .iter_mut()
                    .find(|f| request.url.starts_with(&f.base));
                match fake {
                    Some(f) => Event::Reply(f.answer(&request)),
                    None => Event::Reply(Reply::Failure("unreachable".to_string())),
                }
            }
            Command::ListInterfaces => {
                listed += 1;
                Event::Interfaces(later.clone())
            }
        };
        let next = build_active_state(state, event);
        state = next.0;
        command = next.1;
    }
    panic!("the cycle did not end");
}

fn fake(base: &str, accepts: bool) -> FakeRouter {
    FakeRouter {
        base: base.to_string(),
        accepts,
        logged_in: false,
        policies: object(vec![("Policy0", object(vec![("description", text("VPN"))]))]),
        clients: JsonValue::Array(Vec::new()),
    }
}

fn active(run: Run) -> ActiveState {
    match run.result {
        Ok(Outcome::Active(state)) => state,
        other => panic!("expected an active router, got {:?}", other),
    }
}

#[test]
fn third_router_becomes_active_without_touching_the_first() {
    let routers = vec![
        router("office", "10.9.0.1", Some("10.9.0.1")),
        router("home", "http://192.168.1.1", Some("192.168.1.1")),
        router("lab", "192.168.2.1/", None),
    ];
    let passwords = [("office", "pw1"), ("home", "pw2"), ("lab", "pw3")];
    let mut fakes = vec![
        fake("http://10.9.0.1", true),
        fake("http://192.168.1.1", false),
        fake("http://192.168.2.1", true),
    ];
    let outcome = run(&routers, &passwords, &mut fakes, machine());
    assert_eq!(outcome.asked, vec!["home", "lab"]);
    assert!(outcome.urls.iter().all(|u| !u.contains("10.9.0.1")));
    assert_eq!(
        outcome.urls,
        vec![
            "http://192.168.1.1/auth",
            "http://192.168.1.1/auth",
            "http://192.168.2.1/auth",
            "http://192.168.2.1/auth",
            "http://192.168.2.1/auth",
            "http://192.168.2.1/rci/show/rc/ip/policy",
            "http://192.168.2.1/auth",
            "http://192.168.2.1/rci/show/ip/hotspot/host",
        ]
    );
    assert_eq!(outcome.listed, 1);
    let state = active(outcome);
    assert_eq!(state.router.name, "lab");
    assert_eq!(state.active_address, "192.168.2.1/");
    assert_eq!(state.policies.len(), 1);
    assert_eq!(state.policies[0].0, "Policy0");
}

#[test]
fn end_to_end_duplicate_rows_give_one_interface() {
    let routers = vec![router("home", "192.168.1.1", None)];
    let mut home = fake("http://192.168.1.1", true);
    home.clients = JsonValue::Array(vec![
        object(vec![
            ("mac", text("aa:bb:cc:dd:ee:ff")),
            ("name", text("Laptop")),
            ("deny", JsonValue::Bool(false)),
            ("link", text("down")),
        ]),
        object(vec![
            ("mac", text("aa:bb:cc:dd:ee:ff")),
            ("deny", JsonValue::Bool(true)),
            ("link", text("down")),
            ("mws", object(vec![("link", text("up"))])),
        ]),
    ]);
    let mut fakes = vec![home];
    let ifaces = vec![LocalInterface {
        name: "eth0".to_string(),
        mac: Some([0xaa, 0xbb, 0xcc, 0xdd, 0xee, 0xff]),
        loopback: false,
        ips: vec![IpNet::V4(Ipv4Net::new(ip(192, 168, 1, 50), 24).unwrap())],
    }];
    let state = active(run(&routers, &[("home", "pw")], &mut fakes, ifaces));
    assert_eq!(state.router.name, "home");
    assert_eq!(state.interfaces.len(), 1);
    let row = &state.interfaces[0];
    assert_eq!(row.mac, "aa:bb:cc:dd:ee:ff");
    assert_eq!(row.name, "eth0");
    assert_eq!(row.display_name, "Laptop");
    assert_eq!(row.ip, "192.168.1.50");
    assert_eq!(row.iface_type, "Ethernet");
    assert!(row.deny);
    assert!(row.online);
    let chosen = state.active_iface.expect("an active interface");
    assert_eq!(chosen.mac, "aa:bb:cc:dd:ee:ff");
    assert!(chosen.deny);
}

#[test]
fn no_routers_configured_is_told_apart() {
    let outcome = run(&[], &[], &mut Vec::new(), machine());
    assert!(matches!(outcome.result, Ok(Outcome::NoRouters)));
    assert!(outcome.asked.is_empty());
    assert!(outcome.urls.is_empty());
}

#[test]
fn no_reachable_router_is_not_an_error() {
    let routers = vec![router("office", "10.9.0.1", None)];
    let outcome = run(&routers, &[("office", "pw")], &mut Vec::new(), machine());
    assert!(matches!(outcome.result, Ok(Outcome::NoReachableRouter)));
    assert!(outcome.asked.is_empty());
    assert!(outcome.urls.is_empty());
}

#[test]
fn router_without_password_is_skipped() {
    let routers = vec![
        router("home", "192.168.1.1", None),
        router("lab", "192.168.2.1", None),
    ];
    let mut fakes = vec![fake("http://192.168.1.1", true), fake("http://192.168.2.1", true)];
    let outcome = run(&routers, &[("lab", "pw")], &mut fakes, machine());
    assert_eq!(outcome.asked, vec!["home", "lab"]);
    assert!(outcome.urls.iter().all(|u| u.starts_with("http://192.168.2.1/")));
    assert_eq!(active(outcome).router.name, "lab");
}

#[test]
fn first_router_that_logs_in_stops_the_search() {
    let routers = vec![
        router("home", "192.168.1.1", None),
        router("lab", "192.168.2.1", None),
    ];
    let mut fakes = vec![fake("http://192.168.1.1", true), fake("http://192.168.2.1", true)];
    let outcome = run(&routers, &[("home", "a"), ("lab", "b")], &mut fakes, machine());
    assert_eq!(outcome.asked, vec!["home"]);
    assert!(outcome.urls.iter().all(|u| u.starts_with("http://192.168.1.1/")));
    assert_eq!(active(outcome).router.name, "home");
}

#[test]
fn unreachable_transport_skips_candidate() {
    let routers = vec![
        router("home", "192.168.1.1", None),
        router("lab", "192.168.2.1", None),
    ];
    let mut fakes = vec![fake("http://192.168.2.1", true)];
    let outcome = run(&routers, &[("home", "a"), ("lab", "b")], &mut fakes, machine());
    assert_eq!(outcome.asked, vec!["home", "lab"]);
    assert_eq!(active(outcome).router.name, "lab");
}

#[test]
fn all_candidates_failing_is_no_reachable_router() {
    let routers = vec![
        router("home", "192.168.1.1", None),
        router("lab", "192.168.2.1", None),
    ];
    let mut fakes = vec![fake("http://192.168.1.1", false), fake("http://192.168.2.1", false)];
    let outcome = run(&routers, &[("home", "a"), ("lab", "b")], &mut fakes, machine());
    assert!(matches!(outcome.result, Ok(Outcome::NoReachableRouter)));
    assert_eq!(outcome.asked, vec!["home", "lab"]);
}

#[test]
fn failure_after_login_ends_the_cycle_with_the_error() {
    let routers = vec![
        router("home", "192.168.1.1", None),
        router("lab", "192.168.2.1", None),
    ];
    let mut home = fake("http://192.168.1.1", true);
    home.base = "http://192.168.1.1".to_string();
    let mut fakes = vec![home, fake("http://192.168.2.1", true)];
    let (state, command) = Pipeline::start(&routers, &machine());
    assert!(matches!(command, Command::AskPassword(ref n) if n == "home"));
    let (state, command) = build_active_state(state, Event::Password(Some("pw".to_string())));
    let request = match command {
        Command::Send(q) => q,
        _ => panic!("expected the probe"),
    };
    fakes[0].logged_in = true;
    let (state, command) = build_active_state(state, Event::Reply(fakes[0].answer(&request)));
    assert!(matches!(state.stage, Stage::Policies(_)));
    assert!(matches!(command, Command::Send(_)));
    let (state, command) = build_active_state(state, Event::Reply(status(200)));
    assert!(matches!(command, Command::Send(ref q) if q.url.ends_with("/rci/show/rc/ip/policy")));
    let (state, command) = build_active_state(state, Event::Reply(status(503)));
    assert!(matches!(state.stage, Stage::Finished));
    match command {
        Command::Finish(Err(RouterError::InvalidResponse(m))) => assert_eq!(m, "status 503"),
        _ => panic!("expected the error"),
    }
}

#[test]
fn event_out_of_turn_ends_the_cycle() {
    let routers = vec![router("home", "192.168.1.1", None)];
    let (state, _) = Pipeline::start(&routers, &machine());
    let (state, command) = build_active_state(state, Event::Interfaces(Vec::new()));
    assert!(matches!(state.stage, Stage::Finished));
    match command {
        Command::Finish(Err(RouterError::InvalidResponse(m))) => assert_eq!(m, "unexpected event"),
        _ => panic!("expected the error"),
    }
    let (_, command) = build_active_state(state, Event::Password(None));
    assert!(matches!(command, Command::Finish(Err(_))));
}

#[test]
fn active_interface_prefers_online_one() {
    let routers = vec![router("home", "192.168.1.1", None)];
    let mut home = fake("http://192.168.1.1", true);
    home.clients = JsonValue::Array(vec![
        object(vec![("mac", text("aa:bb:cc:dd:ee:ff")), ("link", text("down"))]),
        object(vec![("mac", text("02:00:00:00:00:01")), ("link", text("up"))]),
    ]);
    let mut fakes = vec![home];
    let state = active(run(&routers, &[("home", "pw")], &mut fakes, machine()));
    assert_eq!(state.interfaces.len(), 2);
    assert_eq!(state.interfaces[0].name, "eth0");
    assert_eq!(state.active_iface.map(|i| i.name), Some("wlan0".to_string()));
}

#[test]
fn router_configured_with_port_is_reached_on_that_port() {
    let routers = vec![router("home", "http://192.168.1.1:8080/", None)];
    let mut fakes = vec![fake("http://192.168.1.1:8080", true)];
    let outcome = run(&routers, &[("home", "pw")], &mut fakes, machine());
    assert_eq!(outcome.asked, vec!["home"]);
    assert_eq!(outcome.urls[0], "http://192.168.1.1:8080/auth");
    assert!(outcome.urls.iter().all(|u| u.starts_with("http://192.168.1.1:8080/")));
    let state = active(outcome);
    assert_eq!(state.active_address, "http://192.168.1.1:8080/");
}

#[test]
fn candidates_prefer_last_known_address() {
    let nets = vec![Ipv4Net::new(ip(192, 168, 1, 50), 24).unwrap()];
    let routers = vec![
        router("a", "https://my.router.com", Some("192.168.1.1")),
        router("b", "http://192.168.1.2/", Some("10.0.0.1")),
        router("c", "https://my.router.com", None),
        router("d", "192.168.1.4:8080", None),
        router("e", " 192.168.1.5 ", Some("not an address")),
    ];
    let found = router_candidates(&routers, &nets);
    let seen: Vec<(String, String)> = found
        .into_iter()
        .map(|c| (c.router.name, c.address))
        .collect();
    assert_eq!(
        seen,
        vec![
            ("a".to_string(), "192.168.1.1".to_string()),
            ("b".to_string(), "http://192.168.1.2/".to_string()),
            ("d".to_string(), "192.168.1.4:8080".to_string()),
            ("e".to_string(), " 192.168.1.5 ".to_string()),
        ]
    );
}
