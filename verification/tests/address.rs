use router_core::{extract_host, normalize_address, KeeneticRouter};

#[test]
fn address_without_scheme_gets_http_and_loses_slash() {
    assert_eq!(normalize_address("192.168.1.1/"), "http://192.168.1.1");
    let router = KeeneticRouter::new("192.168.1.1/", "admin", "pw", "home");
    assert_eq!(router.base_url(), "http://192.168.1.1");
}

#[test]
fn address_with_https_scheme_is_unchanged() {
    assert_eq!(normalize_address("https://my.router.com"), "https://my.router.com");
    let router = KeeneticRouter::new("https://my.router.com", "admin", "pw", "home");
    assert_eq!(router.base_url(), "https://my.router.com");
}

#[test]
fn address_is_trimmed_first() {
    assert_eq!(normalize_address("  10.0.0.1 \n"), "http://10.0.0.1");
    assert_eq!(normalize_address("\u{a0}10.0.0.1\u{3000}"), "http://10.0.0.1");
    assert_eq!(normalize_address("\thttp://10.0.0.1/ "), "http://10.0.0.1");
}

#[test]
fn address_with_scheme_loses_trailing_slash() {
    assert_eq!(normalize_address("http://192.168.1.1/"), "http://192.168.1.1");
    assert_eq!(normalize_address("https://my.router.com/"), "https://my.router.com");
    assert_eq!(normalize_address("https://my.router.com/admin/"), "https://my.router.com/admin");
    let router = KeeneticRouter::new("http://192.168.1.1/", "admin", "pw", "home");
    assert_eq!(router.base_url(), "http://192.168.1.1");
}

#[test]
fn only_http_and_https_count_as_scheme() {
    assert_eq!(normalize_address("httpbin.local"), "http://httpbin.local");
    assert_eq!(normalize_address("https.local/"), "http://https.local");
    assert_eq!(normalize_address("http:/odd"), "http://http:/odd");
    assert_eq!(normalize_address("HTTP://10.0.0.1"), "http://HTTP://10.0.0.1");
    assert_eq!(normalize_address("ftp://10.0.0.1"), "http://ftp://10.0.0.1");
    assert_eq!(normalize_address("http://"), "http://http:/");
    assert_eq!(normalize_address("https://x"), "https://x");
}

#[test]
fn address_loses_only_one_slash() {
    assert_eq!(normalize_address("router.local//"), "http://router.local/");
    assert_eq!(normalize_address(""), "http://");
    assert_eq!(normalize_address("/"), "http://");
}

#[test]
fn address_with_port_keeps_it() {
    assert_eq!(normalize_address("192.168.1.1:8080"), "http://192.168.1.1:8080");
}

#[test]
fn router_keeps_its_name() {
    let router = KeeneticRouter::new("192.168.1.1", "admin", "pw", "home");
    assert_eq!(router.name(), "home");
}

#[test]
fn host_of_plain_address() {
    assert_eq!(extract_host("192.168.1.1"), "192.168.1.1");
    assert_eq!(extract_host("  192.168.1.1  "), "192.168.1.1");
}

#[test]
fn host_of_address_with_scheme_and_path() {
    assert_eq!(extract_host("http://192.168.1.1/"), "192.168.1.1");
    assert_eq!(extract_host("https://my.router.com/a/b"), "my.router.com");
    assert_eq!(extract_host("http://192.168.1.1"), "192.168.1.1");
}

#[test]
fn host_leaves_out_port() {
    assert_eq!(extract_host("http://192.168.1.1:8080/"), "192.168.1.1");
    assert_eq!(extract_host("http://192.168.1.1:8080/x"), "192.168.1.1");
    assert_eq!(extract_host("192.168.1.4:8080"), "192.168.1.4");
    assert_eq!(extract_host("https://my.router.com:443"), "my.router.com");
    assert_eq!(extract_host("192.168.1.1:"), "192.168.1.1");
}

#[test]
fn host_of_odd_addresses() {
    assert_eq!(extract_host(""), "");
    assert_eq!(extract_host("/"), "");
    assert_eq!(extract_host("://"), "");
    assert_eq!(extract_host("a://b://c/d"), "b");
    assert_eq!(extract_host(":8080"), "");
    assert_eq!(extract_host("http:"), "http");
    assert_eq!(extract_host("10.0.0.1/path"), "10.0.0.1");
}
