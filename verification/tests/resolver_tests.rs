use doh_proxy::decimal::decimal_string;
use doh_proxy::{Config, Resolver};

#[test]
fn cloudflare_endpoints() {
    let r = Resolver::new_cloudflare();
    assert_eq!(r, Resolver::Cloudflare());
    assert_eq!(r.get_addr(), "1.1.1.1:443");
    assert_eq!(r.get_domain(), "1.1.1.1");
    assert_eq!(r.get_dir(), "/dns-query");
    assert_eq!(r.get_url(1, "example.com"), "/dns-query");
}

#[test]
fn google_endpoints() {
    let r = Resolver::new_google();
    assert_eq!(r, Resolver::Google());
    assert_eq!(r.get_addr(), "216.58.195.78:443");
    assert_eq!(r.get_domain(), "dns.google.com");
    assert_eq!(r.get_dir(), "/resolve");
    assert_eq!(r.get_url(28, "example.com"), "/resolve");
}

#[test]
fn cloudflare_request_text() {
    let r = Resolver::new_cloudflare();
    assert_eq!(
        r.get_request(1, "example.com"),
        "GET /dns-query?name=example.com&type=1&dnssec=true&ct=application/dns-json HTTP/1.0\r\nHost: 1.1.1.1\r\n\r\n"
    );
}

#[test]
fn google_request_text() {
    let r = Resolver::new_google();
    assert_eq!(
        r.get_request(28, "www.example.org"),
        "GET /resolve?name=www.example.org&type=28&dnssec=true HTTP/1.0\r\nHost: dns.google.com\r\n\r\n"
    );
}

#[test]
fn request_text_matches_format() {
    for (r, dir, params, domain) in [
        (Resolver::new_cloudflare(), "/dns-query", "&dnssec=true&ct=application/dns-json", "1.1.1.1"),
        (Resolver::new_google(), "/resolve", "&dnssec=true", "dns.google.com"),
    ] {
        for t in [0u16, 5, 16, 255, 999, 65535] {
            let expected = format!(
                "GET {}?name={}&type={}{} HTTP/1.0\r\nHost: {}{}\r\n\r\n",
                dir, "a.b.c", t, params, domain, ""
            );
            assert_eq!(r.get_request(t, "a.b.c"), expected);
        }
    }
}

#[test]
fn request_with_empty_name() {
    let r = Resolver::new_google();
    assert_eq!(
        r.get_request(255, ""),
        "GET /resolve?name=&type=255&dnssec=true HTTP/1.0\r\nHost: dns.google.com\r\n\r\n"
    );
}

#[test]
fn decimal_rendering() {
    assert_eq!(decimal_string(0), "0");
    assert_eq!(decimal_string(7), "7");
    assert_eq!(decimal_string(10), "10");
    assert_eq!(decimal_string(28), "28");
    assert_eq!(decimal_string(100), "100");
    assert_eq!(decimal_string(65535), "65535");
    for n in 0..=u16::MAX {
        assert_eq!(decimal_string(n), n.to_string());
    }
}

#[test]
fn configs_pick_resolver() {
    assert_eq!(Config::init_cloudflare().resolver, Resolver::Cloudflare());
    assert_eq!(Config::init_google().resolver, Resolver::Google());
}
