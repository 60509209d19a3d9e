use doh_proxy::exchange::{begin_exchange, step, ExchangeAction, ExchangeEvent, ExchangeState};
use doh_proxy::request::{Exchange, REPLY_LEN};
use doh_proxy::Resolver;

fn exchange(resolver: Resolver) -> Exchange {
    Exchange { resolver, qtype: 1, qname: "example.com".to_string() }
}

#[test]
fn successful_exchange_runs_all_steps() {
    let (s, a) = begin_exchange(exchange(Resolver::Cloudflare()));
    assert!(matches!(a, ExchangeAction::ConnectTcp("1.1.1.1:443")));
    assert!(matches!(s, ExchangeState::AwaitingTcp(_)));
    let (s, a) = step(s, ExchangeEvent::TcpConnected);
    assert!(matches!(a, ExchangeAction::StartTls("1.1.1.1")));
    let (s, a) = step(s, ExchangeEvent::TlsConnected);
    match a {
        ExchangeAction::SendRequest(req) => assert_eq!(
            req,
            "GET /dns-query?name=example.com&type=1&dnssec=true&ct=application/dns-json HTTP/1.0\r\nHost: 1.1.1.1\r\n\r\n"
        ),
        _ => panic!("expected the request"),
    }
    assert!(matches!(s, ExchangeState::AwaitingResponse(_)));
    let (s, a) = step(s, ExchangeEvent::ResponseReceived(b"HTTP/1.0 200 OK\r\n\r\n{}".to_vec()));
    assert!(matches!(s, ExchangeState::Finished));
    match a {
        ExchangeAction::Reply(data) => {
            assert_eq!(data.len(), REPLY_LEN);
            assert!(data.iter().all(|b| *b == 0));
        }
        _ => panic!("expected a reply"),
    }
}

#[test]
fn google_exchange_uses_google_endpoints() {
    let (s, a) = begin_exchange(exchange(Resolver::Google()));
    assert!(matches!(a, ExchangeAction::ConnectTcp("216.58.195.78:443")));
    let (s, a) = step(s, ExchangeEvent::TcpConnected);
    assert!(matches!(a, ExchangeAction::StartTls("dns.google.com")));
    let (_, a) = step(s, ExchangeEvent::TlsConnected);
    match a {
        ExchangeAction::SendRequest(req) => assert_eq!(
            req,
            "GET /resolve?name=example.com&type=1&dnssec=true HTTP/1.0\r\nHost: dns.google.com\r\n\r\n"
        ),
        _ => panic!("expected the request"),
    }
}

#[test]
fn tcp_failure_abandons() {
    let (s, _) = begin_exchange(exchange(Resolver::Cloudflare()));
    let (s, a) = step(s, ExchangeEvent::TcpFailed);
    assert!(matches!(s, ExchangeState::Finished));
    assert!(matches!(a, ExchangeAction::Abandon));
}

#[test]
fn tls_failure_abandons() {
    let (s, _) = begin_exchange(exchange(Resolver::Google()));
    let (s, _) = step(s, ExchangeEvent::TcpConnected);
    let (s, a) = step(s, ExchangeEvent::TlsFailed);
    assert!(matches!(s, ExchangeState::Finished));
    assert!(matches!(a, ExchangeAction::Abandon));
}

#[test]
fn out_of_order_event_abandons() {
    let (s, _) = begin_exchange(exchange(Resolver::Google()));
    let (s, a) = step(s, ExchangeEvent::ResponseReceived(vec![1, 2, 3]));
    assert!(matches!(s, ExchangeState::Finished));
    assert!(matches!(a, ExchangeAction::Abandon));
}

#[test]
fn finished_stays_finished() {
    let (s, a) = step(ExchangeState::Finished, ExchangeEvent::TcpConnected);
    assert!(matches!(s, ExchangeState::Finished));
    assert!(matches!(a, ExchangeAction::Abandon));
    let (s, a) = step(s, ExchangeEvent::ResponseReceived(vec![]));
    assert!(matches!(s, ExchangeState::Finished));
    assert!(matches!(a, ExchangeAction::Abandon));
}

#[test]
fn reply_ignores_answer() {
    let mut replies = Vec::new();
    for answer in [vec![], vec![0xffu8; 3000], b"garbage".to_vec()] {
        let (s, _) = begin_exchange(exchange(Resolver::Cloudflare()));
        let (s, _) = step(s, ExchangeEvent::TcpConnected);
        let (s, _) = step(s, ExchangeEvent::TlsConnected);
        let (_, a) = step(s, ExchangeEvent::ResponseReceived(answer));
        match a {
            ExchangeAction::Reply(data) => replies.push(data),
            _ => panic!("expected a reply"),
        }
    }
    assert!(replies.iter().all(|r| *r == vec![0u8; REPLY_LEN]));
}
