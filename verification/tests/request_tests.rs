use dns_parser::{Builder, QueryClass, QueryType};
use doh_proxy::query::{build_query, mock_query};
use doh_proxy::request::{
    judge_questions, parse_packet, received_datagram, DnsQuestion, RequestOutcome,
};
use doh_proxy::{Config, Resolver};

#[test]
fn mock_query_is_forwarded() {
    let config = Config::init_google();
    match parse_packet(&config, &mock_query()) {
        RequestOutcome::Forward(ex) => {
            assert_eq!(ex.resolver, Resolver::Google());
            assert_eq!(ex.qtype, 1);
            assert_eq!(ex.qname, "google.com");
        }
        _ => panic!("a single-question query must be forwarded"),
    }
}

#[test]
fn question_type_and_name_are_read_from_packet() {
    let config = Config::init_cloudflare();
    let q = build_query(99, true, "mail.example.net", false, 28, 1).unwrap();
    match parse_packet(&config, &q) {
        RequestOutcome::Forward(ex) => {
            assert_eq!(ex.resolver, Resolver::Cloudflare());
            assert_eq!(ex.qtype, 28);
            assert_eq!(ex.qname, "mail.example.net");
        }
        _ => panic!("expected forward"),
    }
}

#[test]
fn short_datagram_is_malformed() {
    let config = Config::init_cloudflare();
    assert!(matches!(parse_packet(&config, &[]), RequestOutcome::Malformed));
    assert!(matches!(parse_packet(&config, &[0u8; 11]), RequestOutcome::Malformed));
}

#[test]
fn truncated_question_is_malformed() {
    let config = Config::init_cloudflare();
    let q = mock_query();
    assert!(matches!(parse_packet(&config, &q[..20]), RequestOutcome::Malformed));
}

#[test]
fn header_without_questions_is_refused() {
    let config = Config::init_cloudflare();
    let header = [0u8; 12];
    assert!(matches!(parse_packet(&config, &header), RequestOutcome::QuestionCount(0)));
}

#[test]
fn two_questions_are_refused() {
    let config = Config::init_cloudflare();
    let mut b = Builder::new_query(5, true);
    b.add_question("a.example", false, QueryType::A, QueryClass::IN);
    b.add_question("b.example", false, QueryType::MX, QueryClass::IN);
    let data = b.build().unwrap();
    assert!(matches!(parse_packet(&config, &data), RequestOutcome::QuestionCount(2)));
}

#[test]
fn judging_parsed_questions() {
    let config = Config::init_google();
    assert!(matches!(judge_questions(&config, None), RequestOutcome::Malformed));
    assert!(matches!(judge_questions(&config, Some(vec![])), RequestOutcome::QuestionCount(0)));
    let one = vec![DnsQuestion { qtype: 15, qname: "x.y".to_string() }];
    match judge_questions(&config, Some(one)) {
        RequestOutcome::Forward(ex) => {
            assert_eq!(ex.resolver, Resolver::Google());
            assert_eq!(ex.qtype, 15);
            assert_eq!(ex.qname, "x.y");
        }
        _ => panic!("expected forward"),
    }
    let three = vec![
        DnsQuestion { qtype: 1, qname: "a".to_string() },
        DnsQuestion { qtype: 1, qname: "b".to_string() },
        DnsQuestion { qtype: 1, qname: "c".to_string() },
    ];
    assert!(matches!(judge_questions(&config, Some(three)), RequestOutcome::QuestionCount(3)));
}

#[test]
fn received_datagram_keeps_prefix() {
    let buf = [1u8, 2, 3, 4, 5];
    assert_eq!(received_datagram(&buf, 3), vec![1, 2, 3]);
    assert_eq!(received_datagram(&buf, 0), Vec::<u8>::new());
    assert_eq!(received_datagram(&buf, 5), buf.to_vec());
}
