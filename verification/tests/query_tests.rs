use dns_parser::{Builder, QueryClass, QueryType};
use doh_proxy::query::{build_query, mock_query, QCLASS_ANY, QTYPE_A};

fn builder_bytes(
    id: u16,
    recursion: bool,
    name: &str,
    unicast: bool,
    qtype: QueryType,
    qclass: QueryClass,
) -> Result<Vec<u8>, Vec<u8>> {
    let mut b = Builder::new_query(id, recursion);
    b.add_question(name, unicast, qtype, qclass);
    b.build()
}

#[test]
fn example_query_bytes() {
    let expected = b"\x06%\x01\x00\x00\x01\x00\x00\x00\x00\x00\x00\x07example\x03com\x00\x00\x01\x00\x01";
    assert_eq!(build_query(1573, true, "example.com", false, 1, 1), Ok(expected.to_vec()));
}

#[test]
fn unicast_query_bytes() {
    let expected = b"\x06%\x01\x00\x00\x01\x00\x00\x00\x00\x00\x00\x07example\x03com\x00\x00\x01\x80\x01";
    assert_eq!(build_query(1573, true, "example.com", true, 1, 1), Ok(expected.to_vec()));
}

#[test]
fn srv_query_bytes() {
    let expected = b"[\xd9\x01\x00\x00\x01\x00\x00\x00\x00\x00\x00\x0c_xmpp-server\x04_tcp\x05gmail\x03com\x00\x00!\x00\x01";
    assert_eq!(
        build_query(23513, true, "_xmpp-server._tcp.gmail.com", false, 33, 1),
        Ok(expected.to_vec())
    );
}

#[test]
fn queries_agree_with_dns_parser_builder() {
    let names = ["google.com", "a", "", "a.", ".a", "x..y", "www.example.org", "abcdefghijklmnopqrstuvwxyzabcdefghijklmnopqrstuvwxyzabcdefghij.k"];
    for name in names {
        for (qt, code) in [(QueryType::A, 1u16), (QueryType::AAAA, 28), (QueryType::All, 255)] {
            for (qc, class) in [(QueryClass::IN, 1u16), (QueryClass::Any, 255)] {
                for unicast in [false, true] {
                    for recursion in [false, true] {
                        assert_eq!(
                            build_query(4242, recursion, name, unicast, code, class),
                            builder_bytes(4242, recursion, name, unicast, qt, qc),
                            "name {:?}",
                            name
                        );
                    }
                }
            }
        }
    }
}

#[test]
fn oversized_query_is_err_with_cleared_flags() {
    let label = "abcdefghij";
    let name = vec![label; 60].join(".");
    let ours = build_query(7, true, &name, false, 1, 1);
    let theirs = builder_bytes(7, true, &name, false, QueryType::A, QueryClass::IN);
    assert_eq!(ours, theirs);
    let data = ours.unwrap_err();
    assert_eq!(data.len(), name.len() + 18);
    assert_eq!(data[2], 0);
    assert_eq!(data[3], 0);
}

#[test]
fn query_length_is_name_plus_eighteen() {
    for name in ["", "a", "example.com", "x.y.z"] {
        let q = build_query(1, false, name, false, 1, 1).unwrap();
        assert_eq!(q.len(), name.len() + 18);
    }
}

#[test]
fn mock_query_is_google_a_any() {
    let q = mock_query();
    let expected = builder_bytes(0, false, "google.com", false, QueryType::A, QueryClass::Any).unwrap();
    assert_eq!(q, expected);
    assert_eq!(q.len(), 28);
    assert_eq!(build_query(0, false, "google.com", false, QTYPE_A, QCLASS_ANY), Ok(q));
}
