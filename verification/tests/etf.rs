//! Erlang terms.

use ambitious::etf::{EtfError, EtfPing, EtfPong, EtfTerm, FromEtf, ToEtf};
use ambitious::message::encode_etf_unit;
use erltf::{OwnedTerm, decode, encode};

#[test]
fn test_ping_roundtrip() {
    let ping = EtfPing { seq: 42 };
    let bytes = ping.encode_etf().unwrap();
    let decoded = EtfPing::decode_etf(&bytes).unwrap();
    assert_eq!(ping.seq, decoded.seq);
}

#[test]
fn test_pong_roundtrip() {
    let pong = EtfPong { seq: 123 };
    let bytes = pong.encode_etf().unwrap();
    let decoded = EtfPong::decode_etf(&bytes).unwrap();
    assert_eq!(pong.seq, decoded.seq);
}

#[test]
fn test_etf_term_tag() {
    let ping = EtfPing { seq: 1 };
    let bytes = ping.encode_etf().unwrap();
    let term = EtfTerm::new(bytes);
    assert_eq!(term.tag(), Some("ping".to_string()));
}

#[test]
fn test_etf_term_match_tagged() {
    let ping = EtfPing { seq: 99 };
    let bytes = ping.encode_etf().unwrap();
    let term = EtfTerm::new(bytes);

    let elems = term.match_tagged("ping").unwrap();
    assert_eq!(elems.len(), 1);
    assert!(matches!(elems[0], OwnedTerm::Integer(99)));

    assert!(term.match_tagged("pong").is_none());
}

#[test]
fn test_discriminate_message_types() {
    let ping = EtfPing { seq: 1 };
    let pong = EtfPong { seq: 2 };

    let ping_bytes = ping.encode_etf().unwrap();
    let pong_bytes = pong.encode_etf().unwrap();

    let term1 = EtfTerm::new(ping_bytes);
    let term2 = EtfTerm::new(pong_bytes);

    assert_eq!(term1.tag(), Some("ping".to_string()));
    assert_eq!(term2.tag(), Some("pong".to_string()));

    if term1.tag().as_deref() == Some("ping") {
        let decoded = EtfPing::decode_etf(term1.as_bytes()).unwrap();
        assert_eq!(decoded.seq, 1);
    }

    if term2.tag().as_deref() == Some("pong") {
        let decoded = EtfPong::decode_etf(term2.as_bytes()).unwrap();
        assert_eq!(decoded.seq, 2);
    }
}

#[test]
fn test_using_erltf_macros() {
    let hello = decode(&encode_etf_unit("hello")).unwrap();
    let term = OwnedTerm::Tuple(vec![hello, OwnedTerm::Integer(42)]);

    let bytes = encode(&term).unwrap();
    let decoded = decode(&bytes).unwrap();

    match decoded {
        OwnedTerm::Tuple(elems) => {
            assert_eq!(elems.len(), 2);
            assert!(matches!(&elems[0], OwnedTerm::Atom(a) if a.as_str() == "hello"));
            assert!(matches!(elems[1], OwnedTerm::Integer(42)));
        },
        _ => panic!("expected tuple"),
    }
}

#[test]
fn terms_of_another_form_are_refused() {
    let pong = EtfPong { seq: 2 };
    let bytes = pong.encode_etf().unwrap();
    match EtfPing::decode_etf(&bytes) {
        Err(EtfError::UnexpectedFormat { expected, .. }) => {
            assert_eq!(expected, "{ping, integer()}")
        },
        _ => panic!("read as a ping"),
    }
    match EtfPing::from_etf(OwnedTerm::Integer(1)) {
        Err(EtfError::UnexpectedFormat { expected, .. }) => assert_eq!(expected, "tuple"),
        _ => panic!("read as a ping"),
    }
    assert!(matches!(EtfPing::decode_etf(&[1, 2, 3]), Err(EtfError::Decode(_))));
    let term = EtfTerm::new(vec![1, 2, 3]);
    assert!(term.tag().is_none());
    assert!(term.decode_term().is_err());
    assert_eq!(term.into_bytes(), vec![1, 2, 3]);
}

#[test]
fn written_terms_are_read_by_the_crate() {
    let term = decode(&EtfPing { seq: 5 }.encode_etf().unwrap()).unwrap();
    let again = encode(&term).unwrap();
    assert_eq!(EtfPing::decode_etf(&again).unwrap().seq, 5);
}

#[test]
fn large_numbers_do_not_read_back() {
    let small = EtfPing { seq: 2147483647 };
    assert_eq!(EtfPing::decode_etf(&small.encode_etf().unwrap()).unwrap(), small);
    let large = EtfPing { seq: 2147483648 };
    let bytes = large.encode_etf().unwrap();
    assert!(matches!(EtfPing::decode_etf(&bytes), Err(EtfError::UnexpectedFormat { .. })));
}
