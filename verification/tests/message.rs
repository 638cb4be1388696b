//! Tagged messages.

use std::collections::BTreeMap;

use ambitious::message::{
    decode_etf_unit, decode_etf_with_tag, decode_tag, encode_etf_unit, encode_etf_with_tag,
    encode_with_tag, Message, Optional,
};
use ambitious::piece::Piece;
use ambitious::process::DecodeError;
use erltf::OwnedTerm;
use serde::ser::SerializeStruct;

fn atom(name: &str) -> OwnedTerm {
    erltf::decode(&encode_etf_unit(name)).unwrap()
}

#[test]
fn test_derive_unit_struct() {
    let bytes = encode_with_tag("Ping", &[]);

    let (tag, payload) = decode_tag(&bytes).unwrap();
    assert_eq!(tag, "Ping");
    assert!(payload.is_empty());

    <() as Message>::decode_local(payload).unwrap();
}

#[test]
fn test_derive_newtype_struct() {
    let inner: i64 = 42;
    let whole = inner.encode_local();
    let (_, payload) = decode_tag(&whole).unwrap();
    let bytes = encode_with_tag("Add", payload);

    let (tag, payload) = decode_tag(&bytes).unwrap();
    assert_eq!(tag, "Add");

    let decoded = i64::decode_local(payload).unwrap();
    assert_eq!(decoded, 42);
}

#[test]
fn test_derive_named_struct() {
    let mut fields: Vec<u8> = Vec::new();
    "alice".to_string().put(&mut fields);
    "secret".to_string().put(&mut fields);
    let bytes = encode_with_tag("Login", &fields);

    let (tag, payload) = decode_tag(&bytes).unwrap();
    assert_eq!(tag, "Login");

    let (username, rest) = String::take(payload).unwrap();
    let (password, _) = String::take(rest).unwrap();
    assert_eq!(username, "alice");
    assert_eq!(password, "secret");
}

#[test]
fn test_derive_custom_tag() {
    let bytes = encode_with_tag("increment", &[]);

    let (tag, _) = decode_tag(&bytes).unwrap();
    assert_eq!(tag, "increment");
}

#[test]
fn test_decode_tag_errors() {
    assert!(decode_tag(&[]).is_err());
    assert!(decode_tag(&[0]).is_err());
    assert!(decode_tag(&[10, 0]).is_err());
}

#[test]
fn test_encode_etf_unit() {
    let bytes = encode_etf_unit("ping");
    let term = erltf::decode(&bytes).unwrap();
    match term {
        OwnedTerm::Atom(atom) => assert_eq!(atom.as_str(), "ping"),
        _ => panic!("expected atom, got {:?}", term),
    }
}

#[test]
fn test_decode_etf_unit() {
    let term = atom("pong");
    let bytes = erltf::encode(&term).unwrap();

    decode_etf_unit(&bytes, "pong").unwrap();

    assert!(decode_etf_unit(&bytes, "ping").is_err());
}

struct TestPayload {
    value: i32,
}

impl serde::Serialize for TestPayload {
    fn serialize<S: serde::Serializer>(&self, s: S) -> Result<S::Ok, S::Error> {
        let mut st = s.serialize_struct("TestPayload", 1)?;
        st.serialize_field("value", &self.value)?;
        st.end()
    }
}

#[test]
fn test_encode_etf_with_tag() {
    let payload = TestPayload { value: 42 };
    let term = erltf_serde::to_term(&payload).unwrap();
    let bytes = encode_etf_with_tag("test", term).unwrap();

    let term = erltf::decode(&bytes).unwrap();
    match term {
        OwnedTerm::Tuple(elems) => {
            assert_eq!(elems.len(), 2);
            match &elems[0] {
                OwnedTerm::Atom(atom) => assert_eq!(atom.as_str(), "test"),
                _ => panic!("expected atom tag"),
            }
        },
        _ => panic!("expected tuple"),
    }
}

#[test]
fn test_decode_etf_with_tag() {
    let message = TestPayload { value: 123 };
    let term = erltf_serde::to_term(&message).unwrap();
    let bytes = encode_etf_with_tag("test", term.clone()).unwrap();

    let decoded = decode_etf_with_tag(&bytes, "test").unwrap();
    assert_eq!(decoded, term);

    assert!(decode_etf_with_tag(&bytes, "wrong").is_err());
}

#[test]
fn test_etf_roundtrip_primitive() {
    let value: i64 = 12345;
    let bytes = encode_etf_with_tag("num", erltf_serde::to_term(&value).unwrap()).unwrap();
    let term = decode_etf_with_tag(&bytes, "num").unwrap();
    let decoded: i64 = erltf_serde::from_term(&term).unwrap();
    assert_eq!(decoded, value);

    let value = "hello world".to_string();
    let bytes = encode_etf_with_tag("str", erltf_serde::to_term(&value).unwrap()).unwrap();
    let term = decode_etf_with_tag(&bytes, "str").unwrap();
    let decoded: String = erltf_serde::from_term(&term).unwrap();
    assert_eq!(decoded, value);
}

#[test]
fn test_encode_decode_local() {
    let value: i32 = 42;
    let whole = value.encode_local();
    let (_, payload) = decode_tag(&whole).unwrap();
    let bytes = encode_with_tag("TestMsg", payload);

    let (tag, payload) = decode_tag(&bytes).unwrap();
    assert_eq!(tag, "TestMsg");

    let decoded = i32::decode_local(payload).unwrap();
    assert_eq!(decoded, 42);
}

#[test]
fn test_unit_message() {
    let bytes = encode_with_tag("UnitMsg", &[]);

    let (tag, payload) = decode_tag(&bytes).unwrap();
    assert_eq!(tag, "UnitMsg");
    assert!(payload.is_empty());

    <() as Message>::decode_local(payload).unwrap();
}

#[test]
fn test_derive_unit_struct_etf() {
    let bytes = encode_etf_unit("Ping");

    decode_etf_unit(&bytes, "Ping").unwrap();

    let term = erltf::decode(&bytes).unwrap();
    match term {
        OwnedTerm::Atom(atom) => assert_eq!(atom.as_str(), "Ping"),
        _ => panic!("expected atom, got {:?}", term),
    }
}

#[test]
fn test_derive_newtype_struct_etf() {
    let inner: i64 = 42;
    let bytes = encode_etf_with_tag("Add", erltf_serde::to_term(&inner).unwrap()).unwrap();

    let term = decode_etf_with_tag(&bytes, "Add").unwrap();
    let decoded: i64 = erltf_serde::from_term(&term).unwrap();
    assert_eq!(decoded, 42);

    let term = erltf::decode(&bytes).unwrap();
    match term {
        OwnedTerm::Tuple(elems) => {
            assert_eq!(elems.len(), 2);
            match &elems[0] {
                OwnedTerm::Atom(atom) => assert_eq!(atom.as_str(), "Add"),
                _ => panic!("expected atom tag"),
            }
        },
        _ => panic!("expected tuple, got {:?}", term),
    }
}

struct Login {
    username: String,
    password: String,
}

impl serde::Serialize for Login {
    fn serialize<S: serde::Serializer>(&self, s: S) -> Result<S::Ok, S::Error> {
        let mut st = s.serialize_struct("Login", 2)?;
        st.serialize_field("username", &self.username)?;
        st.serialize_field("password", &self.password)?;
        st.end()
    }
}

#[test]
fn test_derive_named_struct_etf() {
    let msg = Login { username: "alice".to_string(), password: "secret123".to_string() };
    let written = erltf_serde::to_term(&msg).unwrap();
    let bytes = encode_etf_with_tag("Login", written.clone()).unwrap();

    let decoded = decode_etf_with_tag(&bytes, "Login").unwrap();
    assert_eq!(decoded, written);
    let fields: BTreeMap<String, String> = erltf_serde::from_term(&decoded).unwrap();
    assert_eq!(fields["username"], msg.username);
    assert_eq!(fields["password"], msg.password);

    let term = erltf::decode(&bytes).unwrap();
    match term {
        OwnedTerm::Tuple(elems) => {
            assert_eq!(elems.len(), 2);
            match &elems[0] {
                OwnedTerm::Atom(atom) => assert_eq!(atom.as_str(), "Login"),
                _ => panic!("expected atom tag"),
            }
        },
        _ => panic!("expected tuple, got {:?}", term),
    }
}

#[test]
fn test_derive_custom_tag_etf() {
    let bytes = encode_etf_unit("increment");

    decode_etf_unit(&bytes, "increment").unwrap();

    let term = erltf::decode(&bytes).unwrap();
    match term {
        OwnedTerm::Atom(atom) => assert_eq!(atom.as_str(), "increment"),
        _ => panic!("expected atom, got {:?}", term),
    }
}

#[derive(Debug, PartialEq)]
enum CounterMsg {
    Get,
    Add(i64),
    Reset { to: i64 },
}

impl CounterMsg {
    fn encode_remote(&self) -> Vec<u8> {
        match self {
            CounterMsg::Get => encode_etf_unit("Get"),
            CounterMsg::Add(n) => {
                encode_etf_with_tag("Add", erltf_serde::to_term(n).unwrap()).unwrap()
            },
            CounterMsg::Reset { to } => {
                encode_etf_with_tag("Reset", erltf_serde::to_term(to).unwrap()).unwrap()
            },
        }
    }

    fn decode_remote(bytes: &[u8]) -> Result<CounterMsg, DecodeError> {
        if decode_etf_unit(bytes, "Get").is_ok() {
            Ok(CounterMsg::Get)
        } else if let Ok(term) = decode_etf_with_tag(bytes, "Add") {
            Ok(CounterMsg::Add(erltf_serde::from_term(&term).unwrap()))
        } else {
            let term = decode_etf_with_tag(bytes, "Reset")?;
            Ok(CounterMsg::Reset { to: erltf_serde::from_term(&term).unwrap() })
        }
    }
}

#[test]
fn test_derive_enum_etf() {
    let msg = CounterMsg::Get;
    let bytes = msg.encode_remote();
    let decoded = CounterMsg::decode_remote(&bytes).unwrap();
    assert_eq!(decoded, msg);

    let msg = CounterMsg::Add(42);
    let bytes = msg.encode_remote();
    let decoded = CounterMsg::decode_remote(&bytes).unwrap();
    assert_eq!(decoded, msg);

    let msg = CounterMsg::Reset { to: 100 };
    let bytes = msg.encode_remote();
    let decoded = CounterMsg::decode_remote(&bytes).unwrap();
    assert_eq!(decoded, msg);
}

struct Complex {
    name: String,
    values: Vec<i32>,
    nested: Option<Box<Complex>>,
}

impl serde::Serialize for Complex {
    fn serialize<S: serde::Serializer>(&self, s: S) -> Result<S::Ok, S::Error> {
        let mut st = s.serialize_struct("Complex", 3)?;
        st.serialize_field("name", &self.name)?;
        st.serialize_field("values", &self.values)?;
        st.serialize_field("nested", &self.nested)?;
        st.end()
    }
}

#[test]
fn test_etf_roundtrip_complex() {
    let message = Complex {
        name: "root".to_string(),
        values: vec![1, 2, 3],
        nested: Some(Box::new(Complex {
            name: "child".to_string(),
            values: vec![4, 5],
            nested: None,
        })),
    };

    let written = erltf_serde::to_term(&message).unwrap();
    let bytes = encode_etf_with_tag("complex", written.clone()).unwrap();
    let decoded = decode_etf_with_tag(&bytes, "complex").unwrap();
    assert_eq!(decoded, written);
}

#[test]
fn primitive_messages_read_back() {
    let bytes = 7u32.encode_local();
    let (tag, payload) = decode_tag(&bytes).unwrap();
    assert_eq!(tag, "u32");
    assert_eq!(u32::decode_local(payload).unwrap(), 7);
    assert!(bool::decode_local(&[9]).is_err());
    let bytes = Optional(Some("x".to_string())).encode_local();
    let (_, payload) = decode_tag(&bytes).unwrap();
    assert_eq!(Optional::<String>::decode_local(payload).unwrap().0, Some("x".to_string()));
}

#[test]
fn remote_messages_read_back() {
    assert!(bool::decode_remote(&true.encode_remote()).unwrap());
    assert_eq!(i8::decode_remote(&(-7i8).encode_remote()).unwrap(), -7);
    assert_eq!(i16::decode_remote(&(-300i16).encode_remote()).unwrap(), -300);
    assert_eq!(i32::decode_remote(&70000i32.encode_remote()).unwrap(), 70000);
    assert_eq!(i64::decode_remote(&5i64.encode_remote()).unwrap(), 5);
    assert_eq!(u8::decode_remote(&200u8.encode_remote()).unwrap(), 200);
    assert_eq!(u16::decode_remote(&300u16.encode_remote()).unwrap(), 300);
    assert_eq!(u32::decode_remote(&7u32.encode_remote()).unwrap(), 7);
    assert_eq!(u64::decode_remote(&u64::MAX.encode_remote()).unwrap(), u64::MAX);
    assert_eq!(String::decode_remote(&"hi".to_string().encode_remote()).unwrap(), "hi");
    assert!(<()>::decode_remote(&().encode_remote()).is_ok());
    let some = Optional(Some(5i64));
    assert_eq!(Optional::<i64>::decode_remote(&some.encode_remote()).unwrap().0, Some(5));
    let none: Optional<i64> = Optional(None);
    assert_eq!(Optional::<i64>::decode_remote(&none.encode_remote()).unwrap().0, None);
    match u8::decode_remote(&5i64.encode_remote()) {
        Err(DecodeError::InvalidData(text)) => assert_eq!(text, "expected tag 'u8', got 'i64'"),
        _ => panic!("another tag was taken"),
    }
    assert!(u8::decode_remote(&[5]).is_err());
}

fn payload_of(bytes: &[u8]) -> Vec<u8> {
    decode_tag(bytes).unwrap().1.to_vec()
}

#[test]
fn numbers_have_their_bytes() {
    assert_eq!(payload_of(&200u8.encode_local()), vec![200]);
    assert_eq!(payload_of(&300u16.encode_local()), vec![0xac, 0x02]);
    assert_eq!(payload_of(&300u32.encode_local()), vec![0xac, 0x02]);
    assert_eq!(payload_of(&300u64.encode_local()), vec![0xac, 0x02]);
    assert_eq!(payload_of(&(-1i8).encode_local()), vec![0xff]);
    assert_eq!(payload_of(&(-2i16).encode_local()), vec![3]);
    assert_eq!(payload_of(&(-2i32).encode_local()), vec![3]);
    assert_eq!(payload_of(&2i64.encode_local()), vec![4]);
    assert_eq!(payload_of(&true.encode_local()), vec![1]);
    assert_eq!(payload_of(&"hi".to_string().encode_local()), vec![2, b'h', b'i']);
    assert_eq!(u16::decode_local(&[0xac, 0x02]).unwrap(), 300);
    assert_eq!(u32::decode_local(&[0xac, 0x02]).unwrap(), 300);
    assert_eq!(u64::decode_local(&[0xac, 0x02]).unwrap(), 300);
    assert_eq!(i8::decode_local(&[0xff]).unwrap(), -1);
    assert_eq!(i16::decode_local(&[3]).unwrap(), -2);
    assert_eq!(i32::decode_local(&[3]).unwrap(), -2);
    assert_eq!(i64::decode_local(&[4]).unwrap(), 2);
    assert!(u8::decode_local(&[]).is_err());
}

#[test]
fn unreadable_options_are_told_apart() {
    match Optional::<u8>::decode_local(&[2]) {
        Err(DecodeError::Postcard(text)) => {
            assert_eq!(text, "Found an Option discriminant that wasn't 0 or 1")
        },
        _ => panic!("read"),
    }
}

#[test]
fn misfits_are_described() {
    let bytes = encode_etf_unit("pong");
    match decode_etf_unit(&bytes, "ping") {
        Err(DecodeError::Etf(text)) => {
            let got = format!("{:?}", atom("pong"));
            assert_eq!(text, format!("expected atom 'ping', got {}", got));
        },
        _ => panic!("read"),
    }
    let bytes = encode_etf_with_tag("a", OwnedTerm::Integer(1)).unwrap();
    match decode_etf_with_tag(&bytes, "b") {
        Err(e) => assert_eq!(e.describe(), "ETF error: expected tag 'b', got 'a'"),
        _ => panic!("read"),
    }
    let bytes = erltf::encode(&OwnedTerm::Integer(5)).unwrap();
    match decode_etf_with_tag(&bytes, "b") {
        Err(DecodeError::Etf(text)) => {
            assert_eq!(text, "expected tagged tuple {:b, _}, got Integer(5)")
        },
        _ => panic!("read"),
    }
}

#[test]
fn bad_tags_are_told_apart() {
    match decode_tag(&[1]) {
        Err(DecodeError::InvalidData(text)) => assert_eq!(text, "message too short"),
        _ => panic!("read"),
    }
    match decode_tag(&[5, 0, b'a']) {
        Err(e) => assert_eq!(e.describe(), "invalid data: tag length exceeds message"),
        _ => panic!("read"),
    }
    match decode_tag(&[1, 0, 255]) {
        Err(DecodeError::InvalidData(text)) => assert_eq!(text, "invalid utf8 in tag"),
        _ => panic!("read"),
    }
    assert!(matches!(decode_etf_unit(&[1, 2], "x"), Err(DecodeError::Etf(_))));
}

fn fault<M: Message>(bytes: &[u8]) -> String {
    match M::decode_local(bytes) {
        Err(DecodeError::Postcard(text)) => text,
        _ => panic!("read"),
    }
}

#[test]
fn payloads_that_cannot_be_read_say_why() {
    let end = "Hit the end of buffer, expected more data";
    let number = "Found a varint that didn't terminate. Is the usize too big for this platform?";
    assert_eq!(fault::<u8>(&[]), end);
    assert_eq!(fault::<i8>(&[]), end);
    assert_eq!(fault::<bool>(&[]), end);
    assert_eq!(fault::<bool>(&[2]), "Found a bool that wasn't 0 or 1");
    assert_eq!(fault::<u16>(&[255, 255]), end);
    assert_eq!(fault::<u16>(&[255, 255, 4]), number);
    assert_eq!(fault::<i16>(&[255, 255, 255]), number);
    assert_eq!(fault::<u32>(&[255, 255, 255, 255]), end);
    assert_eq!(fault::<u32>(&[255, 255, 255, 255, 16]), number);
    assert_eq!(fault::<i32>(&[255; 5]), number);
    assert_eq!(fault::<u64>(&[255; 9]), end);
    assert_eq!(fault::<u64>(&[255, 255, 255, 255, 255, 255, 255, 255, 255, 2]), number);
    assert_eq!(fault::<i64>(&[255; 11]), number);
    assert_eq!(fault::<String>(&[]), end);
    assert_eq!(fault::<String>(&[255; 10]), number);
    assert_eq!(fault::<String>(&[2, b'a']), end);
    assert_eq!(fault::<String>(&[1, 0xff]), "Tried to parse invalid utf-8");
    assert_eq!(fault::<Optional<u8>>(&[1]), end);
    assert_eq!(fault::<Optional<u8>>(&[2]), "Found an Option discriminant that wasn't 0 or 1");
    match i64::decode_remote(&[1, 0, b'x']) {
        Err(DecodeError::InvalidData(text)) => assert_eq!(text, "expected tag 'i64', got 'x'"),
        _ => panic!("read"),
    }
}
