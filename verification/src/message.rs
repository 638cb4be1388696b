//! Typed, self-describing messages.
//!
//! Within a node, a message travels as its tag and its payload: the length of the tag in two
//! bytes, least significant first, then the tag, then the payload.

use erltf::OwnedTerm;
use vstd::prelude::*;
use vstd::slice::slice_subrange;
use vstd::string::*;
use vstd::utf8::*;

use crate::etf;
use crate::etf::{EtfError, Term};
use crate::process::{DecodeError, DecodeErrorView};
use crate::text;
use crate::wire;

verus! {

/// A message with its tag, as it travels within a node. The length of the tag is kept modulo
/// 65536.
pub open spec fn tagged(tag: Seq<char>, payload: Seq<u8>) -> Seq<u8> {
    let name = encode_utf8(tag);
    seq![(name.len() % 256) as u8, ((name.len() / 256) % 256) as u8] + name + payload
}

/// The length of the tag that a message announces.
pub open spec fn tag_length(bytes: Seq<u8>) -> int {
    bytes[0] as int + 256 * (bytes[1] as int)
}

/// The tag and the payload of a message; `None` if it is not well formed.
pub open spec fn untagged(bytes: Seq<u8>) -> Option<(Seq<char>, Seq<u8>)> {
    if bytes.len() < 2 || bytes.len() < 2 + tag_length(bytes) {
        None
    } else {
        let name = bytes.subrange(2, 2 + tag_length(bytes));
        if valid_utf8(name) {
            Some((decode_utf8(name), bytes.skip(2 + tag_length(bytes))))
        } else {
            None
        }
    }
}

/// What is wrong with a message that has no readable tag.
pub open spec fn tag_fault(bytes: Seq<u8>) -> Seq<char> {
    if bytes.len() < 2 {
        "message too short"@
    } else if bytes.len() < 2 + tag_length(bytes) {
        "tag length exceeds message"@
    } else {
        "invalid utf8 in tag"@
    }
}

/// Calls `std::str::from_utf8`: it succeeds on valid UTF-8 and borrows the bytes as text.
#[verifier::external_body]
pub(crate) fn text_of(bytes: &[u8]) -> (r: Option<&str>)
    ensures
        match r {
            Some(s) => valid_utf8(bytes@) && s@ == decode_utf8(bytes@),
            None => !valid_utf8(bytes@),
        },
{
    std::str::from_utf8(bytes).ok()
}

/// Splits a message into its tag and its payload.
pub fn decode_tag(bytes: &[u8]) -> (r: Result<(&str, &[u8]), DecodeError>)
    ensures
        match r {
            Ok((tag, payload)) => untagged(bytes@) == Some((tag@, payload@)),
            Err(DecodeError::InvalidData(text)) => untagged(bytes@) is None && text@ == tag_fault(
                bytes@,
            ),
            Err(_) => false,
        },
{
    if bytes.len() < 2 {
        return Err(DecodeError::InvalidData("message too short".to_owned()));
    }
    let tag_len: usize = bytes[0] as usize + 256 * (bytes[1] as usize);
    if bytes.len() < 2 + tag_len {
        return Err(DecodeError::InvalidData("tag length exceeds message".to_owned()));
    }
    let name = slice_subrange(bytes, 2, 2 + tag_len);
    match text_of(name) {
        Some(tag) => {
            let payload = slice_subrange(bytes, 2 + tag_len, bytes.len());
            assert(payload@ =~= bytes@.skip(2 + tag_len as int));
            Ok((tag, payload))
        },
        None => Err(DecodeError::InvalidData("invalid utf8 in tag".to_owned())),
    }
}

/// Puts a tag before a payload.
pub fn encode_with_tag(tag: &str, payload: &[u8]) -> (r: Vec<u8>)
    ensures
        r@ == tagged(tag@, payload@),
{
    let name = tag.as_bytes();
    let n: usize = name.len();
    let mut bytes: Vec<u8> = Vec::new();
    bytes.push((n % 256) as u8);
    bytes.push(((n / 256) % 256) as u8);
    assert(bytes@ =~= seq![(n % 256) as u8, ((n / 256) % 256) as u8]);
    wire::append_bytes(&mut bytes, name);
    wire::append_bytes(&mut bytes, payload);
    bytes
}

/// Splitting a message that was put together gives back the tag and the payload, as long as the
/// tag's length fits in two bytes.
pub proof fn law_tag_reads_back(tag: Seq<char>, payload: Seq<u8>)
    requires
        encode_utf8(tag).len() < 65536,
    ensures
        untagged(tagged(tag, payload)) == Some((tag, payload)),
{
    broadcast use {encode_utf8_valid_utf8, encode_utf8_decode_utf8};

    let name = encode_utf8(tag);
    let bytes = tagged(tag, payload);
    let n: int = name.len() as int;
    assert(bytes[0] == (n % 256) as u8);
    assert(bytes[1] == ((n / 256) % 256) as u8);
    assert(tag_length(bytes) == n);
    assert(bytes.subrange(2, 2 + n) =~= name);
    assert(bytes.skip(2 + n) =~= payload);
}

/// The payload of a message that has a given tag; `None` if it has another tag, or none.
pub open spec fn stripped(bytes: Seq<u8>, tag: Seq<char>) -> Option<Seq<u8>> {
    match untagged(bytes) {
        Some((found, payload)) => if found == tag {
            Some(payload)
        } else {
            None
        },
        None => None,
    }
}

/// What is wrong with a message that does not have a given tag.
pub open spec fn strip_fault(bytes: Seq<u8>, tag: Seq<char>) -> Seq<char> {
    match untagged(bytes) {
        Some((found, _)) => "expected tag '"@ + tag + "', got '"@ + found + "'"@,
        None => tag_fault(bytes),
    }
}

/// Splits the tag off a message that has to have it.
pub fn strip_tag<'a>(bytes: &'a [u8], tag: &str) -> (r: Result<&'a [u8], DecodeError>)
    ensures
        match r {
            Ok(payload) => stripped(bytes@, tag@) == Some(payload@),
            Err(DecodeError::InvalidData(text)) => stripped(bytes@, tag@) is None && text@
                == strip_fault(bytes@, tag@),
            Err(_) => false,
        },
{
    match decode_tag(bytes) {
        Ok((found, payload)) => {
            if text::same_str(found, tag) {
                Ok(payload)
            } else {
                let mut message = text::join3("expected tag '", tag, "', got '");
                message.append(found);
                message.append("'");
                Err(DecodeError::InvalidData(message))
            }
        },
        Err(e) => Err(e),
    }
}

/// A text takes at most four bytes for each of its characters.
proof fn lemma_utf8_length(s: Seq<char>)
    ensures
        encode_utf8(s).len() <= 4 * s.len(),
    decreases s.len(),
{
    if s.len() > 0 {
        lemma_utf8_length(s.drop_first());
    }
}

/// A text of ASCII characters takes one byte for each of them.
pub proof fn lemma_ascii_length(s: Seq<char>)
    requires
        forall|i: int| 0 <= i < s.len() ==> (#[trigger] s[i] as u32) < 128,
    ensures
        encode_utf8(s).len() == s.len(),
    decreases s.len(),
{
    if s.len() > 0 {
        let rest = s.drop_first();
        assert forall|i: int| 0 <= i < rest.len() implies (#[trigger] rest[i] as u32) < 128 by {
            assert(rest[i] == s[i + 1]);
        }
        lemma_ascii_length(rest);
        assert((s[0] as u32) < 128);
    }
}

/// A message with a short tag reads back.
pub proof fn lemma_stripped(tag: Seq<char>, payload: Seq<u8>)
    requires
        tag.len() < 16384,
    ensures
        stripped(tagged(tag, payload), tag) == Some(payload),
{
    lemma_utf8_length(tag);
    law_tag_reads_back(tag, payload);
}

/// A message type: a value that can be put into bytes and read back.
///
/// The payload stands for the message's view; reading back a payload gives the view, and so does
/// reading what travels to another node.
pub trait Message: Sized + View {
    /// The tag that names the message type.
    spec fn tag_view() -> Seq<char>;

    /// The payload of a message.
    spec fn payload(v: Self::V) -> Seq<u8>;

    /// The message that a payload stands for; `None` if it stands for none.
    spec fn unpacked(bytes: Seq<u8>) -> Option<Self::V>;

    /// What is wrong with a payload that stands for no message.
    spec fn unpack_fault(bytes: Seq<u8>) -> DecodeErrorView;

    /// The message as it travels to another node.
    spec fn remote(v: Self::V) -> Seq<u8>;

    /// The message that bytes from another node stand for; `None` if they stand for none.
    spec fn from_remote(bytes: Seq<u8>) -> Option<Self::V>;

    /// What is wrong with bytes from another node that stand for no message.
    spec fn remote_fault(bytes: Seq<u8>) -> DecodeErrorView;

    /// The tag that names the message type.
    fn tag() -> (r: &'static str)
        ensures
            r@ == Self::tag_view(),
    ;

    /// The message with its tag, for use within a node.
    fn encode_local(&self) -> (r: Vec<u8>)
        ensures
            r@ == tagged(Self::tag_view(), Self::payload(self@)),
            Self::unpacked(Self::payload(self@)) == Some(self@),
    ;

    /// Reads a payload, its tag already split off.
    fn decode_local(bytes: &[u8]) -> (r: Result<Self, DecodeError>)
        ensures
            match r {
                Ok(m) => Self::unpacked(bytes@) == Some(m@),
                Err(e) => Self::unpacked(bytes@) is None && e@ == Self::unpack_fault(bytes@),
            },
    ;

    /// The message as it travels to another node.
    fn encode_remote(&self) -> (r: Vec<u8>)
        ensures
            r@ == Self::remote(self@),
            Self::from_remote(Self::remote(self@)) == Some(self@),
    ;

    /// Reads what came from another node.
    fn decode_remote(bytes: &[u8]) -> (r: Result<Self, DecodeError>)
        ensures
            match r {
                Ok(m) => Self::from_remote(bytes@) == Some(m@),
                Err(e) => Self::from_remote(bytes@) is None && e@ == Self::remote_fault(bytes@),
            },
    ;
}

impl Message for () {
    open spec fn tag_view() -> Seq<char> {
        "unit"@
    }

    open spec fn payload(v: ()) -> Seq<u8> {
        Seq::empty()
    }

    open spec fn unpacked(bytes: Seq<u8>) -> Option<()> {
        Some(())
    }

    open spec fn unpack_fault(bytes: Seq<u8>) -> DecodeErrorView {
        DecodeErrorView::Postcard(Seq::empty())
    }

    open spec fn remote(v: ()) -> Seq<u8> {
        tagged(Self::tag_view(), Self::payload(v))
    }

    open spec fn from_remote(bytes: Seq<u8>) -> Option<()> {
        match stripped(bytes, Self::tag_view()) {
            Some(payload) => Self::unpacked(payload),
            None => None,
        }
    }

    open spec fn remote_fault(bytes: Seq<u8>) -> DecodeErrorView {
        match stripped(bytes, Self::tag_view()) {
            Some(payload) => Self::unpack_fault(payload),
            None => DecodeErrorView::InvalidData(strip_fault(bytes, Self::tag_view())),
        }
    }

    fn tag() -> (r: &'static str) {
        "unit"
    }

    fn encode_local(&self) -> (r: Vec<u8>) {
        let none: Vec<u8> = Vec::new();
        let r = encode_with_tag("unit", none.as_slice());
        assert(none@ =~= Seq::<u8>::empty());
        r
    }

    fn decode_local(bytes: &[u8]) -> (r: Result<(), DecodeError>) {
        Ok(())
    }

    fn encode_remote(&self) -> (r: Vec<u8>) {
        proof {
            reveal_strlit("unit");
            lemma_stripped("unit"@, Self::payload(self@));
        }
        self.encode_local()
    }

    fn decode_remote(bytes: &[u8]) -> (r: Result<(), DecodeError>) {
        match strip_tag(bytes, "unit") {
            Ok(payload) => Self::decode_local(payload),
            Err(e) => Err(e),
        }
    }
}

impl Message for i8 {
    open spec fn tag_view() -> Seq<char> {
        "i8"@
    }

    open spec fn payload(v: i8) -> Seq<u8> {
        wire::postcard_i8(v)
    }

    open spec fn unpacked(bytes: Seq<u8>) -> Option<i8> {
        match wire::postcard_take_i8(bytes) {
            Some((v, _)) => Some(v),
            None => None,
        }
    }

    open spec fn unpack_fault(bytes: Seq<u8>) -> DecodeErrorView {
        DecodeErrorView::Postcard(wire::postcard_i8_fault(bytes))
    }

    open spec fn remote(v: i8) -> Seq<u8> {
        tagged(Self::tag_view(), Self::payload(v))
    }

    open spec fn from_remote(bytes: Seq<u8>) -> Option<i8> {
        match stripped(bytes, Self::tag_view()) {
            Some(payload) => Self::unpacked(payload),
            None => None,
        }
    }

    open spec fn remote_fault(bytes: Seq<u8>) -> DecodeErrorView {
        match stripped(bytes, Self::tag_view()) {
            Some(payload) => Self::unpack_fault(payload),
            None => DecodeErrorView::InvalidData(strip_fault(bytes, Self::tag_view())),
        }
    }

    fn tag() -> (r: &'static str) {
        "i8"
    }

    fn encode_local(&self) -> (r: Vec<u8>) {
        let payload = wire::put_i8(*self);
        assert(payload@ + Seq::<u8>::empty() =~= payload@);
        encode_with_tag("i8", payload.as_slice())
    }

    fn decode_local(bytes: &[u8]) -> (r: Result<i8, DecodeError>) {
        match wire::take_i8(bytes) {
            Ok((v, _)) => Ok(v),
            Err(text) => Err(DecodeError::Postcard(text)),
        }
    }

    fn encode_remote(&self) -> (r: Vec<u8>) {
        proof {
            reveal_strlit("i8");
            lemma_stripped("i8"@, Self::payload(self@));
        }
        self.encode_local()
    }

    fn decode_remote(bytes: &[u8]) -> (r: Result<i8, DecodeError>) {
        match strip_tag(bytes, "i8") {
            Ok(payload) => Self::decode_local(payload),
            Err(e) => Err(e),
        }
    }
}

impl Message for i16 {
    open spec fn tag_view() -> Seq<char> {
        "i16"@
    }

    open spec fn payload(v: i16) -> Seq<u8> {
        wire::postcard_i16(v)
    }

    open spec fn unpacked(bytes: Seq<u8>) -> Option<i16> {
        match wire::postcard_take_i16(bytes) {
            Some((v, _)) => Some(v),
            None => None,
        }
    }

    open spec fn unpack_fault(bytes: Seq<u8>) -> DecodeErrorView {
        DecodeErrorView::Postcard(wire::postcard_i16_fault(bytes))
    }

    open spec fn remote(v: i16) -> Seq<u8> {
        tagged(Self::tag_view(), Self::payload(v))
    }

    open spec fn from_remote(bytes: Seq<u8>) -> Option<i16> {
        match stripped(bytes, Self::tag_view()) {
            Some(payload) => Self::unpacked(payload),
            None => None,
        }
    }

    open spec fn remote_fault(bytes: Seq<u8>) -> DecodeErrorView {
        match stripped(bytes, Self::tag_view()) {
            Some(payload) => Self::unpack_fault(payload),
            None => DecodeErrorView::InvalidData(strip_fault(bytes, Self::tag_view())),
        }
    }

    fn tag() -> (r: &'static str) {
        "i16"
    }

    fn encode_local(&self) -> (r: Vec<u8>) {
        let payload = wire::put_i16(*self);
        assert(payload@ + Seq::<u8>::empty() =~= payload@);
        encode_with_tag("i16", payload.as_slice())
    }

    fn decode_local(bytes: &[u8]) -> (r: Result<i16, DecodeError>) {
        match wire::take_i16(bytes) {
            Ok((v, _)) => Ok(v),
            Err(text) => Err(DecodeError::Postcard(text)),
        }
    }

    fn encode_remote(&self) -> (r: Vec<u8>) {
        proof {
            reveal_strlit("i16");
            lemma_stripped("i16"@, Self::payload(self@));
        }
        self.encode_local()
    }

    fn decode_remote(bytes: &[u8]) -> (r: Result<i16, DecodeError>) {
        match strip_tag(bytes, "i16") {
            Ok(payload) => Self::decode_local(payload),
            Err(e) => Err(e),
        }
    }
}

impl Message for i32 {
    open spec fn tag_view() -> Seq<char> {
        "i32"@
    }

    open spec fn payload(v: i32) -> Seq<u8> {
        wire::postcard_i32(v)
    }

    open spec fn unpacked(bytes: Seq<u8>) -> Option<i32> {
        match wire::postcard_take_i32(bytes) {
            Some((v, _)) => Some(v),
            None => None,
        }
    }

    open spec fn unpack_fault(bytes: Seq<u8>) -> DecodeErrorView {
        DecodeErrorView::Postcard(wire::postcard_i32_fault(bytes))
    }

    open spec fn remote(v: i32) -> Seq<u8> {
        tagged(Self::tag_view(), Self::payload(v))
    }

    open spec fn from_remote(bytes: Seq<u8>) -> Option<i32> {
        match stripped(bytes, Self::tag_view()) {
            Some(payload) => Self::unpacked(payload),
            None => None,
        }
    }

    open spec fn remote_fault(bytes: Seq<u8>) -> DecodeErrorView {
        match stripped(bytes, Self::tag_view()) {
            Some(payload) => Self::unpack_fault(payload),
            None => DecodeErrorView::InvalidData(strip_fault(bytes, Self::tag_view())),
        }
    }

    fn tag() -> (r: &'static str) {
        "i32"
    }

    fn encode_local(&self) -> (r: Vec<u8>) {
        let payload = wire::put_i32(*self);
        assert(payload@ + Seq::<u8>::empty() =~= payload@);
        encode_with_tag("i32", payload.as_slice())
    }

    fn decode_local(bytes: &[u8]) -> (r: Result<i32, DecodeError>) {
        match wire::take_i32(bytes) {
            Ok((v, _)) => Ok(v),
            Err(text) => Err(DecodeError::Postcard(text)),
        }
    }

    fn encode_remote(&self) -> (r: Vec<u8>) {
        proof {
            reveal_strlit("i32");
            lemma_stripped("i32"@, Self::payload(self@));
        }
        self.encode_local()
    }

    fn decode_remote(bytes: &[u8]) -> (r: Result<i32, DecodeError>) {
        match strip_tag(bytes, "i32") {
            Ok(payload) => Self::decode_local(payload),
            Err(e) => Err(e),
        }
    }
}

impl Message for i64 {
    open spec fn tag_view() -> Seq<char> {
        "i64"@
    }

    open spec fn payload(v: i64) -> Seq<u8> {
        wire::postcard_i64(v)
    }

    open spec fn unpacked(bytes: Seq<u8>) -> Option<i64> {
        match wire::postcard_take_i64(bytes) {
            Some((v, _)) => Some(v),
            None => None,
        }
    }

    open spec fn unpack_fault(bytes: Seq<u8>) -> DecodeErrorView {
        DecodeErrorView::Postcard(wire::postcard_i64_fault(bytes))
    }

    open spec fn remote(v: i64) -> Seq<u8> {
        tagged(Self::tag_view(), Self::payload(v))
    }

    open spec fn from_remote(bytes: Seq<u8>) -> Option<i64> {
        match stripped(bytes, Self::tag_view()) {
            Some(payload) => Self::unpacked(payload),
            None => None,
        }
    }

    open spec fn remote_fault(bytes: Seq<u8>) -> DecodeErrorView {
        match stripped(bytes, Self::tag_view()) {
            Some(payload) => Self::unpack_fault(payload),
            None => DecodeErrorView::InvalidData(strip_fault(bytes, Self::tag_view())),
        }
    }

    fn tag() -> (r: &'static str) {
        "i64"
    }

    fn encode_local(&self) -> (r: Vec<u8>) {
        let payload = wire::put_i64(*self);
        assert(payload@ + Seq::<u8>::empty() =~= payload@);
        encode_with_tag("i64", payload.as_slice())
    }

    fn decode_local(bytes: &[u8]) -> (r: Result<i64, DecodeError>) {
        match wire::take_i64(bytes) {
            Ok((v, _)) => Ok(v),
            Err(text) => Err(DecodeError::Postcard(text)),
        }
    }

    fn encode_remote(&self) -> (r: Vec<u8>) {
        proof {
            reveal_strlit("i64");
            lemma_stripped("i64"@, Self::payload(self@));
        }
        self.encode_local()
    }

    fn decode_remote(bytes: &[u8]) -> (r: Result<i64, DecodeError>) {
        match strip_tag(bytes, "i64") {
            Ok(payload) => Self::decode_local(payload),
            Err(e) => Err(e),
        }
    }
}

impl Message for u8 {
    open spec fn tag_view() -> Seq<char> {
        "u8"@
    }

    open spec fn payload(v: u8) -> Seq<u8> {
        wire::postcard_u8(v)
    }

    open spec fn unpacked(bytes: Seq<u8>) -> Option<u8> {
        match wire::postcard_take_u8(bytes) {
            Some((v, _)) => Some(v),
            None => None,
        }
    }

    open spec fn unpack_fault(bytes: Seq<u8>) -> DecodeErrorView {
        DecodeErrorView::Postcard(wire::postcard_u8_fault(bytes))
    }

    open spec fn remote(v: u8) -> Seq<u8> {
        tagged(Self::tag_view(), Self::payload(v))
    }

    open spec fn from_remote(bytes: Seq<u8>) -> Option<u8> {
        match stripped(bytes, Self::tag_view()) {
            Some(payload) => Self::unpacked(payload),
            None => None,
        }
    }

    open spec fn remote_fault(bytes: Seq<u8>) -> DecodeErrorView {
        match stripped(bytes, Self::tag_view()) {
            Some(payload) => Self::unpack_fault(payload),
            None => DecodeErrorView::InvalidData(strip_fault(bytes, Self::tag_view())),
        }
    }

    fn tag() -> (r: &'static str) {
        "u8"
    }

    fn encode_local(&self) -> (r: Vec<u8>) {
        let payload = wire::put_u8(*self);
        assert(payload@ + Seq::<u8>::empty() =~= payload@);
        encode_with_tag("u8", payload.as_slice())
    }

    fn decode_local(bytes: &[u8]) -> (r: Result<u8, DecodeError>) {
        match wire::take_u8(bytes) {
            Ok((v, _)) => Ok(v),
            Err(text) => Err(DecodeError::Postcard(text)),
        }
    }

    fn encode_remote(&self) -> (r: Vec<u8>) {
        proof {
            reveal_strlit("u8");
            lemma_stripped("u8"@, Self::payload(self@));
        }
        self.encode_local()
    }

    fn decode_remote(bytes: &[u8]) -> (r: Result<u8, DecodeError>) {
        match strip_tag(bytes, "u8") {
            Ok(payload) => Self::decode_local(payload),
            Err(e) => Err(e),
        }
    }
}

impl Message for u16 {
    open spec fn tag_view() -> Seq<char> {
        "u16"@
    }

    open spec fn payload(v: u16) -> Seq<u8> {
        wire::postcard_u16(v)
    }

    open spec fn unpacked(bytes: Seq<u8>) -> Option<u16> {
        match wire::postcard_take_u16(bytes) {
            Some((v, _)) => Some(v),
            None => None,
        }
    }

    open spec fn unpack_fault(bytes: Seq<u8>) -> DecodeErrorView {
        DecodeErrorView::Postcard(wire::postcard_u16_fault(bytes))
    }

    open spec fn remote(v: u16) -> Seq<u8> {
        tagged(Self::tag_view(), Self::payload(v))
    }

    open spec fn from_remote(bytes: Seq<u8>) -> Option<u16> {
        match stripped(bytes, Self::tag_view()) {
            Some(payload) => Self::unpacked(payload),
            None => None,
        }
    }

    open spec fn remote_fault(bytes: Seq<u8>) -> DecodeErrorView {
        match stripped(bytes, Self::tag_view()) {
            Some(payload) => Self::unpack_fault(payload),
            None => DecodeErrorView::InvalidData(strip_fault(bytes, Self::tag_view())),
        }
    }

    fn tag() -> (r: &'static str) {
        "u16"
    }

    fn encode_local(&self) -> (r: Vec<u8>) {
        let payload = wire::put_u16(*self);
        assert(payload@ + Seq::<u8>::empty() =~= payload@);
        encode_with_tag("u16", payload.as_slice())
    }

    fn decode_local(bytes: &[u8]) -> (r: Result<u16, DecodeError>) {
        match wire::take_u16(bytes) {
            Ok((v, _)) => Ok(v),
            Err(text) => Err(DecodeError::Postcard(text)),
        }
    }

    fn encode_remote(&self) -> (r: Vec<u8>) {
        proof {
            reveal_strlit("u16");
            lemma_stripped("u16"@, Self::payload(self@));
        }
        self.encode_local()
    }

    fn decode_remote(bytes: &[u8]) -> (r: Result<u16, DecodeError>) {
        match strip_tag(bytes, "u16") {
            Ok(payload) => Self::decode_local(payload),
            Err(e) => Err(e),
        }
    }
}

impl Message for u32 {
    open spec fn tag_view() -> Seq<char> {
        "u32"@
    }

    open spec fn payload(v: u32) -> Seq<u8> {
        wire::postcard_u32(v)
    }

    open spec fn unpacked(bytes: Seq<u8>) -> Option<u32> {
        match wire::postcard_take_u32(bytes) {
            Some((v, _)) => Some(v),
            None => None,
        }
    }

    open spec fn unpack_fault(bytes: Seq<u8>) -> DecodeErrorView {
        DecodeErrorView::Postcard(wire::postcard_u32_fault(bytes))
    }

    open spec fn remote(v: u32) -> Seq<u8> {
        tagged(Self::tag_view(), Self::payload(v))
    }

    open spec fn from_remote(bytes: Seq<u8>) -> Option<u32> {
        match stripped(bytes, Self::tag_view()) {
            Some(payload) => Self::unpacked(payload),
            None => None,
        }
    }

    open spec fn remote_fault(bytes: Seq<u8>) -> DecodeErrorView {
        match stripped(bytes, Self::tag_view()) {
            Some(payload) => Self::unpack_fault(payload),
            None => DecodeErrorView::InvalidData(strip_fault(bytes, Self::tag_view())),
        }
    }

    fn tag() -> (r: &'static str) {
        "u32"
    }

    fn encode_local(&self) -> (r: Vec<u8>) {
        let payload = wire::put_u32(*self);
        assert(payload@ + Seq::<u8>::empty() =~= payload@);
        encode_with_tag("u32", payload.as_slice())
    }

    fn decode_local(bytes: &[u8]) -> (r: Result<u32, DecodeError>) {
        match wire::take_u32(bytes) {
            Ok((v, _)) => Ok(v),
            Err(text) => Err(DecodeError::Postcard(text)),
        }
    }

    fn encode_remote(&self) -> (r: Vec<u8>) {
        proof {
            reveal_strlit("u32");
            lemma_stripped("u32"@, Self::payload(self@));
        }
        self.encode_local()
    }

    fn decode_remote(bytes: &[u8]) -> (r: Result<u32, DecodeError>) {
        match strip_tag(bytes, "u32") {
            Ok(payload) => Self::decode_local(payload),
            Err(e) => Err(e),
        }
    }
}

impl Message for u64 {
    open spec fn tag_view() -> Seq<char> {
        "u64"@
    }

    open spec fn payload(v: u64) -> Seq<u8> {
        wire::postcard_u64(v)
    }

    open spec fn unpacked(bytes: Seq<u8>) -> Option<u64> {
        match wire::postcard_take_u64(bytes) {
            Some((v, _)) => Some(v),
            None => None,
        }
    }

    open spec fn unpack_fault(bytes: Seq<u8>) -> DecodeErrorView {
        DecodeErrorView::Postcard(wire::postcard_u64_fault(bytes))
    }

    open spec fn remote(v: u64) -> Seq<u8> {
        tagged(Self::tag_view(), Self::payload(v))
    }

    open spec fn from_remote(bytes: Seq<u8>) -> Option<u64> {
        match stripped(bytes, Self::tag_view()) {
            Some(payload) => Self::unpacked(payload),
            None => None,
        }
    }

    open spec fn remote_fault(bytes: Seq<u8>) -> DecodeErrorView {
        match stripped(bytes, Self::tag_view()) {
            Some(payload) => Self::unpack_fault(payload),
            None => DecodeErrorView::InvalidData(strip_fault(bytes, Self::tag_view())),
        }
    }

    fn tag() -> (r: &'static str) {
        "u64"
    }

    fn encode_local(&self) -> (r: Vec<u8>) {
        let payload = wire::put_u64(*self);
        assert(payload@ + Seq::<u8>::empty() =~= payload@);
        encode_with_tag("u64", payload.as_slice())
    }

    fn decode_local(bytes: &[u8]) -> (r: Result<u64, DecodeError>) {
        match wire::take_u64(bytes) {
            Ok((v, _)) => Ok(v),
            Err(text) => Err(DecodeError::Postcard(text)),
        }
    }

    fn encode_remote(&self) -> (r: Vec<u8>) {
        proof {
            reveal_strlit("u64");
            lemma_stripped("u64"@, Self::payload(self@));
        }
        self.encode_local()
    }

    fn decode_remote(bytes: &[u8]) -> (r: Result<u64, DecodeError>) {
        match strip_tag(bytes, "u64") {
            Ok(payload) => Self::decode_local(payload),
            Err(e) => Err(e),
        }
    }
}

impl Message for bool {
    open spec fn tag_view() -> Seq<char> {
        "bool"@
    }

    open spec fn payload(v: bool) -> Seq<u8> {
        wire::postcard_bool(v)
    }

    open spec fn unpacked(bytes: Seq<u8>) -> Option<bool> {
        match wire::postcard_take_bool(bytes) {
            Some((v, _)) => Some(v),
            None => None,
        }
    }

    open spec fn unpack_fault(bytes: Seq<u8>) -> DecodeErrorView {
        DecodeErrorView::Postcard(wire::postcard_bool_fault(bytes))
    }

    open spec fn remote(v: bool) -> Seq<u8> {
        tagged(Self::tag_view(), Self::payload(v))
    }

    open spec fn from_remote(bytes: Seq<u8>) -> Option<bool> {
        match stripped(bytes, Self::tag_view()) {
            Some(payload) => Self::unpacked(payload),
            None => None,
        }
    }

    open spec fn remote_fault(bytes: Seq<u8>) -> DecodeErrorView {
        match stripped(bytes, Self::tag_view()) {
            Some(payload) => Self::unpack_fault(payload),
            None => DecodeErrorView::InvalidData(strip_fault(bytes, Self::tag_view())),
        }
    }

    fn tag() -> (r: &'static str) {
        "bool"
    }

    fn encode_local(&self) -> (r: Vec<u8>) {
        let payload = wire::put_bool(*self);
        assert(payload@ + Seq::<u8>::empty() =~= payload@);
        encode_with_tag("bool", payload.as_slice())
    }

    fn decode_local(bytes: &[u8]) -> (r: Result<bool, DecodeError>) {
        match wire::take_bool(bytes) {
            Ok((v, _)) => Ok(v),
            Err(text) => Err(DecodeError::Postcard(text)),
        }
    }

    fn encode_remote(&self) -> (r: Vec<u8>) {
        proof {
            reveal_strlit("bool");
            lemma_stripped("bool"@, Self::payload(self@));
        }
        self.encode_local()
    }

    fn decode_remote(bytes: &[u8]) -> (r: Result<bool, DecodeError>) {
        match strip_tag(bytes, "bool") {
            Ok(payload) => Self::decode_local(payload),
            Err(e) => Err(e),
        }
    }
}

impl Message for String {
    open spec fn tag_view() -> Seq<char> {
        "String"@
    }

    open spec fn payload(v: Seq<char>) -> Seq<u8> {
        wire::postcard_str(v)
    }

    open spec fn unpacked(bytes: Seq<u8>) -> Option<Seq<char>> {
        match wire::postcard_take_str(bytes) {
            Some((v, _)) => Some(v),
            None => None,
        }
    }

    open spec fn unpack_fault(bytes: Seq<u8>) -> DecodeErrorView {
        DecodeErrorView::Postcard(wire::postcard_str_fault(bytes))
    }

    open spec fn remote(v: Seq<char>) -> Seq<u8> {
        tagged(Self::tag_view(), Self::payload(v))
    }

    open spec fn from_remote(bytes: Seq<u8>) -> Option<Seq<char>> {
        match stripped(bytes, Self::tag_view()) {
            Some(payload) => Self::unpacked(payload),
            None => None,
        }
    }

    open spec fn remote_fault(bytes: Seq<u8>) -> DecodeErrorView {
        match stripped(bytes, Self::tag_view()) {
            Some(payload) => Self::unpack_fault(payload),
            None => DecodeErrorView::InvalidData(strip_fault(bytes, Self::tag_view())),
        }
    }

    fn tag() -> (r: &'static str) {
        "String"
    }

    fn encode_local(&self) -> (r: Vec<u8>) {
        let payload = wire::put_str(self.as_str());
        assert(payload@ + Seq::<u8>::empty() =~= payload@);
        encode_with_tag("String", payload.as_slice())
    }

    fn decode_local(bytes: &[u8]) -> (r: Result<String, DecodeError>) {
        match wire::take_str(bytes) {
            Ok((v, _)) => Ok(v),
            Err(text) => Err(DecodeError::Postcard(text)),
        }
    }

    fn encode_remote(&self) -> (r: Vec<u8>) {
        proof {
            reveal_strlit("String");
            lemma_stripped("String"@, Self::payload(self@));
        }
        self.encode_local()
    }

    fn decode_remote(bytes: &[u8]) -> (r: Result<String, DecodeError>) {
        match strip_tag(bytes, "String") {
            Ok(payload) => Self::decode_local(payload),
            Err(e) => Err(e),
        }
    }
}

/// The payload behind the tag of a message.
fn payload_of<T: Message>(m: &T) -> (r: Vec<u8>)
    ensures
        r@ == T::payload(m@),
        T::unpacked(T::payload(m@)) == Some(m@),
{
    let whole = m.encode_local();
    let name = T::tag().as_bytes();
    let n: usize = whole.len();
    let k: usize = name.len();
    let rest = vstd::slice::slice_subrange(whole.as_slice(), 2 + k, n);
    assert(rest@ =~= T::payload(m@));
    wire::bytes_of(rest)
}

/// A message that may be missing.
pub struct Optional<T>(pub Option<T>);

impl<T: View> View for Optional<T> {
    type V = Option<T::V>;

    open spec fn view(&self) -> Option<T::V> {
        match self.0 {
            Some(x) => Some(x@),
            None => None,
        }
    }
}

impl<T: Message> Message for Optional<T> {
    open spec fn tag_view() -> Seq<char> {
        "Option"@
    }

    open spec fn payload(v: Option<T::V>) -> Seq<u8> {
        match v {
            None => wire::postcard_u8(0),
            Some(x) => wire::postcard_u8(1) + T::payload(x),
        }
    }

    open spec fn unpacked(bytes: Seq<u8>) -> Option<Option<T::V>> {
        match wire::postcard_take_u8(bytes) {
            None => None,
            Some((kind, rest)) => if kind == 0 {
                Some(None)
            } else if kind == 1 {
                match T::unpacked(rest) {
                    Some(x) => Some(Some(x)),
                    None => None,
                }
            } else {
                None
            },
        }
    }

    open spec fn unpack_fault(bytes: Seq<u8>) -> DecodeErrorView {
        match wire::postcard_take_u8(bytes) {
            None => DecodeErrorView::Postcard(wire::postcard_u8_fault(bytes)),
            Some((kind, rest)) => if kind == 1 {
                T::unpack_fault(rest)
            } else {
                DecodeErrorView::Postcard(wire::BAD_OPTION@)
            },
        }
    }

    open spec fn remote(v: Option<T::V>) -> Seq<u8> {
        tagged(Self::tag_view(), Self::payload(v))
    }

    open spec fn from_remote(bytes: Seq<u8>) -> Option<Option<T::V>> {
        match stripped(bytes, Self::tag_view()) {
            Some(payload) => Self::unpacked(payload),
            None => None,
        }
    }

    open spec fn remote_fault(bytes: Seq<u8>) -> DecodeErrorView {
        match stripped(bytes, Self::tag_view()) {
            Some(payload) => Self::unpack_fault(payload),
            None => DecodeErrorView::InvalidData(strip_fault(bytes, Self::tag_view())),
        }
    }

    fn tag() -> (r: &'static str) {
        "Option"
    }

    fn encode_local(&self) -> (r: Vec<u8>) {
        match &self.0 {
            None => {
                let payload = wire::put_u8(0);
                assert(payload@ + Seq::<u8>::empty() =~= payload@);
                encode_with_tag("Option", payload.as_slice())
            },
            Some(x) => {
                let mut payload = wire::put_u8(1);
                let rest = payload_of(x);
                wire::append_bytes(&mut payload, rest.as_slice());
                encode_with_tag("Option", payload.as_slice())
            },
        }
    }

    fn decode_local(bytes: &[u8]) -> (r: Result<Optional<T>, DecodeError>) {
        match wire::take_u8(bytes) {
            Err(text) => Err(DecodeError::Postcard(text)),
            Ok((kind, rest)) => if kind == 0 {
                Ok(Optional(None))
            } else if kind == 1 {
                match T::decode_local(rest) {
                    Ok(x) => Ok(Optional(Some(x))),
                    Err(e) => Err(e),
                }
            } else {
                Err(DecodeError::Postcard(wire::BAD_OPTION.to_owned()))
            },
        }
    }

    fn encode_remote(&self) -> (r: Vec<u8>) {
        proof {
            reveal_strlit("Option");
            lemma_stripped("Option"@, Self::payload(self@));
        }
        self.encode_local()
    }

    fn decode_remote(bytes: &[u8]) -> (r: Result<Optional<T>, DecodeError>) {
        match strip_tag(bytes, "Option") {
            Ok(payload) => Self::decode_local(payload),
            Err(e) => Err(e),
        }
    }
}

/// A message without fields as a term: its tag, as an atom.
pub fn encode_etf_unit(tag: &str) -> (r: Vec<u8>)
    requires
        etf::is_writable(tag@),
    ensures
        etf::etf_written(Term::Atom(tag@)) == Some(r@),
        etf::etf_parsed(r@) == Some(Term::Atom(tag@)),
{
    match etf::write_term(&etf::atom(tag)) {
        Ok(bytes) => bytes,
        Err(_) => Vec::new(),
    }
}

/// A message with fields as a term: a tuple of its tag and the term of its fields. A tag that is
/// too long, and some terms, cannot be written.
pub fn encode_etf_with_tag(tag: &str, payload: OwnedTerm) -> (r: Result<Vec<u8>, EtfError>)
    ensures
        etf::is_writable(tag@) && etf::is_simple(etf::term_of(payload)) ==> (r matches Ok(bytes)
            && etf::etf_parsed(bytes@) == Some(etf_tagged(tag@, etf::term_of(payload)))),
        match r {
            Ok(bytes) => etf::etf_written(etf_tagged(tag@, etf::term_of(payload))) == Some(bytes@),
            Err(EtfError::Encode(text)) => {
                let whole = etf_tagged(tag@, etf::term_of(payload));
                etf::etf_written(whole) is None && text@ == etf::etf_refusal(whole)
            },
            Err(_) => false,
        },
{
    let ghost p = etf::term_of(payload);
    let term = etf::pair(etf::atom(tag), payload);
    proof {
        if etf::is_writable(tag@) && etf::is_simple(p) {
            let items = seq![Term::Atom(tag@), p];
            assert(etf::is_simple(items[0]));
            assert(etf::is_simple(items[1]));
            assert forall|i: int| 0 <= i < items.len() implies etf::is_simple(
                #[trigger] items[i],
            ) by {}
            assert(etf::is_simple(Term::Tuple(items)));
        }
    }
    match etf::write_term(&term) {
        Ok(bytes) => Ok(bytes),
        Err(e) => Err(EtfError::Encode(e)),
    }
}

/// A tuple of a tag and the term of the fields.
pub open spec fn etf_tagged(tag: Seq<char>, payload: Term) -> Term {
    Term::Tuple(seq![Term::Atom(tag), payload])
}

/// Whether a term is a message without fields: its tag, bare or as the one item of a tuple.
pub open spec fn is_etf_unit(t: Term, tag: Seq<char>) -> bool {
    match t {
        Term::Atom(name) => name == tag,
        Term::Tuple(items) => items.len() == 1 && items[0] == Term::Atom(tag),
        _ => false,
    }
}

/// Reads a message without fields.
pub fn decode_etf_unit(bytes: &[u8], expected_tag: &str) -> (r: Result<(), DecodeError>)
    ensures
        match etf::etf_parsed(bytes@) {
            Some(t) => if is_etf_unit(t, expected_tag@) {
                r is Ok
            } else {
                r matches Err(DecodeError::Etf(message)) && message@ == "expected atom '"@
                    + expected_tag@ + "', got "@ + etf::etf_debug(t)
            },
            None => r matches Err(DecodeError::Etf(message)) && message@ == etf::etf_fault(bytes@),
        },
{
    let term = match etf::read_term(bytes) {
        Ok(t) => t,
        Err(e) => {
            return Err(DecodeError::Etf(e));
        },
    };
    let bare = match etf::as_atom(&term) {
        Some(name) => text::same_str(name, expected_tag),
        None => false,
    };
    if bare {
        return Ok(());
    }
    let got = etf::describe(&term);
    match etf::into_tuple(term) {
        Ok(items) => {
            if items.len() == 1 {
                assert(etf::terms(items@)[0] == etf::term_of(items@[0]));
                let inside = match etf::as_atom(&items[0]) {
                    Some(name) => text::same_str(name, expected_tag),
                    None => false,
                };
                if inside {
                    return Ok(());
                }
            }
        },
        Err(_) => {},
    }
    let mut message = text::join3("expected atom '", expected_tag, "', got ");
    message.append(got.as_str());
    Err(DecodeError::Etf(message))
}

/// What reading a message with fields comes to: the term of its fields, or nothing.
pub open spec fn etf_payload(t: Term, tag: Seq<char>) -> Option<Term> {
    match t {
        Term::Tuple(items) => if items.len() == 2 && items[0] == Term::Atom(tag) {
            Some(items[1])
        } else {
            None
        },
        _ => None,
    }
}

/// What is said of a term that is no message with fields under a tag: it has another tag, no tag,
/// or another form.
pub open spec fn etf_payload_fault(t: Term, tag: Seq<char>) -> Seq<char> {
    if t is Tuple && t->Tuple_0.len() == 2 {
        match t->Tuple_0[0] {
            Term::Atom(other) => "expected tag '"@ + tag + "', got '"@ + other + "'"@,
            head => "expected atom tag, got "@ + etf::etf_debug(head),
        }
    } else {
        "expected tagged tuple {:"@ + tag + ", _}, got "@ + etf::etf_debug(t)
    }
}

/// Reads a message with fields: the term of its fields. A tuple with another tag is refused by
/// that tag.
pub fn decode_etf_with_tag(bytes: &[u8], expected_tag: &str) -> (r: Result<OwnedTerm, DecodeError>)
    ensures
        match etf::etf_parsed(bytes@) {
            Some(t) => match etf_payload(t, expected_tag@) {
                Some(p) => r matches Ok(payload) && etf::term_of(payload) == p,
                None => r matches Err(DecodeError::Etf(message)) && message@ == etf_payload_fault(
                    t,
                    expected_tag@,
                ),
            },
            None => r matches Err(DecodeError::Etf(message)) && message@ == etf::etf_fault(bytes@),
        },
{
    let term = match etf::read_term(bytes) {
        Ok(t) => t,
        Err(e) => {
            return Err(DecodeError::Etf(e));
        },
    };
    let got = etf::describe(&term);
    match etf::into_tuple(term) {
        Ok(items) => {
            if items.len() == 2 {
                let mut items = items;
                let ghost all = etf::terms(items@);
                assert(all[0] == etf::term_of(items@[0]));
                assert(all[1] == etf::term_of(items@[1]));
                match etf::as_atom(&items[0]) {
                    Some(name) => {
                        if !text::same_str(name, expected_tag) {
                            let mut message = text::join3(
                                "expected tag '",
                                expected_tag,
                                "', got '"
                            );
                            message.append(name);
                            message.append("'");
                            return Err(DecodeError::Etf(message));
                        }
                    },
                    None => {
                        let head = etf::describe(&items[0]);
                        let message = text::join2("expected atom tag, got ", head.as_str());
                        return Err(DecodeError::Etf(message));
                    },
                }
                return Ok(items.remove(1));
            }
        },
        Err(_) => {},
    }
    let mut message = text::join3("expected tagged tuple {:", expected_tag, ", _}, got ");
    message.append(got.as_str());
    Err(DecodeError::Etf(message))
}

/// A message reads back from the term that it is: one without fields, and one with fields; and
/// only under its own tag.
pub proof fn law_etf_messages_read_back(tag: Seq<char>, other: Seq<char>, payload: Term)
    ensures
        is_etf_unit(Term::Atom(tag), other) <==> tag == other,
        etf_payload(etf_tagged(tag, payload), tag) == Some(payload),
        tag != other ==> etf_payload(etf_tagged(tag, payload), other) is None,
{
    assert(etf_tagged(tag, payload)->Tuple_0[0] == Term::Atom(tag));
}

} // verus!
