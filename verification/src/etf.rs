//! Terms of Erlang and their external format, by the `erltf` crate.

use erltf::OwnedTerm;
use vstd::prelude::*;
use vstd::utf8::*;

use crate::text;

verus! {

/// A term.
pub enum Term {
    /// An atom.
    Atom(Seq<char>),
    /// An integer of at most 64 bits.
    Integer(i64),
    /// A process identifier.
    Pid {
        /// The name of its node.
        node: Seq<char>,
        /// Its number.
        id: u32,
        /// The upper part of its number.
        serial: u32,
        /// The incarnation of its node.
        creation: u32,
        /// How its own node writes it, if that was kept.
        local: Option<Seq<u8>>,
    },
    /// A tuple.
    Tuple(Seq<Term>),
    /// Another term; which one is not said.
    Other(int),
}

/// A term of the `erltf` crate.
#[verifier::external_type_specification]
#[verifier::external_body]
pub struct ExOwnedTerm(OwnedTerm);

/// What a term of the `erltf` crate is.
pub uninterp spec fn term_of(t: OwnedTerm) -> Term;

/// What `erltf::decode` reads; `None` if it fails.
pub uninterp spec fn etf_parsed(bytes: Seq<u8>) -> Option<Term>;

/// What `erltf::encode` writes; `None` if it fails.
pub uninterp spec fn etf_written(t: Term) -> Option<Seq<u8>>;

/// What the error of `erltf::decode` says, where it fails.
pub uninterp spec fn etf_fault(bytes: Seq<u8>) -> Seq<char>;

/// What the error of `erltf::encode` says, where it fails.
pub uninterp spec fn etf_refusal(t: Term) -> Seq<char>;

/// What `Debug` of an `OwnedTerm` writes.
pub uninterp spec fn etf_debug(t: Term) -> Seq<char>;

/// What some terms are.
pub open spec fn terms(s: Seq<OwnedTerm>) -> Seq<Term> {
    Seq::new(s.len(), |i: int| term_of(s[i]))
}

/// Whether an atom can be written: its name takes up at most 65535 bytes.
pub open spec fn is_writable(name: Seq<char>) -> bool {
    encode_utf8(name).len() <= 65535
}

/// Whether a term is written in such a way that it reads back: it is made of atoms that can be
/// written, of integers of 32 bits, and of tuples of at most ten million items. Larger integers
/// read back as terms of another kind.
pub open spec fn is_simple(t: Term) -> bool
    decreases t,
{
    match t {
        Term::Atom(name) => is_writable(name),
        Term::Integer(i) => i32::MIN <= i <= i32::MAX,
        Term::Tuple(items) => items.len() <= 10000000 && forall|i: int|
            0 <= i < items.len() ==> is_simple(#[trigger] items[i]),
        _ => false,
    }
}

/// Calls `erltf::decode`, and takes an error as what it says. The decoder goes one call deeper for
/// each level of nesting, without a limit of its own: what a stack that is too small for the term
/// does is not part of the contract, as with memory that runs out.
#[verifier::external_body]
pub(crate) fn read_term(bytes: &[u8]) -> (r: Result<OwnedTerm, String>)
    ensures
        match r {
            Ok(t) => etf_parsed(bytes@) == Some(term_of(t)),
            Err(e) => etf_parsed(bytes@) is None && e@ == etf_fault(bytes@),
        },
{
    erltf::decode(bytes).map_err(|e| e.to_string())
}

/// Calls `erltf::encode`, and takes an error as what it says. A simple term can be written, and
/// reads back. The encoder nests its calls as deep as the term is nested, as `read_term` does.
#[verifier::external_body]
pub(crate) fn write_term(t: &OwnedTerm) -> (r: Result<Vec<u8>, String>)
    ensures
        match r {
            Ok(bytes) => etf_written(term_of(*t)) == Some(bytes@) && (is_simple(term_of(*t))
                ==> etf_parsed(bytes@) == Some(term_of(*t))),
            Err(e) => etf_written(term_of(*t)) is None && !is_simple(term_of(*t)) && e@
                == etf_refusal(term_of(*t)),
        },
{
    erltf::encode(t).map_err(|e| e.to_string())
}

/// The name of an `OwnedTerm::Atom`.
#[verifier::external_body]
pub(crate) fn as_atom(t: &OwnedTerm) -> (r: Option<&str>)
    ensures
        match term_of(*t) {
            Term::Atom(name) => r matches Some(s) && s@ == name,
            _ => r is None,
        },
{
    match t {
        OwnedTerm::Atom(atom) => Some(atom.as_str()),
        _ => None,
    }
}

/// The number of an `OwnedTerm::Integer`.
#[verifier::external_body]
pub(crate) fn as_integer(t: &OwnedTerm) -> (r: Option<i64>)
    ensures
        match term_of(*t) {
            Term::Integer(i) => r == Some(i),
            _ => r is None,
        },
{
    match t {
        OwnedTerm::Integer(i) => Some(*i),
        _ => None,
    }
}

/// The number of an `OwnedTerm::Pid`.
#[verifier::external_body]
pub(crate) fn as_pid(t: &OwnedTerm) -> (r: Option<u32>)
    ensures
        match term_of(*t) {
            Term::Pid { id, .. } => r == Some(id),
            _ => r is None,
        },
{
    match t {
        OwnedTerm::Pid(pid) => Some(pid.id),
        _ => None,
    }
}

/// The items of an `OwnedTerm::Tuple`, or the term itself.
#[verifier::external_body]
pub(crate) fn into_tuple(t: OwnedTerm) -> (r: Result<Vec<OwnedTerm>, OwnedTerm>)
    ensures
        match term_of(t) {
            Term::Tuple(items) => r matches Ok(s) && terms(s@) == items,
            _ => r == Err::<Vec<OwnedTerm>, OwnedTerm>(t),
        },
{
    match t {
        OwnedTerm::Tuple(items) => Ok(items),
        other => Err(other),
    }
}

/// `OwnedTerm::Atom` of `erltf::Atom::new`.
#[verifier::external_body]
pub(crate) fn atom(name: &str) -> (r: OwnedTerm)
    ensures
        term_of(r) == Term::Atom(name@),
{
    OwnedTerm::Atom(erltf::Atom::new(name))
}

/// `OwnedTerm::Integer`.
#[verifier::external_body]
pub(crate) fn integer(i: i64) -> (r: OwnedTerm)
    ensures
        term_of(r) == Term::Integer(i),
{
    OwnedTerm::Integer(i)
}

/// `OwnedTerm::Tuple`.
#[verifier::external_body]
pub(crate) fn tuple(items: Vec<OwnedTerm>) -> (r: OwnedTerm)
    ensures
        term_of(r) == Term::Tuple(terms(items@)),
{
    OwnedTerm::Tuple(items)
}

/// `Debug` of an `OwnedTerm`, for people to read.
#[verifier::external_body]
pub(crate) fn describe(t: &OwnedTerm) -> (r: String)
    ensures
        r@ == etf_debug(term_of(*t)),
{
    format!("{:?}", t)
}

/// A pair of terms.
pub fn pair(a: OwnedTerm, b: OwnedTerm) -> (r: OwnedTerm)
    ensures
        term_of(r) == Term::Tuple(seq![term_of(a), term_of(b)]),
{
    let mut items: Vec<OwnedTerm> = Vec::new();
    items.push(a);
    items.push(b);
    assert(terms(items@) =~= seq![term_of(a), term_of(b)]);
    tuple(items)
}

/// What goes wrong with terms.
#[derive(Debug)]
pub enum EtfError {
    /// Bytes are no term.
    Decode(String),
    /// A term cannot be written.
    Encode(String),
    /// A term is not of the form expected.
    UnexpectedFormat {
        /// The form expected.
        expected: String,
        /// The term.
        got: String,
    },
}

/// The tag of a term: the atom at the front of a tuple.
pub open spec fn tag_of(t: Term) -> Option<Seq<char>> {
    match t {
        Term::Tuple(items) => if items.len() > 0 {
            match items[0] {
                Term::Atom(name) => Some(name),
                _ => None,
            }
        } else {
            None
        },
        _ => None,
    }
}

/// A term as it is written.
pub struct EtfTerm {
    bytes: Vec<u8>,
}

impl View for EtfTerm {
    type V = Seq<u8>;

    closed spec fn view(&self) -> Seq<u8> {
        self.bytes@
    }
}

impl EtfTerm {
    /// The term that some bytes are.
    pub fn new(bytes: Vec<u8>) -> (r: Self)
        ensures
            r@ == bytes@,
    {
        EtfTerm { bytes }
    }

    /// Reads the term.
    pub fn decode_term(&self) -> (r: Result<OwnedTerm, EtfError>)
        ensures
            match r {
                Ok(t) => etf_parsed(self@) == Some(term_of(t)),
                Err(EtfError::Decode(text)) => etf_parsed(self@) is None && text@ == etf_fault(
                    self@,
                ),
                Err(_) => false,
            },
    {
        match read_term(self.bytes.as_slice()) {
            Ok(t) => Ok(t),
            Err(e) => Err(EtfError::Decode(e)),
        }
    }

    /// What follows the tag, if the term is a tuple with that tag.
    pub fn match_tagged(&self, expected_tag: &str) -> (r: Option<Vec<OwnedTerm>>)
        ensures
            match etf_parsed(self@) {
                Some(t) => if tag_of(t) == Some(expected_tag@) {
                    r matches Some(items) && terms(items@) == t->Tuple_0.skip(1)
                } else {
                    r is None
                },
                None => r is None,
            },
    {
        let t = match self.decode_term() {
            Ok(t) => t,
            Err(_) => {
                return None;
            },
        };
        let mut items = match into_tuple(t) {
            Ok(items) => items,
            Err(_) => {
                return None;
            },
        };
        if items.len() == 0 {
            return None;
        }
        let ghost all = terms(items@);
        assert(all[0] == term_of(items@[0]));
        let matched = match as_atom(&items[0]) {
            Some(name) => text::same_str(name, expected_tag),
            None => false,
        };
        if !matched {
            return None;
        }
        items.remove(0);
        assert(terms(items@) =~= all.skip(1));
        Some(items)
    }

    /// The tag of the term.
    pub fn tag(&self) -> (r: Option<String>)
        ensures
            text::str_option(r) == (match etf_parsed(self@) {
                Some(t) => tag_of(t),
                None => None,
            }),
    {
        let t = match self.decode_term() {
            Ok(t) => t,
            Err(_) => {
                return None;
            },
        };
        match into_tuple(t) {
            Err(_) => None,
            Ok(items) => {
                if items.len() == 0 {
                    return None;
                }
                assert(terms(items@)[0] == term_of(items@[0]));
                match as_atom(&items[0]) {
                    Some(name) => Some(name.to_owned()),
                    None => None,
                }
            },
        }
    }

    /// The bytes.
    pub fn as_bytes(&self) -> (r: &[u8])
        ensures
            r@ == self@,
    {
        self.bytes.as_slice()
    }

    /// The bytes.
    pub fn into_bytes(self) -> (r: Vec<u8>)
        ensures
            r@ == self@,
    {
        self.bytes
    }
}

/// Values that are terms.
pub trait ToEtf {
    /// The term that a value is.
    spec fn etf(&self) -> Term;

    /// The value as a term.
    fn to_etf(&self) -> (r: OwnedTerm)
        ensures
            term_of(r) == self.etf(),
    ;

    /// The value as it is written.
    fn encode_etf(&self) -> (r: Result<Vec<u8>, EtfError>)
        ensures
            match r {
                Ok(bytes) => etf_written(self.etf()) == Some(bytes@),
                Err(EtfError::Encode(text)) => etf_written(self.etf()) is None && text@
                    == etf_refusal(self.etf()),
                Err(_) => false,
            },
            is_simple(self.etf()) ==> (r matches Ok(bytes) && etf_parsed(bytes@) == Some(
                self.etf(),
            )),
    {
        match write_term(&self.to_etf()) {
            Ok(bytes) => Ok(bytes),
            Err(e) => Err(EtfError::Encode(e)),
        }
    }
}

/// Values that can be read from terms.
pub trait FromEtf: Sized {
    /// The value that a term is.
    spec fn of_etf(t: Term) -> Option<Self>;

    /// Reads a value from a term.
    fn from_etf(term: OwnedTerm) -> (r: Result<Self, EtfError>)
        ensures
            match r {
                Ok(v) => Self::of_etf(term_of(term)) == Some(v),
                Err(e) => Self::of_etf(term_of(term)) is None && e is UnexpectedFormat,
            },
    ;

    /// Reads a value from bytes.
    fn decode_etf(bytes: &[u8]) -> (r: Result<Self, EtfError>)
        ensures
            match etf_parsed(bytes@) {
                Some(t) => match r {
                    Ok(v) => Self::of_etf(t) == Some(v),
                    Err(e) => Self::of_etf(t) is None && e is UnexpectedFormat,
                },
                None => r matches Err(EtfError::Decode(text)) && text@ == etf_fault(bytes@),
            },
    {
        match read_term(bytes) {
            Ok(t) => Self::from_etf(t),
            Err(e) => Err(EtfError::Decode(e)),
        }
    }
}

/// The number with the same bits.
pub open spec fn signed(n: u64) -> i64 {
    n as i64
}

/// The number with the same bits.
pub open spec fn unsigned(n: i64) -> u64 {
    n as u64
}

/// A tuple of a tag and a number.
pub open spec fn numbered(tag: Seq<char>, n: i64) -> Term {
    Term::Tuple(seq![Term::Atom(tag), Term::Integer(n)])
}

/// The number in a tuple of a tag and a number.
pub open spec fn number_of(tag: Seq<char>, t: Term) -> Option<i64> {
    match t {
        Term::Tuple(items) => if items.len() == 2 && items[0] == Term::Atom(tag)
            && items[1] is Integer {
            Some(items[1]->Integer_0)
        } else {
            None
        },
        _ => None,
    }
}

/// Whether an error says that a term is not of the form expected: no tuple, or not the right
/// one.
pub open spec fn is_misfit(e: EtfError, t: Term, form: Seq<char>) -> bool {
    &&& e matches EtfError::UnexpectedFormat { expected, got }
    &&& expected@ == (if t is Tuple {
        form
    } else {
        "tuple"@
    })
    &&& got@ == etf_debug(t)
}

fn read_numbered(term: OwnedTerm, tag: &str, form: &str) -> (r: Result<i64, EtfError>)
    ensures
        match r {
            Ok(n) => number_of(tag@, term_of(term)) == Some(n),
            Err(e) => number_of(tag@, term_of(term)) is None && is_misfit(e, term_of(term), form@),
        },
{
    match into_tuple(term) {
        Ok(items) => {
            let ghost all = terms(items@);
            if items.len() == 2 {
                assert(all[0] == term_of(items@[0]));
                assert(all[1] == term_of(items@[1]));
                let tagged = match as_atom(&items[0]) {
                    Some(name) => text::same_str(name, tag),
                    None => false,
                };
                if tagged {
                    match as_integer(&items[1]) {
                        Some(n) => {
                            return Ok(n);
                        },
                        None => {},
                    }
                }
            }
            Err(
                EtfError::UnexpectedFormat {
                    expected: form.to_owned(),
                    got: describe(&tuple(items)),
                },
            )
        },
        Err(other) => Err(
            EtfError::UnexpectedFormat { expected: "tuple".to_owned(), got: describe(&other) },
        ),
    }
}

/// A ping: `{ping, Seq}`.
#[derive(Debug, Clone, Copy, PartialEq, Eq, Structural)]
pub struct EtfPing {
    /// Its number.
    pub seq: u64,
}

impl ToEtf for EtfPing {
    open spec fn etf(&self) -> Term {
        numbered("ping"@, signed(self.seq))
    }

    fn to_etf(&self) -> (r: OwnedTerm) {
        pair(atom("ping"), integer(self.seq as i64))
    }
}

impl FromEtf for EtfPing {
    open spec fn of_etf(t: Term) -> Option<Self> {
        match number_of("ping"@, t) {
            Some(n) => Some(EtfPing { seq: unsigned(n) }),
            None => None,
        }
    }

    fn from_etf(term: OwnedTerm) -> (r: Result<Self, EtfError>)
        ensures
            r matches Err(e) ==> is_misfit(e, term_of(term), "{ping, integer()}"@),
    {
        match read_numbered(term, "ping", "{ping, integer()}") {
            Ok(n) => Ok(EtfPing { seq: n as u64 }),
            Err(e) => Err(e),
        }
    }
}

/// The answer to a ping: `{pong, Seq}`.
#[derive(Debug, Clone, Copy, PartialEq, Eq, Structural)]
pub struct EtfPong {
    /// The number of the ping.
    pub seq: u64,
}

impl ToEtf for EtfPong {
    open spec fn etf(&self) -> Term {
        numbered("pong"@, signed(self.seq))
    }

    fn to_etf(&self) -> (r: OwnedTerm) {
        pair(atom("pong"), integer(self.seq as i64))
    }
}

impl FromEtf for EtfPong {
    open spec fn of_etf(t: Term) -> Option<Self> {
        match number_of("pong"@, t) {
            Some(n) => Some(EtfPong { seq: unsigned(n) }),
            None => None,
        }
    }

    fn from_etf(term: OwnedTerm) -> (r: Result<Self, EtfError>)
        ensures
            r matches Err(e) ==> is_misfit(e, term_of(term), "{pong, integer()}"@),
    {
        match read_numbered(term, "pong", "{pong, integer()}") {
            Ok(n) => Ok(EtfPong { seq: n as u64 }),
            Err(e) => Err(e),
        }
    }
}

/// A ping reads back from the term that it is, and so does a pong; neither reads as the other.
pub proof fn law_ping_and_pong_read_back(ping: EtfPing, pong: EtfPong)
    ensures
        EtfPing::of_etf(ping.etf()) == Some(ping),
        EtfPong::of_etf(pong.etf()) == Some(pong),
        EtfPong::of_etf(ping.etf()) is None,
        EtfPing::of_etf(pong.etf()) is None,
        tag_of(ping.etf()) == Some("ping"@),
        tag_of(pong.etf()) == Some("pong"@),
{
    let a = ping.seq;
    let b = pong.seq;
    assert(((a as i64) as u64) == a) by (bit_vector);
    assert(((b as i64) as u64) == b) by (bit_vector);
    reveal_strlit("ping");
    reveal_strlit("pong");
    assert("ping"@[1] != "pong"@[1]);
}

/// A ping can be written, and reads back from its bytes, if its number has at most 31 bits.
pub proof fn law_small_pings_are_simple(ping: EtfPing)
    requires
        ping.seq <= i32::MAX,
    ensures
        is_simple(ping.etf()),
{
    broadcast use is_ascii_chars_encode_utf8;

    let n = ping.seq;
    assert(n <= 0x7fffffff ==> (n as i64) == n) by (bit_vector);
    reveal_strlit("ping");
    assert(is_ascii_chars("ping"@));
    let items = ping.etf()->Tuple_0;
    assert(is_simple(items[0]));
    assert(is_simple(items[1]));
    assert forall|i: int| 0 <= i < items.len() implies is_simple(#[trigger] items[i]) by {}
}

} // verus!
