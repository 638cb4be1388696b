//! Process identities, exit reasons and the errors of decoding.

use vstd::prelude::*;

use crate::table::Key;

verus! {

/// What a process identifier stands for.
pub struct PidView {
    /// The name of the node that the process runs on.
    pub node: Seq<char>,
    /// The number of the process on that node.
    pub id: u64,
    /// The incarnation of the node.
    pub creation: u32,
}

/// A process identifier: a process on a named node.
#[derive(Debug)]
pub struct Pid {
    node: String,
    id: u64,
    creation: u32,
}

impl View for Pid {
    type V = PidView;

    closed spec fn view(&self) -> PidView {
        PidView { node: self.node@, id: self.id, creation: self.creation }
    }
}

impl Pid {
    /// The identifier of process `id` on the node `node`.
    pub fn remote(node: &str, id: u64, creation: u32) -> (r: Pid)
        ensures
            r@ == (PidView { node: node@, id, creation }),
    {
        Pid { node: node.to_owned(), id, creation }
    }

    /// The name of the process's node.
    pub fn node(&self) -> (r: &str)
        ensures
            r@ == self@.node,
    {
        self.node.as_str()
    }

    /// The number of the process on its node.
    pub fn id(&self) -> (r: u64)
        ensures
            r == self@.id,
    {
        self.id
    }

    /// The incarnation of the process's node.
    pub fn creation(&self) -> (r: u32)
        ensures
            r == self@.creation,
    {
        self.creation
    }

    /// Whether the process runs on the node named `here`.
    pub fn is_local(&self, here: &str) -> (r: bool)
        ensures
            r == (self@.node == here@),
    {
        crate::text::same_str(self.node.as_str(), here)
    }
}

impl Clone for Pid {
    fn clone(&self) -> (r: Self)
        ensures
            r@ == self@,
    {
        Pid { node: self.node.clone(), id: self.id, creation: self.creation }
    }
}

impl Key for Pid {
    fn same(&self, other: &Self) -> (r: bool) {
        self.id == other.id && self.creation == other.creation && self.node == other.node
    }

    fn dup(&self) -> (r: Self) {
        self.clone()
    }
}

/// The view of an optional process identifier.
pub open spec fn pid_option(p: Option<Pid>) -> Option<PidView> {
    match p {
        Some(pid) => Some(pid@),
        None => None,
    }
}

/// A unique reference, such as that of a call waiting for its reply.
#[derive(Debug, Clone, Copy, PartialEq, Eq, Structural)]
pub struct Ref {
    raw: u64,
}

impl View for Ref {
    type V = u64;

    closed spec fn view(&self) -> u64 {
        self.raw
    }
}

impl Ref {
    /// The reference with the given number.
    pub fn from_raw(raw: u64) -> (r: Ref)
        ensures
            r@ == raw,
    {
        Ref { raw }
    }

    /// The number of the reference.
    pub fn as_raw(&self) -> (r: u64)
        ensures
            r == self@,
    {
        self.raw
    }
}

/// Flags that control how a process behaves.
#[derive(Debug, Clone, Copy, PartialEq, Eq, Structural)]
pub enum ProcessFlag {
    /// Exit signals from linked processes arrive as messages instead of ending the process.
    TrapExit,
}

/// What an exit reason stands for.
pub enum ExitReasonView {
    /// A normal end.
    Normal,
    /// An orderly shutdown.
    Shutdown,
    /// An error, with its text.
    Error(Seq<char>),
}

/// Why a process ended.
#[derive(Debug)]
pub enum ExitReason {
    /// A normal end.
    Normal,
    /// An orderly shutdown.
    Shutdown,
    /// An error, with its text.
    Error(String),
}

impl View for ExitReason {
    type V = ExitReasonView;

    open spec fn view(&self) -> ExitReasonView {
        match self {
            ExitReason::Normal => ExitReasonView::Normal,
            ExitReason::Shutdown => ExitReasonView::Shutdown,
            ExitReason::Error(text) => ExitReasonView::Error(text@),
        }
    }
}

impl Clone for ExitReason {
    fn clone(&self) -> (r: Self)
        ensures
            r@ == self@,
    {
        match self {
            ExitReason::Normal => ExitReason::Normal,
            ExitReason::Shutdown => ExitReason::Shutdown,
            ExitReason::Error(text) => ExitReason::Error(text.clone()),
        }
    }
}

/// How `std` writes a string for debugging: quoted, with its special characters escaped.
pub uninterp spec fn debug_text(s: Seq<char>) -> Seq<char>;

/// Formats a string by its `std::fmt::Debug`.
#[verifier::external_body]
fn debug_string(s: &str) -> (r: String)
    ensures
        r@ == debug_text(s@),
{
    format!("{:?}", s)
}

/// How an exit reason reads in a message to its caller.
pub open spec fn reason_text(reason: ExitReasonView) -> Seq<char> {
    match reason {
        ExitReasonView::Normal => "Normal"@,
        ExitReasonView::Shutdown => "Shutdown"@,
        ExitReasonView::Error(text) => "Error("@ + debug_text(text) + ")"@,
    }
}

impl ExitReason {
    /// The reason as text.
    pub fn describe(&self) -> (r: String)
        ensures
            r@ == reason_text(self@),
    {
        match self {
            ExitReason::Normal => "Normal".to_owned(),
            ExitReason::Shutdown => "Shutdown".to_owned(),
            ExitReason::Error(text) => {
                let inner = debug_string(text.as_str());
                crate::text::join3("Error(", inner.as_str(), ")")
            },
        }
    }
}

/// Why a message could not be decoded.
#[derive(Debug)]
pub enum DecodeError {
    /// The message is not well formed.
    InvalidData(String),
    /// The payload is not what `postcard` expects.
    Postcard(String),
    /// The payload is not the expected external term.
    Etf(String),
}

/// What a decoding error stands for.
pub enum DecodeErrorView {
    /// The message is not well formed.
    InvalidData(Seq<char>),
    /// The payload is not what `postcard` expects.
    Postcard(Seq<char>),
    /// The payload is not the expected external term.
    Etf(Seq<char>),
}

impl View for DecodeError {
    type V = DecodeErrorView;

    open spec fn view(&self) -> DecodeErrorView {
        match *self {
            DecodeError::InvalidData(text) => DecodeErrorView::InvalidData(text@),
            DecodeError::Postcard(text) => DecodeErrorView::Postcard(text@),
            DecodeError::Etf(text) => DecodeErrorView::Etf(text@),
        }
    }
}

/// How a decoding error reads.
pub open spec fn decode_text(e: DecodeErrorView) -> Seq<char> {
    match e {
        DecodeErrorView::InvalidData(text) => "invalid data: "@ + text,
        DecodeErrorView::Postcard(text) => "postcard error: "@ + text,
        DecodeErrorView::Etf(text) => "ETF error: "@ + text,
    }
}

impl DecodeError {
    /// The error as text.
    pub fn describe(&self) -> (r: String)
        ensures
            r@ == decode_text(self@),
    {
        match self {
            DecodeError::InvalidData(text) => crate::text::join2("invalid data: ", text.as_str()),
            DecodeError::Postcard(text) => crate::text::join2("postcard error: ", text.as_str()),
            DecodeError::Etf(text) => crate::text::join2("ETF error: ", text.as_str()),
        }
    }
}

} // verus!
