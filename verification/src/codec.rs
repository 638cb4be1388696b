//! The encoding of process identifiers and exit reasons, made of the pieces of plain values.

use vstd::prelude::*;
use vstd::utf8::*;

use crate::process::{ExitReason, ExitReasonView, Pid, PidView};
use crate::wire;

verus! {

/// A process identifier in bytes: node, number, incarnation.
pub open spec fn pid_wire(p: PidView) -> Seq<u8> {
    wire::postcard_str(p.node) + wire::postcard_u64(p.id) + wire::postcard_u32(p.creation)
}

/// The process identifier at the front of some bytes, with the bytes left over.
pub open spec fn pid_read(b: Seq<u8>) -> Option<(PidView, Seq<u8>)> {
    match wire::postcard_take_str(b) {
        None => None,
        Some((node, b1)) => match wire::postcard_take_u64(b1) {
            None => None,
            Some((id, b2)) => match wire::postcard_take_u32(b2) {
                None => None,
                Some((creation, b3)) => Some((PidView { node, id, creation }, b3)),
            },
        },
    }
}

/// What is wrong with bytes that do not begin with a process identifier.
pub open spec fn pid_fault(b: Seq<u8>) -> Seq<char> {
    match wire::postcard_take_str(b) {
        None => wire::postcard_str_fault(b),
        Some((_, b1)) => match wire::postcard_take_u64(b1) {
            None => wire::postcard_u64_fault(b1),
            Some((_, b2)) => wire::postcard_u32_fault(b2),
        },
    }
}

/// The identifier reads back from its bytes, whatever follows them.
pub open spec fn pid_reads_back(p: PidView) -> bool {
    forall|rest: Seq<u8>| #[trigger] pid_read(pid_wire(p) + rest) == Some((p, rest))
}

/// A process identifier reads back, if the length of its node's name can be counted.
pub proof fn law_pid_reads_back(p: PidView)
    requires
        encode_utf8(p.node).len() <= usize::MAX,
    ensures
        pid_reads_back(p),
{
    assert forall|rest: Seq<u8>| #[trigger] pid_read(pid_wire(p) + rest) == Some((p, rest)) by {
        let a = wire::postcard_str(p.node);
        let b = wire::postcard_u64(p.id);
        let c = wire::postcard_u32(p.creation);
        assert(pid_wire(p) + rest =~= a + (b + (c + rest)));
        wire::law_str_reads_back(p.node, b + (c + rest));
        wire::law_u64_reads_back(p.id, c + rest);
        wire::law_u32_reads_back(p.creation, rest);
    }
}

/// Appends a process identifier.
pub fn put_pid(out: &mut Vec<u8>, p: &Pid)
    ensures
        final(out)@ == old(out)@ + pid_wire(p@),
        pid_reads_back(p@),
{
    let ghost before = out@;
    let a = wire::put_str(p.node());
    let b = wire::put_u64(p.id());
    let c = wire::put_u32(p.creation());
    wire::append_bytes(out, a.as_slice());
    wire::append_bytes(out, b.as_slice());
    wire::append_bytes(out, c.as_slice());
    proof {
        assert(out@ =~= before + pid_wire(p@));
        assert forall|rest: Seq<u8>| #[trigger] pid_read(pid_wire(p@) + rest) == Some(
            (p@, rest),
        ) by {
            assert(pid_wire(p@) + rest =~= a@ + (b@ + (c@ + rest)));
        }
    }
}

/// Reads a process identifier.
pub fn take_pid(b: &[u8]) -> (r: Result<(Pid, &[u8]), String>)
    ensures
        match r {
            Ok((p, rest)) => pid_read(b@) == Some((p@, rest@)),
            Err(e) => pid_read(b@) is None && e@ == pid_fault(b@),
        },
{
    let (node, b1) = match wire::take_str(b) {
        Ok(x) => x,
        Err(e) => {
            return Err(e);
        },
    };
    let (id, b2) = match wire::take_u64(b1) {
        Ok(x) => x,
        Err(e) => {
            return Err(e);
        },
    };
    let (creation, b3) = match wire::take_u32(b2) {
        Ok(x) => x,
        Err(e) => {
            return Err(e);
        },
    };
    Ok((Pid::remote(node.as_str(), id, creation), b3))
}

/// An optional process identifier in bytes: a zero, or a one and the identifier.
pub open spec fn pid_option_wire(p: Option<PidView>) -> Seq<u8> {
    match p {
        None => wire::postcard_u8(0),
        Some(pid) => wire::postcard_u8(1) + pid_wire(pid),
    }
}

/// The optional process identifier at the front of some bytes, with the bytes left over.
pub open spec fn pid_option_read(b: Seq<u8>) -> Option<(Option<PidView>, Seq<u8>)> {
    match wire::postcard_take_u8(b) {
        None => None,
        Some((kind, b1)) => if kind == 0 {
            Some((None, b1))
        } else if kind == 1 {
            match pid_read(b1) {
                None => None,
                Some((pid, b2)) => Some((Some(pid), b2)),
            }
        } else {
            None
        },
    }
}

/// What is wrong with bytes that do not begin with an optional process identifier.
pub open spec fn pid_option_fault(b: Seq<u8>) -> Seq<char> {
    match wire::postcard_take_u8(b) {
        None => wire::postcard_u8_fault(b),
        Some((kind, b1)) => if kind == 1 {
            pid_fault(b1)
        } else {
            wire::BAD_OPTION@
        },
    }
}

/// The optional identifier reads back from its bytes, whatever follows them.
pub open spec fn pid_option_reads_back(p: Option<PidView>) -> bool {
    forall|rest: Seq<u8>| #[trigger] pid_option_read(pid_option_wire(p) + rest) == Some((p, rest))
}

/// An optional process identifier reads back, if the length of its node's name can be counted.
pub proof fn law_pid_option_reads_back(p: Option<PidView>)
    requires
        p matches Some(pid) ==> encode_utf8(pid.node).len() <= usize::MAX,
    ensures
        pid_option_reads_back(p),
{
    assert forall|rest: Seq<u8>| #[trigger]
        pid_option_read(pid_option_wire(p) + rest) == Some((p, rest)) by {
        match p {
            None => {
                wire::law_u8_reads_back(0, rest);
            },
            Some(pid) => {
                law_pid_reads_back(pid);
                wire::law_u8_reads_back(1, pid_wire(pid) + rest);
                assert(pid_option_wire(p) + rest =~= wire::postcard_u8(1) + (pid_wire(pid)
                    + rest));
                assert(pid_read(pid_wire(pid) + rest) == Some((pid, rest)));
            },
        }
    }
}

/// Appends an optional process identifier.
pub fn put_pid_option(out: &mut Vec<u8>, p: &Option<Pid>)
    ensures
        final(out)@ == old(out)@ + pid_option_wire(crate::process::pid_option(*p)),
        pid_option_reads_back(crate::process::pid_option(*p)),
{
    let ghost before = out@;
    match p {
        None => {
            let a = wire::put_u8(0);
            wire::append_bytes(out, a.as_slice());
        },
        Some(pid) => {
            let a = wire::put_u8(1);
            wire::append_bytes(out, a.as_slice());
            put_pid(out, pid);
            proof {
                assert(out@ =~= before + pid_option_wire(Some(pid@)));
                assert forall|rest: Seq<u8>| #[trigger]
                    pid_option_read(pid_option_wire(Some(pid@)) + rest) == Some(
                    (Some(pid@), rest),
                ) by {
                    assert(pid_option_wire(Some(pid@)) + rest =~= a@ + (pid_wire(pid@) + rest));
                }
            }
        },
    }
}

/// Reads an optional process identifier.
pub fn take_pid_option(b: &[u8]) -> (r: Result<(Option<Pid>, &[u8]), String>)
    ensures
        match r {
            Ok((p, rest)) => pid_option_read(b@) == Some((crate::process::pid_option(p), rest@)),
            Err(e) => pid_option_read(b@) is None && e@ == pid_option_fault(b@),
        },
{
    match wire::take_u8(b) {
        Err(e) => Err(e),
        Ok((kind, b1)) => if kind == 0 {
            Ok((None, b1))
        } else if kind == 1 {
            match take_pid(b1) {
                Err(e) => Err(e),
                Ok((pid, b2)) => Ok((Some(pid), b2)),
            }
        } else {
            Err(wire::BAD_OPTION.to_owned())
        },
    }
}

/// An exit reason in bytes: its variant, then the text of an error.
pub open spec fn reason_wire(reason: ExitReasonView) -> Seq<u8> {
    match reason {
        ExitReasonView::Normal => wire::postcard_u32(0),
        ExitReasonView::Shutdown => wire::postcard_u32(1),
        ExitReasonView::Error(text) => wire::postcard_u32(2) + wire::postcard_str(text),
    }
}

/// The exit reason at the front of some bytes, with the bytes left over.
pub open spec fn reason_read(b: Seq<u8>) -> Option<(ExitReasonView, Seq<u8>)> {
    match wire::postcard_take_u32(b) {
        None => None,
        Some((kind, b1)) => if kind == 0 {
            Some((ExitReasonView::Normal, b1))
        } else if kind == 1 {
            Some((ExitReasonView::Shutdown, b1))
        } else if kind == 2 {
            match wire::postcard_take_str(b1) {
                None => None,
                Some((text, b2)) => Some((ExitReasonView::Error(text), b2)),
            }
        } else {
            None
        },
    }
}

/// What is wrong with bytes that do not begin with an exit reason.
pub open spec fn reason_fault(b: Seq<u8>) -> Seq<char> {
    match wire::postcard_take_u32(b) {
        None => wire::postcard_u32_fault(b),
        Some((kind, b1)) => if kind == 2 {
            wire::postcard_str_fault(b1)
        } else {
            wire::BAD_VARIANT@
        },
    }
}

/// The reason reads back from its bytes, whatever follows them.
pub open spec fn reason_reads_back(reason: ExitReasonView) -> bool {
    forall|rest: Seq<u8>| #[trigger] reason_read(reason_wire(reason) + rest) == Some((reason, rest))
}

/// Appends an exit reason.
pub fn put_reason(out: &mut Vec<u8>, reason: &ExitReason)
    ensures
        final(out)@ == old(out)@ + reason_wire(reason@),
        reason_reads_back(reason@),
{
    let ghost before = out@;
    match reason {
        ExitReason::Normal => {
            let a = wire::put_u32(0);
            wire::append_bytes(out, a.as_slice());
        },
        ExitReason::Shutdown => {
            let a = wire::put_u32(1);
            wire::append_bytes(out, a.as_slice());
        },
        ExitReason::Error(text) => {
            let a = wire::put_u32(2);
            let b = wire::put_str(text.as_str());
            wire::append_bytes(out, a.as_slice());
            wire::append_bytes(out, b.as_slice());
            proof {
                assert(out@ =~= before + reason_wire(reason@));
                assert forall|rest: Seq<u8>| #[trigger]
                    reason_read(reason_wire(reason@) + rest) == Some((reason@, rest)) by {
                    assert(reason_wire(reason@) + rest =~= a@ + (b@ + rest));
                }
            }
        },
    }
}

/// Reads an exit reason.
pub fn take_reason(b: &[u8]) -> (r: Result<(ExitReason, &[u8]), String>)
    ensures
        match r {
            Ok((reason, rest)) => reason_read(b@) == Some((reason@, rest@)),
            Err(e) => reason_read(b@) is None && e@ == reason_fault(b@),
        },
{
    match wire::take_u32(b) {
        Err(e) => Err(e),
        Ok((kind, b1)) => if kind == 0 {
            Ok((ExitReason::Normal, b1))
        } else if kind == 1 {
            Ok((ExitReason::Shutdown, b1))
        } else if kind == 2 {
            match wire::take_str(b1) {
                Err(e) => Err(e),
                Ok((text, b2)) => Ok((ExitReason::Error(text), b2)),
            }
        } else {
            Err(wire::BAD_VARIANT.to_owned())
        },
    }
}

/// An optional number in bytes: a zero, or a one and the number.
pub open spec fn u64_option_wire(x: Option<u64>) -> Seq<u8> {
    match x {
        None => wire::postcard_u8(0),
        Some(v) => wire::postcard_u8(1) + wire::postcard_u64(v),
    }
}

/// The optional number at the front of some bytes, with the bytes left over.
pub open spec fn u64_option_read(b: Seq<u8>) -> Option<(Option<u64>, Seq<u8>)> {
    match wire::postcard_take_u8(b) {
        None => None,
        Some((kind, b1)) => if kind == 0 {
            Some((None, b1))
        } else if kind == 1 {
            match wire::postcard_take_u64(b1) {
                None => None,
                Some((v, b2)) => Some((Some(v), b2)),
            }
        } else {
            None
        },
    }
}

/// What is wrong with bytes that do not begin with an optional number.
pub open spec fn u64_option_fault(b: Seq<u8>) -> Seq<char> {
    match wire::postcard_take_u8(b) {
        None => wire::postcard_u8_fault(b),
        Some((kind, b1)) => if kind == 1 {
            wire::postcard_u64_fault(b1)
        } else {
            wire::BAD_OPTION@
        },
    }
}

/// The optional number reads back from its bytes, whatever follows them.
pub open spec fn u64_option_reads_back(x: Option<u64>) -> bool {
    forall|rest: Seq<u8>| #[trigger] u64_option_read(u64_option_wire(x) + rest) == Some((x, rest))
}

/// Appends an optional number.
pub fn put_u64_option(out: &mut Vec<u8>, x: &Option<u64>)
    ensures
        final(out)@ == old(out)@ + u64_option_wire(*x),
        u64_option_reads_back(*x),
{
    let ghost before = out@;
    match x {
        None => {
            let a = wire::put_u8(0);
            wire::append_bytes(out, a.as_slice());
        },
        Some(v) => {
            let a = wire::put_u8(1);
            let c = wire::put_u64(*v);
            wire::append_bytes(out, a.as_slice());
            wire::append_bytes(out, c.as_slice());
            proof {
                let y = *x;
                assert(out@ =~= before + u64_option_wire(y));
                assert forall|rest: Seq<u8>| #[trigger]
                    u64_option_read(u64_option_wire(y) + rest) == Some((y, rest)) by {
                    assert(u64_option_wire(y) + rest =~= a@ + (c@ + rest));
                }
            }
        },
    }
}

/// Reads an optional number.
pub fn take_u64_option(b: &[u8]) -> (r: Result<(Option<u64>, &[u8]), String>)
    ensures
        match r {
            Ok((x, rest)) => u64_option_read(b@) == Some((x, rest@)),
            Err(e) => u64_option_read(b@) is None && e@ == u64_option_fault(b@),
        },
{
    match wire::take_u8(b) {
        Err(e) => Err(e),
        Ok((kind, b1)) => if kind == 0 {
            Ok((None, b1))
        } else if kind == 1 {
            match wire::take_u64(b1) {
                Err(e) => Err(e),
                Ok((v, b2)) => Ok((Some(v), b2)),
            }
        } else {
            Err(wire::BAD_OPTION.to_owned())
        },
    }
}

/// An optional text in bytes: a zero, or a one and the text.
pub open spec fn text_option_wire(x: Option<Seq<char>>) -> Seq<u8> {
    match x {
        None => wire::postcard_u8(0),
        Some(v) => wire::postcard_u8(1) + wire::postcard_str(v),
    }
}

/// The optional text at the front of some bytes, with the bytes left over.
pub open spec fn text_option_read(b: Seq<u8>) -> Option<(Option<Seq<char>>, Seq<u8>)> {
    match wire::postcard_take_u8(b) {
        None => None,
        Some((kind, b1)) => if kind == 0 {
            Some((None, b1))
        } else if kind == 1 {
            match wire::postcard_take_str(b1) {
                None => None,
                Some((v, b2)) => Some((Some(v), b2)),
            }
        } else {
            None
        },
    }
}

/// What is wrong with bytes that do not begin with an optional text.
pub open spec fn text_option_fault(b: Seq<u8>) -> Seq<char> {
    match wire::postcard_take_u8(b) {
        None => wire::postcard_u8_fault(b),
        Some((kind, b1)) => if kind == 1 {
            wire::postcard_str_fault(b1)
        } else {
            wire::BAD_OPTION@
        },
    }
}

/// The optional text reads back from its bytes, whatever follows them.
pub open spec fn text_option_reads_back(x: Option<Seq<char>>) -> bool {
    forall|rest: Seq<u8>| #[trigger] text_option_read(text_option_wire(x) + rest) == Some((x, rest))
}

/// Appends an optional text.
pub fn put_text_option(out: &mut Vec<u8>, x: &Option<String>)
    ensures
        final(out)@ == old(out)@ + text_option_wire(crate::text::str_option(*x)),
        text_option_reads_back(crate::text::str_option(*x)),
{
    let ghost before = out@;
    match x {
        None => {
            let a = wire::put_u8(0);
            wire::append_bytes(out, a.as_slice());
        },
        Some(v) => {
            let a = wire::put_u8(1);
            let c = wire::put_str(v.as_str());
            wire::append_bytes(out, a.as_slice());
            wire::append_bytes(out, c.as_slice());
            proof {
                let y = crate::text::str_option(*x);
                assert(out@ =~= before + text_option_wire(y));
                assert forall|rest: Seq<u8>| #[trigger]
                    text_option_read(text_option_wire(y) + rest) == Some((y, rest)) by {
                    assert(text_option_wire(y) + rest =~= a@ + (c@ + rest));
                }
            }
        },
    }
}

/// Reads an optional text.
pub fn take_text_option(b: &[u8]) -> (r: Result<(Option<String>, &[u8]), String>)
    ensures
        match r {
            Ok((x, rest)) => text_option_read(b@) == Some((crate::text::str_option(x), rest@)),
            Err(e) => text_option_read(b@) is None && e@ == text_option_fault(b@),
        },
{
    match wire::take_u8(b) {
        Err(e) => Err(e),
        Ok((kind, b1)) => if kind == 0 {
            Ok((None, b1))
        } else if kind == 1 {
            match wire::take_str(b1) {
                Err(e) => Err(e),
                Ok((v, b2)) => Ok((Some(v), b2)),
            }
        } else {
            Err(wire::BAD_OPTION.to_owned())
        },
    }
}

} // verus!
