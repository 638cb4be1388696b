//! The compact binary encoding of plain values, by the `postcard` crate.
//!
//! Larger messages are made of these pieces, one after the other: `postcard` writes the fields of
//! a struct and the items of a tuple without anything between them.

use vstd::prelude::*;
use vstd::utf8::*;

verus! {

/// What `postcard` says of bytes that end too early.
pub const UNEXPECTED_END: &'static str = "Hit the end of buffer, expected more data";

/// What `postcard` says of a number that does not end, or is too great.
pub const BAD_NUMBER: &'static str =
    "Found a varint that didn't terminate. Is the usize too big for this platform?";

/// What `postcard` says of a truth value that is neither.
pub const BAD_BOOL: &'static str = "Found a bool that wasn't 0 or 1";

/// What `postcard` says of a text that is not in UTF-8.
pub const BAD_TEXT: &'static str = "Tried to parse invalid utf-8";

/// What `postcard` says of an optional value that is neither there nor absent.
pub const BAD_OPTION: &'static str = "Found an Option discriminant that wasn't 0 or 1";

/// What `postcard` says of a variant that there is not.
pub const BAD_VARIANT: &'static str = "Serde Deserialization Error";

/// A number in groups of seven bits, the lowest first. Every group but the last has its high bit
/// set.
pub open spec fn varint(n: nat) -> Seq<u8>
    decreases n,
{
    if n < 128 {
        seq![n as u8]
    } else {
        seq![(128 + n % 128) as u8] + varint(n / 128)
    }
}

/// The number that some bytes begin with, in at most `most` groups, and the bytes left over.
pub open spec fn unvarint(b: Seq<u8>, most: nat) -> Option<(nat, Seq<u8>)>
    decreases most,
{
    if most == 0 || b.len() == 0 {
        None
    } else if b[0] < 128 {
        Some((b[0] as nat, b.skip(1)))
    } else {
        match unvarint(b.skip(1), (most - 1) as nat) {
            Some((n, rest)) => Some(((b[0] - 128) as nat + 128 * n, rest)),
            None => None,
        }
    }
}

/// The number that some bytes begin with, if it is no greater than `limit`.
pub open spec fn number(b: Seq<u8>, most: nat, limit: nat) -> Option<(nat, Seq<u8>)> {
    match unvarint(b, most) {
        Some((n, rest)) => if n <= limit {
            Some((n, rest))
        } else {
            None
        },
        None => None,
    }
}

/// What is wrong with bytes that do not begin with a number in at most `most` groups: they end
/// too early, or the number does not end or is too great.
pub open spec fn number_fault(b: Seq<u8>, most: nat) -> Seq<char> {
    if b.len() < most {
        UNEXPECTED_END@
    } else {
        BAD_NUMBER@
    }
}

/// The length that some bytes begin with.
pub open spec fn length(b: Seq<u8>) -> Option<(nat, Seq<u8>)> {
    if usize::MAX <= u32::MAX {
        number(b, 5, usize::MAX as nat)
    } else {
        number(b, 10, usize::MAX as nat)
    }
}

/// What is wrong with bytes that do not begin with a length.
pub open spec fn length_fault(b: Seq<u8>) -> Seq<char> {
    if usize::MAX <= u32::MAX {
        number_fault(b, 5)
    } else {
        number_fault(b, 10)
    }
}

/// The place of a signed number among 0, -1, 1, -2, 2 and so on.
pub open spec fn zigzag(x: int) -> nat {
    if x >= 0 {
        (2 * x) as nat
    } else {
        (-2 * x - 1) as nat
    }
}

/// The signed number at a place among 0, -1, 1, -2, 2 and so on.
pub open spec fn unzigzag(n: nat) -> int {
    if n % 2 == 0 {
        n as int / 2
    } else {
        -((n as int + 1) / 2)
    }
}

/// How many numbers fit into `most` groups of seven bits.
spec fn room(most: nat) -> nat
    decreases most,
{
    if most == 0 {
        1
    } else {
        128 * room((most - 1) as nat)
    }
}

proof fn lemma_unvarint(n: nat, most: nat, rest: Seq<u8>)
    requires
        most > 0,
        n < room(most),
    ensures
        unvarint(varint(n) + rest, most) == Some((n, rest)),
    decreases most,
{
    let b = varint(n) + rest;
    if n < 128 {
        assert(b[0] == n as u8);
        assert(b.skip(1) =~= rest);
    } else {
        let more = varint(n / 128);
        assert(varint(n) == seq![(128 + n % 128) as u8] + more);
        assert(b[0] == (128 + n % 128) as u8);
        assert(b.skip(1) =~= more + rest);
        reveal_with_fuel(room, 2);
        assert(most > 1);
        lemma_unvarint(n / 128, (most - 1) as nat, rest);
        assert(n == (n % 128) + 128 * (n / 128));
    }
}

proof fn lemma_room()
    ensures
        room(3) > u16::MAX,
        room(5) > u32::MAX,
        room(10) > u64::MAX,
{
    reveal_with_fuel(room, 11);
}

proof fn lemma_length(n: nat, rest: Seq<u8>)
    requires
        n <= usize::MAX,
    ensures
        length(varint(n) + rest) == Some((n, rest)),
{
    lemma_room();
    if usize::MAX <= u32::MAX {
        lemma_unvarint(n, 5, rest);
    } else {
        lemma_unvarint(n, 10, rest);
    }
}

/// A `u8` in bytes: itself.
#[verifier::opaque]
pub open spec fn postcard_u8(x: u8) -> Seq<u8> {
    seq![x]
}

/// A `u8` that some bytes begin with, and the bytes left over: there has to be one byte.
#[verifier::opaque]
pub open spec fn postcard_take_u8(b: Seq<u8>) -> Option<(u8, Seq<u8>)> {
    if b.len() == 0 {
        None
    } else {
        Some((b[0], b.skip(1)))
    }
}

/// What is wrong with bytes that do not begin with a `u8`.
pub open spec fn postcard_u8_fault(b: Seq<u8>) -> Seq<char> {
    UNEXPECTED_END@
}

/// Calls `postcard::to_allocvec`, which cannot fail on a `u8`.
#[verifier::external_body]
fn written_u8(x: u8) -> (r: Vec<u8>)
    ensures
        r@ == postcard_u8(x),
{
    postcard::to_allocvec(&x).unwrap()
}

/// A `u8` reads back from its bytes, whatever follows them.
pub proof fn law_u8_reads_back(x: u8, rest: Seq<u8>)
    ensures
        postcard_take_u8(postcard_u8(x) + rest) == Some((x, rest)),
{
    reveal(postcard_u8);
    reveal(postcard_take_u8);
    assert((postcard_u8(x) + rest).skip(1) =~= rest);
}

/// A `u8` in bytes. What was written reads back, whatever follows it.
pub(crate) fn put_u8(x: u8) -> (r: Vec<u8>)
    ensures
        r@ == postcard_u8(x),
        forall|rest: Seq<u8>| #[trigger] postcard_take_u8(r@ + rest) == Some((x, rest)),
{
    let r = written_u8(x);
    proof {
        assert forall|rest: Seq<u8>| #[trigger] postcard_take_u8(r@ + rest) == Some(
            (x, rest),
        ) by {
            law_u8_reads_back(x, rest);
        }
    }
    r
}

/// Calls `postcard::take_from_bytes` for a `u8`, and takes an error as what it says.
#[verifier::external_body]
pub(crate) fn take_u8(b: &[u8]) -> (r: Result<(u8, &[u8]), String>)
    ensures
        match r {
            Ok((x, rest)) => postcard_take_u8(b@) == Some((x, rest@)),
            Err(e) => postcard_take_u8(b@) is None && e@ == postcard_u8_fault(b@),
        },
{
    postcard::take_from_bytes::<u8>(b).map_err(|e| e.to_string())
}

/// An `i8` in bytes: one byte, in two's complement.
#[verifier::opaque]
pub open spec fn postcard_i8(x: i8) -> Seq<u8> {
    seq![
        if x >= 0 {
            x as u8
        } else {
            (x + 256) as u8
        },
    ]
}

/// An `i8` that some bytes begin with, and the bytes left over: there has to be one byte.
#[verifier::opaque]
pub open spec fn postcard_take_i8(b: Seq<u8>) -> Option<(i8, Seq<u8>)> {
    if b.len() == 0 {
        None
    } else if b[0] < 128 {
        Some((b[0] as i8, b.skip(1)))
    } else {
        Some(((b[0] - 256) as i8, b.skip(1)))
    }
}

/// What is wrong with bytes that do not begin with an `i8`.
pub open spec fn postcard_i8_fault(b: Seq<u8>) -> Seq<char> {
    UNEXPECTED_END@
}

/// Calls `postcard::to_allocvec`, which cannot fail on an `i8`.
#[verifier::external_body]
fn written_i8(x: i8) -> (r: Vec<u8>)
    ensures
        r@ == postcard_i8(x),
{
    postcard::to_allocvec(&x).unwrap()
}

/// An `i8` reads back from its bytes, whatever follows them.
pub proof fn law_i8_reads_back(x: i8, rest: Seq<u8>)
    ensures
        postcard_take_i8(postcard_i8(x) + rest) == Some((x, rest)),
{
    reveal(postcard_i8);
    reveal(postcard_take_i8);
    assert((postcard_i8(x) + rest).skip(1) =~= rest);
}

/// An `i8` in bytes. What was written reads back, whatever follows it.
pub(crate) fn put_i8(x: i8) -> (r: Vec<u8>)
    ensures
        r@ == postcard_i8(x),
        forall|rest: Seq<u8>| #[trigger] postcard_take_i8(r@ + rest) == Some((x, rest)),
{
    let r = written_i8(x);
    proof {
        assert forall|rest: Seq<u8>| #[trigger] postcard_take_i8(r@ + rest) == Some(
            (x, rest),
        ) by {
            law_i8_reads_back(x, rest);
        }
    }
    r
}

/// Calls `postcard::take_from_bytes` for an `i8`, and takes an error as what it says.
#[verifier::external_body]
pub(crate) fn take_i8(b: &[u8]) -> (r: Result<(i8, &[u8]), String>)
    ensures
        match r {
            Ok((x, rest)) => postcard_take_i8(b@) == Some((x, rest@)),
            Err(e) => postcard_take_i8(b@) is None && e@ == postcard_i8_fault(b@),
        },
{
    postcard::take_from_bytes::<i8>(b).map_err(|e| e.to_string())
}

/// A `bool` in bytes: one byte, 0 or 1.
#[verifier::opaque]
pub open spec fn postcard_bool(x: bool) -> Seq<u8> {
    seq![
        if x {
            1u8
        } else {
            0u8
        },
    ]
}

/// A `bool` that some bytes begin with, and the bytes left over: there has to be one byte, 0 or 1.
#[verifier::opaque]
pub open spec fn postcard_take_bool(b: Seq<u8>) -> Option<(bool, Seq<u8>)> {
    if b.len() == 0 || b[0] > 1 {
        None
    } else {
        Some((b[0] == 1, b.skip(1)))
    }
}

/// What is wrong with bytes that do not begin with a `bool`.
pub open spec fn postcard_bool_fault(b: Seq<u8>) -> Seq<char> {
    if b.len() == 0 {
        UNEXPECTED_END@
    } else {
        BAD_BOOL@
    }
}

/// Calls `postcard::to_allocvec`, which cannot fail on a `bool`.
#[verifier::external_body]
fn written_bool(x: bool) -> (r: Vec<u8>)
    ensures
        r@ == postcard_bool(x),
{
    postcard::to_allocvec(&x).unwrap()
}

/// A `bool` reads back from its bytes, whatever follows them.
pub proof fn law_bool_reads_back(x: bool, rest: Seq<u8>)
    ensures
        postcard_take_bool(postcard_bool(x) + rest) == Some((x, rest)),
{
    reveal(postcard_bool);
    reveal(postcard_take_bool);
    assert((postcard_bool(x) + rest).skip(1) =~= rest);
}

/// A `bool` in bytes. What was written reads back, whatever follows it.
pub(crate) fn put_bool(x: bool) -> (r: Vec<u8>)
    ensures
        r@ == postcard_bool(x),
        forall|rest: Seq<u8>| #[trigger] postcard_take_bool(r@ + rest) == Some((x, rest)),
{
    let r = written_bool(x);
    proof {
        assert forall|rest: Seq<u8>| #[trigger] postcard_take_bool(r@ + rest) == Some(
            (x, rest),
        ) by {
            law_bool_reads_back(x, rest);
        }
    }
    r
}

/// Calls `postcard::take_from_bytes` for a `bool`, and takes an error as what it says.
#[verifier::external_body]
pub(crate) fn take_bool(b: &[u8]) -> (r: Result<(bool, &[u8]), String>)
    ensures
        match r {
            Ok((x, rest)) => postcard_take_bool(b@) == Some((x, rest@)),
            Err(e) => postcard_take_bool(b@) is None && e@ == postcard_bool_fault(b@),
        },
{
    postcard::take_from_bytes::<bool>(b).map_err(|e| e.to_string())
}

/// A `u16` in bytes: groups of seven bits.
#[verifier::opaque]
pub open spec fn postcard_u16(x: u16) -> Seq<u8> {
    varint(x as nat)
}

/// A `u16` that some bytes begin with, and the bytes left over: at most three groups, and no greater number.
#[verifier::opaque]
pub open spec fn postcard_take_u16(b: Seq<u8>) -> Option<(u16, Seq<u8>)> {
    match number(b, 3, u16::MAX as nat) {
        Some((n, rest)) => Some((n as u16, rest)),
        None => None,
    }
}

/// What is wrong with bytes that do not begin with a `u16`.
pub open spec fn postcard_u16_fault(b: Seq<u8>) -> Seq<char> {
    number_fault(b, 3)
}

/// Calls `postcard::to_allocvec`, which cannot fail on a `u16`.
#[verifier::external_body]
fn written_u16(x: u16) -> (r: Vec<u8>)
    ensures
        r@ == postcard_u16(x),
{
    postcard::to_allocvec(&x).unwrap()
}

/// A `u16` reads back from its bytes, whatever follows them.
pub proof fn law_u16_reads_back(x: u16, rest: Seq<u8>)
    ensures
        postcard_take_u16(postcard_u16(x) + rest) == Some((x, rest)),
{
    reveal(postcard_u16);
    reveal(postcard_take_u16);
    lemma_room();
    lemma_unvarint(x as nat, 3, rest);
}

/// A `u16` in bytes. What was written reads back, whatever follows it.
pub(crate) fn put_u16(x: u16) -> (r: Vec<u8>)
    ensures
        r@ == postcard_u16(x),
        forall|rest: Seq<u8>| #[trigger] postcard_take_u16(r@ + rest) == Some((x, rest)),
{
    let r = written_u16(x);
    proof {
        assert forall|rest: Seq<u8>| #[trigger] postcard_take_u16(r@ + rest) == Some(
            (x, rest),
        ) by {
            law_u16_reads_back(x, rest);
        }
    }
    r
}

/// Calls `postcard::take_from_bytes` for a `u16`, and takes an error as what it says.
#[verifier::external_body]
pub(crate) fn take_u16(b: &[u8]) -> (r: Result<(u16, &[u8]), String>)
    ensures
        match r {
            Ok((x, rest)) => postcard_take_u16(b@) == Some((x, rest@)),
            Err(e) => postcard_take_u16(b@) is None && e@ == postcard_u16_fault(b@),
        },
{
    postcard::take_from_bytes::<u16>(b).map_err(|e| e.to_string())
}

/// A `u32` in bytes: groups of seven bits.
#[verifier::opaque]
pub open spec fn postcard_u32(x: u32) -> Seq<u8> {
    varint(x as nat)
}

/// A `u32` that some bytes begin with, and the bytes left over: at most five groups, and no greater number.
#[verifier::opaque]
pub open spec fn postcard_take_u32(b: Seq<u8>) -> Option<(u32, Seq<u8>)> {
    match number(b, 5, u32::MAX as nat) {
        Some((n, rest)) => Some((n as u32, rest)),
        None => None,
    }
}

/// What is wrong with bytes that do not begin with a `u32`.
pub open spec fn postcard_u32_fault(b: Seq<u8>) -> Seq<char> {
    number_fault(b, 5)
}

/// Calls `postcard::to_allocvec`, which cannot fail on a `u32`.
#[verifier::external_body]
fn written_u32(x: u32) -> (r: Vec<u8>)
    ensures
        r@ == postcard_u32(x),
{
    postcard::to_allocvec(&x).unwrap()
}

/// A `u32` reads back from its bytes, whatever follows them.
pub proof fn law_u32_reads_back(x: u32, rest: Seq<u8>)
    ensures
        postcard_take_u32(postcard_u32(x) + rest) == Some((x, rest)),
{
    reveal(postcard_u32);
    reveal(postcard_take_u32);
    lemma_room();
    lemma_unvarint(x as nat, 5, rest);
}

/// A `u32` in bytes. What was written reads back, whatever follows it.
pub(crate) fn put_u32(x: u32) -> (r: Vec<u8>)
    ensures
        r@ == postcard_u32(x),
        forall|rest: Seq<u8>| #[trigger] postcard_take_u32(r@ + rest) == Some((x, rest)),
{
    let r = written_u32(x);
    proof {
        assert forall|rest: Seq<u8>| #[trigger] postcard_take_u32(r@ + rest) == Some(
            (x, rest),
        ) by {
            law_u32_reads_back(x, rest);
        }
    }
    r
}

/// Calls `postcard::take_from_bytes` for a `u32`, and takes an error as what it says.
#[verifier::external_body]
pub(crate) fn take_u32(b: &[u8]) -> (r: Result<(u32, &[u8]), String>)
    ensures
        match r {
            Ok((x, rest)) => postcard_take_u32(b@) == Some((x, rest@)),
            Err(e) => postcard_take_u32(b@) is None && e@ == postcard_u32_fault(b@),
        },
{
    postcard::take_from_bytes::<u32>(b).map_err(|e| e.to_string())
}

/// A `u64` in bytes: groups of seven bits.
#[verifier::opaque]
pub open spec fn postcard_u64(x: u64) -> Seq<u8> {
    varint(x as nat)
}

/// A `u64` that some bytes begin with, and the bytes left over: at most ten groups, and no greater number.
#[verifier::opaque]
pub open spec fn postcard_take_u64(b: Seq<u8>) -> Option<(u64, Seq<u8>)> {
    match number(b, 10, u64::MAX as nat) {
        Some((n, rest)) => Some((n as u64, rest)),
        None => None,
    }
}

/// What is wrong with bytes that do not begin with a `u64`.
pub open spec fn postcard_u64_fault(b: Seq<u8>) -> Seq<char> {
    number_fault(b, 10)
}

/// Calls `postcard::to_allocvec`, which cannot fail on a `u64`.
#[verifier::external_body]
fn written_u64(x: u64) -> (r: Vec<u8>)
    ensures
        r@ == postcard_u64(x),
{
    postcard::to_allocvec(&x).unwrap()
}

/// A `u64` reads back from its bytes, whatever follows them.
pub proof fn law_u64_reads_back(x: u64, rest: Seq<u8>)
    ensures
        postcard_take_u64(postcard_u64(x) + rest) == Some((x, rest)),
{
    reveal(postcard_u64);
    reveal(postcard_take_u64);
    lemma_room();
    lemma_unvarint(x as nat, 10, rest);
}

/// A `u64` in bytes. What was written reads back, whatever follows it.
pub(crate) fn put_u64(x: u64) -> (r: Vec<u8>)
    ensures
        r@ == postcard_u64(x),
        forall|rest: Seq<u8>| #[trigger] postcard_take_u64(r@ + rest) == Some((x, rest)),
{
    let r = written_u64(x);
    proof {
        assert forall|rest: Seq<u8>| #[trigger] postcard_take_u64(r@ + rest) == Some(
            (x, rest),
        ) by {
            law_u64_reads_back(x, rest);
        }
    }
    r
}

/// Calls `postcard::take_from_bytes` for a `u64`, and takes an error as what it says.
#[verifier::external_body]
pub(crate) fn take_u64(b: &[u8]) -> (r: Result<(u64, &[u8]), String>)
    ensures
        match r {
            Ok((x, rest)) => postcard_take_u64(b@) == Some((x, rest@)),
            Err(e) => postcard_take_u64(b@) is None && e@ == postcard_u64_fault(b@),
        },
{
    postcard::take_from_bytes::<u64>(b).map_err(|e| e.to_string())
}

/// An `i16` in bytes: its place among 0, -1, 1, -2, 2 and so on, in groups of seven bits.
#[verifier::opaque]
pub open spec fn postcard_i16(x: i16) -> Seq<u8> {
    varint(zigzag(x as int))
}

/// An `i16` that some bytes begin with, and the bytes left over: at most three groups, and no greater place.
#[verifier::opaque]
pub open spec fn postcard_take_i16(b: Seq<u8>) -> Option<(i16, Seq<u8>)> {
    match number(b, 3, u16::MAX as nat) {
        Some((n, rest)) => Some((unzigzag(n) as i16, rest)),
        None => None,
    }
}

/// What is wrong with bytes that do not begin with an `i16`.
pub open spec fn postcard_i16_fault(b: Seq<u8>) -> Seq<char> {
    number_fault(b, 3)
}

/// Calls `postcard::to_allocvec`, which cannot fail on an `i16`.
#[verifier::external_body]
fn written_i16(x: i16) -> (r: Vec<u8>)
    ensures
        r@ == postcard_i16(x),
{
    postcard::to_allocvec(&x).unwrap()
}

/// An `i16` reads back from its bytes, whatever follows them.
pub proof fn law_i16_reads_back(x: i16, rest: Seq<u8>)
    ensures
        postcard_take_i16(postcard_i16(x) + rest) == Some((x, rest)),
{
    reveal(postcard_i16);
    reveal(postcard_take_i16);
    lemma_room();
    lemma_unvarint(zigzag(x as int), 3, rest);
    assert(unzigzag(zigzag(x as int)) == x);
}

/// An `i16` in bytes. What was written reads back, whatever follows it.
pub(crate) fn put_i16(x: i16) -> (r: Vec<u8>)
    ensures
        r@ == postcard_i16(x),
        forall|rest: Seq<u8>| #[trigger] postcard_take_i16(r@ + rest) == Some((x, rest)),
{
    let r = written_i16(x);
    proof {
        assert forall|rest: Seq<u8>| #[trigger] postcard_take_i16(r@ + rest) == Some(
            (x, rest),
        ) by {
            law_i16_reads_back(x, rest);
        }
    }
    r
}

/// Calls `postcard::take_from_bytes` for an `i16`, and takes an error as what it says.
#[verifier::external_body]
pub(crate) fn take_i16(b: &[u8]) -> (r: Result<(i16, &[u8]), String>)
    ensures
        match r {
            Ok((x, rest)) => postcard_take_i16(b@) == Some((x, rest@)),
            Err(e) => postcard_take_i16(b@) is None && e@ == postcard_i16_fault(b@),
        },
{
    postcard::take_from_bytes::<i16>(b).map_err(|e| e.to_string())
}

/// An `i32` in bytes: its place among 0, -1, 1, -2, 2 and so on, in groups of seven bits.
#[verifier::opaque]
pub open spec fn postcard_i32(x: i32) -> Seq<u8> {
    varint(zigzag(x as int))
}

/// An `i32` that some bytes begin with, and the bytes left over: at most five groups, and no greater place.
#[verifier::opaque]
pub open spec fn postcard_take_i32(b: Seq<u8>) -> Option<(i32, Seq<u8>)> {
    match number(b, 5, u32::MAX as nat) {
        Some((n, rest)) => Some((unzigzag(n) as i32, rest)),
        None => None,
    }
}

/// What is wrong with bytes that do not begin with an `i32`.
pub open spec fn postcard_i32_fault(b: Seq<u8>) -> Seq<char> {
    number_fault(b, 5)
}

/// Calls `postcard::to_allocvec`, which cannot fail on an `i32`.
#[verifier::external_body]
fn written_i32(x: i32) -> (r: Vec<u8>)
    ensures
        r@ == postcard_i32(x),
{
    postcard::to_allocvec(&x).unwrap()
}

/// An `i32` reads back from its bytes, whatever follows them.
pub proof fn law_i32_reads_back(x: i32, rest: Seq<u8>)
    ensures
        postcard_take_i32(postcard_i32(x) + rest) == Some((x, rest)),
{
    reveal(postcard_i32);
    reveal(postcard_take_i32);
    lemma_room();
    lemma_unvarint(zigzag(x as int), 5, rest);
    assert(unzigzag(zigzag(x as int)) == x);
}

/// An `i32` in bytes. What was written reads back, whatever follows it.
pub(crate) fn put_i32(x: i32) -> (r: Vec<u8>)
    ensures
        r@ == postcard_i32(x),
        forall|rest: Seq<u8>| #[trigger] postcard_take_i32(r@ + rest) == Some((x, rest)),
{
    let r = written_i32(x);
    proof {
        assert forall|rest: Seq<u8>| #[trigger] postcard_take_i32(r@ + rest) == Some(
            (x, rest),
        ) by {
            law_i32_reads_back(x, rest);
        }
    }
    r
}

/// Calls `postcard::take_from_bytes` for an `i32`, and takes an error as what it says.
#[verifier::external_body]
pub(crate) fn take_i32(b: &[u8]) -> (r: Result<(i32, &[u8]), String>)
    ensures
        match r {
            Ok((x, rest)) => postcard_take_i32(b@) == Some((x, rest@)),
            Err(e) => postcard_take_i32(b@) is None && e@ == postcard_i32_fault(b@),
        },
{
    postcard::take_from_bytes::<i32>(b).map_err(|e| e.to_string())
}

/// An `i64` in bytes: its place among 0, -1, 1, -2, 2 and so on, in groups of seven bits.
#[verifier::opaque]
pub open spec fn postcard_i64(x: i64) -> Seq<u8> {
    varint(zigzag(x as int))
}

/// An `i64` that some bytes begin with, and the bytes left over: at most ten groups, and no greater place.
#[verifier::opaque]
pub open spec fn postcard_take_i64(b: Seq<u8>) -> Option<(i64, Seq<u8>)> {
    match number(b, 10, u64::MAX as nat) {
        Some((n, rest)) => Some((unzigzag(n) as i64, rest)),
        None => None,
    }
}

/// What is wrong with bytes that do not begin with an `i64`.
pub open spec fn postcard_i64_fault(b: Seq<u8>) -> Seq<char> {
    number_fault(b, 10)
}

/// Calls `postcard::to_allocvec`, which cannot fail on an `i64`.
#[verifier::external_body]
fn written_i64(x: i64) -> (r: Vec<u8>)
    ensures
        r@ == postcard_i64(x),
{
    postcard::to_allocvec(&x).unwrap()
}

/// An `i64` reads back from its bytes, whatever follows them.
pub proof fn law_i64_reads_back(x: i64, rest: Seq<u8>)
    ensures
        postcard_take_i64(postcard_i64(x) + rest) == Some((x, rest)),
{
    reveal(postcard_i64);
    reveal(postcard_take_i64);
    lemma_room();
    lemma_unvarint(zigzag(x as int), 10, rest);
    assert(unzigzag(zigzag(x as int)) == x);
}

/// An `i64` in bytes. What was written reads back, whatever follows it.
pub(crate) fn put_i64(x: i64) -> (r: Vec<u8>)
    ensures
        r@ == postcard_i64(x),
        forall|rest: Seq<u8>| #[trigger] postcard_take_i64(r@ + rest) == Some((x, rest)),
{
    let r = written_i64(x);
    proof {
        assert forall|rest: Seq<u8>| #[trigger] postcard_take_i64(r@ + rest) == Some(
            (x, rest),
        ) by {
            law_i64_reads_back(x, rest);
        }
    }
    r
}

/// Calls `postcard::take_from_bytes` for an `i64`, and takes an error as what it says.
#[verifier::external_body]
pub(crate) fn take_i64(b: &[u8]) -> (r: Result<(i64, &[u8]), String>)
    ensures
        match r {
            Ok((x, rest)) => postcard_take_i64(b@) == Some((x, rest@)),
            Err(e) => postcard_take_i64(b@) is None && e@ == postcard_i64_fault(b@),
        },
{
    postcard::take_from_bytes::<i64>(b).map_err(|e| e.to_string())
}

/// A string in bytes: the length of its UTF-8, then its UTF-8.
#[verifier::opaque]
pub open spec fn postcard_str(s: Seq<char>) -> Seq<u8> {
    varint(encode_utf8(s).len()) + encode_utf8(s)
}

/// A string that some bytes begin with, and the bytes left over: the bytes have to be there, and to be valid UTF-8.
#[verifier::opaque]
pub open spec fn postcard_take_str(b: Seq<u8>) -> Option<(Seq<char>, Seq<u8>)> {
    match length(b) {
        Some((n, rest)) => if n <= rest.len() && valid_utf8(rest.take(n as int)) {
            Some((decode_utf8(rest.take(n as int)), rest.skip(n as int)))
        } else {
            None
        },
        None => None,
    }
}

/// What is wrong with bytes that do not begin with a string.
pub open spec fn postcard_str_fault(b: Seq<u8>) -> Seq<char> {
    match length(b) {
        None => length_fault(b),
        Some((n, rest)) => if n > rest.len() {
            UNEXPECTED_END@
        } else {
            BAD_TEXT@
        },
    }
}

/// Calls `postcard::to_allocvec`, which cannot fail on a string.
#[verifier::external_body]
fn written_str(s: &str) -> (r: Vec<u8>)
    ensures
        r@ == postcard_str(s@),
{
    postcard::to_allocvec(s).unwrap()
}

/// A string reads back from its bytes, whatever follows them.
pub proof fn law_str_reads_back(s: Seq<char>, rest: Seq<u8>)
    requires
        encode_utf8(s).len() <= usize::MAX,
    ensures
        postcard_take_str(postcard_str(s) + rest) == Some((s, rest)),
{
    broadcast use {encode_utf8_valid_utf8, encode_utf8_decode_utf8};

    reveal(postcard_str);
    reveal(postcard_take_str);
    let name = encode_utf8(s);
    lemma_length(name.len(), name + rest);
    assert(postcard_str(s) + rest =~= varint(name.len()) + (name + rest));
    assert((name + rest).take(name.len() as int) =~= name);
    assert((name + rest).skip(name.len() as int) =~= rest);
}

/// A string in bytes. What was written reads back, whatever follows it.
pub(crate) fn put_str(s: &str) -> (r: Vec<u8>)
    ensures
        r@ == postcard_str(s@),
        forall|rest: Seq<u8>| #[trigger] postcard_take_str(r@ + rest) == Some((s@, rest)),
{
    let r = written_str(s);
    let n: usize = s.as_bytes().len();
    assert(encode_utf8(s@).len() == n);
    proof {
        assert forall|rest: Seq<u8>| #[trigger] postcard_take_str(r@ + rest) == Some(
            (s@, rest),
        ) by {
            law_str_reads_back(s@, rest);
        }
    }
    r
}

/// Calls `postcard::take_from_bytes` for a string, and takes an error as what it says.
#[verifier::external_body]
pub(crate) fn take_str(b: &[u8]) -> (r: Result<(String, &[u8]), String>)
    ensures
        match r {
            Ok((s, rest)) => postcard_take_str(b@) == Some((s@, rest@)),
            Err(e) => postcard_take_str(b@) is None && e@ == postcard_str_fault(b@),
        },
{
    postcard::take_from_bytes::<String>(b).map_err(|e| e.to_string())
}

/// A byte vector in bytes: their number, then the bytes.
#[verifier::opaque]
pub open spec fn postcard_bytes(s: Seq<u8>) -> Seq<u8> {
    varint(s.len()) + s
}

/// A byte vector that some bytes begin with, and the bytes left over: the bytes have to be there.
#[verifier::opaque]
pub open spec fn postcard_take_bytes(b: Seq<u8>) -> Option<(Seq<u8>, Seq<u8>)> {
    match length(b) {
        Some((n, rest)) => if n <= rest.len() {
            Some((rest.take(n as int), rest.skip(n as int)))
        } else {
            None
        },
        None => None,
    }
}

/// What is wrong with bytes that do not begin with a byte vector.
pub open spec fn postcard_bytes_fault(b: Seq<u8>) -> Seq<char> {
    match length(b) {
        None => length_fault(b),
        Some(_) => UNEXPECTED_END@,
    }
}

/// Calls `postcard::to_allocvec`, which cannot fail on a byte vector.
#[verifier::external_body]
fn written_bytes(s: &[u8]) -> (r: Vec<u8>)
    ensures
        r@ == postcard_bytes(s@),
{
    postcard::to_allocvec(s).unwrap()
}

/// A byte vector reads back from its bytes, whatever follows them.
pub proof fn law_bytes_reads_back(s: Seq<u8>, rest: Seq<u8>)
    requires
        s.len() <= usize::MAX,
    ensures
        postcard_take_bytes(postcard_bytes(s) + rest) == Some((s, rest)),
{
    reveal(postcard_bytes);
    reveal(postcard_take_bytes);
    lemma_length(s.len(), s + rest);
    assert(postcard_bytes(s) + rest =~= varint(s.len()) + (s + rest));
    assert((s + rest).take(s.len() as int) =~= s);
    assert((s + rest).skip(s.len() as int) =~= rest);
}

/// A byte vector in bytes. What was written reads back, whatever follows it.
pub(crate) fn put_bytes(s: &[u8]) -> (r: Vec<u8>)
    ensures
        r@ == postcard_bytes(s@),
        forall|rest: Seq<u8>| #[trigger] postcard_take_bytes(r@ + rest) == Some((s@, rest)),
{
    let r = written_bytes(s);
    let n: usize = s.len();
    assert(s@.len() == n);
    proof {
        assert forall|rest: Seq<u8>| #[trigger] postcard_take_bytes(r@ + rest) == Some(
            (s@, rest),
        ) by {
            law_bytes_reads_back(s@, rest);
        }
    }
    r
}

/// Calls `postcard::take_from_bytes` for a byte vector, and takes an error as what it says.
#[verifier::external_body]
pub(crate) fn take_bytes(b: &[u8]) -> (r: Result<(Vec<u8>, &[u8]), String>)
    ensures
        match r {
            Ok((s, rest)) => postcard_take_bytes(b@) == Some((s@, rest@)),
            Err(e) => postcard_take_bytes(b@) is None && e@ == postcard_bytes_fault(b@),
        },
{
    postcard::take_from_bytes::<Vec<u8>>(b).map_err(|e| e.to_string())
}

/// Appends `more` to `out`.
pub fn append_bytes(out: &mut Vec<u8>, more: &[u8])
    ensures
        final(out)@ == old(out)@ + more@,
{
    let ghost before = out@;
    out.extend_from_slice(more);
    assert(out@ =~= before + more@);
}

/// A byte vector with the given content.
pub fn bytes_of(b: &[u8]) -> (r: Vec<u8>)
    ensures
        r@ == b@,
{
    let mut r: Vec<u8> = Vec::new();
    append_bytes(&mut r, b);
    assert(Seq::<u8>::empty() + b@ =~= b@);
    r
}

} // verus!
