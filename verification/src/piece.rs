//! Values that can be put into bytes one after the other and read back: the pieces of larger
//! messages.

use vstd::prelude::*;

use crate::codec;
use crate::process::{Pid, PidView};
use crate::table;
use crate::table::Table;
use crate::wire;

verus! {

/// A value that reads back from its bytes, whatever follows them.
pub trait Piece: Sized + View {
    /// The value in bytes.
    spec fn wire(v: Self::V) -> Seq<u8>;

    /// The value at the front of some bytes, with the bytes left over; `None` if there is none.
    spec fn read(b: Seq<u8>) -> Option<(Self::V, Seq<u8>)>;

    /// What is wrong with bytes that do not begin with a value.
    spec fn fault(b: Seq<u8>) -> Seq<char>;

    /// Appends the value.
    fn put(&self, out: &mut Vec<u8>)
        ensures
            final(out)@ == old(out)@ + Self::wire(self@),
            forall|rest: Seq<u8>| #[trigger]
                Self::read(Self::wire(self@) + rest) == Some((self@, rest)),
    ;

    /// Reads the value.
    fn take(b: &[u8]) -> (r: Result<(Self, &[u8]), String>)
        ensures
            match r {
                Ok((x, rest)) => Self::read(b@) == Some((x@, rest@)),
                Err(e) => Self::read(b@) is None && e@ == Self::fault(b@),
            },
    ;
}

/// The value reads back from its bytes, whatever follows them.
pub open spec fn reads_back<T: Piece>(v: T::V) -> bool {
    forall|rest: Seq<u8>| #[trigger] T::read(T::wire(v) + rest) == Some((v, rest))
}

impl Piece for String {
    open spec fn wire(v: Seq<char>) -> Seq<u8> {
        wire::postcard_str(v)
    }

    open spec fn read(b: Seq<u8>) -> Option<(Seq<char>, Seq<u8>)> {
        wire::postcard_take_str(b)
    }

    open spec fn fault(b: Seq<u8>) -> Seq<char> {
        wire::postcard_str_fault(b)
    }

    fn put(&self, out: &mut Vec<u8>) {
        let w = wire::put_str(self.as_str());
        wire::append_bytes(out, w.as_slice());
    }

    fn take(b: &[u8]) -> (r: Result<(String, &[u8]), String>) {
        wire::take_str(b)
    }
}

impl Piece for u64 {
    open spec fn wire(v: u64) -> Seq<u8> {
        wire::postcard_u64(v)
    }

    open spec fn read(b: Seq<u8>) -> Option<(u64, Seq<u8>)> {
        wire::postcard_take_u64(b)
    }

    open spec fn fault(b: Seq<u8>) -> Seq<char> {
        wire::postcard_u64_fault(b)
    }

    fn put(&self, out: &mut Vec<u8>) {
        let w = wire::put_u64(*self);
        wire::append_bytes(out, w.as_slice());
    }

    fn take(b: &[u8]) -> (r: Result<(u64, &[u8]), String>) {
        wire::take_u64(b)
    }
}

impl Piece for Pid {
    open spec fn wire(v: PidView) -> Seq<u8> {
        codec::pid_wire(v)
    }

    open spec fn read(b: Seq<u8>) -> Option<(PidView, Seq<u8>)> {
        codec::pid_read(b)
    }

    open spec fn fault(b: Seq<u8>) -> Seq<char> {
        codec::pid_fault(b)
    }

    fn put(&self, out: &mut Vec<u8>) {
        codec::put_pid(out, self);
        assert(codec::pid_reads_back(self@));
        assert forall|rest: Seq<u8>| #[trigger] Self::read(Self::wire(self@) + rest) == Some(
            (self@, rest),
        ) by {
            assert(codec::pid_read(codec::pid_wire(self@) + rest) == Some((self@, rest)));
        }
    }

    fn take(b: &[u8]) -> (r: Result<(Pid, &[u8]), String>) {
        codec::take_pid(b)
    }
}

/// The items one after the other.
pub open spec fn items_wire<T: Piece>(s: Seq<T::V>) -> Seq<u8>
    decreases s.len(),
{
    if s.len() == 0 {
        Seq::empty()
    } else {
        items_wire::<T>(s.drop_last()) + T::wire(s.last())
    }
}

/// A list in bytes: how many items there are, then the items.
pub open spec fn list_wire<T: Piece>(s: Seq<T::V>) -> Seq<u8> {
    wire::postcard_u64(s.len() as u64) + items_wire::<T>(s)
}

/// `n` items at the front of some bytes, with the bytes left over.
pub open spec fn items_read<T: Piece>(b: Seq<u8>, n: nat) -> Option<(Seq<T::V>, Seq<u8>)>
    decreases n,
{
    if n == 0 {
        Some((Seq::empty(), b))
    } else {
        match items_read::<T>(b, (n - 1) as nat) {
            None => None,
            Some((s, rest)) => match T::read(rest) {
                None => None,
                Some((p, left)) => Some((s.push(p), left)),
            },
        }
    }
}

/// The list at the front of some bytes, with the bytes left over.
pub open spec fn list_read<T: Piece>(b: Seq<u8>) -> Option<(Seq<T::V>, Seq<u8>)> {
    match wire::postcard_take_u64(b) {
        None => None,
        Some((n, rest)) => items_read::<T>(rest, n as nat),
    }
}

/// What is wrong with bytes that do not begin with `n` items.
pub open spec fn items_fault<T: Piece>(b: Seq<u8>, n: nat) -> Seq<char>
    decreases n,
{
    if n == 0 {
        Seq::empty()
    } else {
        match items_read::<T>(b, (n - 1) as nat) {
            None => items_fault::<T>(b, (n - 1) as nat),
            Some((_, rest)) => T::fault(rest),
        }
    }
}

/// What is wrong with bytes that do not begin with a list.
pub open spec fn list_fault<T: Piece>(b: Seq<u8>) -> Seq<char> {
    match wire::postcard_take_u64(b) {
        None => wire::postcard_u64_fault(b),
        Some((n, rest)) => items_fault::<T>(rest, n as nat),
    }
}

/// The list reads back from its bytes, whatever follows them.
pub open spec fn list_reads_back<T: Piece>(s: Seq<T::V>) -> bool {
    forall|rest: Seq<u8>| #[trigger] list_read::<T>(list_wire::<T>(s) + rest) == Some((s, rest))
}

/// Items that read back one by one read back together.
proof fn lemma_items<T: Piece>(s: Seq<T::V>, rest: Seq<u8>)
    requires
        forall|i: int| 0 <= i < s.len() ==> reads_back::<T>(#[trigger] s[i]),
    ensures
        items_read::<T>(items_wire::<T>(s) + rest, s.len()) == Some((s, rest)),
    decreases s.len(),
{
    if s.len() == 0 {
        assert(items_wire::<T>(s) + rest =~= rest);
        assert(s =~= Seq::empty());
    } else {
        let front = s.drop_last();
        assert forall|i: int| 0 <= i < front.len() implies reads_back::<T>(#[trigger] front[i]) by {
            assert(front[i] == s[i]);
        }
        lemma_items::<T>(front, T::wire(s.last()) + rest);
        assert(items_wire::<T>(s) + rest =~= items_wire::<T>(front) + (T::wire(s.last()) + rest));
        assert(reads_back::<T>(s[s.len() - 1]));
        assert(front.push(s.last()) =~= s);
    }
}

/// Appends a list.
pub fn put_list<T: Piece>(out: &mut Vec<u8>, list: &Vec<T>)
    ensures
        final(out)@ == old(out)@ + list_wire::<T>(table::views(list@)),
        list_reads_back::<T>(table::views(list@)),
{
    let ghost all = table::views(list@);
    let ghost before = out@;
    let n: usize = list.len();
    let a = wire::put_u64(n as u64);
    wire::append_bytes(out, a.as_slice());
    let mut i: usize = 0;
    proof {
        assert(all.take(0) =~= Seq::empty());
        assert(out@ =~= before + (a@ + items_wire::<T>(all.take(0))));
    }
    while i < list.len()
        invariant
            i <= list@.len(),
            all == table::views(list@),
            out@ == before + (a@ + items_wire::<T>(all.take(i as int))),
            forall|j: int| 0 <= j < i ==> reads_back::<T>(#[trigger] all[j]),
        decreases list@.len() - i,
    {
        list[i].put(out);
        proof {
            assert(all[i as int] == list@[i as int]@);
            assert(all.take(i + 1).drop_last() =~= all.take(i as int));
            assert(all.take(i + 1).last() == all[i as int]);
            assert(out@ =~= before + (a@ + items_wire::<T>(all.take(i + 1))));
        }
        i = i + 1;
    }
    proof {
        assert(all.take(all.len() as int) =~= all);
        assert forall|rest: Seq<u8>| #[trigger] list_read::<T>(list_wire::<T>(all) + rest) == Some(
            (all, rest),
        ) by {
            assert(list_wire::<T>(all) + rest =~= a@ + (items_wire::<T>(all) + rest));
            lemma_items::<T>(all, rest);
        }
    }
}

/// Where fewer items cannot be read, more cannot either, for the same fault.
proof fn lemma_fewer<T: Piece>(b: Seq<u8>, k: nat, n: nat)
    requires
        k <= n,
        items_read::<T>(b, k) is None,
    ensures
        items_read::<T>(b, n) is None,
        items_fault::<T>(b, n) == items_fault::<T>(b, k),
    decreases n,
{
    if k < n {
        lemma_fewer::<T>(b, k, (n - 1) as nat);
    }
}

/// Reads a list.
pub fn take_list<T: Piece>(b: &[u8]) -> (r: Result<(Vec<T>, &[u8]), String>)
    ensures
        match r {
            Ok((s, rest)) => list_read::<T>(b@) == Some((table::views(s@), rest@)),
            Err(e) => list_read::<T>(b@) is None && e@ == list_fault::<T>(b@),
        },
{
    let (n, start) = match wire::take_u64(b) {
        Ok(x) => x,
        Err(e) => {
            return Err(e);
        },
    };
    let mut out: Vec<T> = Vec::new();
    let mut left = start;
    let mut i: u64 = 0;
    assert(table::views(out@) =~= Seq::empty());
    while i < n
        invariant
            i <= n,
            wire::postcard_take_u64(b@) == Some((n, start@)),
            items_read::<T>(start@, i as nat) == Some((table::views(out@), left@)),
        decreases n - i,
    {
        let ghost before = table::views(out@);
        match T::take(left) {
            Err(e) => {
                proof {
                    lemma_fewer::<T>(start@, (i + 1) as nat, n as nat);
                }
                return Err(e);
            },
            Ok((p, rest)) => {
                out.push(p);
                left = rest;
                assert(table::views(out@) =~= before.push(p@));
            },
        }
        i = i + 1;
    }
    Ok((out, left))
}

/// An optional value in bytes: a zero, or a one and the value.
pub open spec fn option_wire<T: Piece>(x: Option<T::V>) -> Seq<u8> {
    match x {
        None => wire::postcard_u8(0),
        Some(v) => wire::postcard_u8(1) + T::wire(v),
    }
}

/// The optional value at the front of some bytes, with the bytes left over.
pub open spec fn option_read<T: Piece>(b: Seq<u8>) -> Option<(Option<T::V>, Seq<u8>)> {
    match wire::postcard_take_u8(b) {
        None => None,
        Some((kind, b1)) => if kind == 0 {
            Some((None, b1))
        } else if kind == 1 {
            match T::read(b1) {
                None => None,
                Some((v, b2)) => Some((Some(v), b2)),
            }
        } else {
            None
        },
    }
}

/// What is wrong with bytes that do not begin with an optional value.
pub open spec fn option_fault<T: Piece>(b: Seq<u8>) -> Seq<char> {
    match wire::postcard_take_u8(b) {
        None => wire::postcard_u8_fault(b),
        Some((kind, b1)) => if kind == 1 {
            T::fault(b1)
        } else {
            wire::BAD_OPTION@
        },
    }
}

/// The optional value reads back from its bytes, whatever follows them.
pub open spec fn option_reads_back<T: Piece>(x: Option<T::V>) -> bool {
    forall|rest: Seq<u8>| #[trigger]
        option_read::<T>(option_wire::<T>(x) + rest) == Some((x, rest))
}

/// The view of an optional value.
pub open spec fn option_view<T: View>(x: Option<T>) -> Option<T::V> {
    match x {
        Some(v) => Some(v@),
        None => None,
    }
}

/// Appends an optional value.
pub fn put_option<T: Piece>(out: &mut Vec<u8>, x: &Option<T>)
    ensures
        final(out)@ == old(out)@ + option_wire::<T>(option_view(*x)),
        option_reads_back::<T>(option_view(*x)),
{
    let ghost before = out@;
    match x {
        None => {
            let a = wire::put_u8(0);
            wire::append_bytes(out, a.as_slice());
        },
        Some(v) => {
            let a = wire::put_u8(1);
            wire::append_bytes(out, a.as_slice());
            v.put(out);
            proof {
                assert(out@ =~= before + option_wire::<T>(Some(v@)));
                assert forall|rest: Seq<u8>| #[trigger]
                    option_read::<T>(option_wire::<T>(Some(v@)) + rest) == Some(
                    (Some(v@), rest),
                ) by {
                    assert(option_wire::<T>(Some(v@)) + rest =~= a@ + (T::wire(v@) + rest));
                }
            }
        },
    }
}

/// Reads an optional value.
pub fn take_option<T: Piece>(b: &[u8]) -> (r: Result<(Option<T>, &[u8]), String>)
    ensures
        match r {
            Ok((x, rest)) => option_read::<T>(b@) == Some((option_view(x), rest@)),
            Err(e) => option_read::<T>(b@) is None && e@ == option_fault::<T>(b@),
        },
{
    match wire::take_u8(b) {
        Err(e) => Err(e),
        Ok((kind, b1)) => if kind == 0 {
            Ok((None, b1))
        } else if kind == 1 {
            match T::take(b1) {
                Err(e) => Err(e),
                Ok((v, b2)) => Ok((Some(v), b2)),
            }
        } else {
            Err(wire::BAD_OPTION.to_owned())
        },
    }
}


/// A row of a dictionary.
pub struct Row<V: Piece> {
    /// The key.
    pub key: String,
    /// The value.
    pub value: V,
}

impl<V: Piece> View for Row<V> {
    type V = (Seq<char>, V::V);

    open spec fn view(&self) -> (Seq<char>, V::V) {
        (self.key@, self.value@)
    }
}

impl<V: Piece> Piece for Row<V> {
    open spec fn wire(v: (Seq<char>, V::V)) -> Seq<u8> {
        wire::postcard_str(v.0) + V::wire(v.1)
    }

    open spec fn read(b: Seq<u8>) -> Option<((Seq<char>, V::V), Seq<u8>)> {
        match wire::postcard_take_str(b) {
            None => None,
            Some((key, b1)) => match V::read(b1) {
                None => None,
                Some((value, b2)) => Some(((key, value), b2)),
            },
        }
    }

    open spec fn fault(b: Seq<u8>) -> Seq<char> {
        match wire::postcard_take_str(b) {
            None => wire::postcard_str_fault(b),
            Some((_, b1)) => V::fault(b1),
        }
    }

    fn put(&self, out: &mut Vec<u8>) {
        let ghost before = out@;
        let w = wire::put_str(self.key.as_str());
        wire::append_bytes(out, w.as_slice());
        self.value.put(out);
        proof {
            assert(out@ =~= before + Self::wire(self@));
            assert forall|rest: Seq<u8>| #[trigger] Self::read(Self::wire(self@) + rest) == Some(
                (self@, rest),
            ) by {
                assert(Self::wire(self@) + rest =~= w@ + (V::wire(self.value@) + rest));
            }
        }
    }

    fn take(b: &[u8]) -> (r: Result<(Self, &[u8]), String>) {
        match wire::take_str(b) {
            Err(e) => Err(e),
            Ok((key, b1)) => match V::take(b1) {
                Err(e) => Err(e),
                Ok((value, b2)) => Ok((Row { key, value }, b2)),
            },
        }
    }
}

/// The position of a key among some rows.
pub open spec fn position<T>(s: Seq<(Seq<char>, T)>, key: Seq<char>) -> Option<int> {
    if exists|i: int| 0 <= i < s.len() && (#[trigger] s[i]).0 == key {
        Some(choose|i: int| 0 <= i < s.len() && (#[trigger] s[i]).0 == key)
    } else {
        None
    }
}

/// The rows with a key given a value: in its place if the key is there, at the end if not.
pub open spec fn placed<T>(s: Seq<(Seq<char>, T)>, key: Seq<char>, value: T) -> Seq<
    (Seq<char>, T),
> {
    match position(s, key) {
        Some(i) => s.update(i, (key, value)),
        None => s.push((key, value)),
    }
}

/// The rows put in one after the other: of two rows with the same key the later counts.
pub open spec fn filed<T>(s: Seq<(Seq<char>, T)>) -> Seq<(Seq<char>, T)>
    decreases s.len(),
{
    if s.len() == 0 {
        Seq::empty()
    } else {
        placed(filed(s.drop_last()), s.last().0, s.last().1)
    }
}

/// No two rows have the same key.
pub open spec fn distinct<T>(s: Seq<(Seq<char>, T)>) -> bool {
    forall|i: int, j: int| 0 <= i < j < s.len() ==> (#[trigger] s[i]).0 != (#[trigger] s[j]).0
}

/// The value of a key.
pub open spec fn value_of<T>(s: Seq<(Seq<char>, T)>, key: Seq<char>) -> Option<T> {
    match position(s, key) {
        Some(i) => Some(s[i].1),
        None => None,
    }
}

/// The rows as a map.
pub open spec fn as_map<T>(s: Seq<(Seq<char>, T)>) -> Map<Seq<char>, T> {
    Map::new(|key: Seq<char>| value_of(s, key) is Some, |key: Seq<char>| value_of(s, key)->0)
}

/// The position of a row's key is the row.
pub proof fn lemma_position<T>(s: Seq<(Seq<char>, T)>, i: int)
    requires
        distinct(s),
        0 <= i < s.len(),
    ensures
        position(s, s[i].0) == Some(i),
{
    let j = choose|j: int| 0 <= j < s.len() && (#[trigger] s[j]).0 == s[i].0;
    assert(0 <= j < s.len() && s[j].0 == s[i].0);
    if i < j {
        assert(s[i].0 != s[j].0);
    } else if j < i {
        assert(s[j].0 != s[i].0);
    }
}

/// Putting a row in keeps the keys apart, gives the key its value and leaves the others alone.
pub proof fn lemma_placed<T>(s: Seq<(Seq<char>, T)>, key: Seq<char>, value: T)
    requires
        distinct(s),
    ensures
        distinct(placed(s, key, value)),
        value_of(placed(s, key, value), key) == Some(value),
        forall|other: Seq<char>|
            other != key ==> #[trigger] value_of(placed(s, key, value), other) == value_of(
                s,
                other,
            ),
{
    let t = placed(s, key, value);
    match position(s, key) {
        Some(i) => {
            assert forall|a: int, b: int| 0 <= a < b < t.len() implies (#[trigger] t[a]).0 != (
            #[trigger] t[b]).0 by {
                assert(t[a].0 == s[a].0);
                assert(t[b].0 == s[b].0);
            }
            lemma_position(t, i);
            assert forall|other: Seq<char>| other != key implies #[trigger] value_of(t, other)
                == value_of(s, other) by {
                if position(s, other) is Some {
                    let a = position(s, other)->0;
                    assert(t[a] == s[a]);
                    lemma_position(t, a);
                } else if position(t, other) is Some {
                    let a = position(t, other)->0;
                    assert(t[a] == s[a]);
                }
            }
        },
        None => {
            assert forall|a: int, b: int| 0 <= a < b < t.len() implies (#[trigger] t[a]).0 != (
            #[trigger] t[b]).0 by {
                assert(t[a] == s[a]);
                if b < s.len() {
                    assert(t[b] == s[b]);
                }
            }
            lemma_position(t, s.len() as int);
            assert forall|other: Seq<char>| other != key implies #[trigger] value_of(t, other)
                == value_of(s, other) by {
                if position(s, other) is Some {
                    let a = position(s, other)->0;
                    assert(t[a] == s[a]);
                    lemma_position(t, a);
                } else if position(t, other) is Some {
                    let a = position(t, other)->0;
                    assert(t[a] == s[a]);
                }
            }
        },
    }
}

/// Filing keeps the keys apart.
pub proof fn lemma_filed<T>(s: Seq<(Seq<char>, T)>)
    ensures
        distinct(filed(s)),
    decreases s.len(),
{
    if s.len() > 0 {
        lemma_filed(s.drop_last());
        lemma_placed(filed(s.drop_last()), s.last().0, s.last().1);
    }
}

/// Rows with distinct keys stay as they are.
pub proof fn lemma_filed_distinct<T>(s: Seq<(Seq<char>, T)>)
    requires
        distinct(s),
    ensures
        filed(s) == s,
    decreases s.len(),
{
    if s.len() == 0 {
        assert(filed(s) =~= s);
    } else {
        let front = s.drop_last();
        assert forall|i: int, j: int| 0 <= i < j < front.len() implies (#[trigger] front[i]).0 != (
        #[trigger] front[j]).0 by {
            assert(s[i].0 != s[j].0);
        }
        lemma_filed_distinct(front);
        if position(front, s.last().0) is Some {
            let i = position(front, s.last().0)->0;
            assert(s[i].0 != s[s.len() - 1].0);
        }
        assert(front.push(s.last()) =~= s);
    }
}

/// A dictionary: rows with distinct keys, in the order in which the keys were first put in.
pub struct Dict<V: Piece> {
    rows: Vec<Row<V>>,
}

impl<V: Piece> View for Dict<V> {
    type V = Seq<(Seq<char>, V::V)>;

    closed spec fn view(&self) -> Seq<(Seq<char>, V::V)> {
        table::views(self.rows@)
    }
}

impl<V: Piece> Dict<V> {
    #[verifier::type_invariant]
    spec fn apart(&self) -> bool {
        distinct(table::views(self.rows@))
    }

    /// A dictionary without rows.
    pub fn new() -> (r: Self)
        ensures
            r@ == Seq::<(Seq<char>, V::V)>::empty(),
    {
        let r = Dict { rows: Vec::new() };
        assert(r@ =~= Seq::<(Seq<char>, V::V)>::empty());
        r
    }

    /// The number of rows.
    pub fn len(&self) -> (r: usize)
        ensures
            r == self@.len(),
    {
        self.rows.len()
    }

    /// Whether there are no rows.
    pub fn is_empty(&self) -> (r: bool)
        ensures
            r == (self@.len() == 0),
    {
        self.rows.len() == 0
    }

    /// The key and the value of a row.
    pub fn row(&self, i: usize) -> (r: &Row<V>)
        requires
            i < self@.len(),
        ensures
            r@ == self@[i as int],
    {
        &self.rows[i]
    }

    /// The position of a key.
    fn find(&self, key: &str) -> (r: Option<usize>)
        ensures
            match r {
                Some(i) => i < self@.len() && position(self@, key@) == Some(i as int),
                None => position(self@, key@) is None,
            },
    {
        proof {
            use_type_invariant(self);
        }
        let ghost s = self@;
        let mut i: usize = 0;
        while i < self.rows.len()
            invariant
                i <= self.rows@.len(),
                s == table::views(self.rows@),
                s == self@,
                distinct(s),
                forall|j: int| 0 <= j < i ==> (#[trigger] s[j]).0 != key@,
            decreases self.rows@.len() - i,
        {
            assert(s[i as int] == self.rows@[i as int]@);
            if crate::text::same_str(self.rows[i].key.as_str(), key) {
                proof {
                    lemma_position(s, i as int);
                }
                return Some(i);
            }
            i = i + 1;
        }
        None
    }

    /// The value of a key.
    pub fn get(&self, key: &str) -> (r: Option<&V>)
        ensures
            match r {
                Some(v) => value_of(self@, key@) == Some(v@),
                None => value_of(self@, key@) is None,
            },
    {
        match self.find(key) {
            Some(i) => Some(&self.rows[i].value),
            None => None,
        }
    }

    /// Gives a key a value.
    pub fn insert(&mut self, key: String, value: V)
        ensures
            final(self)@ == placed(old(self)@, key@, value@),
            distinct(final(self)@),
    {
        proof {
            use_type_invariant(&*self);
            lemma_placed(self@, key@, value@);
        }
        let ghost before = self@;
        let at = self.find(key.as_str());
        let mut rows: Vec<Row<V>> = Vec::new();
        std::mem::swap(&mut rows, &mut self.rows);
        assert(table::views(rows@) == before);
        let ghost view = (key@, value@);
        let row = Row { key, value };
        match at {
            Some(i) => {
                let _ = table::replace_row(&mut rows, i, row);
                assert(table::views(rows@) =~= before.update(i as int, view));
            },
            None => {
                rows.push(row);
                assert(table::views(rows@) =~= before.push(view));
            },
        }
        self.rows = rows;
    }

    /// The rows put in one after the other.
    pub fn of_rows(list: Vec<Row<V>>) -> (r: Self)
        ensures
            r@ == filed(table::views(list@)),
    {
        let ghost all = table::views(list@);
        let mut r: Dict<V> = Dict::new();
        assert(all.take(0) =~= Seq::empty());
        for row in it: list
            invariant
                it.seq() == list@,
                all == table::views(list@),
                r@ == filed(all.take(it.index() as int)),
        {
            let ghost i = it.index() as int;
            proof {
                assert(all[i] == row@);
                assert(all.take(i + 1).drop_last() =~= all.take(i));
                assert(all.take(i + 1).last() == all[i]);
            }
            r.insert(row.key, row.value);
        }
        assert(all.take(all.len() as int) =~= all);
        r
    }

    /// The rows.
    pub fn into_rows(self) -> (r: Vec<Row<V>>)
        ensures
            table::views(r@) == self@,
            distinct(self@),
    {
        proof {
            use_type_invariant(&self);
        }
        self.rows
    }
}

impl<V: Piece> Piece for Dict<V> {
    open spec fn wire(v: Seq<(Seq<char>, V::V)>) -> Seq<u8> {
        list_wire::<Row<V>>(v)
    }

    open spec fn read(b: Seq<u8>) -> Option<(Seq<(Seq<char>, V::V)>, Seq<u8>)> {
        match list_read::<Row<V>>(b) {
            None => None,
            Some((s, rest)) => Some((filed(s), rest)),
        }
    }

    open spec fn fault(b: Seq<u8>) -> Seq<char> {
        list_fault::<Row<V>>(b)
    }

    fn put(&self, out: &mut Vec<u8>) {
        proof {
            use_type_invariant(self);
            lemma_filed_distinct(self@);
        }
        put_list(out, &self.rows);
        assert forall|rest: Seq<u8>| #[trigger] Self::read(Self::wire(self@) + rest) == Some(
            (self@, rest),
        ) by {
            assert(list_read::<Row<V>>(list_wire::<Row<V>>(self@) + rest) == Some((self@, rest)));
        }
    }

    fn take(b: &[u8]) -> (r: Result<(Self, &[u8]), String>) {
        match take_list::<Row<V>>(b) {
            Err(e) => Err(e),
            Ok((list, rest)) => Ok((Dict::of_rows(list), rest)),
        }
    }
}

impl Dict<u64> {
    /// A dictionary with the rows of a table.
    pub fn of_table(t: &Table<String, u64>) -> (r: Self)
        requires
            t.wf(),
        ensures
            as_map(r@) == t@,
    {
        let mut r: Dict<u64> = Dict::new();
        let mut i: usize = 0;
        let ghost rows = t.rows@;
        while i < t.rows.len()
            invariant
                i <= t.rows@.len(),
                rows == t.rows@,
                t.wf(),
                r@.len() == i,
                distinct(r@),
                forall|j: int| 0 <= j < i ==> #[trigger] r@[j] == (rows[j].0@, rows[j].1),
            decreases t.rows@.len() - i,
        {
            let ghost before = r@;
            proof {
                if position(before, rows[i as int].0@) is Some {
                    let j = position(before, rows[i as int].0@)->0;
                    assert(before[j] == (rows[j].0@, rows[j].1));
                    assert(rows[j].0@ != rows[i as int].0@);
                }
            }
            r.insert(t.rows[i].0.clone(), t.rows[i].1);
            i = i + 1;
        }
        proof {
            lemma_same_map(r@, rows);
        }
        r
    }

    /// The rows as a table.
    pub fn into_table(self) -> (r: Table<String, u64>)
        ensures
            r.wf(),
            r@ == as_map(self@),
    {
        let ghost s = self@;
        let list = self.into_rows();
        let mut rows: Vec<(String, u64)> = Vec::new();
        for row in it: list
            invariant
                it.seq() == list@,
                s == table::views(list@),
                rows@.len() == it.index(),
                forall|j: int|
                    0 <= j < it.index() ==> s[j] == ((#[trigger] rows@[j]).0@, rows@[j].1),
        {
            assert(s[it.index() as int] == row@);
            rows.push((row.key, row.value));
        }
        let r = Table { rows };
        proof {
            assert forall|a: int, b: int| 0 <= a < b < r.rows@.len() implies #[trigger] r.rows@[a].0@
                != #[trigger] r.rows@[b].0@ by {
                assert(s[a].0 != s[b].0);
            }
            lemma_same_map(s, r.rows@);
        }
        r
    }
}

/// Rows that agree one by one give the same map.
proof fn lemma_same_map(s: Seq<(Seq<char>, u64)>, rows: Seq<(String, u64)>)
    requires
        distinct(s),
        table::distinct_keys(rows),
        s.len() == rows.len(),
        forall|j: int| 0 <= j < s.len() ==> #[trigger] s[j] == (rows[j].0@, rows[j].1),
    ensures
        as_map(s) == table::row_map(rows),
{
    let m = table::row_map(rows);
    let n = as_map(s);
    assert forall|k: Seq<char>| m.contains_key(k) == n.contains_key(k) by {
        if m.contains_key(k) {
            let a = table::lemma_key(rows, k);
            assert(s[a].0 == k);
            lemma_position(s, a);
        }
        if n.contains_key(k) {
            let a = position(s, k)->0;
            assert(s[a] == (rows[a].0@, rows[a].1));
            table::lemma_row(rows, a);
        }
    }
    assert forall|k: Seq<char>| m.contains_key(k) implies m[k] == n[k] by {
        let a = table::lemma_key(rows, k);
        assert(s[a] == (rows[a].0@, rows[a].1));
        lemma_position(s, a);
    }
    assert(m =~= n);
}

} // verus!
