//! What the smaller building blocks promise: texts, frames, names and nodes.

use vstd::prelude::*;

use crate::channel::channels::Socket;
use crate::distribution::action::Action;
use crate::distribution::layer;
use crate::distribution::manager;
use crate::distribution::manager::{DistributionManager, NodeInfo};
use crate::distribution::protocol;
use crate::distribution::protocol::{DistError, DistMessage};
use crate::distribution::spawn;
use crate::distribution::spawn::SpawnRegistry;
use crate::gen_server::protocol as calls;
use crate::gen_server::server_ref::ServerRef;
use crate::gen_server::via::{AlreadyRegistered, Name, ViaRegistry};
use crate::names::NameTable;
use crate::node;
use crate::process;
use crate::process::{DecodeError, ExitReason, Pid, Ref};
use crate::store::access::StoreError;
use crate::text;
use crate::wire;

verus! {

/// Cutting a text at the first of a character gives the two parts around it: put together again
/// they are the text, and the character is not in the first one. It fails only where the
/// character is not in the text.
pub proof fn law_cut_parts_make_the_text(s: &str, c: char, r: Option<(&str, &str)>)
    requires
        call_ensures(text::split_once, (s, c), r),
    ensures
        match r {
            Some((a, b)) => s@ == a@ + seq![c] + b@ && !a@.contains(c),
            None => !s@.contains(c),
        },
{
    if s@.contains(c) {
        assert(s@.take(s@.len() as int) =~= s@);
        let i = lemma_first_place(s@, c, s@.len() as int);
        text::lemma_cut(s@, c, i);
        let a = s@.take(i);
        assert(s@ =~= a + seq![c] + s@.skip(i + 1));
        if a.contains(c) {
            let j = choose|j: int| 0 <= j < a.len() && a[j] == c;
            assert(s@[j] == c);
        }
    }
}

proof fn lemma_first_place(s: Seq<char>, c: char, n: int) -> (i: int)
    requires
        0 <= n <= s.len(),
        s.take(n).contains(c),
    ensures
        text::first_at(s, c, i),
        i < n,
    decreases n,
{
    let j = choose|j: int| 0 <= j < s.take(n).len() && s.take(n)[j] == c;
    if s.take(j).contains(c) {
        lemma_first_place(s, c, j)
    } else {
        assert forall|k: int| 0 <= k < j implies s[k] != c by {
            if s[k] == c {
                assert(s.take(j)[k] == c);
            }
        }
        j
    }
}

/// Cutting a text at the last of a character gives the two parts around it: put together again they
/// are the text, and the character is not in the second one.
pub proof fn law_last_cut_parts_make_the_text(s: &str, c: char, r: Option<(&str, &str)>)
    requires
        call_ensures(text::rsplit_once, (s, c), r),
    ensures
        match r {
            Some((a, b)) => s@ == a@ + seq![c] + b@ && !b@.contains(c),
            None => !s@.contains(c),
        },
{
    if s@.contains(c) {
        assert(s@.skip(0) =~= s@);
        let i = lemma_last_place(s@, c, 0);
        text::lemma_cut_last(s@, c, i);
        let b = s@.skip(i + 1);
        assert(s@ =~= s@.take(i) + seq![c] + b);
        if b.contains(c) {
            let j = choose|j: int| 0 <= j < b.len() && b[j] == c;
            assert(s@[i + 1 + j] == c);
        }
    }
}

proof fn lemma_last_place(s: Seq<char>, c: char, n: int) -> (i: int)
    requires
        0 <= n <= s.len(),
        s.skip(n).contains(c),
    ensures
        text::last_at(s, c, i),
    decreases s.len() - n,
{
    let j = choose|j: int| 0 <= j < s.skip(n).len() && s.skip(n)[j] == c;
    let at = n + j;
    if s.skip(at + 1).contains(c) {
        lemma_last_place(s, c, at + 1)
    } else {
        assert forall|k: int| at < k < s.len() implies s[k] != c by {
            if s[k] == c {
                assert(s.skip(at + 1)[k - at - 1] == c);
            }
        }
        at
    }
}

/// A number in decimal is that without its last digit, followed by the digit; below ten it is one
/// digit. Read again it is the number.
pub proof fn law_numbers_in_decimal(
    n: u64,
    r: String,
    high: String,
    back: Option<u64>,
    s: &str,
)
    requires
        call_ensures(text::decimal_string, (n,), r),
        call_ensures(text::decimal_string, ((n / 10) as u64,), high),
        s@ == r@,
        call_ensures(text::parse_u64, (s,), back),
    ensures
        n < 10 ==> r@ == seq!["0123456789"@[n as int]],
        n >= 10 ==> r@ == high@.push("0123456789"@[n as int % 10]),
        back == Some(n),
{
    text::law_decimal_reads_back(n);
    lemma_decimal_digit(n as int % 10);
}

proof fn lemma_decimal_digit(d: int)
    requires
        0 <= d < 10,
    ensures
        text::digit_char(d) == "0123456789"@[d],
        text::hex_char(d) == "0123456789abcdef"@[d],
{
    reveal_strlit("0123456789");
    reveal_strlit("0123456789abcdef");
    assert(d == 0 || d == 1 || d == 2 || d == 3 || d == 4 || d == 5 || d == 6 || d == 7 || d == 8
        || d == 9);
    assert("0123456789"@[d] as u32 == '0' as u32 + d);
    assert("0123456789abcdef"@[d] as u32 == '0' as u32 + d);
}

proof fn lemma_hex_digit(d: int)
    requires
        0 <= d < 16,
    ensures
        text::hex_char(d) == "0123456789abcdef"@[d],
{
    if d < 10 {
        lemma_decimal_digit(d);
    } else {
        reveal_strlit("0123456789abcdef");
        assert(d == 10 || d == 11 || d == 12 || d == 13 || d == 14 || d == 15);
        assert("0123456789abcdef"@[d] as u32 == 'a' as u32 + (d - 10));
    }
}

/// A number in hexadecimal is that without its last digit, followed by the digit; below sixteen it
/// is one digit.
pub proof fn law_numbers_in_hexadecimal(n: u64, r: String, high: String)
    requires
        call_ensures(text::hexadecimal_string, (n,), r),
        call_ensures(text::hexadecimal_string, ((n / 16) as u64,), high),
    ensures
        n < 16 ==> r@ == seq!["0123456789abcdef"@[n as int]],
        n >= 16 ==> r@ == high@.push("0123456789abcdef"@[n as int % 16]),
{
    lemma_hex_digit(n as int % 16);
}

/// A text that is read as a number stands for one where it is digits: a digit more makes it ten
/// times as much and the digit, where that fits; a sign in front makes no difference; anything
/// else, and nothing at all, stands for none.
pub proof fn law_digits_are_read(
    s: &str,
    more: &str,
    signed: &str,
    d: int,
    a: Option<u64>,
    b: Option<u64>,
    c: Option<u64>,
)
    requires
        call_ensures(text::parse_u64, (s,), a),
        call_ensures(text::parse_u64, (more,), b),
        call_ensures(text::parse_u64, (signed,), c),
        0 <= d < 10,
        more@ == s@.push("0123456789"@[d]),
        signed@ == seq!['+'] + s@,
    ensures
        s@.len() == 0 ==> a is None && b == Some(d as u64),
        a matches Some(n) ==> b == (if n * 10 + d <= u64::MAX {
            Some((n * 10 + d) as u64)
        } else {
            None
        }),
        s@.len() > 0 && s@[0] != '+' ==> c == a,
{
    lemma_decimal_digit(d);
    let x = "0123456789"@[d];
    reveal_strlit("0123456789");
    assert(x as u32 == '0' as u32 + d);
    assert(x != '+');
    assert(text::digit_value(x) == Some(d as nat));
    assert(signed@.skip(1) =~= s@);
    assert(signed@[0] == '+');
    let digits = if s@.len() > 0 && s@[0] == '+' {
        s@.skip(1)
    } else {
        s@
    };
    let longer = if more@.len() > 0 && more@[0] == '+' {
        more@.skip(1)
    } else {
        more@
    };
    if s@.len() > 0 {
        assert(more@[0] == s@[0]);
    }
    assert(longer =~= digits.push(x));
    assert(longer.drop_last() =~= digits);
    assert(longer.last() == x);
}

/// How reasons and errors read.
pub proof fn law_reasons_are_said(
    reason: &ExitReason,
    said: String,
    error: &DecodeError,
    told: String,
    refusal: &StoreError,
    shown: &'static str,
)
    requires
        call_ensures(ExitReason::describe, (reason,), said),
        call_ensures(DecodeError::describe, (error,), told),
        call_ensures(StoreError::describe, (refusal,), shown),
    ensures
        match *reason {
            ExitReason::Normal => said@ == "Normal"@,
            ExitReason::Shutdown => said@ == "Shutdown"@,
            ExitReason::Error(text) => said@ == "Error("@ + process::debug_text(text@) + ")"@,
        },
        match *error {
            DecodeError::InvalidData(text) => told@ == "invalid data: "@ + text@,
            DecodeError::Postcard(text) => told@ == "postcard error: "@ + text@,
            DecodeError::Etf(text) => told@ == "ETF error: "@ + text@,
        },
        match *refusal {
            StoreError::StoreDeleted => shown@ == "store has been deleted"@,
            StoreError::AccessDenied => shown@ == "access denied"@,
            StoreError::NameAlreadyRegistered => shown@ == "name already registered"@,
            StoreError::NotFound => shown@ == "store not found"@,
            StoreError::NoProcessContext => shown@ == "no process context available"@,
        },
{
}

/// A process that was registered under a free name, of this node or of all nodes, is found under
/// it; a name that is taken is refused and stays with the process that has it. Once the name is
/// given back, no process is found under it. Other names are not touched.
pub proof fn law_registered_name_is_found<R: ViaRegistry>(
    registry: &mut NameTable<Pid>,
    name: &Name<R>,
    given: String,
    pid: Pid,
    r: Result<(), AlreadyRegistered>,
    mid: &NameTable<Pid>,
    reference: ServerRef<R>,
    found: Option<Pid>,
    later: &mut NameTable<Pid>,
    after: &NameTable<Pid>,
    lost: Option<Pid>,
    other: Seq<char>,
)
    requires
        old(registry).wf(),
        *name == Name::<R>::Local(given) || *name == Name::<R>::Global(given),
        other != given@,
        call_ensures(crate::gen_server::via::register_name::<R>, (registry, name, pid), r),
        *mid == *final(registry),
        call_ensures(Name::<R>::into_ref, (*name,), reference),
        call_ensures(ServerRef::<R>::resolve, (&reference, mid), found),
        *old(later) == *final(registry),
        call_ensures(crate::gen_server::via::unregister_name::<R>, (later, name), ()),
        *after == *final(later),
        call_ensures(ServerRef::<R>::resolve, (&reference, after), lost),
    ensures
        r is Err <==> old(registry)@.contains_key(given@),
        found matches Some(p) && p@ == (if old(registry)@.contains_key(given@) {
            old(registry)@[given@]@
        } else {
            pid@
        }),
        lost is None,
        after@.contains_key(other) == old(registry)@.contains_key(other),
        old(registry)@.contains_key(other) ==> after@[other] == old(registry)@[other],
{
}

/// A function that is registered is found until it is taken out, and no other one is touched.
pub proof fn law_registered_function_is_found<F>(
    g: &mut SpawnRegistry<F>,
    module: &str,
    function: &str,
    f: F,
    mid: &SpawnRegistry<F>,
    found: Option<&F>,
    later: &mut SpawnRegistry<F>,
    was: bool,
    other: (Seq<char>, Seq<char>),
)
    requires
        old(g).wf(),
        other != (module@, function@),
        call_ensures(SpawnRegistry::<F>::register, (g, module, function, f), ()),
        *mid == *final(g),
        call_ensures(SpawnRegistry::<F>::get, (mid, module, function), found),
        *old(later) == *final(g),
        call_ensures(SpawnRegistry::<F>::unregister, (later, module, function), was),
    ensures
        found matches Some(h) && *h == f,
        was,
        !final(later)@.contains_key((module@, function@)),
        final(later)@.contains_key(other) == old(g)@.contains_key(other),
        old(g)@.contains_key(other) ==> final(later)@[other] == old(g)@[other],
{
}

/// Only a registered function is spawned: the new process is handed back, with a reference where
/// someone watches it. A function that is not registered is refused by its name.
pub proof fn law_only_registered_functions_are_spawned<F>(
    g: &SpawnRegistry<F>,
    module: &str,
    function: &str,
    spawned: Option<Pid>,
    watcher: Option<Pid>,
    fresh: Ref,
    r: Result<(Pid, Option<Ref>), String>,
)
    requires
        g.wf(),
        call_ensures(
            spawn::execute_spawn::<F>,
            (g, module, function, spawned, watcher, fresh),
            r,
        ),
    ensures
        r is Ok <==> g@.contains_key((module@, function@)) && spawned is Some,
        r matches Ok((pid, reference)) ==> Some(pid) == spawned && (reference == Some(fresh)
            <==> watcher is Some) && (reference is None <==> watcher is None),
        !g@.contains_key((module@, function@)) ==> (r matches Err(e) && e@ == "function "@ + module@
            + ":"@ + function@ + " not registered for remote spawn"@),
{
}

/// A frame is four bytes with the length of the payload, the highest byte first, and the payload.
pub proof fn law_frames_begin_with_their_length(payload: Vec<u8>, r: Vec<u8>)
    requires
        call_ensures(protocol::frame, (payload,), r),
        payload@.len() <= u32::MAX,
    ensures
        r@.len() == payload@.len() + 4,
        r@.skip(4) == payload@,
        payload@.len() == 16777216 * r@[0] + 65536 * r@[1] + 256 * r@[2] + r@[3],
{
    assert(r@.skip(4) =~= payload@);
    let n: int = payload@.len() as int;
    assert(n == 16777216 * (n / 16777216) + n % 16777216);
    assert(n / 16777216 % 256 == n / 16777216);
    assert(n % 16777216 == 65536 * (n / 65536 % 256) + 256 * (n / 256 % 256) + n % 256);
}

/// Every message between nodes begins with the number of its kind.
pub proof fn law_kinds_of_messages_have_numbers(msg: &DistMessage, r: Vec<u8>)
    requires
        call_ensures(protocol::encode_message, (msg,), r),
    ensures
        r@.len() > 0,
        r@[0] == (match *msg {
            DistMessage::Hello { .. } => 0u8,
            DistMessage::Welcome { .. } => 1u8,
            DistMessage::Send { .. } => 2u8,
            DistMessage::Ping { .. } => 3u8,
            DistMessage::Pong { .. } => 4u8,
            DistMessage::MonitorNode { .. } => 5u8,
            DistMessage::DemonitorNode { .. } => 6u8,
            DistMessage::NodeGoingDown { .. } => 7u8,
            DistMessage::GlobalRegistry { .. } => 8u8,
            DistMessage::ProcessGroups { .. } => 9u8,
            DistMessage::MonitorProcess { .. } => 10u8,
            DistMessage::DemonitorProcess { .. } => 11u8,
            DistMessage::ProcessDown { .. } => 12u8,
            DistMessage::Link { .. } => 13u8,
            DistMessage::Unlink { .. } => 14u8,
            DistMessage::Exit { .. } => 15u8,
            DistMessage::Spawn { .. } => 16u8,
            DistMessage::SpawnReply { .. } => 17u8,
        }),
{
    reveal(wire::postcard_u32);
}

/// Every message to a generic server begins with the number of its kind.
pub proof fn law_kinds_of_calls_have_numbers(msg: &calls::Message, r: Vec<u8>)
    requires
        call_ensures(calls::Message::encode, (msg,), r),
    ensures
        r@.len() > 0,
        r@[0] == (match *msg {
            calls::Message::Call { .. } => 0u8,
            calls::Message::Cast { .. } => 1u8,
            calls::Message::Reply { .. } => 2u8,
            calls::Message::Stop { .. } => 3u8,
            calls::Message::Timeout => 4u8,
            calls::Message::Continue { .. } => 5u8,
        }),
{
    reveal(wire::postcard_u32);
}

/// The reference of a join is its time and its number, both in hexadecimal.
pub proof fn law_join_references_are_made_of_time_and_number(
    pid: Pid,
    topic: &str,
    timestamp: u64,
    count: u64,
    r: Socket,
    a: String,
    b: String,
)
    requires
        call_ensures(Socket::new, (pid, topic, timestamp, count), r),
        call_ensures(text::hexadecimal_string, (timestamp,), a),
        call_ensures(text::hexadecimal_string, (count,), b),
    ensures
        r@.pid == pid@,
        r@.topic == topic@,
        r@.join_ref == a@ + "-"@ + b@,
{
}

/// Before distribution is started there is no node to disconnect, none is known, and none is
/// listed. After that, ending the connection to a node that is connected succeeds, and the node is
/// not connected any more; for another one it fails by its name.
pub proof fn law_nodes_are_disconnected_once(
    l: &mut Option<DistributionManager>,
    name: &str,
    r: (Result<(), DistError>, Vec<Action>),
    after: &Option<DistributionManager>,
    info: Option<NodeInfo>,
)
    requires
        layer::layer_wf(*old(l)),
        call_ensures(layer::disconnect, (l, name), r),
        *after == *final(l),
        call_ensures(layer::node_info, (after, name), info),
    ensures
        *old(l) is None ==> *final(l) is None && r.0 == Err::<(), DistError>(
            DistError::NotInitialized,
        ) && r.1@.len() == 0,
        *old(l) matches Some(m) ==> (r.0 is Ok <==> m@.nodes.contains_key(name@)
            || m@.erlang.contains_key(name@)) && (r.0 is Err ==> (r.0 matches Err(
            DistError::NotConnected(n),
        ) && n@ == name@)) && *final(l) is Some,
        info is None,
{
    assert(manager::actions(r.1@).len() == r.1@.len());
}

/// The nodes that are listed are the connected ones, with this one at the end where it is asked
/// for; hidden ones there are none.
pub proof fn law_listed_nodes(
    option: node::ListOption,
    connected: Vec<String>,
    current: String,
    r: Vec<String>,
)
    requires
        call_ensures(node::list, (option, connected, current), r),
    ensures
        option is Hidden ==> r@.len() == 0,
        option is Visible ==> r@.len() == connected@.len() + 1 && r@.last() == current
            && r@.drop_last() == connected@,
        option is Connected || option is Known || option is This ==> r@ == connected@,
{
    if option is Visible {
        assert(r@.drop_last() =~= connected@);
    }
}

} // verus!
