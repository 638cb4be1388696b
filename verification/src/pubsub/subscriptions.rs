//! Who has subscribed to what, and who is sent a broadcast.

use vstd::prelude::*;

use crate::channel::channels;
use crate::process::{Pid, PidView};
use crate::table;
use crate::table::Key;
use crate::text;

verus! {

/// The subscriptions of the processes of this node.
pub struct Subscriptions {
    rows: Vec<(String, Pid)>,
}

/// Whether a subscription is one to a topic.
pub open spec fn to_topic(topic: Seq<char>) -> spec_fn((Seq<char>, PidView)) -> bool {
    |s: (Seq<char>, PidView)| s.0 == topic
}

/// Whether a subscription is another than that of a process to a topic.
pub open spec fn not_this(topic: Seq<char>, pid: PidView) -> spec_fn((Seq<char>, PidView)) -> bool {
    |s: (Seq<char>, PidView)| s != (topic, pid)
}

/// Whether a subscription is one of another process.
pub open spec fn not_of(pid: PidView) -> spec_fn((Seq<char>, PidView)) -> bool {
    |s: (Seq<char>, PidView)| s.1 != pid
}

/// Whether a subscription is one of a process.
pub open spec fn is_of(pid: PidView) -> spec_fn((Seq<char>, PidView)) -> bool {
    |s: (Seq<char>, PidView)| s.1 == pid
}

/// The topics that a process has subscribed to, in the order of the subscriptions.
pub open spec fn topics_of(s: Seq<(Seq<char>, PidView)>, pid: PidView) -> Seq<Seq<char>> {
    s.filter(is_of(pid)).map_values(|e: (Seq<char>, PidView)| e.0)
}

/// The processes of some subscriptions.
pub open spec fn pids_of(s: Seq<(Seq<char>, PidView)>) -> Seq<PidView> {
    s.map_values(|e: (Seq<char>, PidView)| e.1)
}

/// The subscribers of a topic, in the order of the subscriptions.
pub open spec fn subscribers_of(s: Seq<(Seq<char>, PidView)>, topic: Seq<char>) -> Seq<PidView> {
    pids_of(s.filter(to_topic(topic)))
}

/// The processes that a broadcast goes to: all, or all but one.
pub open spec fn receivers(members: Seq<PidView>, exclude: Option<PidView>) -> Seq<PidView> {
    match exclude {
        Some(pid) => channels::others(members, pid),
        None => members,
    }
}

impl View for Subscriptions {
    type V = Seq<(Seq<char>, PidView)>;

    closed spec fn view(&self) -> Seq<(Seq<char>, PidView)> {
        Seq::new(self.rows@.len(), |i: int| (self.rows@[i].0@, self.rows@[i].1@))
    }
}

impl Subscriptions {
    /// No subscriptions.
    pub fn new() -> (r: Self)
        ensures
            r@ == Seq::<(Seq<char>, PidView)>::empty(),
    {
        let r = Subscriptions { rows: Vec::new() };
        assert(r@ =~= Seq::<(Seq<char>, PidView)>::empty());
        r
    }

    /// Adds a subscription.
    pub fn register(&mut self, topic: String, pid: Pid)
        ensures
            final(self)@ == old(self)@.push((topic@, pid@)),
    {
        self.rows.push((topic, pid));
        assert(self@ =~= old(self)@.push((topic@, pid@)));
    }

    /// Takes out the subscriptions of a process to a topic.
    pub fn unregister(&mut self, topic: &str, pid: &Pid)
        ensures
            final(self)@ == old(self)@.filter(not_this(topic@, pid@)),
    {
        let ghost all = self@;
        let ghost p = not_this(topic@, pid@);
        let mut rows: Vec<(String, Pid)> = Vec::new();
        std::mem::swap(&mut rows, &mut self.rows);
        let ghost taken = rows@;
        proof {
            reveal(Seq::filter);
            assert(all.take(0) =~= Seq::empty());
            assert(self@ =~= all.take(0).filter(p));
        }
        for row in it: rows
            invariant
                it.seq() == taken,
                all.len() == taken.len(),
                p == not_this(topic@, pid@),
                forall|i: int| 0 <= i < all.len() ==> #[trigger] all[i] == (
                    taken[i].0@,
                    taken[i].1@
                ),
                self@ == all.take(it.index() as int).filter(p),
        {
            let ghost i = it.index() as int;
            let ghost before = self@;
            proof {
                assert(all.take(i + 1) =~= all.take(i).push(all[i]));
                all.take(i).lemma_filter_push(all[i], p);
                assert(all[i] == (row.0@, row.1@));
            }
            let same = text::same_str(row.0.as_str(), topic) && row.1.same(pid);
            if !same {
                self.rows.push(row);
                assert(self@ =~= before.push(all[i]));
            }
        }
        assert(all.take(all.len() as int) =~= all);
    }

    /// Takes out the subscriptions of a process.
    pub fn unregister_all(&mut self, pid: &Pid)
        ensures
            final(self)@ == old(self)@.filter(not_of(pid@)),
    {
        let ghost all = self@;
        let ghost p = not_of(pid@);
        let mut rows: Vec<(String, Pid)> = Vec::new();
        std::mem::swap(&mut rows, &mut self.rows);
        let ghost taken = rows@;
        proof {
            reveal(Seq::filter);
            assert(all.take(0) =~= Seq::empty());
            assert(self@ =~= all.take(0).filter(p));
        }
        for row in it: rows
            invariant
                it.seq() == taken,
                all.len() == taken.len(),
                p == not_of(pid@),
                forall|i: int| 0 <= i < all.len() ==> #[trigger] all[i] == (
                    taken[i].0@,
                    taken[i].1@
                ),
                self@ == all.take(it.index() as int).filter(p),
        {
            let ghost i = it.index() as int;
            let ghost before = self@;
            proof {
                assert(all.take(i + 1) =~= all.take(i).push(all[i]));
                all.take(i).lemma_filter_push(all[i], p);
                assert(all[i] == (row.0@, row.1@));
            }
            if !row.1.same(pid) {
                self.rows.push(row);
                assert(self@ =~= before.push(all[i]));
            }
        }
        assert(all.take(all.len() as int) =~= all);
    }

    /// The topics that a process has subscribed to.
    pub fn topics_of(&self, pid: &Pid) -> (r: Vec<String>)
        ensures
            table::views(r@) == topics_of(self@, pid@),
    {
        let ghost all = self@;
        let ghost p = is_of(pid@);
        let mut out: Vec<String> = Vec::new();
        let mut i: usize = 0;
        proof {
            reveal(Seq::filter);
            assert(all.take(0) =~= Seq::empty());
            assert(table::views(out@) =~= topics_of(all.take(0), pid@));
        }
        while i < self.rows.len()
            invariant
                i <= self.rows@.len(),
                all == self@,
                p == is_of(pid@),
                table::views(out@) == topics_of(all.take(i as int), pid@),
            decreases self.rows@.len() - i,
        {
            let ghost before = table::views(out@);
            let ghost kept = all.take(i as int).filter(p);
            proof {
                assert(all.take(i + 1) =~= all.take(i as int).push(all[i as int]));
                all.take(i as int).lemma_filter_push(all[i as int], p);
            }
            if self.rows[i].1.same(pid) {
                out.push(self.rows[i].0.clone());
                proof {
                    assert(table::views(out@) =~= before.push(all[i as int].0));
                    let f = |e: (Seq<char>, PidView)| e.0;
                    assert(kept.push(all[i as int]).map_values(f) =~= kept.map_values(f).push(
                        all[i as int].0,
                    ));
                }
            }
            i = i + 1;
        }
        assert(all.take(all.len() as int) =~= all);
        out
    }

    /// The subscribers of a topic.
    pub fn lookup(&self, topic: &str) -> (r: Vec<Pid>)
        ensures
            table::views(r@) == subscribers_of(self@, topic@),
    {
        let ghost all = self@;
        let ghost p = to_topic(topic@);
        let mut out: Vec<Pid> = Vec::new();
        let mut i: usize = 0;
        proof {
            reveal(Seq::filter);
            assert(all.take(0) =~= Seq::empty());
            assert(table::views(out@) =~= pids_of(all.take(0).filter(p)));
        }
        while i < self.rows.len()
            invariant
                i <= self.rows@.len(),
                all == self@,
                p == to_topic(topic@),
                table::views(out@) == pids_of(all.take(i as int).filter(p)),
            decreases self.rows@.len() - i,
        {
            let ghost kept = all.take(i as int).filter(p);
            let ghost before = table::views(out@);
            proof {
                assert(all.take(i + 1) =~= all.take(i as int).push(all[i as int]));
                all.take(i as int).lemma_filter_push(all[i as int], p);
            }
            if text::same_str(self.rows[i].0.as_str(), topic) {
                out.push(self.rows[i].1.clone());
                assert(table::views(out@) =~= before.push(all[i as int].1));
                assert(pids_of(kept.push(all[i as int])) =~= pids_of(kept).push(all[i as int].1));
            }
            i = i + 1;
        }
        assert(all.take(all.len() as int) =~= all);
        out
    }
}

/// A message for every subscriber of a topic on this node, but for the one excluded.
pub fn dispatch_local(
    registry: &Subscriptions,
    topic: &str,
    payload: &Vec<u8>,
    exclude: &Option<Pid>,
) -> (r: Vec<(Pid, Vec<u8>)>)
    ensures
        channels::sends(r@) == channels::to_each(
            receivers(
                subscribers_of(registry@, topic@),
                crate::process::pid_option(*exclude),
            ),
            payload@,
        ),
{
    let members = registry.lookup(topic);
    match exclude {
        Some(pid) => channels::send_to_each(&members, Some(pid), payload),
        None => channels::send_to_each(&members, None, payload),
    }
}

/// Whether a process runs on another node than this one.
pub open spec fn elsewhere(here: Seq<char>) -> spec_fn(PidView) -> bool {
    |p: PidView| p.node != here
}

/// Adds the members of a group that run on other nodes.
pub fn add_remote(found: &mut Vec<Pid>, members: &Vec<Pid>, here: &str)
    ensures
        table::views(final(found)@) == table::views(old(found)@) + table::views(members@).filter(
            elsewhere(here@),
        ),
{
    let ghost first = table::views(found@);
    let ghost all = table::views(members@);
    let ghost p = elsewhere(here@);
    let mut i: usize = 0;
    proof {
        reveal(Seq::filter);
        assert(all.take(0) =~= Seq::empty());
        assert(table::views(found@) =~= first + all.take(0).filter(p));
    }
    while i < members.len()
        invariant
            i <= members@.len(),
            all == table::views(members@),
            p == elsewhere(here@),
            table::views(found@) == first + all.take(i as int).filter(p),
        decreases members@.len() - i,
    {
        let ghost before = table::views(found@);
        let ghost kept = all.take(i as int).filter(p);
        proof {
            assert(all.take(i + 1) =~= all.take(i as int).push(all[i as int]));
            all.take(i as int).lemma_filter_push(all[i as int], p);
            assert(all[i as int] == members@[i as int]@);
        }
        if !members[i].is_local(here) {
            found.push(members[i].clone());
            assert(table::views(found@) =~= before.push(all[i as int]));
            assert(first + kept.push(all[i as int]) =~= (first + kept).push(all[i as int]));
        }
        i = i + 1;
    }
    assert(all.take(all.len() as int) =~= all);
}

/// Whether a member runs on another node than this one, and is not this process.
pub open spec fn is_remote(here: Seq<char>, own: Option<PidView>) -> spec_fn(PidView) -> bool {
    |p: PidView| Some(p) != own && p.node != here
}

/// A message for every member of a group that runs on another node.
pub fn forward_to_remote_nodes(
    members: &Vec<Pid>,
    here: &str,
    self_pid: &Option<Pid>,
    bytes: &Vec<u8>,
) -> (r: Vec<(Pid, Vec<u8>)>)
    ensures
        channels::sends(r@) == channels::to_each(
            table::views(members@).filter(
                is_remote(here@, crate::process::pid_option(*self_pid)),
            ),
            bytes@,
        ),
{
    let ghost all = table::views(members@);
    let ghost own = crate::process::pid_option(*self_pid);
    let ghost p = is_remote(here@, own);
    let mut out: Vec<(Pid, Vec<u8>)> = Vec::new();
    let mut i: usize = 0;
    proof {
        reveal(Seq::filter);
        assert(all.take(0) =~= Seq::empty());
        assert(channels::sends(out@) =~= channels::to_each(all.take(0).filter(p), bytes@));
    }
    while i < members.len()
        invariant
            i <= members@.len(),
            all == table::views(members@),
            own == crate::process::pid_option(*self_pid),
            p == is_remote(here@, own),
            channels::sends(out@) == channels::to_each(all.take(i as int).filter(p), bytes@),
        decreases members@.len() - i,
    {
        let ghost before = channels::sends(out@);
        let ghost kept = all.take(i as int).filter(p);
        proof {
            assert(all.take(i + 1) =~= all.take(i as int).push(all[i as int]));
            all.take(i as int).lemma_filter_push(all[i as int], p);
            assert(all[i as int] == members@[i as int]@);
        }
        let own_self = match self_pid {
            Some(pid) => members[i].same(pid),
            None => false,
        };
        if !own_self && !members[i].is_local(here) {
            out.push((members[i].clone(), crate::presence::crdt::copy_bytes(bytes)));
            assert(channels::sends(out@) =~= before.push((all[i as int], bytes@)));
            assert(channels::to_each(kept.push(all[i as int]), bytes@) =~= channels::to_each(
                kept,
                bytes@,
            ).push((all[i as int], bytes@)));
        }
        i = i + 1;
    }
    assert(all.take(all.len() as int) =~= all);
    out
}

/// Who has subscribed gets broadcasts; who has unsubscribed gets none.
pub proof fn law_subscribers_get_broadcasts(
    s: Seq<(Seq<char>, PidView)>,
    topic: Seq<char>,
    pid: PidView,
)
    ensures
        subscribers_of(s.push((topic, pid)), topic) == subscribers_of(s, topic).push(pid),
        !subscribers_of(s.filter(not_this(topic, pid)), topic).contains(pid),
{
    let p = to_topic(topic);
    s.lemma_filter_push((topic, pid), p);
    assert(pids_of(s.filter(p).push((topic, pid))) =~= pids_of(s.filter(p)).push(pid));
    let q = not_this(topic, pid);
    let t = s.filter(q);
    let found = t.filter(p);
    if pids_of(found).contains(pid) {
        let i = choose|i: int| 0 <= i < pids_of(found).len() && pids_of(found)[i] == pid;
        assert(found[i].1 == pid);
        t.lemma_filter_pred(p, i);
        assert(found[i] == (topic, pid));
        t.lemma_filter_contains_rev(p, found[i]);
        let j = choose|j: int| 0 <= j < t.len() && t[j] == found[i];
        s.lemma_filter_pred(q, j);
    }
}

/// Unsubscribing from a topic leaves the subscribers of other topics alone, and the other
/// subscribers of the topic too.
pub proof fn law_unsubscribing_spares_the_others(
    s: Seq<(Seq<char>, PidView)>,
    topic: Seq<char>,
    pid: PidView,
    other: Seq<char>,
)
    requires
        other != topic,
    ensures
        subscribers_of(s.filter(not_this(topic, pid)), other) == subscribers_of(s, other),
        subscribers_of(s.filter(not_this(topic, pid)), topic) == channels::others(
            subscribers_of(s, topic),
            pid,
        ),
{
    let q = not_this(topic, pid);
    let a = to_topic(other);
    crate::seqs::lemma_filter_filter(s, q, a);
    crate::seqs::lemma_filter_agree(s, |e: (Seq<char>, PidView)| q(e) && a(e), a);
    lemma_others(s, topic, pid);
}

proof fn lemma_others(s: Seq<(Seq<char>, PidView)>, topic: Seq<char>, pid: PidView)
    ensures
        subscribers_of(s.filter(not_this(topic, pid)), topic) == channels::others(
            subscribers_of(s, topic),
            pid,
        ),
    decreases s.len(),
{
    let q = not_this(topic, pid);
    let p = to_topic(topic);
    let o = channels::other_than(pid);
    reveal(Seq::filter);
    if s.len() == 0 {
        assert(subscribers_of(s.filter(q), topic) =~= Seq::empty());
        assert(channels::others(subscribers_of(s, topic), pid) =~= Seq::empty());
    } else {
        let front = s.drop_last();
        let e = s.last();
        lemma_others(front, topic, pid);
        assert(s =~= front.push(e));
        front.lemma_filter_push(e, q);
        front.lemma_filter_push(e, p);
        let kept = front.filter(q);
        if q(e) {
            kept.lemma_filter_push(e, p);
            if p(e) {
                assert(pids_of(kept.filter(p).push(e)) =~= pids_of(kept.filter(p)).push(e.1));
            }
        }
        if p(e) {
            assert(pids_of(front.filter(p).push(e)) =~= pids_of(front.filter(p)).push(e.1));
            pids_of(front.filter(p)).lemma_filter_push(e.1, o);
        }
    }
}

/// A process is a subscriber of a topic if there is a subscription of it.
pub proof fn lemma_members(s: Seq<(Seq<char>, PidView)>, topic: Seq<char>, pid: PidView)
    ensures
        subscribers_of(s, topic).contains(pid) == s.contains((topic, pid)),
{
    let p = to_topic(topic);
    let found = s.filter(p);
    if subscribers_of(s, topic).contains(pid) {
        let i = choose|i: int| 0 <= i < found.len() && subscribers_of(s, topic)[i] == pid;
        s.lemma_filter_pred(p, i);
        s.lemma_filter_contains_rev(p, found[i]);
        assert(found[i] == (topic, pid));
    }
    if s.contains((topic, pid)) {
        let i = choose|i: int| 0 <= i < s.len() && s[i] == (topic, pid);
        s.lemma_filter_contains(p, i);
        let j = choose|j: int| 0 <= j < found.len() && found[j] == s[i];
        assert(subscribers_of(s, topic)[j] == pid);
    }
}

/// A topic is one of those of a process if there is a subscription of it.
pub proof fn lemma_topics(s: Seq<(Seq<char>, PidView)>, pid: PidView, topic: Seq<char>)
    ensures
        topics_of(s, pid).contains(topic) == s.contains((topic, pid)),
{
    let p = is_of(pid);
    let found = s.filter(p);
    if topics_of(s, pid).contains(topic) {
        let i = choose|i: int| 0 <= i < found.len() && topics_of(s, pid)[i] == topic;
        s.lemma_filter_pred(p, i);
        s.lemma_filter_contains_rev(p, found[i]);
        assert(found[i] == (topic, pid));
    }
    if s.contains((topic, pid)) {
        let i = choose|i: int| 0 <= i < s.len() && s[i] == (topic, pid);
        s.lemma_filter_contains(p, i);
        let j = choose|j: int| 0 <= j < found.len() && found[j] == s[i];
        assert(topics_of(s, pid)[j] == topic);
    }
}

/// Filtering keeps what the filter picks.
pub proof fn lemma_kept(
    s: Seq<(Seq<char>, PidView)>,
    p: spec_fn((Seq<char>, PidView)) -> bool,
    e: (Seq<char>, PidView),
)
    ensures
        s.filter(p).contains(e) == (s.contains(e) && p(e)),
{
    let some = s.filter(p);
    if some.contains(e) {
        let i = choose|i: int| 0 <= i < some.len() && some[i] == e;
        s.lemma_filter_pred(p, i);
        s.lemma_filter_contains_rev(p, e);
    }
    if s.contains(e) && p(e) {
        let i = choose|i: int| 0 <= i < s.len() && s[i] == e;
        s.lemma_filter_contains(p, i);
    }
}

} // verus!
