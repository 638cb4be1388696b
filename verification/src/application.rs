//! Applications: what they depend on, and in which order they start and stop.

use vstd::prelude::*;

use crate::process::{Pid, PidView};
use crate::table;
use crate::table::Table;

verus! {

/// What an application is called and what it depends on.
pub struct AppSpec {
    /// Its name.
    pub name: String,
    /// The names of the applications that it depends on.
    pub dependencies: Vec<String>,
}

impl Clone for AppSpec {
    fn clone(&self) -> (r: Self)
        ensures
            r.name@ == self.name@,
            table::views(r.dependencies@) == table::views(self.dependencies@),
    {
        AppSpec { name: self.name.clone(), dependencies: copy_names(&self.dependencies) }
    }
}

/// A copy of some names.
pub fn copy_names(names: &Vec<String>) -> (r: Vec<String>)
    ensures
        table::views(r@) == table::views(names@),
{
    let mut out: Vec<String> = Vec::new();
    let mut i: usize = 0;
    while i < names.len()
        invariant
            i <= names@.len(),
            out@.len() == i,
            forall|j: int| 0 <= j < i ==> #[trigger] out@[j]@ == names@[j]@,
        decreases names@.len() - i,
    {
        out.push(names[i].clone());
        i = i + 1;
    }
    assert(table::views(out@) =~= table::views(names@));
    out
}

/// What is known of a running application.
pub struct AppInfo {
    /// Its name.
    pub name: String,
    /// Its root process.
    pub pid: Option<Pid>,
    /// The names of the applications that it depends on.
    pub dependencies: Vec<String>,
    /// Whether it runs.
    pub running: bool,
}

/// Why an application is not started.
#[derive(Debug)]
pub enum StartError {
    /// It runs already.
    AlreadyRunning(String),
    /// It, or something that it depends on, is not registered.
    NotFound(String),
    /// It depends on itself, in the way given.
    CircularDependency(Vec<String>),
    /// It failed to start.
    StartFailed(String),
}

/// Why an application is not stopped.
#[derive(Debug)]
pub enum StopError {
    /// It does not run.
    NotRunning(String),
}

/// What each registered application depends on.
pub type Registered = Map<Seq<char>, Seq<Seq<char>>>;

/// What goes wrong on the way through the dependencies.
pub enum VisitError {
    /// The way comes back to an application on it; the way, up to that.
    Circular(Seq<Seq<char>>),
    /// An application is not registered.
    Missing(Seq<char>),
}

/// How many registered applications are not on the way.
pub open spec fn off_path(reg: Registered, path: Seq<Seq<char>>) -> nat {
    reg.dom().difference(path.to_set()).len()
}

/// Puts an application behind everything that it depends on, at the end of an order in which
/// what is there stays. `path` is the way to the application.
pub open spec fn visit(
    reg: Registered,
    name: Seq<char>,
    order: Seq<Seq<char>>,
    path: Seq<Seq<char>>,
) -> (Option<VisitError>, Seq<Seq<char>>)
    decreases off_path(reg, path), 0nat,
    when reg.dom().finite()
    via visit_ends
{
    if path.contains(name) {
        (Some(VisitError::Circular(path.push(name))), order)
    } else if order.contains(name) {
        (None, order)
    } else if !reg.contains_key(name) {
        (Some(VisitError::Missing(name)), order)
    } else {
        let (e, o) = visit_list(reg, reg[name], order, path.push(name));
        match e {
            Some(_) => (e, o),
            None => (None, o.push(name)),
        }
    }
}

/// Puts applications into an order, one after the other, up to the first that goes wrong.
pub open spec fn visit_list(
    reg: Registered,
    names: Seq<Seq<char>>,
    order: Seq<Seq<char>>,
    path: Seq<Seq<char>>,
) -> (Option<VisitError>, Seq<Seq<char>>)
    decreases off_path(reg, path), names.len(),
    when reg.dom().finite()
{
    if names.len() == 0 {
        (None, order)
    } else {
        let (e, o) = visit(reg, names[0], order, path);
        match e {
            Some(_) => (e, o),
            None => visit_list(reg, names.drop_first(), o, path),
        }
    }
}

/// A step onto a registered application that is not on the way leaves fewer of them.
proof fn lemma_fewer(reg: Registered, name: Seq<char>, path: Seq<Seq<char>>)
    requires
        reg.dom().finite(),
        reg.contains_key(name),
        !path.contains(name),
    ensures
        off_path(reg, path.push(name)) < off_path(reg, path),
{
    let left = reg.dom().difference(path.to_set());
    assert(left.contains(name));
    assert forall|k: Seq<char>| path.push(name).contains(k) <==> path.contains(k) || k == name by {
        if path.contains(k) {
            let i = choose|i: int| 0 <= i < path.len() && path[i] == k;
            assert(path.push(name)[i] == k);
        }
        if k == name {
            assert(path.push(name)[path.len() as int] == k);
        }
    }
    assert(reg.dom().difference(path.push(name).to_set()) =~= left.remove(name));
}

#[via_fn]
proof fn visit_ends(
    reg: Registered,
    name: Seq<char>,
    order: Seq<Seq<char>>,
    path: Seq<Seq<char>>,
) {
    if !path.contains(name) && reg.contains_key(name) {
        lemma_fewer(reg, name, path);
    }
}

/// Whether what an application depends on stands before it.
pub open spec fn is_ready(reg: Registered, order: Seq<Seq<char>>, i: int) -> bool {
    &&& reg.contains_key(order[i])
    &&& forall|d: int|
        0 <= d < reg[order[i]].len() ==> order.take(i).contains(#[trigger] reg[order[i]][d])
}

/// Whether an order is one in which applications can be started: each stands there once, behind
/// everything that it depends on.
pub open spec fn is_startable(reg: Registered, order: Seq<Seq<char>>) -> bool {
    &&& order.no_duplicates()
    &&& forall|i: int| 0 <= i < order.len() ==> #[trigger] is_ready(reg, order, i)
}

/// One more application at the end of an order.
proof fn lemma_one_more(reg: Registered, order: Seq<Seq<char>>, name: Seq<char>)
    requires
        is_startable(reg, order),
        !order.contains(name),
        reg.contains_key(name),
        forall|d: int| 0 <= d < reg[name].len() ==> order.contains(#[trigger] reg[name][d]),
    ensures
        is_startable(reg, order.push(name)),
{
    let more = order.push(name);
    assert forall|i: int| 0 <= i < more.len() implies #[trigger] is_ready(reg, more, i) by {
        if i < order.len() {
            assert(is_ready(reg, order, i));
            assert(more.take(i) =~= order.take(i));
        } else {
            assert(more.take(i) =~= order);
        }
    }
    assert forall|i: int, j: int| 0 <= i < more.len() && 0 <= j < more.len() && i
        != j implies more[i] != more[j] by {
        if i < order.len() && j < order.len() {
            assert(order[i] != order[j]);
        } else if i < order.len() {
            assert(order.contains(order[i]));
        } else {
            assert(order.contains(order[j]));
        }
    }
}

/// Going through the dependencies keeps an order startable, and keeps what is there in front.
/// Nothing that is on the way gets into the order.
pub proof fn lemma_visit(
    reg: Registered,
    name: Seq<char>,
    order: Seq<Seq<char>>,
    path: Seq<Seq<char>>,
)
    requires
        reg.dom().finite(),
        is_startable(reg, order),
        forall|k: Seq<char>| path.contains(k) ==> !order.contains(k),
    ensures
        ({
            let (e, o) = visit(reg, name, order, path);
            &&& is_startable(reg, o)
            &&& order.is_prefix_of(o)
            &&& e is None ==> o.contains(name)
            &&& forall|k: Seq<char>| path.contains(k) ==> !o.contains(k)
        }),
    decreases off_path(reg, path), 0nat,
{
    if !path.contains(name) && !order.contains(name) && reg.contains_key(name) {
        lemma_fewer(reg, name, path);
        let more = path.push(name);
        assert forall|k: Seq<char>| more.contains(k) implies !order.contains(k) by {
            let i = choose|i: int| 0 <= i < more.len() && more[i] == k;
            if i < path.len() {
                assert(path.contains(k));
            }
        }
        lemma_visit_list(reg, reg[name], order, more);
        let (e, o) = visit_list(reg, reg[name], order, more);
        assert(more[path.len() as int] == name);
        assert(more.contains(name));
        assert forall|k: Seq<char>| path.contains(k) implies more.contains(k) by {
            let i = choose|i: int| 0 <= i < path.len() && path[i] == k;
            assert(more[i] == k);
        }
        if e is None {
            lemma_one_more(reg, o, name);
            assert(o.push(name)[o.len() as int] == name);
            assert(order =~= o.push(name).take(order.len() as int));
            assert forall|k: Seq<char>| path.contains(k) implies !o.push(name).contains(k) by {
                if o.push(name).contains(k) {
                    let i = choose|i: int| 0 <= i < o.push(name).len() && o.push(name)[i] == k;
                    if i < o.len() {
                        assert(o.contains(k));
                    }
                }
            }
        }
    }
}

/// The same for several applications.
pub proof fn lemma_visit_list(
    reg: Registered,
    names: Seq<Seq<char>>,
    order: Seq<Seq<char>>,
    path: Seq<Seq<char>>,
)
    requires
        reg.dom().finite(),
        is_startable(reg, order),
        forall|k: Seq<char>| path.contains(k) ==> !order.contains(k),
    ensures
        ({
            let (e, o) = visit_list(reg, names, order, path);
            &&& is_startable(reg, o)
            &&& order.is_prefix_of(o)
            &&& e is None ==> forall|i: int| 0 <= i < names.len() ==> o.contains(#[trigger] names[i])
            &&& forall|k: Seq<char>| path.contains(k) ==> !o.contains(k)
        }),
    decreases off_path(reg, path), names.len(),
{
    if names.len() > 0 {
        lemma_visit(reg, names[0], order, path);
        let (e, o) = visit(reg, names[0], order, path);
        if e is None {
            lemma_visit_list(reg, names.drop_first(), o, path);
            let (e2, o2) = visit_list(reg, names.drop_first(), o, path);
            assert(order =~= o2.take(order.len() as int));
            assert forall|i: int| e2 is None && 0 <= i < names.len() implies o2.contains(
                #[trigger] names[i],
            ) by {
                if i == 0 {
                    let j = choose|j: int| 0 <= j < o.len() && o[j] == names[0];
                    assert(o2[j] == names[0]);
                } else {
                    assert(names.drop_first()[i - 1] == names[i]);
                }
            }
        }
    }
}

/// The order in which an application and what it depends on start.
pub open spec fn start_order(reg: Registered, name: Seq<char>) -> (
    Option<VisitError>,
    Seq<Seq<char>>,
) {
    visit(reg, name, Seq::empty(), Seq::empty())
}

/// An application starts behind everything that it depends on, and each starts once.
pub proof fn law_dependencies_start_first(reg: Registered, name: Seq<char>)
    requires
        reg.dom().finite(),
    ensures
        is_startable(reg, start_order(reg, name).1),
        start_order(reg, name).0 is None ==> start_order(reg, name).1.len() > 0
            && start_order(reg, name).1.last() == name,
{
    lemma_visit(reg, name, Seq::empty(), Seq::empty());
}

/// Whether a way goes from each application on it to one that it depends on.
pub open spec fn is_way(reg: Registered, way: Seq<Seq<char>>) -> bool {
    forall|i: int|
        0 <= i < way.len() - 1 ==> reg.contains_key(#[trigger] way[i]) && reg[way[i]].contains(
            way[i + 1],
        )
}

/// Whether a way through the dependencies leads from one application to another.
pub open spec fn leads(
    reg: Registered,
    way: Seq<Seq<char>>,
    from: Seq<char>,
    to: Seq<char>
) -> bool {
    way.len() > 0 && is_way(reg, way) && way[0] == from && way.last() == to
}

/// Whether something is wrong with the dependencies of an application: a way from it comes back
/// to itself, or leads to an application that is not registered.
pub open spec fn is_wrong(reg: Registered, from: Seq<char>, e: VisitError) -> bool {
    match e {
        VisitError::Circular(way) => leads(reg, way, from, way.last()) && way.len() >= 2
            && way.drop_last().contains(way.last()),
        VisitError::Missing(m) => !reg.contains_key(m) && exists|way: Seq<Seq<char>>| #[trigger]
            leads(reg, way, from, m),
    }
}

/// What a way through the dependencies ends with, if it goes wrong.
pub proof fn lemma_visit_error(
    reg: Registered,
    name: Seq<char>,
    order: Seq<Seq<char>>,
    path: Seq<Seq<char>>,
)
    requires
        reg.dom().finite(),
        is_way(reg, path.push(name)),
    ensures
        match visit(reg, name, order, path).0 {
            Some(e) => is_wrong(reg, path.push(name)[0], e),
            None => true,
        },
    decreases off_path(reg, path), 0nat,
{
    if path.contains(name) {
        assert(path.push(name).drop_last() =~= path);
    } else if !order.contains(name) && !reg.contains_key(name) {
        assert(leads(reg, path.push(name), path.push(name)[0], name));
    } else if !order.contains(name) && reg.contains_key(name) {
        lemma_fewer(reg, name, path);
        lemma_visit_list_error(reg, reg[name], order, path.push(name));
    }
}

/// The same for several applications that the last one on the way depends on.
pub proof fn lemma_visit_list_error(
    reg: Registered,
    names: Seq<Seq<char>>,
    order: Seq<Seq<char>>,
    path: Seq<Seq<char>>,
)
    requires
        reg.dom().finite(),
        path.len() > 0,
        is_way(reg, path),
        reg.contains_key(path.last()),
        forall|i: int| 0 <= i < names.len() ==> reg[path.last()].contains(#[trigger] names[i]),
    ensures
        match visit_list(reg, names, order, path).0 {
            Some(e) => is_wrong(reg, path[0], e),
            None => true,
        },
    decreases off_path(reg, path), names.len(),
{
    if names.len() > 0 {
        let more = path.push(names[0]);
        assert forall|i: int| 0 <= i < more.len() - 1 implies reg.contains_key(#[trigger] more[i])
            && reg[more[i]].contains(more[i + 1]) by {
            if i < path.len() - 1 {
                assert(more[i] == path[i]);
                assert(more[i + 1] == path[i + 1]);
            }
        }
        lemma_visit_error(reg, names[0], order, path);
        let (e, o) = visit(reg, names[0], order, path);
        if e is None {
            assert forall|i: int| 0 <= i < names.drop_first().len() implies reg[path.last()].contains(
                #[trigger] names.drop_first()[i],
            ) by {
                assert(names.drop_first()[i] == names[i + 1]);
            }
            lemma_visit_list_error(reg, names.drop_first(), o, path);
        }
    }
}

/// An application is refused with a way that leads through dependencies back to itself, or with
/// an application that is not registered; and with nothing else.
pub proof fn law_refusals_are_justified(reg: Registered, name: Seq<char>)
    requires
        reg.dom().finite(),
    ensures
        match start_order(reg, name).0 {
            Some(e) => is_wrong(reg, name, e),
            None => true,
        },
{
    lemma_visit_error(reg, name, Seq::empty(), Seq::empty());
}

/// Along a way the applications stand ever further in front in a startable order.
proof fn lemma_further_in_front(
    reg: Registered,
    order: Seq<Seq<char>>,
    way: Seq<Seq<char>>,
    p: int,
    i: int,
) -> (q: int)
    requires
        is_startable(reg, order),
        is_way(reg, way),
        0 <= p < order.len(),
        0 <= i < way.len(),
        order[p] == way[0],
    ensures
        0 <= q < order.len(),
        order[q] == way[i],
        q <= p - i,
    decreases i,
{
    if i == 0 {
        p
    } else {
        let before = lemma_further_in_front(reg, order, way, p, i - 1);
        assert(is_ready(reg, order, before));
        let here = way[i - 1];
        let next = way[i];
        let deps = reg[here];
        assert(deps.contains(next));
        let d = choose|d: int| 0 <= d < deps.len() && deps[d] == next;
        assert(order.take(before).contains(reg[order[before]][d]));
        let front = order.take(before);
        let q = choose|q: int| 0 <= q < front.len() && front[q] == next;
        q
    }
}

/// The same between two places of a way.
proof fn lemma_comes_before(
    reg: Registered,
    order: Seq<Seq<char>>,
    way: Seq<Seq<char>>,
    p: int,
    i: int,
    j: int,
)
    requires
        is_startable(reg, order),
        is_way(reg, way),
        0 <= p < order.len(),
        0 <= i < j < way.len(),
        order[p] == way[i],
    ensures
        exists|q: int| 0 <= q < p && order[q] == way[j],
{
    let rest = way.skip(i);
    assert forall|k: int| 0 <= k < rest.len() - 1 implies reg.contains_key(#[trigger] rest[k])
        && reg[rest[k]].contains(rest[k + 1]) by {
        assert(rest[k] == way[i + k]);
        assert(rest[k + 1] == way[i + k + 1]);
    }
    let q = lemma_further_in_front(reg, order, rest, p, j - i);
    assert(rest[j - i] == way[j]);
}

/// An application that is refused cannot be started in any order.
pub proof fn law_refused_cannot_start(reg: Registered, name: Seq<char>, order: Seq<Seq<char>>)
    requires
        reg.dom().finite(),
        start_order(reg, name).0 is Some,
        is_startable(reg, order),
    ensures
        !order.contains(name),
{
    law_refusals_are_justified(reg, name);
    if order.contains(name) {
        let p = choose|p: int| 0 <= p < order.len() && order[p] == name;
        match start_order(reg, name).0->0 {
            VisitError::Circular(way) => {
                let last = way.len() - 1;
                let k = choose|k: int| 0 <= k < last && way.drop_last()[k] == way.last();
                let a = lemma_further_in_front(reg, order, way, p, k);
                lemma_comes_before(reg, order, way, a, k, last);
                let q = choose|q: int| 0 <= q < a && order[q] == way[last];
                assert(order[q] == order[a]);
            },
            VisitError::Missing(m) => {
                let way = choose|way: Seq<Seq<char>>| #[trigger] leads(reg, way, name, m);
                let q = lemma_further_in_front(reg, order, way, p, way.len() - 1);
                assert(is_ready(reg, order, q));
            },
        }
    }
}

/// Puts an application behind everything that it depends on, at the end of an order in which
/// what is there stays. Where the dependencies come back to an application on the way, they are
/// not followed any further.
pub open spec fn settle(
    reg: Registered,
    name: Seq<char>,
    order: Seq<Seq<char>>,
    path: Seq<Seq<char>>,
) -> Seq<Seq<char>>
    decreases off_path(reg, path), 0nat,
    when reg.dom().finite()
    via settle_ends
{
    if path.contains(name) || order.contains(name) {
        order
    } else if !reg.contains_key(name) {
        order.push(name)
    } else {
        settle_list(reg, reg[name], order, path.push(name)).push(name)
    }
}

/// The same for applications, one after the other.
pub open spec fn settle_list(
    reg: Registered,
    names: Seq<Seq<char>>,
    order: Seq<Seq<char>>,
    path: Seq<Seq<char>>,
) -> Seq<Seq<char>>
    decreases off_path(reg, path), names.len(),
    when reg.dom().finite()
{
    if names.len() == 0 {
        order
    } else {
        settle_list(reg, names.drop_first(), settle(reg, names[0], order, path), path)
    }
}

#[via_fn]
proof fn settle_ends(
    reg: Registered,
    name: Seq<char>,
    order: Seq<Seq<char>>,
    path: Seq<Seq<char>>,
) {
    if !path.contains(name) && reg.contains_key(name) {
        lemma_fewer(reg, name, path);
    }
}

/// Whether what an application depends on stands before it, except for what depends on it in
/// turn.
pub open spec fn is_behind(reg: Registered, order: Seq<Seq<char>>, i: int) -> bool {
    reg.contains_key(order[i]) ==> forall|d: int|
        0 <= d < reg[order[i]].len() ==> order.take(i).contains(#[trigger] reg[order[i]][d])
            || depends(reg, reg[order[i]][d], order[i])
}

/// Whether an application depends on another, in one or more steps, or is the same.
pub open spec fn depends(reg: Registered, from: Seq<char>, to: Seq<char>) -> bool {
    exists|way: Seq<Seq<char>>| #[trigger] leads(reg, way, from, to)
}

/// Whether in an order each application stands once, behind what it depends on.
pub open spec fn is_settled(reg: Registered, order: Seq<Seq<char>>) -> bool {
    &&& order.no_duplicates()
    &&& forall|i: int| 0 <= i < order.len() ==> #[trigger] is_behind(reg, order, i)
}

proof fn lemma_one_more_settled(reg: Registered, order: Seq<Seq<char>>, name: Seq<char>)
    requires
        is_settled(reg, order),
        !order.contains(name),
        reg.contains_key(name) ==> forall|d: int|
            0 <= d < reg[name].len() ==> order.contains(#[trigger] reg[name][d]) || depends(
                reg,
                reg[name][d],
                name,
            ),
    ensures
        is_settled(reg, order.push(name)),
        order.push(name).contains(name),
{
    let more = order.push(name);
    assert(more[order.len() as int] == name);
    assert forall|i: int| 0 <= i < more.len() implies #[trigger] is_behind(reg, more, i) by {
        if i < order.len() {
            assert(is_behind(reg, order, i));
            assert(more.take(i) =~= order.take(i));
        } else {
            assert(more.take(i) =~= order);
        }
    }
    assert forall|i: int, j: int| 0 <= i < more.len() && 0 <= j < more.len() && i
        != j implies more[i] != more[j] by {
        if i < order.len() && j < order.len() {
            assert(order[i] != order[j]);
        } else if i < order.len() {
            assert(order.contains(order[i]));
        } else {
            assert(order.contains(order[j]));
        }
    }
}

proof fn lemma_settle(
    reg: Registered,
    name: Seq<char>,
    order: Seq<Seq<char>>,
    path: Seq<Seq<char>>,
)
    requires
        reg.dom().finite(),
        is_settled(reg, order),
        is_way(reg, path.push(name)),
        forall|k: Seq<char>| path.contains(k) ==> !order.contains(k),
    ensures
        ({
            let o = settle(reg, name, order, path);
            &&& is_settled(reg, o)
            &&& forall|k: Seq<char>| order.contains(k) ==> o.contains(k)
            &&& o.contains(name) || path.contains(name)
            &&& forall|k: Seq<char>| path.contains(k) ==> !o.contains(k)
        }),
    decreases off_path(reg, path), 0nat,
{
    if !path.contains(name) && !order.contains(name) {
        let o = if reg.contains_key(name) {
            settle_list(reg, reg[name], order, path.push(name))
        } else {
            order
        };
        let more = path.push(name);
        assert(more[path.len() as int] == name);
        assert forall|k: Seq<char>| path.contains(k) implies more.contains(k) by {
            let i = choose|i: int| 0 <= i < path.len() && path[i] == k;
            assert(more[i] == k);
        }
        if reg.contains_key(name) {
            lemma_fewer(reg, name, path);
            assert forall|k: Seq<char>| more.contains(k) implies !order.contains(k) by {
                let i = choose|i: int| 0 <= i < more.len() && more[i] == k;
                if i < path.len() {
                    assert(path.contains(k));
                }
            }
            lemma_settle_list(reg, reg[name], order, more);
            assert forall|d: int| 0 <= d < reg[name].len() implies o.contains(
                #[trigger] reg[name][d],
            ) || depends(reg, reg[name][d], name) by {
                let dep = reg[name][d];
                if !o.contains(dep) {
                    assert(more.contains(dep));
                    let k = choose|k: int| 0 <= k < more.len() && more[k] == dep;
                    let way = more.skip(k);
                    assert forall|i: int| 0 <= i < way.len() - 1 implies reg.contains_key(
                        #[trigger] way[i],
                    ) && reg[way[i]].contains(way[i + 1]) by {
                        assert(way[i] == more[k + i]);
                        assert(way[i + 1] == more[k + i + 1]);
                    }
                    assert(leads(reg, way, dep, name));
                }
            }
        }
        assert(!o.contains(name));
        lemma_one_more_settled(reg, o, name);
        assert forall|k: Seq<char>| o.contains(k) implies o.push(name).contains(k) by {
            let i = choose|i: int| 0 <= i < o.len() && o[i] == k;
            assert(o.push(name)[i] == k);
        }
        assert forall|k: Seq<char>| path.contains(k) implies !o.push(name).contains(k) by {
            if o.push(name).contains(k) {
                let i = choose|i: int| 0 <= i < o.push(name).len() && o.push(name)[i] == k;
                if i < o.len() {
                    assert(o.contains(k));
                }
            }
        }
    }
}

proof fn lemma_settle_list(
    reg: Registered,
    names: Seq<Seq<char>>,
    order: Seq<Seq<char>>,
    path: Seq<Seq<char>>,
)
    requires
        reg.dom().finite(),
        is_settled(reg, order),
        path.len() > 0,
        is_way(reg, path),
        reg.contains_key(path.last()),
        forall|i: int| 0 <= i < names.len() ==> reg[path.last()].contains(#[trigger] names[i]),
        forall|k: Seq<char>| path.contains(k) ==> !order.contains(k),
    ensures
        ({
            let o = settle_list(reg, names, order, path);
            &&& is_settled(reg, o)
            &&& forall|k: Seq<char>| order.contains(k) ==> o.contains(k)
            &&& forall|i: int|
                0 <= i < names.len() ==> o.contains(#[trigger] names[i]) || path.contains(names[i])
            &&& forall|k: Seq<char>| path.contains(k) ==> !o.contains(k)
        }),
    decreases off_path(reg, path), names.len(),
{
    if names.len() > 0 {
        let more = path.push(names[0]);
        assert forall|i: int| 0 <= i < more.len() - 1 implies reg.contains_key(#[trigger] more[i])
            && reg[more[i]].contains(more[i + 1]) by {
            if i < path.len() - 1 {
                assert(more[i] == path[i]);
                assert(more[i + 1] == path[i + 1]);
            }
        }
        lemma_settle(reg, names[0], order, path);
        let o = settle(reg, names[0], order, path);
        let rest = names.drop_first();
        assert forall|i: int| 0 <= i < rest.len() implies reg[path.last()].contains(
            #[trigger] rest[i],
        ) by {
            assert(rest[i] == names[i + 1]);
        }
        lemma_settle_list(reg, rest, o, path);
        let all = settle_list(reg, rest, o, path);
        assert forall|i: int| 0 <= i < names.len() implies all.contains(#[trigger] names[i])
            || path.contains(names[i]) by {
            if i > 0 {
                assert(rest[i - 1] == names[i]);
            }
        }
    }
}

/// The order of several applications, each with what it depends on.
pub open spec fn gathered(reg: Registered, names: Seq<Seq<char>>) -> Seq<Seq<char>>
    decreases names.len(),
{
    if names.len() == 0 {
        Seq::empty()
    } else {
        settle(reg, names.last(), gathered(reg, names.drop_last()), Seq::empty())
    }
}

/// A gathered order holds every application that was asked for, each once and behind what it
/// depends on, except for what depends on it in turn. Backwards it stops everything, and an
/// application before what it depends on.
pub proof fn law_dependents_stop_first(reg: Registered, names: Seq<Seq<char>>)
    requires
        reg.dom().finite(),
    ensures
        is_settled(reg, gathered(reg, names)),
        forall|k: Seq<char>| #[trigger] names.contains(k) ==> gathered(reg, names).contains(k),
    decreases names.len(),
{
    if names.len() > 0 {
        let rest = names.drop_last();
        law_dependents_stop_first(reg, rest);
        lemma_settle(reg, names.last(), gathered(reg, rest), Seq::empty());
        assert forall|k: Seq<char>| #[trigger] names.contains(k) implies gathered(
            reg,
            names,
        ).contains(k) by {
            let i = choose|i: int| 0 <= i < names.len() && names[i] == k;
            if i < rest.len() {
                assert(rest[i] == k);
                assert(rest.contains(k));
            }
        }
    }
}

/// The applications that are registered and those that run.
pub struct AppController {
    registered: Table<String, AppSpec>,
    running: Table<String, Option<Pid>>,
}

/// What is to be done about an application in the order.
#[derive(Debug, Clone, Copy, PartialEq, Eq, Structural)]
pub enum StartStep {
    /// It runs already.
    Skip,
    /// It is started with the configuration of the caller.
    StartConfigured,
    /// It is started with an empty configuration.
    StartDefault,
    /// It is not registered.
    Missing,
}

/// What is to be done about an application that has been stopped.
pub struct Stopped {
    /// Its root process: it is sent an exit signal.
    pub pid: Option<Pid>,
    /// Whether the application is registered: it is told that it stops.
    pub known: bool,
}

fn has_name(names: &Vec<String>, name: &str) -> (r: bool)
    ensures
        r == table::views(names@).contains(name@),
{
    let mut i: usize = 0;
    while i < names.len()
        invariant
            i <= names@.len(),
            forall|j: int| 0 <= j < i ==> #[trigger] table::views(names@)[j] != name@,
        decreases names@.len() - i,
    {
        assert(table::views(names@)[i as int] == names@[i as int]@);
        if crate::text::same_str(names[i].as_str(), name) {
            return true;
        }
        i = i + 1;
    }
    false
}

/// The view of what goes wrong, where the dependencies decide it.
pub open spec fn start_error(e: StartError) -> Option<VisitError> {
    match e {
        StartError::CircularDependency(path) => Some(VisitError::Circular(table::views(path@))),
        StartError::NotFound(name) => Some(VisitError::Missing(name@)),
        _ => None,
    }
}

/// The view of an optional process.
pub open spec fn running_view(p: Option<Pid>) -> Option<PidView> {
    crate::process::pid_option(p)
}

impl AppController {
    /// The controller's invariant: an application is filed under its own name.
    pub closed spec fn wf(&self) -> bool {
        &&& self.registered.wf()
        &&& self.running.wf()
        &&& forall|k: Seq<char>| #[trigger]
            self.registered@.contains_key(k) ==> self.registered@[k].name@ == k
    }

    /// What each registered application depends on.
    pub closed spec fn apps(&self) -> Registered {
        self.registered@.map_values(|s: AppSpec| table::views(s.dependencies@))
    }

    /// The running applications, with their root processes.
    pub closed spec fn live(&self) -> Map<Seq<char>, Option<PidView>> {
        self.running@.map_values(|p: Option<Pid>| running_view(p))
    }

    /// The running applications in the order in which they are walked.
    pub closed spec fn live_order(&self) -> Seq<Seq<char>> {
        Seq::new(self.running.rows@.len(), |i: int| self.running.rows@[i].0@)
    }

    /// There are finitely many registered applications.
    pub proof fn law_finite(&self)
        requires
            self.wf(),
        ensures
            self.apps().dom().finite(),
            self.live_order().no_duplicates(),
            forall|k: Seq<char>| #[trigger]
                self.live().contains_key(k) <==> self.live_order().contains(k),
    {
        let rows = self.registered.rows@;
        let names = Seq::new(rows.len(), |i: int| rows[i].0@);
        assert(names.to_set() =~= self.apps().dom()) by {
            assert forall|k: Seq<char>| names.to_set().contains(k)
                == self.apps().dom().contains(k) by {
                if names.to_set().contains(k) {
                    let i = choose|i: int| 0 <= i < names.len() && names[i] == k;
                    table::lemma_row(rows, i);
                }
                if self.apps().dom().contains(k) {
                    let i = table::lemma_key(rows, k);
                    assert(names[i] == k);
                }
            }
        }
        vstd::seq_lib::seq_to_set_is_finite(names);
        let live = self.running.rows@;
        assert forall|k: Seq<char>| #[trigger]
            self.live().contains_key(k) <==> self.live_order().contains(k) by {
            if self.live().contains_key(k) {
                let i = table::lemma_key(live, k);
                assert(self.live_order()[i] == k);
            }
            if self.live_order().contains(k) {
                let i = choose|i: int|
                    0 <= i < self.live_order().len() && self.live_order()[i] == k;
                table::lemma_row(live, i);
            }
        }
    }

    /// A controller of nothing.
    pub fn new() -> (r: Self)
        ensures
            r.wf(),
            r.apps() == Registered::empty(),
            r.live() == Map::<Seq<char>, Option<PidView>>::empty(),
    {
        let r = AppController { registered: Table::new(), running: Table::new() };
        assert(r.apps() =~= Registered::empty());
        assert(r.live() =~= Map::<Seq<char>, Option<PidView>>::empty());
        r
    }

    /// Registers an application, in place of one with its name.
    pub fn register(&mut self, spec: AppSpec)
        requires
            old(self).wf(),
        ensures
            final(self).wf(),
            final(self).apps() == old(self).apps().insert(
                spec.name@,
                table::views(spec.dependencies@),
            ),
            final(self).live() == old(self).live(),
    {
        let name = spec.name.clone();
        self.registered.insert(name, spec);
        assert(self.apps() =~= old(self).apps().insert(
            spec.name@,
            table::views(spec.dependencies@),
        ));
    }

    fn visit_deps(
        &self,
        name: &str,
        result: &mut Vec<String>,
        path: &mut Vec<String>
    ) -> (r: Result<
        (),
        StartError,
    >)
        requires
            self.wf(),
        ensures
            ({
                let (e, o) = visit(
                    self.apps(),
                    name@,
                    table::views(old(result)@),
                    table::views(old(path)@),
                );
                &&& table::views(final(result)@) == o
                &&& match r {
                    Ok(_) => e is None && table::views(final(path)@) == table::views(old(path)@),
                    Err(s) => e is Some && start_error(s) == e,
                }
            }),
        decreases off_path(self.apps(), table::views(old(path)@)),
    {
        proof {
            self.law_finite();
        }
        let ghost reg = self.apps();
        let ghost path0 = table::views(path@);
        let ghost order0 = table::views(result@);
        if has_name(path, name) {
            path.push(name.to_owned());
            assert(table::views(path@) =~= path0.push(name@));
            let way = copy_names(path);
            return Err(StartError::CircularDependency(way));
        }
        if has_name(result, name) {
            return Ok(());
        }
        let spec = match self.registered.get(&name.to_owned()) {
            Some(s) => s,
            None => {
                return Err(StartError::NotFound(name.to_owned()));
            },
        };
        let ghost deps = reg[name@];
        proof {
            lemma_fewer(reg, name@, path0);
        }
        path.push(name.to_owned());
        let ghost path1 = path0.push(name@);
        assert(table::views(path@) =~= path1);
        let mut i: usize = 0;
        assert(deps.skip(0) =~= deps);
        while i < spec.dependencies.len()
            invariant
                self.wf(),
                reg == self.apps(),
                reg.dom().finite(),
                deps == table::views(spec.dependencies@),
                i <= spec.dependencies@.len(),
                table::views(path@) == path1,
                off_path(reg, path1) < off_path(reg, path0),
                visit_list(reg, deps, order0, path1) == visit_list(
                    reg,
                    deps.skip(i as int),
                    table::views(result@),
                    path1,
                ),
                visit(reg, name@, order0, path0) == ({
                    let (e, o) = visit_list(reg, deps, order0, path1);
                    match e {
                        Some(_) => (e, o),
                        None => (None, o.push(name@)),
                    }
                }),
                path0 == table::views(old(path)@),
                order0 == table::views(old(result)@),
            decreases spec.dependencies@.len() - i,
        {
            let ghost rest = deps.skip(i as int);
            assert(rest[0] == spec.dependencies@[i as int]@);
            assert(rest.drop_first() =~= deps.skip(i + 1));
            match self.visit_deps(spec.dependencies[i].as_str(), result, path) {
                Ok(()) => {},
                Err(e) => {
                    return Err(e);
                },
            }
            i = i + 1;
        }
        assert(deps.skip(i as int).len() == 0);
        path.pop();
        assert(table::views(path@) =~= path0) by {
            assert(path1.drop_last() =~= path0);
        }
        let ghost o = table::views(result@);
        result.push(name.to_owned());
        assert(table::views(result@) =~= o.push(name@));
        Ok(())
    }

    fn settle_deps(&self, name: &str, result: &mut Vec<String>, path: &mut Vec<String>)
        requires
            self.wf(),
        ensures
            table::views(final(result)@) == settle(
                self.apps(),
                name@,
                table::views(old(result)@),
                table::views(old(path)@),
            ),
            table::views(final(path)@) == table::views(old(path)@),
        decreases off_path(self.apps(), table::views(old(path)@)),
    {
        proof {
            self.law_finite();
        }
        let ghost reg = self.apps();
        let ghost path0 = table::views(path@);
        let ghost order0 = table::views(result@);
        if has_name(path, name) || has_name(result, name) {
            return ;
        }
        match self.registered.get(&name.to_owned()) {
            Some(spec) => {
                let ghost deps = reg[name@];
                proof {
                    lemma_fewer(reg, name@, path0);
                }
                path.push(name.to_owned());
                let ghost path1 = path0.push(name@);
                assert(table::views(path@) =~= path1);
                let mut i: usize = 0;
                assert(deps.skip(0) =~= deps);
                while i < spec.dependencies.len()
                    invariant
                        self.wf(),
                        reg == self.apps(),
                        reg.dom().finite(),
                        deps == table::views(spec.dependencies@),
                        i <= spec.dependencies@.len(),
                        table::views(path@) == path1,
                        off_path(reg, path1) < off_path(reg, path0),
                        settle_list(reg, deps, order0, path1) == settle_list(
                            reg,
                            deps.skip(i as int),
                            table::views(result@),
                            path1,
                        ),
                        path0 == table::views(old(path)@),
                    decreases spec.dependencies@.len() - i,
                {
                    let ghost rest = deps.skip(i as int);
                    assert(rest[0] == spec.dependencies@[i as int]@);
                    assert(rest.drop_first() =~= deps.skip(i + 1));
                    self.settle_deps(spec.dependencies[i].as_str(), result, path);
                    i = i + 1;
                }
                assert(deps.skip(i as int).len() == 0);
                path.pop();
                assert(table::views(path@) =~= path0) by {
                    assert(path1.drop_last() =~= path0);
                }
            },
            None => {},
        }
        let ghost o = table::views(result@);
        result.push(name.to_owned());
        assert(table::views(result@) =~= o.push(name@));
    }

    /// The order in which an application and what it depends on start.
    pub fn resolve_dependencies(&self, name: &str) -> (r: Result<Vec<String>, StartError>)
        requires
            self.wf(),
        ensures
            match r {
                Ok(order) => start_order(self.apps(), name@) == (
                    None::<VisitError>,
                    table::views(order@),
                ),
                Err(e) => start_error(e) is Some && start_error(e) == start_order(
                    self.apps(),
                    name@,
                ).0,
            },
    {
        let mut result: Vec<String> = Vec::new();
        let mut path: Vec<String> = Vec::new();
        assert(table::views(result@) =~= Seq::empty());
        assert(table::views(path@) =~= Seq::empty());
        match self.visit_deps(name, &mut result, &mut path) {
            Ok(()) => Ok(result),
            Err(e) => Err(e),
        }
    }

    /// Begins to start an application: the order in which it and what it depends on are to be
    /// started.
    pub fn start_with_config(&self, name: &str) -> (r: Result<Vec<String>, StartError>)
        requires
            self.wf(),
        ensures
            if self.live().contains_key(name@) {
                r matches Err(StartError::AlreadyRunning(n)) && n@ == name@
            } else {
                match r {
                    Ok(order) => start_order(self.apps(), name@) == (
                        None::<VisitError>,
                        table::views(order@),
                    ),
                    Err(e) => start_error(e) is Some && start_error(e) == start_order(
                        self.apps(),
                        name@,
                    ).0,
                }
            },
    {
        if self.is_running(name) {
            return Err(StartError::AlreadyRunning(name.to_owned()));
        }
        self.resolve_dependencies(name)
    }

    /// What is to be done about an application in the order of `name`.
    pub fn start_step(&self, app_name: &str, name: &str) -> (r: StartStep)
        requires
            self.wf(),
        ensures
            r == (if self.live().contains_key(app_name@) {
                StartStep::Skip
            } else if !self.apps().contains_key(app_name@) {
                StartStep::Missing
            } else if app_name@ == name@ {
                StartStep::StartConfigured
            } else {
                StartStep::StartDefault
            }),
    {
        if self.is_running(app_name) {
            return StartStep::Skip;
        }
        if !self.registered.contains_key(&app_name.to_owned()) {
            return StartStep::Missing;
        }
        if crate::text::same_str(app_name, name) {
            StartStep::StartConfigured
        } else {
            StartStep::StartDefault
        }
    }

    /// Notes what starting an application came to.
    pub fn started(&mut self, app_name: &str, result: Result<Option<Pid>, String>) -> (r: Result<
        (),
        StartError,
    >)
        requires
            old(self).wf(),
        ensures
            final(self).wf(),
            final(self).apps() == old(self).apps(),
            match result {
                Ok(pid) => r is Ok && final(self).live() == old(self).live().insert(
                    app_name@,
                    running_view(pid),
                ),
                Err(text) => r == Err::<(), StartError>(StartError::StartFailed(text))
                    && final(self).live() == old(self).live(),
            },
    {
        match result {
            Ok(pid) => {
                self.running.insert(app_name.to_owned(), pid);
                assert(self.live() =~= old(self).live().insert(app_name@, running_view(pid)));
                Ok(())
            },
            Err(text) => Err(StartError::StartFailed(text)),
        }
    }

    /// Stops an application.
    pub fn stop(&mut self, name: &str) -> (r: Result<Stopped, StopError>)
        requires
            old(self).wf(),
        ensures
            final(self).wf(),
            final(self).apps() == old(self).apps(),
            final(self).live() == old(self).live().remove(name@),
            if old(self).live().contains_key(name@) {
                r matches Ok(s) && running_view(s.pid) == old(self).live()[name@] && s.known
                    == old(self).apps().contains_key(name@)
            } else {
                r matches Err(StopError::NotRunning(n)) && n@ == name@
            },
    {
        let key = name.to_owned();
        let was = self.running.remove(&key);
        assert(self.live() =~= old(self).live().remove(name@));
        match was {
            Some(pid) => Ok(Stopped { pid, known: self.registered.contains_key(&key) }),
            None => Err(StopError::NotRunning(key)),
        }
    }

    /// The order in which everything that runs is stopped.
    pub fn stop_all(&self) -> (r: Vec<String>)
        requires
            self.wf(),
        ensures
            table::views(r@) == gathered(self.apps(), self.live_order()).reverse(),
            forall|k: Seq<char>| #[trigger]
                self.live().contains_key(k) ==> table::views(r@).contains(k),
    {
        let ghost reg = self.apps();
        let ghost names = self.live_order();
        let mut order: Vec<String> = Vec::new();
        let mut i: usize = 0;
        assert(names.take(0) =~= Seq::empty());
        assert(table::views(order@) =~= Seq::empty());
        while i < self.running.rows.len()
            invariant
                self.wf(),
                reg == self.apps(),
                names == self.live_order(),
                i <= self.running.rows@.len(),
                table::views(order@) == gathered(reg, names.take(i as int)),
            decreases self.running.rows@.len() - i,
        {
            let mut path: Vec<String> = Vec::new();
            assert(table::views(path@) =~= Seq::empty());
            self.settle_deps(self.running.rows[i].0.as_str(), &mut order, &mut path);
            proof {
                assert(names.take(i + 1).drop_last() =~= names.take(i as int));
                assert(names.take(i + 1).last() == names[i as int]);
            }
            i = i + 1;
        }
        assert(names.take(names.len() as int) =~= names);
        let ghost all = table::views(order@);
        let mut out: Vec<String> = Vec::new();
        let mut j: usize = order.len();
        while j > 0
            invariant
                j <= order@.len(),
                out@.len() == order@.len() - j,
                forall|k: int|
                    0 <= k < out@.len() ==> #[trigger] out@[k]@ == order@[order@.len() - 1 - k]@,
            decreases j,
        {
            j = j - 1;
            out.push(order[j].clone());
        }
        proof {
            let back = all.reverse();
            assert(table::views(out@) =~= back);
            self.law_finite();
            law_dependents_stop_first(reg, names);
            assert forall|k: Seq<char>| #[trigger] self.live().contains_key(k) implies back.contains(
                k,
            ) by {
                assert(names.contains(k));
                let x = choose|x: int| 0 <= x < all.len() && all[x] == k;
                assert(back[all.len() - 1 - x] == k);
            }
        }
        out
    }

    /// The registered applications.
    pub fn list_registered(&self) -> (r: Vec<AppSpec>)
        requires
            self.wf(),
        ensures
            forall|i: int|
                0 <= i < r@.len() ==> self.apps().contains_key((#[trigger] r@[i]).name@)
                    && self.apps()[r@[i].name@] == table::views(r@[i].dependencies@),
            forall|k: Seq<char>| #[trigger]
                self.apps().contains_key(k) ==> exists|i: int|
                    0 <= i < r@.len() && (#[trigger] r@[i]).name@ == k,
            forall|i: int, j: int|
                0 <= i < j < r@.len() ==> (#[trigger] r@[i]).name@ != (#[trigger] r@[j]).name@,
    {
        let rows = &self.registered.rows;
        let mut out: Vec<AppSpec> = Vec::new();
        let mut i: usize = 0;
        while i < rows.len()
            invariant
                i <= rows@.len(),
                out@.len() == i,
                forall|j: int|
                    0 <= j < i ==> (#[trigger] out@[j]).name@ == rows@[j].1.name@ && table::views(
                        out@[j].dependencies@,
                    ) == table::views(rows@[j].1.dependencies@),
            decreases rows@.len() - i,
        {
            out.push(rows[i].1.clone());
            i = i + 1;
        }
        proof {
            assert forall|j: int| 0 <= j < rows@.len() implies self.registered@.contains_key(
                (#[trigger] rows@[j]).0@,
            ) && self.registered@[rows@[j].0@] == rows@[j].1 && rows@[j].1.name@ == rows@[j].0@ by {
                table::lemma_row(rows@, j);
            }
            assert forall|k: Seq<char>| #[trigger] self.apps().contains_key(k) implies exists|
                i: int,
            |
                0 <= i < out@.len() && (#[trigger] out@[i]).name@ == k by {
                let i = table::lemma_key(rows@, k);
                assert(out@[i].name@ == k);
            }
            assert forall|i: int, j: int| 0 <= i < j < out@.len() implies (#[trigger] out@[i]).name@
                != (#[trigger] out@[j]).name@ by {
                assert(rows@[i].0@ != rows@[j].0@);
            }
        }
        out
    }

    /// The running applications.
    pub fn list_running(&self) -> (r: Vec<AppInfo>)
        requires
            self.wf(),
        ensures
            r@.len() == self.live_order().len(),
            forall|i: int|
                0 <= i < r@.len() ==> {
                    let info = #[trigger] r@[i];
                    &&& info.name@ == self.live_order()[i]
                    &&& running_view(info.pid) == self.live()[info.name@]
                    &&& info.running
                    &&& table::views(info.dependencies@) == (if self.apps().contains_key(
                        info.name@,
                    ) {
                        self.apps()[info.name@]
                    } else {
                        Seq::empty()
                    })
                },
    {
        let rows = &self.running.rows;
        let mut out: Vec<AppInfo> = Vec::new();
        let mut i: usize = 0;
        while i < rows.len()
            invariant
                self.wf(),
                rows@ == self.running.rows@,
                i <= rows@.len(),
                out@.len() == i,
                forall|j: int|
                    0 <= j < i ==> {
                        let info = #[trigger] out@[j];
                        &&& info.name@ == self.live_order()[j]
                        &&& running_view(info.pid) == self.live()[info.name@]
                        &&& info.running
                        &&& table::views(info.dependencies@) == (if self.apps().contains_key(
                            info.name@,
                        ) {
                            self.apps()[info.name@]
                        } else {
                            Seq::empty()
                        })
                    },
            decreases rows@.len() - i,
        {
            proof {
                table::lemma_row(rows@, i as int);
            }
            let name = rows[i].0.clone();
            let pid = match &rows[i].1 {
                Some(p) => Some(p.clone()),
                None => None,
            };
            let dependencies = match self.registered.get(&name) {
                Some(s) => copy_names(&s.dependencies),
                None => {
                    let none: Vec<String> = Vec::new();
                    assert(table::views(none@) =~= Seq::empty());
                    none
                },
            };
            out.push(AppInfo { name, pid, dependencies, running: true });
            i = i + 1;
        }
        out
    }

    /// Whether an application runs.
    pub fn is_running(&self, name: &str) -> (r: bool)
        requires
            self.wf(),
        ensures
            r == self.live().contains_key(name@),
    {
        self.running.contains_key(&name.to_owned())
    }
}

/// A way that leads from what an application depends on is one from the application, too.
proof fn lemma_depends_step(reg: Registered, name: Seq<char>, d: Seq<char>, to: Seq<char>)
    requires
        reg.contains_key(name),
        reg[name].contains(d),
        depends(reg, d, to),
    ensures
        depends(reg, name, to),
{
    let way = choose|way: Seq<Seq<char>>| #[trigger] leads(reg, way, d, to);
    let more = seq![name] + way;
    assert forall|i: int| 0 <= i < more.len() - 1 implies reg.contains_key(#[trigger] more[i])
        && reg[more[i]].contains(more[i + 1]) by {
        if i > 0 {
            assert(more[i] == way[i - 1]);
            assert(more[i + 1] == way[i]);
        } else {
            assert(more[1] == way[0]);
        }
    }
    assert(more.last() == way.last());
    assert(leads(reg, more, name, to));
}

proof fn lemma_depends_on_itself(reg: Registered, name: Seq<char>)
    ensures
        depends(reg, name, name),
{
    assert(leads(reg, seq![name], name, name));
}

/// What gets into an order on account of an application is what it depends on.
proof fn lemma_visit_reaches(
    reg: Registered,
    name: Seq<char>,
    order: Seq<Seq<char>>,
    path: Seq<Seq<char>>,
    k: Seq<char>,
)
    requires
        reg.dom().finite(),
        visit(reg, name, order, path).1.contains(k),
        !order.contains(k),
    ensures
        depends(reg, name, k),
    decreases off_path(reg, path), 0nat,
{
    if !path.contains(name) && !order.contains(name) && reg.contains_key(name) {
        lemma_fewer(reg, name, path);
        let (e, o) = visit_list(reg, reg[name], order, path.push(name));
        if o.contains(k) {
            lemma_visit_list_reaches(reg, reg[name], order, path.push(name), k);
            let i = choose|i: int|
                0 <= i < reg[name].len() && depends(reg, #[trigger] reg[name][i], k);
            lemma_depends_step(reg, name, reg[name][i], k);
        } else {
            let i = choose|i: int| 0 <= i < o.push(name).len() && o.push(name)[i] == k;
            if i < o.len() {
                assert(o[i] == k);
            }
            lemma_depends_on_itself(reg, name);
        }
    }
}

proof fn lemma_visit_list_reaches(
    reg: Registered,
    names: Seq<Seq<char>>,
    order: Seq<Seq<char>>,
    path: Seq<Seq<char>>,
    k: Seq<char>,
)
    requires
        reg.dom().finite(),
        visit_list(reg, names, order, path).1.contains(k),
        !order.contains(k),
    ensures
        exists|i: int| 0 <= i < names.len() && depends(reg, #[trigger] names[i], k),
    decreases off_path(reg, path), names.len(),
{
    if names.len() > 0 {
        let (e, o) = visit(reg, names[0], order, path);
        if o.contains(k) {
            lemma_visit_reaches(reg, names[0], order, path, k);
        } else {
            let rest = names.drop_first();
            lemma_visit_list_reaches(reg, rest, o, path, k);
            let i = choose|i: int| 0 <= i < rest.len() && depends(reg, #[trigger] rest[i], k);
            assert(names[i + 1] == rest[i]);
        }
    }
}

/// Of two applications that are put into an order one after the other, the first comes before the
/// second, unless the second is needed by the first or by one before it.
proof fn lemma_in_their_order(
    reg: Registered,
    names: Seq<Seq<char>>,
    order: Seq<Seq<char>>,
    path: Seq<Seq<char>>,
    i: int,
    j: int,
) -> (r: (int, int))
    requires
        reg.dom().finite(),
        is_startable(reg, order),
        forall|k: Seq<char>| path.contains(k) ==> !order.contains(k),
        visit_list(reg, names, order, path).0 is None,
        0 <= i < j < names.len(),
        !order.contains(names[j]),
        forall|m: int| 0 <= m <= i ==> !depends(reg, #[trigger] names[m], names[j]),
    ensures
        0 <= r.0 < r.1 < visit_list(reg, names, order, path).1.len(),
        visit_list(reg, names, order, path).1[r.0] == names[i],
        visit_list(reg, names, order, path).1[r.1] == names[j],
    decreases names.len(),
{
    let o = visit_list(reg, names, order, path).1;
    let (e, o1) = visit(reg, names[0], order, path);
    let rest = names.drop_first();
    lemma_visit(reg, names[0], order, path);
    if o1.contains(names[j]) {
        lemma_visit_reaches(reg, names[0], order, path, names[j]);
    }
    if i == 0 {
        lemma_visit_list(reg, rest, o1, path);
        lemma_visit_list(reg, names, order, path);
        let a = choose|a: int| 0 <= a < o1.len() && o1[a] == names[0];
        assert(o.contains(names[j]));
        let b = choose|b: int| 0 <= b < o.len() && o[b] == names[j];
        assert(o1[a] == o[a]);
        if b < o1.len() {
            assert(o1[b] == o[b]);
        }
        (a, b)
    } else {
        assert forall|m: int| 0 <= m <= i - 1 implies !depends(
            reg,
            #[trigger] rest[m],
            rest[j - 1],
        ) by {
            assert(rest[m] == names[m + 1]);
        }
        lemma_in_their_order(reg, rest, o1, path, i - 1, j - 1)
    }
}

/// What is resolved for an application is an order in which it can be started, with nothing in it
/// but the application, which comes last, and what it depends on, each behind all that it depends
/// on in turn. Where there is none, the dependencies lead back to where they were, or to an
/// application that is not registered, and the way or the name is said.
pub proof fn law_resolved_order_can_be_started(
    c: &AppController,
    name: &str,
    r: Result<Vec<String>, StartError>,
    k: Seq<char>,
)
    requires
        c.wf(),
        call_ensures(AppController::resolve_dependencies, (c, name), r),
    ensures
        match r {
            Ok(order) => {
                let o = table::views(order@);
                &&& is_startable(c.apps(), o)
                &&& o.len() > 0 && o.last() == name@
                &&& o.contains(k) ==> depends(c.apps(), name@, k)
            },
            Err(StartError::CircularDependency(way)) => {
                let w = table::views(way@);
                &&& leads(c.apps(), w, name@, w.last())
                &&& w.len() >= 2 && w.drop_last().contains(w.last())
            },
            Err(StartError::NotFound(m)) => !c.apps().contains_key(m@) && depends(
                c.apps(),
                name@,
                m@,
            ),
            Err(_) => false,
        },
{
    let reg = c.apps();
    let none = Seq::<Seq<char>>::empty();
    c.law_finite();
    law_dependencies_start_first(reg, name@);
    law_refusals_are_justified(reg, name@);
    match r {
        Ok(order) => {
            if table::views(order@).contains(k) {
                lemma_visit_reaches(reg, name@, none, none, k);
            }
        },
        Err(_) => {},
    }
}

/// An application that does not run is started in the order that is resolved for it; one that
/// runs is refused.
pub proof fn law_running_application_is_not_started(
    c: &AppController,
    name: &str,
    r: Result<Vec<String>, StartError>,
    resolved: Result<Vec<String>, StartError>,
)
    requires
        c.wf(),
        call_ensures(AppController::start_with_config, (c, name), r),
        call_ensures(AppController::resolve_dependencies, (c, name), resolved),
    ensures
        c.live().contains_key(name@) ==> (r matches Err(StartError::AlreadyRunning(n)) && n@
            == name@),
        !c.live().contains_key(name@) ==> (r is Ok <==> resolved is Ok) && (r matches Ok(a)
            ==> resolved matches Ok(b) && table::views(a@) == table::views(b@)),
{
}

/// Of two applications that an application depends on, that which it names first is started first,
/// unless it, or one named before it, needs the other.
pub proof fn law_dependencies_start_in_their_order(
    c: &AppController,
    name: &str,
    order: Vec<String>,
    i: int,
    j: int,
)
    requires
        c.wf(),
        call_ensures(
            AppController::resolve_dependencies,
            (c, name),
            Ok::<Vec<String>, StartError>(order),
        ),
        c.apps().contains_key(name@),
        0 <= i < j < c.apps()[name@].len(),
        forall|m: int|
            0 <= m <= i ==> !depends(
                c.apps(),
                #[trigger] c.apps()[name@][m],
                c.apps()[name@][j],
            ),
    ensures
        exists|a: int, b: int|
            0 <= a < b < order@.len() && (#[trigger] order@[a])@ == c.apps()[name@][i] && (
            #[trigger] order@[b])@ == c.apps()[name@][j],
{
    let reg = c.apps();
    let none = Seq::<Seq<char>>::empty();
    c.law_finite();
    let deps = reg[name@];
    let path = none.push(name@);
    let (e, o) = visit_list(reg, deps, none, path);
    let (a, b) = lemma_in_their_order(reg, deps, none, path, i, j);
    assert(table::views(order@) == o.push(name@));
    assert(table::views(order@).len() == order@.len());
    assert(table::views(order@)[a] == order@[a]@);
    assert(table::views(order@)[b] == order@[b]@);
}

/// What is put in an order on account of an application is what it depends on.
proof fn lemma_settle_reaches(
    reg: Registered,
    name: Seq<char>,
    order: Seq<Seq<char>>,
    path: Seq<Seq<char>>,
    k: Seq<char>,
)
    requires
        reg.dom().finite(),
        settle(reg, name, order, path).contains(k),
        !order.contains(k),
    ensures
        depends(reg, name, k),
    decreases off_path(reg, path), 0nat,
{
    lemma_depends_on_itself(reg, name);
    if !path.contains(name) && !order.contains(name) {
        if !reg.contains_key(name) {
            let i = choose|i: int| 0 <= i < order.push(name).len() && order.push(name)[i] == k;
            if i < order.len() {
                assert(order[i] == k);
            }
        } else {
            lemma_fewer(reg, name, path);
            let o = settle_list(reg, reg[name], order, path.push(name));
            if o.contains(k) {
                lemma_settle_list_reaches(reg, reg[name], order, path.push(name), k);
                let i = choose|i: int|
                    0 <= i < reg[name].len() && depends(reg, #[trigger] reg[name][i], k);
                lemma_depends_step(reg, name, reg[name][i], k);
            } else {
                let i = choose|i: int| 0 <= i < o.push(name).len() && o.push(name)[i] == k;
                if i < o.len() {
                    assert(o[i] == k);
                }
            }
        }
    }
}

proof fn lemma_settle_list_reaches(
    reg: Registered,
    names: Seq<Seq<char>>,
    order: Seq<Seq<char>>,
    path: Seq<Seq<char>>,
    k: Seq<char>,
)
    requires
        reg.dom().finite(),
        settle_list(reg, names, order, path).contains(k),
        !order.contains(k),
    ensures
        exists|i: int| 0 <= i < names.len() && depends(reg, #[trigger] names[i], k),
    decreases off_path(reg, path), names.len(),
{
    if names.len() > 0 {
        let o = settle(reg, names[0], order, path);
        if o.contains(k) {
            lemma_settle_reaches(reg, names[0], order, path, k);
        } else {
            let rest = names.drop_first();
            lemma_settle_list_reaches(reg, rest, o, path, k);
            let i = choose|i: int| 0 <= i < rest.len() && depends(reg, #[trigger] rest[i], k);
            assert(names[i + 1] == rest[i]);
        }
    }
}

proof fn lemma_gathered_reaches(reg: Registered, names: Seq<Seq<char>>, k: Seq<char>)
    requires
        reg.dom().finite(),
        gathered(reg, names).contains(k),
    ensures
        exists|i: int| 0 <= i < names.len() && depends(reg, #[trigger] names[i], k),
    decreases names.len(),
{
    if names.len() > 0 {
        let rest = names.drop_last();
        let o = gathered(reg, rest);
        if o.contains(k) {
            lemma_gathered_reaches(reg, rest, k);
            let i = choose|i: int| 0 <= i < rest.len() && depends(reg, #[trigger] rest[i], k);
            assert(names[i] == rest[i]);
        } else {
            lemma_settle_reaches(reg, names.last(), o, Seq::empty(), k);
            assert(names[names.len() - 1] == names.last());
        }
    }
}

/// Everything that runs is stopped, each once, and nothing but that and what it depends on. What
/// an application depends on is stopped after it, except for what depends on it in turn.
pub proof fn law_all_are_stopped_in_order(
    c: &AppController,
    r: Vec<String>,
    k: Seq<char>,
    i: int,
    d: int,
)
    requires
        c.wf(),
        call_ensures(AppController::stop_all, (c,), r),
    ensures
        table::views(r@).no_duplicates(),
        c.live().contains_key(k) ==> table::views(r@).contains(k),
        table::views(r@).contains(k) ==> exists|n: Seq<char>|
            c.live().contains_key(n) && #[trigger] depends(c.apps(), n, k),
        0 <= i < r@.len() && c.apps().contains_key(r@[i]@) && 0 <= d < c.apps()[r@[i]@].len()
            ==> depends(c.apps(), c.apps()[r@[i]@][d], r@[i]@) || exists|j: int|
            i < j < r@.len() && (#[trigger] r@[j])@ == c.apps()[r@[i]@][d],
{
    let reg = c.apps();
    let live = c.live_order();
    let o = gathered(reg, live);
    let v = table::views(r@);
    let n = o.len();
    c.law_finite();
    law_dependents_stop_first(reg, live);
    assert(v == o.reverse());
    assert forall|a: int, b: int| 0 <= a < v.len() && 0 <= b < v.len() && a != b implies v[a]
        != v[b] by {
        assert(v[a] == o[n - 1 - a]);
        assert(v[b] == o[n - 1 - b]);
    }
    if v.contains(k) {
        let a = choose|a: int| 0 <= a < v.len() && v[a] == k;
        assert(o[n - 1 - a] == k);
        lemma_gathered_reaches(reg, live, k);
        let x = choose|x: int| 0 <= x < live.len() && depends(reg, #[trigger] live[x], k);
        assert(live.contains(live[x]));
        assert(c.live().contains_key(live[x]));
    }
    if 0 <= i < r@.len() && reg.contains_key(r@[i]@) && 0 <= d < reg[r@[i]@].len() {
        let p = n - 1 - i;
        let dep = reg[r@[i]@][d];
        assert(v[i] == r@[i]@);
        assert(o[p] == v[i]);
        assert(is_behind(reg, o, p));
        if o.take(p).contains(dep) {
            let q = choose|q: int| 0 <= q < o.take(p).len() && o.take(p)[q] == dep;
            let j = n - 1 - q;
            assert(o[q] == dep);
            assert(v[j] == o[q]);
            assert(r@[j]@ == v[j]);
        }
    }
}

/// An application that was started runs, with the process that it was started with, until it is
/// stopped; then it does not, and the process is handed back. One whose start failed does not run,
/// and one that does not run cannot be stopped. The others are not touched.
pub proof fn law_started_runs_until_stopped(
    c: &mut AppController,
    name: &str,
    result: Result<Option<Pid>, String>,
    r: Result<(), StartError>,
    mid: &AppController,
    runs: bool,
    d: &mut AppController,
    s: Result<Stopped, StopError>,
    other: Seq<char>,
)
    requires
        old(c).wf(),
        !old(c).live().contains_key(name@),
        other != name@,
        call_ensures(AppController::started, (c, name, result), r),
        *mid == *final(c),
        call_ensures(AppController::is_running, (mid, name), runs),
        *old(d) == *final(c),
        call_ensures(AppController::stop, (d, name), s),
    ensures
        match result {
            Ok(pid) => {
                &&& r is Ok
                &&& runs
                &&& s matches Ok(stopped) && crate::process::pid_option(stopped.pid)
                    == crate::process::pid_option(pid)
            },
            Err(text) => {
                &&& r == Err::<(), StartError>(StartError::StartFailed(text))
                &&& !runs
                &&& s matches Err(StopError::NotRunning(n)) && n@ == name@
            },
        },
        !final(d).live().contains_key(name@),
        final(d).live().contains_key(other) == old(c).live().contains_key(other),
        final(c).live().contains_key(other) == old(c).live().contains_key(other),
        final(d).apps() == old(c).apps(),
{
}

/// An application that is registered is known with its dependencies, and is started with its own
/// configuration only where it is the one that was asked for; one that is not registered is
/// missing, and one that runs is skipped.
pub proof fn law_registered_application_is_started(
    c: &mut AppController,
    spec: AppSpec,
    after: &AppController,
    app: &str,
    asked: &str,
    step: StartStep,
)
    requires
        old(c).wf(),
        call_ensures(AppController::register, (c, spec), ()),
        *after == *final(c),
        call_ensures(AppController::start_step, (after, app, asked), step),
    ensures
        after.apps().contains_key(spec.name@),
        after.apps()[spec.name@] == table::views(spec.dependencies@),
        after.live() == old(c).live(),
        old(c).live().contains_key(app@) ==> step is Skip,
        !old(c).live().contains_key(app@) && app@ == spec.name@ ==> (step is StartConfigured <==> app@
            == asked@) && (step is StartDefault <==> app@ != asked@),
        !old(c).live().contains_key(app@) && app@ != spec.name@ && !old(c).apps().contains_key(app@)
            ==> step is Missing,
{
}

} // verus!
