//! Stopping services: dependents first, each with its own signal and time.

use crate::names::{NameMap, NameSet};
use crate::svmgr::cgroup::monitor::{watch_dropped, CgroupMonitor, Watch};
use crate::svmgr::dependency::cycle::{acyclic, lemma_closed_set_has_cycle};
use crate::svmgr::dependency::graph::{
    built_from, lemma_one_less, lemma_prefix, lists_make_dependencies, DependencyGraph,
};
use crate::svmgr::config::service::{
    duration_fits, duration_goes_by_its_unit, duration_secs, parse_duration_secs,
    usual_stop_signal, ServiceDef,
};
use crate::svmgr::supervisor::lifecycle::ServiceState;
use crate::svmgr::supervisor::tree::{
    has_worker, same_shape, worker, NodeId, Nodes, SupervisorTree, TreeNode, WorkerNode,
};
use crate::text::num::dec;
use crate::text::{clone_strings, str_eq, texts};
use crate::time::{Duration, Instant};
use std::collections::VecDeque;
use vstd::prelude::*;

verus! {

/// Whether `o` lists the services of `g`, each once, in an order for
/// stopping: from some place on, each comes before all that it depends on;
/// each before that place depends on another before it.
pub open spec fn stop_order(g: DependencyGraph, o: Seq<Seq<char>>) -> bool {
    &&& o.no_duplicates()
    &&& o.to_set() == g.names()
    &&& exists|k: int| #[trigger] stop_order_from(g, o, k)
}

/// The parts of `stop_order` that speak of the place.
pub open spec fn stop_order_from(g: DependencyGraph, o: Seq<Seq<char>>, k: int) -> bool {
    &&& 0 <= k <= o.len()
    &&& forall|i: int, j: int|
        k <= i < o.len() && 0 <= j < o.len() && g.dep(#[trigger] o[i], #[trigger] o[j]) ==> i < j
    &&& forall|i: int| 0 <= i < k ==> #[trigger] depends_within(g, o[i], o.take(k))
}

/// Whether `x` depends on a member of `s`.
pub open spec fn depends_within(g: DependencyGraph, x: Seq<char>, s: Seq<Seq<char>>) -> bool {
    exists|j: int| 0 <= j < s.len() && g.dep(x, #[trigger] s[j])
}

/// Where there is no cycle, every dependent is stopped before all that it
/// depends on.
pub proof fn dependents_stop_first(g: DependencyGraph, o: Seq<Seq<char>>)
    requires
        g.wf(),
        acyclic(g),
        stop_order(g, o),
    ensures
        forall|i: int, j: int|
            0 <= i < o.len() && 0 <= j < o.len() && g.dep(#[trigger] o[i], #[trigger] o[j]) ==> i
                < j,
{
    let k = choose|k: int| #[trigger] stop_order_from(g, o, k);
    if k > 0 {
        let u = o.take(k).to_set();
        vstd::seq_lib::seq_to_set_is_finite(o.take(k));
        assert forall|x: Seq<char>| #[trigger] u.contains(x) implies exists|d: Seq<char>|
            u.contains(d) && g.dep(x, d) by {
            let i = choose|i: int| 0 <= i < k && o.take(k)[i] == x;
            assert(depends_within(g, o[i], o.take(k)));
            let j = choose|j: int| 0 <= j < k && g.dep(x, #[trigger] o.take(k)[j]);
            assert(u.contains(o.take(k)[j]) && g.dep(x, o.take(k)[j]));
        }
        assert(o.take(k)[0] == o[0]);
        assert(u.contains(o[0]));
        lemma_closed_set_has_cycle(g, u, o[0]);
    }
}

/// The dependencies of `x` that have not been visited.
spec fn left(g: DependencyGraph, x: Seq<char>, visited: Set<Seq<char>>) -> Set<Seq<char>> {
    g.deps(x).difference(visited)
}

/// Each service in `f` comes behind all that it depends on.
spec fn forward_order(g: DependencyGraph, f: Seq<Seq<char>>) -> bool {
    forall|i: int, d: Seq<char>|
        0 <= i < f.len() && #[trigger] g.dep(f[i], d) ==> f.take(i).contains(d)
}

proof fn lemma_forward_push(g: DependencyGraph, f: Seq<Seq<char>>, x: Seq<char>)
    requires
        g.wf(),
        forward_order(g, f),
        left(g, x, f.to_set()).len() == 0,
    ensures
        forward_order(g, f.push(x)),
{
    let q = f.push(x);
    lemma_one_less(g, x, f.to_set(), x);
    assert forall|i: int, d: Seq<char>| 0 <= i < q.len() && #[trigger] g.dep(q[i], d) implies q.take(
        i,
    ).contains(d) by {
        if i < f.len() {
            assert(q[i] == f[i]);
            assert(q.take(i) == f.take(i));
        } else {
            let rest = left(g, x, f.to_set());
            rest.lemma_len0_is_empty();
            assert(!rest.contains(d));
            assert(f.to_set().contains(d));
            assert(q.take(i) == f);
        }
    }
}

/// The services in reverse.
fn reversed(v: &Vec<String>) -> (r: Vec<String>)
    ensures
        r@ == v@.reverse(),
{
    let mut r: Vec<String> = Vec::new();
    let mut i: usize = v.len();
    while i > 0
        invariant
            i <= v.len(),
            r@.len() == v@.len() - i,
            forall|k: int| 0 <= k < r@.len() ==> r@[k] == #[trigger] v@[v@.len() - 1 - k],
            forall|k: int| 0 <= k < r@.len() ==> #[trigger] r@[k] == v@[v@.len() - 1 - k],
        decreases i,
    {
        i -= 1;
        r.push(v[i].clone());
    }
    assert(r@ =~= v@.reverse());
    r
}

/// Visits the services that can be put behind all that they depend on.
fn forward(graph: &DependencyGraph) -> (r: Vec<String>)
    requires
        graph.wf(),
    ensures
        texts(r@).no_duplicates(),
        texts(r@).to_set().subset_of(graph.names()),
        forward_order(*graph, texts(r@)),
        forall|x: Seq<char>|
            graph.names().contains(x) && !texts(r@).to_set().contains(x) ==> #[trigger] left(
                *graph,
                x,
                texts(r@).to_set(),
            ).len() > 0,
{
    let services = graph.all_services();
    let n = services.len();
    let ghost o = services.order();
    let mut degree: NameMap<usize> = NameMap::new();
    let mut queue: VecDeque<String> = VecDeque::new();
    let mut order: Vec<String> = Vec::new();
    let mut visited = NameSet::new();
    proof {
        services.lemma_order();
        graph.lemma_wf();
        assert(texts(queue@) =~= Seq::<Seq<char>>::empty());
        assert(texts(order@) =~= Seq::<Seq<char>>::empty());
        assert(texts(order@).to_set() =~= Set::<Seq<char>>::empty());
        assert(o.take(0).to_set() =~= Set::<Seq<char>>::empty());
    }
    let mut i: usize = 0;
    while i < n
        invariant
            i <= n,
            n == o.len(),
            o == services.order(),
            services.wf(),
            graph.wf(),
            o.no_duplicates(),
            degree.wf(),
            degree@.dom() == o.take(i as int).to_set(),
            forall|k: Seq<char>| #[trigger]
                degree@.contains_key(k) ==> degree@[k] == graph.deps(k).len(),
            forall|k: Seq<char>| #[trigger]
                texts(queue@).contains(k) <==> degree@.contains_key(k) && degree@[k] == 0,
        decreases n - i,
    {
        let s = services.at(i);
        let count = graph.dependencies_of(s.as_str()).len();
        let ghost before = degree;
        degree.insert(s.clone(), count);
        proof {
            lemma_prefix(o, i as int);
            assert(degree@.dom() =~= o.take(i + 1).to_set());
        }
        if count == 0 {
            let ghost q = texts(queue@);
            queue.push_back(s.clone());
            assert(texts(queue@) =~= q.push(s@));
            assert forall|k: Seq<char>| #[trigger]
                texts(queue@).contains(k) <==> degree@.contains_key(k) && degree@[k] == 0 by {
                vstd::seq_lib::lemma_seq_contains_after_push(q, s@, k);
                assert(q.contains(k) <==> before@.contains_key(k) && before@[k] == 0);
            }
        } else {
            assert forall|k: Seq<char>| #[trigger]
                texts(queue@).contains(k) <==> degree@.contains_key(k) && degree@[k] == 0 by {
                assert(texts(queue@).contains(k) <==> before@.contains_key(k) && before@[k] == 0);
            }
        }
        i += 1;
    }
    proof {
        assert(o.take(n as int) == o);
        assert forall|k: Seq<char>| graph.names().contains(k) implies #[trigger] degree@[k] == left(
            *graph,
            k,
            visited@,
        ).len() by {
            assert(degree@.contains_key(k));
            assert(left(*graph, k, visited@) =~= graph.deps(k));
        }
    }
    while queue.len() > 0
        invariant
            graph.wf(),
            degree.wf(),
            visited.wf(),
            degree@.dom() == graph.names(),
            texts(order@).no_duplicates(),
            texts(order@).to_set() == visited@,
            visited@.subset_of(graph.names()),
            forward_order(*graph, texts(order@)),
            forall|k: Seq<char>|
                graph.names().contains(k) ==> #[trigger] degree@[k] == left(
                    *graph,
                    k,
                    visited@,
                ).len(),
            forall|k: Seq<char>| #[trigger]
                texts(queue@).contains(k) ==> graph.names().contains(k) && degree@[k] == 0,
            forall|k: Seq<char>|
                graph.names().contains(k) && #[trigger] degree@[k] == 0 ==> texts(queue@).contains(k)
                    || visited@.contains(k),
        decreases graph.names().difference(visited@).len(), queue@.len(),
    {
        let ghost q = texts(queue@);
        let ghost v0 = visited@;
        let svc = match queue.pop_front() {
            Some(s) => s,
            None => {
                assert(texts(queue@).len() == 0);
                return order;
            },
        };
        let ghost q1 = texts(queue@);
        proof {
            assert(q1 =~= q.drop_first());
            assert(q[0] == svc@);
            assert(q.contains(svc@));
            assert forall|x: Seq<char>| q.contains(x) implies x == svc@ || #[trigger] q1.contains(x) by {
                let k = choose|k: int| 0 <= k < q.len() && q[k] == x;
                if k > 0 {
                    assert(q1[k - 1] == x);
                }
            }
            assert forall|x: Seq<char>| #[trigger] q1.contains(x) implies q.contains(x) by {
                let k = choose|k: int| 0 <= k < q1.len() && q1[k] == x;
                assert(q[k + 1] == x);
            }
        }
        if !visited.contains(svc.as_str()) {
            let ghost f = texts(order@);
            proof {
                lemma_forward_push(*graph, f, svc@);
                graph.lemma_wf();
                assert(!graph.dep(svc@, svc@)) by {
                    if graph.dep(svc@, svc@) {
                        let rest = left(*graph, svc@, v0);
                        lemma_one_less(*graph, svc@, v0, svc@);
                    }
                }
            }
            visited.insert(svc.clone());
            order.push(svc.clone());
            let ghost v1 = visited@;
            proof {
                assert(texts(order@) =~= f.push(svc@));
                f.lemma_push_to_set_commute(svc@);
                assert(!f.contains(svc@)) by {
                    if f.contains(svc@) {
                        assert(f.to_set().contains(svc@));
                    }
                }
                let before = graph.names().difference(v0);
                assert(graph.names().difference(v1) =~= before.remove(svc@));
                vstd::set_lib::lemma_set_subset_finite(graph.names(), before);
                assert(before.contains(svc@));
            }
            let deps = graph.dependents_of(svc.as_str());
            let n = deps.len();
            let ghost o = deps.order();
            proof {
                deps.lemma_order();
                assert(o.take(0).to_set() =~= Set::<Seq<char>>::empty());
            }
            let mut i: usize = 0;
            while i < n
                invariant
                    i <= n,
                    n == o.len(),
                    o == deps.order(),
                    o.no_duplicates(),
                    deps.wf(),
                    graph.wf(),
                    deps@ == graph.dependents(svc@),
                    deps@ == o.to_set(),
                    degree.wf(),
                    degree@.dom() == graph.names(),
                    visited.wf(),
                    visited@ == v1,
                    v1 == v0.insert(svc@),
                    !v0.contains(svc@),
                    !graph.dep(svc@, svc@),
                    forall|k: Seq<char>|
                        graph.names().contains(k) ==> #[trigger] degree@[k] == left(
                            *graph,
                            k,
                            if o.take(i as int).to_set().contains(k) {
                                v1
                            } else {
                                v0
                            },
                        ).len(),
                    forall|k: Seq<char>| #[trigger]
                        texts(queue@).contains(k) ==> graph.names().contains(k) && degree@[k] == 0,
                    forall|k: Seq<char>|
                        graph.names().contains(k) && #[trigger] degree@[k] == 0 ==> texts(
                            queue@,
                        ).contains(k) || v1.contains(k),
                decreases n - i,
            {
                let d = deps.at(i);
                let ghost g0 = degree;
                let ghost q2 = texts(queue@);
                proof {
                    lemma_prefix(o, i as int);
                    graph.lemma_wf();
                    assert(o.to_set().contains(d@)) by {
                        assert(o[i as int] == d@);
                    }
                    assert(graph.dep(d@, svc@));
                    lemma_one_less(*graph, d@, v0, svc@);
                }
                let mut free = false;
                if let Some(deg) = degree.get_mut(d.as_str()) {
                    *deg = deg.saturating_sub(1);
                    free = *deg == 0;
                }
                proof {
                    assert(degree@.dom() =~= graph.names());
                    assert(degree@[d@] == left(*graph, d@, v1).len());
                    assert forall|k: Seq<char>| graph.names().contains(k) implies #[trigger] degree@[k]
                        == left(
                        *graph,
                        k,
                        if o.take(i + 1).to_set().contains(k) {
                            v1
                        } else {
                            v0
                        },
                    ).len() by {
                        if k != d@ {
                            assert(degree@[k] == g0@[k]);
                        }
                    }
                    assert forall|k: Seq<char>| #[trigger] q2.contains(k) implies degree@[k] == 0 by {
                        assert(g0@[k] == 0);
                    }
                }
                if free && !visited.contains(d.as_str()) {
                    queue.push_back(d.clone());
                    proof {
                        assert(texts(queue@) =~= q2.push(d@));
                        assert forall|k: Seq<char>| #[trigger]
                            texts(queue@).contains(k) <==> q2.contains(k) || k == d@ by {
                            vstd::seq_lib::lemma_seq_contains_after_push(q2, d@, k);
                        }
                    }
                }
                proof {
                    assert forall|k: Seq<char>|
                        graph.names().contains(k) && #[trigger] degree@[k] == 0 implies texts(
                        queue@,
                    ).contains(k) || v1.contains(k) by {
                        if k != d@ {
                            assert(g0@[k] == 0);
                        }
                    }
                }
                i += 1;
            }
            proof {
                assert(o.take(n as int) == o);
                assert forall|k: Seq<char>| graph.names().contains(k) implies #[trigger] degree@[k]
                    == left(*graph, k, visited@).len() by {
                    lemma_one_less(*graph, k, v0, svc@);
                    if !o.to_set().contains(k) {
                        assert(!graph.dep(k, svc@));
                    }
                }
            }
        }
    }
    proof {
        assert(texts(queue@).len() == 0);
        assert forall|x: Seq<char>|
            graph.names().contains(x) && !texts(order@).to_set().contains(x) implies #[trigger] left(
            *graph,
            x,
            texts(order@).to_set(),
        ).len() > 0 by {
            assert(degree@[x] == left(*graph, x, visited@).len());
        }
    }
    order
}

/// The services in the order in which they are stopped.
pub fn compute_reverse_topo_order(graph: &DependencyGraph) -> (r: Vec<String>)
    requires
        graph.wf(),
    ensures
        stop_order(*graph, texts(r@)),
{
    let mut order = forward(graph);
    let ghost f = texts(order@);
    let services = graph.all_services();
    let n = services.len();
    let ghost o = services.order();
    proof {
        services.lemma_order();
        graph.lemma_wf();
        assert(o.take(0).to_set() =~= Set::<Seq<char>>::empty());
        assert(texts(order@).to_set() =~= f.to_set().union(o.take(0).to_set()));
        assert(f.take(f.len() as int) == f);
    }
    let mut visited = NameSet::new();
    let mut i: usize = 0;
    let m = order.len();
    proof {
        assert(f.take(0).to_set() =~= Set::<Seq<char>>::empty());
    }
    while i < m
        invariant
            i <= m,
            m == order@.len(),
            f == texts(order@),
            visited.wf(),
            visited@ == f.take(i as int).to_set(),
        decreases m - i,
    {
        visited.insert(order[i].clone());
        proof {
            assert(f.take(i + 1) == f.take(i as int).push(f[i as int]));
            f.take(i as int).lemma_push_to_set_commute(f[i as int]);
        }
        i += 1;
    }
    proof {
        assert(f.take(m as int) == f);
    }
    i = 0;
    while i < n
        invariant
            i <= n,
            n == o.len(),
            o == services.order(),
            o.no_duplicates(),
            services.wf(),
            visited.wf(),
            visited@ == f.to_set(),
            m == f.len(),
            m <= order@.len(),
            texts(order@).take(m as int) == f,
            texts(order@).no_duplicates(),
            texts(order@).to_set() == f.to_set().union(o.take(i as int).to_set()),
            forall|k: int| m <= k < order@.len() ==> !f.to_set().contains(#[trigger] texts(order@)[k]),
        decreases n - i,
    {
        let s = services.at(i);
        let ghost before = texts(order@);
        proof {
            lemma_prefix(o, i as int);
        }
        if !visited.contains(s.as_str()) {
            order.push(s.clone());
            proof {
                let now = texts(order@);
                assert(now =~= before.push(s@));
                before.lemma_push_to_set_commute(s@);
                assert(!before.contains(s@)) by {
                    if before.contains(s@) {
                        assert(before.to_set().contains(s@));
                    }
                }
                assert(now.take(m as int) =~= before.take(m as int));
                assert(now.to_set() =~= f.to_set().union(o.take(i + 1).to_set()));
                assert forall|k: int| m <= k < order@.len() implies !f.to_set().contains(
                    #[trigger] now[k],
                ) by {
                    if k < before.len() {
                        assert(now[k] == before[k]);
                    }
                }
            }
        } else {
            assert(texts(order@).to_set() =~= f.to_set().union(o.take(i + 1).to_set()));
        }
        i += 1;
    }
    let ghost all = texts(order@);
    let r = reversed(&order);
    proof {
        assert(o.take(n as int) == o);
        assert(all.to_set() =~= graph.names());
        let t = texts(r@);
        let len = all.len() as int;
        assert(t =~= all.reverse());
        assert forall|i: int| 0 <= i < len implies #[trigger] t[i] == all[len - 1 - i] by {}
        assert(t.no_duplicates());
        assert forall|x: Seq<char>| t.to_set().contains(x) == all.to_set().contains(x) by {
            if t.contains(x) {
                let k = choose|k: int| 0 <= k < len && t[k] == x;
                assert(all[len - 1 - k] == x);
            }
            if all.contains(x) {
                let k = choose|k: int| 0 <= k < len && all[k] == x;
                assert(t[len - 1 - k] == x);
            }
        }
        assert(t.to_set() =~= graph.names());
        let k = len - m;
        assert forall|i: int, j: int|
            k <= i < len && 0 <= j < len && graph.dep(#[trigger] t[i], #[trigger] t[j]) implies i < j by {
            let a = len - 1 - i;
            let b = len - 1 - j;
            assert(f[a] == all.take(m as int)[a]);
            assert(t[i] == f[a]);
            assert(graph.dep(f[a], t[j]));
            assert(f.take(a).contains(t[j]));
            let c = choose|c: int| 0 <= c < a && f.take(a)[c] == t[j];
            assert(f[c] == t[j]);
            assert(all.take(m as int)[c] == all[c]);
            assert(all[c] == all[b]);
        }
        assert forall|i: int| 0 <= i < k implies #[trigger] depends_within(
            *graph,
            t[i],
            t.take(k),
        ) by {
            let a = len - 1 - i;
            let x = t[i];
            assert(x == all[a]);
            assert(all.to_set().contains(x));
            assert(!f.to_set().contains(x));
            let rest = left(*graph, x, f.to_set());
            assert(rest.len() > 0);
            graph.lemma_finite(x);
            let d = rest.choose();
            assert(rest.contains(d)) by {
                if !rest.contains(d) {
                    assert(rest =~= Set::<Seq<char>>::empty());
                }
            }
            assert(graph.dep(x, d));
            assert(all.to_set().contains(d));
            let c = choose|c: int| 0 <= c < len && all[c] == d;
            assert(c >= m) by {
                if c < m {
                    assert(all.take(m as int)[c] == f[c]);
                    assert(f.contains(d));
                }
            }
            assert(t.take(k)[len - 1 - c] == d);
        }
        assert(stop_order_from(*graph, t, k));
    }
    r
}

/// A signal that asks a service to stop.
#[derive(Debug, Clone, Copy, PartialEq, Eq, Structural)]
pub enum StopSignal {
    Term,
    Int,
    Quit,
    Hup,
    Usr1,
    Usr2,
}

/// The signal that a name stands for; a name that stands for none means that
/// the service is asked to terminate.
pub open spec fn signal_named(name: Seq<char>) -> StopSignal {
    if name == "SIGINT"@ || name == "sigint"@ {
        StopSignal::Int
    } else if name == "SIGQUIT"@ || name == "sigquit"@ {
        StopSignal::Quit
    } else if name == "SIGHUP"@ || name == "sighup"@ {
        StopSignal::Hup
    } else if name == "SIGUSR1"@ || name == "sigusr1"@ {
        StopSignal::Usr1
    } else if name == "SIGUSR2"@ || name == "sigusr2"@ {
        StopSignal::Usr2
    } else {
        StopSignal::Term
    }
}

/// The signal that a name such as "SIGTERM" stands for.
pub fn parse_signal(name: &str) -> (r: StopSignal)
    ensures
        r == signal_named(name@),
{
    if str_eq(name, "SIGINT") || str_eq(name, "sigint") {
        StopSignal::Int
    } else if str_eq(name, "SIGQUIT") || str_eq(name, "sigquit") {
        StopSignal::Quit
    } else if str_eq(name, "SIGHUP") || str_eq(name, "sighup") {
        StopSignal::Hup
    } else if str_eq(name, "SIGUSR1") || str_eq(name, "sigusr1") {
        StopSignal::Usr1
    } else if str_eq(name, "SIGUSR2") || str_eq(name, "sigusr2") {
        StopSignal::Usr2
    } else {
        StopSignal::Term
    }
}

/// How a running service is stopped.
#[derive(Debug, Clone, Copy, PartialEq, Eq, Structural)]
pub struct StopPlan {
    pub pid: i32,
    pub signal: StopSignal,
    pub timeout: Duration,
}

/// The seconds that a service has to stop.
pub open spec fn stop_secs(text: Seq<char>) -> nat {
    match duration_secs(text) {
        Some(n) => n,
        None => 10,
    }
}

/// How the worker `name` is stopped; nothing where it has no process.
pub open spec fn plan_for(nodes: Nodes, name: Seq<char>) -> Option<StopPlan> {
    if has_worker(nodes, name) {
        let w = worker(nodes, name);
        match w.pid {
            Some(pid) => Some(
                StopPlan {
                    pid,
                    signal: signal_named(w.def.shutdown.stop_signal@),
                    timeout: Duration {
                        secs: stop_secs(w.def.shutdown.stop_timeout@) as u64,
                        nanos: 0,
                    },
                },
            ),
            None => None,
        }
    } else {
        None
    }
}

/// The command that stops the worker `name`; nothing where it has no process
/// or no such command.
pub open spec fn command_for(nodes: Nodes, name: Seq<char>) -> Option<Seq<Seq<char>>> {
    if has_worker(nodes, name) && worker(nodes, name).pid is Some {
        match worker(nodes, name).def.shutdown.stop_exec {
            Some(c) if c@.len() > 0 => Some(texts(c@)),
            _ => None,
        }
    } else {
        None
    }
}

/// The command that stops the worker `name`, which is run before the signal
/// is sent.
pub fn stop_command(tree: &SupervisorTree, name: &str) -> (r: Option<Vec<String>>)
    requires
        tree.wf(),
    ensures
        match r {
            Some(c) => command_for(tree.nodes(), name@) == Some(texts(c@)),
            None => command_for(tree.nodes(), name@) is None,
        },
{
    match tree.get_worker(name) {
        Some(w) => {
            if w.pid.is_none() {
                return None;
            }
            match &w.def.shutdown.stop_exec {
                Some(c) => {
                    if c.len() > 0 {
                        Some(clone_strings(c))
                    } else {
                        None
                    }
                },
                None => None,
            }
        },
        None => None,
    }
}

/// How the worker `name` is stopped; nothing where it has no process.
pub fn stop_plan(tree: &SupervisorTree, name: &str) -> (r: Option<StopPlan>)
    requires
        tree.wf(),
        has_worker(tree.nodes(), name@) ==> duration_fits(
            worker(tree.nodes(), name@).def.shutdown.stop_timeout@,
        ),
    ensures
        r == plan_for(tree.nodes(), name@),
{
    match tree.get_worker(name) {
        Some(w) => match w.pid {
            Some(pid) => {
                let secs = match parse_duration_secs(w.def.shutdown.stop_timeout.as_str()) {
                    Some(n) => n,
                    None => 10,
                };
                Some(
                    StopPlan {
                        pid,
                        signal: parse_signal(w.def.shutdown.stop_signal.as_str()),
                        timeout: Duration::from_secs(secs),
                    },
                )
            },
            None => None,
        },
        None => None,
    }
}

/// The nodes after the worker `id`, where it is one, was told to stop.
pub open spec fn told_to_stop(nodes: Nodes, id: Seq<char>, deadline: Option<Instant>) -> Nodes {
    if has_worker(nodes, id) {
        nodes.insert(
            id,
            TreeNode::Worker(
                WorkerNode { state: ServiceState::Stopping { deadline }, ..worker(nodes, id) },
            ),
        )
    } else {
        nodes
    }
}

/// Notes that a worker was told to stop by `deadline`.
pub fn mark_stopping(tree: &mut SupervisorTree, name: &str, deadline: Option<Instant>)
    requires
        old(tree).wf(),
    ensures
        final(tree).wf(),
        final(tree).root() == old(tree).root(),
        final(tree).order() == old(tree).order(),
        final(tree).pids() == old(tree).pids(),
        final(tree).nodes() == told_to_stop(old(tree).nodes(), name@, deadline),
        old(tree).intact() ==> final(tree).intact(),
{
    if let Some(w) = tree.get_worker_mut(name) {
        w.state = ServiceState::Stopping { deadline };
    }
}

/// The nodes after the worker `id`, where it is one, has stopped.
pub open spec fn has_stopped(nodes: Nodes, id: Seq<char>) -> Nodes {
    if has_worker(nodes, id) {
        nodes.insert(
            id,
            TreeNode::Worker(
                WorkerNode { pid: None, state: ServiceState::Stopped, ..worker(nodes, id) },
            ),
        )
    } else {
        nodes
    }
}

/// What stopping a service bears on.
pub struct Standing {
    /// The nodes of the tree.
    pub nodes: Nodes,
    /// The workers by process.
    pub pids: Map<i32, NodeId>,
    /// The watched cgroups by service.
    pub watches: Map<Seq<char>, Watch>,
}

/// How a tree and a monitor stand.
pub open spec fn standing(tree: SupervisorTree, monitor: CgroupMonitor) -> Standing {
    Standing { nodes: tree.nodes(), pids: tree.pids(), watches: monitor.watches() }
}

/// How things stand after the service `name` has stopped; nothing changes where
/// it has no process.
pub open spec fn one_stopped(s: Standing, name: Seq<char>) -> Standing {
    if has_worker(s.nodes, name) && worker(s.nodes, name).pid is Some {
        Standing {
            nodes: has_stopped(s.nodes, name),
            pids: s.pids.remove(worker(s.nodes, name).pid->0),
            watches: s.watches.remove(name),
        }
    } else {
        s
    }
}

/// How things stand after the services `names` have stopped, one after another.
pub open spec fn all_stopped(s: Standing, names: Seq<Seq<char>>) -> Standing
    decreases names.len(),
{
    if names.len() == 0 {
        s
    } else {
        one_stopped(all_stopped(s, names.drop_last()), names.last())
    }
}

/// Notes that a worker, which was the process `pid`, has stopped: it has no
/// process, and its cgroup is watched no longer, nor needed.
pub fn finalize_stop(
    tree: &mut SupervisorTree,
    name: &str,
    pid: i32,
    cgroup_monitor: &mut CgroupMonitor,
)
    requires
        old(tree).wf(),
        old(cgroup_monitor).wf(),
    ensures
        final(tree).wf(),
        final(tree).root() == old(tree).root(),
        final(tree).order() == old(tree).order(),
        final(tree).pids() == old(tree).pids().remove(pid),
        final(tree).nodes() == has_stopped(old(tree).nodes(), name@),
        old(tree).intact() ==> final(tree).intact(),
        final(cgroup_monitor).wf(),
        watch_dropped(*old(cgroup_monitor), name@, *final(cgroup_monitor)),
        has_worker(old(tree).nodes(), name@) && worker(old(tree).nodes(), name@).pid == Some(pid)
            ==> standing(*final(tree), *final(cgroup_monitor)) == one_stopped(
            standing(*old(tree), *old(cgroup_monitor)),
            name@,
        ),
{
    let gone = tree.unregister_pid(pid);
    if let Some(w) = tree.get_worker_mut(name) {
        w.pid = None;
        w.state = ServiceState::Stopped;
    }
    cgroup_monitor.unwatch(name);
}

/// What was learned of a process that is waited for.
#[derive(Debug, Clone, Copy, PartialEq, Eq, Structural)]
pub enum WaitEvent {
    /// It exited.
    Exited,
    /// It was killed by a signal.
    Signaled,
    /// It is still there.
    StillAlive,
    /// It was waited for already.
    NoChild,
    /// Something else.
    Other,
}

/// How far the stopping of a service has come.
#[derive(Debug, Clone, Copy, PartialEq, Eq, Structural)]
pub enum StopPhase {
    /// It was asked to stop and has until the deadline.
    Asked { deadline: Instant },
    /// It was killed; its end is awaited until the deadline.
    Killed { deadline: Instant },
}

/// What to do next about a service that is being stopped.
#[derive(Debug, Clone, Copy, PartialEq, Eq, Structural)]
pub enum StopStep {
    /// Wait for a moment, then look again.
    Wait,
    /// Kill it.
    Kill,
    /// It is gone, or given up.
    Finish,
}

/// What to do next, after `event` was seen and the clock then showed `now`.
pub open spec fn next_step(phase: StopPhase, event: WaitEvent, now: Instant) -> StopStep {
    match phase {
        StopPhase::Asked { deadline } => if event is Exited || event is Signaled || event
            is NoChild {
            StopStep::Finish
        } else if now.nanos >= deadline.nanos {
            StopStep::Kill
        } else {
            StopStep::Wait
        },
        StopPhase::Killed { deadline } => if !(event is StillAlive) || now.nanos
            >= deadline.nanos {
            StopStep::Finish
        } else {
            StopStep::Wait
        },
    }
}

/// Says what to do next about a service that is being stopped.
pub fn stop_step(phase: StopPhase, event: WaitEvent, now: Instant) -> (r: StopStep)
    ensures
        r == next_step(phase, event, now),
{
    match phase {
        StopPhase::Asked { deadline } => {
            match event {
                WaitEvent::Exited => StopStep::Finish,
                WaitEvent::Signaled => StopStep::Finish,
                WaitEvent::NoChild => StopStep::Finish,
                _ => if now.before(deadline) {
                    StopStep::Wait
                } else {
                    StopStep::Kill
                },
            }
        },
        StopPhase::Killed { deadline } => {
            match event {
                WaitEvent::StillAlive => if now.before(deadline) {
                    StopStep::Wait
                } else {
                    StopStep::Finish
                },
                _ => StopStep::Finish,
            }
        },
    }
}

/// Whether `r` is the phase after a service was asked to stop.
pub open spec fn asked_at(
    now: Instant,
    timeout: Duration,
    r: StopPhase,
) -> bool {
    r matches StopPhase::Asked { deadline } && deadline.nanos == now.nanos + timeout.total()
}

/// The phase after a service was asked at `now` to stop.
pub fn asked(now: Instant, timeout: Duration) -> (r: StopPhase)
    requires
        now.nanos + timeout.total() <= i128::MAX,
    ensures
        asked_at(now, timeout, r),
{
    StopPhase::Asked { deadline: now.after(timeout) }
}

/// Whether `r` is the phase after a service was killed.
pub open spec fn killed_at(
    now: Instant,
    r: StopPhase,
) -> bool {
    r matches StopPhase::Killed { deadline } && deadline.nanos == now.nanos + 3_000_000_000
}

/// The phase after a service was killed at `now`.
pub fn killed(now: Instant) -> (r: StopPhase)
    requires
        now.nanos + 3_000_000_000 <= i128::MAX,
    ensures
        killed_at(now, r),
{
    StopPhase::Killed { deadline: now.after(Duration::from_secs(3)) }
}

/// A process that is still there is killed from its deadline on, and not
/// before.
pub proof fn kill_only_after_deadline(deadline: Instant, event: WaitEvent, now: Instant)
    ensures
        next_step(StopPhase::Asked { deadline }, event, now) is Kill ==> now.nanos
            >= deadline.nanos,
        now.nanos >= deadline.nanos ==> !(next_step(StopPhase::Asked { deadline }, event, now)
            is Wait),
{
}

/// A service that was killed is not waited for beyond its deadline.
pub proof fn killed_is_not_awaited_forever(deadline: Instant, event: WaitEvent, now: Instant)
    requires
        now.nanos >= deadline.nanos,
    ensures
        next_step(StopPhase::Killed { deadline }, event, now) is Finish,
{
}

/// Stopping changes no more than states and processes.
pub proof fn stopping_keeps_shape(nodes: Nodes, id: Seq<char>, deadline: Option<Instant>)
    ensures
        same_shape(nodes, told_to_stop(nodes, id, deadline)),
        same_shape(nodes, has_stopped(nodes, id)),
{
    assert(told_to_stop(nodes, id, deadline).dom() =~= nodes.dom());
    assert(has_stopped(nodes, id).dom() =~= nodes.dom());
}

/// That a service was asked to stop makes no difference once it has stopped.
pub proof fn stopping_ends_the_asking(nodes: Nodes, id: Seq<char>, deadline: Option<Instant>)
    ensures
        has_stopped(told_to_stop(nodes, id, deadline), id) == has_stopped(nodes, id),
        has_worker(nodes, id) ==> worker(told_to_stop(nodes, id, deadline), id).pid == worker(
            nodes,
            id,
        ).pid,
{
    assert(has_stopped(told_to_stop(nodes, id, deadline), id) =~= has_stopped(nodes, id));
}

/// Whether the service `name` stands in `post` as it stood in `pre`.
pub open spec fn untouched(pre: Standing, post: Standing, name: Seq<char>) -> bool {
    &&& post.nodes.contains_key(name) == pre.nodes.contains_key(name)
    &&& post.nodes[name] == pre.nodes[name]
    &&& post.watches.contains_key(name) == pre.watches.contains_key(name)
    &&& post.watches[name] == pre.watches[name]
}

/// Whether the service `name`, which was the process `pid`, has stopped: it has
/// no process, none is known as its own, and its cgroup is not watched.
pub open spec fn gone(post: Standing, name: Seq<char>, pid: i32) -> bool {
    &&& has_worker(post.nodes, name)
    &&& worker(post.nodes, name).pid is None
    &&& worker(post.nodes, name).state is Stopped
    &&& !post.pids.contains_key(pid)
    &&& !post.watches.contains_key(name)
}

proof fn lemma_all_stopped(s: Standing, names: Seq<Seq<char>>, name: Seq<char>)
    ensures
        all_stopped(s, names).pids.dom().subset_of(s.pids.dom()),
        if names.contains(name) && has_worker(s.nodes, name) && worker(s.nodes, name).pid is Some {
            gone(all_stopped(s, names), name, worker(s.nodes, name).pid->0)
        } else {
            untouched(s, all_stopped(s, names), name)
        },
    decreases names.len(),
{
    if names.len() > 0 {
        let front = names.drop_last();
        lemma_all_stopped(s, front, name);
        if names.contains(name) && names.last() != name {
            let i = choose|i: int| 0 <= i < names.len() && names[i] == name;
            assert(front[i] == name);
            assert(front.contains(name));
        }
        if front.contains(name) {
            let i = choose|i: int| 0 <= i < front.len() && front[i] == name;
            assert(names[i] == name);
            assert(names.contains(name));
        }
        if names.last() == name {
            assert(names.contains(name));
        }
    }
}

/// A shutdown leaves no service with a process. Each that had one is stopped,
/// its process is no longer known, and its cgroup is no longer watched. All
/// else stays as it was.
pub proof fn shutdown_leaves_nothing_running(
    g: DependencyGraph,
    order: Seq<Seq<char>>,
    s: Standing,
    name: Seq<char>,
)
    requires
        stop_order(g, order),
    ensures
        g.names().contains(name) && has_worker(all_stopped(s, order).nodes, name) ==> worker(
            all_stopped(s, order).nodes,
            name,
        ).pid is None,
        if g.names().contains(name) && has_worker(s.nodes, name) && worker(s.nodes, name).pid
            is Some {
            gone(all_stopped(s, order), name, worker(s.nodes, name).pid->0)
        } else {
            untouched(s, all_stopped(s, order), name)
        },
{
    assert(order.contains(name) == order.to_set().contains(name));
    lemma_all_stopped(s, order, name);
}

/// The services that a shutdown stops, in order: all services, dependents
/// first.
pub fn execute_shutdown(graph: &DependencyGraph) -> (r: Vec<String>)
    requires
        graph.wf(),
    ensures
        stop_order(*graph, texts(r@)),
{
    compute_reverse_topo_order(graph)
}

/// A running service is stopped as its definition says: its own process gets
/// the signal, and it has the seconds that its timeout reads as before it is
/// killed; ten where the timeout is no duration.
pub proof fn stop_goes_by_the_definition(nodes: Nodes, name: Seq<char>)
    requires
        has_worker(nodes, name),
        duration_fits(worker(nodes, name).def.shutdown.stop_timeout@),
    ensures
        plan_for(nodes, name) is Some <==> worker(nodes, name).pid is Some,
        plan_for(nodes, name) matches Some(p) ==> {
            &&& Some(p.pid) == worker(nodes, name).pid
            &&& p.timeout.nanos == 0
            &&& duration_secs(worker(nodes, name).def.shutdown.stop_timeout@) matches Some(n)
                ==> p.timeout.secs == n
            &&& duration_secs(worker(nodes, name).def.shutdown.stop_timeout@) is None
                ==> p.timeout.secs == 10
        },
{
}

/// A timeout that is written as a number of seconds, minutes or hours gives a
/// running service just that time.
pub proof fn written_timeout_is_kept(nodes: Nodes, name: Seq<char>, n: nat)
    requires
        has_worker(nodes, name),
        worker(nodes, name).pid is Some,
        3600 * n <= u64::MAX,
    ensures
        worker(nodes, name).def.shutdown.stop_timeout@ == dec(n).push('s') ==> plan_for(
            nodes,
            name,
        )->0.timeout.total() == n * 1_000_000_000,
        worker(nodes, name).def.shutdown.stop_timeout@ == dec(n).push('m') ==> plan_for(
            nodes,
            name,
        )->0.timeout.total() == n * 60_000_000_000,
        worker(nodes, name).def.shutdown.stop_timeout@ == dec(n).push('h') ==> plan_for(
            nodes,
            name,
        )->0.timeout.total() == n * 3600_000_000_000,
{
    let e = Seq::<char>::empty();
    duration_goes_by_its_unit(e, n, e);
    assert(e + dec(n).push('s') + e =~= dec(n).push('s'));
    assert(e + dec(n).push('m') + e =~= dec(n).push('m'));
    assert(e + dec(n).push('h') + e =~= dec(n).push('h'));
}

/// The signal that stops a service: each name, in capitals or in small letters,
/// stands for its own signal, and every other text asks to terminate.
pub proof fn signal_goes_by_its_name(nodes: Nodes, name: Seq<char>)
    requires
        has_worker(nodes, name),
        worker(nodes, name).pid is Some,
    ensures
        ({
            let text = worker(nodes, name).def.shutdown.stop_signal@;
            let signal = plan_for(nodes, name)->0.signal;
            &&& signal is Int <==> text == "SIGINT"@ || text == "sigint"@
            &&& signal is Quit <==> text == "SIGQUIT"@ || text == "sigquit"@
            &&& signal is Hup <==> text == "SIGHUP"@ || text == "sighup"@
            &&& signal is Usr1 <==> text == "SIGUSR1"@ || text == "sigusr1"@
            &&& signal is Usr2 <==> text == "SIGUSR2"@ || text == "sigusr2"@
        }),
{
    reveal_strlit("SIGINT");
    reveal_strlit("sigint");
    reveal_strlit("SIGQUIT");
    reveal_strlit("sigquit");
    reveal_strlit("SIGHUP");
    reveal_strlit("sighup");
    reveal_strlit("SIGUSR1");
    reveal_strlit("sigusr1");
    reveal_strlit("SIGUSR2");
    reveal_strlit("sigusr2");
    assert("SIGINT"@[3] == 'I' && "SIGQUIT"@[3] == 'Q' && "SIGHUP"@[3] == 'H' && "SIGUSR1"@[3]
        == 'U' && "SIGUSR2"@[3] == 'U');
    assert("sigint"@[3] == 'i' && "sigquit"@[3] == 'q' && "sighup"@[3] == 'h' && "sigusr1"@[3]
        == 'u' && "sigusr2"@[3] == 'u');
    assert("SIGUSR1"@[6] == '1' && "SIGUSR2"@[6] == '2' && "sigusr1"@[6] == '1' && "sigusr2"@[6]
        == '2');
}

/// The stop command of a running service is the one that its definition gives,
/// word for word; a service that does not run, or that gives none, has none.
pub proof fn stop_command_is_the_given_one(nodes: Nodes, name: Seq<char>)
    requires
        has_worker(nodes, name),
    ensures
        worker(nodes, name).pid is None ==> command_for(nodes, name) is None,
        worker(nodes, name).pid is Some ==> match worker(nodes, name).def.shutdown.stop_exec {
            Some(c) => if c@.len() == 0 {
                command_for(nodes, name) is None
            } else {
                command_for(nodes, name) == Some(texts(c@))
            },
            None => command_for(nodes, name) is None,
        },
{
}

/// Whether a service that was told to stop is seen to be gone.
pub open spec fn seen_gone(event: WaitEvent) -> bool {
    event is Exited || event is Signaled || event is NoChild
}

/// A service that was asked to stop is waited for until its deadline, is killed
/// from then on, and is done with as soon as it is gone. One that was killed is
/// waited for while it is still there, until its deadline.
pub proof fn stop_runs_its_course(deadline: Instant, event: WaitEvent, now: Instant)
    ensures
        ({
            let step = next_step(StopPhase::Asked { deadline }, event, now);
            &&& seen_gone(event) ==> step is Finish
            &&& !seen_gone(event) && now.nanos < deadline.nanos ==> step is Wait
            &&& !seen_gone(event) && now.nanos >= deadline.nanos ==> step is Kill
        }),
        ({
            let step = next_step(StopPhase::Killed { deadline }, event, now);
            &&& event is StillAlive && now.nanos < deadline.nanos ==> step is Wait
            &&& event is StillAlive && now.nanos >= deadline.nanos ==> step is Finish
            &&& !(event is StillAlive) ==> step is Finish
        }),
{
}

/// Telling a worker to stop marks it as stopping until the deadline, and
/// finding it stopped takes its process away. All else stays as it was.
pub proof fn stopping_changes_the_worker_alone(
    nodes: Nodes,
    id: Seq<char>,
    deadline: Option<Instant>,
    x: Seq<char>,
)
    requires
        has_worker(nodes, id),
    ensures
        has_worker(told_to_stop(nodes, id, deadline), id),
        worker(told_to_stop(nodes, id, deadline), id) == (WorkerNode {
            state: ServiceState::Stopping { deadline },
            ..worker(nodes, id)
        }),
        has_worker(has_stopped(nodes, id), id),
        worker(has_stopped(nodes, id), id) == (WorkerNode {
            state: ServiceState::Stopped,
            pid: None,
            ..worker(nodes, id)
        }),
        x != id ==> {
            &&& told_to_stop(nodes, id, deadline)[x] == nodes[x]
            &&& told_to_stop(nodes, id, deadline).contains_key(x) == nodes.contains_key(x)
            &&& has_stopped(nodes, id)[x] == nodes[x]
            &&& has_stopped(nodes, id).contains_key(x) == nodes.contains_key(x)
        },
{
}

/// A shutdown stops every service once. Where the definitions hold no cycle, a
/// service is stopped before each that it names as required, as wanted or to
/// start after, and after each that it is to start before.
pub proof fn shutdown_goes_by_the_lists(
    defs: Seq<ServiceDef>,
    g: DependencyGraph,
    o: Seq<Seq<char>>,
    a: int,
    b: int,
)
    requires
        built_from(defs, g),
        g.wf(),
        acyclic(g),
        stop_order(g, o),
        0 <= a < defs.len(),
        0 <= b < defs.len(),
    ensures
        o.no_duplicates(),
        o.contains(defs[a].service.name@),
        ({
            let d = defs[a].dependencies;
            let other = defs[b].service.name@;
            let ahead = o.index_of(defs[a].service.name@) < o.index_of(other);
            let behind = o.index_of(other) < o.index_of(defs[a].service.name@);
            &&& texts(d.required@).contains(other) ==> ahead
            &&& texts(d.wants@).contains(other) ==> ahead
            &&& texts(d.after@).contains(other) ==> ahead
            &&& texts(d.before@).contains(other) ==> behind
        }),
{
    lists_make_dependencies(defs, g, a, b);
    dependents_stop_first(g, o);
    let x = defs[a].service.name@;
    let y = defs[b].service.name@;
    assert(o.to_set().contains(x));
    assert(o.to_set().contains(y));
    assert(o.contains(x) && o.contains(y));
    assert(o[o.index_of(x)] == x && o[o.index_of(y)] == y);
}

/// A service that was asked to stop is left alone until its time is over and
/// killed then, and one that was killed is awaited for three seconds.
pub proof fn service_has_its_time_to_stop(
    began: Instant,
    timeout: Duration,
    a: StopPhase,
    struck: Instant,
    k: StopPhase,
    now: Instant,
)
    requires
        asked_at(began, timeout, a),
        killed_at(struck, k),
    ensures
        now.nanos - began.nanos < timeout.total() ==> next_step(a, WaitEvent::StillAlive, now)
            is Wait,
        now.nanos - began.nanos >= timeout.total() ==> next_step(a, WaitEvent::StillAlive, now)
            is Kill,
        next_step(a, WaitEvent::Exited, now) is Finish,
        now.nanos - struck.nanos < 3_000_000_000 ==> next_step(k, WaitEvent::StillAlive, now)
            is Wait,
        now.nanos - struck.nanos >= 3_000_000_000 ==> next_step(k, WaitEvent::StillAlive, now)
            is Finish,
{
}

/// A service that names no signal is asked to terminate.
pub proof fn usual_signal_is_to_terminate()
    ensures
        signal_named(usual_stop_signal()) is Term,
{
    reveal_strlit("SIGTERM");
    reveal_strlit("SIGINT");
    reveal_strlit("sigint");
    reveal_strlit("SIGQUIT");
    reveal_strlit("sigquit");
    reveal_strlit("SIGHUP");
    reveal_strlit("sighup");
    reveal_strlit("SIGUSR1");
    reveal_strlit("sigusr1");
    reveal_strlit("SIGUSR2");
    reveal_strlit("sigusr2");
    assert("SIGTERM"@[3] == 'T' && "SIGTERM"@[0] == 'S');
    assert("SIGINT"@[3] == 'I' && "SIGQUIT"@[3] == 'Q' && "SIGHUP"@[3] == 'H' && "SIGUSR1"@[3]
        == 'U' && "SIGUSR2"@[3] == 'U');
    assert("sigint"@[0] == 's' && "sigquit"@[0] == 's' && "sighup"@[0] == 's' && "sigusr1"@[0]
        == 's' && "sigusr2"@[0] == 's');
}

} // verus!
