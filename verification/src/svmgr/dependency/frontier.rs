//! The startup frontier: which services can start now.
//!
//! Each service waits for the services that it starts after. A service that
//! becomes ready, or fails, releases those that waited for it alone; one that
//! fails blocks all that require it, directly or through others.

use crate::names::{NameMap, NameSet};
use crate::svmgr::dependency::cycle::{acyclic, lemma_closed_set_has_cycle};
use crate::svmgr::config::service::ServiceDef;
use crate::svmgr::dependency::graph::{
    built_from, lemma_one_less, lemma_prefix, lists_make_dependencies, DependencyGraph,
};
use crate::text::{owned, texts};
use std::collections::VecDeque;
use vstd::prelude::*;

verus! {

/// The frontier as mathematical values.
pub struct FrontierState {
    /// How many dependencies each service still waits for.
    pub unmet: Map<Seq<char>, nat>,
    /// The services that can start, in the order in which they came.
    pub queue: Seq<Seq<char>>,
    /// The services that started and are ready.
    pub ready: Set<Seq<char>>,
    /// The services that were handed out to be started.
    pub pending: Set<Seq<char>>,
    /// The services that can no longer start.
    pub blocked: Set<Seq<char>>,
    /// The services that are ready, failed or blocked.
    pub completed: Set<Seq<char>>,
}

/// Tracks which services can start.
#[derive(Debug)]
pub struct StartupFrontier {
    unmet: NameMap<usize>,
    ready_to_start: Vec<String>,
    ready: NameSet,
    pending: NameSet,
    blocked: NameSet,
    completed: NameSet,
}

/// Whether `x` requires `s` directly or through others.
pub open spec fn needs(g: DependencyGraph, x: Seq<char>, s: Seq<char>) -> bool {
    exists|p: Seq<Seq<char>>| #[trigger] needs_by(g, p, x, s)
}

/// Whether each name on `p`, which leads from `x` to `s`, requires the next.
pub open spec fn needs_by(g: DependencyGraph, p: Seq<Seq<char>>, x: Seq<char>, s: Seq<char>) -> bool {
    &&& p.len() >= 2
    &&& p[0] == x
    &&& p.last() == s
    &&& forall|i: int, j: int|
        0 <= i && j == i + 1 && j < p.len() ==> g.req(#[trigger] p[i], #[trigger] p[j])
}

/// Whether all that require a blocked service are blocked.
pub open spec fn blocked_closed(g: DependencyGraph, blocked: Set<Seq<char>>) -> bool {
    forall|x: Seq<char>, s: Seq<char>| #[trigger] g.req(x, s) && blocked.contains(s) ==> blocked.contains(x)
}

/// The counts after one dependency of each of `some` is met.
pub open spec fn lowered(m: Map<Seq<char>, nat>, some: Set<Seq<char>>) -> Map<Seq<char>, nat> {
    Map::new(
        |k: Seq<char>| m.contains_key(k),
        |k: Seq<char>| if some.contains(k) && m[k] > 0 { (m[k] - 1) as nat } else { m[k] },
    )
}

/// Whether `post` is `pre` with the members of `added` behind it, each once.
pub open spec fn grown(pre: Seq<Seq<char>>, post: Seq<Seq<char>>, added: Set<Seq<char>>) -> bool {
    &&& pre.len() <= post.len()
    &&& post.take(pre.len() as int) == pre
    &&& post.skip(pre.len() as int).no_duplicates()
    &&& post.skip(pre.len() as int).to_set() == added
}

/// The frontier of a graph before anything has started.
pub open spec fn initial(g: DependencyGraph, v: FrontierState) -> bool {
    &&& v.unmet == Map::new(|s: Seq<char>| g.names().contains(s), |s: Seq<char>| g.deps(s).len())
    &&& grown(Seq::empty(), v.queue, g.names().filter(|s: Seq<char>| g.deps(s).len() == 0))
    &&& v.ready == Set::<Seq<char>>::empty()
    &&& v.pending == Set::<Seq<char>>::empty()
    &&& v.blocked == Set::<Seq<char>>::empty()
    &&& v.completed == Set::<Seq<char>>::empty()
}

/// Handing out the queue.
pub open spec fn take_step(pre: FrontierState, post: FrontierState) -> bool {
    post == (FrontierState {
        queue: Seq::empty(),
        pending: pre.pending.union(pre.queue.to_set()),
        ..pre
    })
}

/// The dependents of `s` that are not blocked.
pub open spec fn open_dependents(g: DependencyGraph, pre: FrontierState, s: Seq<char>) -> Set<Seq<char>> {
    Set::new(|d: Seq<char>| g.dep(d, s) && !pre.blocked.contains(d))
}

/// Those of `some` that wait for nothing more and have not been handed out.
pub open spec fn released(
    some: Set<Seq<char>>,
    unmet: Map<Seq<char>, nat>,
    completed: Set<Seq<char>>,
    pending: Set<Seq<char>>,
) -> Set<Seq<char>> {
    Set::new(
        |d: Seq<char>|
            some.contains(d) && unmet.contains_key(d) && unmet[d] == 0 && !completed.contains(d)
                && !pending.contains(d),
    )
}

/// `s` becoming ready.
pub open spec fn ready_step(
    g: DependencyGraph,
    pre: FrontierState,
    s: Seq<char>,
    post: FrontierState,
) -> bool {
    &&& post.pending == pre.pending.remove(s)
    &&& post.ready == pre.ready.insert(s)
    &&& post.completed == pre.completed.insert(s)
    &&& post.blocked == pre.blocked
    &&& post.unmet == lowered(pre.unmet, open_dependents(g, pre, s))
    &&& grown(
        pre.queue,
        post.queue,
        released(open_dependents(g, pre, s), post.unmet, post.completed, post.pending),
    )
}

/// The dependents of `s` that do not require it.
pub open spec fn soft_dependents(g: DependencyGraph, s: Seq<char>) -> Set<Seq<char>> {
    Set::new(|d: Seq<char>| g.dep(d, s) && !g.req(d, s))
}

/// `s` failing.
pub open spec fn failed_step(
    g: DependencyGraph,
    pre: FrontierState,
    s: Seq<char>,
    post: FrontierState,
) -> bool {
    &&& post.pending == pre.pending.remove(s)
    &&& post.ready == pre.ready
    &&& post.unmet == lowered(pre.unmet, soft_dependents(g, s))
    &&& grown(
        pre.queue,
        post.queue,
        released(
            soft_dependents(g, s),
            post.unmet,
            pre.completed.insert(s).union(pre.blocked),
            post.pending,
        ),
    )
    &&& post.blocked == pre.blocked.union(Set::new(|x: Seq<char>| needs(g, x, s)))
    &&& post.completed == pre.completed.insert(s).union(post.blocked.difference(pre.blocked))
}

/// A queue that grew, grows by one more.
proof fn lemma_grown_push(
    pre: Seq<Seq<char>>,
    post: Seq<Seq<char>>,
    added: Set<Seq<char>>,
    x: Seq<char>,
)
    requires
        grown(pre, post, added),
        !added.contains(x),
    ensures
        grown(pre, post.push(x), added.insert(x)),
{
    let n = pre.len() as int;
    let t = post.skip(n);
    let q = post.push(x);
    assert(q.take(n) == post.take(n));
    assert(q.skip(n) == t.push(x));
    assert(!t.contains(x)) by {
        if t.contains(x) {
            assert(t.to_set().contains(x));
        }
    }
    t.lemma_push_to_set_commute(x);
}

/// A queue that has not grown.
proof fn lemma_not_grown(q: Seq<Seq<char>>)
    ensures
        grown(q, q, Set::empty()),
{
    assert(q.take(q.len() as int) =~= q);
    assert(q.skip(q.len() as int) =~= Seq::<Seq<char>>::empty());
    assert(q.skip(q.len() as int).to_set() =~= Set::<Seq<char>>::empty());
}

/// The counts of a map of machine integers.
spec fn counts(m: NameMap<usize>) -> Map<Seq<char>, nat> {
    m@.map_values(|n: usize| n as nat)
}

impl View for StartupFrontier {
    type V = FrontierState;

    closed spec fn view(&self) -> FrontierState {
        FrontierState {
            unmet: counts(self.unmet),
            queue: texts(self.ready_to_start@),
            ready: self.ready@,
            pending: self.pending@,
            blocked: self.blocked@,
            completed: self.completed@,
        }
    }
}

impl StartupFrontier {
    /// The frontier is valid, and all that require a blocked service of `g`
    /// are blocked.
    pub open spec fn wf(self, g: DependencyGraph) -> bool {
        &&& self.valid()
        &&& g.wf()
        &&& blocked_closed(g, self@.blocked)
    }

    /// The collections are well-formed.
    pub closed spec fn valid(self) -> bool {
        &&& self.unmet.wf()
        &&& self.ready.wf()
        &&& self.pending.wf()
        &&& self.blocked.wf()
        &&& self.completed.wf()
    }

    /// The frontier of a graph: a service can start where it starts after
    /// nothing.
    pub fn new(graph: &DependencyGraph) -> (r: Self)
        requires
            graph.wf(),
        ensures
            r.wf(*graph),
            initial(*graph, r@),
    {
        let mut unmet: NameMap<usize> = NameMap::new();
        let mut ready_to_start: Vec<String> = Vec::new();
        let services = graph.all_services();
        let n = services.len();
        proof {
            services.lemma_order();
            assert(texts(ready_to_start@) == Seq::<Seq<char>>::empty());
            assert(services.order().take(0).to_set() =~= Set::<Seq<char>>::empty());
            lemma_not_grown(texts(ready_to_start@));
        }
        let ghost free = Set::new(|s: Seq<char>| graph.deps(s).len() == 0);
        let ghost o = services.order();
        assert(o.take(0).to_set().intersect(free) =~= Set::<Seq<char>>::empty());
        let mut i: usize = 0;
        while i < n
            invariant
                i <= n,
                n == o.len(),
                o == services.order(),
                services.wf(),
                graph.wf(),
                o.no_duplicates(),
                unmet.wf(),
                free == Set::new(|s: Seq<char>| graph.deps(s).len() == 0),
                unmet@.dom() == o.take(i as int).to_set(),
                forall|k: Seq<char>| #[trigger]
                    unmet@.contains_key(k) ==> unmet@[k] == graph.deps(k).len(),
                grown(
                    Seq::empty(),
                    texts(ready_to_start@),
                    o.take(i as int).to_set().intersect(free),
                ),
            decreases n - i,
        {
            let s = services.at(i);
            let count = graph.dependencies_of(s.as_str()).len();
            let ghost before = unmet;
            let ghost q = texts(ready_to_start@);
            unmet.insert(s.clone(), count);
            proof {
                lemma_prefix(o, i as int);
                assert(unmet@.dom() =~= o.take(i + 1).to_set());
            }
            if count == 0 {
                ready_to_start.push(s.clone());
                proof {
                    assert(texts(ready_to_start@) == q.push(s@));
                    lemma_grown_push(
                        Seq::empty(),
                        q,
                        o.take(i as int).to_set().intersect(free),
                        s@,
                    );
                    assert(o.take(i + 1).to_set().intersect(free) =~= o.take(
                        i as int,
                    ).to_set().intersect(free).insert(s@));
                }
            } else {
                assert(o.take(i + 1).to_set().intersect(free) =~= o.take(
                    i as int,
                ).to_set().intersect(free));
            }
            i += 1;
        }
        let r = StartupFrontier {
            unmet,
            ready_to_start,
            ready: NameSet::new(),
            pending: NameSet::new(),
            blocked: NameSet::new(),
            completed: NameSet::new(),
        };
        proof {
            assert(o.take(n as int) == o);
            assert(r@.unmet =~= Map::new(
                |s: Seq<char>| graph.names().contains(s),
                |s: Seq<char>| graph.deps(s).len(),
            ));
            assert(o.to_set().intersect(free) =~= graph.names().filter(
                |s: Seq<char>| graph.deps(s).len() == 0,
            ));
        }
        r
    }

    /// Takes out the services that can start now. From here on they are
    /// pending.
    pub fn take_ready(&mut self) -> (r: Vec<String>)
        requires
            old(self).valid(),
        ensures
            final(self).valid(),
            texts(r@) == old(self)@.queue,
            take_step(old(self)@, final(self)@),
    {
        let mut batch: Vec<String> = Vec::new();
        std::mem::swap(&mut batch, &mut self.ready_to_start);
        let ghost q = texts(batch@);
        let ghost before = *self;
        let mut i: usize = 0;
        assert(q.take(0).to_set() == Set::<Seq<char>>::empty());
        assert(self.pending@ =~= before.pending@.union(q.take(0).to_set()));
        while i < batch.len()
            invariant
                i <= batch.len(),
                q == texts(batch@),
                before.valid(),
                self.pending.wf(),
                self.pending@ == before.pending@.union(q.take(i as int).to_set()),
                self.unmet == before.unmet,
                self.ready_to_start == before.ready_to_start,
                self.ready == before.ready,
                self.blocked == before.blocked,
                self.completed == before.completed,
            decreases batch.len() - i,
        {
            self.pending.insert(batch[i].clone());
            proof {
                assert(q.take(i + 1) == q.take(i as int).push(q[i as int]));
                q.take(i as int).lemma_push_to_set_commute(q[i as int]);
                assert(self.pending@ =~= before.pending@.union(q.take(i + 1).to_set()));
            }
            i += 1;
        }
        proof {
            assert(q.take(q.len() as int) == q);
            assert(texts(self.ready_to_start@) =~= Seq::<Seq<char>>::empty());
        }
        batch
    }

    /// Meets one dependency of `dependent`, and queues it where it waits for
    /// nothing more and is neither completed, pending nor blocked.
    fn release(&mut self, dependent: &str) -> (r: bool)
        requires
            old(self).valid(),
        ensures
            final(self).valid(),
            final(self).ready == old(self).ready,
            final(self).pending == old(self).pending,
            final(self).blocked == old(self).blocked,
            final(self).completed == old(self).completed,
            final(self)@.unmet == lowered(old(self)@.unmet, set![dependent@]),
            r == (final(self)@.unmet.contains_key(dependent@) && final(self)@.unmet[dependent@] == 0
                && !old(self)@.completed.contains(dependent@) && !old(self)@.pending.contains(
                dependent@,
            ) && !old(self)@.blocked.contains(dependent@)),
            final(self)@.queue == if r {
                old(self)@.queue.push(dependent@)
            } else {
                old(self)@.queue
            },
    {
        let ghost before = *self;
        let mut free = false;
        if let Some(count) = self.unmet.get_mut(dependent) {
            *count = count.saturating_sub(1);
            free = *count == 0;
        }
        proof {
            assert(self@.unmet =~= lowered(before@.unmet, set![dependent@]));
        }
        if free && !self.completed.contains(dependent) && !self.pending.contains(dependent)
            && !self.blocked.contains(dependent) {
            self.ready_to_start.push(owned(dependent));
            assert(texts(self.ready_to_start@) =~= texts(before.ready_to_start@).push(dependent@));
            true
        } else {
            false
        }
    }

    /// Notes that `service` is ready: each of its dependents that is not
    /// blocked waits for one service less.
    pub fn mark_ready(&mut self, service: &str, graph: &DependencyGraph)
        requires
            old(self).wf(*graph),
        ensures
            final(self).wf(*graph),
            ready_step(*graph, old(self)@, service@, final(self)@),
    {
        let gone = self.pending.remove(service);
        self.ready.insert(owned(service));
        self.completed.insert(owned(service));
        let deps = graph.dependents_of(service);
        let n = deps.len();
        let ghost pre = old(self)@;
        let ghost start = self@;
        let ghost o = deps.order();
        let ghost open_deps = open_dependents(*graph, pre, service@);
        proof {
            deps.lemma_order();
            let none = o.take(0).to_set().intersect(open_deps);
            assert(none =~= Set::<Seq<char>>::empty());
            assert(lowered(pre.unmet, none) =~= pre.unmet);
            assert(released(none, pre.unmet, start.completed, start.pending) =~= Set::<
                Seq<char>,
            >::empty());
            lemma_not_grown(pre.queue);
        }
        let mut i: usize = 0;
        while i < n
            invariant
                i <= n,
                n == o.len(),
                o == deps.order(),
                o.no_duplicates(),
                deps.wf(),
                deps@ == graph.dependents(service@),
                deps@ == o.to_set(),
                pre == old(self)@,
                self.valid(),
                self@.ready == start.ready,
                self@.pending == start.pending,
                self@.blocked == pre.blocked,
                self@.completed == start.completed,
                open_deps == open_dependents(*graph, pre, service@),
                self@.unmet == lowered(pre.unmet, o.take(i as int).to_set().intersect(open_deps)),
                grown(
                    pre.queue,
                    self@.queue,
                    released(
                        o.take(i as int).to_set().intersect(open_deps),
                        self@.unmet,
                        start.completed,
                        start.pending,
                    ),
                ),
            decreases n - i,
        {
            let d = deps.at(i);
            let ghost before = self@;
            let ghost done = o.take(i as int).to_set().intersect(open_deps);
            let ghost next = o.take(i + 1).to_set().intersect(open_deps);
            proof {
                lemma_prefix(o, i as int);
                assert(o.to_set().contains(d@)) by {
                    assert(o[i as int] == d@);
                }
            }
            if !self.blocked.contains(d.as_str()) {
                let r = self.release(d.as_str());
                proof {
                    assert(next =~= done.insert(d@));
                    assert(self@.unmet =~= lowered(pre.unmet, next));
                    let old_rel = released(done, before.unmet, start.completed, start.pending);
                    let new_rel = released(next, self@.unmet, start.completed, start.pending);
                    if r {
                        assert(new_rel =~= old_rel.insert(d@));
                        lemma_grown_push(pre.queue, before.queue, old_rel, d@);
                    } else {
                        assert(new_rel =~= old_rel);
                    }
                }
            } else {
                assert(next =~= done);
            }
            i += 1;
        }
        proof {
            assert(o.take(n as int) == o);
            assert(o.to_set().intersect(open_deps) =~= open_deps);
        }
    }

    /// Notes that `service` failed: all that require it, directly or through
    /// others, are blocked; those that only start after it wait for one
    /// service less.
    pub fn mark_failed(&mut self, service: &str, graph: &DependencyGraph)
        requires
            old(self).wf(*graph),
        ensures
            final(self).wf(*graph),
            failed_step(*graph, old(self)@, service@, final(self)@),
    {
        let gone = self.pending.remove(service);
        self.completed.insert(owned(service));
        let deps = graph.dependents_of(service);
        let n = deps.len();
        let ghost pre = old(self)@;
        let ghost start = self@;
        let ghost o = deps.order();
        let ghost soft = soft_dependents(*graph, service@);
        let ghost stop = pre.completed.insert(service@).union(pre.blocked);
        proof {
            deps.lemma_order();
            let none = o.take(0).to_set().intersect(soft);
            assert(none =~= Set::<Seq<char>>::empty());
            assert(lowered(pre.unmet, none) =~= pre.unmet);
            assert(released(none, pre.unmet, stop, start.pending) =~= Set::<Seq<char>>::empty());
            lemma_not_grown(pre.queue);
        }
        let mut to_block: VecDeque<String> = VecDeque::new();
        let mut i: usize = 0;
        while i < n
            invariant
                i <= n,
                n == o.len(),
                o == deps.order(),
                o.no_duplicates(),
                deps.wf(),
                graph.wf(),
                deps@ == graph.dependents(service@),
                deps@ == o.to_set(),
                pre == old(self)@,
                self.valid(),
                self@.ready == pre.ready,
                self@.pending == start.pending,
                self@.blocked == pre.blocked,
                self@.completed == pre.completed.insert(service@),
                soft == soft_dependents(*graph, service@),
                stop == pre.completed.insert(service@).union(pre.blocked),
                self@.unmet == lowered(pre.unmet, o.take(i as int).to_set().intersect(soft)),
                grown(
                    pre.queue,
                    self@.queue,
                    released(
                        o.take(i as int).to_set().intersect(soft),
                        self@.unmet,
                        stop,
                        start.pending,
                    ),
                ),
                forall|x: Seq<char>| #[trigger]
                    texts(to_block@).contains(x) <==> o.take(i as int).to_set().contains(x)
                        && graph.req(x, service@),
            decreases n - i,
        {
            let d = deps.at(i);
            let ghost before = self@;
            let ghost done = o.take(i as int).to_set().intersect(soft);
            let ghost next = o.take(i + 1).to_set().intersect(soft);
            proof {
                lemma_prefix(o, i as int);
                assert(o.to_set().contains(d@)) by {
                    assert(o[i as int] == d@);
                }
            }
            if graph.requires_of(d.as_str()).contains(service) {
                let ghost q = texts(to_block@);
                to_block.push_back(d.clone());
                proof {
                    assert(next =~= done);
                    assert(texts(to_block@) =~= q.push(d@));
                    assert forall|x: Seq<char>| #[trigger]
                        texts(to_block@).contains(x) <==> o.take(i + 1).to_set().contains(x)
                            && graph.req(x, service@) by {
                        vstd::seq_lib::lemma_seq_contains_after_push(q, d@, x);
                    }
                }
            } else {
                let r = self.release(d.as_str());
                proof {
                    assert(next =~= done.insert(d@));
                    assert(self@.unmet =~= lowered(pre.unmet, next));
                    let old_rel = released(done, before.unmet, stop, start.pending);
                    let new_rel = released(next, self@.unmet, stop, start.pending);
                    if r {
                        assert(new_rel =~= old_rel.insert(d@));
                        lemma_grown_push(pre.queue, before.queue, old_rel, d@);
                    } else {
                        assert(new_rel =~= old_rel);
                    }
                }
            }
            i += 1;
        }
        proof {
            assert(o.take(n as int) == o);
            assert(o.to_set().intersect(soft) =~= soft);
            graph.lemma_wf();
            assert forall|x: Seq<char>| graph.req(x, service@) implies #[trigger] texts(
                to_block@,
            ).contains(x) by {
                assert(graph.dep(x, service@));
                assert(deps@.contains(x));
            }
            assert forall|x: Seq<char>| #[trigger] texts(to_block@).contains(x) implies needs(
                *graph,
                x,
                service@,
            ) by {
                lemma_needs_one(*graph, x, service@);
            }
        }
        self.block_all(service, to_block, graph);
    }

    /// Blocks the services in `to_block` and all that require them.
    fn block_all(&mut self, service: &str, to_block: VecDeque<String>, graph: &DependencyGraph)
        requires
            old(self).wf(*graph),
            forall|x: Seq<char>| graph.req(x, service@) ==> #[trigger] texts(to_block@).contains(x),
            forall|x: Seq<char>| #[trigger]
                texts(to_block@).contains(x) ==> needs(*graph, x, service@),
        ensures
            final(self).wf(*graph),
            final(self).unmet == old(self).unmet,
            final(self).ready_to_start == old(self).ready_to_start,
            final(self).ready == old(self).ready,
            final(self).pending == old(self).pending,
            final(self)@.blocked == old(self)@.blocked.union(
                Set::new(|x: Seq<char>| needs(*graph, x, service@)),
            ),
            final(self)@.completed == old(self)@.completed.union(
                final(self)@.blocked.difference(old(self)@.blocked),
            ),
    {
        let mut to_block = to_block;
        let ghost b0 = self.blocked@;
        let ghost c0 = self.completed@;
        proof {
            graph.lemma_wf();
            assert(c0.union(b0.difference(b0)) =~= c0);
        }
        while to_block.len() > 0
            invariant
                graph.wf(),
                self.valid(),
                self.unmet == old(self).unmet,
                self.ready_to_start == old(self).ready_to_start,
                self.ready == old(self).ready,
                self.pending == old(self).pending,
                b0 == old(self)@.blocked,
                c0 == old(self)@.completed,
                blocked_closed(*graph, b0),
                b0.subset_of(self@.blocked),
                forall|x: Seq<char>| #[trigger]
                    self@.blocked.contains(x) ==> b0.contains(x) || needs(*graph, x, service@),
                forall|x: Seq<char>| #[trigger]
                    texts(to_block@).contains(x) ==> needs(*graph, x, service@),
                forall|x: Seq<char>| #[trigger]
                    graph.req(x, service@) ==> self@.blocked.contains(x) || texts(
                        to_block@,
                    ).contains(x),
                forall|x: Seq<char>, s: Seq<char>| #[trigger]
                    graph.req(x, s) && self@.blocked.contains(s) ==> self@.blocked.contains(x)
                        || texts(to_block@).contains(x),
                self@.completed == c0.union(self@.blocked.difference(b0)),
            decreases graph.names().difference(self@.blocked).len(), to_block@.len(),
        {
            let ghost q = texts(to_block@);
            let ghost b1 = self@.blocked;
            let svc = match to_block.pop_front() {
                Some(s) => s,
                None => {
                    return;
                },
            };
            proof {
                assert(texts(to_block@) =~= q.drop_first());
                assert(q[0] == svc@);
                assert(q.contains(svc@));
                assert forall|x: Seq<char>| q.contains(x) implies x == svc@ || #[trigger] texts(
                    to_block@,
                ).contains(x) by {
                    let k = choose|k: int| 0 <= k < q.len() && q[k] == x;
                    if k > 0 {
                        assert(q.drop_first()[k - 1] == x);
                    }
                }
                assert forall|x: Seq<char>| #[trigger] texts(to_block@).contains(x) implies q.contains(x) by {
                    let k = choose|k: int|
                        0 <= k < texts(to_block@).len() && texts(to_block@)[k] == x;
                    assert(q[k + 1] == x);
                }
            }
            if !self.blocked.contains(svc.as_str()) {
                let ghost q1 = texts(to_block@);
                self.blocked.insert(svc.clone());
                self.completed.insert(svc.clone());
                let ghost b2 = self@.blocked;
                proof {
                    graph.lemma_wf();
                    lemma_needs_service(*graph, svc@, service@);
                    let before = graph.names().difference(b1);
                    let after = graph.names().difference(b2);
                    assert(after =~= before.remove(svc@));
                    vstd::set_lib::lemma_set_subset_finite(graph.names(), before);
                    assert(before.contains(svc@));
                    assert(after.len() < before.len());
                    assert(self@.completed =~= c0.union(b2.difference(b0)));
                }
                let deps = graph.dependents_of(svc.as_str());
                let n = deps.len();
                let ghost o = deps.order();
                proof {
                    deps.lemma_order();
                }
                let mut i: usize = 0;
                while i < n
                    invariant
                        i <= n,
                        n == o.len(),
                        o == deps.order(),
                        deps.wf(),
                        graph.wf(),
                        deps@ == graph.dependents(svc@),
                        self.valid(),
                        self@.blocked == b2,
                        needs(*graph, svc@, service@),
                        forall|x: Seq<char>| q1.contains(x) ==> #[trigger] texts(to_block@).contains(x),
                        forall|x: Seq<char>| #[trigger]
                            texts(to_block@).contains(x) ==> q1.contains(x) || needs(
                                *graph,
                                x,
                                service@,
                            ),
                        forall|k: int|
                            0 <= k < i && graph.req(#[trigger] o[k], svc@) ==> b2.contains(o[k])
                                || texts(to_block@).contains(o[k]),
                    decreases n - i,
                {
                    let d = deps.at(i);
                    if graph.requires_of(d.as_str()).contains(svc.as_str()) {
                        if !self.blocked.contains(d.as_str()) {
                            let ghost q2 = texts(to_block@);
                            to_block.push_back(d.clone());
                            proof {
                                lemma_needs_more(*graph, d@, svc@, service@);
                                assert(texts(to_block@) =~= q2.push(d@));
                                assert forall|x: Seq<char>| #[trigger]
                                    texts(to_block@).contains(x) <==> q2.contains(x) || x == d@ by {
                                    vstd::seq_lib::lemma_seq_contains_after_push(q2, d@, x);
                                }
                                assert forall|k: int|
                                    0 <= k < i + 1 && graph.req(
                                        #[trigger] o[k],
                                        svc@,
                                    ) implies b2.contains(o[k]) || texts(to_block@).contains(o[k]) by {
                                    if k < i {
                                        assert(b2.contains(o[k]) || q2.contains(o[k]));
                                    }
                                }
                            }
                        }
                    }
                    i += 1;
                }
                proof {
                    assert forall|x: Seq<char>, s: Seq<char>| #[trigger]
                        graph.req(x, s) && self@.blocked.contains(s) implies self@.blocked.contains(
                        x,
                    ) || texts(to_block@).contains(x) by {
                        if s == svc@ {
                            graph.lemma_wf();
                            assert(deps@.contains(x));
                            assert(o.contains(x));
                            let k = choose|k: int| 0 <= k < o.len() && o[k] == x;
                            assert(graph.req(o[k], svc@));
                        } else {
                            assert(b1.contains(s));
                            assert(b1.contains(x) || q.contains(x));
                        }
                    }
                }
            }
        }
        proof {
            assert(texts(to_block@).len() == 0);
            let all = Set::new(|x: Seq<char>| needs(*graph, x, service@));
            assert forall|x: Seq<char>| needs(*graph, x, service@) implies self@.blocked.contains(x) by {
                let p = choose|p: Seq<Seq<char>>| #[trigger] needs_by(*graph, p, x, service@);
                lemma_chain_blocked(*graph, self@.blocked, p, x, service@, 0);
            }
            assert(self@.blocked =~= b0.union(all));
        }
    }

    /// Whether all services have been processed: each is ready, failed or
    /// blocked.
    pub fn is_complete(&self) -> (r: bool)
        requires
            self.valid(),
        ensures
            is_all_done(self@, r),
    {
        let n = self.unmet.len();
        proof {
            self.unmet.lemma_order();
        }
        let mut i: usize = 0;
        while i < n
            invariant
                i <= n,
                n == self.unmet.order().len(),
                self.valid(),
                forall|k: int|
                    0 <= k < n ==> self.unmet@.contains_key(#[trigger] self.unmet.order()[k]),
                forall|k: int|
                    0 <= k < i ==> self.completed@.contains(#[trigger] self.unmet.order()[k]),
            decreases n - i,
        {
            let s = self.unmet.key_at(i);
            if !self.completed.contains(s.as_str()) {
                assert(self@.unmet.dom().contains(s@));
                return false;
            }
            i += 1;
        }
        proof {
            assert forall|s: Seq<char>| self@.unmet.dom().contains(s) implies self@.completed.contains(s) by {
                assert(self.unmet.order().contains(s));
                let k = choose|k: int| 0 <= k < n && self.unmet.order()[k] == s;
                assert(self.completed@.contains(self.unmet.order()[k]));
            }
        }
        true
    }

    /// Whether services wait to be started.
    pub fn has_ready(&self) -> (r: bool)
        ensures
            can_start_some(self@, r),
    {
        self.ready_to_start.len() > 0
    }

    /// Whether services have started but are not ready yet.
    pub fn has_pending(&self) -> (r: bool)
        requires
            self.valid(),
        ensures
            waits_for_some(self@, r),
    {
        !self.pending.is_empty()
    }

    /// The services that can no longer start.
    pub fn blocked_services(&self) -> (r: &NameSet)
        requires
            self.valid(),
        ensures
            r.wf(),
            r@ == self@.blocked,
    {
        &self.blocked
    }

    /// The services that are ready.
    pub fn ready_services(&self) -> (r: &NameSet)
        requires
            self.valid(),
        ensures
            r.wf(),
            r@ == self@.ready,
    {
        &self.ready
    }

    /// How many services have started but are not ready yet.
    pub fn pending_count(&self) -> (r: usize)
        requires
            self.valid(),
        ensures
            r == self@.pending.len(),
    {
        self.pending.len()
    }
}

proof fn lemma_needs_one(g: DependencyGraph, x: Seq<char>, s: Seq<char>)
    requires
        g.req(x, s),
    ensures
        needs(g, x, s),
{
    let p = seq![x, s];
    assert(needs_by(g, p, x, s));
}

proof fn lemma_needs_more(g: DependencyGraph, y: Seq<char>, x: Seq<char>, s: Seq<char>)
    requires
        g.req(y, x),
        needs(g, x, s),
    ensures
        needs(g, y, s),
{
    let p = choose|p: Seq<Seq<char>>| #[trigger] needs_by(g, p, x, s);
    let q = seq![y] + p;
    assert forall|i: int, j: int| 0 <= i && j == i + 1 && j < q.len() implies g.req(
        #[trigger] q[i],
        #[trigger] q[j],
    ) by {
        if i > 0 {
            assert(q[i] == p[i - 1]);
            assert(q[j] == p[j - 1]);
        }
    }
    assert(q.last() == p.last());
    assert(needs_by(g, q, y, s));
}

proof fn lemma_needs_service(g: DependencyGraph, x: Seq<char>, s: Seq<char>)
    requires
        g.wf(),
        needs(g, x, s),
    ensures
        g.names().contains(x),
{
    g.lemma_wf();
    let p = choose|p: Seq<Seq<char>>| #[trigger] needs_by(g, p, x, s);
    assert(g.req(p[0], p[1]));
    assert(g.dep(p[0], p[1]));
}

/// All of a chain of requirements that ends in `s` but its end is blocked.
proof fn lemma_chain_blocked(
    g: DependencyGraph,
    b: Set<Seq<char>>,
    p: Seq<Seq<char>>,
    x: Seq<char>,
    s: Seq<char>,
    i: int,
)
    requires
        needs_by(g, p, x, s),
        forall|y: Seq<char>| #[trigger] g.req(y, s) ==> b.contains(y),
        blocked_closed(g, b),
        0 <= i < p.len() - 1,
    ensures
        b.contains(p[i]),
    decreases p.len() - i,
{
    assert(g.req(p[i], p[i + 1]));
    if i < p.len() - 2 {
        lemma_chain_blocked(g, b, p, x, s, i + 1);
    }
}

/// The services that were marked ready or failed.
pub open spec fn marked(v: FrontierState) -> Set<Seq<char>> {
    v.completed.difference(v.blocked)
}

/// What holds of a frontier from its beginning on, as long as only pending
/// services are marked ready or failed.
pub open spec fn sound(g: DependencyGraph, v: FrontierState) -> bool {
    &&& g.wf()
    &&& v.unmet.dom() == g.names()
    &&& v.ready.subset_of(v.completed)
    &&& v.blocked.subset_of(v.completed)
    &&& v.completed.subset_of(g.names())
    &&& v.pending.subset_of(g.names())
    &&& v.ready.disjoint(v.blocked)
    &&& v.pending.disjoint(v.completed)
    &&& v.queue.no_duplicates()
    &&& forall|x: Seq<char>| #[trigger]
        v.queue.contains(x) ==> g.names().contains(x) && !v.pending.contains(x)
            && !v.completed.contains(x)
    // The counts are right, save for blocked services.
    &&& forall|x: Seq<char>|
        g.names().contains(x) && !v.blocked.contains(x) ==> #[trigger] v.unmet[x] == g.deps(
            x,
        ).difference(marked(v)).len()
    // What requires a service that failed or is blocked, is blocked.
    &&& forall|x: Seq<char>, d: Seq<char>| #[trigger]
        g.req(x, d) && v.completed.contains(d) && !v.ready.contains(d) ==> v.blocked.contains(x)
    // What is blocked requires a service that failed or is blocked.
    &&& forall|x: Seq<char>| #[trigger]
        v.blocked.contains(x) ==> exists|d: Seq<char>|
            g.req(x, d) && v.completed.contains(d) && !v.ready.contains(d)
    // What is not blocked can start or has started where it waits for
    // nothing, and only there.
    &&& forall|x: Seq<char>|
        g.names().contains(x) && !v.blocked.contains(x) ==> (#[trigger] v.unmet[x] == 0
            <==> v.queue.contains(x) || v.pending.contains(x) || v.completed.contains(x))
}

/// A queue that grew by services that were not in it has no duplicates.
proof fn lemma_grown_unique(pre: Seq<Seq<char>>, post: Seq<Seq<char>>, added: Set<Seq<char>>)
    requires
        grown(pre, post, added),
    ensures
        forall|x: Seq<char>| #[trigger] post.contains(x) <==> pre.contains(x) || added.contains(x),
        pre.no_duplicates() && (forall|x: Seq<char>| #[trigger] pre.contains(x) ==> !added.contains(x))
            ==> post.no_duplicates(),
{
    let n = pre.len() as int;
    let t = post.skip(n);
    assert forall|x: Seq<char>| #[trigger] post.contains(x) <==> pre.contains(x) || added.contains(x) by {
        if post.contains(x) {
            let k = choose|k: int| 0 <= k < post.len() && post[k] == x;
            if k < n {
                assert(post.take(n)[k] == x);
                assert(pre.contains(x));
            } else {
                assert(t[k - n] == x);
                assert(t.to_set().contains(x));
            }
        }
        if pre.contains(x) {
            let k = choose|k: int| 0 <= k < pre.len() && pre[k] == x;
            assert(post.take(n)[k] == x);
            assert(post[k] == x);
        }
        if added.contains(x) {
            assert(t.to_set().contains(x));
            let k = choose|k: int| 0 <= k < t.len() && t[k] == x;
            assert(post[n + k] == x);
        }
    }
    if pre.no_duplicates() && (forall|x: Seq<char>| #[trigger] pre.contains(x) ==> !added.contains(x)) {
        assert forall|i: int, j: int| 0 <= i < post.len() && 0 <= j < post.len() && i != j implies post[i]
            != post[j] by {
            if i < n {
                assert(post.take(n)[i] == post[i]);
                assert(pre.contains(post[i]));
            } else {
                assert(t[i - n] == post[i]);
                assert(t.to_set().contains(post[i]));
            }
            if j < n {
                assert(post.take(n)[j] == post[j]);
                assert(pre.contains(post[j]));
            } else {
                assert(t[j - n] == post[j]);
                assert(t.to_set().contains(post[j]));
            }
        }
    }
}

/// A fresh frontier is sound.
pub proof fn startup_begins_sound(g: DependencyGraph, v: FrontierState)
    requires
        g.wf(),
        initial(g, v),
    ensures
        sound(g, v),
{
    let free = g.names().filter(|s: Seq<char>| g.deps(s).len() == 0);
    lemma_grown_unique(Seq::empty(), v.queue, free);
    assert(v.unmet.dom() =~= g.names());
    assert forall|x: Seq<char>| g.names().contains(x) && !v.blocked.contains(x) implies #[trigger] v.unmet[x]
        == g.deps(x).difference(marked(v)).len() by {
        assert(g.deps(x).difference(marked(v)) =~= g.deps(x));
    }
}

/// Handing out services keeps a frontier sound.
pub proof fn taking_keeps_sound(g: DependencyGraph, pre: FrontierState, post: FrontierState)
    requires
        sound(g, pre),
        take_step(pre, post),
    ensures
        sound(g, post),
{
    assert(marked(post) =~= marked(pre));
    assert forall|x: Seq<char>| post.pending.contains(x) <==> pre.pending.contains(x)
        || pre.queue.contains(x) by {}
}

/// A pending service that becomes ready keeps a frontier sound.
pub proof fn ready_keeps_sound(
    g: DependencyGraph,
    pre: FrontierState,
    s: Seq<char>,
    post: FrontierState,
)
    requires
        sound(g, pre),
        pre.pending.contains(s),
        ready_step(g, pre, s, post),
    ensures
        sound(g, post),
{
    let od = open_dependents(g, pre, s);
    let rel = released(od, post.unmet, post.completed, post.pending);
    g.lemma_wf();
    assert(!pre.completed.contains(s) && !pre.blocked.contains(s));
    assert(marked(post) =~= marked(pre).insert(s));
    assert(post.unmet.dom() =~= g.names());
    assert(!g.dep(s, s)) by {
        assert(pre.unmet[s] == 0);
        lemma_one_less(g, s, marked(pre), s);
    }
    assert forall|x: Seq<char>| g.names().contains(x) && !pre.blocked.contains(x) implies {
        &&& #[trigger] post.unmet[x] == g.deps(x).difference(marked(post)).len()
        &&& g.dep(x, s) ==> pre.unmet[x] == post.unmet[x] + 1
        &&& !g.dep(x, s) ==> pre.unmet[x] == post.unmet[x]
    } by {
        lemma_one_less(g, x, marked(pre), s);
        assert(pre.unmet[x] == g.deps(x).difference(marked(pre)).len());
        assert(od.contains(x) <==> g.dep(x, s));
    }
    assert forall|x: Seq<char>| #[trigger] pre.queue.contains(x) implies !rel.contains(x) by {
        if rel.contains(x) {
            assert(pre.unmet[x] == 0);
            assert(post.unmet[x] == 0);
        }
    }
    lemma_grown_unique(pre.queue, post.queue, rel);
    assert forall|x: Seq<char>| g.names().contains(x) && !post.blocked.contains(x) implies (
    #[trigger] post.unmet[x] == 0 <==> post.queue.contains(x) || post.pending.contains(x)
        || post.completed.contains(x)) by {
        assert(pre.unmet[x] == 0 <==> pre.queue.contains(x) || pre.pending.contains(x)
            || pre.completed.contains(x));
        assert(rel.contains(x) <==> g.dep(x, s) && post.unmet[x] == 0 && !post.completed.contains(x)
            && !post.pending.contains(x));
    }
    assert forall|x: Seq<char>, d: Seq<char>| #[trigger]
        g.req(x, d) && post.completed.contains(d) && !post.ready.contains(d) implies post.blocked.contains(x) by {
        assert(pre.completed.contains(d) && !pre.ready.contains(d));
    }
    assert forall|x: Seq<char>| #[trigger] post.blocked.contains(x) implies exists|d: Seq<char>|
        g.req(x, d) && post.completed.contains(d) && !post.ready.contains(d) by {
        assert(pre.blocked.contains(x));
        let d = choose|d: Seq<char>| g.req(x, d) && pre.completed.contains(d) && !pre.ready.contains(d);
        assert(g.req(x, d) && post.completed.contains(d) && !post.ready.contains(d));
    }
}

/// A pending service that fails keeps a frontier sound.
pub proof fn failure_keeps_sound(
    g: DependencyGraph,
    pre: FrontierState,
    s: Seq<char>,
    post: FrontierState,
)
    requires
        sound(g, pre),
        pre.pending.contains(s),
        failed_step(g, pre, s, post),
    ensures
        sound(g, post),
{
    let soft = soft_dependents(g, s);
    let stop = pre.completed.insert(s).union(pre.blocked);
    let rel = released(soft, post.unmet, stop, post.pending);
    g.lemma_wf();
    assert(!pre.completed.contains(s) && !pre.blocked.contains(s));
    assert(pre.unmet[s] == 0);
    // Nothing that waits for nothing, and nothing completed, needs `s`.
    assert forall|x: Seq<char>| needs(g, x, s) && !pre.blocked.contains(x) implies pre.unmet[x] > 0
        && g.names().contains(x) by {
        let p = choose|p: Seq<Seq<char>>| #[trigger] needs_by(g, p, x, s);
        lemma_needing_waits(g, pre, p, x, s);
        lemma_needs_service(g, x, s);
    }
    assert forall|x: Seq<char>| #[trigger] post.blocked.contains(x) && !pre.blocked.contains(x) implies
        !pre.completed.contains(x) && !pre.pending.contains(x) && !pre.queue.contains(x) && x != s
        && g.names().contains(x) && needs(g, x, s) by {
        assert(needs(g, x, s));
        assert(pre.unmet[x] > 0);
    }
    assert(marked(post) =~= marked(pre).insert(s));
    assert(post.unmet.dom() =~= g.names());
    assert forall|x: Seq<char>| g.names().contains(x) && !post.blocked.contains(x) implies {
        &&& #[trigger] post.unmet[x] == g.deps(x).difference(marked(post)).len()
        &&& g.dep(x, s) ==> pre.unmet[x] == post.unmet[x] + 1
        &&& !g.dep(x, s) ==> pre.unmet[x] == post.unmet[x]
    } by {
        lemma_one_less(g, x, marked(pre), s);
        assert(pre.unmet[x] == g.deps(x).difference(marked(pre)).len());
        if g.req(x, s) {
            lemma_needs_one(g, x, s);
        }
        assert(soft.contains(x) <==> g.dep(x, s));
    }
    assert forall|x: Seq<char>| rel.contains(x) implies !post.blocked.contains(x) by {
        if post.blocked.contains(x) {
            // `x` waits for `s` and for the next service on its way to `s`.
            let p = choose|p: Seq<Seq<char>>| #[trigger] needs_by(g, p, x, s);
            lemma_needing_waits(g, pre, p, x, s);
            let y = p[1];
            assert(g.req(p[0], p[1]));
            assert(!g.req(x, s));
            assert(y != s);
            lemma_tail_needs(g, p, x, s);
            assert(!marked(pre).contains(y)) by {
                assert(needs(g, y, s));
                if !pre.blocked.contains(y) {
                    assert(pre.unmet[y] > 0);
                    lemma_needs_service(g, y, s);
                }
            }
            lemma_one_less(g, x, marked(pre), s);
            lemma_one_less(g, x, marked(pre).insert(s), y);
            assert(g.deps(x).difference(marked(pre)).len() >= 2);
            assert(pre.unmet[x] == g.deps(x).difference(marked(pre)).len());
            assert(post.unmet[x] > 0);
        }
    }
    assert forall|x: Seq<char>| #[trigger] pre.queue.contains(x) implies !rel.contains(x) by {
        if rel.contains(x) {
            assert(!post.blocked.contains(x));
            assert(pre.unmet[x] == 0);
            assert(post.unmet[x] == 0);
        }
    }
    lemma_grown_unique(pre.queue, post.queue, rel);
    assert forall|x: Seq<char>| #[trigger] post.queue.contains(x) implies g.names().contains(x)
        && !post.pending.contains(x) && !post.completed.contains(x) by {
        if pre.queue.contains(x) {
            assert(!post.blocked.contains(x) || pre.blocked.contains(x));
        } else {
            assert(rel.contains(x));
        }
    }
    assert forall|x: Seq<char>| g.names().contains(x) && !post.blocked.contains(x) implies (
    #[trigger] post.unmet[x] == 0 <==> post.queue.contains(x) || post.pending.contains(x)
        || post.completed.contains(x)) by {
        assert(pre.unmet[x] == 0 <==> pre.queue.contains(x) || pre.pending.contains(x)
            || pre.completed.contains(x));
        if g.req(x, s) {
            lemma_needs_one(g, x, s);
        }
        assert(rel.contains(x) <==> g.dep(x, s) && post.unmet[x] == 0 && !pre.completed.contains(x)
            && x != s && !post.pending.contains(x));
    }
    assert forall|x: Seq<char>, d: Seq<char>| #[trigger]
        g.req(x, d) && post.completed.contains(d) && !post.ready.contains(d) implies post.blocked.contains(x) by {
        if pre.completed.contains(d) {
            assert(pre.blocked.contains(x));
        } else if d == s {
            lemma_needs_one(g, x, s);
        } else {
            assert(post.blocked.contains(d));
            lemma_needs_more(g, x, d, s);
        }
    }
    assert forall|x: Seq<char>| #[trigger] post.blocked.contains(x) implies exists|d: Seq<char>|
        g.req(x, d) && post.completed.contains(d) && !post.ready.contains(d) by {
        if pre.blocked.contains(x) {
            let d = choose|d: Seq<char>|
                g.req(x, d) && pre.completed.contains(d) && !pre.ready.contains(d);
            assert(g.req(x, d) && post.completed.contains(d) && !post.ready.contains(d));
        } else {
            let p = choose|p: Seq<Seq<char>>| #[trigger] needs_by(g, p, x, s);
            let d = p[1];
            assert(g.req(p[0], p[1]));
            if d != s {
                lemma_tail_needs(g, p, x, s);
                assert(post.blocked.contains(d));
                if pre.blocked.contains(d) {
                    assert(pre.completed.contains(d));
                } else {
                    assert(!pre.completed.contains(d));
                }
            }
            assert(g.req(x, d) && post.completed.contains(d) && !post.ready.contains(d));
        }
    }
}

/// The rest of a chain of requirements is one too.
proof fn lemma_tail_needs(g: DependencyGraph, p: Seq<Seq<char>>, x: Seq<char>, s: Seq<char>)
    requires
        needs_by(g, p, x, s),
        p[1] != s,
    ensures
        needs_by(g, p.drop_first(), p[1], s),
        needs(g, p[1], s),
{
    let q = p.drop_first();
    assert(p.len() > 2);
    assert forall|i: int, j: int| 0 <= i && j == i + 1 && j < q.len() implies g.req(
        #[trigger] q[i],
        #[trigger] q[j],
    ) by {
        assert(q[i] == p[i + 1]);
        assert(q[j] == p[j + 1]);
    }
    assert(needs_by(g, q, p[1], s));
}

/// What needs a service that is neither ready nor failed waits, unless it is
/// blocked.
proof fn lemma_needing_waits(
    g: DependencyGraph,
    v: FrontierState,
    p: Seq<Seq<char>>,
    x: Seq<char>,
    s: Seq<char>,
)
    requires
        sound(g, v),
        v.pending.contains(s),
        needs_by(g, p, x, s),
    ensures
        !v.blocked.contains(x) ==> v.unmet[x] > 0 && !v.completed.contains(x)
            && !v.pending.contains(x) && !v.queue.contains(x),
    decreases p.len(),
{
    g.lemma_wf();
    let y = p[1];
    assert(g.req(p[0], p[1]));
    assert(g.dep(x, y));
    if y != s {
        lemma_tail_needs(g, p, x, s);
        lemma_needing_waits(g, v, p.drop_first(), y, s);
    }
    assert(!marked(v).contains(y));
    if !v.blocked.contains(x) {
        lemma_one_less(g, x, marked(v), y);
        assert(v.unmet[x] == g.deps(x).difference(marked(v)).len());
    }
}

/// In a sound frontier, what can start, has started or is ready starts after
/// nothing that is still to be started, and requires only what is ready.
pub proof fn starts_only_when_satisfied(g: DependencyGraph, v: FrontierState, x: Seq<char>)
    requires
        sound(g, v),
        v.queue.contains(x) || v.pending.contains(x) || v.ready.contains(x),
    ensures
        g.deps(x).subset_of(v.completed),
        g.deps(x).disjoint(v.pending),
        g.reqs(x).subset_of(v.ready),
        !v.blocked.contains(x),
{
    g.lemma_wf();
    g.lemma_finite(x);
    assert(!v.blocked.contains(x));
    assert(v.unmet[x] == 0);
    let rest = g.deps(x).difference(marked(v));
    rest.lemma_len0_is_empty();
    assert forall|d: Seq<char>| #[trigger] g.dep(x, d) implies v.completed.contains(d)
        && !v.blocked.contains(d) by {
        if !marked(v).contains(d) {
            assert(rest.contains(d));
        }
    }
    assert forall|d: Seq<char>| #[trigger] g.req(x, d) implies v.ready.contains(d) by {
        assert(g.dep(x, d));
    }
}

/// Startup does not stall: where a sound frontier of a graph without cycles
/// has nothing to start and waits for nothing, all services are completed,
/// provided that none starts after a blocked service without being blocked.
pub proof fn startup_runs_to_completion(g: DependencyGraph, v: FrontierState)
    requires
        sound(g, v),
        acyclic(g),
        v.queue.len() == 0,
        v.pending == Set::<Seq<char>>::empty(),
        forall|x: Seq<char>, d: Seq<char>| #[trigger]
            g.dep(x, d) && v.blocked.contains(d) ==> v.completed.contains(x),
    ensures
        v.completed == g.names(),
{
    g.lemma_wf();
    let u = g.names().difference(v.completed);
    assert forall|x: Seq<char>| #[trigger] u.contains(x) implies exists|d: Seq<char>|
        u.contains(d) && g.dep(x, d) by {
        assert(!v.blocked.contains(x));
        assert(v.unmet[x] != 0);
        g.lemma_finite(x);
        let rest = g.deps(x).difference(marked(v));
        assert(rest.len() > 0);
        let d = rest.choose();
        assert(rest.contains(d)) by {
            if !rest.contains(d) {
                assert(rest =~= Set::<Seq<char>>::empty());
            }
        }
        assert(g.dep(x, d));
        assert(u.contains(d) && g.dep(x, d));
    }
    if v.completed != g.names() {
        assert(!(v.completed =~= g.names()));
        let x = choose|x: Seq<char>| g.names().contains(x) && !v.completed.contains(x);
        assert(u.contains(x));
        lemma_closed_set_has_cycle(g, u, x);
    }
}

/// A failure blocks just the services that require the failed one, directly
/// or through others, beside those that were blocked before.
pub proof fn failure_blocks_what_requires_it(
    g: DependencyGraph,
    pre: FrontierState,
    s: Seq<char>,
    post: FrontierState,
    x: Seq<char>,
)
    requires
        failed_step(g, pre, s, post),
    ensures
        post.blocked.contains(x) <==> pre.blocked.contains(x) || needs(g, x, s),
{
}

/// A service can be started only once each service that its definition lists
/// as required is ready, and each that it lists as wanted or to start after is
/// ready, failed or blocked.
pub proof fn start_goes_by_the_lists(
    defs: Seq<ServiceDef>,
    g: DependencyGraph,
    v: FrontierState,
    a: int,
    b: int,
)
    requires
        built_from(defs, g),
        sound(g, v),
        0 <= a < defs.len(),
        0 <= b < defs.len(),
        v.queue.contains(defs[a].service.name@) || v.pending.contains(defs[a].service.name@),
    ensures
        ({
            let d = defs[a].dependencies;
            let other = defs[b].service.name@;
            &&& texts(d.required@).contains(other) ==> v.ready.contains(other)
            &&& texts(d.wants@).contains(other) ==> v.completed.contains(other)
            &&& texts(d.after@).contains(other) ==> v.completed.contains(other)
        }),
{
    lists_make_dependencies(defs, g, a, b);
    starts_only_when_satisfied(g, v, defs[a].service.name@);
}

/// A service that is not blocked, and of whose dependencies each is ready or
/// has failed, is waiting to be started, was handed out, or is done with.
pub proof fn satisfied_service_can_start(g: DependencyGraph, v: FrontierState, x: Seq<char>)
    requires
        sound(g, v),
        g.names().contains(x),
        !v.blocked.contains(x),
        forall|d: Seq<char>| #[trigger]
            g.deps(x).contains(d) ==> v.completed.contains(d) && !v.blocked.contains(d),
    ensures
        v.queue.contains(x) || v.pending.contains(x) || v.completed.contains(x),
{
    let rest = g.deps(x).difference(marked(v));
    assert(rest =~= Set::<Seq<char>>::empty());
    assert(v.unmet[x] == 0);
}

/// Taking what can start hands out just that, and leaves none of it behind.
pub proof fn taking_hands_everything_out(
    pre: FrontierState,
    post: FrontierState,
    x: Seq<char>,
)
    requires
        take_step(pre, post),
    ensures
        post.queue.len() == 0,
        post.pending.contains(x) <==> pre.pending.contains(x) || pre.queue.contains(x),
        post.ready == pre.ready,
        post.blocked == pre.blocked,
        post.completed == pre.completed,
{
    assert(pre.queue.to_set().contains(x) == pre.queue.contains(x));
}

/// A service that becomes ready is ready from then on, and no longer pending;
/// nothing else becomes ready, and nothing is blocked for it.
pub proof fn ready_service_is_noted(
    g: DependencyGraph,
    pre: FrontierState,
    s: Seq<char>,
    post: FrontierState,
    x: Seq<char>,
)
    requires
        ready_step(g, pre, s, post),
    ensures
        post.ready.contains(x) <==> pre.ready.contains(x) || x == s,
        post.completed.contains(x) <==> pre.completed.contains(x) || x == s,
        post.pending.contains(x) <==> pre.pending.contains(x) && x != s,
        post.blocked.contains(x) <==> pre.blocked.contains(x),
{
}

/// A service that fails is done with and not ready. A service that requires it,
/// or requires one that is blocked for it, is blocked; one that only starts
/// after it is not.
pub proof fn failed_service_is_noted(
    g: DependencyGraph,
    pre: FrontierState,
    s: Seq<char>,
    post: FrontierState,
    x: Seq<char>,
    y: Seq<char>,
)
    requires
        failed_step(g, pre, s, post),
    ensures
        post.ready.contains(x) <==> pre.ready.contains(x),
        post.completed.contains(s),
        pre.completed.contains(x) ==> post.completed.contains(x),
        post.pending.contains(x) <==> pre.pending.contains(x) && x != s,
        pre.blocked.contains(x) ==> post.blocked.contains(x),
        post.blocked.contains(x) && !pre.blocked.contains(x) ==> post.completed.contains(x),
        g.reqs(x).contains(s) ==> post.blocked.contains(x),
        g.reqs(x).contains(y) && post.blocked.contains(y) && !pre.blocked.contains(y)
            ==> post.blocked.contains(x),
        post.blocked.contains(x) && !pre.blocked.contains(x) ==> exists|d: Seq<char>|
            #[trigger] g.reqs(x).contains(d) && (d == s || post.blocked.contains(d)),
{
    if g.req(x, s) {
        let p = seq![x, s];
        assert(needs_by(g, p, x, s));
        assert(needs(g, x, s));
    }
    if g.req(x, y) && needs(g, y, s) {
        let p = choose|p: Seq<Seq<char>>| #[trigger] needs_by(g, p, y, s);
        let q = seq![x] + p;
        assert forall|i: int, j: int| 0 <= i && j == i + 1 && j < q.len() implies g.req(
            #[trigger] q[i],
            #[trigger] q[j],
        ) by {
            if i > 0 {
                assert(q[i] == p[i - 1] && q[j] == p[j - 1]);
            } else {
                assert(q[1] == p[0]);
            }
        }
        assert(needs_by(g, q, x, s));
        assert(needs(g, x, s));
    }
    if post.blocked.contains(x) && !pre.blocked.contains(x) {
        assert(needs(g, x, s));
        let p = choose|p: Seq<Seq<char>>| #[trigger] needs_by(g, p, x, s);
        assert(g.req(p[0], p[1]));
        assert(g.reqs(x).contains(p[1]));
        if p.len() > 2 {
            let q = p.skip(1);
            assert forall|i: int, j: int| 0 <= i && j == i + 1 && j < q.len() implies g.req(
                #[trigger] q[i],
                #[trigger] q[j],
            ) by {
                assert(q[i] == p[i + 1] && q[j] == p[j + 1]);
            }
            assert(needs_by(g, q, p[1], s));
            assert(needs(g, p[1], s));
        }
    }
}

/// Whether all services have been processed.
pub open spec fn is_all_done(
    v: FrontierState,
    r: bool,
) -> bool {
    r == v.unmet.dom().subset_of(v.completed)
}

/// Whether services have started but are not ready yet.
pub open spec fn waits_for_some(
    v: FrontierState,
    r: bool,
) -> bool {
    r == (v.pending != Set::<Seq<char>>::empty())
}

/// Whether services wait to be started.
pub open spec fn can_start_some(
    v: FrontierState,
    r: bool,
) -> bool {
    r == (v.queue.len() > 0)
}

/// Startup is complete just where each service is ready, failed or blocked; and
/// it tells whether some can start, and whether some have started and are waited
/// for.
pub proof fn progress_is_told(
    g: DependencyGraph,
    v: FrontierState,
    done: bool,
    waits: bool,
    can: bool,
    x: Seq<char>,
)
    requires
        is_all_done(v, done),
        waits_for_some(v, waits),
        can_start_some(v, can),
        sound(g, v),
    ensures
        done && g.names().contains(x) ==> v.completed.contains(x),
        !done ==> exists|y: Seq<char>| #[trigger] g.names().contains(y) && !v.completed.contains(y),
        v.pending.contains(x) ==> waits,
        waits ==> exists|y: Seq<char>| #[trigger] v.pending.contains(y),
        v.queue.contains(x) ==> can,
        can <==> v.queue.len() > 0,
{
    if !done {
        let y = choose|y: Seq<char>| v.unmet.dom().contains(y) && !v.completed.contains(y);
        assert(g.names().contains(y));
    }
    if waits {
        assert(exists|y: Seq<char>| #[trigger] v.pending.contains(y)) by {
            if forall|y: Seq<char>| !#[trigger] v.pending.contains(y) {
                assert(v.pending =~= Set::<Seq<char>>::empty());
            }
        }
    }
}

/// Before anything has started, just the services without a dependency can
/// start, and nothing is pending, ready or blocked.
pub proof fn startup_begins_with_the_independent(g: DependencyGraph, v: FrontierState, x: Seq<char>)
    requires
        g.wf(),
        initial(g, v),
    ensures
        v.queue.contains(x) <==> g.names().contains(x) && forall|d: Seq<char>| !#[trigger]
            g.deps(x).contains(d),
        !v.pending.contains(x),
        !v.ready.contains(x),
        !v.blocked.contains(x),
        !v.completed.contains(x),
{
    startup_begins_sound(g, v);
    g.lemma_finite(x);
    let free = g.names().filter(|s: Seq<char>| g.deps(s).len() == 0);
    assert(v.queue.skip(0) =~= v.queue);
    assert(v.queue.to_set() == free);
    assert(v.queue.contains(x) == v.queue.to_set().contains(x));
    if g.deps(x).len() == 0 {
        assert(g.deps(x) =~= Set::<Seq<char>>::empty());
    } else {
        assert(g.deps(x) != Set::<Seq<char>>::empty());
        assert(exists|d: Seq<char>| #[trigger] g.deps(x).contains(d)) by {
            if forall|d: Seq<char>| !#[trigger] g.deps(x).contains(d) {
                assert(g.deps(x) =~= Set::<Seq<char>>::empty());
            }
        }
    }
}

} // verus!
