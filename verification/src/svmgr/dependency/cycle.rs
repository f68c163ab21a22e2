//! Cycles in the dependency graph.

use crate::names::{position, NameMap};
use crate::svmgr::dependency::graph::DependencyGraph;
use crate::text::{cat, cat3, join, joined, texts};
use vstd::prelude::*;

verus! {

/// Whether `c` is a cycle: each of its services, none of them twice, starts
/// after the next, and the last after the first.
pub open spec fn is_cycle(g: DependencyGraph, c: Seq<Seq<char>>) -> bool {
    &&& c.len() > 0
    &&& c.no_duplicates()
    &&& is_path(g, c)
    &&& g.dep(c.last(), c[0])
}

/// Whether each name in `p` starts after the next.
pub open spec fn is_path(g: DependencyGraph, p: Seq<Seq<char>>) -> bool {
    forall|i: int, j: int|
        0 <= i && j == i + 1 && j < p.len() ==> g.dep(#[trigger] p[i], #[trigger] p[j])
}

/// Whether there is no cycle.
pub open spec fn acyclic(g: DependencyGraph) -> bool {
    forall|c: Seq<Seq<char>>| !#[trigger] is_cycle(g, c)
}

#[derive(Clone, Copy, PartialEq, Eq, Structural)]
enum Color {
    /// Not visited.
    White,
    /// On the path that is being followed.
    Gray,
    /// Visited, with all that it leads to.
    Black,
}

spec fn with_color(m: NameMap<Color>, c: Color) -> Set<Seq<char>> {
    Set::new(|n: Seq<char>| m@.contains_key(n) && m@[n] == c)
}

/// No cycle goes through a black service.
spec fn black_clear(g: DependencyGraph, m: NameMap<Color>) -> bool {
    forall|c: Seq<Seq<char>>, i: int|
        is_cycle(g, c) && 0 <= i < c.len() ==> m@[#[trigger] c[i]] != Color::Black
}

/// What holds between two steps of the search.
spec fn search_inv(
    g: DependencyGraph,
    m: NameMap<Color>,
    path: Seq<String>,
    cycles: Seq<Vec<String>>,
) -> bool {
    &&& g.wf()
    &&& m.wf()
    &&& m@.dom() == g.names()
    &&& texts(path).no_duplicates()
    &&& is_path(g, texts(path))
    &&& forall|n: Seq<char>| #[trigger]
        texts(path).contains(n) <==> m@.contains_key(n) && m@[n] == Color::Gray
    &&& forall|i: int| 0 <= i < cycles.len() ==> is_cycle(g, texts(#[trigger] cycles[i]@))
    &&& cycles.len() == 0 ==> black_clear(g, m)
}

/// The cycle that an edge back into the path closes.
proof fn lemma_closed(g: DependencyGraph, path: Seq<Seq<char>>, start: int)
    requires
        is_path(g, path),
        path.no_duplicates(),
        0 <= start < path.len(),
        g.dep(path.last(), path[start]),
    ensures
        is_cycle(g, path.skip(start)),
{
    let c = path.skip(start);
    assert forall|i: int, j: int| 0 <= i && j == i + 1 && j < c.len() implies g.dep(
        #[trigger] c[i],
        #[trigger] c[j],
    ) by {
        assert(c[i] == path[start + i]);
        assert(c[j] == path[start + j]);
    }
}

/// A cycle through a service whose dependencies are all black goes through a
/// black service.
proof fn lemma_blacken(g: DependencyGraph, m: NameMap<Color>, n: NameMap<Color>, s: Seq<char>)
    requires
        black_clear(g, m),
        n@ == m@.insert(s, Color::Black),
        m@[s] != Color::Black,
        forall|d: Seq<char>| g.dep(s, d) ==> #[trigger] m@[d] == Color::Black,
    ensures
        black_clear(g, n),
{
    assert forall|c: Seq<Seq<char>>, i: int|
        is_cycle(g, c) && 0 <= i < c.len() implies n@[#[trigger] c[i]] != Color::Black by {
        if c[i] == s {
            if i + 1 < c.len() {
                assert(g.dep(c[i], c[i + 1]));
                assert(m@[c[i + 1]] == Color::Black);
            } else {
                assert(g.dep(c.last(), c[0]));
                assert(m@[c[0]] == Color::Black);
            }
        } else {
            assert(m@[c[i]] != Color::Black);
        }
    }
}

/// The services of `path` from `start` on.
fn tail_of(path: &Vec<String>, start: usize) -> (r: Vec<String>)
    requires
        start <= path.len(),
    ensures
        r@ == path@.skip(start as int),
{
    let mut r: Vec<String> = Vec::new();
    let mut i: usize = start;
    while i < path.len()
        invariant
            start <= i <= path.len(),
            r@ == path@.subrange(start as int, i as int),
        decreases path.len() - i,
    {
        r.push(path[i].clone());
        i += 1;
    }
    r
}

proof fn lemma_fewer_white(a: NameMap<Color>, b: NameMap<Color>, s: Seq<char>)
    requires
        a@.dom().finite(),
        a@.contains_key(s),
        a@[s] == Color::White,
        b@.dom() == a@.dom(),
        b@[s] != Color::White,
        forall|n: Seq<char>| #[trigger] a@.contains_key(n) && a@[n] != Color::White ==> b@[n] != Color::White,
    ensures
        with_color(b, Color::White).len() < with_color(a, Color::White).len(),
{
    let x = with_color(a, Color::White);
    let y = with_color(b, Color::White);
    vstd::set_lib::lemma_set_subset_finite(a@.dom(), x);
    assert(y.subset_of(x));
    assert(!y.contains(s) && x.contains(s));
    vstd::set_lib::lemma_set_subset_finite(x, y);
    assert(y.subset_of(x.remove(s)));
    vstd::set_lib::lemma_len_subset(y, x.remove(s));
}

/// Follows the dependencies of `node`.
fn dfs(
    graph: &DependencyGraph,
    node: &str,
    colors: &mut NameMap<Color>,
    path: &mut Vec<String>,
    cycles: &mut Vec<Vec<String>>,
)
    requires
        search_inv(*graph, *old(colors), old(path)@, old(cycles)@),
        graph.names().contains(node@),
        old(colors)@[node@] == Color::White,
        old(path)@.len() > 0 ==> graph.dep(old(path)@.last()@, node@),
    ensures
        search_inv(*graph, *final(colors), final(path)@, final(cycles)@),
        final(path)@ == old(path)@,
        final(colors)@[node@] == Color::Black,
        final(cycles)@.len() >= old(cycles)@.len(),
        forall|n: Seq<char>|
            graph.names().contains(n) && old(colors)@[n] != Color::White
                ==> #[trigger] final(colors)@[n] == old(colors)@[n],
    decreases with_color(*old(colors), Color::White).len(),
{
    let ghost c0 = *colors;
    let ghost p0 = path@;
    proof {
        colors.lemma_order();
    }
    colors.insert(crate::text::owned(node), Color::Gray);
    path.push(crate::text::owned(node));
    let ghost p1 = path@;
    proof {
        assert(colors@.dom() =~= c0@.dom());
        assert(texts(p1) == texts(p0).push(node@));
        assert(!texts(p0).contains(node@));
        assert(texts(p1).no_duplicates());
        assert forall|i: int, j: int| 0 <= i && j == i + 1 && j < texts(p1).len() implies graph.dep(
            #[trigger] texts(p1)[i],
            #[trigger] texts(p1)[j],
        ) by {
            if j < p0.len() {
                assert(texts(p0)[i] == texts(p1)[i]);
                assert(texts(p0)[j] == texts(p1)[j]);
            } else {
                assert(texts(p1)[i] == p0.last()@);
            }
        }
        assert forall|n: Seq<char>| #[trigger]
            texts(p1).contains(n) <==> colors@.contains_key(n) && colors@[n] == Color::Gray by {
            vstd::seq_lib::lemma_seq_contains_after_push(texts(p0), node@, n);
            assert(texts(p0).contains(n) <==> c0@.contains_key(n) && c0@[n] == Color::Gray);
        }
        assert(cycles@.len() == 0 ==> black_clear(*graph, *colors)) by {
            if cycles@.len() == 0 {
                assert forall|c: Seq<Seq<char>>, i: int|
                    is_cycle(*graph, c) && 0 <= i < c.len() implies colors@[#[trigger] c[i]]
                    != Color::Black by {
                    assert(c0@[c[i]] != Color::Black);
                }
            }
        }
    }
    let deps = graph.dependencies_of(node);
    let n = deps.len();
    proof {
        deps.lemma_order();
        graph.lemma_wf();
    }
    let mut i: usize = 0;
    while i < n
        invariant
            i <= n,
            n == deps.order().len(),
            deps.wf(),
            deps@ == graph.deps(node@),
            forall|k: int| 0 <= k < n ==> deps@.contains(#[trigger] deps.order()[k]),
            search_inv(*graph, *colors, path@, cycles@),
            path@ == p1,
            p1.len() > 0,
            p1.last()@ == node@,
            texts(p1).contains(node@),
            c0@.dom() == graph.names(),
            graph.names().contains(node@),
            c0@[node@] == Color::White,
            colors@[node@] == Color::Gray,
            cycles@.len() >= old(cycles)@.len(),
            forall|x: Seq<char>|
                graph.names().contains(x) && c0@[x] != Color::White ==> #[trigger] colors@[x]
                    == c0@[x],
            cycles@.len() == 0 ==> forall|k: int|
                0 <= k < i ==> colors@[#[trigger] deps.order()[k]] == Color::Black,
            c0 == *old(colors),
        decreases n - i,
    {
        let dep = deps.at(i);
        proof {
            assert(deps@.contains(deps.order()[i as int]));
            assert(graph.dep(node@, dep@));
            graph.lemma_wf();
            colors.lemma_order();
        }
        match colors.get(dep.as_str()) {
            Some(Color::Gray) => {
                let start = position(path, dep.as_str());
                proof {
                    assert(texts(path@).contains(dep@));
                    assert(texts(path@)[start as int] == dep@);
                    assert(texts(path@).last() == node@);
                    lemma_closed(*graph, texts(path@), start as int);
                    assert(texts(path@.skip(start as int)) == texts(path@).skip(start as int));
                }
                let cycle = tail_of(path, start);
                cycles.push(cycle);
            },
            Some(Color::White) | None => {
                proof {
                    lemma_fewer_white(c0, *colors, node@);
                }
                let ghost before = *colors;
                dfs(graph, dep.as_str(), colors, path, cycles);
                proof {
                    assert(colors@[node@] == before@[node@]);
                    if cycles@.len() == 0 {
                        assert forall|k: int| 0 <= k < i implies colors@[#[trigger] deps.order()[k]]
                            == Color::Black by {
                            assert(before@[deps.order()[k]] == Color::Black);
                            assert(graph.dep(node@, deps.order()[k]));
                        }
                    }
                }
            },
            Some(Color::Black) => {},
        }
        i += 1;
    }
    let ghost c1 = *colors;
    let gone = path.pop();
    colors.insert(crate::text::owned(node), Color::Black);
    proof {
        assert(path@ =~= p0);
        assert(colors@.dom() =~= c1@.dom());
        assert forall|x: Seq<char>| #[trigger]
            texts(p0).contains(x) <==> colors@.contains_key(x) && colors@[x] == Color::Gray by {
            vstd::seq_lib::lemma_seq_contains_after_push(texts(p0), node@, x);
            assert(texts(p1).contains(x) <==> c1@.contains_key(x) && c1@[x] == Color::Gray);
        }
        if cycles@.len() == 0 {
            assert forall|d: Seq<char>| graph.dep(node@, d) implies #[trigger] c1@[d]
                == Color::Black by {
                assert(deps@.contains(d));
                assert(deps.order().contains(d));
                let k = choose|k: int| 0 <= k < n && deps.order()[k] == d;
                assert(c1@[deps.order()[k]] == Color::Black);
            }
            lemma_blacken(*graph, c1, *colors, node@);
        }
    }
}

/// Lists cycles of the graph, each as the services on it. There is none in
/// the list only where the graph has none.
pub fn detect_cycles(graph: &DependencyGraph) -> (r: Vec<Vec<String>>)
    requires
        graph.wf(),
    ensures
        forall|i: int| 0 <= i < r@.len() ==> is_cycle(*graph, texts(#[trigger] r@[i]@)),
        r@.len() == 0 <==> acyclic(*graph),
{
    let services = graph.all_services();
    let n = services.len();
    let mut colors: NameMap<Color> = NameMap::new();
    let mut path: Vec<String> = Vec::new();
    let mut cycles: Vec<Vec<String>> = Vec::new();
    proof {
        services.lemma_order();
    }
    let mut i: usize = 0;
    while i < n
        invariant
            i <= n,
            n == services.order().len(),
            services.wf(),
            services.order().no_duplicates(),
            colors.wf(),
            forall|k: Seq<char>| #[trigger]
                colors@.contains_key(k) <==> services.order().take(i as int).contains(k),
            forall|k: Seq<char>| #[trigger] colors@.contains_key(k) ==> colors@[k] == Color::White,
        decreases n - i,
    {
        let s = services.at(i);
        colors.insert(s.clone(), Color::White);
        proof {
            let p = services.order().take(i as int);
            let q = services.order().take(i + 1);
            assert(q == p.push(s@));
            assert forall|k: Seq<char>| #[trigger] colors@.contains_key(k) <==> q.contains(k) by {
                vstd::seq_lib::lemma_seq_contains_after_push(p, s@, k);
            }
        }
        i += 1;
    }
    proof {
        assert(services.order().take(n as int) == services.order());
        assert(colors@.dom() =~= graph.names()) by {
            assert forall|k: Seq<char>| colors@.dom().contains(k) == graph.names().contains(k) by {
                assert(colors@.contains_key(k) <==> services.order().contains(k));
            }
        }
        assert(texts(path@) == Seq::<Seq<char>>::empty());
        assert(black_clear(*graph, colors)) by {
            graph.lemma_wf();
            assert forall|c: Seq<Seq<char>>, i: int|
                is_cycle(*graph, c) && 0 <= i < c.len() implies colors@[#[trigger] c[i]]
                != Color::Black by {
                lemma_on_cycle(*graph, c, i);
                assert(colors@.contains_key(c[i]));
            }
        }
        assert(search_inv(*graph, colors, path@, cycles@));
    }
    i = 0;
    while i < n
        invariant
            i <= n,
            n == services.order().len(),
            services.wf(),
            services@ == graph.names(),
            services.order() == graph.listed(),
            search_inv(*graph, colors, path@, cycles@),
            path@.len() == 0,
            forall|k: int| 0 <= k < i ==> colors@[#[trigger] services.order()[k]] == Color::Black,
        decreases n - i,
    {
        let s = services.at(i);
        proof {
            services.lemma_order();
            assert(services@.contains(services.order()[i as int]));
        }
        let ghost before = colors;
        let white = match colors.get(s.as_str()) {
            Some(Color::White) => true,
            _ => false,
        };
        if white {
            dfs(graph, s.as_str(), &mut colors, &mut path, &mut cycles);
            proof {
                assert forall|k: int| 0 <= k < i implies colors@[#[trigger] services.order()[k]]
                    == Color::Black by {
                    assert(services@.contains(services.order()[k]));
                    assert(before@[services.order()[k]] == Color::Black);
                }
            }
        } else {
            assert(!texts(path@).contains(s@));
            assert(colors@[s@] == Color::Black);
        }
        i += 1;
    }
    proof {
        services.lemma_order();
        if cycles@.len() == 0 {
            assert forall|c: Seq<Seq<char>>| !#[trigger] is_cycle(*graph, c) by {
                if is_cycle(*graph, c) {
                    lemma_on_cycle(*graph, c, 0);
                    assert(services.order().contains(c[0]));
                    let k = choose|k: int| 0 <= k < n && services.order()[k] == c[0];
                    assert(colors@[services.order()[k]] == Color::Black);
                }
            }
        } else {
            assert(is_cycle(*graph, texts(cycles@[0]@)));
        }
    }
    cycles
}

/// What stands on a cycle is a service.
proof fn lemma_on_cycle(g: DependencyGraph, c: Seq<Seq<char>>, i: int)
    requires
        g.wf(),
        is_cycle(g, c),
        0 <= i < c.len(),
    ensures
        g.names().contains(c[i]),
{
    g.lemma_wf();
    if i + 1 < c.len() {
        assert(g.dep(c[i], c[i + 1]));
    } else {
        assert(g.dep(c.last(), c[0]));
    }
}

proof fn lemma_walk(g: DependencyGraph, u: Set<Seq<char>>, p: Seq<Seq<char>>)
    requires
        u.finite(),
        forall|x: Seq<char>| #[trigger] u.contains(x) ==> exists|d: Seq<char>| u.contains(d) && g.dep(x, d),
        p.len() > 0,
        p.no_duplicates(),
        is_path(g, p),
        forall|i: int| 0 <= i < p.len() ==> u.contains(#[trigger] p[i]),
    ensures
        !acyclic(g),
    decreases u.len() + 1 - p.len(),
{
    p.unique_seq_to_set();
    assert(p.to_set().subset_of(u));
    vstd::set_lib::lemma_len_subset(p.to_set(), u);
    let x = p.last();
    assert(u.contains(p[p.len() - 1]));
    let d = choose|d: Seq<char>| u.contains(d) && g.dep(x, d);
    if p.contains(d) {
        let k = choose|k: int| 0 <= k < p.len() && p[k] == d;
        lemma_closed(g, p, k);
        assert(is_cycle(g, p.skip(k)));
    } else {
        let q = p.push(d);
        assert forall|i: int, j: int| 0 <= i && j == i + 1 && j < q.len() implies g.dep(
            #[trigger] q[i],
            #[trigger] q[j],
        ) by {
            if j < p.len() {
                assert(g.dep(p[i], p[j]));
            }
        }
        lemma_walk(g, u, q);
    }
}

/// Where each member of a finite set of services, one at least, depends on
/// a member, there is a cycle.
pub proof fn lemma_closed_set_has_cycle(g: DependencyGraph, u: Set<Seq<char>>, x: Seq<char>)
    requires
        u.finite(),
        u.contains(x),
        forall|y: Seq<char>| #[trigger] u.contains(y) ==> exists|d: Seq<char>| u.contains(d) && g.dep(y, d),
    ensures
        !acyclic(g),
{
    lemma_walk(g, u, seq![x]);
}

/// The cycles that make a graph unusable.
#[derive(Debug)]
pub struct CycleError {
    pub cycles: Vec<Vec<String>>,
}

/// A cycle in words: its services, and the first once more.
pub open spec fn cycle_text(c: Seq<Seq<char>>) -> Seq<char> {
    joined(c, " -> "@) + " -> "@ + c[0]
}

/// The texts of a list of cycles.
pub open spec fn cycle_texts(v: Seq<Vec<String>>) -> Seq<Seq<char>> {
    v.map_values(|c: Vec<String>| cycle_text(texts(c@)))
}

/// A list of cycles in words.
pub fn format_cycles(cycles: &Vec<Vec<String>>) -> (r: String)
    requires
        forall|i: int| 0 <= i < cycles@.len() ==> #[trigger] cycles@[i]@.len() > 0,
    ensures
        r@ == joined(cycle_texts(cycles@), "; "@),
{
    let mut parts: Vec<String> = Vec::new();
    let mut i: usize = 0;
    while i < cycles.len()
        invariant
            i <= cycles.len(),
            texts(parts@) == cycle_texts(cycles@.take(i as int)),
            forall|i: int| 0 <= i < cycles@.len() ==> #[trigger] cycles@[i]@.len() > 0,
        decreases cycles.len() - i,
    {
        let c = &cycles[i];
        let text = cat3(join(c, " -> ").as_str(), " -> ", c[0].as_str());
        let ghost before = parts@;
        parts.push(text);
        proof {
            assert(texts(c@)[0] == c@[0]@);
            assert(texts(parts@) == texts(before).push(text@));
            assert(cycle_texts(cycles@.take(i + 1)) == cycle_texts(cycles@.take(i as int)).push(
                cycle_text(texts(c@)),
            ));
        }
        i += 1;
    }
    assert(cycles@.take(cycles@.len() as int) == cycles@);
    join(&parts, "; ")
}

impl CycleError {
    /// The error in words.
    pub fn message(&self) -> (r: String)
        requires
            forall|i: int| 0 <= i < self.cycles@.len() ==> #[trigger] self.cycles@[i]@.len() > 0,
        ensures
            r@ == "dependency cycles detected: "@ + joined(cycle_texts(self.cycles@), "; "@),
    {
        cat("dependency cycles detected: ", format_cycles(&self.cycles).as_str())
    }
}

/// What looking for cycles gives.
pub open spec fn cycles_looked_for(
    g: DependencyGraph,
    r: Result<(), CycleError>,
) -> bool {
    &&& r is Ok <==> acyclic(g)
    &&& r matches Err(e) ==> e.cycles@.len() > 0 && forall|i: int|
            0 <= i < e.cycles@.len() ==> is_cycle(g, texts(#[trigger] e.cycles@[i]@))
}

/// Accepts the graphs without cycles; the error lists cycles of the others.
pub fn validate_no_cycles(graph: &DependencyGraph) -> (r: Result<(), CycleError>)
    requires
        graph.wf(),
    ensures
        cycles_looked_for(*graph, r),
{
    let cycles = detect_cycles(graph);
    if cycles.is_empty() {
        Ok(())
    } else {
        Err(CycleError { cycles })
    }
}

/// A graph is refused where there is a way round: services of which each starts
/// after the next, and the last after the first; also where a service comes
/// twice on the way, or starts after itself. It is accepted where there is none.
pub proof fn way_round_is_refused(
    g: DependencyGraph,
    r: Result<(), CycleError>,
    p: Seq<Seq<char>>,
)
    requires
        cycles_looked_for(g, r),
        p.len() > 0,
        forall|i: int| 0 <= i < p.len() - 1 ==> g.deps(#[trigger] p[i]).contains(next_on(p, i)),
        g.deps(p.last()).contains(p[0]),
    ensures
        r is Err,
{
    let u = p.to_set();
    vstd::seq_lib::seq_to_set_is_finite(p);
    assert(p.contains(p[0]));
    assert forall|y: Seq<char>| #[trigger] u.contains(y) implies exists|d: Seq<char>|
        u.contains(d) && g.dep(y, d) by {
        let i = choose|i: int| 0 <= i < p.len() && p[i] == y;
        if i < p.len() - 1 {
            assert(g.deps(p[i]).contains(next_on(p, i)));
            assert(p.contains(p[i + 1]));
            assert(u.contains(next_on(p, i)) && g.dep(y, next_on(p, i)));
        } else {
            assert(u.contains(p[0]) && g.dep(y, p[0]));
        }
    }
    lemma_closed_set_has_cycle(g, u, p[0]);
}

/// The one behind the place `i`.
pub open spec fn next_on(p: Seq<Seq<char>>, i: int) -> Seq<char> {
    p[i + 1]
}

/// A graph that is refused has a way round, and it is told: each service on it
/// starts after the next, and the last after the first.
pub proof fn refused_graph_has_a_way_round(
    g: DependencyGraph,
    e: CycleError,
    k: int,
    i: int,
)
    requires
        cycles_looked_for(g, Err(e)),
        0 <= k < e.cycles@.len(),
    ensures
        e.cycles@.len() > 0,
        ({
            let c = texts(e.cycles@[k]@);
            &&& c.len() > 0
            &&& g.deps(c.last()).contains(c[0])
            &&& 0 <= i < c.len() - 1 ==> g.deps(c[i]).contains(c[i + 1])
        }),
{
    let c = texts(e.cycles@[k]@);
    assert(is_cycle(g, c));
    let j = i + 1;
    if 0 <= i < c.len() - 1 {
        assert(g.dep(c[i], c[j]));
    }
}

} // verus!
