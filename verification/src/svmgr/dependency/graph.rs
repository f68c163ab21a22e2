//! The dependency graph.
//!
//! Each service declares:
//! - `requires`: services that must be ready before it starts; it is blocked
//!   where one of them fails
//! - `wants`: services that it starts after, where they exist
//! - `after`: services that it starts after
//! - `before`: services that start after it

use crate::names::{NameMap, NameSet};
use crate::svmgr::config::service::ServiceDef;
use crate::text::{owned, texts};
use vstd::prelude::*;

verus! {

/// The names of the services in a list of definitions.
pub open spec fn is_service(defs: Seq<ServiceDef>, name: Seq<char>) -> bool {
    exists|i: int| 0 <= i < defs.len() && #[trigger] defs[i].service.name@ == name
}

/// Whether one definition makes `a` depend on `b`.
pub open spec fn def_links(def: ServiceDef, a: Seq<char>, b: Seq<char>) -> bool {
    ||| def.service.name@ == a && (texts(def.dependencies.required@).contains(b) || texts(
        def.dependencies.wants@,
    ).contains(b) || texts(def.dependencies.after@).contains(b))
    ||| def.service.name@ == b && texts(def.dependencies.before@).contains(a)
}

/// Whether `a` starts after `b`: both are services, and a definition says so.
pub open spec fn depends(defs: Seq<ServiceDef>, a: Seq<char>, b: Seq<char>) -> bool {
    &&& is_service(defs, a)
    &&& is_service(defs, b)
    &&& exists|i: int| 0 <= i < defs.len() && #[trigger] def_links(defs[i], a, b)
}

/// Whether one definition makes `a` require `b`.
pub open spec fn def_requires(def: ServiceDef, a: Seq<char>, b: Seq<char>) -> bool {
    def.service.name@ == a && texts(def.dependencies.required@).contains(b)
}

/// Whether `a` requires `b`: both are services, and a definition says so.
pub open spec fn hard_depends(defs: Seq<ServiceDef>, a: Seq<char>, b: Seq<char>) -> bool {
    &&& is_service(defs, b)
    &&& exists|i: int| 0 <= i < defs.len() && #[trigger] def_requires(defs[i], a, b)
}

/// Whether a graph holds the services of the definitions, and what they depend
/// on and require.
pub open spec fn built_from(defs: Seq<ServiceDef>, g: DependencyGraph) -> bool {
    &&& forall|n: Seq<char>| #[trigger] g.names().contains(n) <==> is_service(defs, n)
    &&& forall|a: Seq<char>, b: Seq<char>| #[trigger] g.dep(a, b) <==> depends(defs, a, b)
    &&& forall|a: Seq<char>, b: Seq<char>| #[trigger] g.req(a, b) <==> hard_depends(defs, a, b)
}

/// Whether `b` is in the set that `m` holds for `a`.
pub open spec fn edge(m: NameMap<NameSet>, a: Seq<char>, b: Seq<char>) -> bool {
    m@.contains_key(a) && m@[a]@.contains(b)
}

/// The map and each set in it are well-formed, and the map has a set for
/// each of `names`.
pub open spec fn edges_wf(m: NameMap<NameSet>, names: Set<Seq<char>>) -> bool {
    &&& m.wf()
    &&& m@.dom() == names
    &&& forall|k: Seq<char>| names.contains(k) ==> (#[trigger] m@[k]).wf()
}

/// Which services start after which.
#[derive(Debug, Clone)]
pub struct DependencyGraph {
    hard_deps: NameMap<NameSet>,
    required: NameMap<NameSet>,
    reverse_deps: NameMap<NameSet>,
    services: NameSet,
    empty: NameSet,
}

/// Adds `to` to the set of `from`.
fn link(m: &mut NameMap<NameSet>, from: &str, to: &str)
    requires
        old(m)@.contains_key(from@),
        edges_wf(*old(m), old(m)@.dom()),
    ensures
        edges_wf(*final(m), old(m)@.dom()),
        forall|a: Seq<char>, b: Seq<char>|
            #![trigger edge(*final(m), a, b)]
            edge(*final(m), a, b) <==> (edge(*old(m), a, b) || (a == from@ && b == to@)),
{
    if let Some(set) = m.get_mut(from) {
        set.insert(owned(to));
    }
    assert(m@.dom() =~= old(m)@.dom());
}

/// Makes `name` start after those of `list` that are services.
fn link_after(
    deps: &mut NameMap<NameSet>,
    rev: &mut NameMap<NameSet>,
    services: &NameSet,
    name: &str,
    list: &Vec<String>,
)
    requires
        services@.contains(name@),
        edges_wf(*old(deps), services@),
        edges_wf(*old(rev), services@),
    ensures
        edges_wf(*final(deps), services@),
        edges_wf(*final(rev), services@),
        forall|a: Seq<char>, b: Seq<char>|
            #![trigger edge(*final(deps), a, b)]
            edge(*final(deps), a, b) <==> (edge(*old(deps), a, b) || (a == name@ && texts(
                list@,
            ).contains(b) && services@.contains(b))),
        forall|a: Seq<char>, b: Seq<char>|
            #![trigger edge(*final(rev), b, a)]
            edge(*final(rev), b, a) <==> (edge(*old(rev), b, a) || (a == name@ && texts(
                list@,
            ).contains(b) && services@.contains(b))),
{
    let mut i: usize = 0;
    while i < list.len()
        invariant
            i <= list.len(),
            services@.contains(name@),
            edges_wf(*deps, services@),
            edges_wf(*rev, services@),
            forall|a: Seq<char>, b: Seq<char>|
                #![trigger edge(*deps, a, b)]
                edge(*deps, a, b) <==> (edge(*old(deps), a, b) || (a == name@ && texts(
                    list@.take(i as int),
                ).contains(b) && services@.contains(b))),
            forall|a: Seq<char>, b: Seq<char>|
                #![trigger edge(*rev, b, a)]
                edge(*rev, b, a) <==> (edge(*old(rev), b, a) || (a == name@ && texts(
                    list@.take(i as int),
                ).contains(b) && services@.contains(b))),
        decreases list.len() - i,
    {
        let dep = list[i].as_str();
        if services.contains(dep) {
            link(deps, name, dep);
            link(rev, dep, name);
        }
        proof {
            lemma_take_contains(list@, i as int);
        }
        i += 1;
    }
    assert(list@.take(list@.len() as int) == list@);
}

/// Makes those of `list` that are services start after `name`.
fn link_before(
    deps: &mut NameMap<NameSet>,
    rev: &mut NameMap<NameSet>,
    services: &NameSet,
    name: &str,
    list: &Vec<String>,
)
    requires
        services@.contains(name@),
        edges_wf(*old(deps), services@),
        edges_wf(*old(rev), services@),
    ensures
        edges_wf(*final(deps), services@),
        edges_wf(*final(rev), services@),
        forall|a: Seq<char>, b: Seq<char>|
            #![trigger edge(*final(deps), a, b)]
            edge(*final(deps), a, b) <==> (edge(*old(deps), a, b) || (b == name@ && texts(
                list@,
            ).contains(a) && services@.contains(a))),
        forall|a: Seq<char>, b: Seq<char>|
            #![trigger edge(*final(rev), b, a)]
            edge(*final(rev), b, a) <==> (edge(*old(rev), b, a) || (b == name@ && texts(
                list@,
            ).contains(a) && services@.contains(a))),
{
    let mut i: usize = 0;
    while i < list.len()
        invariant
            i <= list.len(),
            services@.contains(name@),
            edges_wf(*deps, services@),
            edges_wf(*rev, services@),
            forall|a: Seq<char>, b: Seq<char>|
                #![trigger edge(*deps, a, b)]
                edge(*deps, a, b) <==> (edge(*old(deps), a, b) || (b == name@ && texts(
                    list@.take(i as int),
                ).contains(a) && services@.contains(a))),
            forall|a: Seq<char>, b: Seq<char>|
                #![trigger edge(*rev, b, a)]
                edge(*rev, b, a) <==> (edge(*old(rev), b, a) || (b == name@ && texts(
                    list@.take(i as int),
                ).contains(a) && services@.contains(a))),
        decreases list.len() - i,
    {
        let dep = list[i].as_str();
        if services.contains(dep) {
            link(deps, dep, name);
            link(rev, name, dep);
        }
        proof {
            lemma_take_contains(list@, i as int);
        }
        i += 1;
    }
    assert(list@.take(list@.len() as int) == list@);
}

/// Makes `name` require those of `list` that are services.
fn link_required(
    required: &mut NameMap<NameSet>,
    services: &NameSet,
    name: &str,
    list: &Vec<String>,
)
    requires
        services@.contains(name@),
        edges_wf(*old(required), services@),
    ensures
        edges_wf(*final(required), services@),
        forall|a: Seq<char>, b: Seq<char>|
            #![trigger edge(*final(required), a, b)]
            edge(*final(required), a, b) <==> (edge(*old(required), a, b) || (a == name@ && texts(
                list@,
            ).contains(b) && services@.contains(b))),
{
    let mut i: usize = 0;
    while i < list.len()
        invariant
            i <= list.len(),
            services@.contains(name@),
            edges_wf(*required, services@),
            forall|a: Seq<char>, b: Seq<char>|
                #![trigger edge(*required, a, b)]
                edge(*required, a, b) <==> (edge(*old(required), a, b) || (a == name@ && texts(
                    list@.take(i as int),
                ).contains(b) && services@.contains(b))),
        decreases list.len() - i,
    {
        let dep = list[i].as_str();
        if services.contains(dep) {
            link(required, name, dep);
        }
        proof {
            lemma_take_contains(list@, i as int);
        }
        i += 1;
    }
    assert(list@.take(list@.len() as int) == list@);
}

/// The set of the names of all definitions.
fn service_names(defs: &[ServiceDef]) -> (r: NameSet)
    ensures
        r.wf(),
        forall|n: Seq<char>| #[trigger] r@.contains(n) <==> is_service(defs@, n),
{
    let mut r = NameSet::new();
    let mut i: usize = 0;
    while i < defs.len()
        invariant
            i <= defs.len(),
            r.wf(),
            forall|n: Seq<char>| #[trigger] r@.contains(n) <==> is_service(defs@.take(i as int), n),
        decreases defs.len() - i,
    {
        r.insert(defs[i].service.name.clone());
        proof {
            let p = defs@.take(i as int);
            let q = defs@.take(i + 1);
            assert forall|n: Seq<char>| #[trigger] r@.contains(n) <==> is_service(q, n) by {
                if is_service(p, n) {
                    let k = choose|k: int| 0 <= k < p.len() && #[trigger] p[k].service.name@ == n;
                    assert(q[k].service.name@ == n);
                }
                if n == defs@[i as int].service.name@ {
                    assert(q[i as int].service.name@ == n);
                }
                if is_service(q, n) {
                    let k = choose|k: int| 0 <= k < q.len() && #[trigger] q[k].service.name@ == n;
                    if k < i {
                        assert(p[k].service.name@ == n);
                    }
                }
            }
        }
        i += 1;
    }
    assert(defs@.take(defs@.len() as int) == defs@);
    r
}

/// A map that gives each of `names` the empty set.
fn no_edges(names: &NameSet) -> (r: NameMap<NameSet>)
    requires
        names.wf(),
    ensures
        edges_wf(r, names@),
        forall|a: Seq<char>, b: Seq<char>| !#[trigger] edge(r, a, b),
{
    let mut r: NameMap<NameSet> = NameMap::new();
    let mut i: usize = 0;
    let n = names.len();
    while i < n
        invariant
            i <= n,
            n == names.order().len(),
            names.wf(),
            r.wf(),
            forall|k: Seq<char>|
                #[trigger] r@.contains_key(k) <==> names.order().take(i as int).contains(k),
            forall|k: Seq<char>|
                r@.contains_key(k) ==> (#[trigger] r@[k]).wf() && r@[k]@ == Set::<Seq<char>>::empty(),
        decreases n - i,
    {
        r.insert(names.at(i).clone(), NameSet::new());
        proof {
            let p = names.order().take(i as int);
            let q = names.order().take(i + 1);
            assert(q == p.push(names.order()[i as int]));
            assert forall|k: Seq<char>| #[trigger] r@.contains_key(k) <==> q.contains(k) by {
                if p.contains(k) {
                    let j = choose|j: int| 0 <= j < p.len() && p[j] == k;
                    assert(q[j] == k);
                }
                assert(q[i as int] == names.order()[i as int]);
                if q.contains(k) {
                    let j = choose|j: int| 0 <= j < q.len() && q[j] == k;
                    if j < i {
                        assert(p[j] == k);
                    }
                }
            }
        }
        i += 1;
    }
    proof {
        names.lemma_order();
        assert(names.order().take(n as int) == names.order());
        assert(r@.dom() =~= names@);
    }
    r
}

impl DependencyGraph {
    /// The services of the graph.
    pub closed spec fn names(self) -> Set<Seq<char>> {
        self.services@
    }

    /// The services in the order in which they are listed.
    pub closed spec fn listed(self) -> Seq<Seq<char>> {
        self.services.order()
    }

    /// Whether `a` starts after `b`.
    pub closed spec fn dep(self, a: Seq<char>, b: Seq<char>) -> bool {
        edge(self.hard_deps, a, b)
    }

    /// Whether `a` requires `b`.
    pub closed spec fn req(self, a: Seq<char>, b: Seq<char>) -> bool {
        edge(self.required, a, b)
    }

    /// What `s` starts after.
    pub open spec fn deps(self, s: Seq<char>) -> Set<Seq<char>> {
        Set::new(|b: Seq<char>| self.dep(s, b))
    }

    /// What `s` requires.
    pub open spec fn reqs(self, s: Seq<char>) -> Set<Seq<char>> {
        Set::new(|b: Seq<char>| self.req(s, b))
    }

    /// What starts after `s`.
    pub open spec fn dependents(self, s: Seq<char>) -> Set<Seq<char>> {
        Set::new(|a: Seq<char>| self.dep(a, s))
    }

    /// Only services stand in relation to each other, what is required is
    /// also started after, and the reverse edges are those of `dep`.
    pub closed spec fn wf(self) -> bool {
        &&& self.services.wf()
        &&& self.empty.wf()
        &&& self.empty@ == Set::<Seq<char>>::empty()
        &&& edges_wf(self.hard_deps, self.services@)
        &&& edges_wf(self.required, self.services@)
        &&& edges_wf(self.reverse_deps, self.services@)
        &&& forall|a: Seq<char>, b: Seq<char>| #[trigger]
            edge(self.hard_deps, a, b) ==> self.services@.contains(a) && self.services@.contains(b)
        &&& forall|a: Seq<char>, b: Seq<char>| #[trigger]
            edge(self.required, a, b) ==> edge(self.hard_deps, a, b)
        &&& forall|a: Seq<char>, b: Seq<char>|
            edge(self.hard_deps, a, b) <==> #[trigger] edge(self.reverse_deps, b, a)
    }

    /// What well-formedness says of the services and their relations.
    pub proof fn lemma_wf(self)
        requires
            self.wf(),
        ensures
            self.names().finite(),
            self.listed().no_duplicates(),
            self.names() == self.listed().to_set(),
            self.names().len() == self.listed().len(),
            forall|a: Seq<char>, b: Seq<char>| #[trigger]
                self.dep(a, b) ==> self.names().contains(a) && self.names().contains(b),
            forall|a: Seq<char>, b: Seq<char>| #[trigger] self.req(a, b) ==> self.dep(a, b),
    {
        self.services.lemma_order();
    }

    /// The dependencies and the dependents of a service are finitely many.
    pub proof fn lemma_finite(self, s: Seq<char>)
        requires
            self.wf(),
        ensures
            self.deps(s).finite(),
            self.dependents(s).finite(),
            self.deps(s).subset_of(self.names()),
            self.dependents(s).subset_of(self.names()),
            self.deps(s).len() <= self.names().len(),
    {
        self.lemma_wf();
        vstd::set_lib::lemma_set_subset_finite(self.names(), self.deps(s));
        vstd::set_lib::lemma_set_subset_finite(self.names(), self.dependents(s));
        vstd::set_lib::lemma_len_subset(self.deps(s), self.names());
    }

    /// Builds the graph of a list of definitions. Names that no definition
    /// has are passed over.
    pub fn build(defs: &[ServiceDef]) -> (r: Self)
        ensures
            r.wf(),
            built_from(defs@, r),
    {
        let services = service_names(defs);
        let mut hard_deps = no_edges(&services);
        let mut required = no_edges(&services);
        let mut reverse_deps = no_edges(&services);
        let mut i: usize = 0;
        while i < defs.len()
            invariant
                i <= defs.len(),
                services.wf(),
                forall|n: Seq<char>| #[trigger] services@.contains(n) <==> is_service(defs@, n),
                edges_wf(hard_deps, services@),
                edges_wf(required, services@),
                edges_wf(reverse_deps, services@),
                forall|a: Seq<char>, b: Seq<char>| #[trigger]
                    edge(hard_deps, a, b) <==> (services@.contains(a) && services@.contains(b)
                        && exists|k: int| 0 <= k < i && #[trigger] def_links(defs@[k], a, b)),
                forall|a: Seq<char>, b: Seq<char>|
                    edge(hard_deps, a, b) <==> #[trigger] edge(reverse_deps, b, a),
                forall|a: Seq<char>, b: Seq<char>| #[trigger]
                    edge(required, a, b) <==> (services@.contains(b) && exists|k: int|
                        0 <= k < i && #[trigger] def_requires(defs@[k], a, b)),
            decreases defs.len() - i,
        {
            let def = &defs[i];
            let name = def.service.name.as_str();
            assert(defs@[i as int].service.name@ == name@);
            let d = &def.dependencies;
            let ghost h0 = hard_deps;
            let ghost q0 = required;
            link_after(&mut hard_deps, &mut reverse_deps, &services, name, &d.required);
            link_required(&mut required, &services, name, &d.required);
            link_after(&mut hard_deps, &mut reverse_deps, &services, name, &d.wants);
            link_after(&mut hard_deps, &mut reverse_deps, &services, name, &d.after);
            link_before(&mut hard_deps, &mut reverse_deps, &services, name, &d.before);
            proof {
                assert forall|a: Seq<char>, b: Seq<char>| #[trigger]
                    edge(hard_deps, a, b) <==> (services@.contains(a) && services@.contains(b)
                        && exists|k: int| 0 <= k < i + 1 && #[trigger] def_links(defs@[k], a, b)) by {
                    assert(edge(hard_deps, a, b) <==> (edge(h0, a, b) || (services@.contains(a)
                        && services@.contains(b) && def_links(defs@[i as int], a, b))));
                }
                assert forall|a: Seq<char>, b: Seq<char>| #[trigger]
                    edge(required, a, b) <==> (services@.contains(b) && exists|k: int|
                        0 <= k < i + 1 && #[trigger] def_requires(defs@[k], a, b)) by {
                    assert(edge(required, a, b) <==> (edge(q0, a, b) || (services@.contains(b)
                        && def_requires(defs@[i as int], a, b))));
                }
            }
            i += 1;
        }
        let r = DependencyGraph {
            hard_deps,
            required,
            reverse_deps,
            services,
            empty: NameSet::new(),
        };
        proof {
            assert forall|a: Seq<char>, b: Seq<char>| #[trigger] edge(r.required, a, b) implies edge(
                r.hard_deps,
                a,
                b,
            ) by {
                let k = choose|k: int| 0 <= k < defs@.len() && #[trigger] def_requires(defs@[k], a, b);
                assert(def_links(defs@[k], a, b));
                assert(defs@[k].service.name@ == a);
            }
        }
        r
    }

    /// What `service` starts after: required, wanted and merely ordered.
    pub fn dependencies_of(&self, service: &str) -> (r: &NameSet)
        requires
            self.wf(),
        ensures
            r.wf(),
            r@ == self.deps(service@),
    {
        match self.hard_deps.get(service) {
            Some(s) => {
                assert(s@ =~= self.deps(service@));
                s
            },
            None => {
                assert(self.empty@ =~= self.deps(service@));
                &self.empty
            },
        }
    }

    /// What `service` requires.
    pub fn requires_of(&self, service: &str) -> (r: &NameSet)
        requires
            self.wf(),
        ensures
            r.wf(),
            r@ == self.reqs(service@),
    {
        match self.required.get(service) {
            Some(s) => {
                assert(s@ =~= self.reqs(service@));
                s
            },
            None => {
                assert(self.empty@ =~= self.reqs(service@));
                &self.empty
            },
        }
    }

    /// What starts after `service`.
    pub fn dependents_of(&self, service: &str) -> (r: &NameSet)
        requires
            self.wf(),
        ensures
            r.wf(),
            r@ == self.dependents(service@),
    {
        match self.reverse_deps.get(service) {
            Some(s) => {
                assert forall|a: Seq<char>| s@.contains(a) == self.dependents(service@).contains(a) by {
                    assert(edge(self.reverse_deps, service@, a) == s@.contains(a));
                }
                assert(s@ =~= self.dependents(service@));
                s
            },
            None => {
                assert forall|a: Seq<char>| !self.dependents(service@).contains(a) by {
                    assert(!edge(self.reverse_deps, service@, a));
                }
                assert(self.empty@ =~= self.dependents(service@));
                &self.empty
            },
        }
    }

    /// All services.
    pub fn all_services(&self) -> (r: &NameSet)
        requires
            self.wf(),
        ensures
            r.wf(),
            r@ == self.names(),
            r.order() == self.listed(),
    {
        &self.services
    }

    /// How many of the dependencies of `service` are not in `ready`.
    pub fn unmet_count(&self, service: &str, ready: &NameSet) -> (r: usize)
        requires
            self.wf(),
        ensures
            r == self.deps(service@).difference(ready@).len(),
    {
        let deps = self.dependencies_of(service);
        let n = deps.len();
        let mut count: usize = 0;
        let mut i: usize = 0;
        let ghost mut seen: Set<Seq<char>> = Set::empty();
        proof {
            deps.lemma_order();
        }
        while i < n
            invariant
                i <= n,
                n == deps.order().len(),
                deps.wf(),
                deps.order().no_duplicates(),
                count <= i,
                seen.finite(),
                count == seen.len(),
                forall|b: Seq<char>| #[trigger]
                    seen.contains(b) <==> deps.order().take(i as int).contains(b)
                        && !ready@.contains(b),
            decreases n - i,
        {
            let b = deps.at(i);
            proof {
                let p = deps.order().take(i as int);
                let q = deps.order().take(i + 1);
                assert(q == p.push(b@));
                assert(!p.contains(b@)) by {
                    if p.contains(b@) {
                        let j = choose|j: int| 0 <= j < p.len() && p[j] == b@;
                        assert(deps.order()[j] == deps.order()[i as int]);
                    }
                }
                vstd::seq_lib::lemma_seq_contains_after_push(p, b@, b@);
                assert forall|x: Seq<char>| q.contains(x) <==> p.contains(x) || x == b@ by {
                    vstd::seq_lib::lemma_seq_contains_after_push(p, b@, x);
                }
            }
            if !ready.contains(b.as_str()) {
                count += 1;
                proof {
                    seen = seen.insert(b@);
                }
            }
            i += 1;
        }
        proof {
            assert(deps.order().take(n as int) == deps.order());
            assert(seen =~= self.deps(service@).difference(ready@));
        }
        count
    }
}

/// The dependents of a service are exactly those that depend on it.
pub proof fn dependents_mirror_dependencies(g: DependencyGraph, a: Seq<char>, b: Seq<char>)
    ensures
        g.dependents(b).contains(a) <==> g.deps(a).contains(b),
{
}

/// What a service requires, it also starts after.
pub proof fn required_implies_ordered(g: DependencyGraph, s: Seq<char>)
    requires
        g.wf(),
    ensures
        g.reqs(s).subset_of(g.deps(s)),
        g.deps(s).subset_of(g.names()),
{
    g.lemma_wf();
}

/// What one more string adds to the texts of a list.
proof fn lemma_take_contains(list: Seq<String>, i: int)
    requires
        0 <= i < list.len(),
    ensures
        forall|b: Seq<char>|
            #![trigger texts(list.take(i + 1)).contains(b)]
            texts(list.take(i + 1)).contains(b) <==> (texts(list.take(i)).contains(b) || b
                == list[i]@),
{
    let x = texts(list.take(i));
    let y = texts(list.take(i + 1));
    assert forall|b: Seq<char>| #![trigger y.contains(b)] y.contains(b) <==> (x.contains(b) || b == list[i]@) by {
        if x.contains(b) {
            let k = choose|k: int| 0 <= k < x.len() && x[k] == b;
            assert(y[k] == b);
        }
        if b == list[i]@ {
            assert(y[i] == b);
        }
        if y.contains(b) {
            let k = choose|k: int| 0 <= k < y.len() && y[k] == b;
            if k < i {
                assert(x[k] == b);
            }
        }
    }
}

/// What is waited for becomes less by one where a dependency is met.
pub proof fn lemma_one_less(g: DependencyGraph, x: Seq<char>, m: Set<Seq<char>>, s: Seq<char>)
    requires
        g.wf(),
    ensures
        g.deps(x).difference(m).finite(),
        !g.dep(x, s) || m.contains(s) ==> g.deps(x).difference(m.insert(s)) == g.deps(x).difference(m),
        g.dep(x, s) && !m.contains(s) ==> g.deps(x).difference(m).len() == g.deps(x).difference(
            m.insert(s),
        ).len() + 1,
{
    g.lemma_finite(x);
    let a = g.deps(x).difference(m);
    let b = g.deps(x).difference(m.insert(s));
    assert(a.finite());
    if g.dep(x, s) && !m.contains(s) {
        assert(b =~= a.remove(s));
        assert(a.contains(s));
    } else {
        assert(b =~= a);
    }
}

/// One more name in the prefix of an order.
pub proof fn lemma_prefix(o: Seq<Seq<char>>, i: int)
    requires
        o.no_duplicates(),
        0 <= i < o.len(),
    ensures
        !o.take(i).to_set().contains(o[i]),
        o.take(i + 1).to_set() == o.take(i).to_set().insert(o[i]),
        o.take(o.len() as int) == o,
{
    let p = o.take(i);
    assert(o.take(i + 1) == p.push(o[i]));
    p.lemma_push_to_set_commute(o[i]);
    if p.contains(o[i]) {
        let k = choose|k: int| 0 <= k < p.len() && p[k] == o[i];
        assert(o[k] == o[i]);
    }
}

/// Each definition names a service. What it lists as required, as wanted or to
/// start after, where it is a service, is something that it depends on; what it
/// lists to start before depends on it; and it requires what it lists as
/// required. Each list counts by itself, whatever the others hold.
pub proof fn lists_make_dependencies(defs: Seq<ServiceDef>, g: DependencyGraph, a: int, b: int)
    requires
        built_from(defs, g),
        0 <= a < defs.len(),
        0 <= b < defs.len(),
    ensures
        ({
            let d = defs[a].dependencies;
            let name = defs[a].service.name@;
            let other = defs[b].service.name@;
            &&& g.names().contains(name)
            &&& texts(d.required@).contains(other) ==> g.deps(name).contains(other) && g.reqs(
                name,
            ).contains(other)
            &&& texts(d.wants@).contains(other) ==> g.deps(name).contains(other)
            &&& texts(d.after@).contains(other) ==> g.deps(name).contains(other)
            &&& texts(d.before@).contains(other) ==> g.deps(other).contains(name)
            &&& g.deps(name).contains(other) <==> g.dependents(other).contains(name)
        }),
{
    let name = defs[a].service.name@;
    let other = defs[b].service.name@;
    assert(is_service(defs, name));
    assert(is_service(defs, other));
    let d = defs[a].dependencies;
    if texts(d.required@).contains(other) || texts(d.wants@).contains(other) || texts(
        d.after@,
    ).contains(other) {
        assert(def_links(defs[a], name, other));
        assert(depends(defs, name, other));
        assert(g.dep(name, other));
    }
    if texts(d.required@).contains(other) {
        assert(def_requires(defs[a], name, other));
        assert(hard_depends(defs, name, other));
        assert(g.req(name, other));
    }
    if texts(d.before@).contains(other) {
        assert(def_links(defs[a], other, name));
        assert(depends(defs, other, name));
        assert(g.dep(other, name));
    }
}

/// Whether a definition of `x` lists `y` in a way that makes it depend on it,
/// or one of `y` lists `x` to start after it.
pub open spec fn listed_by(def: ServiceDef, x: Seq<char>, y: Seq<char>) -> bool {
    let d = def.dependencies;
    ||| def.service.name@ == x && texts(d.required@).contains(y)
    ||| def.service.name@ == x && texts(d.wants@).contains(y)
    ||| def.service.name@ == x && texts(d.after@).contains(y)
    ||| def.service.name@ == y && texts(d.before@).contains(x)
}

/// There is no dependency but between services that are defined, and where a
/// definition lists it; and nothing is required that no list of what is
/// required holds.
pub proof fn dependencies_are_listed(
    defs: Seq<ServiceDef>,
    g: DependencyGraph,
    x: Seq<char>,
    y: Seq<char>,
)
    requires
        built_from(defs, g),
    ensures
        g.names().contains(x) ==> exists|i: int|
            0 <= i < defs.len() && #[trigger] defs[i].service.name@ == x,
        g.deps(x).contains(y) ==> {
            &&& g.names().contains(x)
            &&& g.names().contains(y)
            &&& exists|i: int| 0 <= i < defs.len() && #[trigger] listed_by(defs[i], x, y)
        },
        g.reqs(x).contains(y) ==> {
            &&& g.names().contains(y)
            &&& exists|i: int|
                0 <= i < defs.len() && #[trigger] defs[i].service.name@ == x && texts(
                    defs[i].dependencies.required@,
                ).contains(y)
        },
{
    if g.dep(x, y) {
        assert(depends(defs, x, y));
        let i = choose|i: int| 0 <= i < defs.len() && #[trigger] def_links(defs[i], x, y);
        assert(listed_by(defs[i], x, y));
    }
    if g.req(x, y) {
        assert(hard_depends(defs, x, y));
        let i = choose|i: int| 0 <= i < defs.len() && #[trigger] def_requires(defs[i], x, y);
        assert(defs[i].service.name@ == x);
    }
}

} // verus!
