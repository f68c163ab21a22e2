//! Checks on definitions.

use crate::names::NameSet;
use crate::svmgr::config::service::{ReadinessType, ServiceDef};
use crate::svmgr::config::supervisor::SupervisorDef;
use crate::text::{cat3, cat4, owned, texts};
use vstd::prelude::*;

verus! {

/// What is wrong with a set of definitions.
#[derive(Debug)]
pub enum ValidationError {
    /// A service has no command.
    EmptyExec(String),
    /// A readiness check on a port names no port.
    MissingPort(String),
    /// A readiness check by command names no command.
    MissingCheckExec(String),
    /// A service names a supervisor that is not there.
    UnknownSupervisor(String, String),
    /// A service requires a service that is not there.
    UnknownDependency(String, String),
    /// Two services have one name.
    DuplicateService(String),
    /// Two supervisors have one name.
    DuplicateSupervisor(String),
}

/// A `ValidationError` over texts.
pub enum Problem {
    EmptyExec(Seq<char>),
    MissingPort(Seq<char>),
    MissingCheckExec(Seq<char>),
    UnknownSupervisor(Seq<char>, Seq<char>),
    UnknownDependency(Seq<char>, Seq<char>),
    DuplicateService(Seq<char>),
    DuplicateSupervisor(Seq<char>),
}

impl ValidationError {
    /// The error over texts.
    pub open spec fn problem(self) -> Problem {
        match self {
            ValidationError::EmptyExec(s) => Problem::EmptyExec(s@),
            ValidationError::MissingPort(s) => Problem::MissingPort(s@),
            ValidationError::MissingCheckExec(s) => Problem::MissingCheckExec(s@),
            ValidationError::UnknownSupervisor(s, t) => Problem::UnknownSupervisor(s@, t@),
            ValidationError::UnknownDependency(s, t) => Problem::UnknownDependency(s@, t@),
            ValidationError::DuplicateService(s) => Problem::DuplicateService(s@),
            ValidationError::DuplicateSupervisor(s) => Problem::DuplicateSupervisor(s@),
        }
    }

    /// The error in words.
    pub open spec fn text(self) -> Seq<char> {
        match self {
            ValidationError::EmptyExec(s) => "service '"@ + s@ + "': exec command is empty"@,
            ValidationError::MissingPort(s) => "service '"@ + s@
                + "': readiness type 'tcp-port' requires a port number"@,
            ValidationError::MissingCheckExec(s) => "service '"@ + s@
                + "': readiness type 'exec' requires a check-exec command"@,
            ValidationError::UnknownSupervisor(s, t) => "service '"@ + s@
                + "': references unknown supervisor '"@ + t@ + "'"@,
            ValidationError::UnknownDependency(s, t) => "service '"@ + s@ + "': dependency '"@ + t@
                + "' references unknown service"@,
            ValidationError::DuplicateService(s) => "duplicate service name: '"@ + s@ + "'"@,
            ValidationError::DuplicateSupervisor(s) => "duplicate supervisor name: '"@ + s@ + "'"@,
        }
    }

    /// The error in words.
    pub fn message(&self) -> (r: String)
        ensures
            r@ == self.text(),
    {
        match self {
            ValidationError::EmptyExec(s) => {
                cat3("service '", s.as_str(), "': exec command is empty")
            },
            ValidationError::MissingPort(s) => cat3(
                "service '",
                s.as_str(),
                "': readiness type 'tcp-port' requires a port number",
            ),
            ValidationError::MissingCheckExec(s) => cat3(
                "service '",
                s.as_str(),
                "': readiness type 'exec' requires a check-exec command",
            ),
            ValidationError::UnknownSupervisor(s, t) => {
                let mut r = cat4(
                    "service '",
                    s.as_str(),
                    "': references unknown supervisor '",
                    t.as_str(),
                );
                r.append("'");
                r
            },
            ValidationError::UnknownDependency(s, t) => {
                let mut r = cat4("service '", s.as_str(), "': dependency '", t.as_str());
                r.append("' references unknown service");
                r
            },
            ValidationError::DuplicateService(s) => {
                cat3("duplicate service name: '", s.as_str(), "'")
            },
            ValidationError::DuplicateSupervisor(s) => {
                cat3("duplicate supervisor name: '", s.as_str(), "'")
            },
        }
    }
}

/// The errors over texts.
pub open spec fn problems(v: Seq<ValidationError>) -> Seq<Problem> {
    v.map_values(|e: ValidationError| e.problem())
}

/// Nothing, or one problem.
pub open spec fn when(b: bool, p: Problem) -> Seq<Problem> {
    if b {
        seq![p]
    } else {
        Seq::empty()
    }
}

/// What is wrong with one definition by itself.
pub open spec fn service_problems(def: ServiceDef) -> Seq<Problem> {
    let name = def.service.name@;
    let kind = def.readiness.readiness_type;
    when(def.service.command@.len() == 0, Problem::EmptyExec(name)) + when(
        kind == ReadinessType::TcpPort && def.readiness.port is None,
        Problem::MissingPort(name),
    ) + when(
        kind == ReadinessType::Exec && def.readiness.check_exec is None,
        Problem::MissingCheckExec(name),
    )
}

/// The names in `names` that come again, once for each time.
pub open spec fn repeats(names: Seq<Seq<char>>) -> Seq<Seq<char>>
    decreases names.len(),
{
    if names.len() == 0 {
        Seq::empty()
    } else if names.drop_last().contains(names.last()) {
        repeats(names.drop_last()).push(names.last())
    } else {
        repeats(names.drop_last())
    }
}

/// The names of services.
pub open spec fn service_names(defs: Seq<ServiceDef>) -> Seq<Seq<char>> {
    defs.map_values(|d: ServiceDef| d.service.name@)
}

/// The names of supervisors, with the root, which is always there.
pub open spec fn supervisor_names(defs: Seq<SupervisorDef>) -> Seq<Seq<char>> {
    seq!["root"@] + defs.map_values(|d: SupervisorDef| d.supervisor.name@)
}

/// The problems with those of `required` that are not among `known`.
pub open spec fn unknown_dependencies(
    name: Seq<char>,
    required: Seq<Seq<char>>,
    known: Seq<Seq<char>>,
) -> Seq<Problem>
    decreases required.len(),
{
    if required.len() == 0 {
        Seq::empty()
    } else {
        unknown_dependencies(name, required.drop_last(), known) + when(
            !known.contains(required.last()),
            Problem::UnknownDependency(name, required.last()),
        )
    }
}

/// What is wrong with one definition among the others.
pub open spec fn placed_problems(
    def: ServiceDef,
    services: Seq<Seq<char>>,
    supervisors: Seq<Seq<char>>,
) -> Seq<Problem> {
    service_problems(def) + when(
        !supervisors.contains(def.service.supervisor@),
        Problem::UnknownSupervisor(def.service.name@, def.service.supervisor@),
    ) + unknown_dependencies(def.service.name@, texts(def.dependencies.required@), services)
}

/// What is wrong with each definition among the others, in order.
pub open spec fn each_problems(
    defs: Seq<ServiceDef>,
    services: Seq<Seq<char>>,
    supervisors: Seq<Seq<char>>,
) -> Seq<Problem>
    decreases defs.len(),
{
    if defs.len() == 0 {
        Seq::empty()
    } else {
        each_problems(defs.drop_last(), services, supervisors) + placed_problems(
            defs.last(),
            services,
            supervisors,
        )
    }
}

/// What is wrong with a set of definitions.
pub open spec fn all_problems(services: Seq<ServiceDef>, supervisors: Seq<SupervisorDef>) -> Seq<
    Problem,
> {
    repeats(service_names(services)).map_values(|n: Seq<char>| Problem::DuplicateService(n))
        + repeats(supervisor_names(supervisors)).map_values(
        |n: Seq<char>| Problem::DuplicateSupervisor(n),
    ) + each_problems(services, service_names(services), supervisor_names(supervisors))
}

fn add_error(errors: &mut Vec<ValidationError>, e: ValidationError)
    ensures
        problems(final(errors)@) == problems(old(errors)@).push(e.problem()),
{
    errors.push(e);
    assert(problems(errors@) =~= problems(old(errors)@).push(e.problem()));
}

/// Adds what is wrong with one definition by itself.
fn check_service(def: &ServiceDef, errors: &mut Vec<ValidationError>)
    ensures
        problems(final(errors)@) == problems(old(errors)@) + service_problems(*def),
{
    let name = &def.service.name;
    let ghost start = problems(errors@);
    let kind = def.readiness.readiness_type;
    if def.service.command.is_empty() {
        add_error(errors, ValidationError::EmptyExec(name.clone()));
    }
    if kind == ReadinessType::TcpPort && def.readiness.port.is_none() {
        add_error(errors, ValidationError::MissingPort(name.clone()));
    }
    if kind == ReadinessType::Exec && def.readiness.check_exec.is_none() {
        add_error(errors, ValidationError::MissingCheckExec(name.clone()));
    }
    assert(problems(errors@) =~= start + service_problems(*def));
}

/// Checks one definition by itself.
pub fn validate_service(def: &ServiceDef) -> (r: Vec<ValidationError>)
    ensures
        problems(r@) == service_problems(*def),
{
    let mut errors: Vec<ValidationError> = Vec::new();
    assert(problems(errors@) =~= Seq::<Problem>::empty());
    check_service(def, &mut errors);
    assert(problems(errors@) =~= service_problems(*def));
    errors
}

proof fn lemma_known(o: Seq<Seq<char>>, i: int)
    requires
        0 <= i < o.len(),
    ensures
        o.take(i + 1).drop_last() == o.take(i),
        o.take(i + 1).last() == o[i],
        forall|x: Seq<char>| #[trigger]
            o.take(i + 1).contains(x) <==> o.take(i).contains(x) || x == o[i],
{
    assert(o.take(i + 1).drop_last() =~= o.take(i));
    assert(o.take(i + 1) =~= o.take(i).push(o[i]));
    assert forall|x: Seq<char>| #[trigger]
        o.take(i + 1).contains(x) <==> o.take(i).contains(x) || x == o[i] by {
        vstd::seq_lib::lemma_seq_contains_after_push(o.take(i), o[i], x);
    }
}

/// Collects the names of services, with an error for each that comes again.
fn collect_services(services: &[ServiceDef], errors: &mut Vec<ValidationError>) -> (r: NameSet)
    requires
        old(errors)@.len() == 0,
    ensures
        r.wf(),
        forall|x: Seq<char>| #[trigger] r@.contains(x) <==> service_names(services@).contains(x),
        problems(final(errors)@) == repeats(service_names(services@)).map_values(
            |n: Seq<char>| Problem::DuplicateService(n),
        ),
{
    let mut names = NameSet::new();
    let ghost o = service_names(services@);
    let ghost f = |n: Seq<char>| Problem::DuplicateService(n);
    let mut i: usize = 0;
    assert(problems(errors@) =~= repeats(o.take(0)).map_values(f));
    while i < services.len()
        invariant
            i <= services.len(),
            o == service_names(services@),
            names.wf(),
            f == (|n: Seq<char>| Problem::DuplicateService(n)),
            forall|x: Seq<char>| #[trigger] names@.contains(x) <==> o.take(i as int).contains(x),
            problems(errors@) == repeats(o.take(i as int)).map_values(f),
        decreases services.len() - i,
    {
        let name = &services[i].service.name;
        proof {
            lemma_known(o, i as int);
            assert(o[i as int] == name@);
        }
        let ghost before = problems(errors@);
        if names.contains(name.as_str()) {
            add_error(errors, ValidationError::DuplicateService(name.clone()));
            assert(problems(errors@) =~= repeats(o.take(i + 1)).map_values(f));
        }
        names.insert(name.clone());
        i += 1;
    }
    assert(o.take(o.len() as int) =~= o);
    names
}

/// Collects the names of supervisors, with an error for each that comes again.
fn collect_supervisors(supervisors: &[SupervisorDef], errors: &mut Vec<ValidationError>) -> (r:
    NameSet)
    ensures
        r.wf(),
        forall|x: Seq<char>| #[trigger]
            r@.contains(x) <==> supervisor_names(supervisors@).contains(x),
        problems(final(errors)@) == problems(old(errors)@) + repeats(
            supervisor_names(supervisors@),
        ).map_values(|n: Seq<char>| Problem::DuplicateSupervisor(n)),
{
    let mut names = NameSet::new();
    names.insert(owned("root"));
    let ghost o = supervisor_names(supervisors@);
    let ghost f = |n: Seq<char>| Problem::DuplicateSupervisor(n);
    let ghost start = problems(errors@);
    let mut i: usize = 0;
    proof {
        lemma_known(o, 0);
        assert(o[0] == "root"@);
        assert(repeats(o.take(0)) =~= Seq::<Seq<char>>::empty());
        assert(repeats(o.take(1)) =~= Seq::<Seq<char>>::empty());
        assert(problems(errors@) =~= start + repeats(o.take(1)).map_values(f));
    }
    while i < supervisors.len()
        invariant
            i <= supervisors.len(),
            o == supervisor_names(supervisors@),
            names.wf(),
            f == (|n: Seq<char>| Problem::DuplicateSupervisor(n)),
            forall|x: Seq<char>| #[trigger] names@.contains(x) <==> o.take(i + 1).contains(x),
            problems(errors@) == start + repeats(o.take(i + 1)).map_values(f),
        decreases supervisors.len() - i,
    {
        let name = &supervisors[i].supervisor.name;
        proof {
            lemma_known(o, i + 1);
            assert(o[i + 1] == name@);
        }
        if names.contains(name.as_str()) {
            add_error(errors, ValidationError::DuplicateSupervisor(name.clone()));
            assert(problems(errors@) =~= start + repeats(o.take(i + 2)).map_values(f));
        }
        names.insert(name.clone());
        i += 1;
    }
    assert(o.take(o.len() as int) =~= o);
    names
}

/// Adds an error for each required service that is not there.
fn check_required(
    name: &String,
    required: &Vec<String>,
    known: &NameSet,
    errors: &mut Vec<ValidationError>,
    Ghost(services): Ghost<Seq<Seq<char>>>,
)
    requires
        forall|x: Seq<char>| #[trigger] known@.contains(x) <==> services.contains(x),
    ensures
        problems(final(errors)@) == problems(old(errors)@) + unknown_dependencies(
            name@,
            texts(required@),
            services,
        ),
{
    let ghost o = texts(required@);
    let ghost start = problems(errors@);
    let mut i: usize = 0;
    assert(problems(errors@) =~= start + unknown_dependencies(name@, o.take(0), services));
    while i < required.len()
        invariant
            i <= required.len(),
            o == texts(required@),
            forall|x: Seq<char>| #[trigger] known@.contains(x) <==> services.contains(x),
            problems(errors@) == start + unknown_dependencies(name@, o.take(i as int), services),
        decreases required.len() - i,
    {
        let dep = &required[i];
        proof {
            lemma_known(o, i as int);
            assert(o[i as int] == dep@);
        }
        if !known.contains(dep.as_str()) {
            add_error(errors, ValidationError::UnknownDependency(name.clone(), dep.clone()));
        }
        assert(problems(errors@) =~= start + unknown_dependencies(name@, o.take(i + 1), services));
        i += 1;
    }
    assert(o.take(o.len() as int) =~= o);
}

/// Checks services and supervisors together.
pub fn validate_all(services: &[ServiceDef], supervisors: &[SupervisorDef]) -> (r: Vec<
    ValidationError,
>)
    ensures
        problems(r@) == all_problems(services@, supervisors@),
{
    let mut errors: Vec<ValidationError> = Vec::new();
    let known = collect_services(services, &mut errors);
    let above = collect_supervisors(supervisors, &mut errors);
    let ghost ns = service_names(services@);
    let ghost sups = supervisor_names(supervisors@);
    let ghost start = problems(errors@);
    let mut i: usize = 0;
    assert(problems(errors@) =~= start + each_problems(services@.take(0), ns, sups));
    while i < services.len()
        invariant
            i <= services.len(),
            forall|x: Seq<char>| #[trigger] known@.contains(x) <==> ns.contains(x),
            forall|x: Seq<char>| #[trigger] above@.contains(x) <==> sups.contains(x),
            problems(errors@) == start + each_problems(services@.take(i as int), ns, sups),
        decreases services.len() - i,
    {
        let svc = &services[i];
        let ghost before = problems(errors@);
        check_service(svc, &mut errors);
        if !above.contains(svc.service.supervisor.as_str()) {
            add_error(
                &mut errors,
                ValidationError::UnknownSupervisor(
                    svc.service.name.clone(),
                    svc.service.supervisor.clone(),
                ),
            );
        }
        check_required(
            &svc.service.name,
            &svc.dependencies.required,
            &known,
            &mut errors,
            Ghost(ns),
        );
        proof {
            assert(services@.take(i + 1).drop_last() =~= services@.take(i as int));
            assert(services@.take(i + 1).last() == *svc);
            assert(problems(errors@) =~= before + placed_problems(*svc, ns, sups));
            assert(problems(errors@) =~= start + each_problems(services@.take(i + 1), ns, sups));
        }
        i += 1;
    }
    proof {
        assert(services@.take(services@.len() as int) =~= services@);
        assert(problems(errors@) =~= all_problems(services@, supervisors@));
    }
    errors
}

/// Whether a definition is complete, and names only what is there.
pub open spec fn is_sound(
    def: ServiceDef,
    services: Seq<Seq<char>>,
    supervisors: Seq<Seq<char>>,
) -> bool {
    let kind = def.readiness.readiness_type;
    &&& def.service.command@.len() > 0
    &&& kind == ReadinessType::TcpPort ==> def.readiness.port is Some
    &&& kind == ReadinessType::Exec ==> def.readiness.check_exec is Some
    &&& supervisors.contains(def.service.supervisor@)
    &&& forall|i: int|
        0 <= i < def.dependencies.required@.len() ==> services.contains(
            #[trigger] texts(def.dependencies.required@)[i],
        )
}

/// Whether the definitions of a set fit together: no name comes twice, and
/// each definition is sound among the others.
pub open spec fn is_valid_set(services: Seq<ServiceDef>, supervisors: Seq<SupervisorDef>) -> bool {
    &&& service_names(services).no_duplicates()
    &&& supervisor_names(supervisors).no_duplicates()
    &&& forall|i: int|
        0 <= i < services.len() ==> is_sound(
            #[trigger] services[i],
            service_names(services),
            supervisor_names(supervisors),
        )
}

proof fn lemma_repeats(names: Seq<Seq<char>>)
    ensures
        repeats(names).len() == 0 <==> names.no_duplicates(),
    decreases names.len(),
{
    if names.len() > 0 {
        let t = names.drop_last();
        lemma_repeats(t);
        if t.contains(names.last()) {
            let k = choose|k: int| 0 <= k < t.len() && t[k] == names.last();
            assert(names[k] == names[names.len() - 1]);
        }
        if names.no_duplicates() {
            assert forall|i: int, j: int| 0 <= i < t.len() && 0 <= j < t.len() && i != j implies t[i]
                != t[j] by {
                assert(t[i] == names[i] && t[j] == names[j]);
            }
        }
        if t.no_duplicates() && !t.contains(names.last()) {
            assert forall|i: int, j: int|
                0 <= i < names.len() && 0 <= j < names.len() && i != j implies names[i]
                != names[j] by {
                if i < t.len() {
                    assert(names[i] == t[i]);
                    assert(t.contains(t[i]));
                }
                if j < t.len() {
                    assert(names[j] == t[j]);
                    assert(t.contains(t[j]));
                }
            }
        }
    }
}

proof fn lemma_unknown(name: Seq<char>, required: Seq<Seq<char>>, known: Seq<Seq<char>>)
    ensures
        unknown_dependencies(name, required, known).len() == 0 <==> forall|i: int|
            0 <= i < required.len() ==> known.contains(#[trigger] required[i]),
    decreases required.len(),
{
    if required.len() > 0 {
        let t = required.drop_last();
        lemma_unknown(name, t, known);
        assert(required[required.len() - 1] == required.last());
        assert forall|i: int| 0 <= i < t.len() implies required[i] == #[trigger] t[i] by {}
        if forall|i: int| 0 <= i < required.len() ==> known.contains(#[trigger] required[i]) {
            assert forall|i: int| 0 <= i < t.len() implies known.contains(#[trigger] t[i]) by {
                assert(required[i] == t[i]);
            }
        }
        if (forall|i: int| 0 <= i < t.len() ==> known.contains(#[trigger] t[i])) && known.contains(
            required.last(),
        ) {
            assert forall|i: int| 0 <= i < required.len() implies known.contains(
                #[trigger] required[i],
            ) by {
                if i < t.len() {
                    assert(required[i] == t[i]);
                }
            }
        }
    }
}

proof fn lemma_each(
    defs: Seq<ServiceDef>,
    services: Seq<Seq<char>>,
    supervisors: Seq<Seq<char>>,
)
    ensures
        each_problems(defs, services, supervisors).len() == 0 <==> forall|i: int|
            0 <= i < defs.len() ==> is_sound(#[trigger] defs[i], services, supervisors),
    decreases defs.len(),
{
    if defs.len() > 0 {
        let t = defs.drop_last();
        let d = defs.last();
        lemma_each(t, services, supervisors);
        lemma_unknown(d.service.name@, texts(d.dependencies.required@), services);
        assert(placed_problems(d, services, supervisors).len() == 0 <==> is_sound(
            d,
            services,
            supervisors,
        ));
        assert(defs[defs.len() - 1] == d);
        if forall|i: int| 0 <= i < defs.len() ==> is_sound(#[trigger] defs[i], services, supervisors) {
            assert forall|i: int| 0 <= i < t.len() implies is_sound(
                #[trigger] t[i],
                services,
                supervisors,
            ) by {
                assert(defs[i] == t[i]);
            }
        }
        if (forall|i: int| 0 <= i < t.len() ==> is_sound(#[trigger] t[i], services, supervisors))
            && is_sound(d, services, supervisors) {
            assert forall|i: int| 0 <= i < defs.len() implies is_sound(
                #[trigger] defs[i],
                services,
                supervisors,
            ) by {
                if i < t.len() {
                    assert(defs[i] == t[i]);
                }
            }
        }
    }
}

/// Just the sets of definitions that fit together have no problems.
pub proof fn no_problems_means_valid(services: Seq<ServiceDef>, supervisors: Seq<SupervisorDef>)
    ensures
        all_problems(services, supervisors).len() == 0 <==> is_valid_set(services, supervisors),
{
    lemma_repeats(service_names(services));
    lemma_repeats(supervisor_names(supervisors));
    lemma_each(services, service_names(services), supervisor_names(supervisors));
}

/// One definition by itself is found to have no command, no port for a check of
/// its port, or no command for a check by one, just where it has none.
pub proof fn problems_of_a_definition_are_found(def: ServiceDef, name: Seq<char>)
    ensures
        ({
            let p = service_problems(def);
            let own = name == def.service.name@;
            let kind = def.readiness.readiness_type;
            &&& p.contains(Problem::EmptyExec(name)) <==> own && def.service.command@.len() == 0
            &&& p.contains(Problem::MissingPort(name)) <==> own && kind is TcpPort
                && def.readiness.port is None
            &&& p.contains(Problem::MissingCheckExec(name)) <==> own && kind is Exec
                && def.readiness.check_exec is None
        }),
{
    let p = service_problems(def);
    let kind = def.readiness.readiness_type;
    let a: int = if def.service.command@.len() == 0 {
        1
    } else {
        0
    };
    let b: int = if kind is TcpPort && def.readiness.port is None {
        a + 1
    } else {
        a
    };
    let own = def.service.name@;
    if def.service.command@.len() == 0 {
        assert(p[0] == Problem::EmptyExec(own));
    }
    if kind is TcpPort && def.readiness.port is None {
        assert(p[a] == Problem::MissingPort(own));
    }
    if kind is Exec && def.readiness.check_exec is None {
        assert(p[b] == Problem::MissingCheckExec(own));
    }
    if p.contains(Problem::EmptyExec(name)) {
        let i = choose|i: int| 0 <= i < p.len() && p[i] == Problem::EmptyExec(name);
    }
    if p.contains(Problem::MissingPort(name)) {
        let i = choose|i: int| 0 <= i < p.len() && p[i] == Problem::MissingPort(name);
    }
    if p.contains(Problem::MissingCheckExec(name)) {
        let i = choose|i: int| 0 <= i < p.len() && p[i] == Problem::MissingCheckExec(name);
    }
}

proof fn lemma_contains_in_sum<T>(a: Seq<T>, b: Seq<T>, x: T)
    ensures
        (a + b).contains(x) <==> a.contains(x) || b.contains(x),
{
    if a.contains(x) {
        let i = choose|i: int| 0 <= i < a.len() && a[i] == x;
        assert((a + b)[i] == x);
    }
    if b.contains(x) {
        let i = choose|i: int| 0 <= i < b.len() && b[i] == x;
        assert((a + b)[a.len() + i] == x);
    }
    if (a + b).contains(x) {
        let i = choose|i: int| 0 <= i < (a + b).len() && (a + b)[i] == x;
        if i < a.len() {
            assert(a[i] == x);
        } else {
            assert(b[i - a.len()] == x);
        }
    }
}

proof fn lemma_unknown_told(
    name: Seq<char>,
    required: Seq<Seq<char>>,
    known: Seq<Seq<char>>,
    dep: Seq<char>,
)
    ensures
        unknown_dependencies(name, required, known).contains(Problem::UnknownDependency(name, dep))
            <==> required.contains(dep) && !known.contains(dep),
    decreases required.len(),
{
    let x = Problem::UnknownDependency(name, dep);
    if required.len() > 0 {
        let front = required.drop_last();
        let last = when(
            !known.contains(required.last()),
            Problem::UnknownDependency(name, required.last()),
        );
        lemma_unknown_told(name, front, known, dep);
        lemma_contains_in_sum(unknown_dependencies(name, front, known), last, x);
        if last.contains(x) {
            let i = choose|i: int| 0 <= i < last.len() && last[i] == x;
            assert(required[required.len() - 1] == dep);
        }
        if required.contains(dep) && !known.contains(dep) {
            let i = choose|i: int| 0 <= i < required.len() && required[i] == dep;
            if i < front.len() {
                assert(front[i] == dep);
            } else {
                assert(last[0] == x);
            }
        }
        if front.contains(dep) {
            let i = choose|i: int| 0 <= i < front.len() && front[i] == dep;
            assert(required[i] == dep);
        }
    }
}

proof fn lemma_each_told(
    defs: Seq<ServiceDef>,
    services: Seq<Seq<char>>,
    supervisors: Seq<Seq<char>>,
    i: int,
    x: Problem,
)
    requires
        0 <= i < defs.len(),
        placed_problems(defs[i], services, supervisors).contains(x),
    ensures
        each_problems(defs, services, supervisors).contains(x),
    decreases defs.len(),
{
    let front = defs.drop_last();
    let a = each_problems(front, services, supervisors);
    let b = placed_problems(defs.last(), services, supervisors);
    lemma_contains_in_sum(a, b, x);
    if i < front.len() {
        assert(front[i] == defs[i]);
        lemma_each_told(front, services, supervisors, i, x);
    }
}

/// Among all definitions, each fault of one is told: what is wrong with it by
/// itself, a supervisor that is not there, and each service that it requires
/// and that is not there.
pub proof fn every_fault_is_told(
    services: Seq<ServiceDef>,
    supervisors: Seq<SupervisorDef>,
    i: int,
    dep: Seq<char>,
)
    requires
        0 <= i < services.len(),
    ensures
        ({
            let p = all_problems(services, supervisors);
            let def = services[i];
            let name = def.service.name@;
            &&& def.service.command@.len() == 0 ==> p.contains(Problem::EmptyExec(name))
            &&& def.readiness.readiness_type is TcpPort && def.readiness.port is None
                ==> p.contains(Problem::MissingPort(name))
            &&& def.readiness.readiness_type is Exec && def.readiness.check_exec is None
                ==> p.contains(Problem::MissingCheckExec(name))
            &&& def.service.supervisor@ != "root"@ && (forall|k: int|
                0 <= k < supervisors.len() ==> (#[trigger] supervisors[k]).supervisor.name@
                    != def.service.supervisor@) ==> p.contains(
                Problem::UnknownSupervisor(name, def.service.supervisor@),
            )
            &&& texts(def.dependencies.required@).contains(dep) && (forall|k: int|
                0 <= k < services.len() ==> (#[trigger] services[k]).service.name@ != dep)
                ==> p.contains(Problem::UnknownDependency(name, dep))
        }),
{
    let def = services[i];
    let name = def.service.name@;
    let names = service_names(services);
    let sups = supervisor_names(supervisors);
    let own = service_problems(def);
    let up = when(
        !sups.contains(def.service.supervisor@),
        Problem::UnknownSupervisor(name, def.service.supervisor@),
    );
    let deps = unknown_dependencies(name, texts(def.dependencies.required@), names);
    let placed = placed_problems(def, names, sups);
    let each = each_problems(services, names, sups);
    problems_of_a_definition_are_found(def, name);
    assert forall|x: Problem| placed.contains(x) implies #[trigger] all_problems(
        services,
        supervisors,
    ).contains(x) by {
        lemma_each_told(services, names, sups, i, x);
        let a = repeats(names).map_values(|n: Seq<char>| Problem::DuplicateService(n));
        let b = repeats(sups).map_values(|n: Seq<char>| Problem::DuplicateSupervisor(n));
        lemma_contains_in_sum(a + b, each, x);
    }
    let c1 = Problem::EmptyExec(name);
    let c2 = Problem::MissingPort(name);
    let c3 = Problem::MissingCheckExec(name);
    lemma_contains_in_sum(own, up, c1);
    lemma_contains_in_sum(own + up, deps, c1);
    lemma_contains_in_sum(own, up, c2);
    lemma_contains_in_sum(own + up, deps, c2);
    lemma_contains_in_sum(own, up, c3);
    lemma_contains_in_sum(own + up, deps, c3);
    let s = Problem::UnknownSupervisor(name, def.service.supervisor@);
    lemma_contains_in_sum(own, up, s);
    lemma_contains_in_sum(own + up, deps, s);
    if def.service.supervisor@ != "root"@ && (forall|k: int|
        0 <= k < supervisors.len() ==> (#[trigger] supervisors[k]).supervisor.name@
            != def.service.supervisor@) {
        assert(!sups.contains(def.service.supervisor@)) by {
            if sups.contains(def.service.supervisor@) {
                let k = choose|k: int| 0 <= k < sups.len() && sups[k] == def.service.supervisor@;
                if k > 0 {
                    assert(sups[k] == supervisors[k - 1].supervisor.name@);
                }
            }
        }
        assert(up[0] == s);
    }
    let d = Problem::UnknownDependency(name, dep);
    lemma_contains_in_sum(own + up, deps, d);
    if texts(def.dependencies.required@).contains(dep) && (forall|k: int|
        0 <= k < services.len() ==> (#[trigger] services[k]).service.name@ != dep) {
        assert(!names.contains(dep)) by {
            if names.contains(dep) {
                let k = choose|k: int| 0 <= k < names.len() && names[k] == dep;
                assert(services[k].service.name@ == dep);
            }
        }
        lemma_unknown_told(name, texts(def.dependencies.required@), names, dep);
    }
}

} // verus!
