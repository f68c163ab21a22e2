//! How the service manager builds its tree and acts on what happens.

use crate::svmgr::cgroup::monitor::{watch_dropped, CgroupMonitor};
use crate::svmgr::config::service::{
    duration_fits, duration_goes_by_its_unit, duration_in_range, duration_secs,
    parse_duration_secs, ServiceDef,
};
use crate::svmgr::config::supervisor::{RestartStrategy, SupervisorDef};
use crate::svmgr::dependency::frontier::{
    failed_step, ready_step, FrontierState, StartupFrontier,
};
use crate::svmgr::dependency::graph::DependencyGraph;
use crate::svmgr::process::readiness::ReadinessResult;
use crate::svmgr::shutdown::{mark_stopping, told_to_stop};
use crate::svmgr::supervisor::escalation::{climb, climbs, failure_climbs_to_one_with_room};
use crate::svmgr::supervisor::groups::{workers_backwards, workers_to_stop};
use crate::svmgr::supervisor::intensity::RestartIntensity;
use crate::svmgr::supervisor::lifecycle::{ExitInfo, ServiceState};
use crate::svmgr::supervisor::strategy::{
    apply_strategy, ended, strategy_keeps_shape, strategy_step, StrategyAction,
};
use crate::svmgr::supervisor::tree::{
    children, has_supervisor, has_worker, is_tree, lemma_parent_comes_first, lemma_same_links,
    lemma_shape_carries, parent, same_shape, same_shape_keeps_tree, supervisor, supervisor_added,
    worker, worker_added, NodeId, Nodes, SupervisorNode, SupervisorTree, TreeError, TreeNode,
    WorkerNode,
};
use crate::text::num::dec;
use crate::text::{opt_text, owned, str_eq, texts};
use crate::time::{Duration, Instant};
use vstd::prelude::*;

verus! {

/// Whether `i` is an intensity without restarts, with this limit and a window
/// of `secs` seconds.
pub open spec fn fresh(i: RestartIntensity, limit: u32, secs: nat) -> bool {
    &&& i.limit() == limit
    &&& i.span().total() == secs * 1_000_000_000
    &&& i.times().len() == 0
}

/// The seconds of a duration text, or `other` where it is none.
pub open spec fn secs_or(text: Seq<char>, other: nat) -> nat {
    match duration_secs(text) {
        Some(n) => n,
        None => other,
    }
}

/// The supervisor under which a supervisor is put.
pub open spec fn parent_wanted(def: SupervisorDef) -> Seq<char> {
    match def.supervisor.parent {
        Some(p) => p@,
        None => "root"@,
    }
}

/// Whether `post` is `pre` after the root took its strategy and its limit
/// from a definition.
pub open spec fn root_defined(pre: SupervisorTree, post: SupervisorTree, def: SupervisorDef) -> bool {
    &&& post.root() == pre.root()
    &&& post.order() == pre.order()
    &&& post.pids() == pre.pids()
    &&& if has_supervisor(pre.nodes(), "root"@) {
        let s = supervisor(pre.nodes(), "root"@);
        &&& has_supervisor(post.nodes(), "root"@)
        &&& ({
            let t = supervisor(post.nodes(), "root"@);
            &&& t == (SupervisorNode {
                strategy: def.supervisor.strategy,
                intensity: t.intensity,
                ..s
            })
            &&& fresh(
                t.intensity,
                def.restart.max_restarts,
                secs_or(def.restart.max_restart_window@, 600),
            )
            &&& post.nodes() == pre.nodes().insert("root"@, TreeNode::Supervisor(t))
        })
    } else {
        post.nodes() == pre.nodes()
    }
}

/// What one supervisor definition does to the tree.
pub open spec fn supervisor_step(
    pre: SupervisorTree,
    post: SupervisorTree,
    def: SupervisorDef,
    r: Result<(), TreeError>,
) -> bool {
    if def.supervisor.name@ == "root"@ {
        root_defined(pre, post, def) && r is Ok
    } else {
        exists|i: RestartIntensity|
            {
                &&& fresh(
                    i,
                    def.restart.max_restarts,
                    secs_or(def.restart.max_restart_window@, 300),
                )
                &&& #[trigger] supervisor_added(
                    pre,
                    post,
                    def.supervisor.name@,
                    parent_wanted(def),
                    def.supervisor.strategy,
                    i,
                    r,
                )
            }
    }
}

/// What one service definition does to the tree: the service is put under its
/// supervisor, or under the root where there is no such node.
pub open spec fn service_step(
    pre: SupervisorTree,
    post: SupervisorTree,
    def: ServiceDef,
    r: Result<(), TreeError>,
) -> bool {
    let up = if pre.nodes().contains_key(def.service.supervisor@) {
        def.service.supervisor@
    } else {
        "root"@
    };
    worker_added(pre, post, def, up, r)
}

/// Whether `states` leads from the bare root through all definitions, with
/// the outcome of each in `results`.
pub open spec fn built_by(
    states: Seq<SupervisorTree>,
    results: Seq<Result<(), TreeError>>,
    supervisors: Seq<SupervisorDef>,
    services: Seq<ServiceDef>,
) -> bool {
    let n = supervisors.len() as int;
    &&& states.len() == supervisors.len() + services.len() + 1
    &&& results.len() == supervisors.len() + services.len()
    &&& bare_root(states[0])
    &&& forall|i: int| 0 <= i < n ==> #[trigger] supervisor_link(states, results, supervisors, i)
    &&& forall|i: int|
        0 <= i < services.len() ==> #[trigger] service_link(states, results, services, n, i)
}

/// Whether the definition at place `i` leads from one tree to the next.
pub open spec fn supervisor_link(
    states: Seq<SupervisorTree>,
    results: Seq<Result<(), TreeError>>,
    supervisors: Seq<SupervisorDef>,
    i: int,
) -> bool {
    supervisor_step(states[i], states[i + 1], supervisors[i], results[i])
}

/// Whether the definition at place `i`, behind `n` supervisors, leads from one
/// tree to the next.
pub open spec fn service_link(
    states: Seq<SupervisorTree>,
    results: Seq<Result<(), TreeError>>,
    services: Seq<ServiceDef>,
    n: int,
    i: int,
) -> bool {
    service_step(states[n + i], states[n + i + 1], services[i], results[n + i])
}

/// Whether the tree is the bare root with its usual strategy and limit.
pub open spec fn bare_root(tree: SupervisorTree) -> bool {
    &&& tree.root() == "root"@
    &&& tree.order() == seq!["root"@]
    &&& tree.nodes().dom() == set!["root"@]
    &&& tree.pids() == Map::<i32, NodeId>::empty()
    &&& has_supervisor(tree.nodes(), "root"@)
    &&& ({
        let s = supervisor(tree.nodes(), "root"@);
        &&& s.strategy == RestartStrategy::OneForOne
        &&& fresh(s.intensity, 20, 600)
        &&& s.children@.len() == 0
        &&& s.parent is None
    })
}

/// The windows of all definitions can be counted.
pub open spec fn windows_fit(supervisors: Seq<SupervisorDef>) -> bool {
    forall|i: int|
        0 <= i < supervisors.len() ==> duration_fits(
            (#[trigger] supervisors[i]).restart.max_restart_window@,
        )
}

/// Whether the windows of all definitions can be counted.
pub fn windows_in_range(supervisors: &[SupervisorDef]) -> (r: bool)
    ensures
        r == windows_fit(supervisors@),
{
    let mut i: usize = 0;
    while i < supervisors.len()
        invariant
            i <= supervisors.len(),
            forall|k: int|
                0 <= k < i ==> duration_fits(
                    (#[trigger] supervisors@[k]).restart.max_restart_window@,
                ),
        decreases supervisors.len() - i,
    {
        if !duration_in_range(supervisors[i].restart.max_restart_window.as_str()) {
            assert(!duration_fits(supervisors@[i as int].restart.max_restart_window@));
            return false;
        }
        i += 1;
    }
    true
}

fn fresh_intensity(limit: u32, window: &str, other: u64) -> (r: RestartIntensity)
    requires
        duration_fits(window@),
    ensures
        fresh(r, limit, secs_or(window@, other as nat)),
{
    let secs = match parse_duration_secs(window) {
        Some(n) => n,
        None => other,
    };
    RestartIntensity::new(limit, Duration::from_secs(secs))
}

/// Applies one supervisor definition to the tree.
fn add_supervisor_def(tree: &mut SupervisorTree, def: &SupervisorDef) -> (r: Result<(), TreeError>)
    requires
        old(tree).wf(),
        duration_fits(def.restart.max_restart_window@),
        old(tree).intact(),
    ensures
        final(tree).wf(),
        supervisor_step(*old(tree), *final(tree), *def, r),
        final(tree).intact(),
{
    let ghost pre = *tree;
    if str_eq(def.supervisor.name.as_str(), "root") {
        if tree.get_supervisor("root").is_some() {
            let intensity = fresh_intensity(
                def.restart.max_restarts,
                def.restart.max_restart_window.as_str(),
                600,
            );
            if let Some(TreeNode::Supervisor(root)) = tree.get_mut("root") {
                root.strategy = def.supervisor.strategy;
                root.intensity = intensity;
            }
            proof {
                assert(tree.nodes().dom() =~= pre.nodes().dom());
                assert(same_shape(pre.nodes(), tree.nodes()));
                same_shape_keeps_tree(pre.nodes(), tree.nodes(), pre.root(), pre.order());
            }
        }
        return Ok(());
    }
    let up = match &def.supervisor.parent {
        Some(p) => p.as_str(),
        None => "root",
    };
    let intensity = fresh_intensity(
        def.restart.max_restarts,
        def.restart.max_restart_window.as_str(),
        300,
    );
    let ghost i = intensity;
    let r = tree.add_supervisor(
        def.supervisor.name.as_str(),
        up,
        def.supervisor.strategy,
        intensity,
    );
    assert(supervisor_added(
        pre,
        *tree,
        def.supervisor.name@,
        parent_wanted(*def),
        def.supervisor.strategy,
        i,
        r,
    ));
    r
}

/// Builds the tree from all definitions, supervisors first, and gives the
/// outcome of each.
pub fn build_tree(supervisors: &[SupervisorDef], services: Vec<ServiceDef>) -> (r: (
    SupervisorTree,
    Vec<Result<(), TreeError>>,
))
    requires
        windows_fit(supervisors@),
    ensures
        r.0.wf(),
        r.0.intact(),
        exists|states: Seq<SupervisorTree>| #[trigger]
            built_by(states, r.1@, supervisors@, services@) && states.last() == r.0,
{
    let intensity = RestartIntensity::new(20, Duration::from_secs(600));
    let mut tree = SupervisorTree::new("root", RestartStrategy::OneForOne, intensity);
    let mut results: Vec<Result<(), TreeError>> = Vec::new();
    let ghost mut states: Seq<SupervisorTree> = seq![tree];
    let ghost n = supervisors@.len() as int;
    let mut i: usize = 0;
    while i < supervisors.len()
        invariant
            i <= supervisors.len(),
            n == supervisors@.len(),
            windows_fit(supervisors@),
            tree.wf(),
            tree.intact(),
            states.len() == i + 1,
            results@.len() == i,
            states.last() == tree,
            bare_root(states[0]),
            forall|k: int|
                0 <= k < i ==> #[trigger] supervisor_link(states, results@, supervisors@, k),
        decreases supervisors.len() - i,
    {
        let ghost before = tree;
        let ghost old_states = states;
        let ghost old_results = results@;
        let r = add_supervisor_def(&mut tree, &supervisors[i]);
        results.push(r);
        proof {
            states = states.push(tree);
            assert forall|k: int| 0 <= k < i + 1 implies #[trigger] supervisor_link(
                states,
                results@,
                supervisors@,
                k,
            ) by {
                if k < i {
                    assert(supervisor_link(old_states, old_results, supervisors@, k));
                } else {
                    assert(states[k] == before);
                }
            }
        }
        i += 1;
    }
    let ghost all = services@;
    let mut rest = services;
    let total = rest.len();
    let mut done: usize = 0;
    assert(all.skip(0) =~= all);
    while rest.len() > 0
        invariant
            n == supervisors@.len(),
            done <= all.len(),
            rest@ == all.skip(done as int),
            tree.wf(),
            tree.intact(),
            states.len() == n + done + 1,
            results@.len() == n + done,
            states.last() == tree,
            bare_root(states[0]),
            all.len() == total,
            forall|k: int|
                0 <= k < n ==> #[trigger] supervisor_link(states, results@, supervisors@, k),
            forall|k: int|
                0 <= k < done ==> #[trigger] service_link(states, results@, all, n, k),
        decreases rest@.len(),
    {
        let ghost before = tree;
        let ghost old_states = states;
        let ghost old_results = results@;
        let def = rest.remove(0);
        assert(def == all[done as int]);
        assert(rest@ =~= all.skip(done + 1));
        let up = if tree.get(def.service.supervisor.as_str()).is_some() {
            def.service.supervisor.clone()
        } else {
            owned("root")
        };
        let r = tree.add_worker(def, up.as_str());
        results.push(r);
        proof {
            states = states.push(tree);
            assert forall|k: int| 0 <= k < n implies #[trigger] supervisor_link(
                states,
                results@,
                supervisors@,
                k,
            ) by {
                assert(supervisor_link(old_states, old_results, supervisors@, k));
            }
            assert forall|k: int| 0 <= k < done + 1 implies #[trigger] service_link(
                states,
                results@,
                all,
                n,
                k,
            ) by {
                if k < done {
                    assert(service_link(old_states, old_results, all, n, k));
                } else {
                    assert(states[n + k] == before);
                }
            }
        }
        done += 1;
    }
    let r = (tree, results);
    proof {
        assert(all == services@);
        assert(states.last() == r.0);
        assert(built_by(states, r.1@, supervisors@, services@));
    }
    r
}

/// What is left to do about the cgroup of a service after an attempt to start
/// it.
#[derive(Debug, Clone, Copy, PartialEq, Eq, Structural)]
pub enum StartFollowUp {
    Nothing,
    /// Move the process into the cgroup, and watch the cgroup.
    JoinCgroup { pid: i32 },
    /// Remove the cgroup.
    RemoveCgroup,
}

/// The nodes after the worker `id` was started as the process `pid`, or could
/// not be started.
pub open spec fn after_start(nodes: Nodes, id: Seq<char>, pid: Option<i32>) -> Nodes {
    match pid {
        Some(p) => nodes.insert(
            id,
            TreeNode::Worker(
                WorkerNode { pid: Some(p), state: ServiceState::Running, ..worker(nodes, id) },
            ),
        ),
        None => nodes.insert(
            id,
            TreeNode::Worker(
                WorkerNode {
                    state: ServiceState::Failed { exit_code: None, signal: None },
                    ..worker(nodes, id)
                },
            ),
        ),
    }
}

/// What noting an attempt to start a worker does, and what it leaves to do.
pub open spec fn start_noted(
    pre: SupervisorTree,
    post: SupervisorTree,
    id: Seq<char>,
    spawned: Option<i32>,
    hierarchy: bool,
    cgroup_made: bool,
    r: StartFollowUp,
) -> bool {
    &&& post.root() == pre.root()
    &&& post.order() == pre.order()
    &&& !has_worker(pre.nodes(), id) ==> post == pre && r is Nothing
    &&& has_worker(pre.nodes(), id) ==> {
            &&& post.nodes() == after_start(pre.nodes(), id, spawned)
            &&& match spawned {
                Some(pid) => {
                    &&& post.pids().dom() == pre.pids().dom().insert(pid)
                    &&& post.pids()[pid]@ == id
                    &&& forall|p: i32| p != pid && pre.pids().contains_key(p)
                        ==> #[trigger] post.pids()[p] == pre.pids()[p]
                    &&& r == if hierarchy && cgroup_made {
                        StartFollowUp::JoinCgroup { pid }
                    } else {
                        StartFollowUp::Nothing
                    }
                },
                None => {
                    &&& post.pids() == pre.pids()
                    &&& r == if hierarchy {
                        StartFollowUp::RemoveCgroup
                    } else {
                        StartFollowUp::Nothing
                    }
                },
            }
        }
}

/// Notes the outcome of an attempt to start a worker: its process, or that
/// there is none. `hierarchy` says whether there are cgroups, `cgroup_made`
/// whether one was made for the worker. A name that is no worker's is passed
/// over.
pub fn start_worker(
    tree: &mut SupervisorTree,
    worker_id: &str,
    spawned: Option<i32>,
    hierarchy: bool,
    cgroup_made: bool,
) -> (r: StartFollowUp)
    requires
        old(tree).wf(),
    ensures
        final(tree).wf(),
        old(tree).intact() ==> final(tree).intact(),
        start_noted(*old(tree), *final(tree), worker_id@, spawned, hierarchy, cgroup_made, r),
{
    if tree.get_worker(worker_id).is_none() {
        return StartFollowUp::Nothing;
    }
    match spawned {
        Some(pid) => {
            tree.register_pid(worker_id, pid);
            if hierarchy && cgroup_made {
                StartFollowUp::JoinCgroup { pid }
            } else {
                StartFollowUp::Nothing
            }
        },
        None => {
            if let Some(w) = tree.get_worker_mut(worker_id) {
                w.state = ServiceState::Failed { exit_code: None, signal: None };
            }
            if hierarchy {
                StartFollowUp::RemoveCgroup
            } else {
                StartFollowUp::Nothing
            }
        },
    }
}

/// The process of a worker, where it has one.
pub open spec fn pid_of(nodes: Nodes, id: Seq<char>) -> Option<i32> {
    if has_worker(nodes, id) {
        worker(nodes, id).pid
    } else {
        None
    }
}

/// The nodes after a worker with a process was told to stop.
pub open spec fn after_stop(nodes: Nodes, id: Seq<char>) -> Nodes {
    if pid_of(nodes, id) is Some {
        told_to_stop(nodes, id, None)
    } else {
        nodes
    }
}

/// What noting that a worker is told to stop does, and whom to signal.
pub open spec fn stop_noted(
    pre: SupervisorTree,
    post: SupervisorTree,
    id: Seq<char>,
    r: Option<i32>,
) -> bool {
    &&& post.root() == pre.root()
    &&& post.order() == pre.order()
    &&& post.pids() == pre.pids()
    &&& r == pid_of(pre.nodes(), id)
    &&& post.nodes() == after_stop(pre.nodes(), id)
}

/// Notes that a worker is told to stop, and gives the process to signal.
pub fn stop_worker(tree: &mut SupervisorTree, worker_id: &str) -> (r: Option<i32>)
    requires
        old(tree).wf(),
    ensures
        final(tree).wf(),
        old(tree).intact() ==> final(tree).intact(),
        stop_noted(*old(tree), *final(tree), worker_id@, r),
{
    let pid = match tree.get_worker(worker_id) {
        Some(w) => w.pid,
        None => {
            return None;
        },
    };
    if pid.is_some() {
        mark_stopping(tree, worker_id, None);
    }
    pid
}

/// The nodes after those of `ids` that run were told to stop, one after
/// another.
pub open spec fn after_stops(nodes: Nodes, ids: Seq<Seq<char>>) -> Nodes
    decreases ids.len(),
{
    if ids.len() == 0 {
        nodes
    } else {
        let before = after_stops(nodes, ids.drop_last());
        if runs(before, ids.last()) {
            after_stop(before, ids.last())
        } else {
            before
        }
    }
}

/// Whether `id` is a worker that is starting or running.
pub open spec fn runs(nodes: Nodes, id: Seq<char>) -> bool {
    has_worker(nodes, id) && (worker(nodes, id).state is Running || worker(nodes, id).state
        is Starting)
}

/// Whether `id` is a worker that its supervisor has given up on.
pub open spec fn abandoned(nodes: Nodes, id: Seq<char>) -> bool {
    has_worker(nodes, id) && worker(nodes, id).state is Abandoned
}

/// The processes of those of `ids` that run, or that were given up on and still
/// have one, each of the latter once.
pub open spec fn pids_to_signal(nodes: Nodes, ids: Seq<Seq<char>>) -> Seq<i32>
    decreases ids.len(),
{
    if ids.len() == 0 {
        Seq::empty()
    } else {
        let before = after_stops(nodes, ids.drop_last());
        let rest = pids_to_signal(nodes, ids.drop_last());
        match pid_of(before, ids.last()) {
            Some(p) if runs(before, ids.last()) => rest.push(p),
            Some(p) if abandoned(before, ids.last()) && !rest.contains(p) => rest.push(p),
            _ => rest,
        }
    }
}

fn holds_pid(pids: &Vec<i32>, pid: i32) -> (r: bool)
    ensures
        r == pids@.contains(pid),
{
    let mut i: usize = 0;
    while i < pids.len()
        invariant
            i <= pids.len(),
            forall|k: int| 0 <= k < i ==> pids@[k] != pid,
        decreases pids.len() - i,
    {
        if pids[i] == pid {
            return true;
        }
        i += 1;
    }
    false
}

/// What noting that nodes are told to stop does, and whom to signal.
pub open spec fn stops_noted(
    pre: SupervisorTree,
    post: SupervisorTree,
    ids: Seq<Seq<char>>,
    r: Seq<i32>,
) -> bool {
    &&& post.root() == pre.root()
    &&& post.order() == pre.order()
    &&& post.pids() == pre.pids()
    &&& post.nodes() == after_stops(
            pre.nodes(),
            workers_backwards(pre.nodes(), ids, pre.order().len()),
        )
    &&& r == pids_to_signal(
            pre.nodes(),
            workers_backwards(pre.nodes(), ids, pre.order().len()),
        )
}

/// Notes that what an action stops is told to, and gives the processes to
/// signal, in order. To stop a supervisor is to stop the workers below it. A
/// worker that was given up on is signalled too, and stays given up on.
pub fn stop_children(tree: &mut SupervisorTree, ids: &Vec<NodeId>) -> (r: Vec<i32>)
    requires
        old(tree).wf(),
    ensures
        final(tree).wf(),
        old(tree).intact() ==> final(tree).intact(),
        stops_noted(*old(tree), *final(tree), texts(ids@), r@),
{
    let mut r: Vec<i32> = Vec::new();
    let workers = workers_to_stop(tree, ids);
    let ghost o = texts(workers@);
    let ghost pre = tree.nodes();
    let mut i: usize = 0;
    while i < workers.len()
        invariant
            i <= workers.len(),
            o == texts(workers@),
            pre == old(tree).nodes(),
            tree.wf(),
            tree.root() == old(tree).root(),
            tree.order() == old(tree).order(),
            tree.pids() == old(tree).pids(),
            tree.nodes() == after_stops(pre, o.take(i as int)),
            r@ == pids_to_signal(pre, o.take(i as int)),
            old(tree).intact() ==> tree.intact(),
        decreases workers.len() - i,
    {
        let id = workers[i].as_str();
        proof {
            assert(o.take(i + 1).drop_last() =~= o.take(i as int));
            assert(o.take(i + 1).last() == id@);
        }
        let (running, left) = match tree.get_worker(id) {
            Some(w) => (
                w.state.is_running(),
                if matches!(w.state, ServiceState::Abandoned) {
                    w.pid
                } else {
                    None
                },
            ),
            None => (false, None),
        };
        if running {
            if let Some(pid) = stop_worker(tree, id) {
                r.push(pid);
            }
        } else if let Some(pid) = left {
            if !holds_pid(&r, pid) {
                r.push(pid);
            }
        }
        i += 1;
    }
    assert(o.take(o.len() as int) =~= o);
    r
}

/// Each worker of `ids` that runs, or was given up on, and has a process is
/// signalled.
pub proof fn workers_to_stop_are_signalled(nodes: Nodes, ids: Seq<Seq<char>>, id: Seq<char>)
    requires
        ids.contains(id),
        runs(nodes, id) || abandoned(nodes, id),
        pid_of(nodes, id) is Some,
    ensures
        pids_to_signal(nodes, ids).contains(pid_of(nodes, id)->0),
{
    lemma_signalled(nodes, ids, id);
}

proof fn lemma_signalled(nodes: Nodes, ids: Seq<Seq<char>>, id: Seq<char>)
    requires
        runs(nodes, id) || abandoned(nodes, id),
        pid_of(nodes, id) is Some,
    ensures
        pid_of(after_stops(nodes, ids), id) == pid_of(nodes, id),
        abandoned(nodes, id) ==> abandoned(after_stops(nodes, ids), id),
        runs(nodes, id) ==> runs(after_stops(nodes, ids), id) || pids_to_signal(
            nodes,
            ids,
        ).contains(pid_of(nodes, id)->0),
        ids.contains(id) ==> pids_to_signal(nodes, ids).contains(pid_of(nodes, id)->0),
    decreases ids.len(),
{
    if ids.len() > 0 {
        let front = ids.drop_last();
        let rest = pids_to_signal(nodes, front);
        let pids = pids_to_signal(nodes, ids);
        let p = pid_of(nodes, id)->0;
        lemma_signalled(nodes, front, id);
        if rest.contains(p) {
            let i = choose|i: int| 0 <= i < rest.len() && rest[i] == p;
            assert(pids[i] == p);
            assert(pids.contains(p));
        }
        if ids.last() == id {
            if !rest.contains(p) {
                assert(pids == rest.push(p));
                assert(pids.last() == p);
            }
        } else if ids.contains(id) {
            let i = choose|i: int| 0 <= i < ids.len() && ids[i] == id;
            assert(front[i] == id);
            assert(front.contains(id));
        }
    }
}

/// How long is waited before a node is started again.
pub open spec fn waits_before(
    nodes: Nodes,
    id: Seq<char>,
    r: Option<u64>,
) -> bool {
    match r {
        Some(n) => has_worker(nodes, id) && n == secs_or(
            worker(nodes, id).def.restart.delay@,
            1,
        ),
        None => !has_worker(nodes, id),
    }
}

/// The seconds to wait before a child is started again; nothing is waited for
/// where it is no worker.
pub fn restart_delay(tree: &SupervisorTree, id: &str) -> (r: Option<u64>)
    requires
        tree.wf(),
        has_worker(tree.nodes(), id@) ==> duration_fits(
            worker(tree.nodes(), id@).def.restart.delay@,
        ),
    ensures
        waits_before(tree.nodes(), id@, r),
{
    match tree.get_worker(id) {
        Some(w) => match parse_duration_secs(w.def.restart.delay.as_str()) {
            Some(n) => Some(n),
            None => Some(1),
        },
        None => None,
    }
}

/// What the exit of a child leads to.
#[derive(Debug)]
pub struct ExitOutcome {
    /// The worker that exited; its cgroup is no longer needed.
    pub worker_id: NodeId,
    /// What is to be done. The children of each supervisor that gave up are
    /// stopped first, from the lowest up.
    pub action: StrategyAction,
    /// The supervisors that gave up, each one below the next.
    pub failed_supervisors: Vec<NodeId>,
    /// The supervisor that the last failure was handed on to; none where no
    /// supervisor gave up, or the root did.
    pub escalated_to: Option<NodeId>,
}

/// The nodes after the worker `id`, where it is one, has exited. One that was
/// given up on stays so.
pub open spec fn after_exit(nodes: Nodes, id: Seq<char>, exit: ExitInfo) -> Nodes {
    if has_worker(nodes, id) {
        let state = if abandoned(nodes, id) {
            ServiceState::Abandoned
        } else {
            ended(exit)
        };
        nodes.insert(
            id,
            TreeNode::Worker(WorkerNode { pid: None, state, ..worker(nodes, id) }),
        )
    } else {
        nodes
    }
}

/// Whether an action asks for nothing.
pub open spec fn idle(action: StrategyAction) -> bool {
    action.is(Seq::empty(), Seq::empty(), false)
}

/// Whether an outcome asks for nothing, and nothing failed.
pub open spec fn uneventful(o: ExitOutcome) -> bool {
    &&& idle(o.action)
    &&& o.failed_supervisors@.len() == 0
    &&& o.escalated_to is None
}

/// What the exit of the worker `id` does, once it was noted, and leads to.
/// Where its supervisor gives up, the failure climbs the tree, and what all
/// those that give up want stopped is stopped.
pub open spec fn exit_handled(
    nodes: Nodes,
    id: Seq<char>,
    exit: ExitInfo,
    now: Instant,
    post: Nodes,
    o: ExitOutcome,
) -> bool {
    match parent(nodes, id) {
        None => post == nodes && uneventful(o),
        Some(sup) => exists|mid: Nodes, a: StrategyAction|
            {
                &&& #[trigger] strategy_step(nodes, sup, id, exit, now, mid, a)
                &&& if a.supervisor_failed {
                    failure_handled(mid, sup, texts(a.to_stop@), now, post, o)
                } else {
                    &&& post == mid
                    &&& o.action == a
                    &&& o.failed_supervisors@.len() == 0
                    &&& o.escalated_to is None
                }
            },
    }
}

/// What the failure of the supervisor `sup`, which wants `stop` stopped, does
/// and leads to.
pub open spec fn failure_handled(
    nodes: Nodes,
    sup: Seq<char>,
    stop: Seq<Seq<char>>,
    now: Instant,
    post: Nodes,
    o: ExitOutcome,
) -> bool {
    let all = texts(o.action.to_stop@);
    &&& o.failed_supervisors@.len() > 0
    &&& o.failed_supervisors@[0]@ == sup
    &&& stop.is_prefix_of(all)
    &&& climbs(
        nodes,
        texts(o.failed_supervisors@),
        opt_text(o.escalated_to),
        now,
        post,
        all.skip(stop.len() as int),
        texts(o.action.to_start@),
    )
    &&& o.action.supervisor_failed == (o.escalated_to is None)
}

/// What the exit of the worker `id` does and leads to. That of a worker that
/// was given up on leads to nothing more.
pub open spec fn exit_leads_to(
    pre: Nodes,
    id: Seq<char>,
    exit: ExitInfo,
    now: Instant,
    post: Nodes,
    o: ExitOutcome,
) -> bool {
    if abandoned(pre, id) {
        post == after_exit(pre, id, exit) && uneventful(o)
    } else {
        exit_handled(after_exit(pre, id, exit), id, exit, now, post, o)
    }
}

fn nothing_more(worker_id: NodeId) -> (r: ExitOutcome)
    ensures
        r.worker_id == worker_id,
        uneventful(r),
{
    let action = StrategyAction {
        to_stop: Vec::new(),
        to_start: Vec::new(),
        supervisor_failed: false,
    };
    assert(texts(action.to_stop@) =~= Seq::<Seq<char>>::empty());
    assert(texts(action.to_start@) =~= Seq::<Seq<char>>::empty());
    ExitOutcome { worker_id, action, failed_supervisors: Vec::new(), escalated_to: None }
}

/// What noting that a process ended does and tells.
pub open spec fn child_exit_noted(
    pre: SupervisorTree,
    post: SupervisorTree,
    watched: CgroupMonitor,
    left: CgroupMonitor,
    pid: i32,
    exit_info: ExitInfo,
    now: Instant,
    r: Option<ExitOutcome>,
) -> bool {
    &&& post.root() == pre.root()
    &&& post.order() == pre.order()
    &&& post.pids() == pre.pids().remove(pid)
    &&& match r {
            None => {
                &&& !pre.pids().contains_key(pid)
                &&& post.nodes() == pre.nodes()
                &&& left == watched
            },
            Some(o) => {
                &&& pre.pids().contains_key(pid)
                &&& o.worker_id == pre.pids()[pid]
                &&& watch_dropped(watched, o.worker_id@, left)
                &&& exit_leads_to(
                    pre.nodes(),
                    o.worker_id@,
                    exit_info,
                    now,
                    post.nodes(),
                    o,
                )
            },
        }
}

/// Notes that a child exited, watches its cgroup no longer, and says what is to
/// be done. A process that belongs to no worker is passed over.
pub fn handle_child_exit(
    tree: &mut SupervisorTree,
    pid: i32,
    exit_info: ExitInfo,
    now: Instant,
    cgroup_monitor: &mut CgroupMonitor,
) -> (r: Option<ExitOutcome>)
    requires
        old(tree).wf(),
        old(tree).intact(),
        old(cgroup_monitor).wf(),
    ensures
        final(cgroup_monitor).wf(),
        final(tree).wf(),
        final(tree).intact(),
        child_exit_noted(
            *old(tree),
            *final(tree),
            *old(cgroup_monitor),
            *final(cgroup_monitor),
            pid,
            exit_info,
            now,
            r,
        ),
{
    let worker_id = match tree.unregister_pid(pid) {
        Some(id) => id,
        None => {
            return None;
        },
    };
    cgroup_monitor.unwatch(worker_id.as_str());
    let normal = exit_info.is_normal();
    let mut given_up = false;
    if let Some(w) = tree.get_worker_mut(worker_id.as_str()) {
        w.pid = None;
        given_up = matches!(w.state, ServiceState::Abandoned);
        if !given_up {
            w.state = if normal {
                ServiceState::Stopped
            } else {
                ServiceState::Failed { exit_code: exit_info.exit_code, signal: exit_info.signal }
            };
        }
    }
    let ghost noted = tree.nodes();
    if given_up {
        return Some(nothing_more(worker_id));
    }
    let supervisor_id = match tree.parent_of(worker_id.as_str()) {
        Some(p) => owned(p),
        None => {
            return Some(nothing_more(worker_id));
        },
    };
    let action = apply_strategy(
        tree,
        supervisor_id.as_str(),
        worker_id.as_str(),
        &exit_info,
        now,
    );
    let ghost mid = tree.nodes();
    let ghost a = action;
    assert(strategy_step(noted, supervisor_id@, worker_id@, exit_info, now, mid, a));
    if !action.supervisor_failed {
        return Some(
            ExitOutcome { worker_id, action, failed_supervisors: Vec::new(), escalated_to: None },
        );
    }
    let above = climb(tree, supervisor_id.as_str(), now);
    let ghost asked = texts(above.to_stop@);
    let mut to_stop = action.to_stop;
    let mut more = above.to_stop;
    to_stop.append(&mut more);
    let supervisor_failed = above.taken_by.is_none();
    let o = ExitOutcome {
        worker_id,
        action: StrategyAction { to_stop, to_start: above.to_start, supervisor_failed },
        failed_supervisors: above.gave_up,
        escalated_to: above.taken_by,
    };
    proof {
        let stop = texts(a.to_stop@);
        let all = texts(o.action.to_stop@);
        assert(all =~= stop + asked);
        assert(all.skip(stop.len() as int) =~= asked);
        assert(stop.is_prefix_of(all));
        assert(failure_handled(mid, supervisor_id@, stop, now, tree.nodes(), o));
    }
    Some(o)
}

/// The exit of a child keeps the tree a tree.
pub proof fn exit_keeps_tree(
    pre: Nodes,
    id: Seq<char>,
    exit: ExitInfo,
    now: Instant,
    post: Nodes,
    o: ExitOutcome,
    root: Seq<char>,
    order: Seq<Seq<char>>,
)
    requires
        is_tree(pre, root, order),
        exit_leads_to(pre, id, exit, now, post, o),
    ensures
        is_tree(post, root, order),
{
    lemma_exit(pre, id, exit, now, post, o, root, order);
}

/// Where the supervisor of a child that exited gave up, what is to be stopped
/// begins with all its children. The last supervisor that gave up is started
/// again by the one above it; there is none above where that is the root, and
/// then nothing is started.
pub proof fn failed_supervisor_is_stopped_and_started(
    pre: Nodes,
    id: Seq<char>,
    exit: ExitInfo,
    now: Instant,
    post: Nodes,
    o: ExitOutcome,
    root: Seq<char>,
    order: Seq<Seq<char>>,
)
    requires
        is_tree(pre, root, order),
        exit_leads_to(pre, id, exit, now, post, o),
        o.failed_supervisors@.len() > 0,
    ensures
        parent(pre, id) == Some(texts(o.failed_supervisors@)[0]),
        children(pre, texts(o.failed_supervisors@)[0]).is_prefix_of(texts(o.action.to_stop@)),
        parent(pre, texts(o.failed_supervisors@).last()) == opt_text(o.escalated_to),
        match o.escalated_to {
            Some(_) => texts(o.action.to_start@).contains(texts(o.failed_supervisors@).last()),
            None => texts(o.failed_supervisors@).last() == root && o.action.to_start@.len() == 0,
        },
{
    lemma_exit(pre, id, exit, now, post, o, root, order);
}

proof fn lemma_exit(
    pre: Nodes,
    id: Seq<char>,
    exit: ExitInfo,
    now: Instant,
    post: Nodes,
    o: ExitOutcome,
    root: Seq<char>,
    order: Seq<Seq<char>>,
)
    requires
        is_tree(pre, root, order),
        exit_leads_to(pre, id, exit, now, post, o),
    ensures
        is_tree(post, root, order),
        o.failed_supervisors@.len() > 0 ==> {
            let last = texts(o.failed_supervisors@).last();
            &&& parent(pre, id) == Some(texts(o.failed_supervisors@)[0])
            &&& children(pre, texts(o.failed_supervisors@)[0]).is_prefix_of(
                texts(o.action.to_stop@),
            )
            &&& parent(pre, last) == opt_text(o.escalated_to)
            &&& match o.escalated_to {
                Some(_) => texts(o.action.to_start@).contains(last),
                None => last == root && o.action.to_start@.len() == 0,
            }
        },
{
    let nodes = after_exit(pre, id, exit);
    assert(nodes.dom() =~= pre.dom());
    assert(same_shape(pre, nodes));
    same_shape_keeps_tree(pre, nodes, root, order);
    if !abandoned(pre, id) && parent(nodes, id) is Some {
        let sup = parent(nodes, id)->0;
        lemma_parent_comes_first(nodes, root, order, id);
        let (mid, a) = choose|mid: Nodes, a: StrategyAction|
            {
                &&& #[trigger] strategy_step(nodes, sup, id, exit, now, mid, a)
                &&& if a.supervisor_failed {
                    failure_handled(mid, sup, texts(a.to_stop@), now, post, o)
                } else {
                    post == mid && o.failed_supervisors@.len() == 0
                }
            };
        strategy_keeps_shape(nodes, sup, id, exit, now, mid, a);
        same_shape_keeps_tree(nodes, mid, root, order);
        lemma_shape_carries(pre, nodes, mid);
        if a.supervisor_failed {
            lemma_same_links(nodes, mid, sup);
            lemma_failure(pre, sup, mid, texts(a.to_stop@), now, post, o, root, order);
            lemma_same_links(pre, nodes, id);
            lemma_same_links(pre, nodes, sup);
            assert(texts(a.to_stop@) == children(nodes, sup));
        }
    }
}

proof fn lemma_failure(
    pre: Nodes,
    sup: Seq<char>,
    mid: Nodes,
    stop: Seq<Seq<char>>,
    now: Instant,
    post: Nodes,
    o: ExitOutcome,
    root: Seq<char>,
    order: Seq<Seq<char>>,
)
    requires
        is_tree(mid, root, order),
        same_shape(pre, mid),
        has_supervisor(mid, sup),
        failure_handled(mid, sup, stop, now, post, o),
    ensures
        is_tree(post, root, order),
        texts(o.failed_supervisors@)[0] == sup,
        parent(pre, texts(o.failed_supervisors@).last()) == opt_text(o.escalated_to),
        match o.escalated_to {
            Some(_) => texts(o.action.to_start@).contains(texts(o.failed_supervisors@).last()),
            None => texts(o.failed_supervisors@).last() == root && o.action.to_start@.len() == 0,
        },
{
    let path = texts(o.failed_supervisors@);
    failure_climbs_to_one_with_room(
        mid,
        path,
        opt_text(o.escalated_to),
        now,
        post,
        texts(o.action.to_stop@).skip(stop.len() as int),
        texts(o.action.to_start@),
        root,
        order,
    );
    lemma_same_links(pre, mid, path.last());
}

/// What a readiness check of a service does to startup, and whether the wait
/// for the service is over.
pub open spec fn readiness_applied(
    g: DependencyGraph,
    pre: FrontierState,
    name: Seq<char>,
    result: ReadinessResult,
    post: FrontierState,
    r: bool,
) -> bool {
    &&& r == !(result is NotReady)
    &&& match result {
            ReadinessResult::Ready => ready_step(
                g,
                pre,
                name,
                post,
            ),
            ReadinessResult::NotReady => post == pre,
            _ => failed_step(g, pre, name, post),
        }
}

/// Acts on a readiness check of a pending service during startup, and says
/// whether the wait for it is over.
pub fn apply_readiness(
    frontier: &mut StartupFrontier,
    graph: &DependencyGraph,
    name: &str,
    result: &ReadinessResult,
) -> (r: bool)
    requires
        old(frontier).wf(*graph),
    ensures
        final(frontier).wf(*graph),
        readiness_applied(*graph, old(frontier)@, name@, *result, final(frontier)@, r),
{
    match result {
        ReadinessResult::Ready => {
            frontier.mark_ready(name, graph);
            true
        },
        ReadinessResult::NotReady => false,
        _ => {
            frontier.mark_failed(name, graph);
            true
        },
    }
}

/// Whether startup is over.
pub open spec fn is_startup_over(
    v: FrontierState,
    waiting: usize,
    r: bool,
) -> bool {
    r == (v.queue.len() == 0 && waiting == 0)
}

/// Whether startup is over: nothing can start, and nothing is waited for.
pub fn startup_over(frontier: &StartupFrontier, waiting: usize) -> (r: bool)
    ensures
        is_startup_over(frontier@, waiting, r),
{
    !frontier.has_ready() && waiting == 0
}

/// A worker that was started runs as its process, and is found by it. One that
/// could not be started has failed. The cgroup is joined just where there are
/// cgroups, one was made and there is a process, and it is removed where there
/// are cgroups and no process. No other node changes.
pub proof fn started_worker_runs(
    pre: SupervisorTree,
    post: SupervisorTree,
    id: Seq<char>,
    spawned: Option<i32>,
    hierarchy: bool,
    cgroup_made: bool,
    r: StartFollowUp,
    x: Seq<char>,
    p: i32,
)
    requires
        start_noted(pre, post, id, spawned, hierarchy, cgroup_made, r),
        has_worker(pre.nodes(), id),
    ensures
        has_worker(post.nodes(), id),
        spawned matches Some(pid) ==> {
            &&& worker(post.nodes(), id).pid == Some(pid)
            &&& worker(post.nodes(), id).state is Running
            &&& post.pids().contains_key(pid)
            &&& post.pids()[pid]@ == id
            &&& r == StartFollowUp::JoinCgroup { pid } <==> hierarchy && cgroup_made
            &&& r is Nothing <==> !(hierarchy && cgroup_made)
        },
        spawned is None ==> {
            &&& worker(post.nodes(), id).state is Failed
            &&& worker(post.nodes(), id).pid == worker(pre.nodes(), id).pid
            &&& post.pids() == pre.pids()
            &&& r is RemoveCgroup <==> hierarchy
            &&& r is Nothing <==> !hierarchy
        },
        worker(post.nodes(), id).def == worker(pre.nodes(), id).def,
        worker(post.nodes(), id).restart_policy == worker(pre.nodes(), id).restart_policy,
        x != id ==> post.nodes().contains_key(x) == pre.nodes().contains_key(x) && post.nodes()[x]
            == pre.nodes()[x],
        spawned != Some(p) && pre.pids().contains_key(p) ==> post.pids().contains_key(p)
            && post.pids()[p] == pre.pids()[p],
{
}

/// A worker with a process is told to stop, and that process is the one to
/// signal; it is stopping then. Where there is none, nobody is signalled and
/// nothing changes.
pub proof fn stopped_worker_is_signalled(
    pre: SupervisorTree,
    post: SupervisorTree,
    id: Seq<char>,
    r: Option<i32>,
    x: Seq<char>,
)
    requires
        stop_noted(pre, post, id, r),
    ensures
        has_worker(pre.nodes(), id) ==> r == worker(pre.nodes(), id).pid,
        !has_worker(pre.nodes(), id) ==> r is None,
        r is None ==> post.nodes() == pre.nodes(),
        r is Some ==> has_worker(post.nodes(), id) && worker(post.nodes(), id).state is Stopping
            && worker(post.nodes(), id).pid == r,
        x != id ==> post.nodes().contains_key(x) == pre.nodes().contains_key(x) && post.nodes()[x]
            == pre.nodes()[x],
{
}

proof fn lemma_signalled_was_listed(nodes: Nodes, ids: Seq<Seq<char>>, p: i32)
    requires
        pids_to_signal(nodes, ids).contains(p),
    ensures
        exists|i: int|
            0 <= i < ids.len() && has_worker(nodes, #[trigger] ids[i]) && worker(nodes, ids[i]).pid
                == Some(p) && (worker(nodes, ids[i]).state is Running || worker(
                nodes,
                ids[i],
            ).state is Starting || worker(nodes, ids[i]).state is Abandoned),
    decreases ids.len(),
{
    if ids.len() > 0 {
        let front = ids.drop_last();
        let rest = pids_to_signal(nodes, front);
        let v = pids_to_signal(nodes, ids);
        let k = choose|k: int| 0 <= k < v.len() && v[k] == p;
        if k < rest.len() {
            assert(rest[k] == p);
            assert(rest.contains(p));
            lemma_signalled_was_listed(nodes, front, p);
            let i = choose|i: int|
                0 <= i < front.len() && has_worker(nodes, #[trigger] front[i]) && worker(
                    nodes,
                    front[i],
                ).pid == Some(p) && (worker(nodes, front[i]).state is Running || worker(
                    nodes,
                    front[i],
                ).state is Starting || worker(nodes, front[i]).state is Abandoned);
            assert(ids[i] == front[i]);
        } else {
            lemma_stops_alone(nodes, front, ids.last());
            assert(ids[ids.len() - 1] == ids.last());
        }
    }
}

proof fn lemma_stops_alone(nodes: Nodes, ids: Seq<Seq<char>>, x: Seq<char>)
    ensures
        after_stops(nodes, ids).contains_key(x) == nodes.contains_key(x),
        !has_worker(nodes, x) ==> after_stops(nodes, ids)[x] == nodes[x],
        has_worker(nodes, x) ==> has_worker(after_stops(nodes, ids), x) && worker(
            after_stops(nodes, ids),
            x,
        ) == (WorkerNode {
            state: if ids.contains(x) && worker(nodes, x).pid is Some && (worker(nodes, x).state
                is Running || worker(nodes, x).state is Starting) {
                ServiceState::Stopping { deadline: None }
            } else {
                worker(nodes, x).state
            },
            ..worker(nodes, x)
        }),
    decreases ids.len(),
{
    if ids.len() > 0 {
        let front = ids.drop_last();
        lemma_stops_alone(nodes, front, x);
        lemma_stops_alone(nodes, front, ids.last());
        if ids.contains(x) && ids.last() != x {
            let i = choose|i: int| 0 <= i < ids.len() && ids[i] == x;
            assert(front[i] == x);
        }
        if front.contains(x) {
            let i = choose|i: int| 0 <= i < front.len() && front[i] == x;
            assert(ids[i] == x);
        }
        if ids.last() == x {
            assert(ids[ids.len() - 1] == x);
        }
    }
}

/// Where nodes are to be stopped, each worker behind them that runs or starts
/// and has a process is told to, and signalled. Workers that were given up on
/// are signalled too. Nobody else is signalled, and no other node changes.
pub proof fn stopped_nodes_are_signalled(
    pre: SupervisorTree,
    post: SupervisorTree,
    ids: Seq<Seq<char>>,
    r: Seq<i32>,
    x: Seq<char>,
    p: i32,
)
    requires
        stops_noted(pre, post, ids, r),
    ensures
        ({
            let behind = workers_backwards(pre.nodes(), ids, pre.order().len());
            let w = worker(pre.nodes(), x);
            let there = has_worker(pre.nodes(), x) && behind.contains(x) && w.pid is Some;
            let up = there && (w.state is Running || w.state is Starting);
            &&& up || (there && w.state is Abandoned) ==> r.contains(w.pid->0)
            &&& up ==> has_worker(post.nodes(), x) && worker(post.nodes(), x) == (WorkerNode {
                state: ServiceState::Stopping { deadline: None },
                ..w
            })
            &&& !up ==> post.nodes().contains_key(x) == pre.nodes().contains_key(x)
                && post.nodes()[x] == pre.nodes()[x]
            &&& r.contains(p) ==> exists|i: int|
                0 <= i < behind.len() && has_worker(pre.nodes(), #[trigger] behind[i]) && worker(
                    pre.nodes(),
                    behind[i],
                ).pid == Some(p)
        }),
{
    let behind = workers_backwards(pre.nodes(), ids, pre.order().len());
    lemma_stops_alone(pre.nodes(), behind, x);
    if has_worker(pre.nodes(), x) && behind.contains(x) && worker(pre.nodes(), x).pid is Some {
        let s = worker(pre.nodes(), x).state;
        if s is Running || s is Starting || s is Abandoned {
            lemma_signalled(pre.nodes(), behind, x);
        }
    }
    if r.contains(p) {
        lemma_signalled_was_listed(pre.nodes(), behind, p);
    }
}

/// A service is started again after the seconds that its delay reads as; after
/// one where the delay is no duration.
pub proof fn restart_waits_for_the_delay(nodes: Nodes, id: Seq<char>, r: Option<u64>, n: nat)
    requires
        waits_before(nodes, id, r),
    ensures
        r is Some <==> has_worker(nodes, id),
        r is Some && worker(nodes, id).def.restart.delay@ == dec(n).push('s') && n <= u64::MAX
            ==> r->0 == n,
        r is Some && worker(nodes, id).def.restart.delay@ == dec(n).push('m') && n <= u64::MAX
            ==> r->0 == 60 * n,
        r is Some && duration_secs(worker(nodes, id).def.restart.delay@) is None ==> r->0 == 1,
{
    if n <= u64::MAX {
        let e = Seq::<char>::empty();
        duration_goes_by_its_unit(e, n, e);
        assert(e + dec(n).push('s') + e =~= dec(n).push('s'));
        assert(e + dec(n).push('m') + e =~= dec(n).push('m'));
    }
}

proof fn lemma_worker_stays(
    states: Seq<SupervisorTree>,
    results: Seq<Result<(), TreeError>>,
    supervisors: Seq<SupervisorDef>,
    services: Seq<ServiceDef>,
    i: int,
    j: int,
    x: Seq<char>,
)
    requires
        built_by(states, results, supervisors, services),
        0 <= i <= j < states.len(),
        has_worker(states[i].nodes(), x),
    ensures
        has_worker(states[j].nodes(), x),
        worker(states[j].nodes(), x) == worker(states[i].nodes(), x),
    decreases j,
{
    if i < j {
        let k = j - 1;
        lemma_worker_stays(states, results, supervisors, services, i, k, x);
        lemma_one_link(states, results, supervisors, services, k, x);
    }
}

proof fn lemma_supervisor_stays(
    states: Seq<SupervisorTree>,
    results: Seq<Result<(), TreeError>>,
    supervisors: Seq<SupervisorDef>,
    services: Seq<ServiceDef>,
    i: int,
    j: int,
    x: Seq<char>,
)
    requires
        built_by(states, results, supervisors, services),
        0 <= i <= j < states.len(),
        has_supervisor(states[i].nodes(), x),
        x != "root"@,
    ensures
        has_supervisor(states[j].nodes(), x),
        supervisor(states[j].nodes(), x).strategy == supervisor(states[i].nodes(), x).strategy,
        supervisor(states[j].nodes(), x).intensity == supervisor(states[i].nodes(), x).intensity,
        parent(states[j].nodes(), x) == parent(states[i].nodes(), x),
    decreases j,
{
    if i < j {
        let k = j - 1;
        lemma_supervisor_stays(states, results, supervisors, services, i, k, x);
        lemma_one_link(states, results, supervisors, services, k, x);
    }
}

proof fn lemma_one_link(
    states: Seq<SupervisorTree>,
    results: Seq<Result<(), TreeError>>,
    supervisors: Seq<SupervisorDef>,
    services: Seq<ServiceDef>,
    k: int,
    x: Seq<char>,
)
    requires
        built_by(states, results, supervisors, services),
        0 <= k < states.len() - 1,
    ensures
        has_worker(states[k].nodes(), x) ==> has_worker(states[k + 1].nodes(), x) && worker(
            states[k + 1].nodes(),
            x,
        ) == worker(states[k].nodes(), x),
        has_supervisor(states[k].nodes(), x) && x != "root"@ ==> has_supervisor(
            states[k + 1].nodes(),
            x,
        ) && supervisor(states[k + 1].nodes(), x).strategy == supervisor(
            states[k].nodes(),
            x,
        ).strategy && supervisor(states[k + 1].nodes(), x).intensity == supervisor(
            states[k].nodes(),
            x,
        ).intensity && parent(states[k + 1].nodes(), x) == parent(states[k].nodes(), x),
{
    let n = supervisors.len() as int;
    let pre = states[k];
    let post = states[k + 1];
    if k < n {
        assert(supervisor_link(states, results, supervisors, k));
        if supervisors[k].supervisor.name@ == "root"@ {
            assert(root_defined(pre, post, supervisors[k]));
        }
    } else {
        assert(service_link(states, results, services, n, k - n));
    }
}

/// Each service that could be added stands in the tree under the supervisor
/// that its definition names, or under the root where there is none of that
/// name, and holds its definition and its restart policy.
pub proof fn services_stand_where_they_were_put(
    states: Seq<SupervisorTree>,
    results: Seq<Result<(), TreeError>>,
    supervisors: Seq<SupervisorDef>,
    services: Seq<ServiceDef>,
    i: int,
)
    requires
        built_by(states, results, supervisors, services),
        0 <= i < services.len(),
        results[supervisors.len() + i] is Ok,
    ensures
        ({
            let name = services[i].service.name@;
            let last = states.last().nodes();
            let w = worker(last, name);
            &&& has_worker(last, name)
            &&& w.def == services[i]
            &&& w.restart_policy == services[i].restart.policy
            &&& w.state is Stopped
            &&& w.pid is None
            &&& w.parent@ == services[i].service.supervisor@ || (w.parent@ == "root"@
                && !states[supervisors.len() + i].nodes().contains_key(
                services[i].service.supervisor@,
            ))
        }),
{
    let n = supervisors.len() as int;
    let name = services[i].service.name@;
    assert(service_link(states, results, services, n, i));
    let last: int = states.len() - 1;
    lemma_worker_stays(states, results, supervisors, services, n + i + 1, last, name);
}

/// Each supervisor that could be added stands in the tree under the parent that
/// its definition names, or under the root where it names none. It has the
/// strategy and the limit of its definition, counted over the window that it
/// gives; over 300 seconds where that is no duration.
pub proof fn supervisors_stand_where_they_were_put(
    states: Seq<SupervisorTree>,
    results: Seq<Result<(), TreeError>>,
    supervisors: Seq<SupervisorDef>,
    services: Seq<ServiceDef>,
    i: int,
)
    requires
        built_by(states, results, supervisors, services),
        0 <= i < supervisors.len(),
        results[i] is Ok,
        supervisors[i].supervisor.name@ != "root"@,
    ensures
        ({
            let def = supervisors[i];
            let name = def.supervisor.name@;
            let last = states.last().nodes();
            let s = supervisor(last, name);
            &&& has_supervisor(last, name)
            &&& s.strategy == def.supervisor.strategy
            &&& s.intensity.limit() == def.restart.max_restarts
            &&& s.intensity.times().len() == 0
            &&& duration_secs(def.restart.max_restart_window@) matches Some(n)
                ==> s.intensity.span().total() == n * 1_000_000_000
            &&& duration_secs(def.restart.max_restart_window@) is None
                ==> s.intensity.span().total() == 300_000_000_000
            &&& def.supervisor.parent matches Some(p) ==> parent(last, name) == Some(p@)
            &&& def.supervisor.parent is None ==> parent(last, name) == Some("root"@)
        }),
{
    let name = supervisors[i].supervisor.name@;
    assert(supervisor_link(states, results, supervisors, i));
    let last: int = states.len() - 1;
    lemma_supervisor_stays(states, results, supervisors, services, i + 1, last, name);
}

/// The root has one for one as its strategy and bears 20 restarts in 600
/// seconds, until a definition of the root says otherwise.
pub proof fn root_is_as_usual_or_as_defined(
    pre: SupervisorTree,
    post: SupervisorTree,
    def: SupervisorDef,
    r: Result<(), TreeError>,
)
    requires
        def.supervisor.name@ == "root"@,
        has_supervisor(pre.nodes(), "root"@),
        supervisor_step(pre, post, def, r),
    ensures
        r is Ok,
        has_supervisor(post.nodes(), "root"@),
        bare_root(pre) ==> {
            let s = supervisor(pre.nodes(), "root"@);
            &&& s.strategy is OneForOne
            &&& s.intensity.limit() == 20
            &&& s.intensity.span().total() == 600_000_000_000
        },
        ({
            let s = supervisor(post.nodes(), "root"@);
            &&& s.strategy == def.supervisor.strategy
            &&& s.intensity.limit() == def.restart.max_restarts
            &&& s.children == supervisor(pre.nodes(), "root"@).children
            &&& duration_secs(def.restart.max_restart_window@) matches Some(n)
                ==> s.intensity.span().total() == n * 1_000_000_000
            &&& duration_secs(def.restart.max_restart_window@) is None
                ==> s.intensity.span().total() == 600_000_000_000
        }),
{
}

/// The end of a process is noted for the worker that it was registered for: the
/// process is then known no longer, the cgroup of the worker is watched no
/// longer, and the others are. A process that is not known changes nothing.
pub proof fn ended_process_is_forgotten(
    pre: SupervisorTree,
    post: SupervisorTree,
    watched: CgroupMonitor,
    left: CgroupMonitor,
    pid: i32,
    exit_info: ExitInfo,
    now: Instant,
    r: Option<ExitOutcome>,
    p: i32,
    k: Seq<char>,
)
    requires
        child_exit_noted(pre, post, watched, left, pid, exit_info, now, r),
    ensures
        r is Some <==> pre.pids().contains_key(pid),
        !post.pids().contains_key(pid),
        p != pid ==> post.pids().contains_key(p) == pre.pids().contains_key(p),
        p != pid && pre.pids().contains_key(p) ==> post.pids()[p] == pre.pids()[p],
        r is None ==> post.nodes() == pre.nodes() && left == watched,
        r matches Some(o) ==> {
            &&& o.worker_id@ == pre.pids()[pid]@
            &&& !left.watches().contains_key(o.worker_id@)
            &&& k != o.worker_id@ ==> left.watches().contains_key(k)
                == watched.watches().contains_key(k)
            &&& k != o.worker_id@ && watched.watches().contains_key(k) ==> left.watches()[k]
                == watched.watches()[k]
        },
{
}

/// A service that is ready is marked so, one that is not yet is waited for, and
/// one whose time is over or whose check failed is marked as failed. The wait is
/// over for all but the second.
pub proof fn readiness_moves_startup_on(
    g: DependencyGraph,
    pre: FrontierState,
    name: Seq<char>,
    result: ReadinessResult,
    post: FrontierState,
    r: bool,
)
    requires
        readiness_applied(g, pre, name, result, post, r),
    ensures
        result is Ready ==> r && post.ready.contains(name) && post.completed.contains(name),
        result is NotReady ==> !r && post == pre,
        result is TimedOut || result is Failed ==> r && post.completed.contains(name)
            && post.ready == pre.ready,
        r ==> !post.pending.contains(name),
{
}

/// Startup is over just where nothing can start and nothing is waited for.
pub proof fn startup_ends_when_nothing_is_left(v: FrontierState, waiting: usize, r: bool)
    requires
        is_startup_over(v, waiting, r),
    ensures
        waiting > 0 ==> !r,
        v.queue.len() > 0 ==> !r,
        waiting == 0 && v.queue.len() == 0 ==> r,
{
}

} // verus!
