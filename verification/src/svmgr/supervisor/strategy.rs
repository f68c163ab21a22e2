//! Restart strategies.
//!
//! When a child exits, the strategy of its supervisor says which children
//! are restarted:
//! - one for one: the child alone
//! - one for all: all children
//! - rest for one: the child and those that start after it

use crate::names::position;
use crate::svmgr::config::service::RestartPolicy;
use crate::svmgr::config::supervisor::RestartStrategy;
use crate::svmgr::supervisor::lifecycle::{ExitInfo, ServiceState};
use crate::svmgr::supervisor::tree::{
    changes_keep_intact, children, has_supervisor, has_worker, node_alike, parent, same_shape,
    supervisor, worker, NodeId, Nodes, SupervisorNode, SupervisorTree, TreeNode, WorkerNode,
};
use crate::text::{clone_strings, owned, texts};
use crate::time::Instant;
use vstd::prelude::*;

verus! {

/// What is to be done after a child exited.
#[derive(Debug, Clone)]
pub struct StrategyAction {
    /// The children to stop, in this order.
    pub to_stop: Vec<NodeId>,
    /// The children to start, in this order.
    pub to_start: Vec<NodeId>,
    /// Whether the supervisor gave up.
    pub supervisor_failed: bool,
}

impl StrategyAction {
    /// Whether the action is to stop `stop`, then to start `start`.
    pub open spec fn is(self, stop: Seq<Seq<char>>, start: Seq<Seq<char>>, failed: bool) -> bool {
        &&& texts(self.to_stop@) == stop
        &&& texts(self.to_start@) == start
        &&& self.supervisor_failed == failed
    }
}

/// Whether a child with this policy is restarted after this exit.
pub open spec fn restart_wanted(policy: RestartPolicy, exit: ExitInfo) -> bool {
    match policy {
        RestartPolicy::Permanent => true,
        RestartPolicy::Transient => !exit.normal(),
        RestartPolicy::Temporary => false,
    }
}

/// Whether a child with this policy is restarted after this exit.
pub fn should_restart(policy: &RestartPolicy, exit: &ExitInfo) -> (r: bool)
    ensures
        r == restart_wanted(*policy, *exit),
{
    match policy {
        RestartPolicy::Permanent => true,
        RestartPolicy::Transient => !exit.is_normal(),
        RestartPolicy::Temporary => false,
    }
}

/// The state of a worker that exited and is not restarted.
pub open spec fn ended(exit: ExitInfo) -> ServiceState {
    if exit.normal() {
        ServiceState::Stopped
    } else {
        ServiceState::Failed { exit_code: exit.exit_code, signal: exit.signal }
    }
}

/// The nodes after the state of the worker `id`, where it is one, changed.
pub open spec fn with_state(nodes: Nodes, id: Seq<char>, state: ServiceState) -> Nodes {
    if has_worker(nodes, id) {
        nodes.insert(id, TreeNode::Worker(WorkerNode { state, ..worker(nodes, id) }))
    } else {
        nodes
    }
}

/// Whether `post` is `pre` after the supervisor `id` noted a restart.
pub open spec fn restart_noted(pre: Nodes, post: Nodes, id: Seq<char>, now: Instant) -> bool {
    &&& post.dom() == pre.dom()
    &&& forall|k: Seq<char>| pre.contains_key(k) && k != id ==> #[trigger] post[k] == pre[k]
    &&& has_supervisor(post, id)
    &&& supervisor(pre, id).intensity.recorded(now, supervisor(post, id).intensity)
    &&& supervisor(post, id) == (SupervisorNode {
        intensity: supervisor(post, id).intensity,
        ..supervisor(pre, id)
    })
}

/// The nodes after the workers among `ids` were given up.
pub open spec fn given_up(nodes: Nodes, ids: Seq<Seq<char>>) -> Nodes
    decreases ids.len(),
{
    if ids.len() == 0 {
        nodes
    } else {
        with_state(given_up(nodes, ids.drop_last()), ids.last(), ServiceState::Abandoned)
    }
}

/// The children from the failed one on; all of them, where it is none of
/// them.
pub open spec fn rest_from(all: Seq<Seq<char>>, failed: Seq<char>) -> Seq<Seq<char>> {
    if all.contains(failed) {
        all.skip(all.index_of_first(failed)->0)
    } else {
        all
    }
}

/// The children that a strategy restarts.
pub open spec fn restarted(
    strategy: RestartStrategy,
    all: Seq<Seq<char>>,
    failed: Seq<char>,
) -> Seq<Seq<char>> {
    match strategy {
        RestartStrategy::OneForOne => seq![failed],
        RestartStrategy::OneForAll => all,
        RestartStrategy::RestForOne => rest_from(all, failed),
    }
}

/// The children that a strategy stops first.
pub open spec fn stopped_first(
    strategy: RestartStrategy,
    all: Seq<Seq<char>>,
    failed: Seq<char>,
) -> Seq<Seq<char>> {
    match strategy {
        RestartStrategy::OneForOne => Seq::empty(),
        _ => restarted(strategy, all, failed).reverse(),
    }
}

/// Whether the nodes become `post`, and `action` is what is to be done, when
/// the supervisor `sup` restarts its child `failed`: it notes the restart, and
/// gives up where there were too many.
pub open spec fn restart_step(
    pre: Nodes,
    sup: Seq<char>,
    failed: Seq<char>,
    now: Instant,
    post: Nodes,
    action: StrategyAction,
) -> bool {
    let all = children(pre, sup);
    exists|mid: Nodes|
        {
            &&& #[trigger] restart_noted(pre, mid, sup, now)
            &&& if exhausted(mid, sup) {
                &&& post == given_up(mid, all)
                &&& action.is(all, Seq::empty(), true)
            } else {
                let strategy = supervisor(pre, sup).strategy;
                &&& post == mid
                &&& action.is(
                    stopped_first(strategy, all, failed),
                    restarted(strategy, all, failed),
                    false,
                )
            }
        }
}

/// Whether a supervisor has noted more restarts than it allows.
pub open spec fn exhausted(nodes: Nodes, sup: Seq<char>) -> bool {
    supervisor(nodes, sup).intensity.times().len() > supervisor(nodes, sup).intensity.limit()
}

/// Whether the nodes become `post`, and `action` is what is to be done, after
/// the child `failed` of `sup` exited.
pub open spec fn strategy_step(
    pre: Nodes,
    sup: Seq<char>,
    failed: Seq<char>,
    exit: ExitInfo,
    now: Instant,
    post: Nodes,
    action: StrategyAction,
) -> bool {
    if !has_supervisor(pre, sup) {
        &&& post == pre
        &&& action.is(Seq::empty(), Seq::empty(), false)
    } else if !(has_worker(pre, failed) && restart_wanted(
        worker(pre, failed).restart_policy,
        exit,
    )) {
        &&& post == with_state(pre, failed, ended(exit))
        &&& action.is(Seq::empty(), Seq::empty(), false)
    } else {
        restart_step(pre, sup, failed, now, post, action)
    }
}

/// Whether the nodes become `post`, and `action` is what is to be done, after
/// the failure of `failed` was handed on to `up`. A supervisor that gave up is
/// restarted as any child is, by the strategy of the one above; a worker goes
/// by its policy.
pub open spec fn escalation_step(
    pre: Nodes,
    up: Seq<char>,
    failed: Seq<char>,
    now: Instant,
    post: Nodes,
    action: StrategyAction,
) -> bool {
    if has_worker(pre, failed) || !has_supervisor(pre, up) {
        strategy_step(
            pre,
            up,
            failed,
            ExitInfo { exit_code: None, signal: None },
            now,
            post,
            action,
        )
    } else {
        restart_step(pre, up, failed, now, post, action)
    }
}

fn no_action() -> (r: StrategyAction)
    ensures
        r.is(Seq::empty(), Seq::empty(), false),
{
    let r = StrategyAction {
        to_stop: Vec::new(),
        to_start: Vec::new(),
        supervisor_failed: false,
    };
    assert(texts(r.to_stop@) =~= Seq::<Seq<char>>::empty());
    assert(texts(r.to_start@) =~= Seq::<Seq<char>>::empty());
    r
}

/// Sets the state of a worker, where it is one.
fn set_state(tree: &mut SupervisorTree, id: &str, state: ServiceState)
    requires
        old(tree).wf(),
    ensures
        final(tree).wf(),
        final(tree).root() == old(tree).root(),
        final(tree).order() == old(tree).order(),
        final(tree).pids() == old(tree).pids(),
        final(tree).nodes() == with_state(old(tree).nodes(), id@, state),
{
    if let Some(w) = tree.get_worker_mut(id) {
        w.state = state;
    }
}

/// Notes a restart of the child `failed_child_id`, and says what is to be done
/// for it.
fn restart(
    tree: &mut SupervisorTree,
    supervisor_id: &str,
    failed_child_id: &str,
    now: Instant,
) -> (r: StrategyAction)
    requires
        old(tree).wf(),
        has_supervisor(old(tree).nodes(), supervisor_id@),
    ensures
        final(tree).wf(),
        final(tree).root() == old(tree).root(),
        final(tree).order() == old(tree).order(),
        final(tree).pids() == old(tree).pids(),
        restart_step(
            old(tree).nodes(),
            supervisor_id@,
            failed_child_id@,
            now,
            final(tree).nodes(),
            r,
        ),
        old(tree).intact() ==> final(tree).intact(),
{
    let ghost before = *tree;
    let ghost pre = tree.nodes();
    let mut strategy = RestartStrategy::OneForOne;
    let mut all: Vec<NodeId> = Vec::new();
    let mut exceeded = false;
    if let Some(TreeNode::Supervisor(s)) = tree.get_mut(supervisor_id) {
        strategy = s.strategy;
        all = clone_strings(&s.children);
        exceeded = s.intensity.record_restart_at(now);
    }
    let ghost mid = tree.nodes();
    proof {
        assert(mid.dom() =~= pre.dom());
        assert(restart_noted(pre, mid, supervisor_id@, now));
    }
    let r = if exceeded {
        let ghost ids = texts(all@);
        let mut i: usize = 0;
        while i < all.len()
            invariant
                i <= all.len(),
                ids == texts(all@),
                tree.wf(),
                tree.root() == old(tree).root(),
                tree.order() == old(tree).order(),
                tree.pids() == old(tree).pids(),
                tree.nodes() == given_up(mid, ids.take(i as int)),
            decreases all.len() - i,
        {
            set_state(tree, all[i].as_str(), ServiceState::Abandoned);
            proof {
                assert(ids.take(i + 1).drop_last() =~= ids.take(i as int));
                assert(ids.take(i + 1).last() == all@[i as int]@);
            }
            i += 1;
        }
        assert(ids.take(ids.len() as int) =~= ids);
        let r = StrategyAction { to_stop: all, to_start: Vec::new(), supervisor_failed: true };
        assert(texts(r.to_start@) =~= Seq::<Seq<char>>::empty());
        r
    } else {
        match strategy {
            RestartStrategy::OneForOne => apply_one_for_one(failed_child_id),
            RestartStrategy::OneForAll => apply_one_for_all(&all, failed_child_id),
            RestartStrategy::RestForOne => apply_rest_for_one(&all, failed_child_id),
        }
    };
    proof {
        assert(restart_step(pre, supervisor_id@, failed_child_id@, now, tree.nodes(), r));
        restart_keeps_shape(pre, supervisor_id@, failed_child_id@, now, tree.nodes(), r);
        changes_keep_intact(before, *tree);
    }
    r
}

/// Says what is to be done after the child `failed_child_id` of
/// `supervisor_id` exited, and notes its new state or the restart.
pub fn apply_strategy(
    tree: &mut SupervisorTree,
    supervisor_id: &str,
    failed_child_id: &str,
    exit_info: &ExitInfo,
    now: Instant,
) -> (r: StrategyAction)
    requires
        old(tree).wf(),
    ensures
        final(tree).wf(),
        final(tree).root() == old(tree).root(),
        final(tree).order() == old(tree).order(),
        final(tree).pids() == old(tree).pids(),
        strategy_step(
            old(tree).nodes(),
            supervisor_id@,
            failed_child_id@,
            *exit_info,
            now,
            final(tree).nodes(),
            r,
        ),
        old(tree).intact() ==> final(tree).intact(),
{
    if tree.get_supervisor(supervisor_id).is_none() {
        return no_action();
    }
    let wanted = match tree.get_worker(failed_child_id) {
        Some(w) => should_restart(&w.restart_policy, exit_info),
        None => false,
    };
    if wanted {
        return restart(tree, supervisor_id, failed_child_id, now);
    }
    let ghost before = *tree;
    let state = if exit_info.is_normal() {
        ServiceState::Stopped
    } else {
        ServiceState::Failed { exit_code: exit_info.exit_code, signal: exit_info.signal }
    };
    set_state(tree, failed_child_id, state);
    proof {
        assert(tree.nodes().dom() =~= before.nodes().dom());
        changes_keep_intact(before, *tree);
    }
    no_action()
}

/// Restarts the failed child alone.
pub fn apply_one_for_one(failed_child_id: &str) -> (r: StrategyAction)
    ensures
        r.is(Seq::empty(), seq![failed_child_id@], false),
{
    let mut to_start: Vec<NodeId> = Vec::new();
    to_start.push(owned(failed_child_id));
    let r = StrategyAction { to_stop: Vec::new(), to_start, supervisor_failed: false };
    assert(texts(r.to_stop@) =~= Seq::<Seq<char>>::empty());
    assert(texts(r.to_start@) =~= seq![failed_child_id@]);
    r
}

/// The children from `from` on: stopped last to first, started first to last.
fn restart_from(all: &Vec<NodeId>, from: usize) -> (r: StrategyAction)
    requires
        from <= all.len(),
    ensures
        r.is(texts(all@).skip(from as int).reverse(), texts(all@).skip(from as int), false),
{
    let mut to_start: Vec<NodeId> = Vec::new();
    let mut i: usize = from;
    while i < all.len()
        invariant
            from <= i <= all.len(),
            to_start@ == all@.subrange(from as int, i as int),
        decreases all.len() - i,
    {
        to_start.push(all[i].clone());
        i += 1;
    }
    let mut to_stop: Vec<NodeId> = Vec::new();
    let mut j: usize = to_start.len();
    while j > 0
        invariant
            j <= to_start.len(),
            to_stop@.len() == to_start@.len() - j,
            forall|k: int|
                0 <= k < to_stop@.len() ==> #[trigger] to_stop@[k] == to_start@[to_start@.len() - 1 - k],
        decreases j,
    {
        j -= 1;
        to_stop.push(to_start[j].clone());
    }
    let r = StrategyAction { to_stop, to_start, supervisor_failed: false };
    proof {
        let rest = texts(all@).skip(from as int);
        assert(texts(r.to_start@) =~= rest);
        assert(texts(r.to_stop@) =~= rest.reverse());
    }
    r
}

/// Restarts all children.
pub fn apply_one_for_all(all: &Vec<NodeId>, failed_child_id: &str) -> (r: StrategyAction)
    ensures
        r.is(texts(all@).reverse(), texts(all@), false),
{
    assert(texts(all@).skip(0) =~= texts(all@));
    restart_from(all, 0)
}

/// Restarts the failed child and those that start after it.
pub fn apply_rest_for_one(all: &Vec<NodeId>, failed_child_id: &str) -> (r: StrategyAction)
    ensures
        r.is(
            rest_from(texts(all@), failed_child_id@).reverse(),
            rest_from(texts(all@), failed_child_id@),
            false,
        ),
{
    let at = position(all, failed_child_id);
    let ghost ids = texts(all@);
    if at < all.len() {
        proof {
            ids.index_of_first_ensures(failed_child_id@);
            let first = ids.index_of_first(failed_child_id@)->0;
            assert(ids[at as int] == failed_child_id@);
            if first < at {
                assert(all@[first]@ != failed_child_id@);
            }
            assert(first == at);
        }
        restart_from(all, at)
    } else {
        assert(ids.skip(0) =~= ids);
        restart_from(all, 0)
    }
}

/// Hands the failure of a supervisor on to the one above it, whose strategy
/// says what is to be done. The root has none above it.
pub fn escalate_failure(
    tree: &mut SupervisorTree,
    failed_supervisor_id: &str,
    now: Instant,
) -> (r: Option<(NodeId, StrategyAction)>)
    requires
        old(tree).wf(),
    ensures
        final(tree).wf(),
        final(tree).root() == old(tree).root(),
        final(tree).order() == old(tree).order(),
        final(tree).pids() == old(tree).pids(),
        r is Some <==> parent(old(tree).nodes(), failed_supervisor_id@) is Some,
        match r {
            None => final(tree).nodes() == old(tree).nodes(),
            Some((up, action)) => {
                &&& parent(old(tree).nodes(), failed_supervisor_id@) == Some(up@)
                &&& escalation_step(
                    old(tree).nodes(),
                    up@,
                    failed_supervisor_id@,
                    now,
                    final(tree).nodes(),
                    action,
                )
            },
        },
        old(tree).intact() ==> final(tree).intact(),
{
    let up = match tree.parent_of(failed_supervisor_id) {
        Some(p) => owned(p),
        None => {
            return None;
        },
    };
    let by_policy = tree.get_worker(failed_supervisor_id).is_some() || tree.get_supervisor(
        up.as_str(),
    ).is_none();
    let action = if by_policy {
        let exit_info = ExitInfo { exit_code: None, signal: None };
        apply_strategy(tree, up.as_str(), failed_supervisor_id, &exit_info, now)
    } else {
        restart(tree, up.as_str(), failed_supervisor_id, now)
    };
    Some((up, action))
}

proof fn lemma_given_up_shape(nodes: Nodes, ids: Seq<Seq<char>>)
    ensures
        same_shape(nodes, given_up(nodes, ids)),
    decreases ids.len(),
{
    if ids.len() > 0 {
        let before = given_up(nodes, ids.drop_last());
        lemma_given_up_shape(nodes, ids.drop_last());
        let after = given_up(nodes, ids);
        assert(after.dom() =~= before.dom());
        assert forall|k: Seq<char>| #[trigger] nodes.contains_key(k) implies node_alike(
            nodes[k],
            after[k],
        ) by {
            assert(node_alike(nodes[k], before[k]));
        }
    }
}

/// Whatever a restart notes, the tree keeps its shape.
pub proof fn restart_keeps_shape(
    pre: Nodes,
    sup: Seq<char>,
    failed: Seq<char>,
    now: Instant,
    post: Nodes,
    action: StrategyAction,
)
    requires
        has_supervisor(pre, sup),
        restart_step(pre, sup, failed, now, post, action),
    ensures
        same_shape(pre, post),
{
    let all = children(pre, sup);
    let mid = choose|mid: Nodes|
        {
            &&& #[trigger] restart_noted(pre, mid, sup, now)
            &&& post == given_up(mid, all) || post == mid
        };
    assert(same_shape(pre, mid)) by {
        assert forall|k: Seq<char>| #[trigger] pre.contains_key(k) implies node_alike(
            pre[k],
            mid[k],
        ) by {
            if k != sup {
                assert(mid[k] == pre[k]);
            }
        }
    }
    lemma_given_up_shape(mid, all);
    assert forall|k: Seq<char>| #[trigger] pre.contains_key(k) implies node_alike(
        pre[k],
        post[k],
    ) by {
        assert(mid.contains_key(k));
        assert(node_alike(pre[k], mid[k]));
        assert(node_alike(mid[k], given_up(mid, all)[k]));
    }
}

/// Whatever a strategy notes, the tree keeps its shape.
pub proof fn strategy_keeps_shape(
    pre: Nodes,
    sup: Seq<char>,
    failed: Seq<char>,
    exit: ExitInfo,
    now: Instant,
    post: Nodes,
    action: StrategyAction,
)
    requires
        strategy_step(pre, sup, failed, exit, now, post, action),
    ensures
        same_shape(pre, post),
{
    if has_supervisor(pre, sup) {
        if has_worker(pre, failed) && restart_wanted(worker(pre, failed).restart_policy, exit) {
            restart_keeps_shape(pre, sup, failed, now, post, action);
        } else {
            assert(post.dom() =~= pre.dom());
        }
    }
}

/// Whatever a failure that was handed on notes, the tree keeps its shape.
pub proof fn escalation_keeps_shape(
    pre: Nodes,
    up: Seq<char>,
    failed: Seq<char>,
    now: Instant,
    post: Nodes,
    action: StrategyAction,
)
    requires
        escalation_step(pre, up, failed, now, post, action),
    ensures
        same_shape(pre, post),
{
    if has_worker(pre, failed) || !has_supervisor(pre, up) {
        let exit = ExitInfo { exit_code: None, signal: None };
        strategy_keeps_shape(pre, up, failed, exit, now, post, action);
    } else {
        restart_keeps_shape(pre, up, failed, now, post, action);
    }
}

/// A supervisor that gave up is started again by the one above it, unless
/// that one gives up too.
pub proof fn failed_supervisor_is_restarted(
    pre: Nodes,
    up: Seq<char>,
    failed: Seq<char>,
    now: Instant,
    post: Nodes,
    action: StrategyAction,
)
    requires
        has_supervisor(pre, up),
        has_supervisor(pre, failed),
        children(pre, up).contains(failed),
        escalation_step(pre, up, failed, now, post, action),
    ensures
        action.supervisor_failed || texts(action.to_start@).contains(failed),
        restart_step(pre, up, failed, now, post, action),
{
    if !action.supervisor_failed {
        let all = children(pre, up);
        let strategy = supervisor(pre, up).strategy;
        assert(texts(action.to_start@) == restarted(strategy, all, failed));
        match strategy {
            RestartStrategy::OneForOne => {
                assert(texts(action.to_start@)[0] == failed);
            },
            RestartStrategy::OneForAll => {},
            RestartStrategy::RestForOne => {
                all.index_of_first_ensures(failed);
                assert(rest_from(all, failed)[0] == failed);
            },
        }
    }
}

/// A child that is not restarted leads to no action at all.
pub proof fn no_restart_no_action(
    pre: Nodes,
    sup: Seq<char>,
    failed: Seq<char>,
    exit: ExitInfo,
    now: Instant,
    post: Nodes,
    action: StrategyAction,
)
    requires
        strategy_step(pre, sup, failed, exit, now, post, action),
        has_worker(pre, failed),
        worker(pre, failed).restart_policy is Temporary || (worker(pre, failed).restart_policy
            is Transient && exit.normal()),
    ensures
        action.is(Seq::empty(), Seq::empty(), false),
{
}

/// What is stopped for a restart is started again, in the opposite order,
/// unless the child alone is restarted or the supervisor gives up.
pub proof fn restart_reverses_stop_order(
    pre: Nodes,
    sup: Seq<char>,
    failed: Seq<char>,
    exit: ExitInfo,
    now: Instant,
    post: Nodes,
    action: StrategyAction,
)
    requires
        strategy_step(pre, sup, failed, exit, now, post, action),
        !action.supervisor_failed,
        action.to_stop@.len() > 0,
    ensures
        texts(action.to_stop@) == texts(action.to_start@).reverse(),
{
    assert(texts(action.to_stop@).len() > 0);
}

/// A supervisor that gives up starts nothing, stops all its children, and
/// leaves each worker among them abandoned.
pub proof fn giving_up_abandons_children(
    pre: Nodes,
    sup: Seq<char>,
    failed: Seq<char>,
    exit: ExitInfo,
    now: Instant,
    post: Nodes,
    action: StrategyAction,
    i: int,
)
    requires
        strategy_step(pre, sup, failed, exit, now, post, action),
        action.supervisor_failed,
        0 <= i < children(pre, sup).len(),
        has_worker(pre, children(pre, sup)[i]),
    ensures
        texts(action.to_stop@) == children(pre, sup),
        action.to_start@.len() == 0,
        has_worker(post, children(pre, sup)[i]),
        worker(post, children(pre, sup)[i]).state is Abandoned,
{
    lemma_giving_up(pre, sup, failed, now, post, action, i);
}

/// A supervisor that gives up over the failure of one below it starts nothing,
/// stops all its children, and leaves each worker among them abandoned.
pub proof fn giving_up_above_abandons_children(
    pre: Nodes,
    up: Seq<char>,
    failed: Seq<char>,
    now: Instant,
    post: Nodes,
    action: StrategyAction,
    i: int,
)
    requires
        escalation_step(pre, up, failed, now, post, action),
        action.supervisor_failed,
        0 <= i < children(pre, up).len(),
        has_worker(pre, children(pre, up)[i]),
    ensures
        texts(action.to_stop@) == children(pre, up),
        action.to_start@.len() == 0,
        has_worker(post, children(pre, up)[i]),
        worker(post, children(pre, up)[i]).state is Abandoned,
{
    lemma_giving_up(pre, up, failed, now, post, action, i);
}

proof fn lemma_giving_up(
    pre: Nodes,
    sup: Seq<char>,
    failed: Seq<char>,
    now: Instant,
    post: Nodes,
    action: StrategyAction,
    i: int,
)
    requires
        restart_step(pre, sup, failed, now, post, action),
        action.supervisor_failed,
        0 <= i < children(pre, sup).len(),
        has_worker(pre, children(pre, sup)[i]),
    ensures
        texts(action.to_stop@) == children(pre, sup),
        action.to_start@.len() == 0,
        has_worker(post, children(pre, sup)[i]),
        worker(post, children(pre, sup)[i]).state is Abandoned,
{
    let all = children(pre, sup);
    let mid = choose|mid: Nodes|
        #[trigger] restart_noted(pre, mid, sup, now) && post == given_up(mid, all) && action.is(
            all,
            Seq::empty(),
            true,
        );
    assert(texts(action.to_start@).len() == 0);
    assert(mid[all[i]] == pre[all[i]]);
    lemma_given_up(mid, all, i);
}

/// Handing on the failure of a supervisor brings back no worker that was given
/// up on.
pub proof fn escalation_keeps_abandoned(
    pre: Nodes,
    up: Seq<char>,
    failed: Seq<char>,
    now: Instant,
    post: Nodes,
    action: StrategyAction,
    x: Seq<char>,
)
    requires
        escalation_step(pre, up, failed, now, post, action),
        has_supervisor(pre, up),
        has_supervisor(pre, failed),
        has_worker(pre, x),
        worker(pre, x).state is Abandoned,
    ensures
        has_worker(post, x),
        worker(post, x).state is Abandoned,
{
    let all = children(pre, up);
    let mid = choose|mid: Nodes|
        #[trigger] restart_noted(pre, mid, up, now) && (post == given_up(mid, all) || post == mid);
    assert(mid[x] == pre[x]);
    lemma_given_up_keeps_abandoned(mid, all, x);
}

proof fn lemma_given_up_keeps_abandoned(nodes: Nodes, ids: Seq<Seq<char>>, x: Seq<char>)
    requires
        has_worker(nodes, x),
        worker(nodes, x).state is Abandoned,
    ensures
        has_worker(given_up(nodes, ids), x),
        worker(given_up(nodes, ids), x).state is Abandoned,
    decreases ids.len(),
{
    if ids.len() > 0 {
        lemma_given_up_keeps_abandoned(nodes, ids.drop_last(), x);
    }
}

proof fn lemma_given_up(nodes: Nodes, ids: Seq<Seq<char>>, i: int)
    requires
        0 <= i < ids.len(),
        has_worker(nodes, ids[i]),
    ensures
        has_worker(given_up(nodes, ids), ids[i]),
        worker(given_up(nodes, ids), ids[i]).state is Abandoned,
    decreases ids.len(),
{
    let rest = ids.drop_last();
    if i < rest.len() {
        assert(rest[i] == ids[i]);
        lemma_given_up(nodes, rest, i);
    } else {
        lemma_given_up_keeps(nodes, rest, ids[i]);
    }
}

proof fn lemma_given_up_keeps(nodes: Nodes, ids: Seq<Seq<char>>, x: Seq<char>)
    ensures
        has_worker(given_up(nodes, ids), x) == has_worker(nodes, x),
    decreases ids.len(),
{
    if ids.len() > 0 {
        lemma_given_up_keeps(nodes, ids.drop_last(), x);
        lemma_given_up_keeps(nodes, ids.drop_last(), ids.last());
    }
}

} // verus!
