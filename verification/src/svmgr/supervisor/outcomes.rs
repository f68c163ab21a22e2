//! What the end of a child means for it and for those beside it.

use crate::svmgr::config::service::{usual_policy, RestartPolicy};
use crate::svmgr::config::supervisor::RestartStrategy;
use crate::svmgr::manager::{after_exit, exit_leads_to, failure_handled, ExitOutcome};
use crate::svmgr::supervisor::intensity::{
    first_in_window, restart_is_remembered_for_the_window,
};
use crate::svmgr::supervisor::lifecycle::{ExitInfo, ServiceState};
use crate::svmgr::supervisor::strategy::{
    escalation_step, exhausted, given_up, restart_noted, restart_step, restart_wanted,
    strategy_step, StrategyAction,
};
use crate::svmgr::supervisor::tree::{
    children, has_supervisor, has_worker, is_tree, lemma_parent_comes_first, parent, supervisor,
    worker, Nodes, WorkerNode,
};
use crate::text::texts;
use crate::time::Instant;
use vstd::prelude::*;

verus! {

/// The policies decide alone: a permanent child is always restarted, a
/// temporary one never, and a transient one unless it ended with the exit code
/// zero.
pub proof fn policy_decides(exit: ExitInfo)
    ensures
        restart_wanted(RestartPolicy::Permanent, exit),
        restart_wanted(RestartPolicy::Transient, exit) <==> exit.exit_code != Some(0i32),
        !restart_wanted(RestartPolicy::Temporary, exit),
{
}

/// A service that names no policy is always restarted.
pub proof fn usual_policy_always_restarts(exit: ExitInfo)
    ensures
        restart_wanted(usual_policy(), exit),
{
}

/// Whether a supervisor bears one more restart at `now`, of those that lie in
/// its window; the first `k` of those it knows of lie before it.
pub open spec fn bears_one_more(nodes: Nodes, sup: Seq<char>, now: Instant, k: int) -> bool {
    let i = supervisor(nodes, sup).intensity;
    i.times().len() - k < i.limit()
}

/// Whether the lists of an action are those of the strategy of `sup`: the child
/// alone; all children; or the child and all that come after it. What is
/// stopped is stopped from the last to the first.
pub open spec fn by_strategy(
    nodes: Nodes,
    sup: Seq<char>,
    failed: Seq<char>,
    action: StrategyAction,
) -> bool {
    let all = children(nodes, sup);
    let start = texts(action.to_start@);
    let stop = texts(action.to_stop@);
    match supervisor(nodes, sup).strategy {
        RestartStrategy::OneForOne => start == seq![failed] && stop.len() == 0,
        RestartStrategy::OneForAll => {
            &&& start == all
            &&& stop.len() == all.len()
            &&& forall|j: int| 0 <= j < all.len() ==> #[trigger] stop[j] == all[all.len() - 1 - j]
        },
        RestartStrategy::RestForOne => forall|i: int|
            0 <= i < all.len() && #[trigger] all[i] == failed && all.no_duplicates() ==> {
                &&& start.len() == all.len() - i
                &&& stop.len() == all.len() - i
                &&& forall|j: int| 0 <= j < all.len() - i ==> #[trigger] start[j] == all[i + j]
                &&& forall|j: int|
                    0 <= j < all.len() - i ==> #[trigger] stop[j] == all[all.len() - 1 - j]
            },
    }
}

/// Whether a supervisor that gave up stops all its children and starts none.
pub open spec fn by_giving_up(nodes: Nodes, sup: Seq<char>, action: StrategyAction) -> bool {
    &&& texts(action.to_stop@) == children(nodes, sup)
    &&& action.to_start@.len() == 0
}

proof fn lemma_given_up_alone(nodes: Nodes, ids: Seq<Seq<char>>, x: Seq<char>)
    ensures
        given_up(nodes, ids).contains_key(x) == nodes.contains_key(x),
        !ids.contains(x) ==> given_up(nodes, ids)[x] == nodes[x],
        nodes[x] is Supervisor ==> given_up(nodes, ids)[x] == nodes[x],
        has_worker(nodes, x) ==> has_worker(given_up(nodes, ids), x) && worker(
            given_up(nodes, ids),
            x,
        ) == (WorkerNode {
            state: if ids.contains(x) {
                ServiceState::Abandoned
            } else {
                worker(nodes, x).state
            },
            ..worker(nodes, x)
        }),
    decreases ids.len(),
{
    if ids.len() > 0 {
        let front = ids.drop_last();
        lemma_given_up_alone(nodes, front, x);
        lemma_given_up_alone(nodes, front, ids.last());
        if ids.contains(x) && ids.last() != x {
            let i = choose|i: int| 0 <= i < ids.len() && ids[i] == x;
            assert(front[i] == x);
        }
        if front.contains(x) {
            let i = choose|i: int| 0 <= i < front.len() && front[i] == x;
            assert(ids[i] == x);
        }
    }
}

/// A supervisor that bears one more restart does what its strategy says. One
/// that does not stops all its children, starts none and leaves its workers
/// abandoned. Either way it knows of the restart afterwards, and no other node
/// changes in any other way.
pub proof fn restart_is_borne_or_not(
    pre: Nodes,
    sup: Seq<char>,
    failed: Seq<char>,
    now: Instant,
    post: Nodes,
    action: StrategyAction,
    k: int,
    x: Seq<char>,
)
    requires
        has_supervisor(pre, sup),
        first_in_window(supervisor(pre, sup).intensity, now, k),
        restart_step(pre, sup, failed, now, post, action),
    ensures
        action.supervisor_failed == !bears_one_more(pre, sup, now, k),
        if action.supervisor_failed {
            by_giving_up(pre, sup, action)
        } else {
            by_strategy(pre, sup, failed, action)
        },
        post.contains_key(x) == pre.contains_key(x),
        has_worker(pre, x) ==> has_worker(post, x) && worker(post, x) == (WorkerNode {
            state: if action.supervisor_failed && children(pre, sup).contains(x) {
                ServiceState::Abandoned
            } else {
                worker(pre, x).state
            },
            ..worker(pre, x)
        }),
        has_supervisor(pre, x) && x != sup ==> post[x] == pre[x],
        has_supervisor(post, sup),
        children(post, sup) == children(pre, sup),
        parent(post, sup) == parent(pre, sup),
        supervisor(post, sup).strategy == supervisor(pre, sup).strategy,
        supervisor(post, sup).intensity.limit() == supervisor(pre, sup).intensity.limit(),
        supervisor(post, sup).intensity.span() == supervisor(pre, sup).intensity.span(),
        supervisor(post, sup).intensity.times() == supervisor(pre, sup).intensity.times().skip(
            k,
        ).push(now),
{
    let all = children(pre, sup);
    let mid = choose|mid: Nodes|
        {
            &&& #[trigger] restart_noted(pre, mid, sup, now)
            &&& if exhausted(mid, sup) {
                &&& post == given_up(mid, all)
                &&& action.is(all, Seq::empty(), true)
            } else {
                post == mid && !action.supervisor_failed
            }
        };
    restart_is_remembered_for_the_window(
        supervisor(pre, sup).intensity,
        now,
        supervisor(mid, sup).intensity,
        k,
    );
    lemma_given_up_alone(mid, all, x);
    lemma_given_up_alone(mid, all, sup);
    if x != sup && pre.contains_key(x) {
        assert(mid[x] == pre[x]);
    }
    if exhausted(mid, sup) {
        assert(texts(action.to_start@).len() == 0);
    } else {
        let start = texts(action.to_start@);
        let stop = texts(action.to_stop@);
        assert forall|i: int|
            0 <= i < all.len() && #[trigger] all[i] == failed && all.no_duplicates() && supervisor(
                pre,
                sup,
            ).strategy == RestartStrategy::RestForOne implies {
            &&& start.len() == all.len() - i
            &&& stop.len() == all.len() - i
            &&& forall|j: int| 0 <= j < all.len() - i ==> #[trigger] start[j] == all[i + j]
            &&& forall|j: int|
                0 <= j < all.len() - i ==> #[trigger] stop[j] == all[all.len() - 1 - j]
        } by {
            all.index_of_first_ensures(failed);
            assert(all.contains(failed));
            assert(all.index_of_first(failed)->0 == i);
        }
    }
}

/// A permanent child is restarted whatever its exit code or its signal, and a
/// transient one after every end but with the exit code zero, as long as the
/// supervisor bears it.
pub proof fn child_that_failed_is_restarted(
    pre: Nodes,
    sup: Seq<char>,
    failed: Seq<char>,
    exit: ExitInfo,
    now: Instant,
    post: Nodes,
    action: StrategyAction,
    k: int,
)
    requires
        strategy_step(pre, sup, failed, exit, now, post, action),
        has_supervisor(pre, sup),
        has_worker(pre, failed),
        children(pre, sup).contains(failed),
        children(pre, sup).no_duplicates(),
        first_in_window(supervisor(pre, sup).intensity, now, k),
        bears_one_more(pre, sup, now, k),
        worker(pre, failed).restart_policy is Permanent || (worker(pre, failed).restart_policy
            is Transient && exit.exit_code != Some(0i32)),
    ensures
        !action.supervisor_failed,
        texts(action.to_start@).contains(failed),
        by_strategy(pre, sup, failed, action),
{
    restart_is_borne_or_not(pre, sup, failed, now, post, action, k, failed);
    let all = children(pre, sup);
    let i = choose|i: int| 0 <= i < all.len() && all[i] == failed;
    match supervisor(pre, sup).strategy {
        RestartStrategy::OneForOne => {
            assert(texts(action.to_start@)[0] == failed);
        },
        RestartStrategy::OneForAll => {},
        RestartStrategy::RestForOne => {
            assert(texts(action.to_start@)[0] == all[i + 0]);
        },
    }
}

/// A permanent child, or a transient one that did not end with the exit code
/// zero, makes a supervisor that bears no more restarts give up.
pub proof fn child_that_failed_too_often_fails_its_supervisor(
    pre: Nodes,
    sup: Seq<char>,
    failed: Seq<char>,
    exit: ExitInfo,
    now: Instant,
    post: Nodes,
    action: StrategyAction,
    k: int,
)
    requires
        strategy_step(pre, sup, failed, exit, now, post, action),
        has_supervisor(pre, sup),
        has_worker(pre, failed),
        first_in_window(supervisor(pre, sup).intensity, now, k),
        !bears_one_more(pre, sup, now, k),
        worker(pre, failed).restart_policy is Permanent || (worker(pre, failed).restart_policy
            is Transient && exit.exit_code != Some(0i32)),
    ensures
        action.supervisor_failed,
        by_giving_up(pre, sup, action),
{
    restart_is_borne_or_not(pre, sup, failed, now, post, action, k, failed);
}

/// A temporary child, and a transient one that ended with the exit code zero,
/// is left as it ended: stopped after the exit code zero, else failed with its
/// exit code and its signal. Nothing is started or stopped for it, no restart
/// is noted, and no other node changes.
pub proof fn child_that_is_done_stays_down(
    pre: Nodes,
    sup: Seq<char>,
    failed: Seq<char>,
    exit: ExitInfo,
    now: Instant,
    post: Nodes,
    action: StrategyAction,
    x: Seq<char>,
)
    requires
        strategy_step(pre, sup, failed, exit, now, post, action),
        has_supervisor(pre, sup),
        has_worker(pre, failed),
        worker(pre, failed).restart_policy is Temporary || (worker(pre, failed).restart_policy
            is Transient && exit.exit_code == Some(0i32)),
    ensures
        !action.supervisor_failed,
        action.to_start@.len() == 0,
        action.to_stop@.len() == 0,
        has_worker(post, failed),
        worker(post, failed) == (WorkerNode {
            state: if exit.exit_code == Some(0i32) {
                ServiceState::Stopped
            } else {
                ServiceState::Failed { exit_code: exit.exit_code, signal: exit.signal }
            },
            ..worker(pre, failed)
        }),
        x != failed ==> post.contains_key(x) == pre.contains_key(x) && post[x] == pre[x],
{
    assert(texts(action.to_start@).len() == 0);
    assert(texts(action.to_stop@).len() == 0);
}

/// A supervisor that failed is started again by the one above it, by that
/// one's strategy, as long as that one bears it; else that one gives up too.
pub proof fn supervisor_that_failed_is_restarted(
    pre: Nodes,
    up: Seq<char>,
    failed: Seq<char>,
    now: Instant,
    post: Nodes,
    action: StrategyAction,
    k: int,
)
    requires
        escalation_step(pre, up, failed, now, post, action),
        has_supervisor(pre, up),
        has_supervisor(pre, failed),
        children(pre, up).contains(failed),
        children(pre, up).no_duplicates(),
        first_in_window(supervisor(pre, up).intensity, now, k),
    ensures
        action.supervisor_failed == !bears_one_more(pre, up, now, k),
        if action.supervisor_failed {
            by_giving_up(pre, up, action)
        } else {
            by_strategy(pre, up, failed, action) && texts(action.to_start@).contains(failed)
        },
{
    restart_is_borne_or_not(pre, up, failed, now, post, action, k, failed);
    if !action.supervisor_failed {
        let all = children(pre, up);
        let i = choose|i: int| 0 <= i < all.len() && all[i] == failed;
        match supervisor(pre, up).strategy {
            RestartStrategy::OneForOne => {
                assert(texts(action.to_start@)[0] == failed);
            },
            RestartStrategy::OneForAll => {},
            RestartStrategy::RestForOne => {
                assert(texts(action.to_start@)[0] == all[i + 0]);
            },
        }
    }
}

/// Whether a service is as its end left it: without a process, stopped after
/// the exit code zero, else failed with its exit code and its signal; all else
/// about it is as it was.
pub open spec fn as_it_ended(pre: Nodes, post: Nodes, id: Seq<char>, exit: ExitInfo) -> bool {
    &&& has_worker(post, id)
    &&& worker(post, id) == (WorkerNode {
        pid: None,
        state: if exit.exit_code == Some(0i32) {
            ServiceState::Stopped
        } else {
            ServiceState::Failed { exit_code: exit.exit_code, signal: exit.signal }
        },
        ..worker(pre, id)
    })
}

/// A permanent service that ends in any way, and a transient one that ends in
/// any way but with the exit code zero, is started again as its supervisor's
/// strategy says, as long as the supervisor bears one more restart.
pub proof fn service_that_crashed_is_started_again(
    pre: Nodes,
    root: Seq<char>,
    order: Seq<Seq<char>>,
    id: Seq<char>,
    exit: ExitInfo,
    now: Instant,
    post: Nodes,
    o: ExitOutcome,
    k: int,
)
    requires
        is_tree(pre, root, order),
        has_worker(pre, id),
        !(worker(pre, id).state is Abandoned),
        exit_leads_to(pre, id, exit, now, post, o),
        first_in_window(supervisor(pre, worker(pre, id).parent@).intensity, now, k),
        bears_one_more(pre, worker(pre, id).parent@, now, k),
        worker(pre, id).restart_policy is Permanent || (worker(pre, id).restart_policy is Transient
            && exit.exit_code != Some(0i32)),
    ensures
        texts(o.action.to_start@).contains(id),
        by_strategy(pre, worker(pre, id).parent@, id, o.action),
        !o.action.supervisor_failed,
        o.failed_supervisors@.len() == 0,
        o.escalated_to is None,
        as_it_ended(pre, post, id, exit),
{
    let sup = worker(pre, id).parent@;
    let nodes = after_exit(pre, id, exit);
    lemma_parent_comes_first(pre, root, order, id);
    let (mid, a) = lemma_exit_step(pre, id, exit, now, post, o);
    child_that_failed_is_restarted(nodes, sup, id, exit, now, mid, a, k);
    restart_is_borne_or_not(nodes, sup, id, now, mid, a, k, id);
}

proof fn lemma_exit_step(
    pre: Nodes,
    id: Seq<char>,
    exit: ExitInfo,
    now: Instant,
    post: Nodes,
    o: ExitOutcome,
) -> (r: (Nodes, StrategyAction))
    requires
        has_worker(pre, id),
        !(worker(pre, id).state is Abandoned),
        exit_leads_to(pre, id, exit, now, post, o),
        has_supervisor(pre, worker(pre, id).parent@),
    ensures
        strategy_step(
            after_exit(pre, id, exit),
            worker(pre, id).parent@,
            id,
            exit,
            now,
            r.0,
            r.1,
        ),
        r.1.supervisor_failed ==> failure_handled(
            r.0,
            worker(pre, id).parent@,
            texts(r.1.to_stop@),
            now,
            post,
            o,
        ),
        !r.1.supervisor_failed ==> post == r.0 && o.action == r.1 && o.failed_supervisors@.len()
            == 0 && o.escalated_to is None,
        has_supervisor(after_exit(pre, id, exit), worker(pre, id).parent@),
        supervisor(after_exit(pre, id, exit), worker(pre, id).parent@) == supervisor(
            pre,
            worker(pre, id).parent@,
        ),
        as_it_ended(pre, after_exit(pre, id, exit), id, exit),
{
    let sup = worker(pre, id).parent@;
    let nodes = after_exit(pre, id, exit);
    let (mid, a) = choose|mid: Nodes, a: StrategyAction|
        {
            &&& #[trigger] strategy_step(nodes, sup, id, exit, now, mid, a)
            &&& if a.supervisor_failed {
                failure_handled(mid, sup, texts(a.to_stop@), now, post, o)
            } else {
                &&& post == mid
                &&& o.action == a
                &&& o.failed_supervisors@.len() == 0
                &&& o.escalated_to is None
            }
        };
    (mid, a)
}

/// A temporary service that ended, and a transient one that ended with the exit
/// code zero, is not started again: nothing is stopped or started, no
/// supervisor fails, and no other node changes.
pub proof fn service_that_is_done_stays_down(
    pre: Nodes,
    root: Seq<char>,
    order: Seq<Seq<char>>,
    id: Seq<char>,
    exit: ExitInfo,
    now: Instant,
    post: Nodes,
    o: ExitOutcome,
    x: Seq<char>,
)
    requires
        is_tree(pre, root, order),
        has_worker(pre, id),
        !(worker(pre, id).state is Abandoned),
        exit_leads_to(pre, id, exit, now, post, o),
        worker(pre, id).restart_policy is Temporary || (worker(pre, id).restart_policy is Transient
            && exit.exit_code == Some(0i32)),
    ensures
        o.action.to_start@.len() == 0,
        o.action.to_stop@.len() == 0,
        !o.action.supervisor_failed,
        o.failed_supervisors@.len() == 0,
        o.escalated_to is None,
        as_it_ended(pre, post, id, exit),
        x != id ==> post.contains_key(x) == pre.contains_key(x) && post[x] == pre[x],
{
    let sup = worker(pre, id).parent@;
    let nodes = after_exit(pre, id, exit);
    lemma_parent_comes_first(pre, root, order, id);
    let (mid, a) = lemma_exit_step(pre, id, exit, now, post, o);
    child_that_is_done_stays_down(nodes, sup, id, exit, now, mid, a, id);
    child_that_is_done_stays_down(nodes, sup, id, exit, now, mid, a, x);
}

/// A service whose supervisor bears no more restarts takes that supervisor
/// down: all its children are to be stopped, before anything else.
pub proof fn service_that_crashed_too_often_fails_its_supervisor(
    pre: Nodes,
    root: Seq<char>,
    order: Seq<Seq<char>>,
    id: Seq<char>,
    exit: ExitInfo,
    now: Instant,
    post: Nodes,
    o: ExitOutcome,
    k: int,
)
    requires
        is_tree(pre, root, order),
        has_worker(pre, id),
        !(worker(pre, id).state is Abandoned),
        exit_leads_to(pre, id, exit, now, post, o),
        first_in_window(supervisor(pre, worker(pre, id).parent@).intensity, now, k),
        !bears_one_more(pre, worker(pre, id).parent@, now, k),
        worker(pre, id).restart_policy is Permanent || (worker(pre, id).restart_policy is Transient
            && exit.exit_code != Some(0i32)),
    ensures
        o.failed_supervisors@.len() > 0,
        o.failed_supervisors@[0]@ == worker(pre, id).parent@,
        children(pre, worker(pre, id).parent@).is_prefix_of(texts(o.action.to_stop@)),
{
    let sup = worker(pre, id).parent@;
    let nodes = after_exit(pre, id, exit);
    lemma_parent_comes_first(pre, root, order, id);
    let (mid, a) = lemma_exit_step(pre, id, exit, now, post, o);
    child_that_failed_too_often_fails_its_supervisor(nodes, sup, id, exit, now, mid, a, k);
}

/// A service that was given up on and ends is noted as having no process, and
/// nothing more comes of it.
pub proof fn service_given_up_on_ends_quietly(
    pre: Nodes,
    id: Seq<char>,
    exit: ExitInfo,
    now: Instant,
    post: Nodes,
    o: ExitOutcome,
    x: Seq<char>,
)
    requires
        has_worker(pre, id),
        worker(pre, id).state is Abandoned,
        exit_leads_to(pre, id, exit, now, post, o),
    ensures
        o.action.to_start@.len() == 0,
        o.action.to_stop@.len() == 0,
        o.failed_supervisors@.len() == 0,
        has_worker(post, id),
        worker(post, id) == (WorkerNode { pid: None, ..worker(pre, id) }),
        x != id ==> post.contains_key(x) == pre.contains_key(x) && post[x] == pre[x],
{
    assert(texts(o.action.to_start@).len() == 0);
    assert(texts(o.action.to_stop@).len() == 0);
}

} // verus!
