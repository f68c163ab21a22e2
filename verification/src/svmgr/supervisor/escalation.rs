//! How the failure of a supervisor climbs the tree.

use crate::svmgr::supervisor::strategy::{
    escalate_failure, escalation_keeps_abandoned, escalation_keeps_shape, escalation_step,
    failed_supervisor_is_restarted, giving_up_above_abandons_children, StrategyAction,
};
use crate::svmgr::supervisor::tree::{
    children, has_supervisor, has_worker, is_tree, lemma_parent_comes_first, lemma_same_links,
    lemma_shape_carries, parent, same_shape, same_shape_keeps_tree, worker, NodeId, Nodes,
    SupervisorTree,
};
use crate::text::{opt_text, owned, texts};
use crate::time::Instant;
use vstd::prelude::*;

verus! {

/// What the failure of a supervisor leads to.
#[derive(Debug)]
pub struct Escalation {
    /// The supervisors that gave up, each one below the next.
    pub gave_up: Vec<NodeId>,
    /// The supervisor that takes care of it; none where the root gave up.
    pub taken_by: Option<NodeId>,
    /// What the supervisors above ask to be stopped, in order.
    pub to_stop: Vec<NodeId>,
    /// What is to be started afterwards, in order.
    pub to_start: Vec<NodeId>,
}

/// What a number of actions stop, one after another.
pub open spec fn all_stops(acts: Seq<StrategyAction>) -> Seq<Seq<char>>
    decreases acts.len(),
{
    if acts.len() == 0 {
        Seq::empty()
    } else {
        all_stops(acts.drop_last()) + texts(acts.last().to_stop@)
    }
}

/// Whether the `i`th supervisor of `path` handed its failure on, by the `i`th
/// action, to one that gave up as well, and so comes next, or to `taken_by`.
pub open spec fn hands_on(
    states: Seq<Nodes>,
    acts: Seq<StrategyAction>,
    path: Seq<Seq<char>>,
    taken_by: Option<Seq<char>>,
    now: Instant,
    i: int,
) -> bool {
    let up = if i + 1 < path.len() {
        Some(path[i + 1])
    } else {
        taken_by
    };
    &&& up is Some
    &&& parent(states[i], path[i]) == up
    &&& escalation_step(states[i], up->0, path[i], now, states[i + 1], acts[i])
    &&& acts[i].supervisor_failed == (i + 1 < path.len())
}

/// Whether the failure of the first of `path` went through `states` by `acts`.
pub open spec fn climbs_by(
    states: Seq<Nodes>,
    acts: Seq<StrategyAction>,
    path: Seq<Seq<char>>,
    taken_by: Option<Seq<char>>,
    now: Instant,
) -> bool {
    &&& path.len() > 0
    &&& states.len() == acts.len() + 1
    &&& acts.len() == if taken_by is Some {
        path.len() as int
    } else {
        path.len() - 1
    }
    &&& forall|i: int|
        0 <= i < acts.len() ==> #[trigger] hands_on(states, acts, path, taken_by, now, i)
    &&& taken_by is None ==> parent(states.last(), path.last()) is None
}

/// Whether the failure of a supervisor leads from `pre` to `post`. Those of
/// `path` gave up, that supervisor first and each one below the next, and
/// `taken_by` took care of it; `stop` and `start` are what is to be stopped
/// and started.
pub open spec fn climbs(
    pre: Nodes,
    path: Seq<Seq<char>>,
    taken_by: Option<Seq<char>>,
    now: Instant,
    post: Nodes,
    stop: Seq<Seq<char>>,
    start: Seq<Seq<char>>,
) -> bool {
    exists|states: Seq<Nodes>, acts: Seq<StrategyAction>|
        {
            &&& #[trigger] climbs_by(states, acts, path, taken_by, now)
            &&& states[0] == pre
            &&& states.last() == post
            &&& stop == all_stops(acts)
            &&& start == if taken_by is Some {
                texts(acts.last().to_start@)
            } else {
                Seq::empty()
            }
        }
}

/// Hands the failure of a supervisor up the tree, until one has room for it or
/// the root has given up.
pub fn climb(tree: &mut SupervisorTree, failed_supervisor_id: &str, now: Instant) -> (r: Escalation)
    requires
        old(tree).wf(),
        old(tree).intact(),
    ensures
        final(tree).wf(),
        final(tree).intact(),
        final(tree).root() == old(tree).root(),
        final(tree).order() == old(tree).order(),
        final(tree).pids() == old(tree).pids(),
        r.gave_up@.len() > 0,
        r.gave_up@[0]@ == failed_supervisor_id@,
        climbs(
            old(tree).nodes(),
            texts(r.gave_up@),
            opt_text(r.taken_by),
            now,
            final(tree).nodes(),
            texts(r.to_stop@),
            texts(r.to_start@),
        ),
{
    let mut gave_up: Vec<NodeId> = Vec::new();
    gave_up.push(owned(failed_supervisor_id));
    let mut to_stop: Vec<NodeId> = Vec::new();
    let mut to_start: Vec<NodeId> = Vec::new();
    let mut taken_by: Option<NodeId> = None;
    let mut done = false;
    let ghost mut states: Seq<Nodes> = seq![tree.nodes()];
    let ghost mut acts: Seq<StrategyAction> = Seq::empty();
    proof {
        assert(texts(to_stop@) =~= Seq::<Seq<char>>::empty());
        assert(texts(to_start@) =~= Seq::<Seq<char>>::empty());
    }
    while !done
        invariant
            tree.wf(),
            tree.intact(),
            tree.root() == old(tree).root(),
            tree.order() == old(tree).order(),
            tree.pids() == old(tree).pids(),
            gave_up@.len() > 0,
            gave_up@[0]@ == failed_supervisor_id@,
            states.len() == acts.len() + 1,
            states[0] == old(tree).nodes(),
            states.last() == tree.nodes(),
            texts(to_stop@) == all_stops(acts),
            taken_by is Some ==> done && texts(to_start@) == texts(acts.last().to_start@),
            taken_by is None ==> texts(to_start@) == Seq::<Seq<char>>::empty(),
            acts.len() == if taken_by is Some {
                gave_up@.len() as int
            } else {
                gave_up@.len() - 1
            },
            done && taken_by is None ==> parent(tree.nodes(), texts(gave_up@).last()) is None,
            forall|i: int|
                0 <= i < acts.len() ==> #[trigger] hands_on(
                    states,
                    acts,
                    texts(gave_up@),
                    opt_text(taken_by),
                    now,
                    i,
                ),
        decreases
                if done {
                    0int
                } else {
                    1int
                },
                tree.order().index_of(texts(gave_up@).last()),
    {
        let ghost path = texts(gave_up@);
        let ghost before = *tree;
        let ghost old_states = states;
        let ghost old_acts = acts;
        let n: usize = gave_up.len();
        match escalate_failure(tree, gave_up[n - 1].as_str(), now) {
            None => {
                done = true;
            },
            Some((up, action)) => {
                let ghost a = action;
                let failed = action.supervisor_failed;
                proof {
                    lemma_parent_comes_first(
                        before.nodes(),
                        before.root(),
                        before.order(),
                        path.last(),
                    );
                    states = states.push(tree.nodes());
                    acts = acts.push(a);
                    assert(acts.drop_last() =~= old_acts);
                }
                let ghost stops = texts(to_stop@);
                let ghost asked = texts(a.to_stop@);
                let mut more = action.to_stop;
                to_stop.append(&mut more);
                assert(texts(to_stop@) =~= stops + asked);
                if failed {
                    gave_up.push(up);
                } else {
                    taken_by = Some(up);
                    to_start = action.to_start;
                    done = true;
                }
                proof {
                    lemma_hands_on(
                        old_states,
                        old_acts,
                        path,
                        now,
                        up@,
                        tree.nodes(),
                        a,
                    );
                    if failed {
                        assert(texts(gave_up@) =~= path.push(up@));
                    }
                }
            },
        }
    }
    let r = Escalation { gave_up, taken_by, to_stop, to_start };
    assert(climbs_by(states, acts, texts(r.gave_up@), opt_text(r.taken_by), now));
    r
}

proof fn lemma_hands_on(
    states: Seq<Nodes>,
    acts: Seq<StrategyAction>,
    path: Seq<Seq<char>>,
    now: Instant,
    up: Seq<char>,
    post: Nodes,
    a: StrategyAction,
)
    requires
        path.len() > 0,
        states.len() == acts.len() + 1,
        acts.len() == path.len() - 1,
        forall|i: int| 0 <= i < acts.len() ==> #[trigger] hands_on(states, acts, path, None, now, i),
        parent(states.last(), path.last()) == Some(up),
        escalation_step(states.last(), up, path.last(), now, post, a),
    ensures
        a.supervisor_failed ==> forall|i: int|
            0 <= i < acts.len() + 1 ==> #[trigger] hands_on(
                states.push(post),
                acts.push(a),
                path.push(up),
                None,
                now,
                i,
            ),
        !a.supervisor_failed ==> forall|i: int|
            0 <= i < acts.len() + 1 ==> #[trigger] hands_on(
                states.push(post),
                acts.push(a),
                path,
                Some(up),
                now,
                i,
            ),
{
    let s = states.push(post);
    let b = acts.push(a);
    let (p, t) = if a.supervisor_failed {
        (path.push(up), None)
    } else {
        (path, Some(up))
    };
    assert forall|i: int| 0 <= i < b.len() implies #[trigger] hands_on(s, b, p, t, now, i) by {
        if i < acts.len() {
            assert(hands_on(states, acts, path, None, now, i));
        }
    }
}

proof fn lemma_climb_keeps_tree(
    states: Seq<Nodes>,
    acts: Seq<StrategyAction>,
    path: Seq<Seq<char>>,
    taken_by: Option<Seq<char>>,
    now: Instant,
    root: Seq<char>,
    order: Seq<Seq<char>>,
    i: int,
)
    requires
        climbs_by(states, acts, path, taken_by, now),
        is_tree(states[0], root, order),
        0 <= i < states.len(),
    ensures
        is_tree(states[i], root, order),
        same_shape(states[0], states[i]),
    decreases i,
{
    if i > 0 {
        let k = i - 1;
        lemma_climb_keeps_tree(states, acts, path, taken_by, now, root, order, k);
        assert(hands_on(states, acts, path, taken_by, now, k));
        let up = parent(states[k], path[k])->0;
        escalation_keeps_shape(states[k], up, path[k], now, states[i], acts[k]);
        same_shape_keeps_tree(states[k], states[i], root, order);
        lemma_shape_carries(states[0], states[k], states[i]);
    }
}

/// The failure of a supervisor climbs from each supervisor to the one above
/// it, and leaves the tree its shape. It ends at one that has room for it,
/// which starts the supervisor below it that gave up last, or it ends at the
/// root, and then nothing is started.
pub proof fn failure_climbs_to_one_with_room(
    pre: Nodes,
    path: Seq<Seq<char>>,
    taken_by: Option<Seq<char>>,
    now: Instant,
    post: Nodes,
    stop: Seq<Seq<char>>,
    start: Seq<Seq<char>>,
    root: Seq<char>,
    order: Seq<Seq<char>>,
)
    requires
        is_tree(pre, root, order),
        path.len() > 0,
        has_supervisor(pre, path[0]),
        climbs(pre, path, taken_by, now, post, stop, start),
    ensures
        is_tree(post, root, order),
        same_shape(pre, post),
        forall|i: int|
            0 < i < path.len() ==> parent(pre, path[i - 1]) == Some(#[trigger] path[i]),
        parent(pre, path.last()) == taken_by,
        match taken_by {
            Some(_) => start.contains(path.last()),
            None => path.last() == root && start.len() == 0,
        },
{
    let (states, acts) = choose|states: Seq<Nodes>, acts: Seq<StrategyAction>|
        {
            &&& #[trigger] climbs_by(states, acts, path, taken_by, now)
            &&& states[0] == pre
            &&& states.last() == post
            &&& start == if taken_by is Some {
                texts(acts.last().to_start@)
            } else {
                Seq::empty()
            }
        };
    let last: int = states.len() - 1;
    lemma_climb_keeps_tree(states, acts, path, taken_by, now, root, order, last);
    assert forall|i: int| 0 < i < path.len() implies parent(pre, path[i - 1]) == Some(
        #[trigger] path[i],
    ) by {
        lemma_climb_keeps_tree(states, acts, path, taken_by, now, root, order, i - 1);
        assert(hands_on(states, acts, path, taken_by, now, i - 1));
        lemma_same_links(pre, states[i - 1], path[i - 1]);
    }
    let top: int = path.len() - 1;
    assert(has_supervisor(pre, path.last())) by {
        if top > 0 {
            assert(parent(pre, path[top - 1]) == Some(path[top]));
            lemma_parent_comes_first(pre, root, order, path[top - 1]);
        }
    }
    if taken_by is Some {
        let up = taken_by->0;
        let s = states[top];
        lemma_climb_keeps_tree(states, acts, path, taken_by, now, root, order, top);
        assert(hands_on(states, acts, path, taken_by, now, top));
        lemma_same_links(pre, s, path.last());
        lemma_parent_comes_first(s, root, order, path.last());
        failed_supervisor_is_restarted(s, up, path.last(), now, states[top + 1], acts[top]);
    } else {
        lemma_same_links(pre, post, path.last());
        assert(pre.contains_key(path.last()));
    }
}

proof fn lemma_stops_are_asked_for(acts: Seq<StrategyAction>, k: int, c: Seq<char>)
    requires
        0 <= k < acts.len(),
        texts(acts[k].to_stop@).contains(c),
    ensures
        all_stops(acts).contains(c),
    decreases acts.len(),
{
    let front = all_stops(acts.drop_last());
    let last = texts(acts.last().to_stop@);
    if k < acts.len() - 1 {
        lemma_stops_are_asked_for(acts.drop_last(), k, c);
        let j = choose|j: int| 0 <= j < front.len() && front[j] == c;
        assert((front + last)[j] == c);
    } else {
        let j = choose|j: int| 0 <= j < last.len() && last[j] == c;
        assert((front + last)[front.len() + j] == c);
    }
}

proof fn lemma_stays_abandoned(
    states: Seq<Nodes>,
    acts: Seq<StrategyAction>,
    path: Seq<Seq<char>>,
    taken_by: Option<Seq<char>>,
    now: Instant,
    root: Seq<char>,
    order: Seq<Seq<char>>,
    i: int,
    j: int,
    x: Seq<char>,
)
    requires
        climbs_by(states, acts, path, taken_by, now),
        is_tree(states[0], root, order),
        has_supervisor(states[0], path[0]),
        0 <= i <= j < states.len(),
        has_worker(states[i], x),
        worker(states[i], x).state is Abandoned,
    ensures
        has_worker(states[j], x),
        worker(states[j], x).state is Abandoned,
    decreases j,
{
    if i < j {
        let k = j - 1;
        lemma_stays_abandoned(states, acts, path, taken_by, now, root, order, i, k, x);
        lemma_climb_keeps_tree(states, acts, path, taken_by, now, root, order, k);
        assert(hands_on(states, acts, path, taken_by, now, k));
        let up = parent(states[k], path[k])->0;
        lemma_parent_comes_first(states[k], root, order, path[k]);
        lemma_path_of_supervisors(states, acts, path, taken_by, now, root, order, k);
        escalation_keeps_abandoned(states[k], up, path[k], now, states[j], acts[k], x);
    }
}

proof fn lemma_path_of_supervisors(
    states: Seq<Nodes>,
    acts: Seq<StrategyAction>,
    path: Seq<Seq<char>>,
    taken_by: Option<Seq<char>>,
    now: Instant,
    root: Seq<char>,
    order: Seq<Seq<char>>,
    k: int,
)
    requires
        climbs_by(states, acts, path, taken_by, now),
        is_tree(states[0], root, order),
        has_supervisor(states[0], path[0]),
        0 <= k < path.len(),
        k < states.len(),
    ensures
        has_supervisor(states[k], path[k]),
{
    lemma_climb_keeps_tree(states, acts, path, taken_by, now, root, order, k);
    if k > 0 {
        let p = k - 1;
        lemma_climb_keeps_tree(states, acts, path, taken_by, now, root, order, p);
        assert(hands_on(states, acts, path, taken_by, now, p));
        lemma_parent_comes_first(states[p], root, order, path[p]);
        lemma_same_links(states[0], states[p], path[k]);
    }
    lemma_same_links(states[0], states[k], path[k]);
}

/// Each supervisor above that gave up has all its children stopped, and each
/// worker among them is abandoned.
pub proof fn those_that_gave_up_are_stopped(
    pre: Nodes,
    path: Seq<Seq<char>>,
    taken_by: Option<Seq<char>>,
    now: Instant,
    post: Nodes,
    stop: Seq<Seq<char>>,
    start: Seq<Seq<char>>,
    root: Seq<char>,
    order: Seq<Seq<char>>,
    i: int,
    c: Seq<char>,
)
    requires
        is_tree(pre, root, order),
        path.len() > 0,
        has_supervisor(pre, path[0]),
        climbs(pre, path, taken_by, now, post, stop, start),
        0 < i < path.len(),
        children(pre, path[i]).contains(c),
    ensures
        stop.contains(c),
        has_worker(pre, c) ==> has_worker(post, c) && worker(post, c).state is Abandoned,
{
    let (states, acts) = choose|states: Seq<Nodes>, acts: Seq<StrategyAction>|
        {
            &&& #[trigger] climbs_by(states, acts, path, taken_by, now)
            &&& states[0] == pre
            &&& states.last() == post
            &&& stop == all_stops(acts)
        };
    let p = i - 1;
    let s = states[p];
    lemma_climb_keeps_tree(states, acts, path, taken_by, now, root, order, p);
    assert(hands_on(states, acts, path, taken_by, now, p));
    lemma_same_links(pre, s, path[i]);
    lemma_same_links(pre, s, c);
    let all = children(s, path[i]);
    let n = choose|n: int| 0 <= n < all.len() && all[n] == c;
    lemma_path_of_supervisors(states, acts, path, taken_by, now, root, order, p);
    lemma_parent_comes_first(s, root, order, path[p]);
    assert(texts(acts[p].to_stop@) == all);
    lemma_stops_are_asked_for(acts, p, c);
    if has_worker(pre, c) {
        giving_up_above_abandons_children(s, path[i], path[p], now, states[i], acts[p], n);
        let last: int = states.len() - 1;
        lemma_stays_abandoned(
            states,
            acts,
            path,
            taken_by,
            now,
            root,
            order,
            i,
            last,
            c,
        );
    }
}

} // verus!
