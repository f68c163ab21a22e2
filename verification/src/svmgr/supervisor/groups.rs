//! The workers that stand behind a node of the tree.

use crate::svmgr::supervisor::tree::{
    child_ok, children, has_supervisor, has_worker, is_tree, only_workers, NodeId, Nodes,
    SupervisorTree, TreeNode,
};
use crate::text::{owned, texts};
use vstd::prelude::*;

verus! {

/// The workers behind the node `id`, in start order, looking down `levels`
/// levels: a worker stands for itself, a supervisor for those of its children.
pub open spec fn workers_below(nodes: Nodes, id: Seq<char>, levels: nat) -> Seq<Seq<char>>
    decreases levels, 0nat,
{
    if levels == 0 {
        Seq::empty()
    } else if has_worker(nodes, id) {
        seq![id]
    } else {
        workers_of(nodes, children(nodes, id), (levels - 1) as nat)
    }
}

/// The workers behind the nodes `ids`, one node after another.
pub open spec fn workers_of(nodes: Nodes, ids: Seq<Seq<char>>, levels: nat) -> Seq<Seq<char>>
    decreases levels, ids.len() + 1,
{
    if ids.len() == 0 {
        Seq::empty()
    } else {
        workers_of(nodes, ids.drop_last(), levels) + workers_below(nodes, ids.last(), levels)
    }
}

/// The workers behind the nodes `ids`, those of each node the last first.
pub open spec fn workers_backwards(nodes: Nodes, ids: Seq<Seq<char>>, levels: nat) -> Seq<Seq<char>>
    decreases ids.len(),
{
    if ids.len() == 0 {
        Seq::empty()
    } else {
        workers_backwards(nodes, ids.drop_last(), levels) + workers_below(
            nodes,
            ids.last(),
            levels,
        ).reverse()
    }
}

fn find_workers(tree: &SupervisorTree, id: &str, levels: usize) -> (r: Vec<NodeId>)
    requires
        tree.wf(),
    ensures
        texts(r@) == workers_below(tree.nodes(), id@, levels as nat),
    decreases levels,
{
    let mut r: Vec<NodeId> = Vec::new();
    assert(texts(r@) =~= Seq::<Seq<char>>::empty());
    if levels == 0 {
        return r;
    }
    match tree.get(id) {
        Some(TreeNode::Worker(_)) => {
            r.push(owned(id));
            assert(texts(r@) =~= seq![id@]);
        },
        Some(TreeNode::Supervisor(s)) => {
            let ghost ids = texts(s.children@);
            let ghost nodes = tree.nodes();
            let mut i: usize = 0;
            while i < s.children.len()
                invariant
                    i <= s.children.len(),
                    tree.wf(),
                    nodes == tree.nodes(),
                    levels > 0,
                    ids == texts(s.children@),
                    texts(r@) == workers_of(nodes, ids.take(i as int), (levels - 1) as nat),
                decreases s.children.len() - i,
            {
                let ghost before = texts(r@);
                let mut found = find_workers(tree, s.children[i].as_str(), levels - 1);
                let ghost more = texts(found@);
                r.append(&mut found);
                proof {
                    assert(texts(r@) =~= before + more);
                    assert(ids.take(i + 1).drop_last() =~= ids.take(i as int));
                    assert(ids.take(i + 1).last() == s.children@[i as int]@);
                }
                i += 1;
            }
            assert(ids.take(ids.len() as int) =~= ids);
        },
        None => {},
    }
    r
}

/// The workers to start where the nodes `ids` are to be started, in order: to
/// start a supervisor is to start the workers below it.
pub fn workers_to_start(tree: &SupervisorTree, ids: &Vec<NodeId>) -> (r: Vec<NodeId>)
    requires
        tree.wf(),
    ensures
        texts(r@) == workers_of(tree.nodes(), texts(ids@), tree.order().len()),
{
    let mut r: Vec<NodeId> = Vec::new();
    let ghost o = texts(ids@);
    assert(texts(r@) =~= Seq::<Seq<char>>::empty());
    let levels: usize = tree.node_count();
    let mut i: usize = 0;
    while i < ids.len()
        invariant
            i <= ids.len(),
            tree.wf(),
            o == texts(ids@),
            levels == tree.order().len(),
            texts(r@) == workers_of(tree.nodes(), o.take(i as int), levels as nat),
        decreases ids.len() - i,
    {
        let ghost before = texts(r@);
        let mut found = find_workers(tree, ids[i].as_str(), levels);
        let ghost more = texts(found@);
        r.append(&mut found);
        proof {
            assert(texts(r@) =~= before + more);
            assert(o.take(i + 1).drop_last() =~= o.take(i as int));
            assert(o.take(i + 1).last() == ids@[i as int]@);
        }
        i += 1;
    }
    assert(o.take(o.len() as int) =~= o);
    r
}

/// The workers to stop where the nodes `ids` are to be stopped, in order: to
/// stop a supervisor is to stop the workers below it, the last first.
pub fn workers_to_stop(tree: &SupervisorTree, ids: &Vec<NodeId>) -> (r: Vec<NodeId>)
    requires
        tree.wf(),
    ensures
        texts(r@) == workers_backwards(tree.nodes(), texts(ids@), tree.order().len()),
{
    let mut r: Vec<NodeId> = Vec::new();
    let ghost o = texts(ids@);
    assert(texts(r@) =~= Seq::<Seq<char>>::empty());
    let levels: usize = tree.node_count();
    let mut i: usize = 0;
    while i < ids.len()
        invariant
            i <= ids.len(),
            tree.wf(),
            o == texts(ids@),
            levels == tree.order().len(),
            texts(r@) == workers_backwards(tree.nodes(), o.take(i as int), levels as nat),
        decreases ids.len() - i,
    {
        let ghost before = texts(r@);
        let found = find_workers(tree, ids[i].as_str(), levels);
        let ghost more = texts(found@).reverse();
        let mut k: usize = found.len();
        while k > 0
            invariant
                k <= found.len(),
                more == texts(found@).reverse(),
                texts(r@) == before + more.take(found.len() - k),
            decreases k,
        {
            k -= 1;
            let ghost so_far = texts(r@);
            r.push(found[k].clone());
            proof {
                assert(more[found.len() - k - 1] == found@[k as int]@);
                assert(texts(r@) =~= so_far.push(found@[k as int]@));
                assert(texts(r@) =~= before + more.take(found.len() - k));
            }
        }
        proof {
            assert(more.take(found.len() as int) =~= more);
            assert(o.take(i + 1).drop_last() =~= o.take(i as int));
            assert(o.take(i + 1).last() == ids@[i as int]@);
        }
        i += 1;
    }
    assert(o.take(o.len() as int) =~= o);
    r
}

/// How many levels a node can have below it, itself counted.
spec fn depth_left(order: Seq<Seq<char>>, id: Seq<char>) -> int {
    order.len() - order.index_of(id)
}

proof fn lemma_levels(
    nodes: Nodes,
    root: Seq<char>,
    order: Seq<Seq<char>>,
    id: Seq<char>,
    a: nat,
    b: nat,
)
    requires
        is_tree(nodes, root, order),
        nodes.contains_key(id),
        depth_left(order, id) <= a,
        depth_left(order, id) <= b,
    ensures
        workers_below(nodes, id, a) == workers_below(nodes, id, b),
    decreases a, 0nat,
{
    assert(order.to_set().contains(id));
    assert(order.contains(id));
    if has_supervisor(nodes, id) {
        let ids = children(nodes, id);
        assert forall|i: int| 0 <= i < ids.len() implies nodes.contains_key(#[trigger] ids[i])
            && depth_left(order, ids[i]) <= a - 1 && depth_left(order, ids[i]) <= b - 1 by {
            assert(child_ok(nodes, order, id, children(nodes, id)[i]));
        }
        lemma_levels_of(nodes, root, order, ids, (a - 1) as nat, (b - 1) as nat);
    }
}

proof fn lemma_levels_of(
    nodes: Nodes,
    root: Seq<char>,
    order: Seq<Seq<char>>,
    ids: Seq<Seq<char>>,
    a: nat,
    b: nat,
)
    requires
        is_tree(nodes, root, order),
        forall|i: int|
            0 <= i < ids.len() ==> nodes.contains_key(#[trigger] ids[i]) && depth_left(
                order,
                ids[i],
            ) <= a && depth_left(order, ids[i]) <= b,
    ensures
        workers_of(nodes, ids, a) == workers_of(nodes, ids, b),
    decreases a, ids.len() + 1,
{
    if ids.len() > 0 {
        let rest = ids.drop_last();
        assert forall|i: int| 0 <= i < rest.len() implies nodes.contains_key(#[trigger] rest[i])
            && depth_left(order, rest[i]) <= a && depth_left(order, rest[i]) <= b by {
            assert(rest[i] == ids[i]);
        }
        lemma_levels_of(nodes, root, order, rest, a, b);
        assert(ids.last() == ids[ids.len() - 1]);
        lemma_levels(nodes, root, order, ids.last(), a, b);
    }
}

/// In a tree, a supervisor stands for all the workers that its children stand
/// for, and a worker for itself.
pub proof fn supervisor_stands_for_its_children(
    nodes: Nodes,
    root: Seq<char>,
    order: Seq<Seq<char>>,
    id: Seq<char>,
)
    requires
        is_tree(nodes, root, order),
        nodes.contains_key(id),
    ensures
        workers_below(nodes, id, order.len()) == if has_worker(nodes, id) {
            seq![id]
        } else {
            workers_of(nodes, children(nodes, id), order.len())
        },
{
    assert(order.to_set().contains(id));
    assert(order.contains(id));
    if has_supervisor(nodes, id) {
        let ids = children(nodes, id);
        assert forall|i: int| 0 <= i < ids.len() implies nodes.contains_key(#[trigger] ids[i])
            && depth_left(order, ids[i]) <= order.len() - 1 by {
            assert(child_ok(nodes, order, id, children(nodes, id)[i]));
        }
        lemma_levels_of(nodes, root, order, ids, (order.len() - 1) as nat, order.len());
    }
}

/// A supervisor with no supervisors below it stands for the workers right
/// under it.
pub proof fn lowest_supervisor_stands_for_its_workers(
    nodes: Nodes,
    root: Seq<char>,
    order: Seq<Seq<char>>,
    id: Seq<char>,
)
    requires
        is_tree(nodes, root, order),
        has_supervisor(nodes, id),
        forall|c: Seq<char>| children(nodes, id).contains(c) ==> !#[trigger] has_supervisor(nodes, c),
    ensures
        workers_below(nodes, id, order.len()) == only_workers(nodes, children(nodes, id)),
{
    supervisor_stands_for_its_children(nodes, root, order, id);
    assert(order.to_set().contains(id));
    assert(order.contains(id));
    let ids = children(nodes, id);
    assert forall|c: Seq<char>| ids.contains(c) implies #[trigger] has_worker(nodes, c) by {
        let i = choose|i: int| 0 <= i < ids.len() && ids[i] == c;
        assert(child_ok(nodes, order, id, children(nodes, id)[i]));
        assert(!has_supervisor(nodes, c));
    }
    lemma_workers_alone(nodes, ids, order.len());
}

proof fn lemma_workers_alone(nodes: Nodes, ids: Seq<Seq<char>>, levels: nat)
    requires
        levels > 0,
        forall|c: Seq<char>| ids.contains(c) ==> #[trigger] has_worker(nodes, c),
    ensures
        workers_of(nodes, ids, levels) == only_workers(nodes, ids),
    decreases ids.len(),
{
    if ids.len() > 0 {
        let rest = ids.drop_last();
        assert forall|c: Seq<char>| rest.contains(c) implies #[trigger] has_worker(nodes, c) by {
            let i = choose|i: int| 0 <= i < rest.len() && rest[i] == c;
            assert(ids[i] == c);
            assert(ids.contains(c));
        }
        lemma_workers_alone(nodes, rest, levels);
        assert(ids.contains(ids.last()));
        assert(has_worker(nodes, ids.last()));
        assert(workers_below(nodes, ids.last(), levels) == seq![ids.last()]);
        assert(workers_of(nodes, ids, levels) =~= only_workers(nodes, ids));
    }
}

/// Workers stand for themselves, in their order; what stands behind two lists
/// one after the other is what stands behind the first and then behind the
/// second. When they are stopped, the workers behind each node are stopped from
/// the last to the first.
pub proof fn groups_are_taken_one_after_another(
    nodes: Nodes,
    a: Seq<Seq<char>>,
    b: Seq<Seq<char>>,
    id: Seq<char>,
    levels: nat,
)
    requires
        levels > 0,
    ensures
        workers_of(nodes, a + b, levels) == workers_of(nodes, a, levels) + workers_of(
            nodes,
            b,
            levels,
        ),
        workers_backwards(nodes, a + b, levels) == workers_backwards(nodes, a, levels)
            + workers_backwards(nodes, b, levels),
        workers_of(nodes, seq![id], levels) == workers_below(nodes, id, levels),
        workers_backwards(nodes, seq![id], levels) == workers_below(nodes, id, levels).reverse(),
        has_worker(nodes, id) ==> workers_of(nodes, seq![id], levels) == seq![id],
        has_worker(nodes, id) ==> workers_backwards(nodes, seq![id], levels) == seq![id],
    decreases b.len(),
{
    let one = seq![id];
    assert(one.drop_last() =~= Seq::<Seq<char>>::empty());
    assert(workers_of(nodes, one.drop_last(), levels) =~= Seq::<Seq<char>>::empty());
    assert(workers_backwards(nodes, one.drop_last(), levels) =~= Seq::<Seq<char>>::empty());
    assert(workers_of(nodes, one, levels) =~= workers_below(nodes, id, levels));
    assert(workers_backwards(nodes, one, levels) =~= workers_below(nodes, id, levels).reverse());
    if has_worker(nodes, id) {
        assert(seq![id].reverse() =~= seq![id]);
    }
    if b.len() == 0 {
        assert(a + b =~= a);
        assert(workers_of(nodes, b, levels) =~= Seq::<Seq<char>>::empty());
        assert(workers_backwards(nodes, b, levels) =~= Seq::<Seq<char>>::empty());
        assert(workers_of(nodes, a, levels) + Seq::<Seq<char>>::empty() =~= workers_of(
            nodes,
            a,
            levels,
        ));
        assert(workers_backwards(nodes, a, levels) + Seq::<Seq<char>>::empty()
            =~= workers_backwards(nodes, a, levels));
    } else {
        groups_are_taken_one_after_another(nodes, a, b.drop_last(), id, levels);
        assert((a + b).drop_last() =~= a + b.drop_last());
        assert((a + b).last() == b.last());
        assert(workers_of(nodes, a + b, levels) =~= workers_of(nodes, a, levels) + workers_of(
            nodes,
            b,
            levels,
        ));
        assert(workers_backwards(nodes, a + b, levels) =~= workers_backwards(nodes, a, levels)
            + workers_backwards(nodes, b, levels));
    }
}

} // verus!
