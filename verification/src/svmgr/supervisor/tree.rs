//! The tree of supervisors and workers.
//!
//! Each node is a supervisor, which has children, or a worker, which stands
//! for a service process.

use crate::names::NameMap;
use crate::svmgr::config::service::{RestartPolicy, ServiceDef};
use crate::svmgr::config::supervisor::RestartStrategy;
use crate::svmgr::supervisor::intensity::RestartIntensity;
use crate::svmgr::supervisor::lifecycle::ServiceState;
use crate::text::{cat3, clone_strings, owned, texts};
use std::collections::HashMap;
use vstd::prelude::*;

verus! {

/// The name of a node.
pub type NodeId = String;

/// A node of the tree.
#[derive(Debug)]
pub enum TreeNode {
    Supervisor(SupervisorNode),
    Worker(WorkerNode),
}

/// A node with children.
#[derive(Debug)]
pub struct SupervisorNode {
    pub name: String,
    pub strategy: RestartStrategy,
    pub intensity: RestartIntensity,
    /// The children in the order in which they start.
    pub children: Vec<NodeId>,
    /// The supervisor above; the root has none.
    pub parent: Option<NodeId>,
}

/// A node that stands for a service.
#[derive(Debug)]
pub struct WorkerNode {
    pub name: String,
    pub def: ServiceDef,
    pub state: ServiceState,
    pub restart_policy: RestartPolicy,
    /// The place among the children of the supervisor.
    pub start_index: usize,
    pub parent: NodeId,
    /// The process, where there is one.
    pub pid: Option<i32>,
}

/// Why a node could not be added.
#[derive(Debug)]
pub enum TreeError {
    DuplicateNode(String),
    ParentNotFound(String),
    ParentIsWorker(String),
}

impl TreeError {
    /// The error in words.
    pub open spec fn text(self) -> Seq<char> {
        match self {
            TreeError::DuplicateNode(id) => "duplicate node: '"@ + id@ + "'"@,
            TreeError::ParentNotFound(id) => "parent not found: '"@ + id@ + "'"@,
            TreeError::ParentIsWorker(id) => "parent '"@ + id@
                + "' is a worker, not a supervisor"@,
        }
    }

    /// The error in words.
    pub fn message(&self) -> (r: String)
        ensures
            r@ == self.text(),
    {
        match self {
            TreeError::DuplicateNode(id) => cat3("duplicate node: '", id.as_str(), "'"),
            TreeError::ParentNotFound(id) => cat3("parent not found: '", id.as_str(), "'"),
            TreeError::ParentIsWorker(id) => cat3(
                "parent '",
                id.as_str(),
                "' is a worker, not a supervisor",
            ),
        }
    }
}

/// The tree.
#[derive(Debug)]
pub struct SupervisorTree {
    nodes: NameMap<TreeNode>,
    root_id: NodeId,
    pid_map: HashMap<i32, NodeId>,
}

/// The nodes of a tree by name.
pub type Nodes = Map<Seq<char>, TreeNode>;

/// Whether `id` is a supervisor.
pub open spec fn has_supervisor(nodes: Nodes, id: Seq<char>) -> bool {
    nodes.contains_key(id) && nodes[id] is Supervisor
}

/// Whether `id` is a worker.
pub open spec fn has_worker(nodes: Nodes, id: Seq<char>) -> bool {
    nodes.contains_key(id) && nodes[id] is Worker
}

/// The supervisor of that name.
pub open spec fn supervisor(nodes: Nodes, id: Seq<char>) -> SupervisorNode {
    nodes[id]->Supervisor_0
}

/// The worker of that name.
pub open spec fn worker(nodes: Nodes, id: Seq<char>) -> WorkerNode {
    nodes[id]->Worker_0
}

/// The children of `id`, in start order.
pub open spec fn children(nodes: Nodes, id: Seq<char>) -> Seq<Seq<char>> {
    if has_supervisor(nodes, id) {
        texts(supervisor(nodes, id).children@)
    } else {
        Seq::empty()
    }
}

/// The supervisor above `id`.
pub open spec fn parent(nodes: Nodes, id: Seq<char>) -> Option<Seq<char>> {
    if has_worker(nodes, id) {
        Some(worker(nodes, id).parent@)
    } else if has_supervisor(nodes, id) {
        match supervisor(nodes, id).parent {
            Some(p) => Some(p@),
            None => None,
        }
    } else {
        None
    }
}

/// Those of `ids` that are workers.
pub open spec fn only_workers(nodes: Nodes, ids: Seq<Seq<char>>) -> Seq<Seq<char>>
    decreases ids.len(),
{
    if ids.len() == 0 {
        Seq::empty()
    } else {
        let rest = only_workers(nodes, ids.drop_last());
        if has_worker(nodes, ids.last()) {
            rest.push(ids.last())
        } else {
            rest
        }
    }
}

/// Whether `post` is the supervisor `pre` with one more child.
pub open spec fn child_added(pre: SupervisorNode, post: SupervisorNode, name: Seq<char>) -> bool {
    &&& post.name == pre.name
    &&& post.strategy == pre.strategy
    &&& post.intensity == pre.intensity
    &&& post.parent == pre.parent
    &&& texts(post.children@) == texts(pre.children@).push(name)
}

/// Whether `post` is `pre` with a new child `name` of `parent`.
pub open spec fn node_added(pre: Nodes, post: Nodes, name: Seq<char>, parent: Seq<char>) -> bool {
    &&& !pre.contains_key(name)
    &&& has_supervisor(pre, parent)
    &&& post.dom() == pre.dom().insert(name)
    &&& has_supervisor(post, parent)
    &&& child_added(supervisor(pre, parent), supervisor(post, parent), name)
    &&& forall|k: Seq<char>| pre.contains_key(k) && k != parent ==> #[trigger] post[k] == pre[k]
}

/// Whether the nodes form a tree below `root` in which each node comes after
/// its parent in `order`.
pub open spec fn is_tree(nodes: Nodes, root: Seq<char>, order: Seq<Seq<char>>) -> bool {
    &&& order.no_duplicates()
    &&& order.to_set() == nodes.dom()
    &&& has_supervisor(nodes, root)
    &&& parent(nodes, root) is None
    // Each node goes by its name, and each but the root has a supervisor
    // above that holds it as a child.
    &&& forall|k: Seq<char>| #[trigger] nodes.contains_key(k) ==> node_name(nodes[k]) == k
    &&& forall|k: Seq<char>| #[trigger]
        nodes.contains_key(k) && k != root ==> (parent(nodes, k) matches Some(p) && has_supervisor(
            nodes,
            p,
        ) && children(nodes, p).contains(k))
    // Each child is a node below its supervisor, held once, and comes later.
    &&& forall|k: Seq<char>, i: int|
        has_supervisor(nodes, k) && 0 <= i < children(nodes, k).len() ==> child_ok(
            nodes,
            order,
            k,
            #[trigger] children(nodes, k)[i],
        )
    &&& forall|k: Seq<char>| #[trigger] has_supervisor(nodes, k) ==> children(nodes, k).no_duplicates()
    // A worker knows its place.
    &&& forall|k: Seq<char>| #[trigger]
        has_worker(nodes, k) ==> worker_ok(nodes, k)
}

/// Whether the worker `k` stands where it says among its siblings.
pub open spec fn worker_ok(nodes: Nodes, k: Seq<char>) -> bool {
    let w = worker(nodes, k);
    w.start_index < children(nodes, w.parent@).len() && children(nodes, w.parent@)[w.start_index as int] == k
}

/// Whether `c` is a node whose parent is `k`, and comes after it.
pub open spec fn child_ok(nodes: Nodes, order: Seq<Seq<char>>, k: Seq<char>, c: Seq<char>) -> bool {
    &&& nodes.contains_key(c)
    &&& parent(nodes, c) == Some(k)
    &&& order.index_of(k) < order.index_of(c)
}

/// The name that a node holds.
pub open spec fn node_name(node: TreeNode) -> Seq<char> {
    match node {
        TreeNode::Supervisor(s) => s.name@,
        TreeNode::Worker(w) => w.name@,
    }
}

impl SupervisorTree {
    /// The nodes by name.
    pub closed spec fn nodes(self) -> Nodes {
        self.nodes@
    }

    /// The names of the nodes in the order in which they were added.
    pub closed spec fn order(self) -> Seq<Seq<char>> {
        self.nodes.order()
    }

    /// The name of the root.
    pub closed spec fn root(self) -> Seq<char> {
        self.root_id@
    }

    /// The workers by process.
    pub closed spec fn pids(self) -> Map<i32, NodeId> {
        self.pid_map@
    }

    /// Whether the nodes form a tree.
    pub open spec fn intact(self) -> bool {
        is_tree(self.nodes(), self.root(), self.order())
    }

    /// No name is held twice.
    pub closed spec fn wf(self) -> bool {
        self.nodes.wf()
    }

    /// The order lists the nodes.
    pub proof fn lemma_order(self)
        requires
            self.wf(),
        ensures
            self.order().no_duplicates(),
            self.order().to_set() == self.nodes().dom(),
            self.nodes().dom().finite(),
    {
        self.nodes.lemma_order();
    }

    proof fn lemma_change_keeps_intact(self, id: Seq<char>)
        ensures
            forall|node: TreeNode|
                self.intact() && self.nodes().contains_key(id) && node_alike(
                    self.nodes()[id],
                    node,
                ) ==> is_tree(
                    #[trigger] self.nodes().insert(id, node),
                    self.root(),
                    self.order(),
                ),
    {
        assert forall|node: TreeNode|
            self.intact() && self.nodes().contains_key(id) && node_alike(
                self.nodes()[id],
                node,
            ) implies is_tree(
            #[trigger] self.nodes().insert(id, node),
            self.root(),
            self.order(),
        ) by {
            let post = self.nodes().insert(id, node);
            assert(post.dom() =~= self.nodes().dom());
            same_shape_keeps_tree(self.nodes(), post, self.root(), self.order());
        }
    }

    /// A tree that holds the root alone.
    pub fn new(root_name: &str, strategy: RestartStrategy, intensity: RestartIntensity) -> (r: Self)
        ensures
            r.wf(),
            r.root() == root_name@,
            r.pids() == Map::<i32, NodeId>::empty(),
            r.order() == seq![root_name@],
            r.nodes().dom() == set![root_name@],
            has_supervisor(r.nodes(), root_name@),
            ({
                let s = supervisor(r.nodes(), root_name@);
                &&& s.name@ == root_name@
                &&& s.strategy == strategy
                &&& s.intensity == intensity
                &&& s.children@.len() == 0
                &&& s.parent is None
            }),
            r.intact(),
    {
        let root = SupervisorNode {
            name: owned(root_name),
            strategy,
            intensity,
            children: Vec::new(),
            parent: None,
        };
        let mut nodes: NameMap<TreeNode> = NameMap::new();
        nodes.insert(owned(root_name), TreeNode::Supervisor(root));
        let r = SupervisorTree { nodes, root_id: owned(root_name), pid_map: HashMap::new() };
        proof {
            r.lemma_order();
            assert(r.nodes().dom() =~= set![root_name@]);
            assert(r.order() =~= seq![root_name@]);
            assert(r.pids() =~= Map::<i32, NodeId>::empty());
            assert(children(r.nodes(), root_name@) =~= Seq::<Seq<char>>::empty());
        }
        r
    }

    /// Puts `name` behind the children of `parent_id`, which is a supervisor,
    /// and gives its place.
    fn push_child(&mut self, parent_id: &str, name: &str) -> (r: usize)
        requires
            old(self).wf(),
            has_supervisor(old(self).nodes(), parent_id@),
        ensures
            final(self).wf(),
            final(self).root() == old(self).root(),
            final(self).pids() == old(self).pids(),
            final(self).order() == old(self).order(),
            final(self).nodes().dom() == old(self).nodes().dom(),
            has_supervisor(final(self).nodes(), parent_id@),
            child_added(
                supervisor(old(self).nodes(), parent_id@),
                supervisor(final(self).nodes(), parent_id@),
                name@,
            ),
            r == children(old(self).nodes(), parent_id@).len(),
            forall|k: Seq<char>|
                old(self).nodes().contains_key(k) && k != parent_id@
                    ==> #[trigger] final(self).nodes()[k] == old(self).nodes()[k],
    {
        let ghost before = self.nodes@;
        let mut index: usize = 0;
        if let Some(TreeNode::Supervisor(parent)) = self.nodes.get_mut(parent_id) {
            index = parent.children.len();
            parent.children.push(owned(name));
        }
        proof {
            assert(self.nodes@.dom() =~= before.dom());
            let pre = supervisor(before, parent_id@);
            let post = supervisor(self.nodes@, parent_id@);
            assert(texts(post.children@) =~= texts(pre.children@).push(name@));
        }
        index
    }

    /// Adds a supervisor under a supervisor.
    pub fn add_supervisor(
        &mut self,
        name: &str,
        parent_id: &str,
        strategy: RestartStrategy,
        intensity: RestartIntensity,
    ) -> (r: Result<(), TreeError>)
        requires
            old(self).wf(),
        ensures
            final(self).wf(),
            supervisor_added(
                *old(self),
                *final(self),
                name@,
                parent_id@,
                strategy,
                intensity,
                r,
            ),
            old(self).intact() ==> final(self).intact(),
    {
        if self.nodes.contains_key(name) {
            return Err(TreeError::DuplicateNode(owned(name)));
        }
        match self.nodes.get(parent_id) {
            Some(TreeNode::Supervisor(_)) => {},
            Some(TreeNode::Worker(_)) => {
                return Err(TreeError::ParentIsWorker(owned(parent_id)));
            },
            None => {
                return Err(TreeError::ParentNotFound(owned(parent_id)));
            },
        }
        let ghost pre = self.nodes@;
        let place = self.push_child(parent_id, name);
        let node = SupervisorNode {
            name: owned(name),
            strategy,
            intensity,
            children: Vec::new(),
            parent: Some(owned(parent_id)),
        };
        self.nodes.insert(owned(name), TreeNode::Supervisor(node));
        proof {
            assert(self.nodes@.dom() =~= pre.dom().insert(name@));
            assert(node_added(pre, self.nodes@, name@, parent_id@));
            if is_tree(old(self).nodes(), old(self).root(), old(self).order()) {
                assert(children(self.nodes@, name@) =~= Seq::<Seq<char>>::empty());
                lemma_added_keeps_tree(
                    pre,
                    self.nodes@,
                    self.root(),
                    old(self).order(),
                    name@,
                    parent_id@,
                );
            }
        }
        Ok(())
    }

    /// Adds a service under a supervisor.
    pub fn add_worker(&mut self, def: ServiceDef, parent_id: &str) -> (r: Result<(), TreeError>)
        requires
            old(self).wf(),
        ensures
            final(self).wf(),
            worker_added(*old(self), *final(self), def, parent_id@, r),
            old(self).intact() ==> final(self).intact(),
    {
        let name = def.service.name.clone();
        if self.nodes.contains_key(name.as_str()) {
            return Err(TreeError::DuplicateNode(name));
        }
        match self.nodes.get(parent_id) {
            Some(TreeNode::Supervisor(_)) => {},
            Some(TreeNode::Worker(_)) => {
                return Err(TreeError::ParentIsWorker(owned(parent_id)));
            },
            None => {
                return Err(TreeError::ParentNotFound(owned(parent_id)));
            },
        }
        let ghost pre = self.nodes@;
        let start_index = self.push_child(parent_id, name.as_str());
        let restart_policy = def.restart.policy;
        let node = WorkerNode {
            name: name.clone(),
            def,
            state: ServiceState::Stopped,
            restart_policy,
            start_index,
            parent: owned(parent_id),
            pid: None,
        };
        self.nodes.insert(name.clone(), TreeNode::Worker(node));
        proof {
            assert(self.nodes@.dom() =~= pre.dom().insert(name@));
            assert(node_added(pre, self.nodes@, name@, parent_id@));
            if is_tree(old(self).nodes(), old(self).root(), old(self).order()) {
                assert(children(self.nodes@, name@) =~= Seq::<Seq<char>>::empty());
                lemma_added_keeps_tree(
                    pre,
                    self.nodes@,
                    self.root(),
                    old(self).order(),
                    name@,
                    parent_id@,
                );
            }
        }
        Ok(())
    }

    /// Notes the process of a worker, which is then running. A name that is
    /// not a worker's is noted for the process all the same.
    pub fn register_pid(&mut self, worker_id: &str, pid: i32)
        requires
            old(self).wf(),
        ensures
            final(self).wf(),
            old(self).intact() ==> final(self).intact(),
            pid_registered(*old(self), *final(self), worker_id@, pid),
    {
        let ghost before = self.nodes@;
        if let Some(TreeNode::Worker(w)) = self.nodes.get_mut(worker_id) {
            w.pid = Some(pid);
            w.state = ServiceState::Running;
        }
        proof {
            if !has_worker(before, worker_id@) {
                assert(self.nodes@ =~= before);
            }
        }
        let ghost pids = self.pid_map@;
        self.pid_map.insert(pid, owned(worker_id));
        assert(self.pid_map@.dom() =~= pids.dom().insert(pid));
        proof {
            assert(self.nodes().dom() =~= before.dom());
            changes_keep_intact(*old(self), *self);
        }
    }

    /// Forgets a process, and gives the worker that it was.
    pub fn unregister_pid(&mut self, pid: i32) -> (r: Option<NodeId>)
        requires
            old(self).wf(),
        ensures
            final(self).wf(),
            old(self).intact() ==> final(self).intact(),
            pid_unregistered(*old(self), *final(self), pid, r),
    {
        self.pid_map.remove(&pid)
    }

    /// The worker that a process belongs to.
    pub fn worker_for_pid(&self, pid: i32) -> (r: Option<&str>)
        ensures
            match r {
                Some(s) => self.pids().contains_key(pid) && s@ == self.pids()[pid]@,
                None => !self.pids().contains_key(pid),
            },
    {
        match self.pid_map.get(&pid) {
            Some(s) => Some(s.as_str()),
            None => None,
        }
    }

    /// The node of that name.
    pub fn get(&self, id: &str) -> (r: Option<&TreeNode>)
        requires
            self.wf(),
        ensures
            match r {
                Some(n) => self.nodes().contains_key(id@) && *n == self.nodes()[id@],
                None => !self.nodes().contains_key(id@),
            },
    {
        self.nodes.get(id)
    }

    /// The node of that name, for change.
    pub fn get_mut(&mut self, id: &str) -> (r: Option<&mut TreeNode>)
        requires
            old(self).wf(),
        ensures
            final(self).wf(),
            final(self).root() == old(self).root(),
            final(self).order() == old(self).order(),
            final(self).pids() == old(self).pids(),
            r is Some <==> old(self).nodes().contains_key(id@),
            match r {
                Some(n) => {
                    &&& *n == old(self).nodes()[id@]
                    &&& final(self).nodes() == old(self).nodes().insert(id@, *final(n))
                    &&& old(self).intact() && node_alike(*n, *final(n)) ==> final(self).intact()
                },
                None => {
                    &&& final(self).nodes() == old(self).nodes()
                    &&& old(self).intact() ==> final(self).intact()
                },
            },
    {
        proof {
            self.lemma_change_keeps_intact(id@);
        }
        self.nodes.get_mut(id)
    }

    /// The worker of that name.
    pub fn get_worker(&self, id: &str) -> (r: Option<&WorkerNode>)
        requires
            self.wf(),
        ensures
            match r {
                Some(w) => has_worker(self.nodes(), id@) && *w == worker(self.nodes(), id@),
                None => !has_worker(self.nodes(), id@),
            },
    {
        match self.nodes.get(id) {
            Some(TreeNode::Worker(w)) => Some(w),
            _ => None,
        }
    }

    /// The worker of that name, for change.
    pub fn get_worker_mut(&mut self, id: &str) -> (r: Option<&mut WorkerNode>)
        requires
            old(self).wf(),
        ensures
            final(self).wf(),
            final(self).root() == old(self).root(),
            final(self).order() == old(self).order(),
            final(self).pids() == old(self).pids(),
            r is Some <==> has_worker(old(self).nodes(), id@),
            match r {
                Some(w) => {
                    &&& *w == worker(old(self).nodes(), id@)
                    &&& final(self).nodes() == old(self).nodes().insert(
                        id@,
                        TreeNode::Worker(*final(w)),
                    )
                    &&& old(self).intact() && node_alike(
                        TreeNode::Worker(*w),
                        TreeNode::Worker(*final(w)),
                    ) ==> final(self).intact()
                },
                None => {
                    &&& final(self).nodes() == old(self).nodes()
                    &&& old(self).intact() ==> final(self).intact()
                },
            },
    {
        proof {
            self.lemma_change_keeps_intact(id@);
        }
        let is_worker = match self.nodes.get(id) {
            Some(TreeNode::Worker(_)) => true,
            _ => false,
        };
        if is_worker {
            match self.nodes.get_mut(id) {
                Some(TreeNode::Worker(w)) => Some(w),
                _ => None,
            }
        } else {
            None
        }
    }

    /// The supervisor of that name.
    pub fn get_supervisor(&self, id: &str) -> (r: Option<&SupervisorNode>)
        requires
            self.wf(),
        ensures
            match r {
                Some(s) => has_supervisor(self.nodes(), id@) && *s == supervisor(self.nodes(), id@),
                None => !has_supervisor(self.nodes(), id@),
            },
    {
        match self.nodes.get(id) {
            Some(TreeNode::Supervisor(s)) => Some(s),
            _ => None,
        }
    }

    /// The number of nodes.
    pub fn node_count(&self) -> (r: usize)
        requires
            self.wf(),
        ensures
            r == self.order().len(),
    {
        self.nodes.len()
    }

    /// The name of the root.
    pub fn root_id(&self) -> (r: &str)
        ensures
            r@ == self.root(),
    {
        self.root_id.as_str()
    }

    /// The workers among the children of a supervisor, in start order.
    pub fn workers_under(&self, supervisor_id: &str) -> (r: Vec<NodeId>)
        requires
            self.wf(),
        ensures
            texts(r@) == only_workers(self.nodes(), children(self.nodes(), supervisor_id@)),
    {
        let mut r: Vec<NodeId> = Vec::new();
        assert(texts(r@) =~= Seq::<Seq<char>>::empty());
        let sup = match self.nodes.get(supervisor_id) {
            Some(TreeNode::Supervisor(s)) => s,
            _ => {
                return r;
            },
        };
        let ghost ids = texts(sup.children@);
        let mut i: usize = 0;
        while i < sup.children.len()
            invariant
                i <= sup.children.len(),
                self.wf(),
                ids == texts(sup.children@),
                texts(r@) == only_workers(self.nodes(), ids.take(i as int)),
            decreases sup.children.len() - i,
        {
            let id = &sup.children[i];
            let ghost before = texts(r@);
            proof {
                assert(ids.take(i + 1).drop_last() =~= ids.take(i as int));
                assert(ids.take(i + 1).last() == id@);
            }
            if let Some(TreeNode::Worker(_)) = self.nodes.get(id.as_str()) {
                r.push(id.clone());
                assert(texts(r@) =~= before.push(id@));
            }
            i += 1;
        }
        assert(ids.take(ids.len() as int) =~= ids);
        r
    }

    /// The children of a supervisor, in start order.
    pub fn children_of(&self, supervisor_id: &str) -> (r: Vec<NodeId>)
        requires
            self.wf(),
        ensures
            texts(r@) == children(self.nodes(), supervisor_id@),
    {
        match self.nodes.get(supervisor_id) {
            Some(TreeNode::Supervisor(s)) => clone_strings(&s.children),
            _ => {
                let r: Vec<NodeId> = Vec::new();
                assert(texts(r@) =~= Seq::<Seq<char>>::empty());
                r
            },
        }
    }

    /// The supervisor above a node.
    pub fn parent_of(&self, node_id: &str) -> (r: Option<&str>)
        requires
            self.wf(),
        ensures
            match r {
                Some(p) => parent(self.nodes(), node_id@) == Some(p@),
                None => parent(self.nodes(), node_id@) is None,
            },
    {
        match self.nodes.get(node_id) {
            Some(TreeNode::Worker(w)) => Some(w.parent.as_str()),
            Some(TreeNode::Supervisor(s)) => match &s.parent {
                Some(p) => Some(p.as_str()),
                None => None,
            },
            None => None,
        }
    }

    /// The names of all workers, in the order in which they were added.
    pub fn all_workers(&self) -> (r: Vec<&str>)
        requires
            self.wf(),
        ensures
            r@.map_values(|s: &str| s@) == only_workers(self.nodes(), self.order()),
    {
        let mut r: Vec<&str> = Vec::new();
        let n = self.nodes.len();
        let ghost o = self.nodes.order();
        let mut i: usize = 0;
        assert(r@.map_values(|s: &str| s@) =~= Seq::<Seq<char>>::empty());
        while i < n
            invariant
                i <= n,
                n == o.len(),
                o == self.nodes.order(),
                self.wf(),
                r@.map_values(|s: &str| s@) == only_workers(self.nodes(), o.take(i as int)),
            decreases n - i,
        {
            let ghost before = r@.map_values(|s: &str| s@);
            proof {
                assert(o.take(i + 1).drop_last() =~= o.take(i as int));
                assert(o.take(i + 1).last() == o[i as int]);
            }
            if let TreeNode::Worker(_) = self.nodes.value_at(i) {
                let id = self.nodes.key_at(i).as_str();
                r.push(id);
                assert(r@.map_values(|s: &str| s@) =~= before.push(id@));
            }
            i += 1;
        }
        assert(o.take(o.len() as int) =~= o);
        r
    }
}

/// What adding a supervisor does.
pub open spec fn supervisor_added(
    pre: SupervisorTree,
    post: SupervisorTree,
    name: Seq<char>,
    parent: Seq<char>,
    strategy: RestartStrategy,
    intensity: RestartIntensity,
    r: Result<(), TreeError>,
) -> bool {
    &&& post.root() == pre.root()
    &&& post.pids() == pre.pids()
    &&& add_outcome(pre.nodes(), name, parent, r)
    &&& r is Err ==> post == pre
    &&& r is Ok ==> {
        &&& node_added(pre.nodes(), post.nodes(), name, parent)
        &&& post.order() == pre.order().push(name)
        &&& has_supervisor(post.nodes(), name)
        &&& ({
            let s = supervisor(post.nodes(), name);
            &&& s.name@ == name
            &&& s.strategy == strategy
            &&& s.intensity == intensity
            &&& s.children@.len() == 0
            &&& s.parent matches Some(p) && p@ == parent
        })
    }
}

/// What adding a service does.
pub open spec fn worker_added(
    pre: SupervisorTree,
    post: SupervisorTree,
    def: ServiceDef,
    parent: Seq<char>,
    r: Result<(), TreeError>,
) -> bool {
    let name = def.service.name@;
    &&& post.root() == pre.root()
    &&& post.pids() == pre.pids()
    &&& add_outcome(pre.nodes(), name, parent, r)
    &&& r is Err ==> post == pre
    &&& r is Ok ==> {
        &&& node_added(pre.nodes(), post.nodes(), name, parent)
        &&& post.order() == pre.order().push(name)
        &&& has_worker(post.nodes(), name)
        &&& ({
            let w = worker(post.nodes(), name);
            &&& w.name@ == name
            &&& w.def == def
            &&& w.state == ServiceState::Stopped
            &&& w.restart_policy == def.restart.policy
            &&& w.start_index == children(pre.nodes(), parent).len()
            &&& w.parent@ == parent
            &&& w.pid is None
        })
    }
}

/// When a node can be added, and the error where it cannot.
pub open spec fn add_outcome(
    nodes: Nodes,
    name: Seq<char>,
    parent: Seq<char>,
    r: Result<(), TreeError>,
) -> bool {
    if nodes.contains_key(name) {
        r matches Err(TreeError::DuplicateNode(n)) && n@ == name
    } else if !nodes.contains_key(parent) {
        r matches Err(TreeError::ParentNotFound(p)) && p@ == parent
    } else if nodes[parent] is Worker {
        r matches Err(TreeError::ParentIsWorker(p)) && p@ == parent
    } else {
        r is Ok
    }
}

proof fn lemma_index(s: Seq<Seq<char>>, i: int)
    requires
        s.no_duplicates(),
        0 <= i < s.len(),
    ensures
        s.index_of(s[i]) == i,
{
}

/// A new child without children of its own keeps the tree a tree.
proof fn lemma_added_keeps_tree(
    pre: Nodes,
    post: Nodes,
    root: Seq<char>,
    order: Seq<Seq<char>>,
    name: Seq<char>,
    up: Seq<char>,
)
    requires
        is_tree(pre, root, order),
        node_added(pre, post, name, up),
        node_name(post[name]) == name,
        parent(post, name) == Some(up),
        children(post, name).len() == 0,
        has_worker(post, name) ==> worker(post, name).start_index == children(pre, up).len(),
    ensures
        is_tree(post, root, order.push(name)),
{
    let o = order.push(name);
    let n = order.len() as int;
    assert(o[n] == name);
    assert(!order.contains(name)) by {
        if order.contains(name) {
            assert(order.to_set().contains(name));
        }
    }
    order.lemma_push_to_set_commute(name);
    assert(o.no_duplicates());
    assert(children(post, up) == children(pre, up).push(name));
    lemma_index(o, n);
    assert forall|k: Seq<char>| pre.contains_key(k) implies {
        &&& #[trigger] post.contains_key(k)
        &&& parent(post, k) == parent(pre, k)
        &&& has_supervisor(post, k) == has_supervisor(pre, k)
        &&& has_worker(post, k) == has_worker(pre, k)
        &&& node_name(post[k]) == node_name(pre[k])
        &&& k != up ==> children(post, k) == children(pre, k)
        &&& order.index_of(k) == o.index_of(k)
        &&& 0 <= order.index_of(k) < n
    } by {
        if k != up {
            assert(post[k] == pre[k]);
        }
        assert(order.to_set().contains(k));
        let i = choose|i: int| 0 <= i < order.len() && order[i] == k;
        lemma_index(order, i);
        lemma_index(o, i);
    }
    assert forall|k: Seq<char>| #[trigger] post.contains_key(k) && k != root implies (parent(
        post,
        k,
    ) matches Some(p) && has_supervisor(post, p) && children(post, p).contains(k)) by {
        if k == name {
            let c = children(post, up);
            assert(c[c.len() - 1] == name);
        } else {
            assert(pre.contains_key(k));
            let p = parent(pre, k)->0;
            assert(has_supervisor(pre, p) && children(pre, p).contains(k));
            let i = choose|i: int| 0 <= i < children(pre, p).len() && children(pre, p)[i] == k;
            assert(children(post, p)[i] == k);
        }
    }
    assert forall|k: Seq<char>, i: int|
        has_supervisor(post, k) && 0 <= i < children(post, k).len() implies child_ok(
        post,
        o,
        k,
        #[trigger] children(post, k)[i],
    ) by {
        assert(k != name);
        assert(pre.contains_key(k));
        if i < children(pre, k).len() {
            let c = children(pre, k)[i];
            assert(children(post, k)[i] == c);
            assert(child_ok(pre, order, k, c));
            assert(pre.contains_key(c));
        } else {
            assert(k == up);
            assert(children(post, k)[i] == name);
        }
    }
    assert forall|k: Seq<char>| #[trigger] has_supervisor(post, k) implies children(post, k).no_duplicates() by {
        if k == up {
            let c = children(pre, up);
            assert(has_supervisor(pre, up));
            assert(!c.contains(name)) by {
                if c.contains(name) {
                    let i = choose|i: int| 0 <= i < c.len() && c[i] == name;
                    assert(child_ok(pre, order, up, children(pre, up)[i]));
                }
            }
        } else if k != name {
            assert(pre.contains_key(k));
            assert(has_supervisor(pre, k));
        }
    }
    assert forall|k: Seq<char>| #[trigger] has_worker(post, k) implies worker_ok(post, k) by {
        if k != name {
            assert(pre.contains_key(k));
            assert(has_worker(pre, k));
            assert(worker_ok(pre, k));
            assert(post[k] == pre[k]);
            let p = worker(pre, k).parent@;
            assert(children(post, p)[worker(pre, k).start_index as int] == k);
        }
    }
    assert forall|k: Seq<char>| #[trigger] post.contains_key(k) implies node_name(post[k]) == k by {
        if k != name {
            assert(pre.contains_key(k));
        }
    }
    assert(pre.contains_key(root));
}

/// Whether two nodes have one name, one parent and the same children.
pub open spec fn node_alike(a: TreeNode, b: TreeNode) -> bool {
    match (a, b) {
        (TreeNode::Supervisor(s), TreeNode::Supervisor(t)) => {
            &&& s.name == t.name
            &&& s.children == t.children
            &&& s.parent == t.parent
        },
        (TreeNode::Worker(w), TreeNode::Worker(v)) => {
            &&& w.name == v.name
            &&& w.parent == v.parent
            &&& w.start_index == v.start_index
        },
        _ => false,
    }
}

/// Whether the nodes are the same, up to what does not shape the tree.
pub open spec fn same_shape(pre: Nodes, post: Nodes) -> bool {
    &&& post.dom() == pre.dom()
    &&& forall|k: Seq<char>| #[trigger] pre.contains_key(k) ==> node_alike(pre[k], post[k])
}

/// Changes to states, processes, strategies and restart counts keep the tree
/// a tree.
pub proof fn same_shape_keeps_tree(
    pre: Nodes,
    post: Nodes,
    root: Seq<char>,
    order: Seq<Seq<char>>,
)
    requires
        is_tree(pre, root, order),
        same_shape(pre, post),
    ensures
        is_tree(post, root, order),
{
    assert forall|k: Seq<char>| #[trigger] post.contains_key(k) implies {
        &&& pre.contains_key(k)
        &&& parent(post, k) == parent(pre, k)
        &&& children(post, k) == children(pre, k)
        &&& has_supervisor(post, k) == has_supervisor(pre, k)
        &&& has_worker(post, k) == has_worker(pre, k)
        &&& node_name(post[k]) == node_name(pre[k])
    } by {
        assert(pre.contains_key(k));
    }
    assert(post.contains_key(root));
    assert forall|k: Seq<char>, i: int|
        has_supervisor(post, k) && 0 <= i < children(post, k).len() implies child_ok(
        post,
        order,
        k,
        #[trigger] children(post, k)[i],
    ) by {
        assert(post.contains_key(k));
        assert(child_ok(pre, order, k, children(pre, k)[i]));
        assert(post.contains_key(children(pre, k)[i]));
    }
    assert forall|k: Seq<char>| #[trigger] has_supervisor(post, k) implies children(post, k).no_duplicates() by {
        assert(post.contains_key(k));
        assert(has_supervisor(pre, k));
    }
    assert forall|k: Seq<char>| #[trigger] has_worker(post, k) implies worker_ok(post, k) by {
        assert(post.contains_key(k));
        assert(has_worker(pre, k));
        assert(worker_ok(pre, k));
        let p = worker(pre, k).parent@;
        assert(worker(post, k).parent == worker(pre, k).parent);
        assert(pre.contains_key(p));
        assert(post.contains_key(p));
    }
    assert forall|k: Seq<char>| #[trigger] post.contains_key(k) && k != root implies (parent(
        post,
        k,
    ) matches Some(p) && has_supervisor(post, p) && children(post, p).contains(k)) by {
        assert(pre.contains_key(k));
        let p = parent(pre, k)->0;
        assert(has_supervisor(pre, p));
        assert(post.contains_key(p));
    }
}

/// Changes to states, processes, strategies and restart counts leave a tree
/// intact.
pub proof fn changes_keep_intact(pre: SupervisorTree, post: SupervisorTree)
    requires
        post.root() == pre.root(),
        post.order() == pre.order(),
        same_shape(pre.nodes(), post.nodes()),
    ensures
        pre.intact() ==> post.intact(),
{
    if pre.intact() {
        same_shape_keeps_tree(pre.nodes(), post.nodes(), pre.root(), pre.order());
    }
}

/// A node that has a parent is one of the children of that supervisor, and
/// comes after it.
pub proof fn lemma_parent_comes_first(
    nodes: Nodes,
    root: Seq<char>,
    order: Seq<Seq<char>>,
    id: Seq<char>,
)
    requires
        is_tree(nodes, root, order),
        parent(nodes, id) is Some,
    ensures
        nodes.contains_key(id),
        has_supervisor(nodes, parent(nodes, id)->0),
        children(nodes, parent(nodes, id)->0).contains(id),
        0 <= order.index_of(parent(nodes, id)->0) < order.index_of(id),
{
    let up = parent(nodes, id)->0;
    assert(nodes.contains_key(id));
    let i = choose|i: int|
        0 <= i < children(nodes, up).len() && children(nodes, up)[i] == id;
    assert(child_ok(nodes, order, up, children(nodes, up)[i]));
    assert(order.to_set().contains(up));
    assert(order.contains(up));
}

/// What has the shape of a second that has the shape of a third has the shape
/// of the third.
pub proof fn lemma_shape_carries(a: Nodes, b: Nodes, c: Nodes)
    requires
        same_shape(a, b),
        same_shape(b, c),
    ensures
        same_shape(a, c),
{
    assert forall|k: Seq<char>| #[trigger] a.contains_key(k) implies node_alike(a[k], c[k]) by {
        assert(b.contains_key(k));
        assert(node_alike(a[k], b[k]));
        assert(node_alike(b[k], c[k]));
    }
}

/// Nodes of the same shape have the same kinds, parents and children.
pub proof fn lemma_same_links(a: Nodes, b: Nodes, id: Seq<char>)
    requires
        same_shape(a, b),
    ensures
        parent(a, id) == parent(b, id),
        children(a, id) == children(b, id),
        has_supervisor(a, id) == has_supervisor(b, id),
        has_worker(a, id) == has_worker(b, id),
{
    if a.contains_key(id) {
        assert(node_alike(a[id], b[id]));
    }
}

/// Of a list of nodes, just the workers are left, each as often as it was there
/// where none was there twice.
pub proof fn just_the_workers_are_left(nodes: Nodes, ids: Seq<Seq<char>>)
    ensures
        forall|x: Seq<char>| #[trigger]
            only_workers(nodes, ids).contains(x) <==> ids.contains(x) && has_worker(nodes, x),
        ids.no_duplicates() ==> only_workers(nodes, ids).no_duplicates(),
    decreases ids.len(),
{
    let v = only_workers(nodes, ids);
    if ids.len() > 0 {
        let front = ids.drop_last();
        let w = only_workers(nodes, front);
        just_the_workers_are_left(nodes, front);
        assert forall|x: Seq<char>| #[trigger] v.contains(x) <==> ids.contains(x) && has_worker(
            nodes,
            x,
        ) by {
            if v.contains(x) {
                let i = choose|i: int| 0 <= i < v.len() && v[i] == x;
                if i < w.len() {
                    assert(w[i] == x);
                    assert(w.contains(x));
                    let j = choose|j: int| 0 <= j < front.len() && front[j] == x;
                    assert(ids[j] == x);
                }
            }
            if ids.contains(x) && has_worker(nodes, x) {
                let i = choose|i: int| 0 <= i < ids.len() && ids[i] == x;
                if i < front.len() {
                    assert(front[i] == x);
                    assert(w.contains(x));
                    let j = choose|j: int| 0 <= j < w.len() && w[j] == x;
                    assert(v[j] == x);
                } else {
                    assert(v.last() == x);
                }
            }
        }
        if ids.no_duplicates() {
            assert(front.no_duplicates());
            assert(!front.contains(ids.last())) by {
                if front.contains(ids.last()) {
                    let j = choose|j: int| 0 <= j < front.len() && front[j] == ids.last();
                    assert(ids[j] == ids[ids.len() - 1]);
                }
            }
            assert(!w.contains(ids.last()));
            assert forall|i: int, j: int| 0 <= i < v.len() && 0 <= j < v.len() && i
                != j implies v[i] != v[j] by {
                if i < w.len() {
                    assert(w.contains(w[i]));
                }
                if j < w.len() {
                    assert(w.contains(w[j]));
                }
            }
        }
    }
}

/// What noting the process of a worker does.
pub open spec fn pid_registered(
    pre: SupervisorTree,
    post: SupervisorTree,
    id: Seq<char>,
    pid: i32,
) -> bool {
    &&& post.root() == pre.root()
    &&& post.order() == pre.order()
    &&& post.nodes() == if has_worker(pre.nodes(), id) {
            pre.nodes().insert(
                id,
                TreeNode::Worker(
                    WorkerNode {
                        pid: Some(pid),
                        state: ServiceState::Running,
                        ..worker(pre.nodes(), id)
                    },
                ),
            )
        } else {
            pre.nodes()
        }
    &&& post.pids().dom() == pre.pids().dom().insert(pid)
    &&& post.pids()[pid]@ == id
    &&& forall|p: i32| p != pid && pre.pids().contains_key(p)
            ==> #[trigger] post.pids()[p] == pre.pids()[p]
}

/// What forgetting a process does and tells.
pub open spec fn pid_unregistered(
    pre: SupervisorTree,
    post: SupervisorTree,
    pid: i32,
    r: Option<NodeId>,
) -> bool {
    &&& post.root() == pre.root()
    &&& post.order() == pre.order()
    &&& post.nodes() == pre.nodes()
    &&& post.pids() == pre.pids().remove(pid)
    &&& r == if pre.pids().contains_key(pid) {
            Some(pre.pids()[pid])
        } else {
            None
        }
}

/// A process that is noted for a worker is found there, and the worker runs as
/// that process. Once it is forgotten it is found no more. Other processes and
/// other nodes stay.
pub proof fn registered_process_is_found(
    pre: SupervisorTree,
    mid: SupervisorTree,
    post: SupervisorTree,
    id: Seq<char>,
    pid: i32,
    r: Option<NodeId>,
    x: Seq<char>,
    p: i32,
)
    requires
        pid_registered(pre, mid, id, pid),
        pid_unregistered(mid, post, pid, r),
    ensures
        mid.pids().contains_key(pid),
        mid.pids()[pid]@ == id,
        has_worker(pre.nodes(), id) ==> has_worker(mid.nodes(), id) && worker(mid.nodes(), id) == (
        WorkerNode {
            pid: Some(pid),
            state: ServiceState::Running,
            ..worker(pre.nodes(), id)
        }),
        x != id ==> mid.nodes().contains_key(x) == pre.nodes().contains_key(x) && mid.nodes()[x]
            == pre.nodes()[x],
        p != pid ==> mid.pids().contains_key(p) == pre.pids().contains_key(p),
        p != pid && pre.pids().contains_key(p) ==> mid.pids()[p] == pre.pids()[p],
        r is Some,
        r->0@ == id,
        !post.pids().contains_key(pid),
        p != pid && pre.pids().contains_key(p) ==> post.pids().contains_key(p) && post.pids()[p]
            == pre.pids()[p],
        post.nodes() == mid.nodes(),
{
}

/// A service is added just where no node has its name and its parent is a
/// supervisor. It is then the last child of that parent, holds its definition
/// and its policy, and is stopped. All other nodes keep their kind and their
/// content.
pub proof fn added_service_is_as_defined(
    pre: SupervisorTree,
    post: SupervisorTree,
    def: ServiceDef,
    parent_id: Seq<char>,
    r: Result<(), TreeError>,
    x: Seq<char>,
)
    requires
        worker_added(pre, post, def, parent_id, r),
    ensures
        r is Ok <==> !pre.nodes().contains_key(def.service.name@) && has_supervisor(
            pre.nodes(),
            parent_id,
        ),
        r is Err ==> post == pre,
        r is Ok ==> {
            let name = def.service.name@;
            let w = worker(post.nodes(), name);
            &&& has_worker(post.nodes(), name)
            &&& w.def == def
            &&& w.restart_policy == def.restart.policy
            &&& w.state is Stopped
            &&& w.pid is None
            &&& w.parent@ == parent_id
            &&& children(post.nodes(), parent_id) == children(pre.nodes(), parent_id).push(name)
            &&& x != name && x != parent_id && pre.nodes().contains_key(x)
                ==> post.nodes().contains_key(x) && post.nodes()[x] == pre.nodes()[x]
            &&& supervisor(post.nodes(), parent_id).strategy == supervisor(
                pre.nodes(),
                parent_id,
            ).strategy
            &&& supervisor(post.nodes(), parent_id).intensity == supervisor(
                pre.nodes(),
                parent_id,
            ).intensity
        },
{
}

/// A supervisor is added just where no node has its name and its parent is a
/// supervisor. It is then the last child of that parent, has its strategy and
/// its limit, and no children. All other nodes keep their kind and their
/// content.
pub proof fn added_supervisor_is_as_asked(
    pre: SupervisorTree,
    post: SupervisorTree,
    name: Seq<char>,
    parent_id: Seq<char>,
    strategy: RestartStrategy,
    intensity: RestartIntensity,
    r: Result<(), TreeError>,
    x: Seq<char>,
)
    requires
        supervisor_added(pre, post, name, parent_id, strategy, intensity, r),
    ensures
        r is Ok <==> !pre.nodes().contains_key(name) && has_supervisor(pre.nodes(), parent_id),
        r is Err ==> post == pre,
        r is Ok ==> {
            let s = supervisor(post.nodes(), name);
            &&& has_supervisor(post.nodes(), name)
            &&& s.strategy == strategy
            &&& s.intensity == intensity
            &&& s.children@.len() == 0
            &&& parent(post.nodes(), name) == Some(parent_id)
            &&& children(post.nodes(), parent_id) == children(pre.nodes(), parent_id).push(name)
            &&& x != name && x != parent_id && pre.nodes().contains_key(x)
                ==> post.nodes().contains_key(x) && post.nodes()[x] == pre.nodes()[x]
        },
{
}

} // verus!
