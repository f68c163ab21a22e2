//! Commands on the control socket: what is answered, and what is to be done.

use crate::common::protocol::{Message, MessageBody, MessageKind, ServiceEntry, ShutdownKind};
use crate::svmgr::config::supervisor::RestartStrategy;
use crate::svmgr::supervisor::lifecycle::{states_have_their_own_names, ServiceState};
use crate::svmgr::supervisor::tree::{
    child_ok, children, has_supervisor, has_worker, just_the_workers_are_left, only_workers,
    supervisor, worker, Nodes, SupervisorTree, TreeNode,
};
use crate::text::num::{dec_int, i64_text};
use crate::text::scan::{has_part, has_prefix};
use crate::text::{cat, opt_text, owned, repeat, repeated, texts};
use vstd::prelude::*;

verus! {

/// What a command asks the service manager to do.
#[derive(Debug)]
pub enum ControlAction {
    StartService(String),
    StopService(String),
    RestartService(String),
    Shutdown(ShutdownKind),
}

/// The name of a strategy.
pub open spec fn strategy_name(s: RestartStrategy) -> Seq<char> {
    match s {
        RestartStrategy::OneForOne => "OneForOne"@,
        RestartStrategy::OneForAll => "OneForAll"@,
        RestartStrategy::RestForOne => "RestForOne"@,
    }
}

fn strategy_text(s: RestartStrategy) -> (r: &'static str)
    ensures
        r@ == strategy_name(s),
{
    match s {
        RestartStrategy::OneForOne => "OneForOne",
        RestartStrategy::OneForAll => "OneForAll",
        RestartStrategy::RestForOne => "RestForOne",
    }
}

/// The line of a supervisor.
pub open spec fn supervisor_line(id: Seq<char>, strategy: RestartStrategy, depth: nat) -> Seq<char> {
    repeated("  "@, depth) + "[supervisor: "@ + id + "] strategy="@ + strategy_name(strategy)
        + "\n"@
}

/// The process of a worker in words.
pub open spec fn pid_text(pid: Option<i32>) -> Seq<char> {
    match pid {
        Some(p) => " pid="@ + dec_int(p as int),
        None => Seq::empty(),
    }
}

/// The line of a worker.
pub open spec fn worker_line(id: Seq<char>, state: Seq<char>, pid: Option<i32>, depth: nat) -> Seq<
    char,
> {
    repeated("  "@, depth) + id + " ["@ + state + "]"@ + pid_text(pid) + "\n"@
}

/// The line of a name that is no node.
pub open spec fn unknown_line(id: Seq<char>, depth: nat) -> Seq<char> {
    repeated("  "@, depth) + id + " [unknown]\n"@
}

/// The tree below `id` in words, one node on a line and children indented,
/// down to `levels` levels.
pub open spec fn tree_text(nodes: Nodes, id: Seq<char>, depth: nat, levels: nat) -> Seq<char>
    decreases levels, 0nat,
{
    if levels == 0 {
        Seq::empty()
    } else if has_supervisor(nodes, id) {
        supervisor_line(id, supervisor(nodes, id).strategy, depth) + children_text(
            nodes,
            children(nodes, id),
            depth + 1,
            (levels - 1) as nat,
        )
    } else if has_worker(nodes, id) {
        worker_line(id, worker(nodes, id).state.name(), worker(nodes, id).pid, depth)
    } else {
        unknown_line(id, depth)
    }
}

/// The trees below each of `ids` in words.
pub open spec fn children_text(nodes: Nodes, ids: Seq<Seq<char>>, depth: nat, levels: nat) -> Seq<
    char,
>
    decreases levels, ids.len() + 1,
{
    if ids.len() == 0 {
        Seq::empty()
    } else {
        children_text(nodes, ids.drop_last(), depth, levels) + tree_text(
            nodes,
            ids.last(),
            depth,
            levels,
        )
    }
}

/// How many levels a node can have below it, itself counted.
spec fn room(order: Seq<Seq<char>>, nodes: Nodes, id: Seq<char>) -> int {
    if nodes.contains_key(id) {
        order.len() - order.index_of(id)
    } else {
        1
    }
}

fn format_below(tree: &SupervisorTree, node_id: &str, depth: usize, Ghost(levels): Ghost<nat>) -> (r:
    String)
    requires
        tree.wf(),
        tree.intact(),
        room(tree.order(), tree.nodes(), node_id@) <= levels,
        depth + levels <= usize::MAX,
        levels > 0,
    ensures
        r@ == tree_text(tree.nodes(), node_id@, depth as nat, levels),
    decreases levels,
{
    let mut output = repeat("  ", depth);
    let ghost nodes = tree.nodes();
    match tree.get(node_id) {
        Some(TreeNode::Supervisor(s)) => {
            output.append("[supervisor: ");
            output.append(node_id);
            output.append("] strategy=");
            output.append(strategy_text(s.strategy));
            output.append("\n");
            let ghost head = output@;
            let ghost kids = texts(s.children@);
            let mut i: usize = 0;
            while i < s.children.len()
                invariant
                    i <= s.children.len(),
                    tree.wf(),
                    nodes == tree.nodes(),
                    tree.intact(),
                    has_supervisor(nodes, node_id@),
                    kids == texts(s.children@),
                    kids == children(nodes, node_id@),
                    room(tree.order(), nodes, node_id@) <= levels,
                    depth + levels <= usize::MAX,
                    levels > 0,
                    output@ == head + children_text(
                        nodes,
                        kids.take(i as int),
                        (depth + 1) as nat,
                        (levels - 1) as nat,
                    ),
                decreases s.children.len() - i,
            {
                let child = s.children[i].as_str();
                proof {
                    assert(children(nodes, node_id@)[i as int] == child@);
                    assert(child_ok(nodes, tree.order(), node_id@, children(nodes, node_id@)[i as int]));
                    tree.lemma_order();
                    assert(tree.order().contains(child@)) by {
                        assert(tree.order().to_set().contains(child@));
                    }
                    assert(tree.order().index_of(child@) < tree.order().len());
                    assert(kids.take(i + 1).drop_last() =~= kids.take(i as int));
                    assert(kids.take(i + 1).last() == child@);
                }
                let below = format_below(tree, child, depth + 1, Ghost((levels - 1) as nat));
                let ghost before = output@;
                output.append(below.as_str());
                proof {
                    assert(output@ =~= head + (children_text(
                        nodes,
                        kids.take(i as int),
                        (depth + 1) as nat,
                        (levels - 1) as nat,
                    ) + below@));
                }
                i += 1;
            }
            assert(kids.take(kids.len() as int) =~= kids);
        },
        Some(TreeNode::Worker(w)) => {
            output.append(node_id);
            output.append(" [");
            output.append(w.state.display_name());
            output.append("]");
            let ghost mid = output@;
            if let Some(p) = w.pid {
                output.append(" pid=");
                output.append(i64_text(p as i64).as_str());
            }
            assert(output@ =~= mid + pid_text(w.pid));
            output.append("\n");
        },
        None => {
            output.append(node_id);
            output.append(" [unknown]\n");
        },
    }
    output
}

/// The tree below a node in words.
pub fn format_tree(tree: &SupervisorTree, node_id: &str, depth: usize) -> (r: String)
    requires
        tree.wf(),
        tree.intact(),
        depth + tree.order().len() <= usize::MAX,
    ensures
        r@ == tree_text(tree.nodes(), node_id@, depth as nat, tree.order().len()),
{
    proof {
        tree.lemma_order();
        assert(tree.order().to_set().contains(tree.root()));
        assert(tree.order().contains(tree.root()));
        if tree.nodes().contains_key(node_id@) {
            assert(tree.order().to_set().contains(node_id@));
            assert(tree.order().contains(node_id@));
        }
    }
    format_below(tree, node_id, depth, Ghost(tree.order().len()))
}

/// The entry of a worker in a list.
pub open spec fn entry_of(nodes: Nodes, id: Seq<char>, e: ServiceEntry) -> bool {
    &&& e.name@ == id
    &&& e.status@ == worker(nodes, id).state.name()
    &&& e.pid == worker(nodes, id).pid
}

/// The answer to a command that names a service that is not there.
pub open spec fn refused(name: Seq<char>, reply: MessageBody) -> bool {
    reply matches MessageBody::Error { message } && message@ == "unknown service: "@ + name
}

/// What is answered to `body`, and what is to be done.
pub open spec fn answers(
    tree: SupervisorTree,
    body: MessageBody,
    reply: MessageBody,
    action: Option<ControlAction>,
) -> bool {
    let nodes = tree.nodes();
    match body {
        MessageBody::StartService { name } => if has_worker(nodes, name@) {
            reply is Ack && action == Some(ControlAction::StartService(name))
        } else {
            refused(name@, reply) && action is None
        },
        MessageBody::StopService { name } => if has_worker(nodes, name@) {
            reply is Ack && action == Some(ControlAction::StopService(name))
        } else {
            refused(name@, reply) && action is None
        },
        MessageBody::RestartService { name } => if has_worker(nodes, name@) {
            reply is Ack && action == Some(ControlAction::RestartService(name))
        } else {
            refused(name@, reply) && action is None
        },
        MessageBody::ServiceStatus { name } => action is None && if has_worker(nodes, name@) {
            reply matches MessageBody::ServiceInfo { name: n, status, pid, supervisor } && n == name
                && status@ == worker(nodes, name@).state.name() && pid == worker(nodes, name@).pid
                && supervisor == worker(nodes, name@).parent
        } else {
            refused(name@, reply)
        },
        MessageBody::ListServices => action is None && (reply matches MessageBody::ServiceList {
            services,
        } && lists(nodes, only_workers(nodes, tree.order()), services@)),
        MessageBody::TreeStatus => action is None && (reply matches MessageBody::Tree { text }
            && text@ == tree_text(nodes, tree.root(), 0, tree.order().len())),
        MessageBody::Shutdown { kind } => reply is Ack && action == Some(
            ControlAction::Shutdown(kind),
        ),
        MessageBody::GetServiceByPid { pid } => action is None && (
        reply matches MessageBody::ServiceByPid { name, pid: p } && p == pid && match name {
            Some(n) => tree.pids().contains_key(pid) && n@ == tree.pids()[pid]@,
            None => !tree.pids().contains_key(pid),
        }),
        _ => action is None && (reply matches MessageBody::Error { message } && message@
            == "unknown command"@),
    }
}

/// Whether `services` holds the entries of the workers `ids`, in order.
pub open spec fn lists(nodes: Nodes, ids: Seq<Seq<char>>, services: Seq<ServiceEntry>) -> bool {
    &&& services.len() == ids.len()
    &&& forall|i: int| 0 <= i < ids.len() ==> entry_of(nodes, ids[i], #[trigger] services[i])
}

fn unknown_service(name: &str) -> (r: (MessageBody, Option<ControlAction>))
    ensures
        refused(name@, r.0),
        r.1 is None,
{
    (MessageBody::Error { message: cat("unknown service: ", name) }, None)
}

fn list_workers(tree: &SupervisorTree) -> (r: Vec<ServiceEntry>)
    requires
        tree.wf(),
    ensures
        lists(tree.nodes(), only_workers(tree.nodes(), tree.order()), r@),
{
    let names = tree.all_workers();
    let ghost ids = only_workers(tree.nodes(), tree.order());
    let mut r: Vec<ServiceEntry> = Vec::new();
    let mut i: usize = 0;
    while i < names.len()
        invariant
            i <= names.len(),
            tree.wf(),
            names@.map_values(|s: &str| s@) == ids,
            ids == only_workers(tree.nodes(), tree.order()),
            r@.len() == i,
            forall|k: int| 0 <= k < i ==> entry_of(tree.nodes(), ids[k], #[trigger] r@[k]),
        decreases names.len() - i,
    {
        let name = names[i];
        proof {
            assert(ids[i as int] == name@);
            lemma_only_workers(tree.nodes(), tree.order(), i as int);
        }
        if let Some(w) = tree.get_worker(name) {
            r.push(
                ServiceEntry {
                    name: owned(name),
                    status: owned(w.state.display_name()),
                    pid: w.pid,
                },
            );
        }
        i += 1;
    }
    r
}

proof fn lemma_only_workers(nodes: Nodes, ids: Seq<Seq<char>>, i: int)
    requires
        0 <= i < only_workers(nodes, ids).len(),
    ensures
        has_worker(nodes, only_workers(nodes, ids)[i]),
    decreases ids.len(),
{
    let rest = only_workers(nodes, ids.drop_last());
    if i < rest.len() {
        lemma_only_workers(nodes, ids.drop_last(), i);
    }
}

/// Answers a command, and says what is to be done.
pub fn handle_request(body: MessageBody, tree: &SupervisorTree) -> (r: (
    MessageBody,
    Option<ControlAction>,
))
    requires
        tree.wf(),
        tree.intact(),
    ensures
        answers(*tree, body, r.0, r.1),
{
    match body {
        MessageBody::StartService { name } => {
            if tree.get_worker(name.as_str()).is_some() {
                (MessageBody::Ack, Some(ControlAction::StartService(name)))
            } else {
                unknown_service(name.as_str())
            }
        },
        MessageBody::StopService { name } => {
            if tree.get_worker(name.as_str()).is_some() {
                (MessageBody::Ack, Some(ControlAction::StopService(name)))
            } else {
                unknown_service(name.as_str())
            }
        },
        MessageBody::RestartService { name } => {
            if tree.get_worker(name.as_str()).is_some() {
                (MessageBody::Ack, Some(ControlAction::RestartService(name)))
            } else {
                unknown_service(name.as_str())
            }
        },
        MessageBody::ServiceStatus { name } => {
            match tree.get_worker(name.as_str()) {
                Some(w) => {
                    let reply = MessageBody::ServiceInfo {
                        name: name.clone(),
                        status: owned(w.state.display_name()),
                        pid: w.pid,
                        supervisor: w.parent.clone(),
                    };
                    (reply, None)
                },
                None => unknown_service(name.as_str()),
            }
        },
        MessageBody::ListServices => {
            (MessageBody::ServiceList { services: list_workers(tree) }, None)
        },
        MessageBody::TreeStatus => {
            let count = tree.node_count();
            (MessageBody::Tree { text: format_tree(tree, tree.root_id(), 0) }, None)
        },
        MessageBody::Shutdown { kind } => {
            (MessageBody::Ack, Some(ControlAction::Shutdown(kind)))
        },
        MessageBody::GetServiceByPid { pid } => {
            let name = match tree.worker_for_pid(pid) {
                Some(n) => Some(owned(n)),
                None => None,
            };
            (MessageBody::ServiceByPid { name, pid }, None)
        },
        _ => (MessageBody::Error { message: owned("unknown command") }, None),
    }
}

/// Whether `response` is the message that answers `request`.
pub open spec fn responds(
    tree: SupervisorTree,
    request: Message,
    response: Message,
    action: Option<ControlAction>,
) -> bool {
    &&& response.id == request.id
    &&& response.kind == (MessageKind::Response { in_reply_to: request.id })
    &&& answers(tree, request.body, response.body, action)
}

/// The message that answers `request`, and what is to be done.
pub fn respond(request: Message, tree: &SupervisorTree) -> (r: (Message, Option<ControlAction>))
    requires
        tree.wf(),
        tree.intact(),
    ensures
        responds(*tree, request, r.0, r.1),
{
    let id = request.id;
    let (body, action) = handle_request(request.body, tree);
    (Message { id, kind: MessageKind::Response { in_reply_to: id }, body }, action)
}

/// A command is refused or leads to an action, never both, and a service is
/// only acted on where the tree has it.
pub proof fn refused_commands_have_no_effect(
    tree: SupervisorTree,
    body: MessageBody,
    reply: MessageBody,
    action: Option<ControlAction>,
)
    requires
        answers(tree, body, reply, action),
    ensures
        reply is Error ==> action is None,
        action is Some ==> reply is Ack,
        action matches Some(ControlAction::StartService(n)) ==> has_worker(tree.nodes(), n@),
        action matches Some(ControlAction::StopService(n)) ==> has_worker(tree.nodes(), n@),
        action matches Some(ControlAction::RestartService(n)) ==> has_worker(tree.nodes(), n@),
{
}

/// The action is of the kind of the command: a service is started, stopped or
/// restarted just where the command was to start, stop or restart that service
/// and the tree has it, and the system goes down just where the command was to
/// take it down in that way. A command that leads to an action is acknowledged.
pub proof fn action_is_the_one_asked_for(
    tree: SupervisorTree,
    body: MessageBody,
    reply: MessageBody,
    action: Option<ControlAction>,
    name: String,
    kind: ShutdownKind,
)
    requires
        answers(tree, body, reply, action),
    ensures
        action == Some(ControlAction::StartService(name)) <==> body == (
        MessageBody::StartService { name }) && has_worker(tree.nodes(), name@),
        action == Some(ControlAction::StopService(name)) <==> body == (MessageBody::StopService {
            name,
        }) && has_worker(tree.nodes(), name@),
        action == Some(ControlAction::RestartService(name)) <==> body == (
        MessageBody::RestartService { name }) && has_worker(tree.nodes(), name@),
        action == Some(ControlAction::Shutdown(kind)) <==> body == (MessageBody::Shutdown { kind }),
        action is Some ==> reply is Ack,
{
}

/// A command that names a service that is no worker of the tree is refused, and
/// the refusal names it.
pub proof fn unknown_service_is_refused(
    tree: SupervisorTree,
    body: MessageBody,
    reply: MessageBody,
    action: Option<ControlAction>,
    name: String,
)
    requires
        answers(tree, body, reply, action),
        !has_worker(tree.nodes(), name@),
        body == (MessageBody::StartService { name }) || body == (MessageBody::StopService { name })
            || body == (MessageBody::RestartService { name }) || body == (
        MessageBody::ServiceStatus { name }),
    ensures
        action is None,
        reply is Error,
        reply->Error_message@ == "unknown service: "@ + name@,
{
}

/// A question about a service is answered with that service: its name, the name
/// of its state, its process and its supervisor.
pub proof fn status_is_that_of_the_service(
    tree: SupervisorTree,
    reply: MessageBody,
    action: Option<ControlAction>,
    name: String,
)
    requires
        answers(tree, MessageBody::ServiceStatus { name }, reply, action),
        has_worker(tree.nodes(), name@),
    ensures
        action is None,
        reply is ServiceInfo,
        reply->ServiceInfo_name == name,
        reply->ServiceInfo_pid == worker(tree.nodes(), name@).pid,
        reply->ServiceInfo_supervisor@ == worker(tree.nodes(), name@).parent@,
        reply->ServiceInfo_status@ == "running"@ <==> worker(tree.nodes(), name@).state is Running,
        reply->ServiceInfo_status@ == "starting"@ <==> worker(tree.nodes(), name@).state
            is Starting,
        reply->ServiceInfo_status@ == "stopping"@ <==> worker(tree.nodes(), name@).state
            is Stopping,
        reply->ServiceInfo_status@ == "stopped"@ <==> worker(tree.nodes(), name@).state is Stopped,
        reply->ServiceInfo_status@ == "failed"@ <==> worker(tree.nodes(), name@).state is Failed,
        reply->ServiceInfo_status@ == "abandoned"@ <==> worker(tree.nodes(), name@).state
            is Abandoned,
{
    let state = worker(tree.nodes(), name@).state;
    lemma_name_tells_state(state);
}

proof fn lemma_name_tells_state(s: ServiceState)
    ensures
        s.name() == "running"@ <==> s is Running,
        s.name() == "starting"@ <==> s is Starting,
        s.name() == "stopping"@ <==> s is Stopping,
        s.name() == "stopped"@ <==> s is Stopped,
        s.name() == "failed"@ <==> s is Failed,
        s.name() == "abandoned"@ <==> s is Abandoned,
{
    states_have_their_own_names(s, ServiceState::Running);
    states_have_their_own_names(s, ServiceState::Starting);
    states_have_their_own_names(s, ServiceState::Stopping { deadline: None });
    states_have_their_own_names(s, ServiceState::Stopped);
    states_have_their_own_names(s, ServiceState::Failed { exit_code: None, signal: None });
    states_have_their_own_names(s, ServiceState::Abandoned);
    states_have_their_own_names(ServiceState::Running, s);
    states_have_their_own_names(ServiceState::Starting, s);
    states_have_their_own_names(ServiceState::Stopping { deadline: None }, s);
    states_have_their_own_names(ServiceState::Stopped, s);
    states_have_their_own_names(ServiceState::Failed { exit_code: None, signal: None }, s);
    states_have_their_own_names(ServiceState::Abandoned, s);
}

/// A list of services names each worker of the tree once, and nothing else,
/// each with the name of its state and its process.
pub proof fn every_service_is_listed_once(
    tree: SupervisorTree,
    reply: MessageBody,
    action: Option<ControlAction>,
    id: Seq<char>,
    i: int,
    j: int,
)
    requires
        tree.wf(),
        answers(tree, MessageBody::ListServices, reply, action),
    ensures
        action is None,
        reply is ServiceList,
        has_worker(tree.nodes(), id) ==> exists|k: int|
            0 <= k < reply->ServiceList_services@.len()
                && #[trigger] reply->ServiceList_services@[k].name@ == id,
        0 <= i < reply->ServiceList_services@.len() ==> {
            let e = reply->ServiceList_services@[i];
            &&& has_worker(tree.nodes(), e.name@)
            &&& e.pid == worker(tree.nodes(), e.name@).pid
            &&& e.status@ == worker(tree.nodes(), e.name@).state.name()
        },
        0 <= i < j < reply->ServiceList_services@.len() ==> reply->ServiceList_services@[i].name@
            != reply->ServiceList_services@[j].name@,
{
    let nodes = tree.nodes();
    let ids = only_workers(nodes, tree.order());
    let v = reply->ServiceList_services@;
    tree.lemma_order();
    just_the_workers_are_left(nodes, tree.order());
    if has_worker(nodes, id) {
        assert(tree.order().to_set().contains(id));
        assert(tree.order().contains(id));
        assert(ids.contains(id));
        let k = choose|k: int| 0 <= k < ids.len() && ids[k] == id;
        assert(entry_of(nodes, ids[k], v[k]));
        assert(v[k].name@ == id);
    }
    if 0 <= i < v.len() {
        assert(entry_of(nodes, ids[i], v[i]));
        assert(ids.contains(ids[i]));
    }
    if 0 <= i < j < v.len() {
        assert(entry_of(nodes, ids[i], v[i]));
        assert(entry_of(nodes, ids[j], v[j]));
    }
}

/// A process is answered with the worker that it is registered for, and with
/// none where it is registered for none.
pub proof fn process_is_answered_with_its_service(
    tree: SupervisorTree,
    reply: MessageBody,
    action: Option<ControlAction>,
    pid: i32,
)
    requires
        answers(tree, MessageBody::GetServiceByPid { pid }, reply, action),
    ensures
        action is None,
        reply is ServiceByPid,
        reply->ServiceByPid_pid == pid,
        opt_text(reply->ServiceByPid_name) == if tree.pids().contains_key(pid) {
            Some(tree.pids()[pid]@)
        } else {
            None
        },
{
}

/// A response carries the number of its request, and says which request it
/// answers; two requests of different numbers have different responses.
pub proof fn response_belongs_to_its_request(
    tree: SupervisorTree,
    request: Message,
    response: Message,
    action: Option<ControlAction>,
)
    requires
        responds(tree, request, response, action),
    ensures
        response.id == request.id,
        response.kind is Response,
        response.kind->in_reply_to == request.id,
        answers(tree, request.body, response.body, action),
{
}

proof fn lemma_part_in_front(a: Seq<char>, b: Seq<char>, p: Seq<char>)
    requires
        has_part(a, p),
    ensures
        has_part(a + b, p),
{
    let i = choose|i: int| 0 <= i <= a.len() && #[trigger] has_prefix(a.skip(i), p);
    assert((a + b).skip(i).take(p.len() as int) =~= a.skip(i).take(p.len() as int));
    assert(has_prefix((a + b).skip(i), p));
}

proof fn lemma_part_behind(a: Seq<char>, b: Seq<char>, p: Seq<char>)
    requires
        has_part(b, p),
    ensures
        has_part(a + b, p),
{
    let i = choose|i: int| 0 <= i <= b.len() && #[trigger] has_prefix(b.skip(i), p);
    assert((a + b).skip(a.len() + i) =~= b.skip(i));
    assert(has_prefix((a + b).skip(a.len() + i), p));
}

proof fn lemma_children_told(
    nodes: Nodes,
    ids: Seq<Seq<char>>,
    depth: nat,
    levels: nat,
    k: int,
    p: Seq<char>,
)
    requires
        0 <= k < ids.len(),
        has_part(tree_text(nodes, ids[k], depth, levels), p),
    ensures
        has_part(children_text(nodes, ids, depth, levels), p),
    decreases ids.len(),
{
    let front = ids.drop_last();
    let a = children_text(nodes, front, depth, levels);
    let b = tree_text(nodes, ids.last(), depth, levels);
    if k < front.len() {
        assert(front[k] == ids[k]);
        lemma_children_told(nodes, front, depth, levels, k, p);
        lemma_part_in_front(a, b, p);
    } else {
        lemma_part_behind(a, b, p);
    }
}

/// Whether the one after `i` on a path is a child of the one at `i`.
pub open spec fn steps_down(nodes: Nodes, path: Seq<Seq<char>>, i: int) -> bool {
    has_supervisor(nodes, path[i]) && children(nodes, path[i]).contains(path[i + 1])
}

/// Whether each on a path is a child of the one before it.
pub open spec fn leads_down(nodes: Nodes, path: Seq<Seq<char>>) -> bool {
    forall|i: int| 0 <= i < path.len() - 1 ==> #[trigger] steps_down(nodes, path, i)
}

proof fn lemma_worker_told(
    nodes: Nodes,
    path: Seq<Seq<char>>,
    depth: nat,
    levels: nat,
)
    requires
        path.len() > 0,
        path.len() <= levels,
        leads_down(nodes, path),
        has_worker(nodes, path.last()),
    ensures
        has_part(
            tree_text(nodes, path[0], depth, levels),
            path.last() + " ["@ + worker(nodes, path.last()).state.name() + "]"@ + pid_text(
                worker(nodes, path.last()).pid,
            ) + "\n"@,
        ),
    decreases path.len(),
{
    let w = worker(nodes, path.last());
    let p = path.last() + " ["@ + w.state.name() + "]"@ + pid_text(w.pid) + "\n"@;
    if path.len() == 1 {
        let lead = repeated("  "@, depth);
        let line = worker_line(path[0], w.state.name(), w.pid, depth);
        assert(line =~= lead + p);
        assert(p.skip(0) =~= p && p.take(p.len() as int) =~= p);
        assert(has_prefix(p.skip(0), p));
        lemma_part_behind(lead, p, p);
    } else {
        let rest = path.drop_first();
        assert forall|i: int| 0 <= i < rest.len() - 1 implies #[trigger] steps_down(
            nodes,
            rest,
            i,
        ) by {
            assert(steps_down(nodes, path, i + 1));
        }
        assert(steps_down(nodes, path, 0));
        assert(path[1] == rest[0]);
        assert(rest.last() == path.last());
        lemma_worker_told(nodes, rest, depth + 1, (levels - 1) as nat);
        let kids = children(nodes, path[0]);
        let k = choose|k: int| 0 <= k < kids.len() && kids[k] == rest[0];
        lemma_children_told(nodes, kids, depth + 1, (levels - 1) as nat, k, p);
        lemma_part_behind(
            supervisor_line(path[0], supervisor(nodes, path[0]).strategy, depth),
            children_text(nodes, kids, depth + 1, (levels - 1) as nat),
            p,
        );
    }
}

/// The tree in words tells of every worker below the root: its name, the name
/// of its state and its process.
pub proof fn tree_tells_of_every_worker(
    tree: SupervisorTree,
    reply: MessageBody,
    action: Option<ControlAction>,
    path: Seq<Seq<char>>,
)
    requires
        answers(tree, MessageBody::TreeStatus, reply, action),
        0 < path.len() <= tree.order().len(),
        path[0] == tree.root(),
        leads_down(tree.nodes(), path),
        has_worker(tree.nodes(), path.last()),
    ensures
        action is None,
        reply is Tree,
        has_part(
            reply->Tree_text@,
            path.last() + " ["@ + worker(tree.nodes(), path.last()).state.name() + "]"@ + (
            match worker(tree.nodes(), path.last()).pid {
                Some(p) => " pid="@ + dec_int(p as int),
                None => Seq::empty(),
            }) + "\n"@,
        ),
{
    lemma_worker_told(tree.nodes(), path, 0, tree.order().len());
}

proof fn lemma_supervisor_told(nodes: Nodes, path: Seq<Seq<char>>, depth: nat, levels: nat)
    requires
        path.len() > 0,
        path.len() <= levels,
        leads_down(nodes, path),
        has_supervisor(nodes, path.last()),
    ensures
        has_part(
            tree_text(nodes, path[0], depth, levels),
            "[supervisor: "@ + path.last() + "] strategy="@ + strategy_name(
                supervisor(nodes, path.last()).strategy,
            ) + "\n"@,
        ),
    decreases path.len(),
{
    let strategy = supervisor(nodes, path.last()).strategy;
    let p = "[supervisor: "@ + path.last() + "] strategy="@ + strategy_name(strategy) + "\n"@;
    let kids = children(nodes, path[0]);
    let below = children_text(nodes, kids, depth + 1, (levels - 1) as nat);
    if path.len() == 1 {
        let lead = repeated("  "@, depth);
        let line = supervisor_line(path[0], strategy, depth);
        assert(line =~= lead + p);
        assert(p.skip(0) =~= p && p.take(p.len() as int) =~= p);
        assert(has_prefix(p.skip(0), p));
        lemma_part_behind(lead, p, p);
        lemma_part_in_front(line, below, p);
    } else {
        let rest = path.drop_first();
        assert forall|i: int| 0 <= i < rest.len() - 1 implies #[trigger] steps_down(
            nodes,
            rest,
            i,
        ) by {
            assert(steps_down(nodes, path, i + 1));
        }
        assert(steps_down(nodes, path, 0));
        assert(path[1] == rest[0]);
        assert(rest.last() == path.last());
        lemma_supervisor_told(nodes, rest, depth + 1, (levels - 1) as nat);
        let k = choose|k: int| 0 <= k < kids.len() && kids[k] == rest[0];
        lemma_children_told(nodes, kids, depth + 1, (levels - 1) as nat, k, p);
        lemma_part_behind(
            supervisor_line(path[0], supervisor(nodes, path[0]).strategy, depth),
            below,
            p,
        );
    }
}

/// The tree in words tells of every supervisor, with the name of its strategy.
pub proof fn tree_tells_of_every_supervisor(
    tree: SupervisorTree,
    reply: MessageBody,
    action: Option<ControlAction>,
    path: Seq<Seq<char>>,
)
    requires
        answers(tree, MessageBody::TreeStatus, reply, action),
        0 < path.len() <= tree.order().len(),
        path[0] == tree.root(),
        leads_down(tree.nodes(), path),
        has_supervisor(tree.nodes(), path.last()),
    ensures
        has_part(
            reply->Tree_text@,
            "[supervisor: "@ + path.last() + "] strategy="@ + (match supervisor(
                tree.nodes(),
                path.last(),
            ).strategy {
                RestartStrategy::OneForOne => "OneForOne"@,
                RestartStrategy::OneForAll => "OneForAll"@,
                RestartStrategy::RestForOne => "RestForOne"@,
            }) + "\n"@,
        ),
{
    lemma_supervisor_told(tree.nodes(), path, 0, tree.order().len());
}

} // verus!
