//! What requests about units come to.

use crate::bus::BusError;
use crate::common::protocol::{Message, MessageBody, ServiceEntry, ShutdownKind};
use crate::sd1bridge::client::{
    acked, list_told, pid_asked, pid_told, restart_asked, shutdown_asked, start_asked,
    status_asked, status_told, stop_asked, ServiceInfo, SvmgrClient,
};
use crate::sd1bridge::manager::{
    count_status, failures_counted, hypervisor_named, names_counted, pid_taken_as, unit_found,
    unit_of_pid_found, units_listed, UnitEntry,
};
use crate::sd1bridge::mapping::{service_of, states_of, unit_at, unit_of};
use crate::sd1bridge::unit::{active_told, main_pid_told, sub_told, unit_acted_on};
use crate::svmgr::ipc::control::{answers, ControlAction};
use crate::svmgr::supervisor::tree::{has_worker, worker, SupervisorTree};
use crate::text::num::dec;
use crate::text::scan::{has_part, has_suffix};
use crate::text::opt_text;
use vstd::prelude::*;

verus! {

/// The service behind a unit has the name of the unit without the ending, and
/// the unit of a service has it with the ending; other names stay.
pub proof fn ending_tells_units_from_services(s: Seq<char>)
    ensures
        service_of(s + ".service"@) == s,
        !has_suffix(s, ".service"@) ==> service_of(s) == s,
        !has_suffix(s, ".service"@) ==> unit_of(s) == s + ".service"@,
        has_suffix(s, ".service"@) ==> unit_of(s) == s,
{
    reveal_strlit(".service");
    let u = s + ".service"@;
    assert(".service"@.len() == 8);
    assert(u.skip(u.len() - 8) =~= ".service"@);
    assert(u.take(u.len() - 8) =~= s);
}

/// To start, stop or restart a service through the bridge is acknowledged by
/// the service manager, which starts, stops or restarts that very service.
pub proof fn command_reaches_the_service(
    pre: SvmgrClient,
    post: SvmgrClient,
    name: Seq<char>,
    request: Message,
    tree: SupervisorTree,
    reply: MessageBody,
    action: Option<ControlAction>,
)
    requires
        answers(tree, request.body, reply, action),
        has_worker(tree.nodes(), name),
        start_asked(pre, post, name, request) || stop_asked(pre, post, name, request)
            || restart_asked(pre, post, name, request),
    ensures
        reply is Ack,
        action is Some,
        start_asked(pre, post, name, request) ==> action->0 is StartService
            && action->0->StartService_0@ == name,
        stop_asked(pre, post, name, request) ==> action->0 is StopService
            && action->0->StopService_0@ == name,
        restart_asked(pre, post, name, request) ==> action->0 is RestartService
            && action->0->RestartService_0@ == name,
        request.id == pre.next_id,
        post.next_id == pre.next_id + 1,
{
}

/// A question through the bridge tells of the service that was asked for, and
/// to shut down through the bridge takes the system down in that way.
pub proof fn question_reaches_the_service(
    pre: SvmgrClient,
    post: SvmgrClient,
    name: Seq<char>,
    kind: ShutdownKind,
    pid: i32,
    request: Message,
    tree: SupervisorTree,
    reply: MessageBody,
    action: Option<ControlAction>,
)
    requires
        answers(tree, request.body, reply, action),
    ensures
        status_asked(pre, post, name, request) && has_worker(tree.nodes(), name) ==> {
            &&& reply is ServiceInfo
            &&& reply->ServiceInfo_name@ == name
            &&& reply->ServiceInfo_pid == worker(tree.nodes(), name).pid
            &&& reply->ServiceInfo_status@ == worker(tree.nodes(), name).state.name()
        },
        status_asked(pre, post, name, request) && !has_worker(tree.nodes(), name) ==> reply
            is Error,
        shutdown_asked(pre, post, kind, request) ==> action == Some(ControlAction::Shutdown(kind)),
        pid_asked(pre, post, pid, request) ==> reply is ServiceByPid && opt_text(
            reply->ServiceByPid_name,
        ) == if tree.pids().contains_key(pid) {
            Some(tree.pids()[pid]@)
        } else {
            None
        },
{
}

/// A request was carried out just where it was acknowledged; and what a reply
/// holds of a service, of the services or of a process is what is taken from
/// it, while every other reply is an error.
pub proof fn reply_is_taken_as_it_is(
    reply: Result<MessageBody, String>,
    a: Result<(), String>,
    s: Result<ServiceInfo, String>,
    l: Result<Vec<ServiceEntry>, String>,
    p: Result<Option<String>, String>,
)
    requires
        acked(reply, a),
        status_told(reply, s),
        list_told(reply, l),
        pid_told(reply, p),
    ensures
        a is Ok <==> reply is Ok && reply->Ok_0 is Ack,
        s is Ok <==> reply is Ok && reply->Ok_0 is ServiceInfo,
        s is Ok ==> s->Ok_0.name == reply->Ok_0->ServiceInfo_name && s->Ok_0.status
            == reply->Ok_0->ServiceInfo_status && s->Ok_0.pid == reply->Ok_0->ServiceInfo_pid
            && s->Ok_0.supervisor == reply->Ok_0->ServiceInfo_supervisor,
        l is Ok <==> reply is Ok && reply->Ok_0 is ServiceList,
        l is Ok ==> l->Ok_0 == reply->Ok_0->ServiceList_services,
        p is Ok <==> reply is Ok && reply->Ok_0 is ServiceByPid,
        p is Ok ==> p->Ok_0 == reply->Ok_0->ServiceByPid_name,
{
}

/// A unit is active just where its service runs, on its way there where the
/// service starts, on its way down where it stops, failed where it failed or
/// was given up on, and inactive otherwise.
pub proof fn state_of_a_unit_is_that_of_its_service(status: Seq<char>)
    ensures
        states_of(status).0 == "active"@ <==> status == "running"@,
        states_of(status).0 == "activating"@ <==> status == "starting"@ || status
            == "waiting-ready"@,
        states_of(status).0 == "deactivating"@ <==> status == "stopping"@,
        states_of(status).0 == "failed"@ <==> status == "failed"@ || status == "abandoned"@,
        states_of(status).0 == "inactive"@ <==> !(status == "running"@ || status == "starting"@
            || status == "waiting-ready"@ || status == "stopping"@ || status == "failed"@ || status
            == "abandoned"@),
        status == "running"@ ==> states_of(status).1 == "running"@,
        status == "starting"@ || status == "waiting-ready"@ ==> states_of(status).1 == "start"@,
        status == "stopping"@ ==> states_of(status).1 == "stop"@,
        status == "failed"@ ==> states_of(status).1 == "failed"@,
        status == "abandoned"@ ==> states_of(status).1 == "abandoned"@,
        states_of(status).0 == "inactive"@ ==> states_of(status).1 == "dead"@,
{
    reveal_strlit("active");
    reveal_strlit("activating");
    reveal_strlit("deactivating");
    reveal_strlit("failed");
    reveal_strlit("inactive");
    reveal_strlit("running");
    reveal_strlit("starting");
    reveal_strlit("waiting-ready");
    reveal_strlit("stopping");
    reveal_strlit("abandoned");
    assert("active"@.len() == 6 && "activating"@.len() == 10 && "deactivating"@.len() == 12
        && "failed"@.len() == 6 && "inactive"@.len() == 8);
    assert("active"@[0] == 'a' && "failed"@[0] == 'f');
    assert("running"@.len() == 7 && "starting"@.len() == 8 && "waiting-ready"@.len() == 13
        && "stopping"@.len() == 8 && "abandoned"@.len() == 9);
    assert("starting"@[2] == 'a' && "stopping"@[2] == 'o');
}

/// There is one unit for each service, in the same order: it has the name of
/// the service with the ending, its object, and the state of the service.
pub proof fn units_are_the_services(
    services: Vec<ServiceEntry>,
    r: Result<Vec<UnitEntry>, BusError>,
    i: int,
)
    requires
        units_listed(Ok(services), r),
    ensures
        r is Ok,
        r->Ok_0@.len() == services@.len(),
        0 <= i < services@.len() ==> {
            let u = r->Ok_0@[i];
            let s = services@[i];
            &&& !has_suffix(s.name@, ".service"@) ==> u.name@ == s.name@ + ".service"@
            &&& u.description@ == "dynamod service: "@ + s.name@
            &&& u.load_state@ == "loaded"@
            &&& u.active_state@ == "active"@ <==> s.status@ == "running"@
            &&& u.active_state@ == "failed"@ <==> s.status@ == "failed"@ || s.status@
                == "abandoned"@
            &&& u.sub_state@ == states_of(s.status@).1
            &&& u.unit_path@ == unit_at(u.name@)
            &&& u.job_id == 0
        },
{
    if 0 <= i < services@.len() {
        let u = r->Ok_0@[i];
        state_of_a_unit_is_that_of_its_service(services@[i].status@);
        assert((u.active_state@, u.sub_state@) == states_of(services@[i].status@));
    }
}

/// Tells the services with a status from the others.
pub open spec fn with_status(status: Seq<char>) -> spec_fn(ServiceEntry) -> bool {
    |e: ServiceEntry| e.status@ == status
}

proof fn lemma_count_is_filter(s: Seq<ServiceEntry>, status: Seq<char>)
    ensures
        count_status(s, status) == s.filter(with_status(status)).len(),
    decreases s.len(),
{
    reveal(Seq::filter);
    if s.len() > 0 {
        lemma_count_is_filter(s.drop_last(), status);
    }
}

/// The number of units is that of the services, and the number of failed ones
/// that of the services with the status of a failure.
pub proof fn units_are_counted(
    services: Vec<ServiceEntry>,
    n: Result<u32, BusError>,
    f: Result<u32, BusError>,
)
    requires
        names_counted(Ok(services), n),
        failures_counted(Ok(services), f),
        services@.len() <= u32::MAX,
    ensures
        n is Ok,
        n->Ok_0 == services@.len(),
        f is Ok,
        f->Ok_0 == services@.filter(with_status("failed"@)).len(),
{
    lemma_count_is_filter(services@, "failed"@);
    lemma_count_bounded(services@, "failed"@);
}

proof fn lemma_count_bounded(s: Seq<ServiceEntry>, status: Seq<char>)
    ensures
        count_status(s, status) <= s.len(),
    decreases s.len(),
{
    if s.len() > 0 {
        lemma_count_bounded(s.drop_last(), status);
    }
}

/// What is asked of a unit is answered from the service that the service
/// manager told of; where it told of an error, that is the answer.
pub proof fn unit_tells_of_its_service(
    status: Result<ServiceInfo, String>,
    a: Result<String, BusError>,
    s: Result<String, BusError>,
    p: Result<u32, BusError>,
)
    requires
        active_told(status, a),
        sub_told(status, s),
        main_pid_told(status, p),
    ensures
        a is Ok <==> status is Ok,
        s is Ok <==> status is Ok,
        p is Ok <==> status is Ok,
        status matches Ok(i) ==> {
            &&& a->Ok_0@ == "active"@ <==> i.status@ == "running"@
            &&& (a->Ok_0@, s->Ok_0@) == states_of(i.status@)
            &&& i.pid is None ==> p->Ok_0 == 0
            &&& i.pid matches Some(n) ==> n >= 0 ==> p->Ok_0 == n
        },
        status matches Err(e) ==> a->Err_0.failed_with(e@) && s->Err_0.failed_with(e@)
            && p->Err_0.failed_with(e@),
{
    if status is Ok {
        state_of_a_unit_is_that_of_its_service(status->Ok_0.status@);
    }
}

/// A unit is found where its service is known, and its object is that of its
/// name; the unit of a process is that of the service which the process belongs
/// to.
pub proof fn units_are_found_by_name_and_process(
    name: Seq<char>,
    status: Result<ServiceInfo, String>,
    u: Result<(String, String), BusError>,
    pid: u32,
    named: Result<Option<String>, String>,
    v: Result<String, BusError>,
    done: Result<(), String>,
    w: Result<String, BusError>,
    taken: i32,
)
    requires
        unit_found(name, status, u),
        unit_of_pid_found(pid, named, v),
        unit_acted_on(name, done, w),
        pid_taken_as(pid, taken),
    ensures
        u is Ok <==> status is Ok,
        u is Ok ==> u->Ok_0.0@ == unit_of(service_of(name)) && u->Ok_0.1@ == unit_at(u->Ok_0.0@),
        v is Ok <==> named is Ok && named->Ok_0 is Some,
        v is Ok ==> v->Ok_0@ == unit_at(unit_of(named->Ok_0->0@)),
        w is Ok <==> done is Ok,
        w is Ok ==> w->Ok_0@ == unit_at(name),
        pid <= i32::MAX ==> taken == pid,
{
}

/// What a machine runs in is told by the first of the known names that the name
/// of its product holds.
pub proof fn product_tells_the_hypervisor(name: Seq<char>)
    ensures
        has_part(name, "virtualbox"@) ==> hypervisor_named(name) == "oracle"@,
        has_part(name, "vmware"@) && !has_part(name, "virtualbox"@) ==> hypervisor_named(name)
            == "vmware"@,
        (has_part(name, "qemu"@) || has_part(name, "kvm"@)) && !has_part(name, "virtualbox"@)
            && !has_part(name, "vmware"@) ==> hypervisor_named(name) == "kvm"@,
        has_part(name, "hyper-v"@) && !has_part(name, "virtualbox"@) && !has_part(name, "vmware"@)
            && !has_part(name, "qemu"@) && !has_part(name, "kvm"@) ==> hypervisor_named(name)
            == "microsoft"@,
        !has_part(name, "virtualbox"@) && !has_part(name, "vmware"@) && !has_part(name, "qemu"@)
            && !has_part(name, "kvm"@) && !has_part(name, "hyper-v"@) ==> hypervisor_named(
            name,
        ).len() == 0,
{
    reveal_strlit("");
}

} // verus!
