//! Which process belongs to which service.

use crate::names::NameMap;
use crate::text::owned;
use std::collections::HashMap;
use vstd::prelude::*;

verus! {

/// How a child ended.
#[derive(Debug, Clone, Copy, PartialEq, Eq, Structural)]
pub struct ExitedChild {
    pub pid: i32,
    pub exit_code: Option<i32>,
    pub signal: Option<i32>,
}

/// The processes of services.
#[derive(Debug)]
pub struct ProcessMonitor {
    pid_to_service: HashMap<i32, String>,
    service_to_pid: NameMap<i32>,
    service_to_pidfd: NameMap<i32>,
}

impl ProcessMonitor {
    /// The services by process.
    pub closed spec fn services(self) -> Map<i32, String> {
        self.pid_to_service@
    }

    /// The processes by service.
    pub closed spec fn pids(self) -> Map<Seq<char>, i32> {
        self.service_to_pid@
    }

    /// The process descriptors by service.
    pub closed spec fn fds(self) -> Map<Seq<char>, i32> {
        self.service_to_pidfd@
    }

    /// The services that have a process descriptor, in order.
    pub closed spec fn fd_order(self) -> Seq<Seq<char>> {
        self.service_to_pidfd.order()
    }

    /// No service is held twice.
    pub closed spec fn wf(self) -> bool {
        self.service_to_pid.wf() && self.service_to_pidfd.wf()
    }

    /// The order holds each service that has a process descriptor once, and no
    /// others.
    pub proof fn lemma_fd_order(self)
        requires
            self.wf(),
        ensures
            self.fd_order().no_duplicates(),
            self.fd_order().to_set() == self.fds().dom(),
            self.fd_order().len() == self.fds().len(),
    {
        self.service_to_pidfd.lemma_order();
    }

    /// No processes.
    pub fn new() -> (r: Self)
        ensures
            r.wf(),
            r.services() == Map::<i32, String>::empty(),
            r.pids() == Map::<Seq<char>, i32>::empty(),
            r.fds() == Map::<Seq<char>, i32>::empty(),
            r.fd_order() == Seq::<Seq<char>>::empty(),
    {
        let r = ProcessMonitor {
            pid_to_service: HashMap::new(),
            service_to_pid: NameMap::new(),
            service_to_pidfd: NameMap::new(),
        };
        assert(r.services() =~= Map::<i32, String>::empty());
        r
    }

    /// Notes the process of a service.
    pub fn register(&mut self, service_name: &str, pid: i32, pidfd: Option<i32>)
        requires
            old(self).wf(),
        ensures
            final(self).wf(),
            registered(*old(self), *final(self), service_name@, pid, pidfd),
    {
        self.pid_to_service.insert(pid, owned(service_name));
        self.service_to_pid.insert(owned(service_name), pid);
        if let Some(fd) = pidfd {
            self.service_to_pidfd.insert(owned(service_name), fd);
        }
        assert(self.services().dom() =~= old(self).services().dom().insert(pid));
    }

    /// Forgets the process of a service, and gives the descriptor to close.
    pub fn unregister(&mut self, service_name: &str) -> (r: Option<i32>)
        requires
            old(self).wf(),
        ensures
            final(self).wf(),
            unregistered(*old(self), *final(self), service_name@),
            r == if old(self).fds().contains_key(service_name@) {
                Some(old(self).fds()[service_name@])
            } else {
                None
            },
    {
        if let Some(pid) = self.service_to_pid.remove(service_name) {
            self.pid_to_service.remove(&pid);
        }
        self.service_to_pidfd.remove(service_name)
    }

    /// The service that a process belongs to.
    pub fn service_for_pid(&self, pid: i32) -> (r: Option<&str>)
        ensures
            match r {
                Some(s) => self.services().contains_key(pid) && s@ == self.services()[pid]@,
                None => !self.services().contains_key(pid),
            },
    {
        match self.pid_to_service.get(&pid) {
            Some(s) => Some(s.as_str()),
            None => None,
        }
    }

    /// The process of a service.
    pub fn pid_for_service(&self, service_name: &str) -> (r: Option<i32>)
        requires
            self.wf(),
        ensures
            r == if self.pids().contains_key(service_name@) {
                Some(self.pids()[service_name@])
            } else {
                None
            },
    {
        match self.service_to_pid.get(service_name) {
            Some(p) => Some(*p),
            None => None,
        }
    }

    /// Whether a service has a process.
    pub fn is_running(&self, service_name: &str) -> (r: bool)
        ensures
            r == self.pids().contains_key(service_name@),
    {
        self.service_to_pid.contains_key(service_name)
    }

    /// Takes out the service of a process that ended, and gives its name, how
    /// it ended and the descriptor to close. A process of no service is passed
    /// over.
    pub fn reap(&mut self, child: ExitedChild) -> (r: Option<(String, ExitedChild, Option<i32>)>)
        requires
            old(self).wf(),
        ensures
            final(self).wf(),
            match r {
                Some((name, c, fd)) => {
                    &&& old(self).services().contains_key(child.pid)
                    &&& name == old(self).services()[child.pid]
                    &&& c == child
                    &&& fd == if old(self).fds().contains_key(name@) {
                        Some(old(self).fds()[name@])
                    } else {
                        None
                    }
                    &&& unregistered(*old(self), *final(self), name@)
                },
                None => {
                    &&& !old(self).services().contains_key(child.pid)
                    &&& *final(self) == *old(self)
                },
            },
    {
        let name = match self.pid_to_service.get(&child.pid) {
            Some(s) => s.clone(),
            None => {
                return None;
            },
        };
        let fd = self.unregister(name.as_str());
        Some((name, child, fd))
    }

    /// The service and the descriptor at a place in the order.
    pub fn pidfd_at(&self, i: usize) -> (r: (&str, i32))
        requires
            self.wf(),
            i < self.fd_order().len(),
        ensures
            r.0@ == self.fd_order()[i as int],
            r.1 == self.fds()[self.fd_order()[i as int]],
    {
        (self.service_to_pidfd.key_at(i).as_str(), *self.service_to_pidfd.value_at(i))
    }

    /// How many services have a process descriptor.
    pub fn pidfd_count(&self) -> (r: usize)
        requires
            self.wf(),
        ensures
            r == self.fd_order().len(),
            r == self.fds().len(),
    {
        self.service_to_pidfd.len()
    }

    /// How many services have a process.
    pub fn count(&self) -> (r: usize)
        requires
            self.wf(),
        ensures
            r == self.pids().len(),
    {
        self.service_to_pid.len()
    }
}

/// What noting the process of a service does.
pub open spec fn registered(
    pre: ProcessMonitor,
    post: ProcessMonitor,
    name: Seq<char>,
    pid: i32,
    pidfd: Option<i32>,
) -> bool {
    &&& post.services().dom() == pre.services().dom().insert(pid)
    &&& post.services()[pid]@ == name
    &&& forall|p: i32|
        p != pid && pre.services().contains_key(p) ==> #[trigger] post.services()[p]
            == pre.services()[p]
    &&& post.pids() == pre.pids().insert(name, pid)
    &&& post.fds() == match pidfd {
        Some(fd) => pre.fds().insert(name, fd),
        None => pre.fds(),
    }
    &&& post.fd_order() == if pidfd is Some && !pre.fds().contains_key(name) {
        pre.fd_order().push(name)
    } else {
        pre.fd_order()
    }
}

/// What forgetting the process of a service does.
pub open spec fn unregistered(pre: ProcessMonitor, post: ProcessMonitor, name: Seq<char>) -> bool {
    &&& post.pids() == pre.pids().remove(name)
    &&& post.services() == if pre.pids().contains_key(name) {
        pre.services().remove(pre.pids()[name])
    } else {
        pre.services()
    }
    &&& post.fds() == pre.fds().remove(name)
    &&& post.fd_order() == if pre.fds().contains_key(name) {
        pre.fd_order().remove(pre.fd_order().index_of(name))
    } else {
        pre.fd_order()
    }
}

/// A process that was noted and forgotten again leaves everything as it was,
/// if neither it nor its service was there before.
pub proof fn forgetting_undoes_noting(
    pre: ProcessMonitor,
    mid: ProcessMonitor,
    post: ProcessMonitor,
    name: Seq<char>,
    pid: i32,
    pidfd: Option<i32>,
)
    requires
        pre.wf(),
        registered(pre, mid, name, pid, pidfd),
        unregistered(mid, post, name),
        !pre.services().contains_key(pid),
        !pre.pids().contains_key(name),
        !pre.fds().contains_key(name),
    ensures
        post.services() == pre.services(),
        post.pids() == pre.pids(),
        post.fds() == pre.fds(),
        post.fd_order() == pre.fd_order(),
{
    assert(post.services() =~= pre.services()) by {
        assert(post.services().dom() =~= pre.services().dom());
        assert forall|p: i32| pre.services().contains_key(p) implies #[trigger] post.services()[p]
            == pre.services()[p] by {
            assert(mid.services()[p] == pre.services()[p]);
        }
    }
    assert(post.pids() =~= pre.pids());
    assert(post.fds() =~= pre.fds());
    if pidfd is Some {
        pre.lemma_fd_order();
        let o = pre.fd_order();
        assert(!o.contains(name)) by {
            assert(!o.to_set().contains(name));
        }
        let i = o.push(name).index_of(name);
        assert(o.push(name)[o.len() as int] == name);
        assert(o.push(name).contains(name));
        assert(i == o.len()) by {
            if i < o.len() {
                assert(o[i] == name);
                assert(o.contains(name));
            }
        }
        assert(post.fd_order() =~= o);
    }
}

/// Going through the places in order meets every process descriptor: each
/// service that has one stands at just one place.
pub proof fn every_descriptor_has_its_place(m: ProcessMonitor, name: Seq<char>)
    requires
        m.wf(),
        m.fds().contains_key(name),
    ensures
        0 <= m.fd_order().index_of(name) < m.fd_order().len(),
        forall|i: int|
            0 <= i < m.fd_order().len() ==> (#[trigger] m.fd_order()[i] == name <==> i
                == m.fd_order().index_of(name)),
{
    m.lemma_fd_order();
    let o = m.fd_order();
    assert(o.to_set().contains(name));
    assert(o.contains(name));
}

} // verus!
