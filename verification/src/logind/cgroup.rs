//! The cgroups of sessions: a slice for each user, and in it a scope for each
//! session.

use crate::fspath::{join_path, path_joined};
use crate::svmgr::cgroup::hierarchy::{controller_writes, enables, FileWrite};
use crate::text::num::{dec, u64_text};
use crate::text::{cat3, cat4};
use vstd::prelude::*;

verus! {

/// Where the cgroups are.
pub const CGROUP_ROOT: &'static str = "/sys/fs/cgroup";

/// The slice of a user.
pub open spec fn slice_of(uid: u32) -> Seq<char> {
    "/sys/fs/cgroup"@ + "/user.slice/user-"@ + dec(uid as nat) + ".slice"@
}

/// The scope of a session, as the kernel names it to its processes.
pub open spec fn scope_of(uid: u32, id: Seq<char>) -> Seq<char> {
    "/user.slice/user-"@ + dec(uid as nat) + ".slice"@ + "/session-"@ + id + ".scope"@
}

/// The slice of a user.
pub fn user_slice(uid: u32) -> (r: String)
    ensures
        r@ == slice_of(uid),
{
    let n = u64_text(uid as u64);
    cat4(CGROUP_ROOT, "/user.slice/user-", n.as_str(), ".slice")
}

/// The scope of a session.
pub fn session_scope(uid: u32, session_id: &str) -> (r: String)
    ensures
        r@ == path_joined(slice_of(uid), "session-"@ + session_id@ + ".scope"@),
        r@ == CGROUP_ROOT@ + scope_of(uid, session_id@),
{
    let name = cat3("session-", session_id, ".scope");
    let slice = user_slice(uid);
    proof {
        lemma_scope(uid, session_id@);
    }
    join_path(slice.as_str(), name.as_str())
}

proof fn lemma_scope(uid: u32, id: Seq<char>)
    ensures
        path_joined(
            slice_of(uid),
            "session-"@ + id + ".scope"@) == CGROUP_ROOT@ + scope_of(uid,
            id,
        ),
{
    reveal_strlit("session-");
    reveal_strlit(".slice");
    reveal_strlit("/");
    reveal_strlit("/session-");
    let slice = slice_of(uid);
    let name = "session-"@ + id + ".scope"@;
    assert(slice.last() == ".slice"@.last());
    assert(name[0] == 's');
    assert(path_joined(slice, name) == slice + "/"@ + name);
    assert("/session-"@ =~= "/"@ + "session-"@);
    assert(slice + "/"@ + name =~= CGROUP_ROOT@ + scope_of(uid, id));
}

/// The scope of a session, as the kernel names it to its processes.
pub fn session_scope_relative(uid: u32, session_id: &str) -> (r: String)
    ensures
        r@ == scope_of(uid, session_id@),
{
    let n = u64_text(uid as u64);
    let slice = cat3("/user.slice/user-", n.as_str(), ".slice");
    cat4(slice.as_str(), "/session-", session_id, ".scope")
}

/// A step on the way of a session's leader into its scope.
#[derive(Debug)]
pub enum PlaceStep {
    /// Turn the controllers on, where the directory has a file for that. No
    /// write has to succeed.
    Enable(Vec<FileWrite>),
    /// Make a directory that is not there. Where that fails, nothing more is
    /// done.
    MakeDir(String),
    /// Write to a file.
    Write(FileWrite),
}

/// The steps that put the leader of a session into its scope.
pub open spec fn leader_placed(
    uid: u32,
    id: Seq<char>,
    leader_pid: u32,
    root_exists: bool,
    r: Seq<PlaceStep>,
) -> bool {
    &&& !root_exists ==> r.len() == 0
    &&& root_exists ==> {
            let scope = CGROUP_ROOT@ + scope_of(uid, id);
            &&& r.len() == 5
            &&& r[0] matches PlaceStep::Enable(v) && enables(v@, CGROUP_ROOT@)
            &&& r[1] matches PlaceStep::MakeDir(d) && d@ == slice_of(uid)
            &&& r[2] matches PlaceStep::Enable(w) && enables(w@, slice_of(uid))
            &&& r[3] matches PlaceStep::MakeDir(e) && e@ == scope
            &&& r[4] matches PlaceStep::Write(f) && f.path@ == path_joined(
                scope,
                "cgroup.procs"@,
            ) && f.value@ == dec(leader_pid as nat)
        }
}

/// The steps that put the leader of a session into its scope, where there are
/// cgroups at all.
pub fn place_leader(uid: u32, session_id: &str, leader_pid: u32, root_exists: bool) -> (r: Vec<
    PlaceStep,
>)
    ensures
        leader_placed(uid, session_id@, leader_pid, root_exists, r@),
{
    let mut r: Vec<PlaceStep> = Vec::new();
    if root_exists {
        let slice = user_slice(uid);
        let scope = session_scope(uid, session_id);
        let procs = join_path(scope.as_str(), "cgroup.procs");
        r.push(PlaceStep::Enable(controller_writes(CGROUP_ROOT)));
        r.push(PlaceStep::MakeDir(slice.clone()));
        r.push(PlaceStep::Enable(controller_writes(slice.as_str())));
        r.push(PlaceStep::MakeDir(scope));
        r.push(PlaceStep::Write(FileWrite { path: procs, value: u64_text(leader_pid as u64) }));
    }
    r
}

/// The leader of a session goes into the scope of that session, below the slice
/// of its user; where there are no cgroups nothing is done.
pub proof fn leader_goes_into_its_scope(
    uid: u32,
    id: Seq<char>,
    leader_pid: u32,
    there: bool,
    r: Seq<PlaceStep>,
)
    requires
        leader_placed(uid, id, leader_pid, there, r),
    ensures
        !there ==> r.len() == 0,
        there ==> {
            let slice = "/sys/fs/cgroup"@ + "/user.slice/user-"@ + dec(uid as nat) + ".slice"@;
            &&& r.len() == 5
            &&& r[1] is MakeDir && r[1]->MakeDir_0@ == slice
            &&& r[3] is MakeDir && r[3]->MakeDir_0@ == slice + "/session-"@ + id + ".scope"@
            &&& r[4] is Write && r[4]->Write_0.value@ == dec(leader_pid as nat)
            &&& r[4]->Write_0.path@ == path_joined(r[3]->MakeDir_0@, "cgroup.procs"@)
        },
{
    if there {
        assert(CGROUP_ROOT@ + scope_of(uid, id) =~= "/sys/fs/cgroup"@ + "/user.slice/user-"@ + dec(
            uid as nat,
        ) + ".slice"@ + "/session-"@ + id + ".scope"@);
    }
}

} // verus!
