//! The places of the cgroups.

use crate::fspath::{join_path, path_joined};
use crate::text::num::{dec, u64_text};
use crate::text::{cat4, owned};
use vstd::prelude::*;

verus! {

/// The cgroup that holds those of all services.
pub const CGROUP_ROOT: &'static str = "/sys/fs/cgroup/dynamod";

/// The file that is there where cgroups of the second version are.
pub const CGROUP_MARKER: &'static str = "/sys/fs/cgroup/cgroup.controllers";

/// A file and what is to be written to it.
#[derive(Debug, Clone)]
pub struct FileWrite {
    pub path: String,
    pub value: String,
}

/// The cgroups of the services.
#[derive(Debug)]
pub struct CgroupHierarchy {
    root: String,
}

/// Why a cgroup could not be made or used: the path and the reason.
#[derive(Debug)]
pub enum CgroupError {
    CreateDir(String, String),
    RemoveDir(String, String),
    WriteFile(String, String),
    ReadFile(String, String),
}

impl CgroupError {
    /// The error in words.
    pub open spec fn text(self) -> Seq<char> {
        match self {
            CgroupError::CreateDir(path, why) => "failed to create directory "@ + path@ + ": "@
                + why@,
            CgroupError::RemoveDir(path, why) => "failed to remove directory "@ + path@ + ": "@
                + why@,
            CgroupError::WriteFile(path, why) => "failed to write "@ + path@ + ": "@ + why@,
            CgroupError::ReadFile(path, why) => "failed to read "@ + path@ + ": "@ + why@,
        }
    }

    /// The error in words.
    pub fn message(&self) -> (r: String)
        ensures
            r@ == self.text(),
    {
        match self {
            CgroupError::CreateDir(path, why) => cat4(
                "failed to create directory ",
                path.as_str(),
                ": ",
                why.as_str(),
            ),
            CgroupError::RemoveDir(path, why) => cat4(
                "failed to remove directory ",
                path.as_str(),
                ": ",
                why.as_str(),
            ),
            CgroupError::WriteFile(path, why) => cat4(
                "failed to write ",
                path.as_str(),
                ": ",
                why.as_str(),
            ),
            CgroupError::ReadFile(path, why) => cat4(
                "failed to read ",
                path.as_str(),
                ": ",
                why.as_str(),
            ),
        }
    }
}

/// The error where a file could not be written: it names the file, and says
/// why.
pub fn write_refused(w: &FileWrite, why: String) -> (r: CgroupError)
    ensures
        r matches CgroupError::WriteFile(path, reason) && path@ == w.path@ && reason == why,
{
    CgroupError::WriteFile(w.path.clone(), why)
}

/// The error where a directory could not be made: it names the directory, and
/// says why.
pub fn create_refused(dir: &str, why: String) -> (r: CgroupError)
    ensures
        r matches CgroupError::CreateDir(path, reason) && path@ == dir@ && reason == why,
{
    CgroupError::CreateDir(owned(dir), why)
}

/// Whether `w` writes `value` to `path`.
pub open spec fn writes(w: FileWrite, path: Seq<char>, value: Seq<char>) -> bool {
    w.path@ == path && w.value@ == value
}

/// Whether `v` turns on the controllers for what is below `dir`.
pub open spec fn enables(v: Seq<FileWrite>, dir: Seq<char>) -> bool {
    let file = path_joined(dir, "cgroup.subtree_control"@);
    &&& v.len() == 4
    &&& writes(v[0], file, "+cpu"@)
    &&& writes(v[1], file, "+memory"@)
    &&& writes(v[2], file, "+io"@)
    &&& writes(v[3], file, "+pids"@)
}

/// What turns on the controllers for what is below `dir`.
pub fn controller_writes(dir: &str) -> (r: Vec<FileWrite>)
    ensures
        enables(r@, dir@),
{
    let file = join_path(dir, "cgroup.subtree_control");
    let mut r: Vec<FileWrite> = Vec::new();
    r.push(FileWrite { path: file.clone(), value: owned("+cpu") });
    r.push(FileWrite { path: file.clone(), value: owned("+memory") });
    r.push(FileWrite { path: file.clone(), value: owned("+io") });
    r.push(FileWrite { path: file, value: owned("+pids") });
    r
}

impl CgroupHierarchy {
    /// The path of the root.
    pub closed spec fn root_path(self) -> Seq<char> {
        self.root@
    }

    /// The cgroups at their usual place.
    pub fn init() -> (r: Self)
        ensures
            r.root_path() == CGROUP_ROOT@,
    {
        Self::init_at(CGROUP_ROOT)
    }

    /// The cgroups at another place.
    pub fn init_at(root: &str) -> (r: Self)
        ensures
            r.root_path() == root@,
    {
        CgroupHierarchy { root: owned(root) }
    }

    /// The path of the cgroup of a service.
    pub fn service_path(&self, service_name: &str) -> (r: String)
        ensures
            r@ == path_joined(self.root_path(), service_name@),
    {
        join_path(self.root.as_str(), service_name)
    }

    /// What moves a process into the cgroup of a service.
    pub fn add_process(&self, service_name: &str, pid: u32) -> (r: FileWrite)
        ensures
            writes(
                r,
                path_joined(path_joined(self.root_path(), service_name@), "cgroup.procs"@),
                dec(pid as nat),
            ),
    {
        FileWrite {
            path: join_path(self.service_path(service_name).as_str(), "cgroup.procs"),
            value: u64_text(pid as u64),
        }
    }

    /// Whether there are cgroups of the second version, where
    /// `CGROUP_MARKER` was looked for.
    pub fn is_available(marker_exists: bool) -> (r: bool)
        ensures
            r == marker_exists,
    {
        marker_exists
    }

    /// The path of the root.
    pub fn root(&self) -> (r: &str)
        ensures
            r@ == self.root_path(),
    {
        self.root.as_str()
    }
}

} // verus!
