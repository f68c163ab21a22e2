//! The directory that a user has while logged in.

use crate::text::num::{dec, u64_text};
use crate::text::scan::{deep, lines, lines_of, words, words_of, Class};
use crate::text::{cat, cat4, chars_of, owned, same};
use vstd::prelude::*;

verus! {

/// The directory of a user.
pub open spec fn runtime_path(uid: u32) -> Seq<char> {
    "/run/user/"@ + dec(uid as nat)
}

/// The directory of a user.
pub fn path_for(uid: u32) -> (r: String)
    ensures
        r@ == runtime_path(uid),
{
    let n = u64_text(uid as u64);
    cat("/run/user/", n.as_str())
}

/// The mode of the directory.
pub const DIR_MODE: u32 = 0o700;

/// A step in the making of the directory of a user.
#[derive(Debug)]
pub enum DirStep {
    /// Make a directory with all above it. This may fail.
    MakeAll(String),
    /// Make a directory.
    Make(String),
    /// Set the mode.
    Mode(String, u32),
    /// Set the owner and the group.
    Owner(String, u32, u32),
}

/// Whether two steps set the mode and the owner of `path`.
pub open spec fn hands_over(
    mode: DirStep,
    owner: DirStep,
    path: Seq<char>,
    uid: u32,
    gid: u32,
) -> bool {
    &&& mode matches DirStep::Mode(p, m) && p@ == path && m == DIR_MODE
    &&& owner matches DirStep::Owner(q, u, g) && q@ == path && u == uid && g == gid
}

/// The steps that make the directory of a user.
pub open spec fn ensured(
    uid: u32,
    gid: u32,
    exists_already: bool,
    r: Seq<DirStep>,
) -> bool {
    &&& r[0] matches DirStep::MakeAll(p) && p@ == "/run/user"@
    &&& exists_already ==> r.len() == 3 && hands_over(r[1], r[2], runtime_path(uid), uid, gid)
    &&& !exists_already ==> {
            &&& r.len() == 4
            &&& r[1] matches DirStep::Make(q) && q@ == runtime_path(uid)
            &&& hands_over(r[2], r[3], runtime_path(uid), uid, gid)
        }
}

/// The steps that make the directory of a user, unless it is there already,
/// and give it to the user. Each but the first has to succeed.
pub fn ensure(uid: u32, gid: u32, exists_already: bool) -> (r: Vec<DirStep>)
    ensures
        ensured(uid, gid, exists_already, r@),
{
    let path = path_for(uid);
    let mut r: Vec<DirStep> = Vec::new();
    r.push(DirStep::MakeAll(owned("/run/user")));
    if !exists_already {
        r.push(DirStep::Make(path.clone()));
    }
    r.push(DirStep::Mode(path.clone(), DIR_MODE));
    r.push(DirStep::Owner(path, uid, gid));
    r
}

/// The steps after the directory was mounted. They may fail.
pub fn after_mount(uid: u32, gid: u32) -> (r: Vec<DirStep>)
    ensures
        r@.len() == 2,
        hands_over(r@[1], r@[0], runtime_path(uid), uid, gid),
{
    let path = path_for(uid);
    let mut r: Vec<DirStep> = Vec::new();
    r.push(DirStep::Owner(path.clone(), uid, gid));
    r.push(DirStep::Mode(path, DIR_MODE));
    r
}

/// The options under which the directory is mounted.
pub fn mount_options(uid: u32, gid: u32, size: &str) -> (r: String)
    ensures
        r@ == "mode=0700,uid="@ + dec(uid as nat) + ",gid="@ + dec(gid as nat) + ",size="@ + size@,
{
    let u = u64_text(uid as u64);
    let g = u64_text(gid as u64);
    let start = cat4("mode=0700,uid=", u.as_str(), ",gid=", g.as_str());
    let end = cat(",size=", size);
    let r = cat(start.as_str(), end.as_str());
    assert(r@ =~= "mode=0700,uid="@ + dec(uid as nat) + ",gid="@ + dec(gid as nat) + ",size="@
        + size@);
    r
}

/// Whether a line of the table of mounts is about something mounted at
/// `path`: the fifth field names the place.
pub open spec fn mounts_at(line: Seq<char>, path: Seq<char>) -> bool {
    let fields = words_of(line, Class::White);
    fields.len() > 4 && fields[4] == path
}

/// Whether something is mounted at `path`, by the table of mounts.
pub fn is_mounted(path: &str, mountinfo: &str) -> (r: bool)
    ensures
        r == exists|i: int|
            0 <= i < lines_of(mountinfo@).len() && mounts_at(
                #[trigger] lines_of(mountinfo@)[i],
                path@,
            ),
{
    let p = chars_of(path);
    let text = chars_of(mountinfo);
    let ls = lines(&text);
    let ghost all = lines_of(mountinfo@);
    let mut i: usize = 0;
    while i < ls.len()
        invariant
            i <= ls.len(),
            all == lines_of(mountinfo@),
            deep(ls@) == all,
            p@ == path@,
            forall|k: int| 0 <= k < i ==> !mounts_at(#[trigger] all[k], path@),
        decreases ls.len() - i,
    {
        assert(all[i as int] == ls@[i as int]@);
        let fields = words(&ls[i], Class::White);
        assert(deep(fields@).len() == fields@.len());
        if fields.len() > 4 {
            assert(deep(fields@)[4] == fields@[4]@);
            if same(&fields[4], &p) {
                assert(mounts_at(all[i as int], path@));
                return true;
            }
        }
        i += 1;
    }
    false
}

/// The directory of a user is made where it is not there, and is then the
/// user's and the group's, and nobody else's.
pub proof fn directory_belongs_to_its_user(
    uid: u32,
    gid: u32,
    there: bool,
    r: Seq<DirStep>,
)
    requires
        ensured(uid, gid, there, r),
    ensures
        ({
            let path = "/run/user/"@ + dec(uid as nat);
            let n: int = r.len() as int;
            &&& there ==> n == 3
            &&& !there ==> n == 4 && r[1] is Make && r[1]->Make_0@ == path
            &&& r[n - 2] is Mode && r[n - 2]->Mode_0@ == path && r[n - 2]->Mode_1 == 0o700
            &&& r[n - 1] is Owner && r[n - 1]->Owner_0@ == path && r[n - 1]->Owner_1 == uid && r[n
                - 1]->Owner_2 == gid
        }),
{
}

} // verus!
