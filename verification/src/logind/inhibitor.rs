//! Locks that hold power actions back.

use crate::text::scan::{contains, deep, has_part, pieces, split};
use crate::text::{chars_of, same, str_eq};
use vstd::prelude::*;

verus! {

/// A lock that a client holds.
#[derive(Debug, Clone)]
pub struct Inhibitor {
    /// What is held back: names such as "shutdown", "sleep" or "idle", with
    /// colons between them.
    pub what: String,
    /// Who holds it back.
    pub who: String,
    /// Why.
    pub why: String,
    /// "block" or "delay".
    pub mode: String,
    pub uid: u32,
    pub pid: u32,
    pub cookie: u64,
}

impl Inhibitor {
    /// Whether the lock names `what`.
    pub open spec fn names(self, what: Seq<char>) -> bool {
        pieces(self.what@, ':').contains(what)
    }

    /// Whether the lock names `what`.
    pub fn is_for(&self, what: &str) -> (r: bool)
        ensures
            r == self.names(what@),
    {
        let c = chars_of(self.what.as_str());
        let w = chars_of(what);
        let parts = split(&c, ':');
        let ghost all = deep(parts@);
        let mut i: usize = 0;
        while i < parts.len()
            invariant
                i <= parts.len(),
                all == deep(parts@),
                all == pieces(self.what@, ':'),
                w@ == what@,
                forall|k: int| 0 <= k < i ==> #[trigger] all[k] != what@,
            decreases parts.len() - i,
        {
            assert(all[i as int] == parts@[i as int]@);
            if same(&parts[i], &w) {
                assert(all.contains(what@));
                return true;
            }
            i += 1;
        }
        assert(!all.contains(what@)) by {
            if all.contains(what@) {
                let k = choose|k: int| 0 <= k < all.len() && all[k] == what@;
                assert(all[k] != what@);
            }
        }
        false
    }

    /// Whether `what` stands anywhere in the text of what is held back.
    pub fn mentions(&self, what: &str) -> (r: bool)
        ensures
            r == has_part(self.what@, what@),
    {
        let c = chars_of(self.what.as_str());
        let w = chars_of(what);
        contains(&c, &w)
    }

    /// Whether the lock has this mode.
    pub fn has_mode(&self, mode: &str) -> (r: bool)
        ensures
            r == (self.mode@ == mode@),
    {
        str_eq(self.mode.as_str(), mode)
    }
}

/// A lock for a caller.
pub fn create_inhibitor(
    what: String,
    who: String,
    why: String,
    mode: String,
    uid: u32,
    pid: u32,
    cookie: u64,
) -> (r: Inhibitor)
    ensures
        r == (Inhibitor { what, who, why, mode, uid, pid, cookie }),
{
    Inhibitor { what, who, why, mode, uid, pid, cookie }
}

} // verus!
