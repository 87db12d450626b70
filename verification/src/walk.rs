use vstd::prelude::*;

use crate::parse::SLASH;
use crate::text::{append_bytes, views};

verus! {

/// The iterative depth-first walk: an explicit last-in-first-out stack of
/// the directories still to be listed. The walk itself alternates with
/// outside work — listing a directory asks the file system or the transfer
/// executable — so the stack is driven step by step: pop a pending
/// directory, have it listed, push the child directories back.
pub struct Walker {
    pub dirs: Vec<Vec<u8>>,
}

/// Starts a walk whose pending stack holds exactly the given root.
pub fn walk_dir(root: Vec<u8>) -> (w: Walker)
    ensures
        views(w.dirs@) == seq![root@],
{
    let ghost r = root@;
    let mut dirs: Vec<Vec<u8>> = Vec::new();
    dirs.push(root);
    let w = Walker { dirs };
    proof {
        assert(views(w.dirs@) =~= seq![r]);
    }
    w
}

impl Walker {
    /// Takes the most recently pushed pending directory, if any is left.
    pub fn pop_dir(&mut self) -> (r: Option<Vec<u8>>)
        ensures
            match r {
                Option::Some(d) => old(self).dirs@.len() > 0 && d@ == views(old(self).dirs@).last()
                    && views(final(self).dirs@) == views(old(self).dirs@).drop_last(),
                Option::None => old(self).dirs@.len() == 0 && final(self).dirs@ == old(
                    self,
                ).dirs@,
            },
    {
        let r = self.dirs.pop();
        proof {
            if old(self).dirs@.len() > 0 {
                assert(views(self.dirs@) =~= views(old(self).dirs@).drop_last());
            }
        }
        r
    }

    /// Adds one directory to the pending stack.
    pub fn push_dir(&mut self, dir: Vec<u8>)
        ensures
            views(final(self).dirs@) == views(old(self).dirs@).push(dir@),
    {
        let ghost d = dir@;
        self.dirs.push(dir);
        proof {
            assert(views(self.dirs@) =~= views(old(self).dirs@).push(d));
        }
    }

    /// How many directories are still pending.
    pub fn pending(&self) -> (n: usize)
        ensures
            n == self.dirs@.len(),
    {
        self.dirs.len()
    }
}

/// A child path: the parent directory and the entry name joined by a slash.
/// An absolute entry name stands alone, and no slash is doubled.
pub open spec fn spec_join(dir: Seq<u8>, entry: Seq<u8>) -> Seq<u8> {
    if entry.len() > 0 && entry[0] == SLASH {
        entry
    } else if dir.len() > 0 && dir[dir.len() - 1] == SLASH {
        dir + entry
    } else {
        dir + seq![SLASH] + entry
    }
}

/// Joins a directory path and an entry name.
pub fn join_path(dir: &Vec<u8>, entry: &Vec<u8>) -> (r: Vec<u8>)
    ensures
        r@ == spec_join(dir@, entry@),
{
    if entry.len() > 0 && entry[0] == SLASH {
        let mut r: Vec<u8> = Vec::new();
        append_bytes(&mut r, entry);
        proof {
            assert(r@ =~= entry@);
        }
        return r;
    }
    let mut r: Vec<u8> = Vec::new();
    append_bytes(&mut r, dir);
    proof {
        assert(r@ =~= dir@);
    }
    if !(dir.len() > 0 && dir[dir.len() - 1] == SLASH) {
        r.push(SLASH);
        proof {
            assert(r@ =~= dir@ + seq![SLASH]);
        }
    }
    append_bytes(&mut r, entry);
    r
}

} // verus!
