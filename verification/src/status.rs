//! Summarizing repository status entries into the three booleans the
//! renderer's predicates use.

use vstd::prelude::*;

verus! {

/// The flags of one status entry, as plain booleans.
#[derive(Debug, Clone, Copy, PartialEq, Eq)]
pub struct StatusEntry {
    /// New in the working tree.
    pub wt_new: bool,
    /// Modified in the working tree.
    pub wt_modified: bool,
    /// Renamed in the working tree.
    pub wt_renamed: bool,
    /// Type change in the working tree.
    pub wt_typechange: bool,
    /// New in the index.
    pub index_new: bool,
    /// Modified in the index.
    pub index_modified: bool,
    /// Deleted in the index.
    pub index_deleted: bool,
    /// Renamed in the index.
    pub index_renamed: bool,
    /// Type change in the index.
    pub index_typechange: bool,
}

/// Whether an entry counts as a working-tree modification.
pub open spec fn entry_modified(e: StatusEntry) -> bool {
    e.wt_new || e.wt_modified || e.wt_renamed || e.wt_typechange
}

/// Whether an entry counts as staged.
pub open spec fn entry_staged(e: StatusEntry) -> bool {
    e.index_new || e.index_modified || e.index_deleted || e.index_renamed || e.index_typechange
}

/// Summarize status entries as (dirty, modified, staged): any entry at all
/// makes the repository dirty; an entry with a working-tree flag makes it
/// modified; one with an index flag makes it staged.
pub fn summarize_status(entries: &Vec<StatusEntry>) -> (r: (bool, bool, bool))
    ensures
        r.0 == (entries@.len() > 0),
        r.1 == (exists|k: int| 0 <= k < entries@.len() && entry_modified(entries@[k])),
        r.2 == (exists|k: int| 0 <= k < entries@.len() && entry_staged(entries@[k])),
{
    let dirty: bool = entries.len() > 0;
    let mut modified = false;
    let mut staged = false;
    let mut i: usize = 0;
    while i < entries.len() && !(modified && staged)
        invariant
            i <= entries@.len(),
            modified == (exists|k: int| 0 <= k < i && entry_modified(entries@[k])),
            staged == (exists|k: int| 0 <= k < i && entry_staged(entries@[k])),
        decreases entries@.len() - i,
    {
        let e = entries[i];
        if e.wt_new || e.wt_modified || e.wt_renamed || e.wt_typechange {
            proof {
                assert(entry_modified(entries@[i as int]));
            }
            modified = true;
        }
        if e.index_new || e.index_modified || e.index_deleted || e.index_renamed
            || e.index_typechange {
            proof {
                assert(entry_staged(entries@[i as int]));
            }
            staged = true;
        }
        i = i + 1;
    }
    proof {
        if modified && staged {
            assert(exists|k: int| 0 <= k < entries@.len() && entry_modified(entries@[k]));
            assert(exists|k: int| 0 <= k < entries@.len() && entry_staged(entries@[k]));
        }
    }
    (dirty, modified, staged)
}

} // verus!
