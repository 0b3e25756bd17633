use vstd::prelude::*;

use crate::ascii::{eq_ignore_ascii_case, eq_ignore_case};
use crate::group::FileEntry;

verus! {

/// Some entry of the group carries this extension, up to ASCII case.
pub open spec fn has_ext_match(entries: Seq<FileEntry>, ext: Seq<u8>) -> bool {
    exists|j: int| 0 <= j < entries.len() && eq_ignore_case(entries[j].ext@, ext)
}

/// Some keep-priority extension is present in the group.
pub open spec fn some_keep_match(keep: Seq<Vec<u8>>, entries: Seq<FileEntry>) -> bool {
    exists|k: int| 0 <= k < keep.len() && has_ext_match(entries, keep[k]@)
}

/// Entry `i` is the keeper by way of priority `k`: its extension equals
/// `keep[k]` up to case, no earlier priority matches any entry, and no
/// earlier entry matches `keep[k]`.
pub open spec fn keeper_via(
    keep: Seq<Vec<u8>>,
    entries: Seq<FileEntry>,
    i: int,
    k: int,
) -> bool {
    &&& 0 <= k < keep.len()
    &&& 0 <= i < entries.len()
    &&& eq_ignore_case(entries[i].ext@, keep[k]@)
    &&& forall|k2: int| 0 <= k2 < k ==> !has_ext_match(entries, keep[k2]@)
    &&& forall|j: int| 0 <= j < i ==> !eq_ignore_case(entries[j].ext@, keep[k]@)
}

/// Entry `i` is the one to keep: the first entry, in listing order,
/// whose extension equals the earliest keep-priority extension present
/// in the group.
pub open spec fn is_keeper_index(keep: Seq<Vec<u8>>, entries: Seq<FileEntry>, i: int) -> bool {
    exists|k: int| keeper_via(keep, entries, i, k)
}

/// Keeper selection is a function of the group and the priority list
/// alone: any two selections over the same entries agree, so repeated
/// runs over an unchanged directory pick the same keeper.
pub proof fn lemma_keeper_index_unique(
    keep: Seq<Vec<u8>>,
    entries: Seq<FileEntry>,
    i: int,
    j: int,
)
    requires
        is_keeper_index(keep, entries, i),
        is_keeper_index(keep, entries, j),
    ensures
        i == j,
{
    let k1 = choose|k: int| keeper_via(keep, entries, i, k);
    let k2 = choose|k: int| keeper_via(keep, entries, j, k);
    if k1 < k2 {
        assert(has_ext_match(entries, keep[k1]@));
    }
    if k2 < k1 {
        assert(has_ext_match(entries, keep[k2]@));
    }
    if i < j {
        assert(!eq_ignore_case(entries[i].ext@, keep[k2]@));
    }
    if j < i {
        assert(!eq_ignore_case(entries[j].ext@, keep[k1]@));
    }
}

/// The first entry carrying the given extension, up to case.
fn find_entry_with_ext(entries: &Vec<FileEntry>, ext: &Vec<u8>) -> (r: Option<usize>)
    ensures
        r matches Some(j) ==> j < entries@.len() && eq_ignore_case(entries@[j as int].ext@, ext@)
            && forall|t: int| 0 <= t < j ==> !eq_ignore_case(entries@[t].ext@, ext@),
        r is None ==> !has_ext_match(entries@, ext@),
{
    let mut j: usize = 0;
    while j < entries.len()
        invariant
            j <= entries@.len(),
            forall|t: int| 0 <= t < j ==> !eq_ignore_case(entries@[t].ext@, ext@),
        decreases entries@.len() - j,
    {
        if eq_ignore_ascii_case(&entries[j].ext, ext) {
            return Some(j);
        }
        j += 1;
    }
    proof {
        assert(!has_ext_match(entries@, ext@)) by {
            if has_ext_match(entries@, ext@) {
                let t = choose|t: int|
                    0 <= t < entries@.len() && eq_ignore_case(entries@[t].ext@, ext@);
                assert(!eq_ignore_case(entries@[t].ext@, ext@));
            }
        }
    }
    None
}

/// Walks the keep-priority list in order and returns the index of the
/// first entry whose extension matches the earliest priority present in
/// the group, or nothing when no priority matches any entry.
pub fn get_kept_file(keep: &Vec<Vec<u8>>, entries: &Vec<FileEntry>) -> (r: Option<usize>)
    ensures
        (r is Some) <==> some_keep_match(keep@, entries@),
        r matches Some(i) ==> is_keeper_index(keep@, entries@, i as int),
{
    let mut k: usize = 0;
    while k < keep.len()
        invariant
            k <= keep@.len(),
            forall|t: int| 0 <= t < k ==> !has_ext_match(entries@, keep@[t]@),
        decreases keep@.len() - k,
    {
        match find_entry_with_ext(entries, &keep[k]) {
            Some(j) => {
                proof {
                    assert(keeper_via(keep@, entries@, j as int, k as int));
                    assert(has_ext_match(entries@, keep@[k as int]@));
                }
                return Some(j);
            },
            None => {},
        }
        k += 1;
    }
    proof {
        assert(!some_keep_match(keep@, entries@)) by {
            if some_keep_match(keep@, entries@) {
                let t = choose|t: int| 0 <= t < keep@.len() && has_ext_match(entries@, keep@[t]@);
                assert(!has_ext_match(entries@, keep@[t]@));
            }
        }
    }
    None
}

} // verus!
