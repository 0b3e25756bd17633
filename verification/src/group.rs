use vstd::prelude::*;

use crate::bytes::{bytes_eq, copy_bytes};
use crate::name::{ext_of, split_name, splittable, stem_of};
use crate::paths::{join_path, join_spec};

verus! {

/// One file of a directory listing that carries both a stem and an
/// extension: its full path, its bare name, and its extension.
pub struct FileEntry {
    pub path: Vec<u8>,
    pub name: Vec<u8>,
    pub ext: Vec<u8>,
}

/// All the files of one directory that share a stem, in listing order.
pub struct FileGroup {
    pub stem: Vec<u8>,
    pub entries: Vec<FileEntry>,
}

/// The names among `names` whose stem is `stem`, in listing order; only
/// names with both a stem and an extension take part.
pub open spec fn group_entry_names(names: Seq<Vec<u8>>, stem: Seq<u8>) -> Seq<Seq<u8>>
    decreases names.len(),
{
    if names.len() == 0 {
        Seq::empty()
    } else {
        let prefix = group_entry_names(names.drop_last(), stem);
        if splittable(names.last()@) && stem_of(names.last()@) == stem {
            prefix.push(names.last()@)
        } else {
            prefix
        }
    }
}

/// The distinct stems of `names`, each at its first occurrence.
pub open spec fn stems_of(names: Seq<Vec<u8>>) -> Seq<Seq<u8>>
    decreases names.len(),
{
    if names.len() == 0 {
        Seq::empty()
    } else {
        let prefix = stems_of(names.drop_last());
        if splittable(names.last()@) && !prefix.contains(stem_of(names.last()@)) {
            prefix.push(stem_of(names.last()@))
        } else {
            prefix
        }
    }
}

/// The stems of a list of groups.
pub open spec fn stems_list(groups: Seq<FileGroup>) -> Seq<Seq<u8>> {
    groups.map_values(|g: FileGroup| g.stem@)
}

/// The entry belongs under `stem` in the directory `dir`: its name
/// splits, its stem is the group's, its extension and full path are
/// derived from the name.
pub open spec fn entry_wf(e: FileEntry, dir: Seq<u8>, stem: Seq<u8>) -> bool {
    &&& splittable(e.name@)
    &&& stem_of(e.name@) == stem
    &&& e.ext@ == ext_of(e.name@)
    &&& e.path@ == join_spec(dir, e.name@)
}

/// A stem that never occurs among the names gathers no entries.
pub proof fn lemma_no_stem_no_entries(names: Seq<Vec<u8>>, stem: Seq<u8>)
    requires
        !stems_of(names).contains(stem),
    ensures
        group_entry_names(names, stem) == Seq::<Seq<u8>>::empty(),
    decreases names.len(),
{
    if names.len() == 0 {
        assert(group_entry_names(names, stem) =~= Seq::<Seq<u8>>::empty());
    } else {
        let prefix = names.drop_last();
        assert(!stems_of(prefix).contains(stem)) by {
            if stems_of(prefix).contains(stem) {
                let j = choose|j: int|
                    0 <= j < stems_of(prefix).len() && stems_of(prefix)[j] == stem;
                assert(stems_of(names)[j] == stem);
                assert(stems_of(names).contains(stem));
            }
        }
        lemma_no_stem_no_entries(prefix, stem);
        if splittable(names.last()@) && stem_of(names.last()@) == stem {
            assert(stems_of(names).last() == stem);
            assert(stems_of(names).contains(stem));
        }
    }
}

/// A name without a separator or without a stem is grouped under no
/// stem at all: it never becomes an entry, hence never a discard
/// candidate.
pub proof fn lemma_unsplittable_never_grouped(names: Seq<Vec<u8>>, stem: Seq<u8>, n: Seq<u8>)
    requires
        !splittable(n),
    ensures
        !group_entry_names(names, stem).contains(n),
    decreases names.len(),
{
    if names.len() == 0 {
    } else {
        lemma_unsplittable_never_grouped(names.drop_last(), stem, n);
        let prefix = group_entry_names(names.drop_last(), stem);
        if splittable(names.last()@) && stem_of(names.last()@) == stem {
            assert(names.last()@ != n);
            if prefix.push(names.last()@).contains(n) {
                let j = choose|j: int|
                    0 <= j < prefix.push(names.last()@).len() && prefix.push(
                        names.last()@,
                    )[j] == n;
                if j < prefix.len() {
                    assert(prefix[j] == n);
                    assert(prefix.contains(n));
                }
            }
        }
    }
}

/// The first group carrying the given stem, if any.
fn find_group(groups: &Vec<FileGroup>, stem: &Vec<u8>) -> (r: Option<usize>)
    ensures
        r matches Some(g) ==> g < groups@.len() && groups@[g as int].stem@ == stem@,
        r is None ==> forall|j: int| 0 <= j < groups@.len() ==> groups@[j].stem@ != stem@,
{
    let mut j: usize = 0;
    while j < groups.len()
        invariant
            j <= groups@.len(),
            forall|t: int| 0 <= t < j ==> groups@[t].stem@ != stem@,
        decreases groups@.len() - j,
    {
        if bytes_eq(&groups[j].stem, stem) {
            return Some(j);
        }
        j += 1;
    }
    None
}

/// Partitions a directory listing by stem. Each name that has both a
/// stem and an extension joins the group of its stem, in listing order;
/// every other name is silently skipped. Groups appear in order of
/// their stem's first occurrence and carry distinct stems; every entry
/// records its extension and its full path under `dir`.
pub fn get_file_map(dir: &Vec<u8>, names: &Vec<Vec<u8>>) -> (groups: Vec<FileGroup>)
    ensures
        stems_list(groups@) == stems_of(names@),
        forall|g1: int, g2: int|
            0 <= g1 < g2 < groups@.len() ==> groups@[g1].stem@ != groups@[g2].stem@,
        forall|g: int|
            0 <= g < groups@.len() ==> (#[trigger] groups@[g]).entries@.map_values(
                |e: FileEntry| e.name@,
            ) == group_entry_names(names@, groups@[g].stem@),
        forall|g: int|
            0 <= g < groups@.len() ==> (#[trigger] groups@[g]).entries@.len() >= 1,
        forall|g: int, e: int|
            0 <= g < groups@.len() && 0 <= e < groups@[g].entries@.len() ==> entry_wf(
                #[trigger] groups@[g].entries@[e],
                dir@,
                groups@[g].stem@,
            ),
{
    let mut groups: Vec<FileGroup> = Vec::new();
    let mut i: usize = 0;
    while i < names.len()
        invariant
            i <= names@.len(),
            stems_list(groups@) == stems_of(names@.subrange(0, i as int)),
            forall|g1: int, g2: int|
                0 <= g1 < g2 < groups@.len() ==> groups@[g1].stem@ != groups@[g2].stem@,
            forall|g: int|
                0 <= g < groups@.len() ==> (#[trigger] groups@[g]).entries@.map_values(
                    |e: FileEntry| e.name@,
                ) == group_entry_names(names@.subrange(0, i as int), groups@[g].stem@),
            forall|g: int|
                0 <= g < groups@.len() ==> (#[trigger] groups@[g]).entries@.len() >= 1,
            forall|g: int, e: int|
                0 <= g < groups@.len() && 0 <= e < groups@[g].entries@.len() ==> entry_wf(
                    #[trigger] groups@[g].entries@[e],
                    dir@,
                    groups@[g].stem@,
                ),
        decreases names@.len() - i,
    {
        let ghost su: Seq<Vec<u8>> = names@.subrange(0, i as int);
        let ghost su1: Seq<Vec<u8>> = names@.subrange(0, i + 1);
        proof {
            assert(su1.drop_last() =~= su);
            assert(su1.last() == names@[i as int]);
        }
        match split_name(&names[i]) {
            None => {
                proof {
                    assert(stems_of(su1) == stems_of(su));
                    assert forall|g: int| 0 <= g < groups@.len() implies (
                    #[trigger] groups@[g]).entries@.map_values(|e: FileEntry| e.name@)
                        == group_entry_names(su1, groups@[g].stem@) by {
                        assert(group_entry_names(su1, groups@[g].stem@) == group_entry_names(
                            su,
                            groups@[g].stem@,
                        ));
                    }
                }
            },
            Some(parts) => {
                let (stem, ext) = parts;
                let path = join_path(dir, &names[i]);
                let entry = FileEntry { path, name: copy_bytes(&names[i]), ext };
                proof {
                    assert(splittable(names@[i as int]@));
                    assert(stem@ == stem_of(names@[i as int]@));
                    assert(entry_wf(entry, dir@, stem@));
                }
                match find_group(&groups, &stem) {
                    Some(gi) => {
                        let ghost old_groups: Seq<FileGroup> = groups@;
                        let mut grp = groups.remove(gi);
                        let ghost old_entries: Seq<FileEntry> = grp.entries@;
                        grp.entries.push(entry);
                        groups.insert(gi, grp);
                        proof {
                            assert(groups@ =~= old_groups.update(gi as int, grp));
                            // The stem was already present, so the stem list is unchanged.
                            assert(stems_list(old_groups)[gi as int] == old_groups[gi as int].stem@);
                            assert(stems_of(su).contains(stem@));
                            assert(stems_of(su1) == stems_of(su));
                            assert(stems_list(groups@) =~= stems_list(old_groups));
                            // The touched group gains exactly the new name.
                            assert(grp.entries@.map_values(|e: FileEntry| e.name@)
                                =~= old_entries.map_values(|e: FileEntry| e.name@).push(
                                entry.name@,
                            ));
                            assert(entry.name@ == names@[i as int]@);
                            assert forall|g: int| 0 <= g < groups@.len() implies (
                            #[trigger] groups@[g]).entries@.map_values(|e: FileEntry| e.name@)
                                == group_entry_names(su1, groups@[g].stem@) by {
                                if g == gi {
                                    assert(group_entry_names(su1, stem@) == group_entry_names(
                                        su,
                                        stem@,
                                    ).push(names@[i as int]@));
                                } else {
                                    assert(groups@[g] == old_groups[g]);
                                    assert(groups@[g].stem@ != stem@);
                                    assert(group_entry_names(su1, groups@[g].stem@)
                                        == group_entry_names(su, groups@[g].stem@));
                                }
                            }
                        }
                    },
                    None => {
                        let ghost old_groups: Seq<FileGroup> = groups@;
                        let mut entries: Vec<FileEntry> = Vec::new();
                        entries.push(entry);
                        let grp = FileGroup { stem, entries };
                        groups.push(grp);
                        proof {
                            // The stem is new: the stem list grows by it.
                            assert(!stems_of(su).contains(stem@)) by {
                                if stems_of(su).contains(stem@) {
                                    let j = choose|j: int|
                                        0 <= j < stems_of(su).len() && stems_of(su)[j] == stem@;
                                    assert(stems_list(old_groups)[j] == stem@);
                                    assert(old_groups[j].stem@ == stem@);
                                }
                            }
                            assert(stems_of(su1) == stems_of(su).push(stem_of(names@[i as int]@)));
                            assert(stems_list(groups@) =~= stems_list(old_groups).push(stem@));
                            lemma_no_stem_no_entries(su, stem@);
                            assert(grp.entries@.map_values(|e: FileEntry| e.name@)
                                =~= Seq::<Seq<u8>>::empty().push(entry.name@));
                            assert forall|g: int| 0 <= g < groups@.len() implies (
                            #[trigger] groups@[g]).entries@.map_values(|e: FileEntry| e.name@)
                                == group_entry_names(su1, groups@[g].stem@) by {
                                if g < old_groups.len() {
                                    assert(groups@[g] == old_groups[g]);
                                    assert(stems_list(old_groups)[g] == old_groups[g].stem@);
                                    assert(stems_of(su).contains(old_groups[g].stem@));
                                    assert(groups@[g].stem@ != stem@);
                                    assert(group_entry_names(su1, groups@[g].stem@)
                                        == group_entry_names(su, groups@[g].stem@));
                                } else {
                                    assert(groups@[g] == grp);
                                    assert(group_entry_names(su1, stem@) == group_entry_names(
                                        su,
                                        stem@,
                                    ).push(names@[i as int]@));
                                }
                            }
                        }
                    },
                }
            },
        }
        i += 1;
    }
    proof {
        assert(names@.subrange(0, names@.len() as int) =~= names@);
    }
    groups
}

} // verus!
