use vstd::prelude::*;

verus! {

/// `i` is the position of the final dot of `name`, and it leaves a
/// non-empty stem before it.
pub open spec fn is_split_index(name: Seq<u8>, i: int) -> bool {
    &&& 1 <= i < name.len()
    &&& name[i] == 46u8
    &&& forall|j: int| i < j < name.len() ==> name[j] != 46u8
}

/// The file name has both a stem and an extension: a final dot that is
/// not its first byte. Names without a dot, and names whose only dot
/// leads (so the stem would be empty), are not splittable.
pub open spec fn splittable(name: Seq<u8>) -> bool {
    exists|i: int| is_split_index(name, i)
}

/// The position of the final dot; meaningful only when `splittable`.
pub open spec fn split_index(name: Seq<u8>) -> int {
    choose|i: int| is_split_index(name, i)
}

/// The stem: everything before the final dot.
pub open spec fn stem_of(name: Seq<u8>) -> Seq<u8> {
    name.subrange(0, split_index(name))
}

/// The extension: everything after the final dot (possibly empty).
pub open spec fn ext_of(name: Seq<u8>) -> Seq<u8> {
    name.subrange(split_index(name) + 1, name.len() as int)
}

/// A name has at most one split position.
pub proof fn lemma_split_index_unique(name: Seq<u8>, i: int, j: int)
    requires
        is_split_index(name, i),
        is_split_index(name, j),
    ensures
        i == j,
{
    if i < j {
        assert(name[j] != 46u8);
    }
    if j < i {
        assert(name[i] != 46u8);
    }
}

/// Splits a file name into stem and extension at its final dot, or
/// reports that it has none to split at.
pub fn split_name(name: &Vec<u8>) -> (r: Option<(Vec<u8>, Vec<u8>)>)
    ensures
        (r is Some) <==> splittable(name@),
        r matches Some(p) ==> p.0@ == stem_of(name@) && p.1@ == ext_of(name@),
{
    let n: usize = name.len();
    let mut last_dot: usize = 0;
    let mut found: bool = false;
    let mut k: usize = 0;
    while k < n
        invariant
            n == name@.len(),
            k <= n,
            found ==> last_dot < k && name@[last_dot as int] == 46u8
                && forall|t: int| last_dot < t < k ==> name@[t] != 46u8,
            !found ==> forall|t: int| 0 <= t < k ==> name@[t] != 46u8,
        decreases n - k,
    {
        if name[k] == 46u8 {
            last_dot = k;
            found = true;
        }
        k += 1;
    }
    if !found || last_dot == 0 {
        proof {
            assert(!splittable(name@)) by {
                if splittable(name@) {
                    let i = choose|i: int| is_split_index(name@, i);
                    assert(name@[i] == 46u8);
                }
            }
        }
        return None;
    }
    proof {
        assert(is_split_index(name@, last_dot as int));
        assert(splittable(name@));
        assert(is_split_index(name@, split_index(name@)));
        lemma_split_index_unique(name@, split_index(name@), last_dot as int);
    }
    let mut stem: Vec<u8> = Vec::new();
    let mut t: usize = 0;
    while t < last_dot
        invariant
            t <= last_dot,
            last_dot < name@.len(),
            stem@ == name@.subrange(0, t as int),
        decreases last_dot - t,
    {
        stem.push(name[t]);
        proof {
            assert(name@.subrange(0, t + 1) =~= name@.subrange(0, t as int).push(name@[t as int]));
        }
        t += 1;
    }
    let mut ext: Vec<u8> = Vec::new();
    let mut u: usize = last_dot + 1;
    while u < n
        invariant
            n == name@.len(),
            last_dot + 1 <= u <= n,
            ext@ == name@.subrange(last_dot + 1, u as int),
        decreases n - u,
    {
        ext.push(name[u]);
        proof {
            assert(name@.subrange(last_dot + 1, u + 1) =~= name@.subrange(
                last_dot + 1,
                u as int,
            ).push(name@[u as int]));
        }
        u += 1;
    }
    Some((stem, ext))
}

} // verus!
