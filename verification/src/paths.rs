use vstd::prelude::*;

verus! {

/// Joining a relative child onto a base path: a separator is added
/// unless the base is empty or already ends with one. Both the scanned
/// tree and the move destination are extended this way.
pub open spec fn join_spec(base: Seq<u8>, name: Seq<u8>) -> Seq<u8> {
    if base.len() == 0 {
        name
    } else if base.last() == 47u8 {
        base + name
    } else {
        base + seq![47u8] + name
    }
}

/// Appends a child name to a base path.
pub fn join_path(base: &Vec<u8>, name: &Vec<u8>) -> (r: Vec<u8>)
    ensures
        r@ == join_spec(base@, name@),
{
    let mut r: Vec<u8> = Vec::new();
    let mut i: usize = 0;
    while i < base.len()
        invariant
            i <= base@.len(),
            r@ == base@.subrange(0, i as int),
        decreases base@.len() - i,
    {
        r.push(base[i]);
        proof {
            assert(base@.subrange(0, i + 1) =~= base@.subrange(0, i as int).push(
                base@[i as int],
            ));
        }
        i += 1;
    }
    proof {
        assert(base@.subrange(0, base@.len() as int) =~= base@);
    }
    if base.len() > 0 && base[base.len() - 1] != 47u8 {
        r.push(47u8);
    }
    let ghost mid: Seq<u8> = r@;
    let mut j: usize = 0;
    while j < name.len()
        invariant
            j <= name@.len(),
            r@ == mid + name@.subrange(0, j as int),
        decreases name@.len() - j,
    {
        r.push(name[j]);
        proof {
            assert(mid + name@.subrange(0, j + 1) =~= (mid + name@.subrange(0, j as int)).push(
                name@[j as int],
            ));
        }
        j += 1;
    }
    proof {
        assert(name@.subrange(0, name@.len() as int) =~= name@);
        assert(r@ =~= join_spec(base@, name@));
    }
    r
}

/// A discard confirmed inside a subdirectory visit lands under the move
/// root with the relative directory recreated: joining the subdirectory
/// onto the destination and then the file name yields
/// destination, separator, subdirectory, separator, name.
pub proof fn lemma_join_in_subdir(m: Seq<u8>, sub: Seq<u8>, n: Seq<u8>)
    requires
        m.len() > 0,
        m.last() != 47u8,
        sub.len() > 0,
        sub.last() != 47u8,
    ensures
        join_spec(join_spec(m, sub), n) == m + seq![47u8] + sub + seq![47u8] + n,
{
    let ms = m + seq![47u8] + sub;
    assert(ms.len() == m.len() + 1 + sub.len());
    assert(ms.last() == sub.last());
    assert(join_spec(join_spec(m, sub), n) =~= m + seq![47u8] + sub + seq![47u8] + n);
}

} // verus!
