use vstd::prelude::*;

verus! {

/// ASCII lower-casing of one byte; the case-insensitive extension
/// comparison is defined through this map.
pub open spec fn lower_byte(c: u8) -> u8 {
    if 65 <= c && c <= 90 {
        (c + 32) as u8
    } else {
        c
    }
}

/// A byte string lower-cased byte by byte.
pub open spec fn lower_seq(s: Seq<u8>) -> Seq<u8> {
    s.map_values(|c: u8| lower_byte(c))
}

/// Two byte strings are equal up to ASCII case.
pub open spec fn eq_ignore_case(a: Seq<u8>, b: Seq<u8>) -> bool {
    lower_seq(a) == lower_seq(b)
}

/// Lower-case one byte.
pub fn lower(c: u8) -> (r: u8)
    ensures
        r == lower_byte(c),
{
    if 65 <= c && c <= 90 {
        c + 32
    } else {
        c
    }
}

/// Case-insensitive comparison of two byte strings, as extensions are
/// compared against the keep-priority list.
pub fn eq_ignore_ascii_case(a: &Vec<u8>, b: &Vec<u8>) -> (r: bool)
    ensures
        r == eq_ignore_case(a@, b@),
{
    if a.len() != b.len() {
        proof {
            assert(lower_seq(a@).len() != lower_seq(b@).len());
        }
        return false;
    }
    let mut i: usize = 0;
    while i < a.len()
        invariant
            i <= a@.len(),
            a@.len() == b@.len(),
            forall|t: int| 0 <= t < i ==> lower_byte(a@[t]) == lower_byte(b@[t]),
        decreases a@.len() - i,
    {
        if lower(a[i]) != lower(b[i]) {
            proof {
                assert(lower_seq(a@)[i as int] != lower_seq(b@)[i as int]);
            }
            return false;
        }
        i += 1;
    }
    proof {
        assert forall|t: int| 0 <= t < a@.len() implies lower_seq(a@)[t] == lower_seq(b@)[t] by {
            assert(lower_byte(a@[t]) == lower_byte(b@[t]));
        }
        assert(lower_seq(a@) =~= lower_seq(b@));
    }
    true
}

} // verus!
