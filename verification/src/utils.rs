use vstd::prelude::*;
use vstd::slice::{slice_subrange, slice_to_vec};

verus! {

/// Where the final path component begins: one past the last `/`, or the
/// start when there is none.
pub open spec fn basename_start(s: Seq<u8>) -> int
    decreases s.len(),
{
    if s.len() == 0 {
        0
    } else if s.last() == 0x2f {
        s.len() as int
    } else {
        basename_start(s.drop_last())
    }
}

/// The final component of a path: everything after the last `/`.
pub open spec fn basename(s: Seq<u8>) -> Seq<u8> {
    s.subrange(basename_start(s), s.len() as int)
}

/// `basename_start` stays within the path.
pub proof fn lemma_basename_start_range(s: Seq<u8>)
    ensures
        0 <= basename_start(s) <= s.len(),
    decreases s.len(),
{
    if s.len() > 0 && s.last() != 0x2f {
        lemma_basename_start_range(s.drop_last());
    }
}

/// The file name a path points at: the bytes after its last `/` separator.
pub fn get_filename(path: &[u8]) -> (r: Vec<u8>)
    ensures
        r@ == basename(path@),
{
    proof {
        lemma_basename_start_range(path@);
    }
    let n = path.len();
    let mut i: usize = n;
    proof {
        assert(path@.subrange(0, n as int) =~= path@);
    }
    while i > 0
        invariant
            i <= n,
            n == path@.len(),
            basename_start(path@) == basename_start(path@.subrange(0, i as int)),
            basename_start(path@) <= i,
        ensures
            i as int == basename_start(path@),
        decreases i,
    {
        let ghost pre = path@.subrange(0, i as int);
        proof {
            assert(pre.drop_last() =~= path@.subrange(0, i as int - 1));
            lemma_basename_start_range(path@.subrange(0, i as int - 1));
        }
        if path[i - 1] == 0x2f {
            proof {
                assert(basename_start(pre) == i);
            }
            break ;
        }
        i = i - 1;
    }
    slice_to_vec(slice_subrange(path, i, n))
}

} // verus!
