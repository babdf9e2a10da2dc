//! Path arithmetic on forward-slash byte paths.
//!
//! A path is a byte string whose components are separated by `/`. The
//! basename is what follows the last separator; the parent is what
//! precedes it. Joining prepends a base directory and a separator.

use vstd::prelude::*;
use crate::bytes::copy_range;

verus! {

/// Index of the last `/` among the first `i` bytes of `s`, or -1.
pub open spec fn last_slash_before(s: Seq<u8>, i: int) -> int
    decreases i
        when 0 <= i <= s.len()
{
    if i <= 0 {
        -1
    } else if s[i - 1] == 0x2f {
        i - 1
    } else {
        last_slash_before(s, i - 1)
    }
}

/// Index of the last `/` in `s`, or -1 where there is none.
pub open spec fn last_slash(s: Seq<u8>) -> int {
    last_slash_before(s, s.len() as int)
}

/// The part of a path after its last `/`; the whole path without one.
pub open spec fn basename_of(s: Seq<u8>) -> Seq<u8> {
    s.subrange(last_slash(s) + 1, s.len() as int)
}

/// The part of a path before its last `/`; empty without one.
pub open spec fn parent_of(s: Seq<u8>) -> Seq<u8> {
    if last_slash(s) < 0 {
        Seq::empty()
    } else {
        s.subrange(0, last_slash(s))
    }
}

/// True of a basename under which a file can be stored: nonempty and
/// neither `.` nor `..`.
pub open spec fn valid_basename(b: Seq<u8>) -> bool {
    b.len() > 0 && b != seq![0x2eu8] && b != seq![0x2eu8, 0x2eu8]
}

/// `base/rel`, or `rel` alone where the base directory is empty.
pub open spec fn joined(base: Seq<u8>, rel: Seq<u8>) -> Seq<u8> {
    if base.len() == 0 {
        rel
    } else {
        base + seq![0x2fu8] + rel
    }
}

/// Splits a path into its parent directory and its basename.
pub fn split_basename(path: &[u8]) -> (r: (Vec<u8>, Vec<u8>))
    ensures
        r.0@ == parent_of(path@),
        r.1@ == basename_of(path@),
{
    let len = path.len();
    let mut i: usize = len;
    while i > 0 && path[i - 1] != 0x2f
        invariant
            i <= len == path@.len(),
            last_slash(path@) == last_slash_before(path@, i as int),
        decreases i,
    {
        i = i - 1;
    }
    if i == 0 {
        proof {
            assert(last_slash(path@) == -1);
        }
        let parent: Vec<u8> = Vec::new();
        let base = copy_range(path, 0, len);
        proof {
            assert(parent@ =~= parent_of(path@));
            assert(path@.subrange(0, len as int) =~= basename_of(path@));
        }
        (parent, base)
    } else {
        proof {
            assert(last_slash(path@) == i - 1);
        }
        let parent = copy_range(path, 0, i - 1);
        let base = copy_range(path, i, len);
        (parent, base)
    }
}

/// True of a basename under which a file can be stored.
pub fn is_valid_basename(b: &[u8]) -> (r: bool)
    ensures
        r == valid_basename(b@),
{
    if b.len() == 0 {
        return false;
    }
    if b.len() == 1 && b[0] == 0x2e {
        proof {
            assert(b@ =~= seq![0x2eu8]);
        }
        return false;
    }
    if b.len() == 2 && b[0] == 0x2e && b[1] == 0x2e {
        proof {
            assert(b@ =~= seq![0x2eu8, 0x2eu8]);
        }
        return false;
    }
    proof {
        if b@ == seq![0x2eu8] {
            assert(b@.len() == 1 && b@[0] == 0x2e);
        }
        if b@ == seq![0x2eu8, 0x2eu8] {
            assert(b@.len() == 2 && b@[0] == 0x2e && b@[1] == 0x2e);
        }
    }
    true
}

/// Joins a base directory and a relative path with a `/` separator.
pub fn join_path(base: &[u8], rel: &[u8]) -> (r: Vec<u8>)
    ensures
        r@ == joined(base@, rel@),
{
    if base.len() == 0 {
        let r = copy_range(rel, 0, rel.len());
        proof {
            assert(rel@.subrange(0, rel@.len() as int) =~= rel@);
        }
        r
    } else {
        let mut r = copy_range(base, 0, base.len());
        proof {
            assert(base@.subrange(0, base@.len() as int) =~= base@);
        }
        r.push(0x2f);
        proof {
            assert(base@.push(0x2fu8) =~= base@ + seq![0x2fu8] + rel@.subrange(0, 0));
        }
        let mut i: usize = 0;
        while i < rel.len()
            invariant
                i <= rel@.len(),
                r@ == base@ + seq![0x2fu8] + rel@.subrange(0, i as int),
            decreases rel.len() - i,
        {
            r.push(rel[i]);
            proof {
                assert((base@ + seq![0x2fu8] + rel@.subrange(0, i as int)).push(rel@[i as int])
                    =~= base@ + seq![0x2fu8] + rel@.subrange(0, i + 1));
            }
            i = i + 1;
        }
        proof {
            assert(rel@.subrange(0, rel@.len() as int) =~= rel@);
        }
        r
    }
}

} // verus!
