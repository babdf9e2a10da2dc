//! Classification of URL-like strings found in `src` attributes.
//!
//! A raw attribute value is trimmed of surrounding whitespace and sorted
//! into exactly one class. Only a relative path triggers an asset copy;
//! externally hosted, inlined, and absolute references are skipped.

use vstd::prelude::*;

verus! {

/// Classification of a raw `src` attribute value.
#[derive(Clone, Copy, Debug, PartialEq, Eq, Structural)]
pub enum AssetClass {
    /// Empty after trimming.
    Empty,
    /// `http://` or `https://`.
    AbsoluteUrl,
    /// `data:`.
    DataUri,
    /// `blob:`.
    BlobUri,
    /// `file:`.
    FileUri,
    /// A leading `/`.
    AbsolutePath,
    /// Anything else: a candidate for copying.
    RelativePath,
}

/// True of an ASCII whitespace byte.
pub open spec fn is_space(b: u8) -> bool {
    b == 0x20 || (0x09 <= b && b <= 0x0d)
}

/// `s` without its leading whitespace.
pub open spec fn trimmed_start(s: Seq<u8>) -> Seq<u8>
    decreases s.len(),
{
    if s.len() > 0 && is_space(s[0]) {
        trimmed_start(s.drop_first())
    } else {
        s
    }
}

/// `s` without its trailing whitespace.
pub open spec fn trimmed_end(s: Seq<u8>) -> Seq<u8>
    decreases s.len(),
{
    if s.len() > 0 && is_space(s.last()) {
        trimmed_end(s.drop_last())
    } else {
        s
    }
}

/// `s` without surrounding whitespace.
pub open spec fn trimmed(s: Seq<u8>) -> Seq<u8> {
    trimmed_end(trimmed_start(s))
}

/// True when `p` is a prefix of `s`.
pub open spec fn starts_with(s: Seq<u8>, p: Seq<u8>) -> bool {
    p.len() <= s.len() && s.subrange(0, p.len() as int) == p
}

pub open spec fn scheme_http() -> Seq<u8> {
    seq![0x68, 0x74, 0x74, 0x70, 0x3a, 0x2f, 0x2f]
}

pub open spec fn scheme_https() -> Seq<u8> {
    seq![0x68, 0x74, 0x74, 0x70, 0x73, 0x3a, 0x2f, 0x2f]
}

pub open spec fn scheme_data() -> Seq<u8> {
    seq![0x64, 0x61, 0x74, 0x61, 0x3a]
}

pub open spec fn scheme_blob() -> Seq<u8> {
    seq![0x62, 0x6c, 0x6f, 0x62, 0x3a]
}

pub open spec fn scheme_file() -> Seq<u8> {
    seq![0x66, 0x69, 0x6c, 0x65, 0x3a]
}

/// The class of a raw attribute value: trim, reject the empty value, then
/// match the known scheme prefixes and a leading slash, in that order;
/// whatever remains is a relative path candidate.
pub open spec fn classified(raw: Seq<u8>) -> AssetClass {
    let t = trimmed(raw);
    if t.len() == 0 {
        AssetClass::Empty
    } else if starts_with(t, scheme_http()) || starts_with(t, scheme_https()) {
        AssetClass::AbsoluteUrl
    } else if starts_with(t, scheme_data()) {
        AssetClass::DataUri
    } else if starts_with(t, scheme_blob()) {
        AssetClass::BlobUri
    } else if starts_with(t, scheme_file()) {
        AssetClass::FileUri
    } else if t[0] == 0x2f {
        AssetClass::AbsolutePath
    } else {
        AssetClass::RelativePath
    }
}

fn space(b: u8) -> (r: bool)
    ensures
        r == is_space(b),
{
    b == 0x20 || (0x09 <= b && b <= 0x0d)
}

/// Copies `s` with surrounding ASCII whitespace removed.
pub fn trim_bytes(s: &[u8]) -> (r: Vec<u8>)
    ensures
        r@ == trimmed(s@),
{
    let len = s.len();
    proof {
        assert(s@.subrange(0, len as int) =~= s@);
    }
    let mut a: usize = 0;
    while a < len && space(s[a])
        invariant
            a <= len,
            len == s@.len(),
            trimmed_start(s@) == trimmed_start(s@.subrange(a as int, len as int)),
        decreases len - a,
    {
        proof {
            assert(s@.subrange(a as int, len as int).drop_first() =~= s@.subrange(
                a + 1,
                len as int,
            ));
        }
        a = a + 1;
    }
    proof {
        assert(trimmed_start(s@) == s@.subrange(a as int, len as int));
    }
    let mut b: usize = len;
    while b > a && space(s[b - 1])
        invariant
            a <= b <= len,
            len == s@.len(),
            trimmed_start(s@) == s@.subrange(a as int, len as int),
            trimmed_end(s@.subrange(a as int, len as int)) == trimmed_end(
                s@.subrange(a as int, b as int),
            ),
        decreases b,
    {
        proof {
            assert(s@.subrange(a as int, b as int).drop_last() =~= s@.subrange(
                a as int,
                b - 1,
            ));
        }
        b = b - 1;
    }
    proof {
        assert(trimmed(s@) == s@.subrange(a as int, b as int));
    }
    let mut r: Vec<u8> = Vec::new();
    proof {
        assert(s@.subrange(a as int, a as int) =~= Seq::<u8>::empty());
    }
    let mut i: usize = a;
    while i < b
        invariant
            a <= i <= b <= len,
            len == s@.len(),
            r@ == s@.subrange(a as int, i as int),
        decreases b - i,
    {
        r.push(s[i]);
        proof {
            assert(s@.subrange(a as int, i + 1) =~= s@.subrange(a as int, i as int).push(
                s@[i as int],
            ));
        }
        i = i + 1;
    }
    r
}

/// True when `p` is a prefix of `s`.
pub fn bytes_starts_with(s: &[u8], p: &[u8]) -> (r: bool)
    ensures
        r == starts_with(s@, p@),
{
    if p.len() > s.len() {
        return false;
    }
    let mut j: usize = 0;
    while j < p.len()
        invariant
            j <= p@.len() <= s@.len(),
            forall|k: int| 0 <= k < j ==> s@[k] == p@[k],
        decreases p.len() - j,
    {
        if s[j] != p[j] {
            proof {
                assert(s@.subrange(0, p@.len() as int)[j as int] == s@[j as int]);
            }
            return false;
        }
        j = j + 1;
    }
    proof {
        assert(s@.subrange(0, p@.len() as int) =~= p@);
    }
    true
}

/// Classifies a raw attribute value as the same-machine relative file it
/// may denote, or as one of the skipped kinds.
pub fn classify(value: &[u8]) -> (c: AssetClass)
    ensures
        c == classified(value@),
{
    let t = trim_bytes(value);
    let http: [u8; 7] = [0x68, 0x74, 0x74, 0x70, 0x3a, 0x2f, 0x2f];
    let https: [u8; 8] = [0x68, 0x74, 0x74, 0x70, 0x73, 0x3a, 0x2f, 0x2f];
    let data: [u8; 5] = [0x64, 0x61, 0x74, 0x61, 0x3a];
    let blob: [u8; 5] = [0x62, 0x6c, 0x6f, 0x62, 0x3a];
    let file: [u8; 5] = [0x66, 0x69, 0x6c, 0x65, 0x3a];
    proof {
        assert(http@ =~= scheme_http());
        assert(https@ =~= scheme_https());
        assert(data@ =~= scheme_data());
        assert(blob@ =~= scheme_blob());
        assert(file@ =~= scheme_file());
    }
    if t.len() == 0 {
        AssetClass::Empty
    } else if bytes_starts_with(t.as_slice(), http.as_slice()) || bytes_starts_with(
        t.as_slice(),
        https.as_slice(),
    ) {
        AssetClass::AbsoluteUrl
    } else if bytes_starts_with(t.as_slice(), data.as_slice()) {
        AssetClass::DataUri
    } else if bytes_starts_with(t.as_slice(), blob.as_slice()) {
        AssetClass::BlobUri
    } else if bytes_starts_with(t.as_slice(), file.as_slice()) {
        AssetClass::FileUri
    } else if t[0] == 0x2f {
        AssetClass::AbsolutePath
    } else {
        AssetClass::RelativePath
    }
}

} // verus!
