//! Byte-level scanning for `<img ... src="...">` occurrences.
//!
//! The scan is not an HTML parser: it finds each `<img` tag start
//! case-insensitively, looks for `src=` within a bounded window after
//! it, takes the quoted value that follows, and hands an accepted,
//! percent-decoded relative reference to the caller. Tags whose
//! attribute lies beyond the window are missed by design.

use vstd::prelude::*;
use crate::bytes::copy_range;
use crate::classify::{classify, classified, trim_bytes, trimmed, AssetClass};
use crate::percent::{percent_decoded, urlencoding_decode};

verus! {

/// How many bytes past a tag start the `src` attribute is looked for.
pub const LOOKAHEAD: usize = 1000;

/// ASCII lowercase folding of one byte.
pub open spec fn lower(b: u8) -> u8 {
    if 0x41 <= b && b <= 0x5a {
        (b + 0x20) as u8
    } else {
        b
    }
}

/// True when `pat` matches the lowercase folding of `s` at `i`.
pub open spec fn matches_at(s: Seq<u8>, pat: Seq<u8>, i: int) -> bool {
    &&& 0 <= i
    &&& i + pat.len() <= s.len()
    &&& forall|j: int| 0 <= j < pat.len() ==> lower(s[i + j]) == #[trigger] pat[j]
}

/// The first `i` at or after `from` with a whole match of `pat` (given
/// in lowercase) before `end`, or nothing.
pub open spec fn find_lower_from(s: Seq<u8>, pat: Seq<u8>, from: int, end: int) -> Option<int>
    decreases end - from
        when 0 <= from && 0 < pat.len()
{
    if from + pat.len() > end {
        None
    } else if matches_at(s, pat, from) {
        Some(from)
    } else {
        find_lower_from(s, pat, from + 1, end)
    }
}

/// A found index lies between `from` and `end` and matches.
pub proof fn lemma_find_lower_bounds(s: Seq<u8>, pat: Seq<u8>, from: int, end: int, i: int)
    requires
        0 <= from,
        0 < pat.len(),
        find_lower_from(s, pat, from, end) == Some(i),
    ensures
        from <= i,
        i + pat.len() <= end,
        matches_at(s, pat, i),
    decreases end - from,
{
    if from + pat.len() > end {
    } else if matches_at(s, pat, from) {
    } else {
        lemma_find_lower_bounds(s, pat, from + 1, end, i);
    }
}

/// `<img`, lowercase.
pub open spec fn pat_img() -> Seq<u8> {
    seq![0x3cu8, 0x69, 0x6d, 0x67]
}

/// `src=`, lowercase.
pub open spec fn pat_src() -> Seq<u8> {
    seq![0x73u8, 0x72, 0x63, 0x3d]
}

/// End of the bounded window searched after a tag start at `ip`.
pub open spec fn window_end(s: Seq<u8>, ip: int) -> int {
    if ip + LOOKAHEAD <= s.len() {
        ip + LOOKAHEAD
    } else {
        s.len() as int
    }
}

/// The accepted, decoded `src` reference of the tag starting at `ip`,
/// or nothing: nothing where no `src=` falls inside the window, where
/// no quote follows it, where the closing quote is not found inside the
/// window, or where the value is not classified as a relative path.
pub open spec fn src_ref_at(s: Seq<u8>, ip: int) -> Option<Seq<u8>> {
    let end = window_end(s, ip);
    match find_lower_from(s, pat_src(), ip, end) {
        None => None,
        Some(sp) => {
            if sp + 4 < end && (s[sp + 4] == 0x22 || s[sp + 4] == 0x27) {
                let q = s[sp + 4];
                match find_lower_from(s, seq![q], sp + 5, end) {
                    None => None,
                    Some(e) => {
                        let raw = s.subrange(sp + 5, e);
                        if classified(raw) == AssetClass::RelativePath {
                            Some(percent_decoded(trimmed(raw)))
                        } else {
                            None
                        }
                    },
                }
            } else {
                None
            }
        },
    }
}

/// Every accepted, decoded reference of the scan that starts at `pos`:
/// each `<img` occurrence contributes its reference, if it has one, and
/// scanning resumes four bytes past the tag start.
pub open spec fn scan_refs_from(s: Seq<u8>, pos: int) -> Seq<Seq<u8>>
    decreases s.len() - pos
        when 0 <= pos
        via scan_refs_from_decreases
{
    match find_lower_from(s, pat_img(), pos, s.len() as int) {
        None => Seq::empty(),
        Some(ip) => {
            let rest = scan_refs_from(s, ip + 4);
            match src_ref_at(s, ip) {
                Some(v) => seq![v] + rest,
                None => rest,
            }
        },
    }
}

#[via_fn]
proof fn scan_refs_from_decreases(s: Seq<u8>, pos: int) {
    match find_lower_from(s, pat_img(), pos, s.len() as int) {
        None => {},
        Some(ip) => {
            lemma_find_lower_bounds(s, pat_img(), pos, s.len() as int, ip);
        },
    }
}

fn lower_byte(b: u8) -> (r: u8)
    ensures
        r == lower(b),
{
    if 0x41 <= b && b <= 0x5a {
        b + 0x20
    } else {
        b
    }
}

fn match_at(s: &[u8], pat: &[u8], i: usize) -> (r: bool)
    requires
        i + pat@.len() <= s@.len(),
    ensures
        r == matches_at(s@, pat@, i as int),
{
    let slen = s.len();
    let mut j: usize = 0;
    while j < pat.len()
        invariant
            i + pat@.len() <= s@.len(),
            s@.len() == slen,
            j <= pat@.len(),
            forall|k: int| 0 <= k < j ==> lower(s@[i + k]) == #[trigger] pat@[k],
        decreases pat.len() - j,
    {
        if lower_byte(s[i + j]) != pat[j] {
            return false;
        }
        j = j + 1;
    }
    true
}

fn find_lower(s: &[u8], pat: &[u8], from: usize, end: usize) -> (r: Option<usize>)
    requires
        0 < pat@.len(),
        from <= end,
        end <= s@.len(),
    ensures
        (match r {
            Some(i) => {
                &&& find_lower_from(s@, pat@, from as int, end as int) == Some(i as int)
                &&& from <= i
                &&& i + pat@.len() <= end
                &&& matches_at(s@, pat@, i as int)
            },
            None => find_lower_from(s@, pat@, from as int, end as int) is None,
        }),
{
    let mut i: usize = from;
    while end - i >= pat.len()
        invariant
            from <= i <= end,
            end <= s@.len(),
            0 < pat@.len(),
            find_lower_from(s@, pat@, from as int, end as int) == find_lower_from(
                s@,
                pat@,
                i as int,
                end as int,
            ),
        decreases end - i,
    {
        if match_at(s, pat, i) {
            return Some(i);
        }
        i = i + 1;
    }
    None
}

/// Finds the next `<img` occurrence at or after `pos`, together with
/// its accepted, decoded `src` reference where the tag has one.
pub fn next_asset_ref(content: &[u8], pos: usize) -> (r: Option<(usize, Option<Vec<u8>>)>)
    ensures
        (match r {
            Some(found) => {
                &&& find_lower_from(content@, pat_img(), pos as int, content@.len() as int)
                    == Some(found.0 as int)
                &&& (match found.1 {
                    Some(v) => src_ref_at(content@, found.0 as int) == Some(v@),
                    None => src_ref_at(content@, found.0 as int) is None,
                })
            },
            None => find_lower_from(content@, pat_img(), pos as int, content@.len() as int)
                is None,
        }),
{
    let len = content.len();
    if pos > len {
        return None;
    }
    let img: [u8; 4] = [0x3c, 0x69, 0x6d, 0x67];
    proof {
        assert(img@ =~= pat_img());
    }
    match find_lower(content, img.as_slice(), pos, len) {
        None => None,
        Some(ip) => {
            let end = if len - ip > LOOKAHEAD {
                ip + LOOKAHEAD
            } else {
                len
            };
            proof {
                assert(end as int == window_end(content@, ip as int));
            }
            let src4: [u8; 4] = [0x73, 0x72, 0x63, 0x3d];
            proof {
                assert(src4@ =~= pat_src());
            }
            let inner: Option<Vec<u8>> = match find_lower(content, src4.as_slice(), ip, end) {
                None => None,
                Some(sp) => {
                    if sp + 4 < end {
                        let q = content[sp + 4];
                        if q == 0x22 || q == 0x27 {
                            let qpat: [u8; 1] = [q];
                            proof {
                                assert(qpat@ =~= seq![q]);
                            }
                            match find_lower(content, qpat.as_slice(), sp + 5, end) {
                                None => None,
                                Some(e) => {
                                    let raw = copy_range(content, sp + 5, e);
                                    if classify(raw.as_slice()) == AssetClass::RelativePath {
                                        let t = trim_bytes(raw.as_slice());
                                        let d = urlencoding_decode(t.as_slice());
                                        Some(d)
                                    } else {
                                        None
                                    }
                                },
                            }
                        } else {
                            None
                        }
                    } else {
                        None
                    }
                },
            };
            Some((ip, inner))
        },
    }
}

} // verus!
