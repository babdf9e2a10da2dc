//! Ingestion of documents into the store.
//!
//! A plain copy flattens the source file to its basename. An HTML
//! ingestion also scans the document for `<img ... src="...">`
//! occurrences and replicates each referenced local image into the
//! store at the same relative path it had beside the source document,
//! so the references stay valid without rewriting the markup. A
//! reference that resolves to nothing is skipped silently: once the
//! primary copy has succeeded, no secondary failure undoes it.

use vstd::prelude::*;
use crate::bytes::copy_bytes;
use crate::paths::{
    basename_of, is_valid_basename, join_path, joined, parent_of, split_basename, valid_basename,
};
use crate::scan::{lemma_find_lower_bounds, next_asset_ref, pat_img, scan_refs_from};
use crate::store::{FileStore, StoreError};

verus! {

/// The map effect of copying, in order, each scanned reference that
/// resolves to a file of the source tree; the rest change nothing.
pub open spec fn apply_refs(
    m: Map<Seq<u8>, Seq<u8>>,
    src: Map<Seq<u8>, Seq<u8>>,
    parent: Seq<u8>,
    refs: Seq<Seq<u8>>,
) -> Map<Seq<u8>, Seq<u8>>
    decreases refs.len(),
{
    if refs.len() == 0 {
        m
    } else {
        let m1 = if src.contains_key(joined(parent, refs[0])) {
            m.insert(refs[0], src[joined(parent, refs[0])])
        } else {
            m
        };
        apply_refs(m1, src, parent, refs.drop_first())
    }
}

/// The store after a whole HTML ingestion: the document flattened to
/// its basename, then every scanned reference copied beside it under
/// its own relative path.
pub open spec fn ingested(
    store0: Map<Seq<u8>, Seq<u8>>,
    src: Map<Seq<u8>, Seq<u8>>,
    source_path: Seq<u8>,
) -> Map<Seq<u8>, Seq<u8>> {
    let doc = src[source_path];
    apply_refs(
        store0.insert(basename_of(source_path), doc),
        src,
        parent_of(source_path),
        scan_refs_from(doc, 0),
    )
}

impl FileStore {
    /// Copies one file of the source tree into the store under its
    /// basename alone (flatten copy), and returns that stored name.
    pub fn copy_file_to_data(&mut self, source: &FileStore, source_path: &[u8]) -> (r: Result<
        Vec<u8>,
        StoreError,
    >)
        requires
            old(self).wf(),
            source.wf(),
        ensures
            final(self).wf(),
            !source@.contains_key(source_path@) ==> (r matches Err(e) && e
                == StoreError::SourceMissing) && final(self)@ == old(self)@,
            source@.contains_key(source_path@) && !valid_basename(basename_of(source_path@)) ==> (
            r matches Err(e) && e == StoreError::InvalidName) && final(self)@ == old(self)@,
            source@.contains_key(source_path@) && valid_basename(basename_of(source_path@)) ==> (
            r matches Ok(f) && f@ == basename_of(source_path@)) && final(self)@ == old(
                self,
            )@.insert(basename_of(source_path@), source@[source_path@]),
    {
        let content = match source.read_data_file(source_path) {
            Ok(c) => c,
            Err(_) => {
                return Err(StoreError::SourceMissing);
            },
        };
        let (_parent, base) = split_basename(source_path);
        if !is_valid_basename(base.as_slice()) {
            return Err(StoreError::InvalidName);
        }
        self.write_data_file(base.as_slice(), content);
        Ok(base)
    }

    /// Copies an HTML document into the store under its basename, scans
    /// its bytes for `<img ... src="...">` occurrences, and copies each
    /// accepted local reference into the store at the path it had
    /// relative to the source document's directory.
    pub fn copy_html_with_images(&mut self, source: &FileStore, source_path: &[u8]) -> (r: Result<
        Vec<u8>,
        StoreError,
    >)
        requires
            old(self).wf(),
            source.wf(),
        ensures
            final(self).wf(),
            !source@.contains_key(source_path@) ==> (r matches Err(e) && e
                == StoreError::SourceMissing) && final(self)@ == old(self)@,
            source@.contains_key(source_path@) && !valid_basename(basename_of(source_path@)) ==> (
            r matches Err(e) && e == StoreError::InvalidName) && final(self)@ == old(self)@,
            source@.contains_key(source_path@) && valid_basename(basename_of(source_path@)) ==> (
            r matches Ok(f) && f@ == basename_of(source_path@)) && final(self)@ == ingested(
                old(self)@,
                source@,
                source_path@,
            ),
    {
        let doc = match source.read_data_file(source_path) {
            Ok(c) => c,
            Err(_) => {
                return Err(StoreError::SourceMissing);
            },
        };
        let (parent, base) = split_basename(source_path);
        if !is_valid_basename(base.as_slice()) {
            return Err(StoreError::InvalidName);
        }
        let doc_copy = copy_bytes(doc.as_slice());
        self.write_data_file(base.as_slice(), doc_copy);
        let ghost target = ingested(old(self)@, source@, source_path@);
        proof {
            assert(apply_refs(self@, source@, parent@, scan_refs_from(doc@, 0)) == target);
        }
        let dlen = doc.len();
        let mut pos: usize = 0;
        loop
            invariant
                self.wf(),
                source.wf(),
                doc@.len() == dlen,
                pos <= doc@.len(),
                parent@ == parent_of(source_path@),
                apply_refs(self@, source@, parent@, scan_refs_from(doc@, pos as int)) == target,
            ensures
                self.wf(),
                self@ == target,
            decreases doc@.len() - pos,
        {
            match next_asset_ref(doc.as_slice(), pos) {
                None => {
                    proof {
                        assert(scan_refs_from(doc@, pos as int) =~= Seq::<Seq<u8>>::empty());
                        assert(apply_refs(
                            self@,
                            source@,
                            parent@,
                            scan_refs_from(doc@, pos as int),
                        ) == self@);
                    }
                    break;
                },
                Some((ip, found)) => {
                    proof {
                        lemma_find_lower_bounds(
                            doc@,
                            pat_img(),
                            pos as int,
                            doc@.len() as int,
                            ip as int,
                        );
                    }
                    let ghost rest = scan_refs_from(doc@, ip + 4);
                    match found {
                        Some(d) => {
                            proof {
                                assert(scan_refs_from(doc@, pos as int) == seq![d@] + rest);
                            }
                            let resolved = join_path(parent.as_slice(), d.as_slice());
                            let ghost pre = self@;
                            match source.read_data_file(resolved.as_slice()) {
                                Ok(c) => {
                                    self.write_data_file(d.as_slice(), c);
                                },
                                Err(_) => {},
                            }
                            proof {
                                let refs = seq![d@] + rest;
                                assert(refs[0] == d@);
                                assert(refs.drop_first() =~= rest);
                                assert(apply_refs(pre, source@, parent@, refs) == apply_refs(
                                    self@,
                                    source@,
                                    parent@,
                                    rest,
                                ));
                            }
                        },
                        None => {
                            proof {
                                assert(scan_refs_from(doc@, pos as int) == rest);
                            }
                        },
                    }
                    pos = ip + 4;
                },
            }
        }
        Ok(base)
    }
}

} // verus!
