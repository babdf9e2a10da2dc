//! The directory-scoped file store.
//!
//! A store is a directory tree of regular files, modelled as a finite map
//! from relative forward-slash name to content bytes. Writing creates or
//! overwrites an entry (intermediate directories are implicit in the
//! name), deleting an absent name is a silent no-op, and enumeration
//! returns every name exactly once, in no guaranteed order.

use vstd::prelude::*;
use vstd::pervasive::VecAdditionalExecFns;
use crate::bytes::{bytes_eq, copy_bytes};

verus! {

/// Why a store operation was refused.
#[derive(Clone, Copy, Debug, PartialEq, Eq, Structural)]
pub enum StoreError {
    /// The source path of a copy does not denote a file.
    SourceMissing,
    /// A path without a usable basename.
    InvalidName,
    /// The named file is not in the store.
    MissingFile,
}

/// The encoding that the base64 crate's standard engine gives to a byte
/// string; a function of the bytes alone.
pub uninterp spec fn base64_of(bytes: Seq<u8>) -> Seq<char>;

/// Relies on base64's `STANDARD` engine (the RFC 4648 alphabet, padded):
/// the encoding depends on the input bytes alone, and emits four output
/// characters for every started group of three input bytes. The engine
/// aborts where that output length overflows `usize`, so such inputs
/// are excluded here.
#[verifier::external_body]
fn base64_encode(bytes: &[u8]) -> (r: String)
    requires
        4 * ((bytes@.len() + 2) / 3) <= usize::MAX,
    ensures
        r@ == base64_of(bytes@),
        r@.len() == 4 * ((bytes@.len() + 2) / 3),
{
    base64::Engine::encode(&base64::engine::general_purpose::STANDARD, bytes)
}

/// A directory tree of regular files: each entry is a relative
/// forward-slash name with its content bytes.
pub struct FileStore {
    names: Vec<Vec<u8>>,
    contents: Vec<Vec<u8>>,
}

impl View for FileStore {
    type V = Map<Seq<u8>, Seq<u8>>;

    closed spec fn view(&self) -> Map<Seq<u8>, Seq<u8>> {
        Map::new(|k: Seq<u8>| self.contains_name(k), |k: Seq<u8>| self.content_at(k))
    }
}

impl FileStore {
    /// Well-formed: one content per name, and no name twice.
    pub closed spec fn wf(self) -> bool {
        &&& self.names@.len() == self.contents@.len()
        &&& forall|i: int, j: int|
            0 <= i < j < self.names@.len() ==> self.names@[i]@ != self.names@[j]@
    }

    spec fn contains_name(self, k: Seq<u8>) -> bool {
        exists|i: int| 0 <= i < self.names@.len() && self.names@[i]@ == k
    }

    spec fn content_at(self, k: Seq<u8>) -> Seq<u8> {
        let i = choose|i: int| 0 <= i < self.names@.len() && self.names@[i]@ == k;
        self.contents@[i]@
    }

    /// An empty store.
    pub fn new() -> (s: FileStore)
        ensures
            s.wf(),
            s@ == Map::<Seq<u8>, Seq<u8>>::empty(),
    {
        let s = FileStore { names: Vec::new(), contents: Vec::new() };
        proof {
            assert(s@ =~= Map::<Seq<u8>, Seq<u8>>::empty());
        }
        s
    }

    fn find_index(&self, name: &[u8]) -> (r: Option<usize>)
        requires
            self.wf(),
        ensures
            (match r {
                Some(i) => i < self.names@.len() && self.names@[i as int]@ == name@,
                None => !self.contains_name(name@),
            }),
    {
        let mut i: usize = 0;
        while i < self.names.len()
            invariant
                i <= self.names@.len(),
                forall|k: int| 0 <= k < i ==> self.names@[k]@ != name@,
            decreases self.names@.len() - i,
        {
            if bytes_eq(self.names[i].as_slice(), name) {
                return Some(i);
            }
            i = i + 1;
        }
        None
    }

    /// Creates or overwrites the entry under `name`.
    pub fn write_data_file(&mut self, name: &[u8], content: Vec<u8>)
        requires
            old(self).wf(),
        ensures
            final(self).wf(),
            final(self)@ == old(self)@.insert(name@, content@),
    {
        let ghost gcontent = content@;
        match self.find_index(name) {
            Some(i) => {
                self.contents.set(i, content);
                proof {
                    lemma_store_update(*old(self), *self, i as int, name@, gcontent);
                }
            },
            None => {
                let n = copy_bytes(name);
                self.names.push(n);
                self.contents.push(content);
                proof {
                    lemma_store_append(*old(self), *self, name@, gcontent);
                }
            },
        }
    }

    /// Returns the content stored under `name`.
    pub fn read_data_file(&self, name: &[u8]) -> (r: Result<Vec<u8>, StoreError>)
        requires
            self.wf(),
        ensures
            self@.contains_key(name@) ==> (r matches Ok(c) && c@ == self@[name@]),
            !self@.contains_key(name@) ==> (r matches Err(e) && e == StoreError::MissingFile),
    {
        match self.find_index(name) {
            Some(i) => {
                proof {
                    lemma_view_index(*self, i as int);
                }
                Ok(copy_bytes(self.contents[i].as_slice()))
            },
            None => Err(StoreError::MissingFile),
        }
    }

    /// Returns the content stored under `name`, encoded for transport
    /// with standard base64. The encoding must fit in memory, which any
    /// content that fits in memory itself satisfies.
    pub fn read_data_file_binary(&self, name: &[u8]) -> (r: Result<String, StoreError>)
        requires
            self.wf(),
            self@.contains_key(name@) ==> 4 * ((self@[name@].len() + 2) / 3) <= usize::MAX,
        ensures
            self@.contains_key(name@) ==> (r matches Ok(s) && s@ == base64_of(self@[name@])),
            !self@.contains_key(name@) ==> (r matches Err(e) && e == StoreError::MissingFile),
    {
        match self.read_data_file(name) {
            Ok(c) => Ok(base64_encode(c.as_slice())),
            Err(e) => Err(e),
        }
    }

    /// True when an entry is stored under `name`; never an error.
    pub fn check_data_file_exists(&self, name: &[u8]) -> (r: bool)
        requires
            self.wf(),
        ensures
            r == self@.contains_key(name@),
    {
        match self.find_index(name) {
            Some(i) => {
                proof {
                    lemma_view_index(*self, i as int);
                }
                true
            },
            None => false,
        }
    }

    /// Removes the entry under `name`; a no-op where there is none.
    pub fn delete_data_file(&mut self, name: &[u8])
        requires
            old(self).wf(),
        ensures
            final(self).wf(),
            final(self)@ == old(self)@.remove(name@),
    {
        match self.find_index(name) {
            Some(i) => {
                self.names.remove(i);
                self.contents.remove(i);
                proof {
                    lemma_store_remove(*old(self), *self, i as int, name@);
                }
            },
            None => {
                proof {
                    assert(self@ =~= old(self)@.remove(name@));
                }
            },
        }
    }

    /// Every stored name, each exactly once, in no guaranteed order.
    pub fn list_data_files(&self) -> (r: Vec<Vec<u8>>)
        requires
            self.wf(),
        ensures
            forall|i: int| 0 <= i < r@.len() ==> self@.contains_key(#[trigger] r@[i]@),
            forall|k: Seq<u8>|
                self@.contains_key(k) ==> exists|i: int| 0 <= i < r@.len() && #[trigger] r@[i]@ == k,
            forall|i: int, j: int| 0 <= i < j < r@.len() ==> r@[i]@ != r@[j]@,
    {
        let mut r: Vec<Vec<u8>> = Vec::new();
        let mut i: usize = 0;
        while i < self.names.len()
            invariant
                self.wf(),
                i <= self.names@.len(),
                r@.len() == i,
                forall|k: int| 0 <= k < i ==> r@[k]@ == self.names@[k]@,
            decreases self.names@.len() - i,
        {
            r.push(copy_bytes(self.names[i].as_slice()));
            i = i + 1;
        }
        proof {
            assert forall|i2: int| 0 <= i2 < r@.len() implies self@.contains_key(
                #[trigger] r@[i2]@,
            ) by {
                lemma_view_index(*self, i2);
            }
            assert forall|k: Seq<u8>| self@.contains_key(k) implies exists|i2: int|
                0 <= i2 < r@.len() && #[trigger] r@[i2]@ == k by {
                let w = choose|w: int| 0 <= w < self.names@.len() && self.names@[w]@ == k;
                assert(r@[w]@ == k);
            }
        }
        r
    }
}

proof fn lemma_view_index(s: FileStore, i: int)
    requires
        s.wf(),
        0 <= i < s.names@.len(),
    ensures
        s@.contains_key(s.names@[i]@),
        s@[s.names@[i]@] == s.contents@[i]@,
{
    let k = s.names@[i]@;
    assert(s.contains_name(k));
    let j = choose|j: int| 0 <= j < s.names@.len() && s.names@[j]@ == k;
    if j < i {
        assert(s.names@[j]@ != s.names@[i]@);
        assert(false);
    } else if i < j {
        assert(s.names@[i]@ != s.names@[j]@);
        assert(false);
    }
}

/// Overwriting in place: updating the content at an existing index is,
/// on the map, an insert at that index's name.
proof fn lemma_store_update(
    pre: FileStore,
    post: FileStore,
    i: int,
    name: Seq<u8>,
    content: Seq<u8>,
)
    requires
        pre.wf(),
        0 <= i < pre.names@.len(),
        pre.names@[i]@ == name,
        post.names == pre.names,
        post.contents@ == pre.contents@.update(i, post.contents@[i]),
        post.contents@[i]@ == content,
    ensures
        post.wf(),
        post@ == pre@.insert(name, content),
{
    assert forall|k: Seq<u8>| true implies #[trigger] post@.contains_key(k)
        == pre@.insert(name, content).contains_key(k) by {
        assert(post.contains_name(k) == pre.contains_name(k));
        if k == name {
            assert(pre.names@[i]@ == name);
            assert(pre.contains_name(name));
        }
    }
    assert forall|k: Seq<u8>| post@.contains_key(k) implies post@[k] == pre@.insert(
        name,
        content,
    )[k] by {
        let j = choose|j: int| 0 <= j < post.names@.len() && post.names@[j]@ == k;
        lemma_view_index(post, j);
        lemma_view_index(pre, j);
        if k == name {
            if j != i {
                assert(pre.names@[i]@ == pre.names@[j]@);
                assert(false);
            }
        }
    }
    assert(post@ =~= pre@.insert(name, content));
}

/// Appending a fresh name: pushing a name and its content is, on the
/// map, an insert of that name.
proof fn lemma_store_append(pre: FileStore, post: FileStore, name: Seq<u8>, content: Seq<u8>)
    requires
        pre.wf(),
        !pre.contains_name(name),
        post.names@.len() == pre.names@.len() + 1,
        post.names@ == pre.names@.push(post.names@.last()),
        post.names@.last()@ == name,
        post.contents@ == pre.contents@.push(post.contents@.last()),
        post.contents@.last()@ == content,
    ensures
        post.wf(),
        post@ == pre@.insert(name, content),
{
    let n = pre.names@.len() as int;
    assert forall|i: int, j: int|
        0 <= i < j < post.names@.len() implies post.names@[i]@ != post.names@[j]@ by {
        if j < n {
            assert(pre.names@[i]@ != pre.names@[j]@);
        } else {
            assert(post.names@[j]@ == name);
            assert(pre.names@[i]@ != name);
        }
    }
    assert(post.wf());
    assert forall|k: Seq<u8>| true implies #[trigger] post@.contains_key(k) == pre@.insert(
        name,
        content,
    ).contains_key(k) by {
        if k == name {
            assert(post.names@[n]@ == name);
            assert(post.contains_name(k));
        } else {
            if post.contains_name(k) {
                let j = choose|j: int| 0 <= j < post.names@.len() && post.names@[j]@ == k;
                assert(j < n);
                assert(pre.names@[j]@ == k);
                assert(pre.contains_name(k));
            }
            if pre.contains_name(k) {
                let j = choose|j: int| 0 <= j < pre.names@.len() && pre.names@[j]@ == k;
                assert(post.names@[j]@ == k);
                assert(post.contains_name(k));
            }
        }
    }
    assert forall|k: Seq<u8>| post@.contains_key(k) implies post@[k] == pre@.insert(
        name,
        content,
    )[k] by {
        let j = choose|j: int| 0 <= j < post.names@.len() && post.names@[j]@ == k;
        lemma_view_index(post, j);
        if k == name {
            if j != n {
                assert(pre.names@[j]@ == name);
                assert(pre.contains_name(name));
                assert(false);
            }
        } else {
            assert(j < n);
            lemma_view_index(pre, j);
        }
    }
    assert(post@ =~= pre@.insert(name, content));
}

/// Deleting an entry: removing an index from both columns is, on the
/// map, a remove of that index's name.
proof fn lemma_store_remove(pre: FileStore, post: FileStore, i: int, name: Seq<u8>)
    requires
        pre.wf(),
        0 <= i < pre.names@.len(),
        pre.names@[i]@ == name,
        post.names@ == pre.names@.remove(i),
        post.contents@ == pre.contents@.remove(i),
    ensures
        post.wf(),
        post@ == pre@.remove(name),
{
    pre.names@.remove_ensures(i);
    pre.contents@.remove_ensures(i);
    assert forall|a: int, b: int|
        0 <= a < b < post.names@.len() implies post.names@[a]@ != post.names@[b]@ by {
        let a0 = if a < i { a } else { a + 1 };
        let b0 = if b < i { b } else { b + 1 };
        assert(post.names@[a] == pre.names@[a0]);
        assert(post.names@[b] == pre.names@[b0]);
        assert(pre.names@[a0]@ != pre.names@[b0]@);
    }
    assert(post.wf());
    assert forall|k: Seq<u8>| true implies #[trigger] post@.contains_key(k) == pre@.remove(
        name,
    ).contains_key(k) by {
        if k == name {
            if post.contains_name(k) {
                let j = choose|j: int| 0 <= j < post.names@.len() && post.names@[j]@ == k;
                let j0 = if j < i { j } else { j + 1 };
                assert(post.names@[j] == pre.names@[j0]);
                assert(pre.names@[j0]@ == name);
                if j0 < i {
                    assert(pre.names@[j0]@ != pre.names@[i]@);
                } else {
                    assert(pre.names@[i]@ != pre.names@[j0]@);
                }
                assert(false);
            }
        } else {
            if post.contains_name(k) {
                let j = choose|j: int| 0 <= j < post.names@.len() && post.names@[j]@ == k;
                let j0 = if j < i { j } else { j + 1 };
                assert(post.names@[j] == pre.names@[j0]);
                assert(pre.contains_name(k));
            }
            if pre.contains_name(k) {
                let j0 = choose|j0: int| 0 <= j0 < pre.names@.len() && pre.names@[j0]@ == k;
                let j = if j0 < i { j0 } else { j0 - 1 };
                assert(j0 != i);
                assert(post.names@[j] == pre.names@[j0]);
                assert(post.contains_name(k));
            }
        }
    }
    assert forall|k: Seq<u8>| post@.contains_key(k) implies post@[k] == pre@.remove(name)[k] by {
        let j = choose|j: int| 0 <= j < post.names@.len() && post.names@[j]@ == k;
        let j0 = if j < i { j } else { j + 1 };
        assert(post.names@[j] == pre.names@[j0]);
        assert(post.contents@[j] == pre.contents@[j0]);
        lemma_view_index(post, j);
        lemma_view_index(pre, j0);
    }
    assert(post@ =~= pre@.remove(name));
}

/// Round trip: after a write, the store holds the written name, and what
/// is read back under it is exactly the written content.
pub proof fn lemma_write_read_round_trip(m: Map<Seq<u8>, Seq<u8>>, name: Seq<u8>, content: Seq<u8>)
    ensures
        m.insert(name, content).contains_key(name),
        m.insert(name, content)[name] == content,
{
}

/// The effect of a sequence of writes, name by name.
pub open spec fn written(
    m: Map<Seq<u8>, Seq<u8>>,
    names: Seq<Seq<u8>>,
    contents: Seq<Seq<u8>>,
) -> Map<Seq<u8>, Seq<u8>>
    decreases names.len(),
{
    if names.len() == 0 {
        m
    } else {
        written(m.insert(names[0], contents[0]), names.drop_first(), contents.drop_first())
    }
}

/// Enumeration after writes: the names a store lists after a sequence of
/// writes are exactly the names it listed before together with every
/// written name, whatever the contents and whatever order the writes
/// came in.
pub proof fn lemma_list_after_writes(
    m: Map<Seq<u8>, Seq<u8>>,
    names: Seq<Seq<u8>>,
    contents: Seq<Seq<u8>>,
)
    ensures
        written(m, names, contents).dom() == m.dom() + names.to_set(),
    decreases names.len(),
{
    if names.len() == 0 {
        assert(names.to_set() =~= Set::<Seq<u8>>::empty());
        assert(written(m, names, contents).dom() =~= m.dom() + names.to_set());
    } else {
        let m1 = m.insert(names[0], contents[0]);
        let rest = names.drop_first();
        lemma_list_after_writes(m1, rest, contents.drop_first());
        assert forall|k: Seq<u8>| true implies #[trigger] written(
            m,
            names,
            contents,
        ).dom().contains(k) == (m.dom() + names.to_set()).contains(k) by {
            if rest.to_set().contains(k) {
                let w = choose|w: int| 0 <= w < rest.len() && rest[w] == k;
                assert(names[w + 1] == k);
                assert(names.contains(k));
            }
            if k == names[0] {
                assert(names.contains(k));
            }
            if names.to_set().contains(k) && k != names[0] {
                let w = choose|w: int| 0 <= w < names.len() && names[w] == k;
                assert(w > 0);
                assert(rest[w - 1] == k);
                assert(rest.contains(k));
            }
        }
        assert(written(m, names, contents).dom() =~= m.dom() + names.to_set());
    }
}

/// Deletion is idempotent: deleting an absent name leaves the store as
/// it was, and a second delete of the same name changes nothing more.
pub proof fn lemma_delete_idempotent(m: Map<Seq<u8>, Seq<u8>>, name: Seq<u8>)
    ensures
        m.remove(name).remove(name) == m.remove(name),
        !m.contains_key(name) ==> m.remove(name) == m,
{
    assert(m.remove(name).remove(name) =~= m.remove(name));
    if !m.contains_key(name) {
        assert(m.remove(name) =~= m);
    }
}

} // verus!
