//! Content-addressed stores: an in-memory one, and the layout of the
//! on-disk one.

use vstd::prelude::*;
use crate::error::SyncError;
use crate::integrity::{Algorithm, Integrity, IntegrityV, digest_hex_of};
use crate::model::{Index, IndexV, copy_indices, indices_view};

verus! {

/// A blob held under its identifier.
#[derive(Clone, Debug)]
pub struct Blob {
    pub id: Integrity,
    pub bytes: Vec<u8>,
}

pub open spec fn has_blob_in(s: Seq<Blob>, id: IntegrityV) -> bool {
    exists|i: int| 0 <= i < s.len() && (#[trigger] s[i]).id@ == id
}

pub open spec fn unique_blobs(s: Seq<Blob>) -> bool {
    forall|i: int, j: int|
        0 <= i < s.len() && 0 <= j < s.len() && i != j ==> (#[trigger] s[i]).id@ != (
        #[trigger] s[j]).id@
}

/// The bytes held under `id`, if any.
pub open spec fn blob_at(s: Seq<Blob>, id: IntegrityV) -> Option<Seq<u8>> {
    if has_blob_in(s, id) {
        Some(s[choose|i: int| 0 <= i < s.len() && (#[trigger] s[i]).id@ == id].bytes@)
    } else {
        None
    }
}

/// What reading `id` from blobs `s` yields: the bytes when they are present
/// and still hash to `id`.
pub open spec fn read_result(s: Seq<Blob>, id: IntegrityV) -> Result<Seq<u8>, SyncError> {
    read_outcome(blob_at(s, id), id)
}

/// The identifier under which `bytes` are stored.
pub open spec fn id_of(bytes: Seq<u8>) -> IntegrityV {
    IntegrityV { algorithm: Algorithm::Sha256, hex: digest_hex_of(Algorithm::Sha256, bytes) }
}

proof fn lemma_blob_at(s: Seq<Blob>, i: int)
    requires
        unique_blobs(s),
        0 <= i < s.len(),
    ensures
        blob_at(s, s[i].id@) == Some(s[i].bytes@),
{
    assert(has_blob_in(s, s[i].id@));
}

/// Bytes just stored read back as they were written.
pub proof fn lemma_store_then_read(s: Seq<Blob>, bytes: Seq<u8>)
    requires
        blob_at(s, id_of(bytes)) == Some(bytes),
    ensures
        read_result(s, id_of(bytes)) == Ok::<Seq<u8>, SyncError>(bytes),
{
}

/// Bytes that no longer hash to their identifier are never read back.
pub proof fn lemma_corrupt_not_read(s: Seq<Blob>, id: IntegrityV, bytes: Seq<u8>)
    requires
        blob_at(s, id) == Some(bytes),
        digest_hex_of(id.algorithm, bytes) != id.hex,
    ensures
        read_result(s, id) == Err::<Seq<u8>, SyncError>(SyncError::IntegrityMismatch),
{
}

/// The index set after adding `source`: unchanged where an index of that
/// source exists, else one empty index appended.
pub open spec fn with_source(s: Seq<IndexV>, source: Seq<char>) -> Seq<IndexV> {
    if exists|i: int| 0 <= i < s.len() && (#[trigger] s[i]).source == source {
        s
    } else {
        s.push(IndexV { source, gems: Seq::empty() })
    }
}

/// How many indices of `s` have the given source.
pub open spec fn count_source(s: Seq<IndexV>, source: Seq<char>) -> nat
    decreases s.len(),
{
    if s.len() == 0 {
        0
    } else {
        count_source(s.drop_last(), source) + if s.last().source == source {
            1nat
        } else {
            0nat
        }
    }
}

proof fn lemma_count_absent(s: Seq<IndexV>, source: Seq<char>)
    requires
        forall|i: int| 0 <= i < s.len() ==> (#[trigger] s[i]).source != source,
    ensures
        count_source(s, source) == 0,
    decreases s.len(),
{
    if s.len() > 0 {
        assert forall|i: int| 0 <= i < s.drop_last().len() implies (#[trigger] s.drop_last()[i]).source != source by {
            assert(s.drop_last()[i] == s[i]);
        }
        lemma_count_absent(s.drop_last(), source);
    }
}

proof fn lemma_count_present(s: Seq<IndexV>, source: Seq<char>, i: int)
    requires
        0 <= i < s.len(),
        s[i].source == source,
    ensures
        count_source(s, source) >= 1,
    decreases s.len(),
{
    if i < s.len() - 1 {
        assert(s.drop_last()[i] == s[i]);
        lemma_count_present(s.drop_last(), source, i);
    }
}

/// Adding the same source twice leaves exactly one index of that source,
/// starting from any set that holds at most one.
pub proof fn lemma_add_index_twice(s: Seq<IndexV>, source: Seq<char>)
    requires
        count_source(s, source) <= 1,
    ensures
        count_source(with_source(with_source(s, source), source), source) == 1,
{
    let once = with_source(s, source);
    if exists|i: int| 0 <= i < s.len() && (#[trigger] s[i]).source == source {
        let i = choose|i: int| 0 <= i < s.len() && (#[trigger] s[i]).source == source;
        lemma_count_present(s, source, i);
    } else {
        lemma_count_absent(s, source);
        assert(once.drop_last() == s);
        assert(once[s.len() as int].source == source);
    }
    assert(exists|i: int| 0 <= i < once.len() && (#[trigger] once[i]).source == source) by {
        if !exists|i: int| 0 <= i < s.len() && (#[trigger] s[i]).source == source {
            assert(once[s.len() as int].source == source);
        }
    }
}

/// What reading `id` yields where the store holds `held` under it: the bytes
/// when they still hash to `id`.
pub open spec fn read_outcome(held: Option<Seq<u8>>, id: IntegrityV) -> Result<Seq<u8>, SyncError> {
    match held {
        None => Err(SyncError::NotFound),
        Some(b) => if digest_hex_of(id.algorithm, b) == id.hex {
            Ok(b)
        } else {
            Err(SyncError::IntegrityMismatch)
        },
    }
}

/// The capabilities of a content-addressed store: the index set, and blobs
/// kept under their identifiers and verified on every read.
pub trait Store {
    /// The store's own invariant.
    spec fn inv(&self) -> bool;

    /// The index set the store holds.
    spec fn indices_model(&self) -> Seq<IndexV>;

    /// The bytes the store holds under `id`, if any.
    spec fn blob_model(&self, id: IntegrityV) -> Option<Seq<u8>>;

    /// The current index set.
    fn list_indices(&self) -> (r: Result<Vec<Index>, SyncError>)
        ensures
            r matches Ok(v) ==> indices_view(v@) == self.indices_model(),
    ;

    /// Stores `blob` under its SHA-256 identifier, which it returns.
    fn store_blob(&mut self, blob: &[u8]) -> (r: Result<Integrity, SyncError>)
        requires
            old(self).inv(),
        ensures
            final(self).inv(),
            final(self).indices_model() == old(self).indices_model(),
            r matches Ok(id) ==> id@ == id_of(blob@) && final(self).blob_model(id@) == Some(blob@),
    ;

    /// The bytes held under `id`, verified against it.
    fn get_blob(&self, id: &Integrity) -> (r: Result<Vec<u8>, SyncError>)
        requires
            self.inv(),
        ensures
            match (r, read_outcome(self.blob_model(id@), id@)) {
                (Ok(v), Ok(b)) => v@ == b,
                (Err(e), Err(f)) => e == f,
                _ => false,
            },
    ;

    /// Whether a blob is held under `id`.
    fn has_blob(&self, id: &Integrity) -> (r: bool)
        requires
            self.inv(),
        ensures
            r == (self.blob_model(id@) is Some),
    ;

    /// Adds an empty index of `source` unless one of that source exists.
    fn add_index(&mut self, source: String) -> (r: Result<(), SyncError>)
        requires
            old(self).inv(),
        ensures
            final(self).inv(),
            r is Ok ==> final(self).indices_model() == with_source(old(self).indices_model(), source@),
            r is Err ==> final(self).indices_model() == old(self).indices_model(),
    ;
}

impl Store for MemoryStore {
    open spec fn inv(&self) -> bool {
        self.wf()
    }

    open spec fn indices_model(&self) -> Seq<IndexV> {
        indices_view(self.indices@)
    }

    open spec fn blob_model(&self, id: IntegrityV) -> Option<Seq<u8>> {
        blob_at(self.blobs@, id)
    }

    fn list_indices(&self) -> (r: Result<Vec<Index>, SyncError>) {
        MemoryStore::list_indices(self)
    }

    fn store_blob(&mut self, blob: &[u8]) -> (r: Result<Integrity, SyncError>) {
        MemoryStore::store_blob(self, blob)
    }

    fn get_blob(&self, id: &Integrity) -> (r: Result<Vec<u8>, SyncError>) {
        MemoryStore::get_blob(self, id)
    }

    fn has_blob(&self, id: &Integrity) -> (r: bool) {
        MemoryStore::has_blob(self, id)
    }

    fn add_index(&mut self, source: String) -> (r: Result<(), SyncError>) {
        MemoryStore::add_index(self, source)
    }
}

/// No two indices share a source.
pub open spec fn unique_sources(s: Seq<IndexV>) -> bool {
    forall|i: int, j: int|
        0 <= i < s.len() && 0 <= j < s.len() && i != j ==> (#[trigger] s[i]).source != (#[trigger] s[j]).source
}

proof fn lemma_unique_count(s: Seq<IndexV>, source: Seq<char>)
    requires
        unique_sources(s),
    ensures
        count_source(s, source) <= 1,
    decreases s.len(),
{
    if s.len() > 0 {
        let t = s.drop_last();
        assert forall|i: int, j: int|
            0 <= i < t.len() && 0 <= j < t.len() && i != j implies (#[trigger] t[i]).source != (#[trigger] t[j]).source by {
            assert(t[i] == s[i] && t[j] == s[j]);
        }
        if s.last().source == source {
            assert forall|i: int| 0 <= i < t.len() implies (#[trigger] t[i]).source != source by {
                assert(t[i] == s[i]);
                assert(s[i].source != s[s.len() - 1].source);
            }
            lemma_count_absent(t, source);
        } else {
            lemma_unique_count(t, source);
        }
    }
}

/// On any index set whose sources are unique, adding the same source twice
/// leaves exactly one index of that source.
pub proof fn lemma_add_index_twice_unique(s: Seq<IndexV>, source: Seq<char>)
    requires
        unique_sources(s),
    ensures
        count_source(with_source(with_source(s, source), source), source) == 1,
{
    lemma_unique_count(s, source);
    lemma_add_index_twice(s, source);
}

/// Adding a source keeps the sources unique.
pub proof fn lemma_with_source_unique(s: Seq<IndexV>, source: Seq<char>)
    requires
        unique_sources(s),
    ensures
        unique_sources(with_source(s, source)),
{
    let t = with_source(s, source);
    if !exists|i: int| 0 <= i < s.len() && (#[trigger] s[i]).source == source {
        assert forall|i: int, j: int|
            0 <= i < t.len() && 0 <= j < t.len() && i != j implies (#[trigger] t[i]).source != (#[trigger] t[j]).source by {
            if i < s.len() {
                assert(t[i] == s[i]);
            }
            if j < s.len() {
                assert(t[j] == s[j]);
            }
        }
    }
}

/// An ephemeral store: the working index set and a blob table in memory.
#[derive(Clone, Debug)]
pub struct MemoryStore {
    pub indices: Vec<Index>,
    pub blobs: Vec<Blob>,
}

impl MemoryStore {
    /// No two blobs share an identifier.
    pub open spec fn wf(&self) -> bool {
        unique_blobs(self.blobs@)
    }

    /// An empty store.
    pub fn new() -> (r: MemoryStore)
        ensures
            r.wf(),
            r.indices@.len() == 0,
            r.blobs@.len() == 0,
    {
        MemoryStore { indices: Vec::new(), blobs: Vec::new() }
    }

    /// The current index set.
    pub fn list_indices(&self) -> (r: Result<Vec<Index>, SyncError>)
        ensures
            r matches Ok(v) && indices_view(v@) == indices_view(self.indices@),
    {
        Ok(copy_indices(&self.indices))
    }

    /// Stores `blob` under its SHA-256 identifier, which it returns. Storing
    /// the same bytes again changes nothing.
    pub fn store_blob(&mut self, blob: &[u8]) -> (r: Result<Integrity, SyncError>)
        requires
            old(self).wf(),
        ensures
            final(self).wf(),
            final(self).indices == old(self).indices,
            r matches Ok(id) && id@ == id_of(blob@),
            blob_at(final(self).blobs@, id_of(blob@)) == Some(blob@),
            forall|k: IntegrityV|
                k != id_of(blob@) ==> #[trigger] blob_at(final(self).blobs@, k) == blob_at(
                    old(self).blobs@,
                    k,
                ),
    {
        let id = Integrity::compute(blob);
        let ghost s = self.blobs@;
        let mut bytes: Vec<u8> = Vec::new();
        let mut i: usize = 0;
        while i < blob.len()
            invariant
                i <= blob@.len(),
                bytes@ == blob@.subrange(0, i as int),
            decreases blob@.len() - i,
        {
            bytes.push(blob[i]);
            i = i + 1;
        }
        assert(bytes@ =~= blob@);
        let entry = Blob { id: id.copy(), bytes };
        let mut j: usize = 0;
        while j < self.blobs.len()
            invariant
                j <= self.blobs@.len(),
                self.blobs@ == s,
                s == old(self).blobs@,
                unique_blobs(s),
                self.indices == old(self).indices,
                entry.id@ == id@,
                id@ == id_of(blob@),
                entry.bytes@ == blob@,
                forall|k: int| 0 <= k < j ==> (#[trigger] s[k]).id@ != id@,
            decreases self.blobs@.len() - j,
        {
            if self.blobs[j].id.same_as(&id) {
                self.blobs.set(j, entry);
                proof {
                    let t = self.blobs@;
                    assert(t == s.update(j as int, entry));
                    assert(s[j as int].id@ == id@);
                    assert forall|a: int, b: int|
                        0 <= a < t.len() && 0 <= b < t.len() && a != b implies (#[trigger] t[a]).id@ != (#[trigger] t[b]).id@ by {
                        assert(t[a].id@ == s[a].id@);
                        assert(t[b].id@ == s[b].id@);
                    }
                    lemma_blob_at(t, j as int);
                    assert forall|k: IntegrityV| k != id_of(blob@) implies #[trigger] blob_at(t, k) == blob_at(s, k) by {
                        if has_blob_in(s, k) {
                            let a = choose|a: int| 0 <= a < s.len() && (#[trigger] s[a]).id@ == k;
                            lemma_blob_at(s, a);
                            lemma_blob_at(t, a);
                        }
                        if has_blob_in(t, k) {
                            let a = choose|a: int| 0 <= a < t.len() && (#[trigger] t[a]).id@ == k;
                            assert(t[a] == s[a]);
                        }
                    }
                }
                return Ok(id);
            }
            j = j + 1;
        }
        self.blobs.push(entry);
        proof {
            let t = self.blobs@;
            assert(t == s.push(entry));
            assert forall|a: int, b: int|
                0 <= a < t.len() && 0 <= b < t.len() && a != b implies (#[trigger] t[a]).id@ != (#[trigger] t[b]).id@ by {
                if a < s.len() {
                    assert(t[a] == s[a]);
                }
                if b < s.len() {
                    assert(t[b] == s[b]);
                }
            }
            lemma_blob_at(t, s.len() as int);
            assert forall|k: IntegrityV| k != id_of(blob@) implies #[trigger] blob_at(t, k) == blob_at(s, k) by {
                if has_blob_in(s, k) {
                    let a = choose|a: int| 0 <= a < s.len() && (#[trigger] s[a]).id@ == k;
                    lemma_blob_at(s, a);
                    assert(t[a] == s[a]);
                    lemma_blob_at(t, a);
                }
                if has_blob_in(t, k) {
                    let a = choose|a: int| 0 <= a < t.len() && (#[trigger] t[a]).id@ == k;
                    assert(t[a] == s[a]);
                }
            }
        }
        Ok(id)
    }

    /// Position of the blob held under `id`.
    fn find_blob(&self, id: &Integrity) -> (r: Option<usize>)
        requires
            self.wf(),
        ensures
            r matches Some(j) ==> j < self.blobs@.len() && self.blobs@[j as int].id@ == id@
                && blob_at(self.blobs@, id@) == Some(self.blobs@[j as int].bytes@),
            r is None ==> blob_at(self.blobs@, id@) is None,
    {
        let mut j: usize = 0;
        while j < self.blobs.len()
            invariant
                j <= self.blobs@.len(),
                self.wf(),
                forall|k: int| 0 <= k < j ==> (#[trigger] self.blobs@[k]).id@ != id@,
            decreases self.blobs@.len() - j,
        {
            if self.blobs[j].id.same_as(id) {
                proof {
                    lemma_blob_at(self.blobs@, j as int);
                }
                return Some(j);
            }
            j = j + 1;
        }
        None
    }

    /// The bytes held under `id`, verified against it: `NotFound` where
    /// none are held, `IntegrityMismatch` where they no longer match.
    pub fn get_blob(&self, id: &Integrity) -> (r: Result<Vec<u8>, SyncError>)
        requires
            self.wf(),
        ensures
            match (r, read_result(self.blobs@, id@)) {
                (Ok(v), Ok(b)) => v@ == b,
                (Err(e), Err(f)) => e == f,
                _ => false,
            },
    {
        match self.find_blob(id) {
            None => Err(SyncError::NotFound),
            Some(j) => {
                let b = &self.blobs[j].bytes;
                match id.verify(b.as_slice()) {
                    Ok(()) => {
                        let mut out: Vec<u8> = Vec::new();
                        let mut i: usize = 0;
                        while i < b.len()
                            invariant
                                i <= b@.len(),
                                out@ == b@.subrange(0, i as int),
                            decreases b@.len() - i,
                        {
                            out.push(b[i]);
                            i = i + 1;
                        }
                        assert(out@ =~= b@);
                        Ok(out)
                    },
                    Err(_) => Err(SyncError::IntegrityMismatch),
                }
            },
        }
    }

    /// Whether a blob is held under `id`.
    pub fn has_blob(&self, id: &Integrity) -> (r: bool)
        requires
            self.wf(),
        ensures
            r == (blob_at(self.blobs@, id@) is Some),
    {
        self.find_blob(id).is_some()
    }

    /// Runs `f` on a working copy of the index set and keeps its result
    /// only where `f` succeeds; on failure the index set is left as it was.
    pub fn with_indices<F>(&mut self, f: F) -> (r: Result<Vec<Index>, SyncError>)
        where
            F: FnOnce(Vec<Index>) -> Result<Vec<Index>, SyncError>,
        requires
            forall|w: Vec<Index>|
                indices_view(w@) == indices_view(old(self).indices@) ==> #[trigger] f.requires((w,)),
        ensures
            final(self).blobs == old(self).blobs,
            r is Err ==> final(self).indices == old(self).indices,
            r matches Ok(v) ==> indices_view(v@) == indices_view(final(self).indices@),
            r is Ok ==> exists|w: Vec<Index>|
                indices_view(w@) == indices_view(old(self).indices@) && #[trigger] f.ensures(
                    (w,),
                    Ok(final(self).indices),
                ),
            r matches Err(e) ==> exists|w: Vec<Index>|
                indices_view(w@) == indices_view(old(self).indices@) && #[trigger] f.ensures(
                    (w,),
                    Err(e),
                ),
    {
        let working = copy_indices(&self.indices);
        match f(working) {
            Ok(updated) => {
                self.indices = updated;
                Ok(copy_indices(&self.indices))
            },
            Err(e) => Err(e),
        }
    }

    /// Adds an empty index of `source` unless one of that source exists.
    pub fn add_index(&mut self, source: String) -> (r: Result<(), SyncError>)
        ensures
            r is Ok,
            final(self).wf() == old(self).wf(),
            final(self).blobs == old(self).blobs,
            indices_view(final(self).indices@) == with_source(indices_view(old(self).indices@), source@),
    {
        add_index_to(&mut self.indices, source);
        Ok(())
    }
}

/// Adds an empty index of `source` to `indices` unless one of that source
/// exists.
pub fn add_index_to(indices: &mut Vec<Index>, source: String)
    ensures
        indices_view(final(indices)@) == with_source(indices_view(old(indices)@), source@),
{
    let ghost s = indices_view(indices@);
    let mut i: usize = 0;
    while i < indices.len()
        invariant
            i <= indices@.len(),
            s == indices_view(indices@),
            forall|k: int| 0 <= k < i ==> (#[trigger] s[k]).source != source@,
        decreases indices@.len() - i,
    {
        if indices[i].source == source {
            assert(s[i as int].source == source@);
            return;
        }
        i = i + 1;
    }
    let ghost src = source@;
    let fresh = Index::new(source);
    assert(fresh@.gems =~= Seq::<crate::model::NamespaceV>::empty());
    indices.push(fresh);
    assert(indices_view(indices@) =~= s.push(IndexV { source: src, gems: Seq::empty() }));
}

/// The durable store rooted at a directory: a manifest of the index set and
/// a content-addressed blob area.
#[derive(Clone, Debug)]
pub struct FsStore {
    pub root: String,
}

pub open spec fn algorithm_name(a: Algorithm) -> Seq<char> {
    match a {
        Algorithm::Sha512 => seq!['s', 'h', 'a', '5', '1', '2'],
        Algorithm::Sha384 => seq!['s', 'h', 'a', '3', '8', '4'],
        Algorithm::Sha256 => seq!['s', 'h', 'a', '2', '5', '6'],
        Algorithm::Sha1 => seq!['s', 'h', 'a', '1'],
        Algorithm::Xxh3 => seq!['x', 'x', 'h', '3'],
    }
}

pub open spec fn manifest_name() -> Seq<char> {
    seq!['i', 'n', 'd', 'i', 'c', 'e', 's', '.', 'j', 's', 'o', 'n']
}

pub open spec fn content_dir() -> Seq<char> {
    seq!['c', 'o', 'n', 't', 'e', 'n', 't', '-', 'v', '2']
}

/// `{root}/content-v2/{algorithm}/{hex[0..2]}/{hex[2..4]}/{hex[4..]}`.
pub open spec fn content_path_of(root: Seq<char>, id: IntegrityV) -> Seq<char> {
    root + seq!['/'] + content_dir() + seq!['/'] + algorithm_name(id.algorithm) + seq!['/']
        + id.hex.subrange(0, 2) + seq!['/'] + id.hex.subrange(2, 4) + seq!['/']
        + id.hex.subrange(4, id.hex.len() as int)
}

/// The name of an algorithm as it appears in paths.
pub fn algorithm_name_of(a: Algorithm) -> (r: String)
    ensures
        r@ == algorithm_name(a),
{
    let s = match a {
        Algorithm::Sha512 => {
            proof {
                reveal_strlit("sha512");
            }
            "sha512"
        },
        Algorithm::Sha384 => {
            proof {
                reveal_strlit("sha384");
            }
            "sha384"
        },
        Algorithm::Sha256 => {
            proof {
                reveal_strlit("sha256");
            }
            "sha256"
        },
        Algorithm::Sha1 => {
            proof {
                reveal_strlit("sha1");
            }
            "sha1"
        },
        Algorithm::Xxh3 => {
            proof {
                reveal_strlit("xxh3");
            }
            "xxh3"
        },
    };
    assert(s@ =~= algorithm_name(a));
    s.to_owned()
}

/// Where the blob of `id` lies under `root`; `None` for a digest shorter
/// than four hex digits.
pub fn content_path(root: &str, id: &Integrity) -> (r: Option<String>)
    ensures
        r is Some <==> id.hex@.len() >= 4,
        r matches Some(p) ==> p@ == content_path_of(root@, id@),
{
    let hex = id.hex.as_str();
    let n = hex.unicode_len();
    if n < 4 {
        return None;
    }
    let slash = "/";
    let dir = "content-v2";
    proof {
        reveal_strlit("/");
        reveal_strlit("content-v2");
    }
    assert(slash@ =~= seq!['/']);
    assert(dir@ =~= content_dir());
    let algo = algorithm_name_of(id.algorithm);
    let mut p = root.to_owned();
    p.append(slash);
    p.append(dir);
    p.append(slash);
    p.append(algo.as_str());
    p.append(slash);
    p.append(hex.substring_char(0, 2));
    p.append(slash);
    p.append(hex.substring_char(2, 4));
    p.append(slash);
    p.append(hex.substring_char(4, n));
    Some(p)
}

impl FsStore {
    /// A store rooted at `root`; the directory is made by whoever opens it.
    pub fn new(root: String) -> (r: FsStore)
        ensures
            r.root@ == root@,
    {
        FsStore { root }
    }

    /// The manifest file that holds the index set.
    pub fn manifest_path(&self) -> (r: String)
        ensures
            r@ == self.root@ + seq!['/'] + manifest_name(),
    {
        let name = "/indices.json";
        proof {
            reveal_strlit("/indices.json");
        }
        assert(name@ =~= seq!['/'] + manifest_name());
        let mut p = self.root.clone();
        p.append(name);
        p
    }

    /// Where the blob of `id` lies in this store.
    pub fn blob_path(&self, id: &Integrity) -> (r: Option<String>)
        ensures
            r is Some <==> id.hex@.len() >= 4,
            r matches Some(p) ==> p@ == content_path_of(self.root@, id@),
    {
        content_path(self.root.as_str(), id)
    }
}

} // verus!
