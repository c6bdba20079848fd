//! The data model of a mirror: gems, namespaces and indices, and the merge
//! rule that combines a known namespace with a freshly fetched one.

use vstd::prelude::*;
use crate::integrity::{Integrity, IntegrityV};

verus! {

/// One resolved package-version-platform record.
#[derive(Clone, Debug)]
pub struct Gem {
    /// `name-version`, or `name-version-platform` off the default platform;
    /// the identity of the record within its namespace.
    pub full_name: String,
    pub name: String,
    pub version: String,
    pub platform: String,
    /// Identifier of the `.gem` archive.
    pub package_integrity: Integrity,
    /// Identifier of the archive's `metadata.gz` member, once fetched.
    pub metadata_integrity: Option<Integrity>,
    /// Both blobs are fetched, verified and persisted.
    pub stored: bool,
}

pub ghost struct GemV {
    pub full_name: Seq<char>,
    pub name: Seq<char>,
    pub version: Seq<char>,
    pub platform: Seq<char>,
    pub package: IntegrityV,
    pub metadata: Option<IntegrityV>,
    pub stored: bool,
}

pub open spec fn opt_integrity_view(o: Option<Integrity>) -> Option<IntegrityV> {
    match o {
        Some(i) => Some(i@),
        None => None,
    }
}

impl View for Gem {
    type V = GemV;

    open spec fn view(&self) -> GemV {
        GemV {
            full_name: self.full_name@,
            name: self.name@,
            version: self.version@,
            platform: self.platform@,
            package: self.package_integrity@,
            metadata: opt_integrity_view(self.metadata_integrity),
            stored: self.stored,
        }
    }
}

/// All known versions of one package name under one source.
#[derive(Clone, Debug)]
pub struct Namespace {
    pub name: String,
    /// Token of the last seen state of the remote page.
    pub info_checksum: String,
    /// The versions, keyed by `full_name` (no two share one).
    pub versions: Vec<Gem>,
}

pub ghost struct NamespaceV {
    pub name: Seq<char>,
    pub info_checksum: Seq<char>,
    pub versions: Seq<GemV>,
}

pub open spec fn gems_view(v: Seq<Gem>) -> Seq<GemV> {
    v.map_values(|g: Gem| g@)
}

impl View for Namespace {
    type V = NamespaceV;

    open spec fn view(&self) -> NamespaceV {
        NamespaceV {
            name: self.name@,
            info_checksum: self.info_checksum@,
            versions: gems_view(self.versions@),
        }
    }
}

/// One mirrored source.
#[derive(Clone, Debug)]
pub struct Index {
    /// Base URL of the source; the identity of the index.
    pub source: String,
    /// The namespaces, keyed by name (no two share one).
    pub gems: Vec<Namespace>,
}

pub ghost struct IndexV {
    pub source: Seq<char>,
    pub gems: Seq<NamespaceV>,
}

pub open spec fn namespaces_view(v: Seq<Namespace>) -> Seq<NamespaceV> {
    v.map_values(|n: Namespace| n@)
}

impl View for Index {
    type V = IndexV;

    open spec fn view(&self) -> IndexV {
        IndexV { source: self.source@, gems: namespaces_view(self.gems@) }
    }
}

// ---- gems keyed by full name ----

pub open spec fn has_gem(s: Seq<GemV>, k: Seq<char>) -> bool {
    exists|i: int| 0 <= i < s.len() && (#[trigger] s[i]).full_name == k
}

pub open spec fn unique_gems(s: Seq<GemV>) -> bool {
    forall|i: int, j: int|
        0 <= i < s.len() && 0 <= j < s.len() && i != j ==> (#[trigger] s[i]).full_name != (
        #[trigger] s[j]).full_name
}

/// The gem stored under `k`, if any.
pub open spec fn gem_at(s: Seq<GemV>, k: Seq<char>) -> Option<GemV> {
    if has_gem(s, k) {
        Some(s[choose|i: int| 0 <= i < s.len() && (#[trigger] s[i]).full_name == k])
    } else {
        None
    }
}

/// The entry that merging `local` into `remote` keeps under `k`: the local
/// one where it is stored and the remote one is not, or where the remote
/// listing lacks the key; otherwise the remote one.
pub open spec fn merged_gem(local: Seq<GemV>, remote: Seq<GemV>, k: Seq<char>) -> Option<GemV> {
    match (gem_at(local, k), gem_at(remote, k)) {
        (Some(l), Some(r)) => if l.stored && !r.stored {
            Some(l)
        } else {
            Some(r)
        },
        (Some(l), None) => Some(l),
        (None, r) => r,
    }
}

pub proof fn lemma_gem_at(s: Seq<GemV>, i: int)
    requires
        unique_gems(s),
        0 <= i < s.len(),
    ensures
        gem_at(s, s[i].full_name) == Some(s[i]),
{
    assert(has_gem(s, s[i].full_name));
}

/// A gem that is stored locally survives a merge with any remote namespace
/// that holds no stored entry under its key.
pub proof fn lemma_merge_protects_stored(local: NamespaceV, remote: NamespaceV, k: Seq<char>)
    requires
        gem_at(local.versions, k) matches Some(g) && g.stored,
        !(gem_at(remote.versions, k) matches Some(r) && r.stored),
    ensures
        merged_gem(local.versions, remote.versions, k) == gem_at(local.versions, k),
{
}

/// Merging the same remote namespace once more into the result of a merge
/// gives that result again: a second run against an unchanged remote keeps
/// every entry as the first run left it.
pub proof fn lemma_merge_idempotent(local: Seq<GemV>, remote: Seq<GemV>, merged: Seq<GemV>)
    requires
        forall|k: Seq<char>| #[trigger] gem_at(merged, k) == merged_gem(local, remote, k),
    ensures
        forall|k: Seq<char>| #[trigger] merged_gem(merged, remote, k) == merged_gem(local, remote, k),
{
    assert forall|k: Seq<char>| #[trigger] merged_gem(merged, remote, k) == merged_gem(local, remote, k) by {
        assert(gem_at(merged, k) == merged_gem(local, remote, k));
    }
}

impl Gem {
    /// The identity of a gem: its full name.
    pub fn key(&self) -> (r: &String)
        ensures
            r@ == self.full_name@,
    {
        &self.full_name
    }

    /// A copy with the same value.
    pub fn copy(&self) -> (r: Gem)
        ensures
            r@ == self@,
    {
        let metadata_integrity = match &self.metadata_integrity {
            Some(i) => Some(i.copy()),
            None => None,
        };
        Gem {
            full_name: self.full_name.clone(),
            name: self.name.clone(),
            version: self.version.clone(),
            platform: self.platform.clone(),
            package_integrity: self.package_integrity.copy(),
            metadata_integrity,
            stored: self.stored,
        }
    }
}

/// Position of the gem keyed `k` in `v`.
pub fn find_gem(v: &Vec<Gem>, k: &String) -> (r: Option<usize>)
    ensures
        r matches Some(j) ==> j < v.len() && v@[j as int].full_name@ == k@,
        r is None ==> !has_gem(gems_view(v@), k@),
{
    let mut i: usize = 0;
    while i < v.len()
        invariant
            i <= v.len(),
            forall|j: int| 0 <= j < i ==> v@[j].full_name@ != k@,
        decreases v.len() - i,
    {
        if v[i].full_name == *k {
            return Some(i);
        }
        i = i + 1;
    }
    proof {
        assert forall|j: int| 0 <= j < v.len() implies (#[trigger] gems_view(v@)[j]).full_name != k@ by {
            assert(gems_view(v@)[j] == v@[j]@);
        }
    }
    None
}

pub proof fn lemma_update_gem(s: Seq<GemV>, j: int, g: GemV)
    requires
        unique_gems(s),
        0 <= j < s.len(),
        s[j].full_name == g.full_name,
    ensures
        unique_gems(s.update(j, g)),
        forall|k: Seq<char>| #![trigger gem_at(s.update(j, g), k)]
            gem_at(s.update(j, g), k) == if k == g.full_name {
                Some(g)
            } else {
                gem_at(s, k)
            },
{
    let t = s.update(j, g);
    assert forall|a: int, b: int|
        0 <= a < t.len() && 0 <= b < t.len() && a != b implies (#[trigger] t[a]).full_name != (
        #[trigger] t[b]).full_name by {
        assert(s[a].full_name == t[a].full_name);
        assert(s[b].full_name == t[b].full_name);
    }
    assert forall|k: Seq<char>| #![trigger gem_at(t, k)]
        gem_at(t, k) == if k == g.full_name {
            Some(g)
        } else {
            gem_at(s, k)
        } by {
        if k == g.full_name {
            lemma_gem_at(t, j);
        } else if has_gem(s, k) {
            let a = choose|a: int| 0 <= a < s.len() && (#[trigger] s[a]).full_name == k;
            lemma_gem_at(s, a);
            lemma_gem_at(t, a);
        } else {
            if has_gem(t, k) {
                let a = choose|a: int| 0 <= a < t.len() && (#[trigger] t[a]).full_name == k;
                assert(s[a] == t[a]);
            }
        }
    }
}

pub proof fn lemma_push_gem(s: Seq<GemV>, g: GemV)
    requires
        unique_gems(s),
        !has_gem(s, g.full_name),
    ensures
        unique_gems(s.push(g)),
        forall|k: Seq<char>| #![trigger gem_at(s.push(g), k)]
            gem_at(s.push(g), k) == if k == g.full_name {
                Some(g)
            } else {
                gem_at(s, k)
            },
{
    let t = s.push(g);
    assert forall|a: int, b: int|
        0 <= a < t.len() && 0 <= b < t.len() && a != b implies (#[trigger] t[a]).full_name != (
        #[trigger] t[b]).full_name by {
        if a < s.len() {
            assert(t[a] == s[a]);
        }
        if b < s.len() {
            assert(t[b] == s[b]);
        }
    }
    assert forall|k: Seq<char>| #![trigger gem_at(t, k)]
        gem_at(t, k) == if k == g.full_name {
            Some(g)
        } else {
            gem_at(s, k)
        } by {
        if k == g.full_name {
            lemma_gem_at(t, s.len() as int);
        } else if has_gem(s, k) {
            let a = choose|a: int| 0 <= a < s.len() && (#[trigger] s[a]).full_name == k;
            lemma_gem_at(s, a);
            assert(t[a] == s[a]);
            lemma_gem_at(t, a);
        } else {
            if has_gem(t, k) {
                let a = choose|a: int| 0 <= a < t.len() && (#[trigger] t[a]).full_name == k;
                assert(s[a] == t[a]);
            }
        }
    }
}

/// A copy of each gem of `v`, in order.
pub fn copy_gems(v: &Vec<Gem>) -> (r: Vec<Gem>)
    ensures
        gems_view(r@) == gems_view(v@),
{
    let mut r: Vec<Gem> = Vec::new();
    let mut i: usize = 0;
    while i < v.len()
        invariant
            i <= v.len(),
            r.len() == i,
            forall|j: int| 0 <= j < i ==> (#[trigger] r@[j])@ == v@[j]@,
        decreases v.len() - i,
    {
        let g = v[i].copy();
        r.push(g);
        i = i + 1;
    }
    assert(gems_view(r@) =~= gems_view(v@));
    r
}

// ---- namespaces keyed by name ----

pub open spec fn has_namespace(s: Seq<NamespaceV>, k: Seq<char>) -> bool {
    exists|i: int| 0 <= i < s.len() && (#[trigger] s[i]).name == k
}

pub open spec fn unique_namespaces(s: Seq<NamespaceV>) -> bool {
    forall|i: int, j: int|
        0 <= i < s.len() && 0 <= j < s.len() && i != j ==> (#[trigger] s[i]).name != (
        #[trigger] s[j]).name
}

/// The namespace stored under `k`, if any.
pub open spec fn namespace_at(s: Seq<NamespaceV>, k: Seq<char>) -> Option<NamespaceV> {
    if has_namespace(s, k) {
        Some(s[choose|i: int| 0 <= i < s.len() && (#[trigger] s[i]).name == k])
    } else {
        None
    }
}

pub proof fn lemma_namespace_at(s: Seq<NamespaceV>, i: int)
    requires
        unique_namespaces(s),
        0 <= i < s.len(),
    ensures
        namespace_at(s, s[i].name) == Some(s[i]),
{
    assert(has_namespace(s, s[i].name));
}

/// Position of the namespace keyed `k` in `v`.
pub fn find_namespace(v: &Vec<Namespace>, k: &String) -> (r: Option<usize>)
    ensures
        r matches Some(j) ==> j < v.len() && v@[j as int].name@ == k@,
        r is None ==> !has_namespace(namespaces_view(v@), k@),
{
    let mut i: usize = 0;
    while i < v.len()
        invariant
            i <= v.len(),
            forall|j: int| 0 <= j < i ==> v@[j].name@ != k@,
        decreases v.len() - i,
    {
        if v[i].name == *k {
            return Some(i);
        }
        i = i + 1;
    }
    proof {
        assert forall|j: int| 0 <= j < v.len() implies (#[trigger] namespaces_view(v@)[j]).name != k@ by {
            assert(namespaces_view(v@)[j] == v@[j]@);
        }
    }
    None
}

pub proof fn lemma_update_namespace(s: Seq<NamespaceV>, j: int, g: NamespaceV)
    requires
        unique_namespaces(s),
        0 <= j < s.len(),
        s[j].name == g.name,
    ensures
        unique_namespaces(s.update(j, g)),
        forall|k: Seq<char>| #![trigger namespace_at(s.update(j, g), k)]
            namespace_at(s.update(j, g), k) == if k == g.name {
                Some(g)
            } else {
                namespace_at(s, k)
            },
{
    let t = s.update(j, g);
    assert forall|a: int, b: int|
        0 <= a < t.len() && 0 <= b < t.len() && a != b implies (#[trigger] t[a]).name != (
        #[trigger] t[b]).name by {
        assert(s[a].name == t[a].name);
        assert(s[b].name == t[b].name);
    }
    assert forall|k: Seq<char>| #![trigger namespace_at(t, k)]
        namespace_at(t, k) == if k == g.name {
            Some(g)
        } else {
            namespace_at(s, k)
        } by {
        if k == g.name {
            lemma_namespace_at(t, j);
        } else if has_namespace(s, k) {
            let a = choose|a: int| 0 <= a < s.len() && (#[trigger] s[a]).name == k;
            lemma_namespace_at(s, a);
            lemma_namespace_at(t, a);
        } else {
            if has_namespace(t, k) {
                let a = choose|a: int| 0 <= a < t.len() && (#[trigger] t[a]).name == k;
                assert(s[a] == t[a]);
            }
        }
    }
}

pub proof fn lemma_push_namespace(s: Seq<NamespaceV>, g: NamespaceV)
    requires
        unique_namespaces(s),
        !has_namespace(s, g.name),
    ensures
        unique_namespaces(s.push(g)),
        forall|k: Seq<char>| #![trigger namespace_at(s.push(g), k)]
            namespace_at(s.push(g), k) == if k == g.name {
                Some(g)
            } else {
                namespace_at(s, k)
            },
{
    let t = s.push(g);
    assert forall|a: int, b: int|
        0 <= a < t.len() && 0 <= b < t.len() && a != b implies (#[trigger] t[a]).name != (
        #[trigger] t[b]).name by {
        if a < s.len() {
            assert(t[a] == s[a]);
        }
        if b < s.len() {
            assert(t[b] == s[b]);
        }
    }
    assert forall|k: Seq<char>| #![trigger namespace_at(t, k)]
        namespace_at(t, k) == if k == g.name {
            Some(g)
        } else {
            namespace_at(s, k)
        } by {
        if k == g.name {
            lemma_namespace_at(t, s.len() as int);
        } else if has_namespace(s, k) {
            let a = choose|a: int| 0 <= a < s.len() && (#[trigger] s[a]).name == k;
            lemma_namespace_at(s, a);
            assert(t[a] == s[a]);
            lemma_namespace_at(t, a);
        } else {
            if has_namespace(t, k) {
                let a = choose|a: int| 0 <= a < t.len() && (#[trigger] t[a]).name == k;
                assert(s[a] == t[a]);
            }
        }
    }
}


impl Namespace {
    /// A namespace with no versions.
    pub fn new(name: String, info_checksum: String) -> (r: Namespace)
        ensures
            r.wf(),
            r@.name == name@,
            r@.info_checksum == info_checksum@,
            r@.versions.len() == 0,
    {
        Namespace { name, info_checksum, versions: Vec::new() }
    }

    /// A copy with the same value.
    pub fn copy(&self) -> (r: Namespace)
        ensures
            r@ == self@,
    {
        Namespace {
            name: self.name.clone(),
            info_checksum: self.info_checksum.clone(),
            versions: copy_gems(&self.versions),
        }
    }

    /// No two versions share a full name.
    pub open spec fn wf(&self) -> bool {
        unique_gems(self@.versions)
    }

    /// The identity of a namespace: its name.
    pub fn key(&self) -> (r: &String)
        ensures
            r@ == self.name@,
    {
        &self.name
    }

    /// Merges the freshly fetched `remote` into this local namespace. The
    /// remote namespace is the base (its name and checksum are taken); under
    /// each key the result holds `merged_gem`, so keys only known locally are
    /// kept and stored local entries are not replaced by unstored remote ones.
    pub fn merge(&mut self, remote: &Namespace)
        requires
            old(self).wf(),
            remote.wf(),
        ensures
            final(self).wf(),
            final(self)@.name == remote@.name,
            final(self)@.info_checksum == remote@.info_checksum,
            forall|k: Seq<char>|
                #![trigger gem_at(final(self)@.versions, k)]
                gem_at(final(self)@.versions, k) == merged_gem(
                    old(self)@.versions,
                    remote@.versions,
                    k,
                ),
    {
        let ghost local = self@.versions;
        let ghost rem = remote@.versions;
        let mut versions = copy_gems(&remote.versions);
        let mut i: usize = 0;
        while i < self.versions.len()
            invariant
                0 <= i <= self.versions.len(),
                local == self@.versions,
                rem == remote@.versions,
                unique_gems(local),
                unique_gems(rem),
                unique_gems(gems_view(versions@)),
                forall|k: Seq<char>|
                    #![trigger gem_at(gems_view(versions@), k)]
                    gem_at(gems_view(versions@), k) == if has_gem(local.subrange(0, i as int), k) {
                        merged_gem(local, rem, k)
                    } else {
                        gem_at(rem, k)
                    },
            decreases self.versions.len() - i,
        {
            let ghost before = gems_view(versions@);
            let ghost key = local[i as int].full_name;
            let ghost pre = local.subrange(0, i as int);
            let ghost post = local.subrange(0, i + 1);
            proof {
                lemma_gem_at(local, i as int);
                assert(local[i as int] == self.versions@[i as int]@);
                assert(!has_gem(pre, key)) by {
                    if has_gem(pre, key) {
                        let a = choose|a: int| 0 <= a < pre.len() && (#[trigger] pre[a]).full_name == key;
                        assert(local[a].full_name == key);
                    }
                }
                assert forall|k: Seq<char>| k != key implies has_gem(post, k) == has_gem(pre, k) by {
                    if has_gem(post, k) {
                        let a = choose|a: int| 0 <= a < post.len() && (#[trigger] post[a]).full_name == k;
                        assert(pre[a] == post[a]);
                    }
                    if has_gem(pre, k) {
                        let a = choose|a: int| 0 <= a < pre.len() && (#[trigger] pre[a]).full_name == k;
                        assert(pre[a] == post[a]);
                    }
                }
                assert(post[i as int] == local[i as int]);
                assert(has_gem(post, key));
            }
            let g = &self.versions[i];
            match find_gem(&versions, &g.full_name) {
                Some(j) => {
                    proof {
                        assert(before[j as int] == versions@[j as int]@);
                        lemma_gem_at(before, j as int);
                    }
                    if g.stored && !versions[j].stored {
                        let c = g.copy();
                        versions.set(j, c);
                        proof {
                            assert(gems_view(versions@) =~= before.update(j as int, local[i as int]));
                            lemma_update_gem(before, j as int, local[i as int]);
                        }
                    }
                },
                None => {
                    let c = g.copy();
                    versions.push(c);
                    proof {
                        assert(gems_view(versions@) =~= before.push(local[i as int]));
                        lemma_push_gem(before, local[i as int]);
                    }
                },
            }
            i = i + 1;
        }
        proof {
            assert(local.subrange(0, local.len() as int) == local);
            assert forall|k: Seq<char>| #![trigger gem_at(gems_view(versions@), k)]
                gem_at(gems_view(versions@), k) == merged_gem(local, rem, k) by {
                if !has_gem(local, k) {
                    assert(gem_at(local, k) is None);
                }
            }
        }
        self.versions = versions;
        self.name = remote.name.clone();
        self.info_checksum = remote.info_checksum.clone();
    }
}

pub open spec fn indices_view(v: Seq<Index>) -> Seq<IndexV> {
    v.map_values(|i: Index| i@)
}

/// A copy of each index of `v`, in order.
pub fn copy_indices(v: &Vec<Index>) -> (r: Vec<Index>)
    ensures
        indices_view(r@) == indices_view(v@),
{
    let mut r: Vec<Index> = Vec::new();
    let mut i: usize = 0;
    while i < v.len()
        invariant
            i <= v.len(),
            r.len() == i,
            forall|j: int| 0 <= j < i ==> (#[trigger] r@[j])@ == v@[j]@,
        decreases v.len() - i,
    {
        r.push(v[i].copy());
        i = i + 1;
    }
    assert(indices_view(r@) =~= indices_view(v@));
    r
}

/// The versions that a namespace holds under `k` once `remote` has been
/// applied to an index whose entry for the name was `local`.
pub open spec fn applied_gem(local: Option<NamespaceV>, remote: NamespaceV, k: Seq<char>) -> Option<GemV> {
    match local {
        Some(l) => merged_gem(l.versions, remote.versions, k),
        None => gem_at(remote.versions, k),
    }
}

impl Index {
    /// Namespace names are unique, and so are full names within each.
    pub open spec fn wf(&self) -> bool {
        &&& unique_namespaces(self@.gems)
        &&& forall|i: int| 0 <= i < self@.gems.len() ==> unique_gems(#[trigger] self@.gems[i].versions)
    }

    /// Whether the index is well formed: names unique, full names unique
    /// within each namespace.
    pub fn is_well_formed(&self) -> (r: bool)
        ensures
            r == self.wf(),
    {
        let mut i: usize = 0;
        while i < self.gems.len()
            invariant
                i <= self.gems@.len(),
                forall|a: int, b: int| 0 <= a < i && 0 <= b < self@.gems.len() && a != b ==> (#[trigger] self@.gems[a]).name != (#[trigger] self@.gems[b]).name,
                forall|a: int| 0 <= a < i ==> unique_gems(#[trigger] self@.gems[a].versions),
            decreases self.gems@.len() - i,
        {
            assert(self@.gems[i as int] == self.gems@[i as int]@);
            let mut j: usize = 0;
            while j < self.gems.len()
                invariant
                    j <= self.gems@.len(),
                    i < self.gems@.len(),
                    forall|b: int| 0 <= b < j && b != i ==> self@.gems[i as int].name != (#[trigger] self@.gems[b]).name,
                decreases self.gems@.len() - j,
            {
                assert(self@.gems[j as int] == self.gems@[j as int]@);
                if j != i && self.gems[j].name == self.gems[i].name {
                    assert(self@.gems[i as int].name == self@.gems[j as int].name);
                    return false;
                }
                j = j + 1;
            }
            let vs = &self.gems[i].versions;
            assert(gems_view(vs@) == self@.gems[i as int].versions);
            let mut x: usize = 0;
            while x < vs.len()
                invariant
                    x <= vs@.len(),
                    i < self@.gems.len(),
                    gems_view(vs@) == self@.gems[i as int].versions,
                    forall|a: int, b: int| 0 <= a < x && 0 <= b < vs@.len() && a != b ==> (#[trigger] gems_view(vs@)[a]).full_name != (#[trigger] gems_view(vs@)[b]).full_name,
                decreases vs@.len() - x,
            {
                let mut y: usize = 0;
                while y < vs.len()
                    invariant
                        y <= vs@.len(),
                        x < vs@.len(),
                        i < self@.gems.len(),
                        gems_view(vs@) == self@.gems[i as int].versions,
                        forall|b: int| 0 <= b < y && b != x ==> gems_view(vs@)[x as int].full_name != (#[trigger] gems_view(vs@)[b]).full_name,
                    decreases vs@.len() - y,
                {
                    assert(gems_view(vs@)[y as int] == vs@[y as int]@);
                    assert(gems_view(vs@)[x as int] == vs@[x as int]@);
                    if y != x && vs[y].full_name == vs[x].full_name {
                        assert(!unique_gems(self@.gems[i as int].versions));
                        return false;
                    }
                    y = y + 1;
                }
                x = x + 1;
            }
            i = i + 1;
        }
        true
    }

    /// A new index of `source` with no namespaces.
    pub fn new(source: String) -> (r: Index)
        ensures
            r.wf(),
            r@.source == source@,
            r@.gems.len() == 0,
    {
        Index { source, gems: Vec::new() }
    }

    /// A copy with the same value.
    pub fn copy(&self) -> (r: Index)
        ensures
            r@ == self@,
    {
        let mut gems: Vec<Namespace> = Vec::new();
        let mut i: usize = 0;
        while i < self.gems.len()
            invariant
                i <= self.gems.len(),
                gems.len() == i,
                forall|j: int| 0 <= j < i ==> (#[trigger] gems@[j])@ == self.gems@[j]@,
            decreases self.gems.len() - i,
        {
            gems.push(self.gems[i].copy());
            i = i + 1;
        }
        assert(namespaces_view(gems@) =~= namespaces_view(self.gems@));
        Index { source: self.source.clone(), gems }
    }

    /// The identity of an index: its source.
    pub fn key(&self) -> (r: &String)
        ensures
            r@ == self.source@,
    {
        &self.source
    }

    /// Records a freshly fetched namespace: merged into the known namespace
    /// of the same name where there is one, added otherwise. Every other
    /// namespace is left as it was.
    pub fn apply_namespace(&mut self, remote: Namespace)
        requires
            old(self).wf(),
            remote.wf(),
        ensures
            final(self).wf(),
            final(self)@.source == old(self)@.source,
            namespace_at(final(self)@.gems, remote@.name) matches Some(n) && {
                &&& n.name == remote@.name
                &&& n.info_checksum == remote@.info_checksum
                &&& forall|k: Seq<char>|
                    #![trigger gem_at(n.versions, k)]
                    gem_at(n.versions, k) == applied_gem(
                        namespace_at(old(self)@.gems, remote@.name),
                        remote@,
                        k,
                    )
            },
            forall|m: Seq<char>|
                m != remote@.name ==> #[trigger] namespace_at(final(self)@.gems, m) == namespace_at(
                    old(self)@.gems,
                    m,
                ),
    {
        let ghost before = self@.gems;
        match find_namespace(&self.gems, &remote.name) {
            Some(j) => {
                proof {
                    assert(before[j as int] == self.gems@[j as int]@);
                    lemma_namespace_at(before, j as int);
                }
                let mut ns = self.gems.remove(j);
                assert(ns.wf()) by {
                    assert(before[j as int] == ns@);
                }
                ns.merge(&remote);
                let ghost n = ns@;
                self.gems.insert(j, ns);
                proof {
                    assert(self@.gems =~= before.update(j as int, n));
                    lemma_update_namespace(before, j as int, n);
                    assert forall|i: int| 0 <= i < self@.gems.len() implies unique_gems(#[trigger] self@.gems[i].versions) by {
                        if i != j {
                            assert(self@.gems[i] == before[i]);
                        }
                    }
                }
            },
            None => {
                let ghost n = remote@;
                self.gems.push(remote);
                proof {
                    assert(self@.gems =~= before.push(n));
                    lemma_push_namespace(before, n);
                    assert forall|i: int| 0 <= i < self@.gems.len() implies unique_gems(#[trigger] self@.gems[i].versions) by {
                        if i < before.len() {
                            assert(self@.gems[i] == before[i]);
                        }
                    }
                }
            },
        }
    }
}

} // verus!
