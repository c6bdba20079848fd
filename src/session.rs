//! One index's synchronisation as a sequence of requests and answers. The
//! session decides what to fetch next and records what comes back; the
//! caller performs each fetch and each store operation.

use vstd::prelude::*;
use crate::error::SyncError;
use crate::integrity::Integrity;
use crate::integrity::IntegrityV;
use crate::model::{Gem, Index, IndexV, NamespaceV, applied_gem, gem_at, namespace_at};
use crate::parse::accepts_info_line;
use crate::sync::{
    ListingEntry, archive_metadata, archive_metadata_of, entries_map, etag_checksum, first_pending,
    has_pending, listing_map, marked, needs_fetch, page_body, page_versions, parse_info_page,
    parse_listing, should_fetch, unique_entries,
};

verus! {

pub open spec fn versions_suffix() -> Seq<char> {
    seq!['/', 'v', 'e', 'r', 's', 'i', 'o', 'n', 's']
}

pub open spec fn info_infix() -> Seq<char> {
    seq!['/', 'i', 'n', 'f', 'o', '/']
}

pub open spec fn gems_infix() -> Seq<char> {
    seq!['/', 'g', 'e', 'm', 's', '/']
}

pub open spec fn gem_suffix() -> Seq<char> {
    seq!['.', 'g', 'e', 'm']
}

/// `{source}/versions`.
pub fn versions_url(source: &str) -> (r: String)
    ensures
        r@ == source@ + versions_suffix(),
{
    let s = "/versions";
    proof {
        reveal_strlit("/versions");
    }
    assert(s@ =~= versions_suffix());
    let mut u = source.to_owned();
    u.append(s);
    u
}

/// `{source}/info/{name}`.
pub fn info_url(source: &str, name: &str) -> (r: String)
    ensures
        r@ == source@ + info_infix() + name@,
{
    let s = "/info/";
    proof {
        reveal_strlit("/info/");
    }
    assert(s@ =~= info_infix());
    let mut u = source.to_owned();
    u.append(s);
    u.append(name);
    u
}

/// `{source}/gems/{full_name}.gem`.
pub fn gem_url(source: &str, full_name: &str) -> (r: String)
    ensures
        r@ == source@ + gems_infix() + full_name@ + gem_suffix(),
{
    let s = "/gems/";
    let e = ".gem";
    proof {
        reveal_strlit("/gems/");
        reveal_strlit(".gem");
    }
    assert(s@ =~= gems_infix());
    assert(e@ =~= gem_suffix());
    let mut u = source.to_owned();
    u.append(s);
    u.append(full_name);
    u.append(e);
    u
}

/// A page to fetch: the namespace and its URL.
#[derive(Clone, Debug)]
pub struct PageRequest {
    pub name: String,
    pub url: String,
}

/// Where the blob pass stands: the gem (namespace, version) it works on and
/// the answer it waits for.
#[derive(Clone, Copy, Debug, PartialEq, Eq, Structural)]
pub enum BlobStage {
    /// No request outstanding.
    Idle,
    /// Waiting to learn whether the archive is held.
    Probing(usize, usize),
    /// Waiting for the downloaded archive to be stored.
    Downloading(usize, usize),
    /// Waiting for the stored archive's bytes.
    Reading(usize, usize),
    /// Waiting for the metadata member to be stored.
    StoringMetadata(usize, usize),
}

/// A request of the blob pass, for the caller to perform.
#[derive(Clone, Debug)]
pub enum BlobAction {
    /// Does the store hold a blob under this identifier? Answer `Held`.
    Probe(Integrity),
    /// Fetch this URL and store the bytes. Answer `Stored`.
    Download(String),
    /// Read the blob under this identifier. Answer `Archive`.
    Read(Integrity),
    /// Store these bytes. Answer `MetadataStored`.
    StoreMetadata(Vec<u8>),
    /// Every gem is stored.
    Done,
}

/// An answer to a `BlobAction`.
#[derive(Clone, Debug)]
pub enum BlobEvent {
    Held(bool),
    Stored(Integrity),
    Archive(Vec<u8>),
    MetadataStored(Integrity),
}

pub open spec fn stage_pos(s: BlobStage) -> Option<(usize, usize)> {
    match s {
        BlobStage::Idle => None,
        BlobStage::Probing(n, g) => Some((n, g)),
        BlobStage::Downloading(n, g) => Some((n, g)),
        BlobStage::Reading(n, g) => Some((n, g)),
        BlobStage::StoringMetadata(n, g) => Some((n, g)),
    }
}

/// (`n`, `g`) names a gem of `i` that is not stored yet.
pub open spec fn pending_at(i: IndexV, n: int, g: int) -> bool {
    &&& 0 <= n < i.gems.len()
    &&& 0 <= g < i.gems[n].versions.len()
    &&& !i.gems[n].versions[g].stored
}

pub open spec fn package_at(i: IndexV, n: int, g: int) -> IntegrityV {
    i.gems[n].versions[g].package
}

/// `{source}/gems/{full_name}.gem` for the gem at (`n`, `g`).
pub open spec fn gem_url_at(i: IndexV, n: int, g: int) -> Seq<char> {
    i.source + gems_infix() + i.gems[n].versions[g].full_name + gem_suffix()
}

/// `a` is how the blob pass goes on from state `s`: a probe of the archive of
/// a gem not stored yet, or `Done` once every gem is stored.
pub open spec fn began(s: IndexSync, a: BlobAction) -> bool {
    match a {
        BlobAction::Done => !has_pending(s.index@) && s.stage == BlobStage::Idle,
        BlobAction::Probe(id) => match s.stage {
            BlobStage::Probing(n, g) => id@ == package_at(s.index@, n as int, g as int),
            _ => false,
        },
        _ => false,
    }
}

/// The working state of one index during a run.
#[derive(Clone, Debug)]
pub struct IndexSync {
    pub index: Index,
    /// The listing received for this run.
    pub listing: Vec<ListingEntry>,
    /// How many listing entries have been considered.
    pub cursor: usize,
    /// Where the blob pass stands.
    pub stage: BlobStage,
}

impl IndexSync {
    pub open spec fn wf(&self) -> bool {
        &&& self.index.wf()
        &&& self.cursor <= self.listing@.len()
        &&& (stage_pos(self.stage) matches Some((n, g)) ==> pending_at(self.index@, n as int, g as int))
    }

    /// Starts a run on `index`; the first request is its versions listing.
    pub fn new(index: Index) -> (r: IndexSync)
        requires
            index.wf(),
        ensures
            r.wf(),
            r.index@ == index@,
            r.listing@.len() == 0,
            r.cursor == 0,
            r.stage == BlobStage::Idle,
    {
        IndexSync { index, listing: Vec::new(), cursor: 0, stage: BlobStage::Idle }
    }

    /// The URL of the listing to fetch first.
    pub fn listing_url(&self) -> (r: String)
        ensures
            r@ == self.index@.source + versions_suffix(),
    {
        versions_url(self.index.source.as_str())
    }

    /// Records the listing text; `ParseError` where it has no `---` line.
    pub fn receive_listing(&mut self, text: &str) -> (r: Result<(), SyncError>)
        requires
            old(self).wf(),
        ensures
            final(self).wf(),
            final(self).index == old(self).index,
            r is Ok <==> page_body(text@) is Some,
            r matches Err(e) ==> e == SyncError::ParseError,
            r is Ok ==> final(self).cursor == 0,
            r is Ok ==> (page_body(text@) matches Some(b) && unique_entries(final(self).listing@)
                && entries_map(final(self).listing@) == listing_map(b)),
            r is Err ==> final(self).listing == old(self).listing && final(self).cursor == old(self).cursor,
            final(self).stage == old(self).stage,
    {
        match parse_listing(text) {
            Ok(v) => {
                self.listing = v;
                self.cursor = 0;
                Ok(())
            },
            Err(e) => Err(e),
        }
    }

    /// The next page to fetch: the first listing entry past the cursor whose
    /// namespace is unknown or known with another checksum. The entries
    /// passed over are unchanged; `None` once the listing is exhausted.
    pub fn next_page(&mut self) -> (r: Option<PageRequest>)
        requires
            old(self).wf(),
        ensures
            final(self).wf(),
            final(self).index == old(self).index,
            final(self).listing == old(self).listing,
            final(self).stage == old(self).stage,
            old(self).cursor <= final(self).cursor,
            forall|i: int|
                old(self).cursor <= i < final(self).cursor - (if r is Some { 1int } else { 0int })
                    ==> !needs_fetch(
                    old(self).index@.gems,
                    (#[trigger] old(self).listing@[i]).name@,
                    old(self).listing@[i].checksum@,
                ),
            r is None ==> final(self).cursor == old(self).listing@.len(),
            r matches Some(p) ==> {
                let e = old(self).listing@[final(self).cursor - 1];
                &&& final(self).cursor >= 1
                &&& needs_fetch(old(self).index@.gems, e.name@, e.checksum@)
                &&& p.name@ == e.name@
                &&& p.url@ == old(self).index@.source + info_infix() + e.name@
            },
    {
        while self.cursor < self.listing.len()
            invariant
                self.wf(),
                self.index == old(self).index,
                self.listing == old(self).listing,
                self.stage == old(self).stage,
                old(self).cursor <= self.cursor,
                forall|i: int|
                    old(self).cursor <= i < self.cursor ==> !needs_fetch(
                        old(self).index@.gems,
                        (#[trigger] old(self).listing@[i]).name@,
                        old(self).listing@[i].checksum@,
                    ),
            decreases self.listing@.len() - self.cursor,
        {
            let i = self.cursor;
            self.cursor = i + 1;
            if should_fetch(&self.index, &self.listing[i].name, &self.listing[i].checksum) {
                let name = self.listing[i].name.clone();
                let url = info_url(self.index.source.as_str(), name.as_str());
                return Some(PageRequest { name, url });
            }
        }
        None
    }

    /// Records the fetched page of namespace `name` with its `ETag` value:
    /// merged into the known namespace, or added. `ParseError` where the
    /// page does not parse; the index is then left as it was.
    pub fn receive_page(&mut self, name: &str, text: &str, etag: &str) -> (r: Result<(), SyncError>)
        requires
            old(self).wf(),
        ensures
            final(self).wf(),
            final(self).listing == old(self).listing,
            final(self).cursor == old(self).cursor,
            r is Err ==> final(self).index == old(self).index,
            final(self).stage == BlobStage::Idle,
            r matches Err(e) ==> e == SyncError::ParseError,
            final(self).index@.source == old(self).index@.source,
            r is Ok <==> (page_body(text@) matches Some(b) && forall|l: int|
                0 <= l < b.len() ==> accepts_info_line(#[trigger] b[l])),
            r is Ok ==> (namespace_at(final(self).index@.gems, name@) matches Some(n) && {
                &&& n.info_checksum == etag_checksum(etag@)
                &&& exists|p: NamespaceV|
                    #![trigger page_versions(name@, page_body(text@)->0, p.versions, page_body(text@)->0.len() as int)]
                    p.name == name@ && page_versions(name@, page_body(text@)->0, p.versions, page_body(text@)->0.len() as int)
                    && forall|k: Seq<char>|
                        #![trigger gem_at(n.versions, k)]
                        gem_at(n.versions, k) == applied_gem(
                            namespace_at(old(self).index@.gems, name@),
                            p,
                            k,
                        )
            }),
            r is Ok ==> forall|m: Seq<char>|
                m != name@ ==> #[trigger] namespace_at(final(self).index@.gems, m) == namespace_at(
                    old(self).index@.gems,
                    m,
                ),
    {
        self.stage = BlobStage::Idle;
        match parse_info_page(name, text, etag) {
            Ok(ns) => {
                let ghost p = ns@;
                self.index.apply_namespace(ns);
                assert(page_versions(name@, page_body(text@)->0, p.versions, page_body(text@)->0.len() as int));
                Ok(())
            },
            Err(e) => Err(e),
        }
    }

    /// Picks the next gem whose blobs are not stored yet and asks for a
    /// probe of its archive; `Done` where every gem is stored.
    fn select(&mut self) -> (r: BlobAction)
        requires
            old(self).index.wf(),
            old(self).cursor <= old(self).listing@.len(),
        ensures
            final(self).wf(),
            final(self).index == old(self).index,
            final(self).listing == old(self).listing,
            final(self).cursor == old(self).cursor,
            began(*final(self), r),
    {
        match first_pending(&self.index) {
            Some((n, g)) => {
                self.stage = BlobStage::Probing(n, g);
                let id = self.gem_ref(n, g).package_integrity.copy();
                BlobAction::Probe(id)
            },
            None => {
                self.stage = BlobStage::Idle;
                BlobAction::Done
            },
        }
    }

    /// The gem at (`n`, `g`).
    fn gem_ref(&self, n: usize, g: usize) -> (r: &Gem)
        requires
            n < self.index@.gems.len(),
            g < self.index@.gems[n as int].versions.len(),
        ensures
            r@ == self.index@.gems[n as int].versions[g as int],
    {
        assert(self.index@.gems[n as int] == self.index.gems@[n as int]@);
        &self.index.gems[n].versions[g]
    }

    /// Starts the blob pass over the whole index: the first request of it.
    pub fn blob_begin(&mut self) -> (r: BlobAction)
        requires
            old(self).wf(),
        ensures
            final(self).wf(),
            final(self).index == old(self).index,
            final(self).listing == old(self).listing,
            final(self).cursor == old(self).cursor,
            began(*final(self), r),
    {
        self.select()
    }

    /// Takes the answer to the last blob request and returns the next one.
    /// A probe that finds the archive held leads to reading it, one that
    /// does not to downloading it; a downloaded archive must carry the
    /// identifier its metadata claimed; the archive read back must hold a
    /// `metadata.gz` member, which is then to be stored; only once that is
    /// stored is the gem recorded as stored, and the next gem is probed.
    /// Any error leaves the index as it was.
    pub fn blob_step(&mut self, event: BlobEvent) -> (r: Result<BlobAction, SyncError>)
        requires
            old(self).wf(),
        ensures
            final(self).wf(),
            final(self).listing == old(self).listing,
            final(self).cursor == old(self).cursor,
            r is Err ==> final(self).index == old(self).index && final(self).stage == BlobStage::Idle,
            match (old(self).stage, event) {
                (BlobStage::Probing(n, g), BlobEvent::Held(held)) => {
                    &&& final(self).index == old(self).index
                    &&& if held {
                        &&& final(self).stage == BlobStage::Reading(n, g)
                        &&& (r matches Ok(BlobAction::Read(id)) && id@ == package_at(old(self).index@, n as int, g as int))
                    } else {
                        &&& final(self).stage == BlobStage::Downloading(n, g)
                        &&& (r matches Ok(BlobAction::Download(u)) && u@ == gem_url_at(old(self).index@, n as int, g as int))
                    }
                },
                (BlobStage::Downloading(n, g), BlobEvent::Stored(id)) => {
                    if id@ == package_at(old(self).index@, n as int, g as int) {
                        &&& final(self).index == old(self).index
                        &&& final(self).stage == BlobStage::Reading(n, g)
                        &&& (r matches Ok(BlobAction::Read(x)) && x@ == id@)
                    } else {
                        r == Err::<BlobAction, SyncError>(SyncError::IntegrityMismatch)
                    }
                },
                (BlobStage::Reading(n, g), BlobEvent::Archive(b)) => match archive_metadata_of(b@) {
                    Some(m) => {
                        &&& final(self).index == old(self).index
                        &&& final(self).stage == BlobStage::StoringMetadata(n, g)
                        &&& (r matches Ok(BlobAction::StoreMetadata(v)) && v@ == m)
                    },
                    None => r == Err::<BlobAction, SyncError>(SyncError::MetadataMissing),
                },
                (BlobStage::StoringMetadata(n, g), BlobEvent::MetadataStored(id)) => {
                    &&& final(self).index@ == marked(old(self).index@, n as int, g as int, id@)
                    &&& (r matches Ok(a) && began(*final(self), a))
                },
                _ => r == Err::<BlobAction, SyncError>(SyncError::UnexpectedEvent),
            },
    {
        match (self.stage, event) {
            (BlobStage::Probing(n, g), BlobEvent::Held(held)) => {
                if held {
                    self.stage = BlobStage::Reading(n, g);
                    let id = self.gem_ref(n, g).package_integrity.copy();
                    Ok(BlobAction::Read(id))
                } else {
                    self.stage = BlobStage::Downloading(n, g);
                    let url = gem_url(self.index.source.as_str(), self.gem_ref(n, g).full_name.as_str());
                    Ok(BlobAction::Download(url))
                }
            },
            (BlobStage::Downloading(n, g), BlobEvent::Stored(id)) => {
                if id.same_as(&self.gem_ref(n, g).package_integrity) {
                    self.stage = BlobStage::Reading(n, g);
                    Ok(BlobAction::Read(id))
                } else {
                    self.stage = BlobStage::Idle;
                    Err(SyncError::IntegrityMismatch)
                }
            },
            (BlobStage::Reading(n, g), BlobEvent::Archive(b)) => match archive_metadata(b.as_slice()) {
                Ok(m) => {
                    self.stage = BlobStage::StoringMetadata(n, g);
                    Ok(BlobAction::StoreMetadata(m))
                },
                Err(e) => {
                    self.stage = BlobStage::Idle;
                    Err(e)
                },
            },
            (BlobStage::StoringMetadata(n, g), BlobEvent::MetadataStored(id)) => {
                self.index.mark_stored(n, g, id);
                Ok(self.select())
            },
            _ => {
                self.stage = BlobStage::Idle;
                Err(SyncError::UnexpectedEvent)
            },
        }
    }

    /// Ends the run, handing back the index.
    pub fn finish(self) -> (r: Index)
        ensures
            r == self.index,
    {
        self.index
    }
}

} // verus!
