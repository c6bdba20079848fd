use gem_mirror::error::SyncError;
use gem_mirror::integrity::Integrity;
use gem_mirror::model::{Index, Namespace};
use gem_mirror::session::{gem_url, info_url, versions_url, BlobAction, BlobEvent, IndexSync};

fn tar_with(members: &[(&str, &[u8])]) -> Vec<u8> {
    let mut builder = tar::Builder::new(Vec::new());
    for (name, data) in members {
        let mut header = tar::Header::new_gnu();
        header.set_size(data.len() as u64);
        header.set_mode(0o644);
        header.set_cksum();
        builder.append_data(&mut header, name, *data).unwrap();
    }
    builder.into_inner().unwrap()
}

fn pending_session() -> IndexSync {
    let mut s = IndexSync::new(Index::new("https://x.org".to_string()));
    s.receive_listing("---\nrails 7.0 c1\n").unwrap();
    let page = s.next_page().unwrap();
    s.receive_page(&page.name, &format!("---\n7.0 |checksum:{}\n", HELLO_SHA256), "c1").unwrap();
    s
}

const HELLO_SHA256: &str = "2cf24dba5fb0a30e26e83b2ac5b9e29e1b161e5c1fa7425e73043362938b9824";

#[test]
fn urls() {
    assert_eq!(versions_url("https://x.org"), "https://x.org/versions");
    assert_eq!(info_url("https://x.org", "rails"), "https://x.org/info/rails");
    assert_eq!(gem_url("https://x.org", "rails-1.0"), "https://x.org/gems/rails-1.0.gem");
}

#[test]
fn session_fetches_only_changed_pages() {
    let mut index = Index::new("https://x.org".to_string());
    index.apply_namespace(Namespace::new("rack".to_string(), "\"r1\"".to_string()));
    let mut s = IndexSync::new(index);
    assert_eq!(s.listing_url(), "https://x.org/versions");
    s.receive_listing("head\n---\nrack 1.0 r1\nrails 7.0 c1\n").unwrap();
    let page = s.next_page().unwrap();
    assert_eq!(page.name, "rails");
    assert_eq!(page.url, "https://x.org/info/rails");
    s.receive_page(&page.name, &format!("---\n7.0 |checksum:{}\n", HELLO_SHA256), "W/\"c1\"")
        .unwrap();
    assert!(s.next_page().is_none());

    let id = match s.blob_begin() {
        BlobAction::Probe(id) => id,
        other => panic!("expected a probe, got {:?}", other),
    };
    assert_eq!(id.hex, HELLO_SHA256);
    let url = match s.blob_step(BlobEvent::Held(false)).unwrap() {
        BlobAction::Download(url) => url,
        other => panic!("expected a download, got {:?}", other),
    };
    assert_eq!(url, "https://x.org/gems/rails-7.0.gem");
    match s.blob_step(BlobEvent::Stored(Integrity::compute(b"hello"))).unwrap() {
        BlobAction::Read(r) => assert!(r.same_as(&id)),
        other => panic!("expected a read, got {:?}", other),
    }
    let archive = tar_with(&[("metadata.gz", b"meta")]);
    match s.blob_step(BlobEvent::Archive(archive)).unwrap() {
        BlobAction::StoreMetadata(m) => assert_eq!(m, b"meta".to_vec()),
        other => panic!("expected metadata, got {:?}", other),
    }
    assert!(!s.index.gems.iter().find(|n| n.name == "rails").unwrap().versions[0].stored);
    match s.blob_step(BlobEvent::MetadataStored(Integrity::compute(b"meta"))).unwrap() {
        BlobAction::Done => {}
        other => panic!("expected done, got {:?}", other),
    }

    let index = s.finish();
    let rails = index.gems.iter().find(|n| n.name == "rails").unwrap();
    assert_eq!(rails.info_checksum, "c1");
    assert!(rails.versions[0].stored);

    let mut again = IndexSync::new(index);
    again.receive_listing("---\nrack 1.0 r1\nrails 7.0 c1\n").unwrap();
    assert!(again.next_page().is_none());
    assert!(matches!(again.blob_begin(), BlobAction::Done));
}

#[test]
fn session_rejects_bad_pages() {
    let mut s = IndexSync::new(Index::new("s".to_string()));
    assert_eq!(s.receive_listing("no separator").unwrap_err(), SyncError::ParseError);
    s.receive_listing("---\nrails 1 c").unwrap();
    let page = s.next_page().unwrap();
    assert_eq!(s.receive_page(&page.name, "---\nbroken", "c").unwrap_err(), SyncError::ParseError);
    assert!(s.finish().gems.is_empty());
}

#[test]
fn blob_pass_rejects_wrong_download() {
    let mut s = pending_session();
    assert!(matches!(s.blob_begin(), BlobAction::Probe(_)));
    assert!(matches!(s.blob_step(BlobEvent::Held(false)).unwrap(), BlobAction::Download(_)));
    let wrong = Integrity::compute(b"other");
    assert_eq!(s.blob_step(BlobEvent::Stored(wrong)).unwrap_err(), SyncError::IntegrityMismatch);
    assert!(!s.index.gems[0].versions[0].stored);
}

#[test]
fn blob_pass_held_archive_is_read_not_downloaded() {
    let mut s = pending_session();
    s.blob_begin();
    assert!(matches!(s.blob_step(BlobEvent::Held(true)).unwrap(), BlobAction::Read(_)));
    let archive = tar_with(&[("data.tar.gz", b"data")]);
    assert_eq!(s.blob_step(BlobEvent::Archive(archive)).unwrap_err(), SyncError::MetadataMissing);
    assert!(!s.index.gems[0].versions[0].stored);
}

#[test]
fn blob_pass_rejects_out_of_order_answers() {
    let mut s = pending_session();
    assert_eq!(
        s.blob_step(BlobEvent::MetadataStored(Integrity::compute(b"m"))).unwrap_err(),
        SyncError::UnexpectedEvent
    );
    assert!(!s.index.gems[0].versions[0].stored);
}
