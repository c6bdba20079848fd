use gem_mirror::error::SyncError;
use gem_mirror::integrity::{Algorithm, Integrity, IntegrityError};
use gem_mirror::model::{Gem, Index, Namespace};
use gem_mirror::parse::{checksum_field, parse_info_line};
use gem_mirror::store::{add_index_to, content_path, FsStore, MemoryStore};
use gem_mirror::sync::{
    archive_metadata, check_download, checksum_unchanged, first_pending, normalize_etag,
    page_lines, parse_info_page, parse_listing, should_fetch, split_lines,
};

const HELLO_SHA256: &str = "2cf24dba5fb0a30e26e83b2ac5b9e29e1b161e5c1fa7425e73043362938b9824";

fn gem(full_name: &str, stored: bool) -> Gem {
    Gem {
        full_name: full_name.to_string(),
        name: "rails".to_string(),
        version: "1.0".to_string(),
        platform: "ruby".to_string(),
        package_integrity: Integrity::compute(full_name.as_bytes()),
        metadata_integrity: None,
        stored,
    }
}

fn find<'a>(ns: &'a Namespace, key: &str) -> Option<&'a Gem> {
    ns.versions.iter().find(|g| g.full_name == key)
}

fn tar_with(members: &[(&str, &[u8])]) -> Vec<u8> {
    let mut builder = tar::Builder::new(Vec::new());
    for (name, data) in members {
        let mut header = tar::Header::new_gnu();
        header.set_size(data.len() as u64);
        header.set_mode(0o644);
        header.set_cksum();
        builder.append_data(&mut header, name, *data).unwrap();
    }
    builder.into_inner().unwrap()
}

#[test]
fn parse_line_default_platform() {
    let g = parse_info_line("rails", &format!("7.1.0 |checksum:{}", HELLO_SHA256)).unwrap();
    assert_eq!(g.full_name, "rails-7.1.0");
    assert_eq!(g.name, "rails");
    assert_eq!(g.version, "7.1.0");
    assert_eq!(g.platform, "ruby");
    assert_eq!(g.package_integrity.algorithm, Algorithm::Sha256);
    assert_eq!(g.package_integrity.hex, HELLO_SHA256);
    assert!(g.metadata_integrity.is_none());
    assert!(!g.stored);
}

#[test]
fn parse_line_with_platform() {
    let g = parse_info_line(
        "nokogiri",
        &format!("1.15.0-x86_64-linux racc:~> 1.4|checksum:{},ruby:>= 2.7", HELLO_SHA256),
    )
    .unwrap();
    assert_eq!(g.full_name, "nokogiri-1.15.0-x86_64-linux");
    assert_eq!(g.version, "1.15.0");
    assert_eq!(g.platform, "x86_64-linux");
    assert_eq!(g.package_integrity.hex, HELLO_SHA256);
}

#[test]
fn parse_line_lowers_hex_and_takes_last_checksum() {
    let g = parse_info_line("a", "1.0 |checksum:00,checksum:AbCd").unwrap();
    assert_eq!(g.package_integrity.hex, "abcd");
}

#[test]
fn parse_line_errors() {
    assert_eq!(parse_info_line("a", "1.0|checksum:00").unwrap_err(), SyncError::ParseError);
    assert_eq!(parse_info_line("a", "1.0 checksum:00").unwrap_err(), SyncError::ParseError);
    assert_eq!(parse_info_line("a", "1.0 |checksum:xyz1").unwrap_err(), SyncError::ParseError);
    assert_eq!(parse_info_line("a", "1.0 |checksum:abc").unwrap_err(), SyncError::ParseError);
}

#[test]
fn checksum_field_values() {
    assert_eq!(checksum_field("ruby:>= 2.0,checksum:ab:cd,rubygems:>1"), "ab");
    assert_eq!(checksum_field("ruby:>= 2.0"), "");
}

#[test]
fn integrity_compute_and_from_hex() {
    let id = Integrity::compute(b"hello");
    assert_eq!(id.algorithm, Algorithm::Sha256);
    assert_eq!(id.hex, HELLO_SHA256);
    let parsed = Integrity::from_hex(&HELLO_SHA256.to_uppercase(), Algorithm::Sha256).unwrap();
    assert!(parsed.same_as(&id));
    assert_eq!(Integrity::from_hex("abc", Algorithm::Sha256).unwrap_err(), IntegrityError::InvalidFormat);
    assert!(id.verify(b"hello").is_ok());
    assert_eq!(id.verify(b"hellO").unwrap_err(), IntegrityError::Mismatch);
}

#[test]
fn merge_keeps_stored_local_entries() {
    let mut local = Namespace::new("rails".to_string(), "old".to_string());
    local.versions.push(gem("rails-1.0", true));
    local.versions.push(gem("rails-0.9", false));
    local.versions.push(gem("rails-0.1", true));
    let mut remote = Namespace::new("rails".to_string(), "new".to_string());
    let mut fresh = gem("rails-1.0", false);
    fresh.version = "fresh".to_string();
    remote.versions.push(fresh);
    let mut r09 = gem("rails-0.9", false);
    r09.version = "remote".to_string();
    remote.versions.push(r09);
    remote.versions.push(gem("rails-2.0", false));
    local.merge(&remote);
    assert_eq!(local.info_checksum, "new");
    assert_eq!(local.versions.len(), 4);
    let kept = find(&local, "rails-1.0").unwrap();
    assert!(kept.stored);
    assert_eq!(kept.version, "1.0");
    assert_eq!(find(&local, "rails-0.9").unwrap().version, "remote");
    assert!(find(&local, "rails-0.1").unwrap().stored);
    assert!(!find(&local, "rails-2.0").unwrap().stored);
}

#[test]
fn merge_prefers_remote_when_both_stored() {
    let mut local = Namespace::new("a".to_string(), "x".to_string());
    local.versions.push(gem("a-1", true));
    let mut remote = Namespace::new("a".to_string(), "y".to_string());
    let mut r = gem("a-1", true);
    r.version = "remote".to_string();
    remote.versions.push(r);
    local.merge(&remote);
    assert_eq!(find(&local, "a-1").unwrap().version, "remote");
}

#[test]
fn blob_round_trip() {
    let mut store = MemoryStore::new();
    let id = store.store_blob(b"hello").unwrap();
    assert_eq!(id.hex, HELLO_SHA256);
    assert_eq!(store.get_blob(&id).unwrap(), b"hello".to_vec());
    assert!(store.has_blob(&id));
    let again = store.store_blob(b"hello").unwrap();
    assert!(again.same_as(&id));
    assert_eq!(store.blobs.len(), 1);
}

#[test]
fn blob_corruption_detected() {
    let mut store = MemoryStore::new();
    let id = store.store_blob(b"hello").unwrap();
    store.blobs[0].bytes[0] = b'j';
    assert_eq!(store.get_blob(&id).unwrap_err(), SyncError::IntegrityMismatch);
}

#[test]
fn blob_not_found() {
    let store = MemoryStore::new();
    let id = Integrity::compute(b"absent");
    assert_eq!(store.get_blob(&id).unwrap_err(), SyncError::NotFound);
    assert!(!store.has_blob(&id));
}

#[test]
fn add_index_twice_keeps_one() {
    let mut store = MemoryStore::new();
    store.add_index("https://rubygems.org".to_string()).unwrap();
    store.add_index("https://rubygems.org".to_string()).unwrap();
    store.add_index("https://other".to_string()).unwrap();
    let list = store.list_indices().unwrap();
    assert_eq!(list.len(), 2);
    assert_eq!(list.iter().filter(|i| i.source == "https://rubygems.org").count(), 1);
    let mut v = Vec::new();
    add_index_to(&mut v, "s".to_string());
    add_index_to(&mut v, "s".to_string());
    assert_eq!(v.len(), 1);
}

#[test]
fn failed_mutation_persists_nothing() {
    let mut store = MemoryStore::new();
    store.add_index("src".to_string()).unwrap();
    let r = store.with_indices(|mut v: Vec<Index>| {
        v[0].gems.push(Namespace::new("rails".to_string(), "c".to_string()));
        Err(SyncError::IntegrityMismatch)
    });
    assert_eq!(r.unwrap_err(), SyncError::IntegrityMismatch);
    assert!(store.indices[0].gems.is_empty());
    let ok = store.with_indices(|mut v: Vec<Index>| {
        v[0].gems.push(Namespace::new("rails".to_string(), "c".to_string()));
        Ok(v)
    });
    assert_eq!(ok.unwrap().len(), 1);
    assert_eq!(store.indices[0].gems.len(), 1);
}

#[test]
fn checksum_comparison() {
    assert!(checksum_unchanged("abc", "abc"));
    assert!(checksum_unchanged("\"abc\"", "abc"));
    assert!(!checksum_unchanged("abc", "\"abc\""));
    assert!(!checksum_unchanged("\"abc", "abc"));
    assert!(!checksum_unchanged("abd", "abc"));
}

#[test]
fn unchanged_namespace_is_not_fetched() {
    let mut index = Index::new("src".to_string());
    index.apply_namespace(Namespace::new("rails".to_string(), "\"c1\"".to_string()));
    assert!(!should_fetch(&index, &"rails".to_string(), &"c1".to_string()));
    assert!(should_fetch(&index, &"rails".to_string(), &"c2".to_string()));
    assert!(should_fetch(&index, &"rack".to_string(), &"c1".to_string()));
}

#[test]
fn etag_normalisation() {
    assert_eq!(normalize_etag("W/\"abc\""), "abc");
    assert_eq!(normalize_etag("\"abc\""), "abc");
    assert_eq!(normalize_etag("abc"), "abc");
}

#[test]
fn lines_and_separator() {
    assert_eq!(split_lines("a\r\nb\n\nc\n"), vec!["a", "b", "", "c"]);
    assert_eq!(split_lines(""), Vec::<String>::new());
    assert_eq!(page_lines("created_at: x\n---\nl1\nl2").unwrap(), vec!["l1", "l2"]);
    assert_eq!(page_lines("no separator").unwrap_err(), SyncError::ParseError);
}

#[test]
fn listing_last_line_wins() {
    let v = parse_listing("created_at: 2024\n---\nrails 1.0,2.0 aaa\nrack 1.0 bbb\nrails 3.0 ccc\n").unwrap();
    assert_eq!(v.len(), 2);
    assert_eq!(v[0].name, "rails");
    assert_eq!(v[0].checksum, "ccc");
    assert_eq!(v[1].name, "rack");
    assert_eq!(v[1].checksum, "bbb");
    assert_eq!(parse_listing("rails 1 a").unwrap_err(), SyncError::ParseError);
}

#[test]
fn info_page_parsing() {
    let text = format!(
        "---\n1.0 |checksum:{h}\n1.0-java |checksum:{h}\n1.0 dep:>= 1|checksum:00\n",
        h = HELLO_SHA256
    );
    let ns = parse_info_page("rails", &text, "W/\"etag1\"").unwrap();
    assert_eq!(ns.name, "rails");
    assert_eq!(ns.info_checksum, "etag1");
    assert_eq!(ns.versions.len(), 2);
    assert_eq!(find(&ns, "rails-1.0").unwrap().package_integrity.hex, "00");
    assert_eq!(find(&ns, "rails-1.0-java").unwrap().platform, "java");
    assert_eq!(parse_info_page("rails", "---\nbroken", "e").unwrap_err(), SyncError::ParseError);
    assert_eq!(parse_info_page("rails", "1.0 |checksum:00", "e").unwrap_err(), SyncError::ParseError);
}

#[test]
fn apply_namespace_inserts_then_merges() {
    let mut index = Index::new("src".to_string());
    let mut first = Namespace::new("rails".to_string(), "c1".to_string());
    first.versions.push(gem("rails-1.0", false));
    index.apply_namespace(first);
    let (n, g) = first_pending(&index).unwrap();
    index.mark_stored(n, g, Integrity::compute(b"meta"));
    assert!(first_pending(&index).is_none());
    let mut second = Namespace::new("rails".to_string(), "c2".to_string());
    second.versions.push(gem("rails-1.0", false));
    second.versions.push(gem("rails-1.1", false));
    index.apply_namespace(second);
    assert_eq!(index.gems.len(), 1);
    assert_eq!(index.gems[0].info_checksum, "c2");
    assert!(find(&index.gems[0], "rails-1.0").unwrap().stored);
    assert!(!find(&index.gems[0], "rails-1.1").unwrap().stored);
}

#[test]
fn second_run_with_same_remote_changes_nothing() {
    let listing = "---\nrails 1.0 etag1\n";
    let page = format!("---\n1.0 |checksum:{}\n", HELLO_SHA256);
    let mut index = Index::new("src".to_string());
    for entry in parse_listing(listing).unwrap() {
        if should_fetch(&index, &entry.name, &entry.checksum) {
            index.apply_namespace(parse_info_page(&entry.name, &page, "\"etag1\"").unwrap());
        }
    }
    while let Some((n, g)) = first_pending(&index) {
        index.mark_stored(n, g, Integrity::compute(b"meta"));
    }
    let snapshot = format!("{:?}", index);
    let mut fetched = 0;
    for entry in parse_listing(listing).unwrap() {
        if should_fetch(&index, &entry.name, &entry.checksum) {
            fetched += 1;
        }
    }
    assert_eq!(fetched, 0);
    assert!(first_pending(&index).is_none());
    assert_eq!(format!("{:?}", index), snapshot);
}

#[test]
fn archive_metadata_member() {
    let archive = tar_with(&[("data.tar.gz", b"data"), ("metadata.gz", b"meta")]);
    assert_eq!(archive_metadata(&archive).unwrap(), b"meta".to_vec());
    let without = tar_with(&[("data.tar.gz", b"data")]);
    assert_eq!(archive_metadata(&without).unwrap_err(), SyncError::MetadataMissing);
}

#[test]
fn download_check() {
    let a = Integrity::compute(b"a");
    let b = Integrity::compute(b"b");
    assert!(check_download(&a, &a.copy()).is_ok());
    assert_eq!(check_download(&a, &b).unwrap_err(), SyncError::IntegrityMismatch);
}

#[test]
fn blob_paths() {
    let id = Integrity::compute(b"hello");
    assert_eq!(
        content_path("store", &id).unwrap(),
        format!("store/content-v2/sha256/2c/f2/{}", &HELLO_SHA256[4..])
    );
    let short = Integrity { algorithm: Algorithm::Sha1, hex: "ab".to_string() };
    assert!(content_path("store", &short).is_none());
    let fs = FsStore::new("root".to_string());
    assert_eq!(fs.manifest_path(), "root/indices.json");
    assert_eq!(fs.blob_path(&id).unwrap(), content_path("root", &id).unwrap());
}

fn store_and_read<S: gem_mirror::store::Store>(store: &mut S, bytes: &[u8]) -> Vec<u8> {
    let id = store.store_blob(bytes).unwrap();
    assert!(store.has_blob(&id));
    store.get_blob(&id).unwrap()
}

#[test]
fn store_capabilities_through_the_trait() {
    let mut store = MemoryStore::new();
    assert_eq!(store_and_read(&mut store, b"payload"), b"payload".to_vec());
    gem_mirror::store::Store::add_index(&mut store, "s".to_string()).unwrap();
    gem_mirror::store::Store::add_index(&mut store, "s".to_string()).unwrap();
    assert_eq!(gem_mirror::store::Store::list_indices(&store).unwrap().len(), 1);
}
