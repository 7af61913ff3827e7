use content_store::disk::DiskModel;
use content_store::errors::FetchError;
use content_store::index::DedupIndex;
use content_store::ingest::StreamIngestor;
use content_store::pathing::CanonPath;
use content_store::static_files::StaticFilesService;
use content_store::store::{ContentStore, StreamEvent};

/// SHA-256 of the empty input.
const EMPTY_DIGEST: [u8; 32] = [
    0xe3, 0xb0, 0xc4, 0x42, 0x98, 0xfc, 0x1c, 0x14, 0x9a, 0xfb, 0xf4, 0xc8, 0x99, 0x6f, 0xb9,
    0x24, 0x27, 0xae, 0x41, 0xe4, 0x64, 0x9b, 0x93, 0x4c, 0xa4, 0x95, 0x99, 0x1b, 0x78, 0x52,
    0xb8, 0x55,
];

/// SHA-256 of the three bytes "abc".
const ABC_DIGEST: [u8; 32] = [
    0xba, 0x78, 0x16, 0xbf, 0x8f, 0x01, 0xcf, 0xea, 0x41, 0x41, 0x40, 0xde, 0x5d, 0xae, 0x22,
    0x23, 0xb0, 0x03, 0x61, 0xa3, 0x96, 0x17, 0x7a, 0x9c, 0xb4, 0x10, 0xff, 0x61, 0xf2, 0x00,
    0x15, 0xad,
];

#[test]
fn digest_matches_known_vector() {
    // Signature "a", content "abc": the digest covers the signature bytes too.
    let mut ing = StreamIngestor::new(vec![b'a']);
    let forwarded = ing.accept_chunk(b"ab").unwrap();
    assert_eq!(forwarded, b"ab".to_vec());
    let forwarded = ing.accept_chunk(b"c").unwrap();
    assert_eq!(forwarded, b"c".to_vec());
    let digest = ing.finish().unwrap();
    assert_eq!(digest, ABC_DIGEST.to_vec());
}

#[test]
fn digest_of_empty_stream_matches_known_vector() {
    let ing = StreamIngestor::new(Vec::new());
    let digest = ing.finish().unwrap();
    assert_eq!(digest, EMPTY_DIGEST.to_vec());
}

#[test]
fn nothing_is_forwarded_before_the_signature_is_complete() {
    let mut ing = StreamIngestor::new(vec![1, 2, 3]);
    assert_eq!(ing.accept_chunk(&[1]).unwrap(), Vec::<u8>::new());
    assert_eq!(ing.accept_chunk(&[2]).unwrap(), Vec::<u8>::new());
    // The chunk that completes the signature releases everything buffered.
    assert_eq!(ing.accept_chunk(&[3, 7]).unwrap(), vec![1, 2, 3, 7]);
}

#[test]
fn traversal_is_rejected_only_when_it_reaches_a_real_file() {
    let store = ContentStore::new("/srv/uploads", 1024).unwrap();
    let mut disk = DiskModel::new();
    let secret = CanonPath::parse_abs("/srv/secret").unwrap();
    disk.write(&secret, b"top".to_vec());
    let inside = CanonPath::parse_abs("/srv/uploads/pic").unwrap();
    disk.write(&inside, b"img".to_vec());

    // "../secret" resolves outside the root to an existing file.
    assert!(matches!(
        store.fetch_by_name(&disk, "../secret"),
        Err(FetchError::PathNotInAllowedDirectory)
    ));
    // An absolute name escapes just the same.
    assert!(matches!(
        store.fetch_by_name(&disk, "/srv/secret"),
        Err(FetchError::PathNotInAllowedDirectory)
    ));
    // An escape that resolves to nothing existing collapses to "not found".
    assert!(matches!(
        store.fetch_by_name(&disk, "../nothing"),
        Err(FetchError::FileNotFound)
    ));
    // Climbing out and back in again is confined and served.
    assert_eq!(
        store.fetch_by_name(&disk, "../uploads/pic").unwrap(),
        b"img".to_vec()
    );
    assert_eq!(store.fetch_by_name(&disk, "pic").unwrap(), b"img".to_vec());
    assert_eq!(
        store.fetch_by_name(&disk, "./pic//").unwrap(),
        b"img".to_vec()
    );
    // ".." above the filesystem root stays at the root.
    assert!(matches!(
        store.fetch_by_name(&disk, "../../../../srv/secret"),
        Err(FetchError::PathNotInAllowedDirectory)
    ));
}

#[test]
fn static_files_are_served_from_their_own_root() {
    let service = StaticFilesService::new("/srv/www").unwrap();
    assert!(StaticFilesService::new("www").is_none());
    assert!(StaticFilesService::new("/srv/www/").is_none());

    let mut disk = DiskModel::new();
    let index_page = CanonPath::parse_abs("/srv/www/index.html").unwrap();
    disk.write(&index_page, b"<html>".to_vec());
    let upload = CanonPath::parse_abs("/srv/uploads/pic").unwrap();
    disk.write(&upload, b"img".to_vec());

    assert_eq!(
        service.get_static_file(&disk, "index.html").unwrap(),
        b"<html>".to_vec()
    );
    assert!(matches!(
        service.get_static_file(&disk, "missing.css"),
        Err(FetchError::FileNotFound)
    ));
    // The uploads root is outside the static root.
    assert!(matches!(
        service.get_static_file(&disk, "../uploads/pic"),
        Err(FetchError::PathNotInAllowedDirectory)
    ));
}

#[test]
fn temp_names_are_uuid_shaped() {
    let store = ContentStore::new("/uploads", 1024).unwrap();
    let mut disk = DiskModel::new();
    let events = vec![
        StreamEvent::Chunk(vec![1, 2, 3, 4, 5, 6]),
        StreamEvent::End,
    ];
    let handle = store
        .ingest(&mut disk, &events, &vec![1, 2, 3, 4, 5])
        .unwrap();
    let name = handle.get_name();
    assert_eq!(name.len(), 36);
    assert!(name
        .chars()
        .all(|c| c == '-' || c.is_ascii_digit() || ('a'..='f').contains(&c)));
}

#[test]
fn dedup_index_lookup_is_exact_byte_equality() {
    let mut index = DedupIndex::new();
    let hash_a: Vec<u8> = (0..32u8).collect();
    let mut hash_b = hash_a.clone();
    hash_b[31] ^= 1;

    assert!(index.lookup(&hash_a).is_none());
    let id_a = index.insert_if_absent(&hash_a, &"file-a".to_string());
    assert_eq!(index.count(), 1);

    // A hash differing in one byte is a miss, never a prefix match.
    assert!(index.lookup(&hash_b).is_none());
    let id_b = index.insert_if_absent(&hash_b, &"file-b".to_string());
    assert_ne!(id_a, id_b);
    assert_eq!(index.count(), 2);

    let img = index.lookup(&hash_a).unwrap();
    assert_eq!(img.get_id(), id_a);
    assert_eq!(img.get_filename(), "file-a");

    let by_id = index.get_by_id(id_b).unwrap();
    assert_eq!(by_id.get_id(), id_b);
    assert_eq!(by_id.get_filename(), "file-b");
    assert!(index.get_by_id(id_a + id_b + 1).is_none());
}
