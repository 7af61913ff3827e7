use content_store::disk::DiskModel;
use content_store::errors::{FetchError, IngestError};
use content_store::pathing::CanonPath;
use content_store::store::{ContentStore, StreamEvent};

const SIG: [u8; 5] = [1, 2, 3, 4, 5];

fn payload(len: usize) -> Vec<u8> {
    let mut data = SIG.to_vec();
    while data.len() < len {
        data.push((data.len() % 251) as u8);
    }
    data
}

fn events_of(data: &[u8], chunk_sizes: &[usize]) -> Vec<StreamEvent> {
    let mut events = Vec::new();
    let mut at = 0;
    for &sz in chunk_sizes {
        events.push(StreamEvent::Chunk(data[at..at + sz].to_vec()));
        at += sz;
    }
    assert_eq!(at, data.len());
    events.push(StreamEvent::End);
    events
}

fn whole_stream(data: &[u8]) -> Vec<StreamEvent> {
    vec![StreamEvent::Chunk(data.to_vec()), StreamEvent::End]
}

#[test]
fn new_rejects_bad_roots_and_zero_buffer() {
    assert!(ContentStore::new("/uploads", 1024).is_some());
    assert!(ContentStore::new("/uploads", 0).is_none());
    assert!(ContentStore::new("uploads", 1024).is_none());
    assert!(ContentStore::new("/", 1024).is_none());
    assert!(ContentStore::new("", 1024).is_none());
    assert!(ContentStore::new("/uploads/", 1024).is_none());
    assert!(ContentStore::new("/up//loads", 1024).is_none());
    assert!(ContentStore::new("/up/./loads", 1024).is_none());
    assert!(ContentStore::new("/up/../loads", 1024).is_none());
    assert!(ContentStore::new("/var/www/uploads", 1024).is_some());
}

#[test]
fn ingest_then_commit_stores_one_record() {
    let store = &mut ContentStore::new("/uploads", 1024).unwrap();
    let disk = &mut DiskModel::new();
    let data = payload(100);
    let events = whole_stream(&data);

    let mut handle = store.ingest(disk, &events, &SIG.to_vec()).unwrap();
    assert!(handle.get_id().is_none());
    assert_eq!(handle.get_hash().len(), 32);
    assert_eq!(store.count_records(), 0);
    assert_eq!(disk.count(), 1);

    let id = store.commit(disk, &mut handle);
    assert_eq!(handle.get_id(), Some(id));
    assert_eq!(store.count_records(), 1);
    assert_eq!(disk.count(), 1);

    let fetched = store.fetch_by_name(disk, handle.get_name()).unwrap();
    assert_eq!(fetched, data);
    let by_id = store.fetch_by_id(disk, id).unwrap();
    assert_eq!(by_id, data);
}

#[test]
fn dedup_idempotence_two_ingests_one_record() {
    let store = &mut ContentStore::new("/uploads", 1024).unwrap();
    let disk = &mut DiskModel::new();
    let data = payload(5000);
    let events = whole_stream(&data);
    let sig = SIG.to_vec();

    let mut first = store.ingest(disk, &events, &sig).unwrap();
    let id1 = store.commit(disk, &mut first);

    let second = store.ingest(disk, &events, &sig).unwrap();
    // The digest is already indexed, so the second handle comes back already
    // committed, pointing at the existing record, and nothing new is stored.
    assert_eq!(second.get_id(), Some(id1));
    assert_eq!(second.get_hash(), first.get_hash());
    assert_eq!(second.get_name(), first.get_name());
    assert_eq!(store.count_records(), 1);
    assert_eq!(disk.count(), 1);

    let mut second = second;
    let id2 = store.commit(disk, &mut second);
    assert_eq!(id2, id1);
    assert_eq!(store.count_records(), 1);
}

#[test]
fn racing_pending_handles_resolve_to_one_record() {
    let store = &mut ContentStore::new("/uploads", 1024).unwrap();
    let disk = &mut DiskModel::new();
    let data = payload(300);
    let events = whole_stream(&data);
    let sig = SIG.to_vec();

    let mut a = store.ingest(disk, &events, &sig).unwrap();
    let mut b = store.ingest(disk, &events, &sig).unwrap();
    assert!(a.get_id().is_none());
    assert!(b.get_id().is_none());
    assert_ne!(a.get_name(), b.get_name());
    assert_eq!(disk.count(), 2);

    let id_a = store.commit(disk, &mut a);
    let b_temp_name = b.get_name().to_string();
    let id_b = store.commit(disk, &mut b);

    // The later commit adopts the existing record; its own temporary file is
    // removed, the winner's file stays.
    assert_eq!(id_b, id_a);
    assert_eq!(b.get_name(), a.get_name());
    assert_eq!(store.count_records(), 1);
    assert_eq!(disk.count(), 1);
    assert!(matches!(
        store.fetch_by_name(disk, &b_temp_name),
        Err(FetchError::FileNotFound)
    ));
    assert!(store.fetch_by_name(disk, a.get_name()).is_ok());
}

#[test]
fn commit_idempotence_same_handle_twice() {
    let store = &mut ContentStore::new("/uploads", 1024).unwrap();
    let disk = &mut DiskModel::new();
    let events = whole_stream(&payload(64));

    let mut handle = store.ingest(disk, &events, &SIG.to_vec()).unwrap();
    let id1 = store.commit(disk, &mut handle);
    let name_after_first = handle.get_name().to_string();
    let id2 = store.commit(disk, &mut handle);
    assert_eq!(id1, id2);
    assert_eq!(handle.get_id(), Some(id1));
    assert_eq!(handle.get_name(), name_after_first);
    assert_eq!(store.count_records(), 1);
    assert_eq!(disk.count(), 1);
}

#[test]
fn format_gate_rejects_wrong_signature() {
    let store = &mut ContentStore::new("/uploads", 1024).unwrap();
    let disk = &mut DiskModel::new();
    let mut data = payload(100);
    data[2] ^= 0xff;
    let events = whole_stream(&data);

    let r = store.ingest(disk, &events, &SIG.to_vec());
    assert!(matches!(r, Err(IngestError::NotValidFormat)));
    assert_eq!(disk.count(), 0);
    assert_eq!(store.count_records(), 0);
}

#[test]
fn format_gate_rejects_stream_shorter_than_signature() {
    let store = &mut ContentStore::new("/uploads", 1024).unwrap();
    let disk = &mut DiskModel::new();
    let events = vec![StreamEvent::Chunk(vec![1, 2]), StreamEvent::End];
    let r = store.ingest(disk, &events, &SIG.to_vec());
    assert!(matches!(r, Err(IngestError::NotValidFormat)));
    assert_eq!(disk.count(), 0);

    let empty = vec![StreamEvent::End];
    let r = store.ingest(disk, &empty, &SIG.to_vec());
    assert!(matches!(r, Err(IngestError::NotValidFormat)));
}

#[test]
fn format_gate_rejects_mismatch_across_chunks() {
    let store = &mut ContentStore::new("/uploads", 1024).unwrap();
    let disk = &mut DiskModel::new();
    // Signature arrives split over two chunks, and the second chunk breaks it.
    let events = vec![
        StreamEvent::Chunk(vec![1, 2]),
        StreamEvent::Chunk(vec![3, 9, 5, 6]),
        StreamEvent::End,
    ];
    let r = store.ingest(disk, &events, &SIG.to_vec());
    assert!(matches!(r, Err(IngestError::NotValidFormat)));
    assert_eq!(disk.count(), 0);
}

#[test]
fn signature_split_across_chunks_is_accepted() {
    let store = &mut ContentStore::new("/uploads", 1024).unwrap();
    let disk = &mut DiskModel::new();
    let data = payload(40);
    let events = events_of(&data, &[2, 3, 30, 5]);
    let whole = whole_stream(&data);

    let h1 = store.ingest(disk, &events, &SIG.to_vec()).unwrap();
    let h2 = store.ingest(disk, &whole, &SIG.to_vec()).unwrap();
    // Chunking must not change the digest.
    assert_eq!(h1.get_hash(), h2.get_hash());
}

#[test]
fn upstream_read_error_aborts_cleanly() {
    let store = &mut ContentStore::new("/uploads", 1024).unwrap();
    let disk = &mut DiskModel::new();
    let data = payload(100);
    let events = vec![
        StreamEvent::Chunk(data.clone()),
        StreamEvent::ReadError,
    ];
    let r = store.ingest(disk, &events, &SIG.to_vec());
    assert!(matches!(r, Err(IngestError::UpstreamReadError)));
    assert_eq!(disk.count(), 0);
    assert_eq!(store.count_records(), 0);

    // A read failure before the signature is complete is still an upstream
    // failure, not a format verdict.
    let early = vec![StreamEvent::Chunk(vec![1]), StreamEvent::ReadError];
    let r = store.ingest(disk, &early, &SIG.to_vec());
    assert!(matches!(r, Err(IngestError::UpstreamReadError)));
}

#[test]
fn colliding_temp_name_is_an_io_error() {
    let store = &mut ContentStore::new("/uploads", 1024).unwrap();
    let disk = &mut DiskModel::new();
    let taken = CanonPath::parse_abs("/uploads/taken").unwrap();
    disk.write(&taken, vec![9, 9, 9]);

    let events = whole_stream(&payload(32));
    let r = store.ingest_with_name(disk, &events, &SIG.to_vec(), "taken".to_string());
    assert!(matches!(r, Err(IngestError::IoError)));
    // The existing file is untouched.
    assert_eq!(disk.read(&taken), Some(&vec![9u8, 9, 9]));
}

#[test]
fn cleanup_discarded_pending_handle_leaves_no_file() {
    let store = &mut ContentStore::new("/uploads", 1024).unwrap();
    let disk = &mut DiskModel::new();
    let events = whole_stream(&payload(128));

    let handle = store.ingest(disk, &events, &SIG.to_vec()).unwrap();
    let temp_name = handle.get_name().to_string();
    assert_eq!(disk.count(), 1);

    store.discard(disk, handle);
    assert_eq!(disk.count(), 0);
    assert!(matches!(
        store.fetch_by_name(disk, &temp_name),
        Err(FetchError::FileNotFound)
    ));
    assert_eq!(store.count_records(), 0);
}

#[test]
fn discard_of_committed_handle_keeps_the_file() {
    let store = &mut ContentStore::new("/uploads", 1024).unwrap();
    let disk = &mut DiskModel::new();
    let events = whole_stream(&payload(128));

    let mut handle = store.ingest(disk, &events, &SIG.to_vec()).unwrap();
    let id = store.commit(disk, &mut handle);
    let name = handle.get_name().to_string();
    store.discard(disk, handle);
    assert_eq!(disk.count(), 1);
    assert!(store.fetch_by_id(disk, id).is_ok());
    assert!(store.fetch_by_name(disk, &name).is_ok());
}

#[test]
fn fetch_by_id_of_unknown_identity_is_not_found() {
    let store = &mut ContentStore::new("/uploads", 1024).unwrap();
    let disk = &mut DiskModel::new();
    assert!(matches!(
        store.fetch_by_id(disk, 7),
        Err(FetchError::FileNotFound)
    ));
}

#[test]
fn error_messages_are_stable() {
    assert_eq!(
        IngestError::NotValidFormat.message(),
        "file does not begin with the required signature"
    );
    assert_eq!(FetchError::FileNotFound.message(), "file not found");
    assert_eq!(
        FetchError::PathNotInAllowedDirectory.message(),
        "path is not in allowed directory"
    );
}
