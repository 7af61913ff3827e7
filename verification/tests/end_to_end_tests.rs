use content_store::disk::DiskModel;
use content_store::store::{ContentStore, StreamEvent};

/// A hundred-kilobyte payload beginning with the 5-byte signature.
fn big_payload(sig: &[u8]) -> Vec<u8> {
    let mut data = sig.to_vec();
    while data.len() < 100 * 1024 {
        data.push((data.len() % 239) as u8);
    }
    data
}

#[test]
fn read_plan_covers_the_whole_stream() {
    let store = ContentStore::new("/uploads", 1024).unwrap();

    // 100 KiB after the 5 signature bytes leaves 102395 bytes: 99 full
    // buffers of 1024 and one final read of 1019.
    let plan = store.read_plan(100 * 1024, 5);
    assert_eq!(plan.len(), 101);
    assert_eq!(plan[0], 5);
    for i in 1..100 {
        assert_eq!(plan[i], 1024);
    }
    assert_eq!(plan[100], 1019);
    assert_eq!(plan.iter().sum::<usize>(), 100 * 1024);

    // A stream of exactly the signature takes a single read.
    assert_eq!(store.read_plan(5, 5), vec![5]);
    // An exact multiple ends on a full buffer.
    let plan = store.read_plan(5 + 2048, 5);
    assert_eq!(plan, vec![5, 1024, 1024]);
}

#[test]
fn hundred_kilobyte_ingest_end_to_end() {
    let sig: Vec<u8> = vec![0x89, b'I', b'M', b'G', 0x0d];
    let store = &mut ContentStore::new("/var/uploads", 1024).unwrap();
    let disk = &mut DiskModel::new();
    let data = big_payload(&sig);

    // Chunk the stream exactly as the configured reader would.
    let plan = store.read_plan(data.len(), sig.len());
    assert_eq!(plan.len(), 101);
    let mut events = Vec::new();
    let mut at = 0;
    for sz in plan {
        events.push(StreamEvent::Chunk(data[at..at + sz].to_vec()));
        at += sz;
    }
    assert_eq!(at, data.len());
    events.push(StreamEvent::End);

    let mut handle = store.ingest(disk, &events, &sig).unwrap();
    let digest = handle.get_hash().clone();
    assert_eq!(digest.len(), 32);
    let id = store.commit(disk, &mut handle);
    assert_eq!(store.count_records(), 1);

    // Re-ingesting the identical bytes adds no record and reports the same
    // digest and identity.
    let again = store.ingest(disk, &events, &sig).unwrap();
    assert_eq!(again.get_hash(), &digest);
    assert_eq!(again.get_id(), Some(id));
    assert_eq!(store.count_records(), 1);
    assert_eq!(disk.count(), 1);

    // The stored bytes round-trip unchanged.
    assert_eq!(store.fetch_by_id(disk, id).unwrap(), data);
}
