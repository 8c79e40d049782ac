use gchdb::Attachment;
use gchdb::Blob;
use gchdb::ChatRecordError;
use gchdb::Record;
use gchdb::RecordType;
use gchdb::Store;

fn record(sender_id: &str, content: &str, timestamp: i64) -> Record {
    Record {
        id: None,
        chat_type: "chat".to_string(),
        owner_id: "owner".to_string(),
        group_id: "group".to_string(),
        sender_id: sender_id.to_string(),
        sender_name: sender_id.to_string(),
        content: content.to_string(),
        timestamp,
        metadata: None,
    }
}

#[test]
fn blob_hash_is_deterministic() {
    let a = Blob::new(vec![1, 2, 3]);
    let b = Blob::new(vec![1, 2, 3]);
    let c = Blob::new(vec![1, 2, 4]);
    assert_eq!(a.hash, b.hash);
    assert_ne!(a.hash, c.hash);
    assert_eq!(a.blob, vec![1, 2, 3]);
}

#[test]
fn blob_dedup_is_idempotent() {
    let mut store = Store::new();
    let a = Blob::new(vec![1, 2, 3]);
    let b = Blob::new(vec![1, 2, 3]);
    assert_eq!(a.hash, b.hash);
    assert_eq!(store.insert_blob(&a).unwrap(), true);
    assert_eq!(store.insert_blob(&b).unwrap(), true);
    assert_eq!(store.get_blob(a.hash).unwrap(), vec![1, 2, 3]);
    // Exactly one stored row: the first removal deletes it, the second
    // finds nothing.
    assert_eq!(store.remove_blob(a.hash).unwrap(), 1);
    assert_eq!(store.remove_blob(a.hash).unwrap(), 0);
    assert_eq!(store.get_blob(a.hash).unwrap_err(), ChatRecordError::NotFound);
}

#[test]
fn attachment_cascade_leaves_blobs() {
    let mut store = Store::new();
    let rec = record("alice", "hello", 100);
    assert!(store
        .insert_or_update_record(&rec, |_old: Vec<u8>, new: Vec<u8>| Some(new))
        .unwrap());
    let rid = store.get_record_id(&rec).unwrap();
    assert!(rid > 0);
    let payload = vec![7, 7, 7];
    let hash = Blob::new(payload.clone()).hash;
    assert!(store
        .insert_or_update_attach(payload.clone(), "photo".to_string(), rid)
        .unwrap());
    assert_eq!(store.get_attachs(rid).len(), 1);
    assert_eq!(store.get_attachs(rid)[0].hash, hash);
    assert_eq!(store.remove_record(&rec).unwrap(), 1);
    assert_eq!(store.remove_attachs(rid).unwrap(), true);
    assert_eq!(store.get_attachs(rid).len(), 0);
    assert_eq!(store.get_blob(hash).unwrap(), payload);
}

#[test]
fn attach_upsert_replaces_hash() {
    let mut store = Store::new();
    let rec = record("alice", "hello", 100);
    assert!(store
        .insert_or_update_record(&rec, |_old: Vec<u8>, new: Vec<u8>| Some(new))
        .unwrap());
    let rid = store.get_record_id(&rec).unwrap();
    let first = vec![1, 1];
    let second = vec![2, 2];
    assert!(store
        .insert_or_update_attach(first.clone(), "photo".to_string(), rid)
        .unwrap());
    assert!(store
        .insert_or_update_attach(second.clone(), "photo".to_string(), rid)
        .unwrap());
    let attachs = store.get_attachs(rid);
    assert_eq!(attachs.len(), 1);
    assert_eq!(attachs[0].hash, Blob::new(second.clone()).hash);
    // Both blobs stay: content-addressed rows are never garbage-collected.
    assert_eq!(store.get_blob(Blob::new(first).hash).unwrap(), vec![1, 1]);
    assert_eq!(store.get_blob(Blob::new(second).hash).unwrap(), vec![2, 2]);
}

#[test]
fn upsert_then_update_in_place() {
    let mut store = Store::new();
    let rec = record("alice", "hello", 100);
    let mut newer = rec.clone();
    newer.sender_name = "Alice Prime".to_string();
    newer.content = "bye".to_string();
    assert!(store
        .insert_or_update_record(&rec, |_old: Vec<u8>, new: Vec<u8>| Some(new))
        .unwrap());
    assert!(store
        .insert_or_update_record(&newer, |_old: Vec<u8>, new: Vec<u8>| Some(new))
        .unwrap());
    let all = store.record_all();
    assert_eq!(all.len(), 1);
    assert_eq!(all[0].sender_name, "Alice Prime");
    assert_eq!(all[0].content, "bye");
    assert_eq!(all[0].get_id(), 1);
}

#[test]
fn remove_record_by_id_only_hits_that_row() {
    let mut store = Store::new();
    let a = record("alice", "one", 100);
    let b = record("bob", "two", 200);
    assert!(store
        .insert_or_update_record(&a, |_old: Vec<u8>, new: Vec<u8>| Some(new))
        .unwrap());
    assert!(store
        .insert_or_update_record(&b, |_old: Vec<u8>, new: Vec<u8>| Some(new))
        .unwrap());
    let ida = store.get_record_id(&a).unwrap();
    assert_eq!(store.remove_record_by_id(ida).unwrap(), 1);
    assert_eq!(store.remove_record_by_id(ida).unwrap(), 0);
    let all = store.record_all();
    assert_eq!(all.len(), 1);
    assert_eq!(all[0].sender_id, "bob");
}

#[test]
fn get_record_id_unmatched_is_zero() {
    let store = Store::new();
    let rec = record("alice", "hello", 100);
    assert_eq!(store.get_record_id(&rec).unwrap(), 0);
}

#[test]
fn remove_attach_hits_by_key() {
    let mut store = Store::new();
    let rec = record("alice", "hello", 100);
    assert!(store
        .insert_or_update_record(&rec, |_old: Vec<u8>, new: Vec<u8>| Some(new))
        .unwrap());
    let rid = store.get_record_id(&rec).unwrap();
    assert!(store
        .insert_or_update_attach(vec![1], "a".to_string(), rid)
        .unwrap());
    assert!(store
        .insert_or_update_attach(vec![2], "b".to_string(), rid)
        .unwrap());
    assert_eq!(store.get_attachs(rid).len(), 2);
    let key = Attachment::new(0, "a".to_string(), &RecordType::Id(rid));
    assert_eq!(store.remove_attach(&key).unwrap(), 1);
    assert_eq!(store.remove_attach(&key).unwrap(), 0);
    let left = store.get_attachs(rid);
    assert_eq!(left.len(), 1);
    assert_eq!(left[0].name, "b");
}

#[test]
fn record_type_conversions() {
    let rt: RecordType = 5i32.into();
    assert!(matches!(rt, RecordType::Id(5)));
    let rec = record("alice", "hello", 100);
    let rt2: RecordType = rec.clone().into();
    assert!(matches!(rt2, RecordType::Record(_)));
    assert_eq!(rt2.get_record().unwrap().sender_id, "alice");
    let rt3: RecordType = (rec, vec![("n".to_string(), vec![1u8])]).into();
    assert!(matches!(rt3, RecordType::RecordWithAttaches { .. }));
    let at: gchdb::AttachType = 3i32.into();
    assert!(matches!(at, gchdb::AttachType::Id(3)));
    let a = Attachment::new(9, "x".to_string(), &RecordType::Id(1));
    let at2: gchdb::AttachType = a.into();
    assert!(matches!(at2, gchdb::AttachType::Attach(_)));
}

#[test]
fn attachment_new_resolves_record_id() {
    let by_id = Attachment::new(99, "a".to_string(), &RecordType::Id(5));
    assert_eq!(by_id.record_id, 5);
    assert_eq!(by_id.get_id(), 0);
    assert_eq!(by_id.name, "a");
    assert_eq!(by_id.hash, 99);
    let mut rec = record("alice", "hello", 100);
    rec.id = Some(8);
    let by_rec = Attachment::new(1, "b".to_string(), &RecordType::Record(rec));
    assert_eq!(by_rec.record_id, 8);
}
