use gchdb::ChatRecordError;
use gchdb::Query;
use gchdb::Record;
use gchdb::RecordType;
use gchdb::Recorder;

fn record(
    chat_type: &str,
    owner_id: &str,
    group_id: &str,
    sender_id: &str,
    sender_name: &str,
    content: &str,
    timestamp: i64,
) -> Record {
    Record {
        id: None,
        chat_type: chat_type.to_string(),
        owner_id: owner_id.to_string(),
        group_id: group_id.to_string(),
        sender_id: sender_id.to_string(),
        sender_name: sender_name.to_string(),
        content: content.to_string(),
        timestamp,
        metadata: None,
    }
}

fn query() -> Query {
    Query::new()
}

#[test]
fn test_chat_record() {
    let mut recorder = Recorder::new();
    let rec = record(
        "testaasdavxz",
        "asdasdasdaaaa",
        "asdasdasd",
        "people_daily",
        "人民日报",
        "张华考上了北京大学；李萍进了中等技术学校；我在百货公司当售货员：我们都有光明的前途",
        chrono::Local::now().timestamp_millis(),
    );
    assert_eq!(
        recorder
            .insert_or_update_record(RecordType::Record(rec.clone()))
            .unwrap(),
        true
    );
    let rec1 = record(
        "testaasdavxz",
        "asdasdasdaaaa",
        "asdasdasd",
        "news",
        "新闻",
        "Intel线路图显示他们想恢复两年升级一次工艺，2029年有1.4nm",
        chrono::Local::now().timestamp_millis(),
    );
    assert_eq!(
        recorder
            .insert_or_update_record(RecordType::RecordWithAttaches {
                record: rec1.clone(),
                attaches: vec![("test".to_string(), vec![0, 1, 2, 3])],
            })
            .unwrap(),
        true
    );
    recorder.refresh_index();
    let mut q = query();
    q.chat_type = Some("testaasdavxz".to_string());
    q.sender_name = Some("%日报".to_string());
    println!("{:?}", recorder.get_record(&q).unwrap());
    let mut q2 = query();
    q2.keyword = Some("技术学校".to_string());
    println!("{:?}", recorder.get_record(&q2).unwrap());
    assert_eq!(
        recorder.remove_record(RecordType::Record(rec.clone())).unwrap(),
        true
    );
}

#[test]
fn upsert_identity_keeps_one_row() {
    let mut recorder = Recorder::new();
    let first = record("group", "me", "g1", "alice", "Alice", "hello", 100);
    let mut second = first.clone();
    second.sender_name = "Alicia".to_string();
    second.content = "goodbye".to_string();
    assert_eq!(
        recorder
            .insert_or_update_record(RecordType::Record(first.clone()))
            .unwrap(),
        true
    );
    assert_eq!(
        recorder
            .insert_or_update_record(RecordType::Record(second.clone()))
            .unwrap(),
        true
    );
    let mut q = query();
    q.chat_type = Some("group".to_string());
    q.before = Some(1000);
    let found = recorder.get_record_at(&q, 2000).unwrap();
    assert_eq!(found.len(), 1);
    assert_eq!(found[0].sender_name, "Alicia");
    assert_eq!(found[0].content, "goodbye");
    assert_eq!(found[0].timestamp, 100);
}

#[test]
fn default_merge_takes_new_metadata() {
    let mut recorder = Recorder::new();
    let mut first = record("group", "me", "g1", "alice", "Alice", "hello", 100);
    first.metadata = Some(vec![1, 1, 1]);
    let mut second = first.clone();
    second.metadata = Some(vec![2, 2, 2]);
    assert!(recorder
        .insert_or_update_record(RecordType::Record(first.clone()))
        .unwrap());
    assert!(recorder
        .insert_or_update_record(RecordType::Record(second.clone()))
        .unwrap());
    let mut q = query();
    q.before = Some(1000);
    let found = recorder.get_record_at(&q, 2000).unwrap();
    assert_eq!(found.len(), 1);
    assert_eq!(found[0].metadata, Some(vec![2, 2, 2]));
}

#[test]
fn absent_metadata_keeps_old_value() {
    let mut recorder = Recorder::new();
    let mut first = record("group", "me", "g1", "alice", "Alice", "hello", 100);
    first.metadata = Some(vec![1, 1, 1]);
    let mut second = first.clone();
    second.metadata = None;
    second.content = "changed".to_string();
    assert!(recorder
        .insert_or_update_record(RecordType::Record(first.clone()))
        .unwrap());
    assert!(recorder
        .insert_or_update_record(RecordType::Record(second.clone()))
        .unwrap());
    let mut q = query();
    q.before = Some(1000);
    let found = recorder.get_record_at(&q, 2000).unwrap();
    assert_eq!(found.len(), 1);
    assert_eq!(found[0].metadata, Some(vec![1, 1, 1]));
    assert_eq!(found[0].content, "changed");
}

#[test]
fn custom_merger_keeps_old_metadata() {
    let mut recorder = Recorder::new();
    let mut first = record("group", "me", "g1", "alice", "Alice", "hello", 100);
    first.metadata = Some(vec![1, 1, 1]);
    let mut second = first.clone();
    second.metadata = Some(vec![2, 2, 2]);
    assert!(recorder
        .insert_or_update_record(RecordType::Record(first.clone()))
        .unwrap());
    assert!(recorder
        .insert_or_update_record_with(RecordType::Record(second.clone()), |old, _new| Some(old))
        .unwrap());
    let mut q = query();
    q.before = Some(1000);
    let found = recorder.get_record_at(&q, 2000).unwrap();
    assert_eq!(found.len(), 1);
    assert_eq!(found[0].metadata, Some(vec![1, 1, 1]));
}

#[test]
fn bare_id_upsert_always_fails() {
    let mut recorder = Recorder::new();
    assert_eq!(recorder.insert_or_update_record(RecordType::Id(7)).unwrap(), false);
}

#[test]
fn removal_keeps_blob_rows() {
    let mut recorder = Recorder::new();
    let rec = record("group", "me", "g1", "alice", "Alice", "hello", 100);
    let payload = vec![9, 9, 9, 9];
    let hash = gchdb::Blob::new(payload.clone()).hash;
    assert!(recorder
        .insert_or_update_record(RecordType::RecordWithAttaches {
            record: rec.clone(),
            attaches: vec![("photo".to_string(), payload.clone())],
        })
        .unwrap());
    assert_eq!(recorder.get_blob(hash).unwrap(), payload);
    assert_eq!(
        recorder.remove_record(RecordType::Record(rec.clone())).unwrap(),
        true
    );
    let mut q = query();
    q.before = Some(1000);
    assert_eq!(recorder.get_record_at(&q, 2000).unwrap().len(), 0);
    assert_eq!(recorder.get_blob(hash).unwrap(), payload);
}

#[test]
fn removal_by_id_cascades() {
    let mut recorder = Recorder::new();
    let rec = record("group", "me", "g1", "alice", "Alice", "hello", 100);
    assert!(recorder
        .insert_or_update_record(RecordType::RecordWithAttaches {
            record: rec.clone(),
            attaches: vec![("photo".to_string(), vec![1, 2, 3])],
        })
        .unwrap());
    let mut q = query();
    q.before = Some(1000);
    let found = recorder.get_record_at(&q, 2000).unwrap();
    assert_eq!(found.len(), 1);
    let id = found[0].get_id();
    assert!(id > 0);
    assert_eq!(recorder.remove_record(RecordType::Id(id)).unwrap(), true);
    assert_eq!(recorder.get_record_at(&q, 2000).unwrap().len(), 0);
    assert_eq!(recorder.remove_record(RecordType::Id(id)).unwrap(), false);
}

#[test]
fn remove_missing_record_reports_false() {
    let mut recorder = Recorder::new();
    let rec = record("group", "me", "g1", "alice", "Alice", "hello", 100);
    assert_eq!(recorder.remove_record(RecordType::Record(rec)).unwrap(), false);
}

#[test]
fn search_round_trip_finds_unique_content() {
    let mut recorder = Recorder::new();
    let recs = vec![
        record("c", "o", "g", "s1", "A", "the quick brown fox", 10),
        record("c", "o", "g", "s2", "B", "jumps over the lazy dog", 20),
        record("c", "o", "g", "s3", "C", "pack my box with jugs", 30),
    ];
    for r in &recs {
        assert!(recorder
            .insert_or_update_record(RecordType::Record(r.clone()))
            .unwrap());
    }
    recorder.refresh_index();
    let mut q = query();
    q.keyword = Some("lazy dog".to_string());
    q.before = Some(1000);
    let found = recorder.get_record_at(&q, 2000).unwrap();
    assert_eq!(found.len(), 1);
    assert_eq!(found[0].sender_id, "s2");
    let mut q2 = query();
    q2.keyword = Some("unrelated words".to_string());
    q2.before = Some(1000);
    assert_eq!(recorder.get_record_at(&q2, 2000).unwrap().len(), 0);
}

#[test]
fn stale_index_misses_new_writes_until_refresh() {
    let mut recorder = Recorder::new();
    let rec = record("c", "o", "g", "s1", "A", "searchable text", 10);
    assert!(recorder
        .insert_or_update_record(RecordType::Record(rec.clone()))
        .unwrap());
    let mut q = query();
    q.keyword = Some("searchable".to_string());
    q.before = Some(1000);
    assert_eq!(recorder.get_record_at(&q, 2000).unwrap().len(), 0);
    recorder.refresh_index();
    assert_eq!(recorder.get_record_at(&q, 2000).unwrap().len(), 1);
}

#[test]
fn keyword_pagination_is_deterministic() {
    let mut recorder = Recorder::new();
    for i in 0..10i64 {
        let r = record(
            "c",
            "o",
            "g",
            &format!("s{}", i),
            "A",
            &format!("shared needle number {}", i),
            100 + i,
        );
        assert!(recorder.insert_or_update_record(RecordType::Record(r)).unwrap());
    }
    recorder.refresh_index();
    let full = {
        let mut q = query();
        q.keyword = Some("shared needle".to_string());
        q.before = Some(1000);
        q.limit = Some(50);
        recorder.get_record_at(&q, 2000).unwrap()
    };
    assert_eq!(full.len(), 10);
    // Ranked most-recent-first over distinct timestamps.
    for w in full.windows(2) {
        assert!(w[0].timestamp > w[1].timestamp);
    }
    // limit=3 offset=3 yields ranks 4-6.
    let mut q = query();
    q.keyword = Some("shared needle".to_string());
    q.before = Some(1000);
    q.limit = Some(3);
    q.offset = Some(3);
    let pageb = recorder.get_record_at(&q, 2000).unwrap();
    assert_eq!(pageb.len(), 3);
    assert_eq!(pageb[0].timestamp, full[3].timestamp);
    assert_eq!(pageb[2].timestamp, full[5].timestamp);
    // Concatenating pages 0,3,6,9 reproduces the full ranked ordering.
    let mut glued: Vec<Record> = Vec::new();
    for off in [0u64, 3, 6, 9] {
        let mut qq = query();
        qq.keyword = Some("shared needle".to_string());
        qq.before = Some(1000);
        qq.limit = Some(3);
        qq.offset = Some(off);
        glued.extend(recorder.get_record_at(&qq, 2000).unwrap());
    }
    assert_eq!(glued.len(), 10);
    for (a, b) in glued.iter().zip(full.iter()) {
        assert_eq!(a.sender_id, b.sender_id);
        assert_eq!(a.timestamp, b.timestamp);
    }
}

#[test]
fn stale_index_ids_of_removed_records_are_skipped() {
    let mut recorder = Recorder::new();
    let a = record("c", "o", "g", "s1", "A", "needle one", 10);
    let b = record("c", "o", "g", "s2", "B", "needle two", 20);
    assert!(recorder.insert_or_update_record(RecordType::Record(a.clone())).unwrap());
    assert!(recorder.insert_or_update_record(RecordType::Record(b.clone())).unwrap());
    recorder.refresh_index();
    assert!(recorder.remove_record(RecordType::Record(a)).unwrap());
    let mut q = query();
    q.keyword = Some("needle".to_string());
    q.before = Some(1000);
    let found = recorder.get_record_at(&q, 2000).unwrap();
    assert_eq!(found.len(), 1);
    assert_eq!(found[0].sender_id, "s2");
}

#[test]
fn structured_pagination_is_deterministic() {
    let mut recorder = Recorder::new();
    for i in 0..10i64 {
        let r = record("c", "o", "g", &format!("s{}", i), "A", "x", 100 + i);
        assert!(recorder.insert_or_update_record(RecordType::Record(r)).unwrap());
    }
    let full = {
        let mut q = query();
        q.before = Some(1000);
        recorder.get_record_at(&q, 2000).unwrap()
    };
    assert_eq!(full.len(), 10);
    // Table order: insertion order.
    for w in full.windows(2) {
        assert!(w[0].timestamp < w[1].timestamp);
    }
    let mut glued: Vec<Record> = Vec::new();
    for off in [0u64, 3, 6, 9] {
        let mut q = query();
        q.before = Some(1000);
        q.offset = Some(off);
        q.limit = Some(3);
        glued.extend(recorder.get_record_at(&q, 2000).unwrap());
    }
    assert_eq!(glued.len(), 10);
    for (x, y) in glued.iter().zip(full.iter()) {
        assert_eq!(x.sender_id, y.sender_id);
    }
}

#[test]
fn structured_filter_selects_by_pattern() {
    let mut recorder = Recorder::new();
    let a = record("group", "o", "g", "s1", "新闻", "first", 10);
    let b = record("group", "o", "g", "s2", "日报", "second", 20);
    assert!(recorder.insert_or_update_record(RecordType::Record(a)).unwrap());
    assert!(recorder.insert_or_update_record(RecordType::Record(b)).unwrap());
    let mut q = query();
    q.chat_type = Some("group".to_string());
    q.sender_name = Some("%日报".to_string());
    q.before = Some(1000);
    let found = recorder.get_record_at(&q, 2000).unwrap();
    assert_eq!(found.len(), 1);
    assert_eq!(found[0].sender_name, "日报");
    assert_eq!(found[0].content, "second");
}

#[test]
fn time_window_is_half_open() {
    let mut recorder = Recorder::new();
    let rec = record("c", "o", "g", "s", "A", "x", 100);
    assert!(recorder.insert_or_update_record(RecordType::Record(rec)).unwrap());
    let mut q = query();
    q.after = Some(100);
    q.before = Some(101);
    assert_eq!(recorder.get_record_at(&q, 2000).unwrap().len(), 1);
    let mut q2 = query();
    q2.after = Some(0);
    q2.before = Some(100);
    assert_eq!(recorder.get_record_at(&q2, 2000).unwrap().len(), 0);
    let mut q3 = query();
    q3.after = Some(101);
    q3.before = Some(200);
    assert_eq!(recorder.get_record_at(&q3, 2000).unwrap().len(), 0);
}

#[test]
fn empty_keyword_is_a_parse_error() {
    let mut recorder = Recorder::new();
    recorder.refresh_index();
    let mut q = query();
    q.keyword = Some(String::new());
    assert_eq!(
        recorder.get_record_at(&q, 2000).unwrap_err(),
        ChatRecordError::QueryParse
    );
}

#[test]
fn missing_blob_is_not_found() {
    let recorder = Recorder::new();
    assert_eq!(
        recorder.get_blob(123456789).unwrap_err(),
        ChatRecordError::NotFound
    );
}

#[test]
fn out_of_range_supplied_id_is_a_storage_error() {
    let mut recorder = Recorder::new();
    let mut rec = record("c", "o", "g", "s", "A", "x", 100);
    rec.id = Some(-5);
    assert_eq!(
        recorder
            .insert_or_update_record(RecordType::Record(rec))
            .unwrap_err(),
        ChatRecordError::Storage
    );
    let mut rec2 = record("c", "o", "g", "s", "A", "x", 100);
    rec2.id = Some(i32::MAX);
    assert_eq!(
        recorder
            .insert_or_update_record(RecordType::Record(rec2))
            .unwrap_err(),
        ChatRecordError::Storage
    );
}

#[test]
fn supplied_id_is_adopted_on_insert() {
    let mut recorder = Recorder::new();
    let mut rec = record("c", "o", "g", "s", "A", "x", 100);
    rec.id = Some(41);
    assert!(recorder.insert_or_update_record(RecordType::Record(rec)).unwrap());
    let mut q = query();
    q.before = Some(1000);
    let found = recorder.get_record_at(&q, 2000).unwrap();
    assert_eq!(found.len(), 1);
    assert_eq!(found[0].get_id(), 41);
    let later = record("c2", "o", "g", "s", "A", "y", 100);
    assert!(recorder.insert_or_update_record(RecordType::Record(later)).unwrap());
    let found2 = recorder.get_record_at(&q, 2000).unwrap();
    assert_eq!(found2.len(), 2);
    assert_eq!(found2[1].get_id(), 42);
}
