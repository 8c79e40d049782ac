use gchdb::ChatRecordError;
use gchdb::ContentIndexer;
use gchdb::Query;
use gchdb::Record;
use gchdb::RecordType;
use gchdb::contains_chars;
use gchdb::like_match;

fn chars(s: &str) -> Vec<char> {
    s.chars().collect()
}

#[test]
fn like_percent_matches_any_run() {
    assert!(like_match("%日报", "人民日报"));
    assert!(!like_match("%日报", "日报社"));
    assert!(like_match("%%", ""));
    assert!(like_match("%%", "anything at all"));
    assert!(like_match("%", ""));
    assert!(like_match("a%c", "abbbc"));
    assert!(like_match("a%c", "ac"));
    assert!(!like_match("a%c", "ab"));
}

#[test]
fn like_underscore_matches_one_character() {
    assert!(like_match("_bc", "abc"));
    assert!(!like_match("_bc", "bbcd"));
    assert!(!like_match("_bc", "bc"));
    assert!(like_match("中_报", "中日报"));
}

#[test]
fn like_empty_pattern_matches_only_empty() {
    assert!(like_match("", ""));
    assert!(!like_match("", "a"));
    assert!(!like_match("abc", "abcd"));
    assert!(like_match("abc", "abc"));
}

#[test]
fn contains_finds_substrings() {
    assert!(contains_chars(&chars("技术学校生活"), &chars("技术学校")));
    assert!(contains_chars(&chars("abc"), &chars("")));
    assert!(!contains_chars(&chars("abc"), &chars("abcd")));
    assert!(contains_chars(&chars("abc"), &chars("bc")));
    assert!(!contains_chars(&chars("abc"), &chars("ca")));
}

#[test]
fn query_defaults_are_match_all() {
    let q = Query::new();
    assert_eq!(q.get_chat_type(), "%%");
    assert_eq!(q.get_owner_id(), "%%");
    assert_eq!(q.get_group_id(), "%%");
    assert_eq!(q.get_sender_id(), "%%");
    assert_eq!(q.get_sender_name(), "%%");
    assert_eq!(q.get_offset(), 0);
    assert_eq!(q.get_limit(), 50);
}

#[test]
fn query_getters_clamp_and_convert() {
    let mut q = Query::new();
    q.offset = Some(u64::MAX);
    q.limit = Some(3);
    assert_eq!(q.get_offset(), i64::MAX);
    assert_eq!(q.get_limit(), 3);
}

#[test]
fn record_display_formats_sender_and_content() {
    let r = Record {
        id: None,
        chat_type: "c".to_string(),
        owner_id: "o".to_string(),
        group_id: "g".to_string(),
        sender_id: "people_daily".to_string(),
        sender_name: "人民日报".to_string(),
        content: "hello".to_string(),
        timestamp: 0,
        metadata: None,
    };
    assert_eq!(r.display(), "人民日报 (people_daily): hello");
    assert_eq!(RecordType::Record(r).display(), "人民日报 (people_daily): hello");
    assert_eq!(RecordType::Id(3).display(), "[no content]");
}

#[test]
fn error_messages_name_the_class() {
    assert_eq!(ChatRecordError::NotFound.message(), "not found");
    assert_eq!(ChatRecordError::QueryParse.message(), "malformed keyword query");
    assert_eq!(ChatRecordError::Storage.message(), "storage constraint violated");
}

#[test]
fn indexer_searches_ranked_and_paginated() {
    let mut ix = ContentIndexer::new();
    let mut recs: Vec<Record> = Vec::new();
    for i in 0..5i64 {
        recs.push(Record {
            id: Some((i + 1) as i32),
            chat_type: "c".to_string(),
            owner_id: "o".to_string(),
            group_id: "g".to_string(),
            sender_id: format!("s{}", i),
            sender_name: "n".to_string(),
            content: format!("needle {}", i),
            timestamp: 100 + i,
            metadata: None,
        });
    }
    ix.gen_index(&recs);
    // Ranked most-recent-first: ids 5,4,3,2,1.
    assert_eq!(ix.search(0, 50, "needle").unwrap(), vec![5, 4, 3, 2, 1]);
    // Server-side pagination: skip two, take two.
    assert_eq!(ix.search(2, 2, "needle").unwrap(), vec![3, 2]);
    // Offset past the end yields an empty page.
    assert_eq!(ix.search(9, 3, "needle").unwrap(), Vec::<i32>::new());
    // Unmatched keyword yields nothing.
    assert_eq!(ix.search(0, 50, "missing").unwrap(), Vec::<i32>::new());
    // An empty keyword is malformed.
    assert_eq!(ix.search(0, 50, "").unwrap_err(), ChatRecordError::QueryParse);
    // A rebuild after cleanup reflects only what was fed back in.
    ix.cleanup_index();
    assert_eq!(ix.search(0, 50, "needle").unwrap(), Vec::<i32>::new());
}
