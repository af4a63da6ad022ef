//! Batch merging and chunking behaviour.

use cc_sync::batch::{FileBatcher, merge};
use cc_sync::chunk::{chunk_batch, chunk_string};
use cc_sync::structs::{DataSync, RequestType};
use rand::RngExt;

fn randstring(length: usize) -> String {
    rand::rng().sample_iter(&rand::distr::Alphanumeric).take(length).map(char::from).collect()
}

fn resource(path: &str, data: String) -> RequestType {
    RequestType::Resource {
        data: DataSync { file_path: path.to_string(), file_data: data },
    }
}

fn payload(r: &RequestType) -> usize {
    match r {
        RequestType::Resource { data } => data.file_data.chars().count(),
        RequestType::Library { data } => data.file_data.chars().count(),
        RequestType::Script { data } => data.file_data.chars().count(),
        RequestType::Deletion { files } => files.iter().map(|f| f.chars().count()).sum(),
        RequestType::Chunk { file_data } => file_data.chars().count(),
    }
}

#[test]
fn chunking() {
    let requests = vec![
        RequestType::Resource {
            data: DataSync { file_path: "hello/hi".to_string(), file_data: randstring(20) },
        },
        RequestType::Library {
            data: DataSync { file_path: "hello/hi2".to_string(), file_data: randstring(20) },
        },
        RequestType::Script {
            data: DataSync { file_path: "hello/hi3".to_string(), file_data: randstring(20) },
        },
    ];

    let chunked = chunk_batch(requests, 5);

    assert_eq!(chunked.len(), 12);
}

#[test]
fn merging() {
    let requests = vec![
        RequestType::Deletion { files: vec!["hello".to_string(), "hi".to_string()] },
        RequestType::Deletion { files: vec!["hello2".to_string(), "hi2".to_string()] },
        RequestType::Deletion { files: vec!["hello3".to_string(), "hi3".to_string()] },
    ];

    let merged = merge(requests);

    let expected = vec![RequestType::Deletion {
        files: vec![
            "hello".to_string(),
            "hi".to_string(),
            "hello2".to_string(),
            "hi2".to_string(),
            "hello3".to_string(),
            "hi3".to_string(),
        ],
    }];

    assert!(merged.iter().eq(expected.iter()), "merged is not equal to expected vec");
}

#[test]
fn merge_is_idempotent_on_mixed_batch() {
    let batch = vec![
        RequestType::Deletion { files: vec!["a".to_string()] },
        RequestType::Deletion { files: vec!["b".to_string()] },
        resource("r", "data".to_string()),
        RequestType::Deletion { files: vec!["c".to_string()] },
    ];
    let once = merge(batch);
    let again: Vec<RequestType> = once.iter().map(clone_record).collect();
    let twice = merge(again);
    assert!(once.iter().eq(twice.iter()));
    assert_eq!(once.len(), 3);
}

fn clone_record(r: &RequestType) -> RequestType {
    match r {
        RequestType::Resource { data } => RequestType::Resource {
            data: DataSync {
                file_path: data.file_path.clone(),
                file_data: data.file_data.clone(),
            },
        },
        RequestType::Library { data } => RequestType::Library {
            data: DataSync {
                file_path: data.file_path.clone(),
                file_data: data.file_data.clone(),
            },
        },
        RequestType::Script { data } => RequestType::Script {
            data: DataSync {
                file_path: data.file_path.clone(),
                file_data: data.file_data.clone(),
            },
        },
        RequestType::Deletion { files } => RequestType::Deletion { files: files.clone() },
        RequestType::Chunk { file_data } => RequestType::Chunk { file_data: file_data.clone() },
    }
}

#[test]
fn chunk_string_splits_on_character_boundaries() {
    let pieces = chunk_string("abcdefg", 3);
    assert_eq!(pieces, vec!["abc".to_string(), "def".to_string(), "g".to_string()]);
    let exact = chunk_string("abcdef", 3);
    assert_eq!(exact, vec!["abc".to_string(), "def".to_string()]);
    let empty = chunk_string("", 3);
    assert!(empty.is_empty());
    let multibyte = chunk_string("\u{e4}\u{f6}\u{fc}\u{df}", 2);
    assert_eq!(multibyte, vec!["\u{e4}\u{f6}".to_string(), "\u{fc}\u{df}".to_string()]);
}

#[test]
fn frames_stay_within_the_threshold() {
    let batch = vec![
        resource("a", randstring(12)),
        RequestType::Deletion {
            files: vec!["x".to_string(), "yy".to_string(), "zzz".to_string()],
        },
        resource("b", randstring(3)),
        resource("c", randstring(9)),
    ];
    let frames = chunk_batch(merge(batch), 5);
    for frame in &frames {
        let total: usize = frame.iter().map(payload).sum();
        assert!(total <= 5, "frame carries {total} payload characters");
    }
}

#[test]
fn chunked_payload_reassembles() {
    let data = randstring(23);
    let batch = vec![resource("file", data.clone())];
    let frames = chunk_batch(batch, 5);
    let mut reassembled = String::new();
    let mut seen_head = false;
    for frame in &frames {
        for record in frame {
            match record {
                RequestType::Resource { data } => {
                    assert!(!seen_head, "only one head record expected");
                    seen_head = true;
                    reassembled.push_str(&data.file_data);
                },
                RequestType::Chunk { file_data } => {
                    assert!(seen_head, "chunk before its head record");
                    reassembled.push_str(file_data);
                },
                _ => panic!("unexpected record kind"),
            }
        }
    }
    assert_eq!(reassembled, data);
}

#[test]
fn oversized_deletion_names_split_over_frames() {
    let batch = vec![RequestType::Deletion {
        files: vec!["aaa".to_string(), "bbb".to_string(), "ccc".to_string()],
    }];
    let frames = chunk_batch(batch, 4);
    for frame in &frames {
        let total: usize = frame.iter().map(payload).sum();
        assert!(total <= 4);
    }
    let names: Vec<String> = frames
        .iter()
        .flatten()
        .flat_map(|r| match r {
            RequestType::Deletion { files } => files.clone(),
            _ => Vec::new(),
        })
        .collect();
    assert_eq!(names, vec!["aaa".to_string(), "bbb".to_string(), "ccc".to_string()]);
}

#[test]
fn empty_deletion_records_vanish_in_merge() {
    let merged = merge(vec![RequestType::Deletion { files: Vec::new() }]);
    assert!(merged.is_empty());
}

#[test]
fn batcher_drains_and_resets() {
    let mut batcher = FileBatcher::new();
    batcher.add_request(resource("one", "1".to_string()));
    batcher.add_request(RequestType::Deletion { files: vec!["gone".to_string()] });
    let drained = batcher.retrieve_batch();
    assert_eq!(drained.len(), 2);
    let empty = batcher.retrieve_batch();
    assert!(empty.is_empty());
}
