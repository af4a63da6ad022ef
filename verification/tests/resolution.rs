//! Channel resolution, file sets, matching, validation, the listing, and
//! the observer table.

use std::io::{Read, Write};

use cc_sync::batch::FileBatcher;
use cc_sync::resolve::{
    ConfigError, channel_listing, get_associated_item, get_files_for_channel,
    get_full_channel_list, validate_project,
};
use cc_sync::session::{SnapshotInput, build_snapshot, enqueue_deletion};
use cc_sync::structs::{
    Directory, File, FileChanged, Project, ProjectItem, ProjectItemType, RequestType,
};
use cc_sync::watch::{KnownFiles, RawEventKind, observer_step};

fn bare_item(name: &str, item_type: ProjectItemType) -> ProjectItem {
    ProjectItem {
        item_type,
        files: None,
        channel_name: name.to_string(),
        required_channels: None,
        directories: None,
        minify: None,
        deflate_trickery: None,
        require_prefix: None,
        prefix_exclusions: None,
    }
}

fn bare_file(path: &str) -> File {
    File {
        path: path.to_string(),
        cc_path: None,
        minify: None,
        deflate_trickery: None,
        bundle: None,
        require_prefix: None,
        prefix_exclusions: None,
    }
}

fn project_with(items: Vec<ProjectItem>) -> Project {
    Project {
        root_dir: "testdir".to_string(),
        items,
        max_uncompressed_request_size: 30000,
        minify: None,
        deflate_trickery: None,
        require_prefix: None,
        prefix_exclusions: None,
        lz_on_deflate: None,
        port: 8001,
        sync_interval: 1,
    }
}

#[test]
fn required_channel_precedes_its_dependent() {
    let mut a = bare_item("A", ProjectItemType::Library);
    a.required_channels = Some(vec!["B".to_string()]);
    a.files = Some(vec![bare_file("a.lua")]);
    let mut b = bare_item("B", ProjectItemType::Library);
    b.files = Some(vec![bare_file("b.lua")]);
    let project = project_with(vec![a, b]);

    let mut visited: Vec<String> = Vec::new();
    let resolved = get_full_channel_list(vec!["A".to_string()], &project, &mut visited);

    assert_eq!(resolved.len(), 2);
    assert_eq!(resolved[0].channel_name, "B");
    assert_eq!(resolved[1].channel_name, "A");

    // The initial snapshot then emits B's file before A's file.
    let root = "/proj/testdir".to_string();
    let mut inputs = Vec::new();
    for item in &resolved {
        for f in item.files.as_ref().unwrap() {
            let path = format!("/proj/testdir/{}", f.path);
            let tup = get_associated_item(&project, &root, &path, &item.channel_name);
            inputs.push(SnapshotInput {
                path,
                content: "return 1".to_string(),
                tup,
                entry_name: f.path.clone(),
                modules: Vec::new(),
            });
        }
    }
    let mut batcher = FileBatcher::new();
    build_snapshot(&inputs, &mut batcher, &None, &None, &root).unwrap();
    let records = batcher.retrieve_batch();
    assert_eq!(records.len(), 2);
    match &records[0] {
        RequestType::Library { data } => assert_eq!(data.file_path, "b.lua"),
        _ => panic!("expected a library record first"),
    }
    match &records[1] {
        RequestType::Library { data } => assert_eq!(data.file_path, "a.lua"),
        _ => panic!("expected a library record second"),
    }
}

#[test]
fn unknown_channels_are_skipped_and_cycles_terminate() {
    let mut a = bare_item("A", ProjectItemType::Library);
    a.required_channels = Some(vec!["B".to_string(), "ghost".to_string()]);
    let mut b = bare_item("B", ProjectItemType::Library);
    b.required_channels = Some(vec!["A".to_string()]);
    let project = project_with(vec![a, b]);

    let mut visited: Vec<String> = Vec::new();
    let resolved = get_full_channel_list(
        vec!["A".to_string(), "nope".to_string()],
        &project,
        &mut visited,
    );
    let names: Vec<&str> = resolved.iter().map(|i| i.channel_name.as_str()).collect();
    assert_eq!(names, vec!["B", "A"]);
}

#[test]
fn listing() {
    let project = project_with(vec![
        bare_item("hi", ProjectItemType::Library),
        bare_item("hello", ProjectItemType::Resource),
    ]);
    let body = channel_listing(&project);

    // The route compresses the listing; the transported body restores it.
    let mut encoder =
        flate2::write::DeflateEncoder::new(Vec::new(), flate2::Compression::best());
    encoder.write_all(body.as_bytes()).unwrap();
    let compressed = encoder.finish().unwrap();
    let mut decoder = flate2::read::DeflateDecoder::new(&compressed[..]);
    let mut output = Vec::new();
    decoder.read_to_end(&mut output).unwrap();
    let full_str = String::from_utf8(output).unwrap().trim().to_string();
    assert_eq!(full_str, "hi - library\nhello - resource".to_string());
}

#[test]
fn channel_files_deduplicate_and_keep_order() {
    let mut item = bare_item("ch", ProjectItemType::Library);
    item.directories = Some(vec![Directory {
        path: "dir".to_string(),
        minify: None,
        deflate_trickery: None,
        require_prefix: None,
        prefix_exclusions: None,
    }]);
    item.files = Some(vec![bare_file("dir/one.lua"), bare_file("two.lua")]);
    let root = "/r".to_string();
    let listings = vec![vec!["/r/dir/one.lua".to_string(), "/r/dir/sub/three.lua".to_string()]];
    let files = get_files_for_channel(&root, &item, &listings);
    assert_eq!(
        files,
        vec![
            "/r/dir/one.lua".to_string(),
            "/r/dir/sub/three.lua".to_string(),
            "/r/two.lua".to_string(),
        ],
    );
}

#[test]
fn matching_prefers_explicit_files_and_respects_channels() {
    let mut with_files = bare_item("files", ProjectItemType::Script);
    with_files.files = Some(vec![bare_file("a.lua")]);
    let mut with_dir = bare_item("dir", ProjectItemType::Resource);
    with_dir.directories = Some(vec![Directory {
        path: "assets".to_string(),
        minify: None,
        deflate_trickery: None,
        require_prefix: None,
        prefix_exclusions: None,
    }]);
    let project = project_with(vec![with_files, with_dir]);
    let root = "/r".to_string();

    let hit = get_associated_item(&project, &root, &"/r/a.lua".to_string(), &"files".to_string());
    let (dir, file, item) = hit.expect("file should match");
    assert!(dir.is_none());
    assert_eq!(file.unwrap().path, "a.lua");
    assert_eq!(item.channel_name, "files");

    let dir_hit =
        get_associated_item(&project, &root, &"/r/assets/x.png".to_string(), &"dir".to_string());
    let (dir, file, item) = dir_hit.expect("directory should match");
    assert_eq!(dir.unwrap().path, "assets");
    assert!(file.is_none());
    assert_eq!(item.channel_name, "dir");

    // The same path under the wrong channel matches nothing.
    let miss = get_associated_item(&project, &root, &"/r/a.lua".to_string(), &"dir".to_string());
    assert!(miss.is_none());
}

#[test]
fn directories_still_match_beside_explicit_files() {
    // an item carrying both lists matches through either: a path under its
    // directory that is not an explicit file resolves to the directory
    let mut item = bare_item("both", ProjectItemType::Library);
    item.files = Some(vec![bare_file("src/main.lua")]);
    item.directories = Some(vec![Directory {
        path: "src".to_string(),
        minify: None,
        deflate_trickery: None,
        require_prefix: None,
        prefix_exclusions: None,
    }]);
    let project = project_with(vec![item]);
    let root = "/r".to_string();

    let file_hit =
        get_associated_item(&project, &root, &"/r/src/main.lua".to_string(), &"both".to_string());
    let (dir, file, _) = file_hit.expect("explicit file should match first");
    assert!(dir.is_none());
    assert_eq!(file.unwrap().path, "src/main.lua");

    let dir_hit =
        get_associated_item(&project, &root, &"/r/src/util.lua".to_string(), &"both".to_string());
    let (dir, file, _) = dir_hit.expect("directory should cover the other path");
    assert_eq!(dir.unwrap().path, "src");
    assert!(file.is_none());
}

#[test]
fn resolution_lists_each_channel_once() {
    let mut a = bare_item("A", ProjectItemType::Library);
    a.required_channels = Some(vec!["B".to_string()]);
    let mut b = bare_item("B", ProjectItemType::Library);
    b.required_channels = Some(vec!["B".to_string()]);
    let project = project_with(vec![a, b]);
    let mut visited: Vec<String> = Vec::new();
    let resolved = get_full_channel_list(
        vec!["A".to_string(), "B".to_string(), "A".to_string()],
        &project,
        &mut visited,
    );
    let names: Vec<&str> = resolved.iter().map(|i| i.channel_name.as_str()).collect();
    assert_eq!(names, vec!["B", "A"]);
}

#[test]
fn deletion_event_uses_the_logical_path() {
    let mut item = bare_item("files", ProjectItemType::Script);
    let mut f = bare_file("a.lua");
    f.cc_path = Some("logical/a.lua".to_string());
    item.files = Some(vec![f]);
    let project = project_with(vec![item]);
    let root = "/r".to_string();
    let path = "/r/a.lua".to_string();
    let tup = get_associated_item(&project, &root, &path, &"files".to_string());
    let mut batcher = FileBatcher::new();
    enqueue_deletion(tup, &mut batcher, &path, &root);
    let records = batcher.retrieve_batch();
    assert_eq!(
        records,
        vec![RequestType::Deletion { files: vec!["logical/a.lua".to_string()] }],
    );
}

#[test]
fn validation_accepts_good_and_rejects_bad_names() {
    let good = project_with(vec![
        bare_item("alpha", ProjectItemType::Library),
        bare_item("beta", ProjectItemType::Script),
    ]);
    assert_eq!(validate_project(&good), Ok(()));

    let spaced = project_with(vec![bare_item("has space", ProjectItemType::Library)]);
    assert_eq!(validate_project(&spaced), Err(ConfigError::WhitespaceChannelName));

    let empty = project_with(vec![bare_item("", ProjectItemType::Library)]);
    assert_eq!(validate_project(&empty), Err(ConfigError::EmptyChannelName));

    let duplicated = project_with(vec![
        bare_item("twice", ProjectItemType::Library),
        bare_item("twice", ProjectItemType::Script),
    ]);
    assert_eq!(validate_project(&duplicated), Err(ConfigError::DuplicateChannelName));
}

#[test]
fn seeding_drops_duplicate_paths() {
    let mut known = KnownFiles::seed(vec![
        "/r/a.lua".to_string(),
        "/r/a.lua".to_string(),
        "/r/b.lua".to_string(),
    ]);
    let first = observer_step(&mut known, RawEventKind::Remove, &"/r/a.lua".to_string(), true);
    assert!(matches!(first, Some(FileChanged::Deleted { .. })));
    let second = observer_step(&mut known, RawEventKind::Remove, &"/r/a.lua".to_string(), true);
    assert!(second.is_none());
}

#[test]
fn observer_follows_the_event_table() {
    let mut known = KnownFiles::seed(vec!["/r/a.lua".to_string()]);

    // A created regular file becomes known and emits a change.
    let created = observer_step(&mut known, RawEventKind::Create, &"/r/b.lua".to_string(), true);
    assert!(matches!(created, Some(FileChanged::Changed { ref path }) if path == "/r/b.lua"));

    // A created directory is ignored.
    let dir = observer_step(&mut known, RawEventKind::Create, &"/r/sub".to_string(), false);
    assert!(dir.is_none());

    // A modification emits a change only for known paths.
    let known_mod = observer_step(&mut known, RawEventKind::Modify, &"/r/a.lua".to_string(), true);
    assert!(matches!(known_mod, Some(FileChanged::Changed { ref path }) if path == "/r/a.lua"));
    let unknown_mod =
        observer_step(&mut known, RawEventKind::Modify, &"/r/x.lua".to_string(), true);
    assert!(unknown_mod.is_none());

    // A removal forgets the path; a second removal is silent.
    let removed = observer_step(&mut known, RawEventKind::Remove, &"/r/a.lua".to_string(), true);
    assert!(matches!(removed, Some(FileChanged::Deleted { ref path }) if path == "/r/a.lua"));
    let again = observer_step(&mut known, RawEventKind::Remove, &"/r/a.lua".to_string(), true);
    assert!(again.is_none());

    // Anything else is dropped.
    let other = observer_step(&mut known, RawEventKind::Other, &"/r/b.lua".to_string(), true);
    assert!(other.is_none());
}
