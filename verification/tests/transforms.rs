//! The transform pipeline: masking, minification, the deflate wrap, and the
//! require-prefix exclusion list.

use std::io::Read;

use cc_sync::mask::{comment_gotos, replace_all, uncomment_gotos};
use cc_sync::structs::{ProjectItemType, TransformError};
use cc_sync::structs::is_plain_component;
use cc_sync::transform::{
    Module, base_exclusions, full_exclusions, process_content, resolve_prefix,
    resolve_prefix_exclusions,
};

#[test]
fn goto_masking_round_trips() {
    let src = "local x = 1\n::top::\nx = x + 1\ngoto top\n";
    let masked = comment_gotos(src);
    assert_eq!(
        masked,
        "local x = 1\n--autocommented::top--autocommented::\nx = x + 1\n--autocommentedgoto top\n",
    );
    let restored = uncomment_gotos(&masked);
    assert_eq!(restored, src);
}

#[test]
fn goto_masking_hides_tokens_behind_comments() {
    let masked = comment_gotos("goto top");
    assert_eq!(masked, "--autocommentedgoto top");
    let labels = comment_gotos("::top::");
    assert_eq!(labels, "--autocommented::top--autocommented::");
}

#[test]
fn replace_all_rewrites_every_occurrence() {
    let out = replace_all("goto __continue and goto __continue", "goto __continue", "continue");
    assert_eq!(out, "continue and continue");
    let unchanged = replace_all("nothing here", "absent", "x");
    assert_eq!(unchanged, "nothing here");
}

#[test]
fn registry_names_must_be_plain_components() {
    assert!(is_plain_component("util.lua"));
    assert!(is_plain_component("lib.util.lua"));
    assert!(!is_plain_component(""));
    assert!(!is_plain_component("."));
    assert!(!is_plain_component(".."));
    assert!(!is_plain_component("a/../b.lua"));
    assert!(!is_plain_component("a\\b.lua"));
    assert!(is_plain_component("..."));
}

#[test]
fn override_chain_picks_the_most_specific_prefix() {
    let mut item = cc_sync::structs::ProjectItem {
        item_type: ProjectItemType::Script,
        files: None,
        channel_name: "ch".to_string(),
        required_channels: None,
        directories: None,
        minify: None,
        deflate_trickery: None,
        require_prefix: Some("item.".to_string()),
        prefix_exclusions: None,
    };
    let file = Some(cc_sync::structs::File {
        path: "a.lua".to_string(),
        cc_path: None,
        minify: None,
        deflate_trickery: None,
        bundle: None,
        require_prefix: Some("file.".to_string()),
        prefix_exclusions: Some(vec!["skip.me".to_string()]),
    });
    let project_prefix = Some("project.".to_string());
    let none_dir: Option<cc_sync::structs::Directory> = None;
    let none_file: Option<cc_sync::structs::File> = None;

    // the file's own setting wins over the item's and the project's
    assert_eq!(
        resolve_prefix(&none_dir, &file, &item, &project_prefix),
        Some("file.".to_string()),
    );
    // without a file-level setting the item's wins
    assert_eq!(
        resolve_prefix(&none_dir, &none_file, &item, &project_prefix),
        Some("item.".to_string()),
    );
    // and without either, the project default
    item.require_prefix = None;
    assert_eq!(
        resolve_prefix(&none_dir, &none_file, &item, &project_prefix),
        Some("project.".to_string()),
    );

    // exclusions: base list plus the most specific override
    let exclusions = resolve_prefix_exclusions(&none_dir, &file, &item, &None);
    assert_eq!(exclusions.len(), 9);
    assert_eq!(exclusions[8], "skip.me");
}

#[test]
fn base_exclusions_hold_the_platform_libraries() {
    let base = base_exclusions();
    assert_eq!(base.len(), 8);
    assert_eq!(base[0], "cc.audio.dfpwm");
    assert_eq!(base[7], "cc.strings");
    let extra = Some(vec!["my.module".to_string()]);
    let full = full_exclusions(&extra);
    assert_eq!(full.len(), 9);
    assert_eq!(full[8], "my.module");
}

#[test]
fn deflate_wrap_skipped_when_longer() {
    // A 10-byte source: the wrapped form is far longer, so the payload stays
    // verbatim.
    let out = process_content(
        "0123456789".to_string(),
        ProjectItemType::Resource,
        false,
        true,
        false,
        "file.lua",
        &Vec::<Module>::new(),
    )
    .unwrap();
    assert_eq!(out, "0123456789");
}

#[test]
fn deflate_wrap_round_trips_through_decompression() {
    let source = "print('hello') ".repeat(400);
    let out = process_content(
        source.clone(),
        ProjectItemType::Resource,
        false,
        true,
        false,
        "file.lua",
        &Vec::<Module>::new(),
    )
    .unwrap();
    assert!(out.len() < source.len(), "wrap should be shorter for repetitive text");
    let prefix = "return require(\"/cc-sync/libdeflate\").libDeflate:DecompressDeflate(select(2, require(\"/cc-sync/base85\").decode(\"";
    let suffix = "\")))";
    assert!(out.starts_with(prefix));
    assert!(out.ends_with(suffix));
    let encoded = &out[prefix.len()..out.len() - suffix.len()];
    let compressed = base85::decode(encoded).unwrap();
    let mut decoder = flate2::read::DeflateDecoder::new(&compressed[..]);
    let mut restored = Vec::new();
    decoder.read_to_end(&mut restored).unwrap();
    assert_eq!(String::from_utf8(restored).unwrap(), source);
}

#[test]
fn script_wrap_uses_the_loader_form() {
    let source = "print('hello') ".repeat(400);
    let out = process_content(
        source.clone(),
        ProjectItemType::Script,
        false,
        true,
        false,
        "file.lua",
        &Vec::<Module>::new(),
    )
    .unwrap();
    assert!(out.starts_with("return load(require(\"/cc-sync/libdeflate\")"));
    assert!(out.ends_with("\"))))(...)"));
}

#[test]
fn minify_preserves_goto_and_labels() {
    let source = "local unused = nil\n::top::\nprint(\"hello world\")\ngoto top\n";
    let out = process_content(
        source.to_string(),
        ProjectItemType::Script,
        true,
        false,
        false,
        "file.lua",
        &Vec::<Module>::new(),
    )
    .unwrap();
    assert!(out.contains("::top::"), "label vanished: {out}");
    assert!(out.contains("goto top"), "goto vanished: {out}");
}

#[test]
fn minify_strips_plain_comments() {
    let source = "-- a comment\nprint(\"hi\")\n";
    let out = process_content(
        source.to_string(),
        ProjectItemType::Script,
        true,
        false,
        false,
        "file.lua",
        &Vec::<Module>::new(),
    )
    .unwrap();
    assert!(!out.contains("a comment"));
    assert!(out.contains("print"));
}

#[test]
fn unparseable_source_is_a_process_error() {
    let out = process_content(
        "local local local".to_string(),
        ProjectItemType::Script,
        true,
        false,
        false,
        "file.lua",
        &Vec::<Module>::new(),
    );
    assert_eq!(out, Err(TransformError::Process));
}

#[test]
fn resources_are_never_minified() {
    let source = "-- a comment\nnot lua at all {{{";
    let out = process_content(
        source.to_string(),
        ProjectItemType::Resource,
        true,
        false,
        false,
        "file.lua",
        &Vec::<Module>::new(),
    )
    .unwrap();
    assert_eq!(out, source);
}

#[test]
fn bundling_inlines_a_required_module() {
    let modules = vec![Module {
        name: "util.lua".to_string(),
        content: "return { greeting = \"from util\" }".to_string(),
    }];
    let out = process_content(
        "local u = require(\"./util\")\nprint(u.greeting)\n".to_string(),
        ProjectItemType::Script,
        false,
        false,
        true,
        "main.lua",
        &modules,
    )
    .unwrap();
    assert!(out.contains("from util"), "module body missing from bundle: {out}");
}
