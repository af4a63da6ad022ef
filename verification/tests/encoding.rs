//! The wire format: MessagePack framing and frame compression, checked
//! against a reference MessagePack writer and real decompression.

use std::io::Read;

use cc_sync::encode::{compress_frame, encode_frame};
use cc_sync::structs::{DataSync, RequestType};

fn sample_frame() -> Vec<RequestType> {
    vec![
        RequestType::Resource {
            data: DataSync {
                file_path: "assets/logo.nfp".to_string(),
                file_data: "pixels".to_string(),
            },
        },
        RequestType::Library {
            data: DataSync { file_path: "lib/util.lua".to_string(), file_data: "return {}".to_string() },
        },
        RequestType::Script {
            data: DataSync { file_path: "main.lua".to_string(), file_data: "print(1)".to_string() },
        },
        RequestType::Deletion { files: vec!["old.lua".to_string(), "gone.lua".to_string()] },
        RequestType::Chunk { file_data: "tail of a long payload".to_string() },
    ]
}

fn reference_bytes(records: &[RequestType]) -> Vec<u8> {
    let mut out: Vec<u8> = Vec::new();
    rmp::encode::write_array_len(&mut out, records.len() as u32).unwrap();
    for record in records {
        match record {
            RequestType::Resource { data } => {
                rmp::encode::write_map_len(&mut out, 3).unwrap();
                rmp::encode::write_str(&mut out, "type").unwrap();
                rmp::encode::write_str(&mut out, "r").unwrap();
                rmp::encode::write_str(&mut out, "filePath").unwrap();
                rmp::encode::write_str(&mut out, &data.file_path).unwrap();
                rmp::encode::write_str(&mut out, "fileData").unwrap();
                rmp::encode::write_str(&mut out, &data.file_data).unwrap();
            },
            RequestType::Library { data } => {
                rmp::encode::write_map_len(&mut out, 3).unwrap();
                rmp::encode::write_str(&mut out, "type").unwrap();
                rmp::encode::write_str(&mut out, "l").unwrap();
                rmp::encode::write_str(&mut out, "filePath").unwrap();
                rmp::encode::write_str(&mut out, &data.file_path).unwrap();
                rmp::encode::write_str(&mut out, "fileData").unwrap();
                rmp::encode::write_str(&mut out, &data.file_data).unwrap();
            },
            RequestType::Script { data } => {
                rmp::encode::write_map_len(&mut out, 3).unwrap();
                rmp::encode::write_str(&mut out, "type").unwrap();
                rmp::encode::write_str(&mut out, "s").unwrap();
                rmp::encode::write_str(&mut out, "filePath").unwrap();
                rmp::encode::write_str(&mut out, &data.file_path).unwrap();
                rmp::encode::write_str(&mut out, "fileData").unwrap();
                rmp::encode::write_str(&mut out, &data.file_data).unwrap();
            },
            RequestType::Deletion { files } => {
                rmp::encode::write_map_len(&mut out, 2).unwrap();
                rmp::encode::write_str(&mut out, "type").unwrap();
                rmp::encode::write_str(&mut out, "d").unwrap();
                rmp::encode::write_str(&mut out, "files").unwrap();
                rmp::encode::write_array_len(&mut out, files.len() as u32).unwrap();
                for f in files {
                    rmp::encode::write_str(&mut out, f).unwrap();
                }
            },
            RequestType::Chunk { file_data } => {
                rmp::encode::write_map_len(&mut out, 2).unwrap();
                rmp::encode::write_str(&mut out, "type").unwrap();
                rmp::encode::write_str(&mut out, "c").unwrap();
                rmp::encode::write_str(&mut out, "file_data").unwrap();
                rmp::encode::write_str(&mut out, file_data).unwrap();
            },
        }
    }
    out
}

#[test]
fn frame_bytes_match_the_reference_writer() {
    let records = sample_frame();
    let encoded = encode_frame(&records).unwrap();
    assert_eq!(encoded, reference_bytes(&records));
}

#[test]
fn long_strings_use_wider_length_fields() {
    let records = vec![RequestType::Chunk { file_data: "x".repeat(300) }];
    let encoded = encode_frame(&records).unwrap();
    assert_eq!(encoded, reference_bytes(&records));
    let records16 = vec![RequestType::Chunk { file_data: "y".repeat(70000) }];
    let encoded16 = encode_frame(&records16).unwrap();
    assert_eq!(encoded16, reference_bytes(&records16));
}

#[test]
fn multibyte_strings_encode_their_utf8_bytes() {
    let records = vec![RequestType::Chunk { file_data: "h\u{e9}llo \u{2603}".to_string() }];
    let encoded = encode_frame(&records).unwrap();
    assert_eq!(encoded, reference_bytes(&records));
}

#[test]
fn empty_frame_is_an_empty_array() {
    let encoded = encode_frame(&Vec::new()).unwrap();
    assert_eq!(encoded, vec![0x90u8]);
}

#[test]
fn compressed_frame_restores_the_encoding() {
    let records = sample_frame();
    let plain = encode_frame(&records).unwrap();
    let compressed = compress_frame(&records).unwrap();
    let mut decoder = flate2::read::DeflateDecoder::new(&compressed[..]);
    let mut restored = Vec::new();
    decoder.read_to_end(&mut restored).unwrap();
    assert_eq!(restored, plain);
}

#[test]
fn bootstrap_script_names_the_host() {
    let script = cc_sync::assets::bootstrap_script("127.0.0.1:8001", true);
    assert!(script.contains("wget http://127.0.0.1:8001/sync.lua"));
    assert!(script.contains("wget http://127.0.0.1:8001/lz4.lua cc-sync/llz4.lua"));
    let base = cc_sync::assets::bootstrap_script("h", false);
    assert!(base.contains("wget http://h/base-sync.lua sync.lua"));
}

#[test]
fn lz4_asset_wrap_round_trips() {
    let content = "some asset body, repeated a little. ".repeat(20);
    let wrapped = cc_sync::assets::lz4_asset_wrap(&content);
    let prefix = "return load(require(\"/cc-sync/llz4\").decompress(select(2, require(\"/cc-sync/base85\").decode(\"";
    let suffix = "\"))), \"crimes\", \"t\", _G)()";
    assert!(wrapped.starts_with(prefix));
    assert!(wrapped.ends_with(suffix));
    let encoded = &wrapped[prefix.len()..wrapped.len() - suffix.len()];
    let compressed = base85::decode(encoded).unwrap();
    let restored = lz4_flex::decompress(&compressed, content.len()).unwrap();
    assert_eq!(String::from_utf8(restored).unwrap(), content);
}
