//! The per-file transform pipeline: override resolution, optional bundling,
//! optional minification, and the optional deflate + base85 wrap, followed by
//! the record that enters the batcher.
//!
//! The require-prefix rewrite that precedes these stages runs through a
//! custom rule of the transform library and is applied by the caller; this
//! module receives the source text with that rewrite already done.

use vstd::prelude::*;

use crate::batch::{FileBatcher, clone_string};
use crate::deps::{
    b85_encode, base85_of, bundle_accepts, bundled_of, deflate_best, deflate_of, minified_of,
    minify_accepts, run_minify, store_add, store_bundle, store_map, store_new,
};
use crate::mask::{comment_gotos, lemma_tokens, mask_spec, sent_tok, starts_with, uncomment_gotos,
    unmask_spec};
use crate::structs::{
    DataSync, DataSyncV, Directory, DirectoryV, File, FileV, ProjectItem, ProjectItemType,
    ProjectItemV, ReqV, RequestType, TransformError, batch_view, opt_str_view, opt_strs_view,
    plain_component, strs_view,
};
use vstd::utf8::encode_utf8;

verus! {

/// The first present value wins: the most specific override, then the item,
/// then the project default, then `false`.
pub open spec fn opt_or_bool(a: Option<bool>, b: Option<bool>, c: Option<bool>) -> bool {
    match a {
        Some(v) => v,
        None => match b {
            Some(v) => v,
            None => match c {
                Some(v) => v,
                None => false,
            },
        },
    }
}

/// Resolves a boolean option through the override chain.
pub fn pick_bool(a: &Option<bool>, b: &Option<bool>, c: &Option<bool>) -> (r: bool)
    ensures
        r == opt_or_bool(*a, *b, *c),
{
    match a {
        Some(v) => *v,
        None => match b {
            Some(v) => *v,
            None => match c {
                Some(v) => *v,
                None => false,
            },
        },
    }
}

/// The first present value wins; `None` when every level is silent.
pub open spec fn opt_or_str(
    a: Option<Seq<char>>,
    b: Option<Seq<char>>,
    c: Option<Seq<char>>,
) -> Option<Seq<char>> {
    match a {
        Some(v) => Some(v),
        None => match b {
            Some(v) => Some(v),
            None => c,
        },
    }
}

/// Resolves an optional string through the override chain.
pub fn pick_string(a: &Option<String>, b: &Option<String>, c: &Option<String>) -> (r: Option<
    String,
>)
    ensures
        opt_str_view(&r) == opt_or_str(opt_str_view(a), opt_str_view(b), opt_str_view(c)),
{
    match a {
        Some(v) => Some(clone_string(v)),
        None => match b {
            Some(v) => Some(clone_string(v)),
            None => match c {
                Some(v) => Some(clone_string(v)),
                None => None,
            },
        },
    }
}

/// The first present value wins; `None` when every level is silent.
pub open spec fn opt_or_strs(
    a: Option<Seq<Seq<char>>>,
    b: Option<Seq<Seq<char>>>,
    c: Option<Seq<Seq<char>>>,
) -> Option<Seq<Seq<char>>> {
    match a {
        Some(v) => Some(v),
        None => match b {
            Some(v) => Some(v),
            None => c,
        },
    }
}

/// Resolves an optional string list through the override chain.
pub fn pick_strings(
    a: &Option<Vec<String>>,
    b: &Option<Vec<String>>,
    c: &Option<Vec<String>>,
) -> (r: Option<Vec<String>>)
    ensures
        opt_strs_view(&r) == opt_or_strs(opt_strs_view(a), opt_strs_view(b), opt_strs_view(c)),
{
    match a {
        Some(v) => Some(crate::batch::clone_strings(v)),
        None => match b {
            Some(v) => Some(crate::batch::clone_strings(v)),
            None => match c {
                Some(v) => Some(crate::batch::clone_strings(v)),
                None => None,
            },
        },
    }
}

/// Spec view of an optional directory entry.
pub open spec fn opt_dir_view(d: &Option<Directory>) -> Option<DirectoryV> {
    match d {
        Some(dir) => Some(dir@),
        None => None,
    }
}

/// Spec view of an optional file entry.
pub open spec fn opt_file_view(f: &Option<File>) -> Option<FileV> {
    match f {
        Some(file) => Some(file@),
        None => None,
    }
}

/// The require prefix a matched tuple resolves to: the directory's or
/// file's own setting, then the channel's, then the project's.
pub open spec fn tup_prefix(
    dir: Option<DirectoryV>,
    file: Option<FileV>,
    item: ProjectItemV,
    project_prefix: Option<Seq<char>>,
) -> Option<Seq<char>> {
    match dir {
        Some(d) => opt_or_str(d.require_prefix, item.require_prefix, project_prefix),
        None => match file {
            Some(f) => opt_or_str(f.require_prefix, item.require_prefix, project_prefix),
            None => opt_or_str(None, item.require_prefix, project_prefix),
        },
    }
}

/// The prefix exclusions a matched tuple resolves to, through the same
/// chain.
pub open spec fn tup_exclusions(
    dir: Option<DirectoryV>,
    file: Option<FileV>,
    item: ProjectItemV,
    project_exclusions: Option<Seq<Seq<char>>>,
) -> Option<Seq<Seq<char>>> {
    match dir {
        Some(d) => opt_or_strs(d.prefix_exclusions, item.prefix_exclusions, project_exclusions),
        None => match file {
            Some(f) => opt_or_strs(
                f.prefix_exclusions,
                item.prefix_exclusions,
                project_exclusions,
            ),
            None => opt_or_strs(None, item.prefix_exclusions, project_exclusions),
        },
    }
}

/// Resolves the require prefix for a matched tuple.
pub fn resolve_prefix(
    dir: &Option<Directory>,
    file: &Option<File>,
    item: &ProjectItem,
    project_prefix: &Option<String>,
) -> (r: Option<String>)
    ensures
        opt_str_view(&r) == tup_prefix(
            opt_dir_view(dir),
            opt_file_view(file),
            item@,
            opt_str_view(project_prefix),
        ),
{
    let none: Option<String> = None;
    match dir {
        Some(d) => pick_string(&d.require_prefix, &item.require_prefix, project_prefix),
        None => match file {
            Some(f) => pick_string(&f.require_prefix, &item.require_prefix, project_prefix),
            None => pick_string(&none, &item.require_prefix, project_prefix),
        },
    }
}

/// Resolves the full exclusion list for a matched tuple: the fixed base
/// exclusions followed by the chain-resolved ones.
pub fn resolve_prefix_exclusions(
    dir: &Option<Directory>,
    file: &Option<File>,
    item: &ProjectItem,
    project_exclusions: &Option<Vec<String>>,
) -> (r: Vec<String>)
    ensures
        strs_view(&r) =~= full_exclusions_spec(
            tup_exclusions(
                opt_dir_view(dir),
                opt_file_view(file),
                item@,
                opt_strs_view(project_exclusions),
            ),
        ),
{
    let none: Option<Vec<String>> = None;
    let picked = match dir {
        Some(d) => pick_strings(&d.prefix_exclusions, &item.prefix_exclusions, project_exclusions),
        None => match file {
            Some(f) => pick_strings(
                &f.prefix_exclusions,
                &item.prefix_exclusions,
                project_exclusions,
            ),
            None => pick_strings(&none, &item.prefix_exclusions, project_exclusions),
        },
    };
    full_exclusions(&picked)
}

/// The module names never touched by the require-prefix rewrite or inlined
/// by the bundler: the platform's own libraries.
pub open spec fn base_exclusions_spec() -> Seq<Seq<char>> {
    seq![
        "cc.audio.dfpwm"@,
        "cc.completion"@,
        "cc.expect"@,
        "cc.image.nft"@,
        "cc.pretty"@,
        "cc.require"@,
        "cc.shell.completion"@,
        "cc.strings"@,
    ]
}

/// Builds the fixed base exclusion list.
pub fn base_exclusions() -> (r: Vec<String>)
    ensures
        strs_view(&r) =~= base_exclusions_spec(),
{
    let mut r: Vec<String> = Vec::new();
    r.push(String::from_str("cc.audio.dfpwm"));
    r.push(String::from_str("cc.completion"));
    r.push(String::from_str("cc.expect"));
    r.push(String::from_str("cc.image.nft"));
    r.push(String::from_str("cc.pretty"));
    r.push(String::from_str("cc.require"));
    r.push(String::from_str("cc.shell.completion"));
    r.push(String::from_str("cc.strings"));
    r
}

/// The base exclusions followed by the caller-supplied ones, if any.
pub open spec fn full_exclusions_spec(extra: Option<Seq<Seq<char>>>) -> Seq<Seq<char>> {
    match extra {
        Some(e) => base_exclusions_spec() + e,
        None => base_exclusions_spec(),
    }
}

/// Builds the full exclusion list for the require-prefix rewrite.
pub fn full_exclusions(extra: &Option<Vec<String>>) -> (r: Vec<String>)
    ensures
        strs_view(&r) =~= full_exclusions_spec(
            match extra {
                Some(e) => Some(strs_view(e)),
                None => None,
            },
        ),
{
    let mut r = base_exclusions();
    match extra {
        Some(e) => {
            let ghost base = strs_view(&r);
            let ghost ev = strs_view(e);
            let mut i: usize = 0;
            while i < e.len()
                invariant
                    i <= e.len(),
                    ev == strs_view(e),
                    strs_view(&r) =~= base + ev.take(i as int),
                decreases e.len() - i,
            {
                r.push(e[i].clone());
                assert(strs_view(&r) =~= base + ev.take(i as int) + seq![ev[i as int]]);
                assert(base + ev.take(i as int) + seq![ev[i as int]] =~= base + ev.take(
                    i as int + 1,
                ));
                i = i + 1;
            }
            assert(strs_view(&r) =~= base + ev);
        },
        None => {},
    }
    r
}

/// The one-line snippet that decompresses and returns (or loads) a wrapped
/// payload, up to the payload itself.
pub open spec fn wrap_prefix(item_type: ProjectItemType) -> Seq<char> {
    if item_type == ProjectItemType::Resource {
        "return require(\"/cc-sync/libdeflate\").libDeflate:DecompressDeflate(select(2, require(\"/cc-sync/base85\").decode(\""@
    } else {
        "return load(require(\"/cc-sync/libdeflate\").libDeflate:DecompressDeflate(select(2, require(\"/cc-sync/base85\").decode(\""@
    }
}

/// What follows the payload in the wrap snippet.
pub open spec fn wrap_suffix(item_type: ProjectItemType) -> Seq<char> {
    if item_type == ProjectItemType::Resource {
        "\")))"@
    } else {
        "\"))))(...)"@
    }
}

/// The full wrap snippet around a payload.
pub open spec fn wrap_spec(item_type: ProjectItemType, payload: Seq<char>) -> Seq<char> {
    wrap_prefix(item_type) + payload + wrap_suffix(item_type)
}

/// Builds the wrap snippet around an encoded payload.
pub fn build_wrap(item_type: ProjectItemType, payload: &str) -> (r: String)
    ensures
        r@ == wrap_spec(item_type, payload@),
{
    let mut out = if matches!(item_type, ProjectItemType::Resource) {
        String::from_str(
            "return require(\"/cc-sync/libdeflate\").libDeflate:DecompressDeflate(select(2, require(\"/cc-sync/base85\").decode(\"",
        )
    } else {
        String::from_str(
            "return load(require(\"/cc-sync/libdeflate\").libDeflate:DecompressDeflate(select(2, require(\"/cc-sync/base85\").decode(\"",
        )
    };
    out.append(payload);
    if matches!(item_type, ProjectItemType::Resource) {
        out.append("\")))");
    } else {
        out.append("\"))))(...)");
    }
    assert(out@ =~= wrap_spec(item_type, payload@));
    out
}

/// The payload between the wrap snippet's fixed prefix and suffix.
pub open spec fn extract_payload(w: Seq<char>, item_type: ProjectItemType) -> Seq<char> {
    w.subrange(
        wrap_prefix(item_type).len() as int,
        w.len() - wrap_suffix(item_type).len(),
    )
}

/// Extraction inverts wrapping: the payload placed into the snippet is read
/// back exactly.
pub proof fn lemma_wrap_extract(item_type: ProjectItemType, payload: Seq<char>)
    ensures
        extract_payload(wrap_spec(item_type, payload), item_type) =~= payload,
{
    let w = wrap_spec(item_type, payload);
    let p = wrap_prefix(item_type).len() as int;
    let n = payload.len() as int;
    assert forall|k: int| 0 <= k < n implies w.subrange(p, p + n)[k] == payload[k] by {
        assert(w[p + k] == payload[k]);
    }
    assert(w.subrange(p, w.len() - wrap_suffix(item_type).len()) =~= w.subrange(p, p + n));
}

/// The deflate-wrap stage: the payload is compressed, base85-encoded and
/// wrapped; the wrap is kept only when its byte form is strictly shorter
/// than the byte form of the input.
pub open spec fn deflate_stage_spec(content: Seq<char>, item_type: ProjectItemType) -> Seq<char> {
    let wrapped = wrap_spec(item_type, base85_of(deflate_of(encode_utf8(content))));
    if encode_utf8(wrapped).len() < encode_utf8(content).len() {
        wrapped
    } else {
        content
    }
}

/// Applies the deflate-wrap stage to a payload.
pub fn apply_deflate_wrap(content: String, item_type: ProjectItemType) -> (r: String)
    ensures
        r@ == deflate_stage_spec(content@, item_type),
{
    let compressed = deflate_best(content.as_str().as_bytes());
    let encoded = b85_encode(compressed.as_slice());
    let wrapped = build_wrap(item_type, encoded.as_str());
    let wrapped_bytes = wrapped.as_str().as_bytes().len();
    let content_bytes = content.as_str().as_bytes().len();
    if wrapped_bytes < content_bytes {
        wrapped
    } else {
        content
    }
}

/// The wrapped form is shorter exactly when the record carries the snippet,
/// and then the snippet's extracted payload is the base85 encoding of the
/// deflate compression of the pre-wrap text; otherwise the record carries
/// the pre-wrap text verbatim.
pub proof fn lemma_deflate_roundtrip(content: Seq<char>, item_type: ProjectItemType)
    ensures
        ({
            let encoded = base85_of(deflate_of(encode_utf8(content)));
            let wrapped = wrap_spec(item_type, encoded);
            let out = deflate_stage_spec(content, item_type);
            &&& (encode_utf8(wrapped).len() < encode_utf8(content).len() ==> out == wrapped
                && extract_payload(out, item_type) =~= encoded)
            &&& (encode_utf8(wrapped).len() >= encode_utf8(content).len() ==> out == content)
        }),
{
    let encoded = base85_of(deflate_of(encode_utf8(content)));
    lemma_wrap_extract(item_type, encoded);
}

/// One module source ready for the bundler, keyed by its registered name.
pub struct Module {
    pub name: String,
    pub content: String,
}

/// Spec view of a module list.
pub open spec fn modules_view(ms: Seq<Module>) -> Seq<(Seq<char>, Seq<char>)> {
    ms.map_values(|m: Module| (m.name@, m.content@))
}

/// The registry that results from registering the modules in order.
pub open spec fn modules_map_spec(ms: Seq<(Seq<char>, Seq<char>)>) -> Map<Seq<char>, Seq<char>>
    decreases ms.len(),
{
    if ms.len() == 0 {
        Map::empty()
    } else {
        modules_map_spec(ms.drop_last()).insert(ms.last().0, ms.last().1)
    }
}

/// Clones a module list, keeping every name and source.
pub fn clone_modules(ms: &Vec<Module>) -> (r: Vec<Module>)
    ensures
        modules_view(r@) =~= modules_view(ms@),
{
    let mut r: Vec<Module> = Vec::new();
    let mut i: usize = 0;
    while i < ms.len()
        invariant
            i <= ms.len(),
            r@.len() == i,
            forall|j: int|
                0 <= j < i ==> (#[trigger] r@[j]).name@ == ms@[j].name@ && r@[j].content@
                    == ms@[j].content@,
        decreases ms.len() - i,
    {
        r.push(
            Module {
                name: clone_string(&ms[i].name),
                content: clone_string(&ms[i].content),
            },
        );
        i = i + 1;
    }
    r
}

/// Every module name is a single plain path component, as the bundler's
/// normalized-key registry needs.
pub open spec fn modules_wf(ms: Seq<Module>) -> bool {
    forall|i: int| 0 <= i < ms.len() ==> plain_component((#[trigger] ms[i]).name@)
}

/// Checks that every module name is a single plain path component.
pub fn modules_wf_exec(ms: &Vec<Module>) -> (r: bool)
    ensures
        r == modules_wf(ms@),
{
    let mut i: usize = 0;
    while i < ms.len()
        invariant
            i <= ms.len(),
            forall|j: int| 0 <= j < i ==> plain_component((#[trigger] ms@[j]).name@),
        decreases ms.len() - i,
    {
        if !crate::structs::is_plain_component(ms[i].name.as_str()) {
            return false;
        }
        i = i + 1;
    }
    true
}

/// Whether every transform stage that applies accepts the text: bundling of
/// the masked source against the registry, then minification of the masked
/// intermediate. The deflate wrap never fails, and a `Resource` skips the
/// source stages.
pub open spec fn transform_accepts(
    content: Seq<char>,
    item_type: ProjectItemType,
    minify: bool,
    bundle: bool,
    entry_name: Seq<char>,
    modules: Map<Seq<char>, Seq<char>>,
) -> bool {
    let after_bundle = if item_type != ProjectItemType::Resource && bundle {
        unmask_spec(
            bundled_of(modules, entry_name, mask_spec(content), base_exclusions_spec()),
        )
    } else {
        content
    };
    &&& (item_type != ProjectItemType::Resource && bundle ==> bundle_accepts(
        modules,
        entry_name,
        mask_spec(content),
        base_exclusions_spec(),
    ))
    &&& (item_type != ProjectItemType::Resource && minify ==> minify_accepts(
        mask_spec(after_bundle),
        sent_tok(),
    ))
}

/// The text a file's payload becomes: optional bundling, then optional
/// minification (each behind the goto mask), then the optional deflate wrap.
/// A `Resource` is never bundled or minified.
pub open spec fn transformed_spec(
    content: Seq<char>,
    item_type: ProjectItemType,
    minify: bool,
    deflate: bool,
    bundle: bool,
    entry_name: Seq<char>,
    modules: Map<Seq<char>, Seq<char>>,
) -> Seq<char> {
    let after_bundle = if item_type != ProjectItemType::Resource && bundle {
        unmask_spec(
            bundled_of(modules, entry_name, mask_spec(content), base_exclusions_spec()),
        )
    } else {
        content
    };
    let after_minify = if item_type != ProjectItemType::Resource && minify {
        unmask_spec(minified_of(mask_spec(after_bundle), sent_tok()))
    } else {
        after_bundle
    };
    if deflate {
        deflate_stage_spec(after_minify, item_type)
    } else {
        after_minify
    }
}

/// Runs the transform stages on a file's text. `content` already carries the
/// require-prefix rewrite when one applies. The call succeeds exactly when
/// every stage that applies accepts its input; in particular it cannot fail
/// when neither bundling nor minification applies.
pub fn process_content(
    content: String,
    item_type: ProjectItemType,
    minify: bool,
    deflate: bool,
    bundle: bool,
    entry_name: &str,
    modules: &Vec<Module>,
) -> (r: Result<String, TransformError>)
    requires
        bundle && item_type != ProjectItemType::Resource ==> modules_wf(modules@)
            && plain_component(entry_name@),
    ensures
        r is Ok <==> transform_accepts(
            content@,
            item_type,
            minify,
            bundle,
            entry_name@,
            modules_map_spec(modules_view(modules@)),
        ),
        r is Ok ==> r->Ok_0@ == transformed_spec(
            content@,
            item_type,
            minify,
            deflate,
            bundle,
            entry_name@,
            modules_map_spec(modules_view(modules@)),
        ),
{
    let ghost orig = content@;
    let mut cur = content;
    let is_resource = item_type == ProjectItemType::Resource;
    if !is_resource && bundle {
        let masked = comment_gotos(cur.as_str());
        let mut store = store_new();
        let ghost mv = modules_view(modules@);
        let mut i: usize = 0;
        proof {
            assert(modules_map_spec(mv.take(0)) =~= Map::<Seq<char>, Seq<char>>::empty());
        }
        while i < modules.len()
            invariant
                i <= modules.len(),
                bundle,
                item_type != ProjectItemType::Resource,
                modules_wf(modules@),
                mv == modules_view(modules@),
                store_map(store) == modules_map_spec(mv.take(i as int)),
            decreases modules.len() - i,
        {
            assert(mv[i as int] == (modules@[i as int].name@, modules@[i as int].content@));
            match store_add(&mut store, modules[i].name.as_str(), modules[i].content.as_str()) {
                Ok(()) => {},
                Err(e) => {
                    return Err(e);
                },
            }
            proof {
                assert(mv.take(i as int + 1).drop_last() =~= mv.take(i as int));
                assert(mv.take(i as int + 1).last() == mv[i as int]);
            }
            i = i + 1;
        }
        proof {
            assert(mv.take(modules.len() as int) =~= mv);
        }
        let excludes = base_exclusions();
        let bundled = match store_bundle(&mut store, entry_name, masked.as_str(), &excludes) {
            Ok(b) => b,
            Err(e) => {
                return Err(e);
            },
        };
        proof {
            assert(bundled@ == bundled_of(
                modules_map_spec(modules_view(modules@)),
                entry_name@,
                mask_spec(orig),
                base_exclusions_spec(),
            ));
        }
        cur = uncomment_gotos(bundled.as_str());
    }
    let ghost after_bundle = cur@;
    if !is_resource && minify {
        let masked = comment_gotos(cur.as_str());
        proof {
            lemma_tokens();
        }
        let minified = match run_minify(masked.as_str(), "--autocommented") {
            Ok(m) => m,
            Err(e) => {
                return Err(e);
            },
        };
        proof {
            assert(minified@ == minified_of(mask_spec(after_bundle), sent_tok()));
        }
        cur = uncomment_gotos(minified.as_str());
    }
    if deflate {
        cur = apply_deflate_wrap(cur, item_type);
    }
    Ok(cur)
}

/// The path relative to the project root: the root prefix is removed, along
/// with one following path separator if present.
pub open spec fn rel_to_root(path: Seq<char>, root: Seq<char>) -> Seq<char> {
    let rest = path.skip(root.len() as int);
    if rest.len() > 0 && rest[0] == '/' {
        rest.skip(1)
    } else {
        rest
    }
}

/// Strips the project root from an absolute path.
pub fn strip_root(path: &str, root: &str) -> (r: String)
    requires
        starts_with(path@, root@),
    ensures
        r@ == rel_to_root(path@, root@),
{
    let n = path.unicode_len();
    let rn = root.unicode_len();
    let rest = path.substring_char(rn, n);
    assert(rest@ =~= path@.skip(root@.len() as int));
    if rest.unicode_len() > 0 && rest.get_char(0) == '/' {
        let out = rest.substring_char(1, rest.unicode_len());
        assert(out@ =~= rest@.skip(1));
        out.to_owned()
    } else {
        rest.to_owned()
    }
}

/// The logical path a record carries: the file's explicit `cc_path` when
/// present, else the path relative to the project root.
pub open spec fn cc_path_spec(file: Option<FileV>, path: Seq<char>, root: Seq<char>) -> Seq<
    char,
> {
    match file {
        Some(f) => match f.cc_path {
            Some(p) => p,
            None => rel_to_root(path, root),
        },
        None => rel_to_root(path, root),
    }
}

/// The file-bearing record of the channel's kind.
pub open spec fn record_of(item_type: ProjectItemType, path: Seq<char>, data: Seq<char>) -> ReqV {
    let d = DataSyncV { file_path: path, file_data: data };
    match item_type {
        ProjectItemType::Resource => ReqV::Resource { data: d },
        ProjectItemType::Library => ReqV::Library { data: d },
        ProjectItemType::Script => ReqV::Script { data: d },
    }
}

/// Builds the file-bearing record of the channel's kind.
pub fn make_record(item_type: ProjectItemType, path: String, data: String) -> (r: RequestType)
    ensures
        r@ == record_of(item_type, path@, data@),
{
    let d = DataSync { file_path: path, file_data: data };
    match item_type {
        ProjectItemType::Resource => RequestType::Resource { data: d },
        ProjectItemType::Library => RequestType::Library { data: d },
        ProjectItemType::Script => RequestType::Script { data: d },
    }
}

/// The resolved minify flag of a matched tuple.
pub open spec fn tup_minify(
    dir: Option<DirectoryV>,
    file: Option<FileV>,
    item: ProjectItemV,
    project_minify: Option<bool>,
) -> bool {
    match dir {
        Some(d) => opt_or_bool(d.minify, item.minify, project_minify),
        None => match file {
            Some(f) => opt_or_bool(f.minify, item.minify, project_minify),
            None => false,
        },
    }
}

/// The resolved deflate flag of a matched tuple.
pub open spec fn tup_deflate(
    dir: Option<DirectoryV>,
    file: Option<FileV>,
    item: ProjectItemV,
    project_deflate: Option<bool>,
) -> bool {
    match dir {
        Some(d) => opt_or_bool(d.deflate_trickery, item.deflate_trickery, project_deflate),
        None => match file {
            Some(f) => opt_or_bool(f.deflate_trickery, item.deflate_trickery, project_deflate),
            None => false,
        },
    }
}

/// The resolved bundle flag of a matched tuple: only an explicitly listed
/// file can ask to be bundled.
pub open spec fn tup_bundle(dir: Option<DirectoryV>, file: Option<FileV>) -> bool {
    match dir {
        Some(_) => false,
        None => match file {
            Some(f) => match f.bundle {
                Some(b) => b,
                None => false,
            },
            None => false,
        },
    }
}

/// The record a matched tuple turns a file's text into.
pub open spec fn tup_record(
    dir: Option<DirectoryV>,
    file: Option<FileV>,
    item: ProjectItemV,
    project_minify: Option<bool>,
    project_deflate: Option<bool>,
    path: Seq<char>,
    root: Seq<char>,
    content: Seq<char>,
    entry_name: Seq<char>,
    modules: Map<Seq<char>, Seq<char>>,
) -> ReqV {
    let cc = match dir {
        Some(_) => rel_to_root(path, root),
        None => cc_path_spec(file, path, root),
    };
    let data = transformed_spec(
        content,
        item.item_type,
        tup_minify(dir, file, item, project_minify),
        tup_deflate(dir, file, item, project_deflate),
        tup_bundle(dir, file),
        entry_name,
        modules,
    );
    record_of(item.item_type, cc, data)
}

/// Whether a matched tuple produces a record at all: the match must name a
/// directory or an explicit file.
pub open spec fn tup_active(t: Option<(Option<DirectoryV>, Option<FileV>, ProjectItemV)>) -> bool {
    match t {
        Some((dir, file, _)) => dir is Some || file is Some,
        None => false,
    }
}

/// Whether the transform stages a matched tuple selects accept the text.
pub open spec fn tup_accepts(
    dir: Option<DirectoryV>,
    file: Option<FileV>,
    item: ProjectItemV,
    project_minify: Option<bool>,
    content: Seq<char>,
    entry_name: Seq<char>,
    modules: Map<Seq<char>, Seq<char>>,
) -> bool {
    transform_accepts(
        content,
        item.item_type,
        tup_minify(dir, file, item, project_minify),
        tup_bundle(dir, file),
        entry_name,
        modules,
    )
}

/// Spec view of a matched tuple.
pub open spec fn tup_view(t: &Option<(Option<Directory>, Option<File>, ProjectItem)>) -> Option<
    (Option<DirectoryV>, Option<FileV>, ProjectItemV),
> {
    match t {
        Some((dir, file, item)) => Some(
            (
                match dir {
                    Some(d) => Some(d@),
                    None => None,
                },
                match file {
                    Some(f) => Some(f@),
                    None => None,
                },
                item@,
            ),
        ),
        None => None,
    }
}

/// Transforms one file's text according to its matched tuple and appends the
/// resulting record to the batcher. `content` already carries the
/// require-prefix rewrite when one applies. The call succeeds exactly when
/// the stages the tuple selects accept the text; an unmatched file leaves
/// the batcher unchanged, as does a failed transform.
pub fn process_tup(
    tup: Option<(Option<Directory>, Option<File>, ProjectItem)>,
    batcher: &mut FileBatcher,
    project_minify: &Option<bool>,
    project_deflate: &Option<bool>,
    path: &String,
    project_root: &String,
    content: String,
    entry_name: &str,
    modules: &Vec<Module>,
) -> (r: Result<(), TransformError>)
    requires
        starts_with(path@, project_root@),
        tup_active(tup_view(&tup)) && tup_view(&tup)->Some_0.2.item_type
            != ProjectItemType::Resource && tup_bundle(
            tup_view(&tup)->Some_0.0,
            tup_view(&tup)->Some_0.1,
        ) ==> modules_wf(modules@) && plain_component(entry_name@),
    ensures
        r is Ok <==> (!tup_active(tup_view(&tup)) || tup_accepts(
            tup_view(&tup)->Some_0.0,
            tup_view(&tup)->Some_0.1,
            tup_view(&tup)->Some_0.2,
            *project_minify,
            content@,
            entry_name@,
            modules_map_spec(modules_view(modules@)),
        )),
        !tup_active(tup_view(&tup)) ==> r is Ok && batch_view(final(batcher).currently_in@)
            =~= batch_view(old(batcher).currently_in@),
        tup_active(tup_view(&tup)) && r is Ok ==> batch_view(final(batcher).currently_in@)
            =~= batch_view(old(batcher).currently_in@).push(
            tup_record(
                tup_view(&tup)->Some_0.0,
                tup_view(&tup)->Some_0.1,
                tup_view(&tup)->Some_0.2,
                *project_minify,
                *project_deflate,
                path@,
                project_root@,
                content@,
                entry_name@,
                modules_map_spec(modules_view(modules@)),
            ),
        ),
        r is Err ==> batch_view(final(batcher).currently_in@) =~= batch_view(
            old(batcher).currently_in@,
        ),
{
    match tup {
        None => Ok(()),
        Some((dir, file, item)) => {
            if dir.is_some() {
                let minify = pick_bool(&dir.as_ref().unwrap().minify, &item.minify, project_minify);
                let deflate = pick_bool(
                    &dir.as_ref().unwrap().deflate_trickery,
                    &item.deflate_trickery,
                    project_deflate,
                );
                let data = match process_content(
                    content,
                    item.item_type,
                    minify,
                    deflate,
                    false,
                    entry_name,
                    modules,
                ) {
                    Ok(d) => d,
                    Err(e) => {
                        return Err(e);
                    },
                };
                let cc = strip_root(path.as_str(), project_root.as_str());
                batcher.add_request(make_record(item.item_type, cc, data));
                Ok(())
            } else if file.is_some() {
                let f = file.unwrap();
                let minify = pick_bool(&f.minify, &item.minify, project_minify);
                let deflate = pick_bool(&f.deflate_trickery, &item.deflate_trickery, project_deflate);
                let bundle = match f.bundle {
                    Some(b) => b,
                    None => false,
                };
                let data = match process_content(
                    content,
                    item.item_type,
                    minify,
                    deflate,
                    bundle,
                    entry_name,
                    modules,
                ) {
                    Ok(d) => d,
                    Err(e) => {
                        return Err(e);
                    },
                };
                let cc = match f.cc_path {
                    Some(p) => p,
                    None => strip_root(path.as_str(), project_root.as_str()),
                };
                batcher.add_request(make_record(item.item_type, cc, data));
                Ok(())
            } else {
                Ok(())
            }
        },
    }
}

} // verus!
