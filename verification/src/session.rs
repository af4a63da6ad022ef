//! Per-subscriber orchestration that needs no I/O: building the initial
//! snapshot from the resolved files, and turning change events into records.
//! The surrounding event loop, timers and the duplex peer live outside the
//! library; they hand in file contents and take frames back.

use vstd::prelude::*;

use crate::batch::FileBatcher;
use crate::structs::{
    Directory, DirectoryV, File, FileV, ProjectItem, ProjectItemV, ReqV, RequestType, TransformError,
    batch_view, strs_view,
};
use crate::transform::{
    Module, cc_path_spec, clone_modules, modules_map_spec, modules_view, modules_wf, process_tup,
    rel_to_root, strip_root, tup_accepts, tup_active, tup_bundle, tup_record, tup_view,
};
use crate::structs::{ProjectItemType, plain_component};
use crate::mask::starts_with;
use crate::resolve::{clone_directory, clone_file, clone_item};

verus! {

/// One file of the initial snapshot, prepared for the pipeline: its absolute
/// path, its text (with the require-prefix rewrite already applied when one
/// applies), the tuple it resolved to, the name the bundler knows it by, and
/// the modules registered for it when it asks to be bundled (prepared with
/// this file's own resolved prefix).
pub struct SnapshotInput {
    pub path: String,
    pub content: String,
    pub tup: Option<(Option<Directory>, Option<File>, ProjectItem)>,
    pub entry_name: String,
    pub modules: Vec<Module>,
}

/// Mathematical model of a `SnapshotInput`.
pub struct SnapshotInputV {
    pub path: Seq<char>,
    pub content: Seq<char>,
    pub tup: Option<(Option<DirectoryV>, Option<FileV>, ProjectItemV)>,
    pub entry_name: Seq<char>,
    pub modules: Map<Seq<char>, Seq<char>>,
}

impl View for SnapshotInput {
    type V = SnapshotInputV;

    open spec fn view(&self) -> SnapshotInputV {
        SnapshotInputV {
            path: self.path@,
            content: self.content@,
            tup: tup_view(&self.tup),
            entry_name: self.entry_name@,
            modules: modules_map_spec(modules_view(self.modules@)),
        }
    }
}

/// The input asks to be bundled: its file entry carries the flag and its
/// channel is no resource.
pub open spec fn input_bundles(inp: SnapshotInputV) -> bool {
    tup_active(inp.tup) && inp.tup->Some_0.2.item_type != ProjectItemType::Resource
        && tup_bundle(inp.tup->Some_0.0, inp.tup->Some_0.1)
}

/// The transform stages the input's tuple selects accept its text.
pub open spec fn input_accepts(inp: SnapshotInputV, project_minify: Option<bool>) -> bool {
    !tup_active(inp.tup) || tup_accepts(
        inp.tup->Some_0.0,
        inp.tup->Some_0.1,
        inp.tup->Some_0.2,
        project_minify,
        inp.content,
        inp.entry_name,
        inp.modules,
    )
}

/// Every input's selected transform stages accept its text.
pub open spec fn snapshot_accepts(inputs: Seq<SnapshotInputV>, project_minify: Option<bool>) -> bool {
    forall|i: int| 0 <= i < inputs.len() ==> input_accepts(#[trigger] inputs[i], project_minify)
}

/// The logical path an input's record will carry.
pub open spec fn input_cc_path(inp: SnapshotInputV, root: Seq<char>) -> Seq<char> {
    match inp.tup {
        Some((dir, file, _)) => match dir {
            Some(_) => rel_to_root(inp.path, root),
            None => cc_path_spec(file, inp.path, root),
        },
        None => rel_to_root(inp.path, root),
    }
}

/// The records of the initial snapshot, one per input that resolved to a
/// directory or an explicit file, in input order.
pub open spec fn snapshot_records(
    inputs: Seq<SnapshotInputV>,
    project_minify: Option<bool>,
    project_deflate: Option<bool>,
    root: Seq<char>,
) -> Seq<ReqV>
    decreases inputs.len(),
{
    if inputs.len() == 0 {
        Seq::empty()
    } else {
        let head: Seq<ReqV> = if tup_active(inputs[0].tup) {
            seq![
                tup_record(
                    inputs[0].tup->Some_0.0,
                    inputs[0].tup->Some_0.1,
                    inputs[0].tup->Some_0.2,
                    project_minify,
                    project_deflate,
                    inputs[0].path,
                    root,
                    inputs[0].content,
                    inputs[0].entry_name,
                    inputs[0].modules,
                ),
            ]
        } else {
            Seq::empty()
        };
        head + snapshot_records(inputs.drop_first(), project_minify, project_deflate, root)
    }
}

/// The logical paths of the snapshot's inputs that produce a record, in
/// order.
pub open spec fn snapshot_cc_paths(inputs: Seq<SnapshotInputV>, root: Seq<char>) -> Seq<Seq<char>>
    decreases inputs.len(),
{
    if inputs.len() == 0 {
        Seq::empty()
    } else {
        let head: Seq<Seq<char>> = if tup_active(inputs[0].tup) {
            seq![input_cc_path(inputs[0], root)]
        } else {
            Seq::empty()
        };
        head + snapshot_cc_paths(inputs.drop_first(), root)
    }
}

/// Spec view of a list of snapshot inputs.
pub open spec fn inputs_view(v: Seq<SnapshotInput>) -> Seq<SnapshotInputV> {
    v.map_values(|i: SnapshotInput| i@)
}

/// The initial snapshot delivers exactly one record per resolved file, and
/// the multiset of logical paths in those records equals the multiset of
/// logical paths of the resolved files.
pub proof fn lemma_snapshot_paths(
    inputs: Seq<SnapshotInputV>,
    project_minify: Option<bool>,
    project_deflate: Option<bool>,
    root: Seq<char>,
)
    ensures
        snapshot_records(inputs, project_minify, project_deflate, root).map_values(
            |r: ReqV| r.head_path(),
        ) =~= snapshot_cc_paths(inputs, root),
        snapshot_records(inputs, project_minify, project_deflate, root).map_values(
            |r: ReqV| r.head_path(),
        ).to_multiset() == snapshot_cc_paths(inputs, root).to_multiset(),
    decreases inputs.len(),
{
    if inputs.len() == 0 {
        assert(snapshot_records(inputs, project_minify, project_deflate, root).map_values(
            |r: ReqV| r.head_path(),
        ) =~= Seq::<Seq<char>>::empty());
    } else {
        lemma_snapshot_paths(inputs.drop_first(), project_minify, project_deflate, root);
        let rest = snapshot_records(inputs.drop_first(), project_minify, project_deflate, root);
        if tup_active(inputs[0].tup) {
            let rec = tup_record(
                inputs[0].tup->Some_0.0,
                inputs[0].tup->Some_0.1,
                inputs[0].tup->Some_0.2,
                project_minify,
                project_deflate,
                inputs[0].path,
                root,
                inputs[0].content,
                inputs[0].entry_name,
                inputs[0].modules,
            );
            assert(rec.head_path() == input_cc_path(inputs[0], root)) by {
                let t = inputs[0].tup->Some_0;
                match t.2.item_type {
                    crate::structs::ProjectItemType::Resource => {},
                    crate::structs::ProjectItemType::Library => {},
                    crate::structs::ProjectItemType::Script => {},
                }
            }
        }
    }
}

/// Builds the initial snapshot: each prepared input runs through the
/// transform pipeline and its record enters the batcher, in input order. The
/// call succeeds exactly when every input's selected stages accept its text;
/// on a failure the batcher keeps the records built so far and the error is
/// handed back.
pub fn build_snapshot(
    inputs: &Vec<SnapshotInput>,
    batcher: &mut FileBatcher,
    project_minify: &Option<bool>,
    project_deflate: &Option<bool>,
    project_root: &String,
) -> (r: Result<(), TransformError>)
    requires
        forall|i: int|
            0 <= i < inputs@.len() ==> starts_with(
                #[trigger] inputs@[i].path@,
                project_root@,
            ),
        forall|i: int|
            0 <= i < inputs@.len() && input_bundles(#[trigger] inputs@[i]@) ==> modules_wf(
                inputs@[i].modules@,
            ) && plain_component(inputs@[i].entry_name@),
    ensures
        r is Ok <==> snapshot_accepts(inputs_view(inputs@), *project_minify),
        r is Ok ==> batch_view(final(batcher).currently_in@) =~= batch_view(
            old(batcher).currently_in@,
        ) + snapshot_records(
            inputs_view(inputs@),
            *project_minify,
            *project_deflate,
            project_root@,
        ),
{
    let ghost iv = inputs_view(inputs@);
    let mut i: usize = 0;
    proof {
        assert(iv.skip(0) =~= iv);
        assert(batch_view(batcher.currently_in@) + Seq::<ReqV>::empty() =~= batch_view(
            batcher.currently_in@,
        ));
    }
    while i < inputs.len()
        invariant
            i <= inputs.len(),
            iv == inputs_view(inputs@),
            forall|k: int|
                0 <= k < inputs@.len() ==> starts_with(
                    #[trigger] inputs@[k].path@,
                    project_root@,
                ),
            forall|k: int|
                0 <= k < inputs@.len() && input_bundles(#[trigger] inputs@[k]@) ==> modules_wf(
                    inputs@[k].modules@,
                ) && plain_component(inputs@[k].entry_name@),
            forall|k: int| 0 <= k < i ==> input_accepts(#[trigger] iv[k], *project_minify),
            batch_view(batcher.currently_in@) + snapshot_records(
                iv.skip(i as int),
                *project_minify,
                *project_deflate,
                project_root@,
            ) =~= batch_view(old(batcher).currently_in@) + snapshot_records(
                iv,
                *project_minify,
                *project_deflate,
                project_root@,
            ),
        decreases inputs.len() - i,
    {
        let ghost rest = iv.skip(i as int);
        let ghost batch0 = batch_view(batcher.currently_in@);
        assert(rest[0] == inputs@[i as int]@);
        let inp = &inputs[i];
        let tup = clone_tup(&inp.tup);
        assert(tup_view(&tup) == rest[0].tup);
        let content = crate::batch::clone_string(&inp.content);
        let input_modules = clone_modules(&inp.modules);
        proof {
            assert(modules_map_spec(modules_view(input_modules@)) == rest[0].modules);
            if input_bundles(rest[0]) {
                assert(modules_wf(inp.modules@));
                assert(modules_wf(input_modules@)) by {
                    assert forall|j: int|
                        0 <= j < input_modules@.len() implies plain_component(
                        (#[trigger] input_modules@[j]).name@,
                    ) by {
                        assert(modules_view(input_modules@)[j] == modules_view(inp.modules@)[j]);
                        assert(input_modules@[j].name@ == inp.modules@[j].name@);
                    }
                }
            }
        }
        match process_tup(
            tup,
            batcher,
            project_minify,
            project_deflate,
            &inp.path,
            project_root,
            content,
            inp.entry_name.as_str(),
            &input_modules,
        ) {
            Ok(()) => {},
            Err(e) => {
                proof {
                    assert(!input_accepts(rest[0], *project_minify));
                    assert(!snapshot_accepts(iv, *project_minify));
                }
                return Err(e);
            },
        }
        proof {
            assert(input_accepts(rest[0], *project_minify));
            assert(rest.drop_first() =~= iv.skip(i as int + 1));
            if tup_active(rest[0].tup) {
                assert(batch_view(batcher.currently_in@) =~= batch0.push(
                    tup_record(
                        rest[0].tup->Some_0.0,
                        rest[0].tup->Some_0.1,
                        rest[0].tup->Some_0.2,
                        *project_minify,
                        *project_deflate,
                        rest[0].path,
                        project_root@,
                        rest[0].content,
                        rest[0].entry_name,
                        rest[0].modules,
                    ),
                ));
                assert(batch0.push(
                    tup_record(
                        rest[0].tup->Some_0.0,
                        rest[0].tup->Some_0.1,
                        rest[0].tup->Some_0.2,
                        *project_minify,
                        *project_deflate,
                        rest[0].path,
                        project_root@,
                        rest[0].content,
                        rest[0].entry_name,
                        rest[0].modules,
                    ),
                ) + snapshot_records(rest.drop_first(), *project_minify, *project_deflate, project_root@)
                    =~= batch0 + snapshot_records(rest, *project_minify, *project_deflate, project_root@));
            } else {
                assert(batch_view(batcher.currently_in@) =~= batch0);
                assert(batch0 + snapshot_records(rest.drop_first(), *project_minify, *project_deflate, project_root@)
                    =~= batch0 + snapshot_records(rest, *project_minify, *project_deflate, project_root@));
            }
        }
        i = i + 1;
    }
    proof {
        assert(iv.skip(inputs@.len() as int) =~= Seq::<SnapshotInputV>::empty());
        assert(batch_view(batcher.currently_in@) + Seq::<ReqV>::empty() =~= batch_view(
            batcher.currently_in@,
        ));
    }
    Ok(())
}

/// Clones a matched tuple, keeping its model.
pub fn clone_tup(t: &Option<(Option<Directory>, Option<File>, ProjectItem)>) -> (r: Option<
    (Option<Directory>, Option<File>, ProjectItem),
>)
    ensures
        tup_view(&r) == tup_view(t),
{
    match t {
        Some((dir, file, item)) => Some(
            (
                match dir {
                    Some(d) => Some(clone_directory(d)),
                    None => None,
                },
                match file {
                    Some(f) => Some(clone_file(f)),
                    None => None,
                },
                clone_item(item),
            ),
        ),
        None => None,
    }
}

/// Turns a deletion event into a record: the matched file's logical path (or
/// the path relative to the root, for a directory match) enters the batcher
/// as a one-entry deletion. An unmatched path changes nothing.
pub fn enqueue_deletion(
    tup: Option<(Option<Directory>, Option<File>, ProjectItem)>,
    batcher: &mut FileBatcher,
    path: &String,
    project_root: &String,
)
    requires
        starts_with(path@, project_root@),
    ensures
        !tup_active(tup_view(&tup)) ==> batch_view(final(batcher).currently_in@) =~= batch_view(
            old(batcher).currently_in@,
        ),
        tup_active(tup_view(&tup)) ==> batch_view(final(batcher).currently_in@) =~= batch_view(
            old(batcher).currently_in@,
        ).push(
            ReqV::Deletion {
                files: seq![
                    match tup_view(&tup)->Some_0.0 {
                        Some(_) => rel_to_root(path@, project_root@),
                        None => cc_path_spec(tup_view(&tup)->Some_0.1, path@, project_root@),
                    },
                ],
            },
        ),
{
    match tup {
        None => {},
        Some((dir, file, _item)) => {
            if dir.is_some() {
                let cc = strip_root(path.as_str(), project_root.as_str());
                let mut files: Vec<String> = Vec::new();
                files.push(cc);
                assert(strs_view(&files) =~= seq![rel_to_root(path@, project_root@)]);
                batcher.add_request(RequestType::Deletion { files });
            } else if file.is_some() {
                let f = file.unwrap();
                let cc = match f.cc_path {
                    Some(p) => p,
                    None => strip_root(path.as_str(), project_root.as_str()),
                };
                let ghost ccv = cc@;
                let mut files: Vec<String> = Vec::new();
                files.push(cc);
                assert(strs_view(&files) =~= seq![ccv]);
                batcher.add_request(RequestType::Deletion { files });
            }
        },
    }
}

} // verus!
