//! Batching of outbound records and the merge pass that folds consecutive
//! deletion records into one.

use vstd::prelude::*;

use crate::structs::{DataSync, ReqV, RequestType, batch_view, strs_view};

verus! {

/// An ordered append-only buffer of records, drained once per sync interval.
pub struct FileBatcher {
    pub currently_in: Vec<RequestType>,
}

impl FileBatcher {
    pub fn new() -> (r: FileBatcher)
        ensures
            batch_view(r.currently_in@) =~= Seq::<ReqV>::empty(),
    {
        FileBatcher { currently_in: Vec::new() }
    }

    pub fn add_request(&mut self, req: RequestType)
        ensures
            batch_view(final(self).currently_in@) =~= batch_view(old(self).currently_in@).push(
                req@,
            ),
    {
        self.currently_in.push(req);
    }

    /// Hands back everything accumulated so far and resets the buffer.
    pub fn retrieve_batch(&mut self) -> (r: Vec<RequestType>)
        ensures
            r@ == old(self).currently_in@,
            final(self).currently_in@ =~= Seq::<RequestType>::empty(),
    {
        let r = self.currently_in.split_off(0);
        assert(r@ =~= old(self).currently_in@);
        assert(self.currently_in@ =~= Seq::<RequestType>::empty());
        r
    }
}

/// Clones a string, keeping its characters.
pub fn clone_string(s: &String) -> (r: String)
    ensures
        r@ == s@,
{
    s.clone()
}

/// Clones a list of strings, keeping every entry's characters.
pub fn clone_strings(v: &Vec<String>) -> (r: Vec<String>)
    ensures
        strs_view(&r) =~= strs_view(v),
{
    let mut r: Vec<String> = Vec::new();
    let mut i: usize = 0;
    while i < v.len()
        invariant
            i <= v.len(),
            r@.len() == i,
            forall|j: int| 0 <= j < i ==> r@[j]@ == v@[j]@,
        decreases v.len() - i,
    {
        r.push(v[i].clone());
        i = i + 1;
    }
    assert forall|j: int| 0 <= j < v@.len() implies strs_view(&r)[j] == strs_view(v)[j] by {
        assert(strs_view(&r)[j] == r@[j]@);
    }
    r
}

/// Clones an optional string, keeping its characters.
pub fn clone_opt_string(o: &Option<String>) -> (r: Option<String>)
    ensures
        crate::structs::opt_str_view(&r) == crate::structs::opt_str_view(o),
{
    match o {
        Some(s) => Some(s.clone()),
        None => None,
    }
}

/// Clones an optional list of strings, keeping every entry's characters.
pub fn clone_opt_strings(o: &Option<Vec<String>>) -> (r: Option<Vec<String>>)
    ensures
        crate::structs::opt_strs_view(&r) == crate::structs::opt_strs_view(o),
{
    match o {
        Some(v) => Some(clone_strings(v)),
        None => None,
    }
}

/// Clones a record, keeping its model.
pub fn clone_request(x: &RequestType) -> (r: RequestType)
    ensures
        r@ == x@,
{
    match x {
        RequestType::Resource { data } => RequestType::Resource {
            data: DataSync {
                file_path: clone_string(&data.file_path),
                file_data: clone_string(&data.file_data),
            },
        },
        RequestType::Library { data } => RequestType::Library {
            data: DataSync {
                file_path: clone_string(&data.file_path),
                file_data: clone_string(&data.file_data),
            },
        },
        RequestType::Script { data } => RequestType::Script {
            data: DataSync {
                file_path: clone_string(&data.file_path),
                file_data: clone_string(&data.file_data),
            },
        },
        RequestType::Deletion { files } => RequestType::Deletion { files: clone_strings(files) },
        RequestType::Chunk { file_data } => RequestType::Chunk {
            file_data: clone_string(file_data),
        },
    }
}

/// One step of the merge pass with `pending` deletion names accumulated so
/// far: consecutive deletion records pour their names into `pending`, and any
/// other record first flushes `pending` as a single deletion record.
pub open spec fn merge_rec(b: Seq<ReqV>, pending: Seq<Seq<char>>) -> Seq<ReqV>
    decreases b.len(),
{
    if b.len() == 0 {
        if pending.len() > 0 {
            seq![ReqV::Deletion { files: pending }]
        } else {
            Seq::empty()
        }
    } else {
        match b[0] {
            ReqV::Deletion { files } => merge_rec(b.drop_first(), pending + files),
            _ => {
                let flushed: Seq<ReqV> = if pending.len() > 0 {
                    seq![ReqV::Deletion { files: pending }]
                } else {
                    Seq::empty()
                };
                flushed + seq![b[0]] + merge_rec(b.drop_first(), Seq::empty())
            },
        }
    }
}

/// The merge pass: consecutive deletion records collapse into one, in order;
/// every other record passes through unchanged.
pub open spec fn merge_spec(b: Seq<ReqV>) -> Seq<ReqV> {
    merge_rec(b, Seq::empty())
}

/// Folds consecutive `Deletion` records of a batch into single records whose
/// name lists are the concatenation, in order, of the originals.
pub fn merge(batch: Vec<RequestType>) -> (res: Vec<RequestType>)
    ensures
        batch_view(res@) == merge_spec(batch_view(batch@)),
{
    let ghost whole = batch_view(batch@);
    let mut res: Vec<RequestType> = Vec::new();
    let mut del_vec: Vec<String> = Vec::new();
    let mut i: usize = 0;
    proof {
        assert(batch_view(res@) =~= Seq::<ReqV>::empty());
        assert(strs_view(&del_vec) =~= Seq::<Seq<char>>::empty());
        assert(batch_view(batch@).skip(0) =~= batch_view(batch@));
        assert(Seq::<ReqV>::empty() + merge_rec(batch_view(batch@), Seq::empty()) =~= merge_rec(
            batch_view(batch@),
            Seq::empty(),
        ));
    }
    while i < batch.len()
        invariant
            i <= batch.len(),
            whole == batch_view(batch@),
            merge_spec(whole) == batch_view(res@) + merge_rec(
                batch_view(batch@).skip(i as int),
                strs_view(&del_vec),
            ),
        decreases batch.len() - i,
    {
        let ghost rest = batch_view(batch@).skip(i as int);
        assert(rest[0] == batch@[i as int]@);
        match &batch[i] {
            RequestType::Deletion { files } => {
                let mut j: usize = 0;
                let ghost del0 = strs_view(&del_vec);
                let ghost fs = strs_view(files);
                while j < files.len()
                    invariant
                        j <= files.len(),
                        fs == strs_view(files),
                        strs_view(&del_vec) =~= del0 + fs.take(j as int),
                    decreases files.len() - j,
                {
                    del_vec.push(files[j].clone());
                    assert(strs_view(&del_vec) =~= del0 + fs.take(j as int) + seq![fs[j as int]]);
                    assert(del0 + fs.take(j as int) + seq![fs[j as int]] =~= del0 + fs.take(
                        j as int + 1,
                    ));
                    j = j + 1;
                }
                assert(strs_view(&del_vec) =~= del0 + fs);
                assert(rest.drop_first() =~= batch_view(batch@).skip(i as int + 1));
                assert(merge_rec(rest, del0) == merge_rec(
                    batch_view(batch@).skip(i as int + 1),
                    del0 + fs,
                ));
            },
            _ => {
                let ghost res0 = batch_view(res@);
                let ghost del0 = strs_view(&del_vec);
                let ghost flushedv: Seq<ReqV> = if del0.len() > 0 {
                    seq![ReqV::Deletion { files: del0 }]
                } else {
                    Seq::empty()
                };
                if del_vec.len() > 0 {
                    let mut flushed: Vec<String> = Vec::new();
                    core::mem::swap(&mut flushed, &mut del_vec);
                    assert(strs_view(&flushed) =~= del0);
                    res.push(RequestType::Deletion { files: flushed });
                }
                res.push(clone_request(&batch[i]));
                proof {
                    assert(strs_view(&del_vec) =~= Seq::<Seq<char>>::empty());
                    assert(batch_view(res@) =~= res0 + flushedv + seq![rest[0]]);
                    assert(rest.drop_first() =~= batch_view(batch@).skip(i as int + 1));
                    let tail = merge_rec(batch_view(batch@).skip(i as int + 1), Seq::empty());
                    assert(merge_rec(rest, del0) == flushedv + seq![rest[0]] + tail);
                    assert(res0 + flushedv + seq![rest[0]] + tail =~= res0 + (flushedv
                        + seq![rest[0]] + tail));
                    assert(batch_view(res@) + merge_rec(
                        batch_view(batch@).skip(i as int + 1),
                        strs_view(&del_vec),
                    ) =~= merge_spec(whole));
                }
            },
        }
        i = i + 1;
    }
    assert(batch_view(batch@).skip(batch.len() as int) =~= Seq::<ReqV>::empty());
    if del_vec.len() > 0 {
        res.push(RequestType::Deletion { files: del_vec });
        assert(batch_view(res@) =~= merge_spec(whole));
    } else {
        assert(batch_view(res@) =~= merge_spec(whole));
    }
    res
}

/// A batch in fully merged shape: every deletion record is non-empty and is
/// not immediately followed by another deletion record.
pub open spec fn well_merged(s: Seq<ReqV>) -> bool {
    forall|i: int|
        0 <= i < s.len() && s[i] is Deletion ==> (s[i]->Deletion_files.len() > 0 && (i + 1 < s.len()
            ==> !(s[i + 1] is Deletion)))
}

/// The merge pass always yields a fully merged batch: at most one deletion
/// record stands where a run of consecutive deletions stood.
pub proof fn lemma_merge_rec_well_merged(b: Seq<ReqV>, pending: Seq<Seq<char>>)
    ensures
        well_merged(merge_rec(b, pending)),
    decreases b.len(),
{
    if b.len() == 0 {
    } else {
        match b[0] {
            ReqV::Deletion { files } => {
                lemma_merge_rec_well_merged(b.drop_first(), pending + files);
            },
            _ => {
                lemma_merge_rec_well_merged(b.drop_first(), Seq::empty());
                let flushed: Seq<ReqV> = if pending.len() > 0 {
                    seq![ReqV::Deletion { files: pending }]
                } else {
                    Seq::empty()
                };
                let tail = merge_rec(b.drop_first(), Seq::empty());
                let whole = flushed + seq![b[0]] + tail;
                assert forall|i: int| 0 <= i < whole.len() && whole[i] is Deletion implies (
                whole[i]->Deletion_files.len() > 0 && (i + 1 < whole.len() ==> !(whole[i + 1]
                    is Deletion))) by {
                    if i < flushed.len() {
                        assert(whole[i] == flushed[0]);
                        assert(whole[i + 1] == b[0]);
                    } else if i == flushed.len() {
                        assert(whole[i] == b[0]);
                    } else {
                        let k = i - flushed.len() - 1;
                        assert(whole[i] == tail[k]);
                        if i + 1 < whole.len() {
                            assert(whole[i + 1] == tail[k + 1]);
                        }
                    }
                }
            },
        }
    }
}

/// Merging a fully merged batch gives it back unchanged.
pub proof fn lemma_merge_of_well_merged(s: Seq<ReqV>)
    requires
        well_merged(s),
    ensures
        merge_spec(s) == s,
    decreases s.len(),
{
    if s.len() == 0 {
        assert(merge_spec(s) =~= s);
    } else {
        let s1 = s.drop_first();
        assert(well_merged(s1)) by {
            assert forall|i: int| 0 <= i < s1.len() && s1[i] is Deletion implies (
            s1[i]->Deletion_files.len() > 0 && (i + 1 < s1.len() ==> !(s1[i + 1] is Deletion))) by {
                assert(s1[i] == s[i + 1]);
                if i + 1 < s1.len() {
                    assert(s1[i + 1] == s[i + 2]);
                }
            }
        }
        match s[0] {
            ReqV::Deletion { files } => {
                assert(files.len() > 0);
                if s1.len() == 0 {
                    assert(merge_rec(s1, Seq::<Seq<char>>::empty() + files) =~= s);
                } else {
                    assert(!(s1[0] is Deletion));
                    lemma_merge_of_well_merged(s1);
                    let pend = Seq::<Seq<char>>::empty() + files;
                    assert(pend =~= files);
                    // both sides unfold around the non-deletion head of s1
                    assert(merge_rec(s1, files) == seq![ReqV::Deletion { files }] + seq![s1[0]]
                        + merge_rec(s1.drop_first(), Seq::empty()));
                    assert(merge_spec(s1) == Seq::<ReqV>::empty() + seq![s1[0]] + merge_rec(
                        s1.drop_first(),
                        Seq::empty(),
                    ));
                    assert(Seq::<ReqV>::empty() + seq![s1[0]] + merge_rec(
                        s1.drop_first(),
                        Seq::empty(),
                    ) =~= seq![s1[0]] + merge_rec(s1.drop_first(), Seq::empty()));
                    assert(merge_rec(s1, files) =~= seq![ReqV::Deletion { files }] + merge_spec(
                        s1,
                    ));
                    assert(merge_spec(s) =~= s);
                }
            },
            _ => {
                lemma_merge_of_well_merged(s1);
                assert(merge_spec(s) == Seq::<ReqV>::empty() + seq![s[0]] + merge_spec(s1));
                assert(merge_spec(s) =~= s);
            },
        }
    }
}

/// Merging is idempotent: a second merge pass changes nothing.
pub proof fn lemma_merge_idempotent(b: Seq<ReqV>)
    ensures
        merge_spec(merge_spec(b)) == merge_spec(b),
{
    lemma_merge_rec_well_merged(b, Seq::empty());
    lemma_merge_of_well_merged(merge_spec(b));
}

/// The deletion names of a batch, flattened in order.
pub open spec fn deletion_names(s: Seq<ReqV>) -> Seq<Seq<char>>
    decreases s.len(),
{
    if s.len() == 0 {
        Seq::empty()
    } else {
        match s[0] {
            ReqV::Deletion { files } => files + deletion_names(s.drop_first()),
            _ => deletion_names(s.drop_first()),
        }
    }
}

/// The flattened deletion names of a single record.
proof fn lemma_deletion_names_single(r: ReqV)
    ensures
        r is Deletion ==> deletion_names(seq![r]) =~= r->Deletion_files,
        !(r is Deletion) ==> deletion_names(seq![r]) =~= Seq::<Seq<char>>::empty(),
{
    let s = seq![r];
    assert(s[0] == r);
    assert(s.drop_first().len() == 0);
    assert(deletion_names(s.drop_first()) =~= Seq::<Seq<char>>::empty());
    match r {
        ReqV::Deletion { files } => {
            assert(deletion_names(s) =~= files + Seq::<Seq<char>>::empty());
        },
        _ => {
            assert(deletion_names(s) =~= Seq::<Seq<char>>::empty());
        },
    }
}

proof fn lemma_merge_rec_deletion_names(b: Seq<ReqV>, pending: Seq<Seq<char>>)
    ensures
        deletion_names(merge_rec(b, pending)) =~= pending + deletion_names(b),
    decreases b.len(),
{
    if b.len() == 0 {
        if pending.len() > 0 {
            lemma_deletion_names_single(ReqV::Deletion { files: pending });
        }
    } else {
        match b[0] {
            ReqV::Deletion { files } => {
                lemma_merge_rec_deletion_names(b.drop_first(), pending + files);
                assert(pending + files + deletion_names(b.drop_first()) =~= pending
                    + deletion_names(b));
            },
            _ => {
                lemma_merge_rec_deletion_names(b.drop_first(), Seq::empty());
                let flushed: Seq<ReqV> = if pending.len() > 0 {
                    seq![ReqV::Deletion { files: pending }]
                } else {
                    Seq::empty()
                };
                let tail = merge_rec(b.drop_first(), Seq::empty());
                lemma_deletion_names_concat(flushed + seq![b[0]], tail);
                lemma_deletion_names_concat(flushed, seq![b[0]]);
                lemma_deletion_names_single(b[0]);
                if pending.len() > 0 {
                    lemma_deletion_names_single(ReqV::Deletion { files: pending });
                }
                assert(deletion_names(flushed) =~= pending);
                assert(deletion_names(tail) =~= Seq::<Seq<char>>::empty() + deletion_names(
                    b.drop_first(),
                ));
                assert(deletion_names(merge_rec(b, pending)) =~= pending + deletion_names(
                    b.drop_first(),
                ));
                assert(pending + deletion_names(b.drop_first()) =~= pending + deletion_names(b));
            },
        }
    }
}

/// Splitting a record sequence splits its flattened deletion names.
pub proof fn lemma_deletion_names_concat(a: Seq<ReqV>, b: Seq<ReqV>)
    ensures
        deletion_names(a + b) =~= deletion_names(a) + deletion_names(b),
    decreases a.len(),
{
    if a.len() == 0 {
        assert(a + b =~= b);
    } else {
        lemma_deletion_names_concat(a.drop_first(), b);
        assert((a + b).drop_first() =~= a.drop_first() + b);
        match a[0] {
            ReqV::Deletion { files } => {
                assert((a + b)[0] == a[0]);
                assert(files + (deletion_names(a.drop_first()) + deletion_names(b)) =~= (files
                    + deletion_names(a.drop_first())) + deletion_names(b));
            },
            _ => {
                assert((a + b)[0] == a[0]);
            },
        }
    }
}

/// After the merge pass, runs of consecutive deletions stand as at most one
/// deletion record each, and the flattened deletion names keep their order.
pub proof fn lemma_merge_deletion_names(b: Seq<ReqV>)
    ensures
        well_merged(merge_spec(b)),
        deletion_names(merge_spec(b)) =~= deletion_names(b),
{
    lemma_merge_rec_well_merged(b, Seq::empty());
    lemma_merge_rec_deletion_names(b, Seq::empty());
    assert(Seq::<Seq<char>>::empty() + deletion_names(b) =~= deletion_names(b));
}

} // verus!
