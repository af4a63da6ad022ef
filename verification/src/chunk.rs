//! Splitting a merged batch into frames: each frame carries at most `max`
//! payload characters, and an oversized file payload is split into a head
//! record followed by continuation chunks.

use vstd::prelude::*;

use crate::batch::clone_string;
use crate::structs::{DataSync, DataSyncV, ReqV, RequestType, batch_view, names_len, strs_view};

verus! {

/// Splits a character sequence into pieces of exactly `max` characters, the
/// last piece possibly shorter.
pub open spec fn split_chunks(s: Seq<char>, max: int) -> Seq<Seq<char>>
    decreases s.len(),
{
    if max < 1 || s.len() == 0 {
        Seq::empty()
    } else if s.len() <= max {
        seq![s]
    } else {
        seq![s.take(max)] + split_chunks(s.skip(max), max)
    }
}

/// The pieces of a split: every piece has at most `max` characters, every
/// piece except the last exactly `max`, and together they restore the input.
pub proof fn lemma_split_chunks(s: Seq<char>, max: int)
    requires
        max >= 1,
    ensures
        split_chunks(s, max).flatten() =~= s,
        forall|i: int|
            0 <= i < split_chunks(s, max).len() ==> #[trigger] split_chunks(s, max)[i].len()
                <= max,
        forall|i: int|
            0 <= i < split_chunks(s, max).len() - 1 ==> #[trigger] split_chunks(s, max)[i].len()
                == max,
        s.len() > 0 ==> split_chunks(s, max).len() >= 1 && split_chunks(s, max)[0] == if s.len()
            <= max {
            s
        } else {
            s.take(max)
        },
    decreases s.len(),
{
    let p = split_chunks(s, max);
    if s.len() == 0 {
        assert(p.flatten() =~= s);
    } else if s.len() <= max {
        assert(p.drop_first().len() == 0);
        assert(p.drop_first().flatten() =~= Seq::<char>::empty());
        assert(p.first() == s);
        assert(p.flatten() == s + p.drop_first().flatten());
        assert(p.flatten() =~= s);
    } else {
        lemma_split_chunks(s.skip(max), max);
        let rest = split_chunks(s.skip(max), max);
        assert(p.drop_first() =~= rest);
        assert(p.flatten() == s.take(max) + rest.flatten());
        assert(s.take(max) + s.skip(max) =~= s);
        assert forall|i: int| 0 <= i < p.len() implies #[trigger] p[i].len() <= max by {
            if i > 0 {
                assert(p[i] == rest[i - 1]);
            }
        }
        assert forall|i: int| 0 <= i < p.len() - 1 implies #[trigger] p[i].len() == max by {
            if i > 0 {
                assert(p[i] == rest[i - 1]);
            }
        }
    }
}

/// Splits a string into pieces of at most `chunk_size` characters, on
/// character boundaries.
pub fn chunk_string(s: &str, chunk_size: usize) -> (r: Vec<String>)
    requires
        chunk_size >= 1,
    ensures
        strs_view(&r) =~= split_chunks(s@, chunk_size as int),
{
    let len = s.unicode_len();
    let mut r: Vec<String> = Vec::new();
    let mut i: usize = 0;
    proof {
        assert(strs_view(&r) =~= Seq::<Seq<char>>::empty());
        assert(s@.skip(0) =~= s@);
        assert(Seq::<Seq<char>>::empty() + split_chunks(s@, chunk_size as int) =~= split_chunks(
            s@,
            chunk_size as int,
        ));
    }
    while i < len
        invariant
            i <= len,
            len == s@.len(),
            chunk_size >= 1,
            split_chunks(s@, chunk_size as int) =~= strs_view(&r) + split_chunks(
                s@.skip(i as int),
                chunk_size as int,
            ),
        decreases len - i,
    {
        let ghost rest = s@.skip(i as int);
        let ghost r0 = strs_view(&r);
        if len - i <= chunk_size {
            let piece = s.substring_char(i, len);
            r.push(piece.to_owned());
            proof {
                assert(rest.len() <= chunk_size as int);
                assert(piece@ =~= rest);
                assert(strs_view(&r) =~= r0.push(rest));
                assert(split_chunks(rest, chunk_size as int) == seq![rest]);
                assert(s@.skip(len as int).len() == 0);
                assert(r0.push(rest) + split_chunks(s@.skip(len as int), chunk_size as int) =~= r0
                    + seq![rest]);
            }
            i = len;
        } else {
            let piece = s.substring_char(i, i + chunk_size);
            r.push(piece.to_owned());
            proof {
                assert(rest.len() > chunk_size as int);
                assert(piece@ =~= rest.take(chunk_size as int));
                assert(strs_view(&r) =~= r0.push(rest.take(chunk_size as int)));
                assert(rest.skip(chunk_size as int) =~= s@.skip(i as int + chunk_size as int));
                assert(r0.push(rest.take(chunk_size as int)) + split_chunks(
                    s@.skip(i as int + chunk_size as int),
                    chunk_size as int,
                ) =~= r0 + (seq![rest.take(chunk_size as int)] + split_chunks(
                    rest.skip(chunk_size as int),
                    chunk_size as int,
                )));
            }
            i = i + chunk_size;
        }
    }
    proof {
        assert(s@.skip(len as int).len() == 0);
        assert(strs_view(&r) + Seq::<Seq<char>>::empty() =~= strs_view(&r));
    }
    r
}

/// The running state of the chunking pass: finished frames, the frame under
/// construction, and the payload characters charged to it so far.
pub struct ChunkSt {
    pub out: Seq<Seq<ReqV>>,
    pub cur: Seq<ReqV>,
    pub size: int,
}

/// The empty chunking state.
pub open spec fn chunk_init() -> ChunkSt {
    ChunkSt { out: Seq::empty(), cur: Seq::empty(), size: 0 }
}

/// Closes the frame under construction, dropping it if empty.
pub open spec fn chunk_flush(st: ChunkSt) -> ChunkSt {
    ChunkSt {
        out: if st.cur.len() > 0 {
            st.out.push(st.cur)
        } else {
            st.out
        },
        cur: Seq::empty(),
        size: 0,
    }
}

/// Appends the continuation chunks of an oversized payload, closing a frame
/// whenever the running size reaches `max`.
pub open spec fn chunk_pieces_fold(st: ChunkSt, pieces: Seq<Seq<char>>, max: int) -> ChunkSt
    decreases pieces.len(),
{
    if pieces.len() == 0 {
        st
    } else {
        let cur1 = st.cur.push(ReqV::Chunk { file_data: pieces[0] });
        let st1 = if st.size + pieces[0].len() >= max {
            ChunkSt { out: st.out.push(cur1), cur: Seq::empty(), size: 0 }
        } else {
            ChunkSt { out: st.out, cur: cur1, size: st.size + pieces[0].len() }
        };
        chunk_pieces_fold(st1, pieces.drop_first(), max)
    }
}

/// One deletion name: when it no longer fits, the accumulated names close as
/// one deletion record and the frame is flushed before the name is charged.
pub open spec fn del_step(st: ChunkSt, acc: Seq<Seq<char>>, f: Seq<char>, max: int) -> (
    ChunkSt,
    Seq<Seq<char>>,
) {
    if st.size + f.len() > max {
        let cur1 = if acc.len() > 0 {
            st.cur.push(ReqV::Deletion { files: acc })
        } else {
            st.cur
        };
        let out1 = if cur1.len() > 0 {
            st.out.push(cur1)
        } else {
            st.out
        };
        (ChunkSt { out: out1, cur: Seq::empty(), size: f.len() as int }, seq![f])
    } else {
        (ChunkSt { out: st.out, cur: st.cur, size: st.size + f.len() }, acc.push(f))
    }
}

/// Folds the names of a deletion record, splitting them over frames.
pub open spec fn del_fold(st: ChunkSt, acc: Seq<Seq<char>>, files: Seq<Seq<char>>, max: int) -> (
    ChunkSt,
    Seq<Seq<char>>,
)
    decreases files.len(),
{
    if files.len() == 0 {
        (st, acc)
    } else {
        let stepped = del_step(st, acc, files[0], max);
        del_fold(stepped.0, stepped.1, files.drop_first(), max)
    }
}

/// Processes one record of the batch.
pub open spec fn chunk_step(st: ChunkSt, r: ReqV, max: int) -> ChunkSt {
    match r {
        ReqV::Deletion { files } => {
            let folded = del_fold(st, Seq::empty(), files, max);
            ChunkSt {
                out: folded.0.out,
                cur: folded.0.cur.push(ReqV::Deletion { files: folded.1 }),
                size: folded.0.size,
            }
        },
        ReqV::Chunk { .. } => st,
        _ => {
            let len = r.head_data().len() as int;
            if st.size + len > max {
                let stf = chunk_flush(st);
                if len > max {
                    let pieces = split_chunks(r.head_data(), max);
                    let head = r.with_data(
                        DataSyncV { file_path: r.head_path(), file_data: pieces[0] },
                    );
                    let st1 = ChunkSt {
                        out: stf.out.push(seq![head]),
                        cur: Seq::empty(),
                        size: 0,
                    };
                    chunk_pieces_fold(st1, pieces.drop_first(), max)
                } else {
                    ChunkSt { out: stf.out, cur: seq![r], size: len }
                }
            } else {
                ChunkSt { out: st.out, cur: st.cur.push(r), size: st.size + len }
            }
        },
    }
}

/// Folds a batch from the given state.
pub open spec fn chunk_fold_from(st: ChunkSt, b: Seq<ReqV>, max: int) -> ChunkSt
    decreases b.len(),
{
    if b.len() == 0 {
        st
    } else {
        chunk_fold_from(chunk_step(st, b[0], max), b.drop_first(), max)
    }
}

/// The frames produced by chunking a batch with threshold `max`.
pub open spec fn chunk_spec(b: Seq<ReqV>, max: int) -> Seq<Seq<ReqV>> {
    let st = chunk_fold_from(chunk_init(), b, max);
    if st.cur.len() > 0 {
        st.out.push(st.cur)
    } else {
        st.out
    }
}

/// Spec view of a list of frames.
pub open spec fn frames_view(f: Seq<Vec<RequestType>>) -> Seq<Seq<ReqV>> {
    f.map_values(|v: Vec<RequestType>| batch_view(v@))
}

/// True when no record of the batch is a continuation chunk.
pub open spec fn no_chunks(b: Seq<ReqV>) -> bool {
    forall|i: int| 0 <= i < b.len() ==> !(#[trigger] b[i] is Chunk)
}

/// The three file-bearing record kinds.
#[derive(Clone, Copy, PartialEq, Eq, Structural)]
pub enum HeadKind {
    Resource,
    Library,
    Script,
}

/// The file-bearing record of the given kind with the given data.
pub open spec fn head_of(kind: HeadKind, d: DataSyncV) -> ReqV {
    match kind {
        HeadKind::Resource => ReqV::Resource { data: d },
        HeadKind::Library => ReqV::Library { data: d },
        HeadKind::Script => ReqV::Script { data: d },
    }
}

/// Builds the file-bearing record of the given kind.
pub fn make_head(kind: HeadKind, d: DataSync) -> (r: RequestType)
    ensures
        r@ == head_of(kind, d@),
{
    match kind {
        HeadKind::Resource => RequestType::Resource { data: d },
        HeadKind::Library => RequestType::Library { data: d },
        HeadKind::Script => RequestType::Script { data: d },
    }
}

/// Handles one file-bearing record: appends it to the open frame when it
/// fits, otherwise closes the frame and, for an oversized payload, splits it
/// into a head record plus continuation chunks.
fn chunk_head_record(
    res: &mut Vec<Vec<RequestType>>,
    current_set: &mut Vec<RequestType>,
    current_size: &mut usize,
    kind: HeadKind,
    data: DataSync,
    max: usize,
)
    requires
        max >= 1,
    ensures
        ({
            let st0 = ChunkSt {
                out: frames_view(old(res)@),
                cur: batch_view(old(current_set)@),
                size: *old(current_size) as int,
            };
            let st1 = chunk_step(st0, head_of(kind, data@), max as int);
            frames_view(final(res)@) == st1.out && batch_view(final(current_set)@) == st1.cur && (*final(current_size)) as int == st1.size
        }),
{
    let ghost st0 = ChunkSt {
        out: frames_view(res@),
        cur: batch_view(current_set@),
        size: *current_size as int,
    };
    let ghost rv = head_of(kind, data@);
    let len = data.file_data.as_str().unicode_len();
    assert(rv.head_data() == data.file_data@);
    assert(rv.head_path() == data.file_path@);
    let fits = match current_size.checked_add(len) {
        Some(s) => s <= max,
        None => false,
    };
    if fits {
        current_set.push(make_head(kind, data));
        *current_size = *current_size + len;
        assert(batch_view(current_set@) =~= st0.cur.push(rv));
    } else {
        if current_set.len() > 0 {
            let mut closed: Vec<RequestType> = Vec::new();
            core::mem::swap(&mut closed, current_set);
            res.push(closed);
        }
        *current_size = 0;
        let ghost stf = chunk_flush(st0);
        assert(frames_view(res@) =~= stf.out);
        assert(batch_view(current_set@) =~= stf.cur);
        if len > max {
            proof {
                lemma_split_chunks(data.file_data@, max as int);
            }
            let ghost piecesv = split_chunks(data.file_data@, max as int);
            let mut pieces = chunk_string(data.file_data.as_str(), max);
            assert(pieces@.len() == piecesv.len());
            assert(pieces@[0]@ == piecesv[0]);
            let first = pieces.remove(0);
            assert(first@ == piecesv[0]);
            assert(strs_view(&pieces) =~= piecesv.drop_first());
            let ghost head = rv.with_data(
                DataSyncV { file_path: rv.head_path(), file_data: piecesv[0] },
            );
            let hd = make_head(kind, DataSync { file_path: data.file_path, file_data: first });
            proof {
                match kind {
                    HeadKind::Resource => {},
                    HeadKind::Library => {},
                    HeadKind::Script => {},
                }
                assert(hd@ == head);
            }
            current_set.push(hd);
            let mut head_frame: Vec<RequestType> = Vec::new();
            core::mem::swap(&mut head_frame, current_set);
            assert(batch_view(head_frame@) =~= seq![head]);
            res.push(head_frame);
            let ghost st1 = ChunkSt { out: stf.out.push(seq![head]), cur: Seq::empty(), size: 0 };
            proof {
                assert(frames_view(res@) =~= st1.out);
                assert(batch_view(current_set@) =~= st1.cur);
                assert(strs_view(&pieces).skip(0) =~= strs_view(&pieces));
            }
            let mut j: usize = 0;
            while j < pieces.len()
                invariant
                    j <= pieces.len(),
                    max >= 1,
                    strs_view(&pieces) =~= piecesv.drop_first(),
                    chunk_pieces_fold(st1, piecesv.drop_first(), max as int) == chunk_pieces_fold(
                        ChunkSt {
                            out: frames_view(res@),
                            cur: batch_view(current_set@),
                            size: *current_size as int,
                        },
                        strs_view(&pieces).skip(j as int),
                        max as int,
                    ),
                decreases pieces.len() - j,
            {
                let ghost stj = ChunkSt {
                    out: frames_view(res@),
                    cur: batch_view(current_set@),
                    size: *current_size as int,
                };
                let ghost restp = strs_view(&pieces).skip(j as int);
                assert(restp[0] == pieces@[j as int]@);
                let piece = clone_string(&pieces[j]);
                let plen = piece.as_str().unicode_len();
                assert(plen as int == restp[0].len());
                current_set.push(RequestType::Chunk { file_data: piece });
                assert(batch_view(current_set@) =~= stj.cur.push(
                    ReqV::Chunk { file_data: restp[0] },
                ));
                let full = match current_size.checked_add(plen) {
                    Some(s) => s >= max,
                    None => true,
                };
                if full {
                    let mut closed: Vec<RequestType> = Vec::new();
                    core::mem::swap(&mut closed, current_set);
                    res.push(closed);
                    *current_size = 0;
                    assert(frames_view(res@) =~= stj.out.push(
                        stj.cur.push(ReqV::Chunk { file_data: restp[0] }),
                    ));
                } else {
                    *current_size = *current_size + plen;
                }
                proof {
                    let cur1 = stj.cur.push(ReqV::Chunk { file_data: restp[0] });
                    let stn = if stj.size + restp[0].len() >= max as int {
                        ChunkSt { out: stj.out.push(cur1), cur: Seq::empty(), size: 0 }
                    } else {
                        ChunkSt { out: stj.out, cur: cur1, size: stj.size + restp[0].len() }
                    };
                    assert(frames_view(res@) == stn.out);
                    assert(batch_view(current_set@) == stn.cur);
                    assert(*current_size as int == stn.size);
                    assert(chunk_pieces_fold(stj, restp, max as int) == chunk_pieces_fold(
                        stn,
                        restp.drop_first(),
                        max as int,
                    ));
                    assert(restp.drop_first() =~= strs_view(&pieces).skip(j as int + 1));
                }
                j = j + 1;
            }
            proof {
                assert(strs_view(&pieces).skip(pieces.len() as int) =~= Seq::<Seq<char>>::empty());
            }
        } else {
            current_set.push(make_head(kind, data));
            *current_size = len;
            assert(batch_view(current_set@) =~= Seq::<ReqV>::empty().push(rv));
            assert(batch_view(current_set@) =~= seq![rv]);
        }
    }
}

/// Handles one deletion record: its names are charged one at a time, closing
/// the accumulated names as one deletion record and the frame whenever the
/// next name would not fit.
fn chunk_deletion_record(
    res: &mut Vec<Vec<RequestType>>,
    current_set: &mut Vec<RequestType>,
    current_size: &mut usize,
    files: Vec<String>,
    max: usize,
)
    ensures
        ({
            let st0 = ChunkSt {
                out: frames_view(old(res)@),
                cur: batch_view(old(current_set)@),
                size: *old(current_size) as int,
            };
            let st1 = chunk_step(st0, ReqV::Deletion { files: strs_view(&files) }, max as int);
            frames_view(final(res)@) == st1.out && batch_view(final(current_set)@) == st1.cur && (*final(current_size)) as int == st1.size
        }),
{
    let ghost st0 = ChunkSt {
        out: frames_view(res@),
        cur: batch_view(current_set@),
        size: *current_size as int,
    };
    let ghost fsv = strs_view(&files);
    let mut del_vec: Vec<String> = Vec::new();
    let mut j: usize = 0;
    proof {
        assert(strs_view(&del_vec) =~= Seq::<Seq<char>>::empty());
        assert(fsv.skip(0) =~= fsv);
    }
    while j < files.len()
        invariant
            j <= files.len(),
            fsv == strs_view(&files),
            del_fold(st0, Seq::empty(), fsv, max as int) == del_fold(
                ChunkSt {
                    out: frames_view(res@),
                    cur: batch_view(current_set@),
                    size: *current_size as int,
                },
                strs_view(&del_vec),
                fsv.skip(j as int),
                max as int,
            ),
        decreases files.len() - j,
    {
        let ghost stj = ChunkSt {
            out: frames_view(res@),
            cur: batch_view(current_set@),
            size: *current_size as int,
        };
        let ghost accj = strs_view(&del_vec);
        let ghost restf = fsv.skip(j as int);
        assert(restf[0] == files@[j as int]@);
        let flen = files[j].as_str().unicode_len();
        let overflow = match current_size.checked_add(flen) {
            Some(s) => s > max,
            None => true,
        };
        if overflow {
            if del_vec.len() > 0 {
                let mut names: Vec<String> = Vec::new();
                core::mem::swap(&mut names, &mut del_vec);
                assert(strs_view(&names) =~= accj);
                current_set.push(RequestType::Deletion { files: names });
                assert(batch_view(current_set@) =~= stj.cur.push(ReqV::Deletion { files: accj }));
            }
            if current_set.len() > 0 {
                let mut closed: Vec<RequestType> = Vec::new();
                core::mem::swap(&mut closed, current_set);
                res.push(closed);
            }
            *current_size = 0;
            proof {
                let stepped = del_step(stj, accj, restf[0], max as int);
                assert(frames_view(res@) =~= stepped.0.out);
                assert(batch_view(current_set@) =~= stepped.0.cur);
            }
        }
        *current_size = *current_size + flen;
        del_vec.push(files[j].clone());
        proof {
            let stepped = del_step(stj, accj, restf[0], max as int);
            assert(strs_view(&del_vec) =~= stepped.1);
            assert(restf.drop_first() =~= fsv.skip(j as int + 1));
        }
        j = j + 1;
    }
    proof {
        assert(fsv.skip(files.len() as int) =~= Seq::<Seq<char>>::empty());
    }
    current_set.push(RequestType::Deletion { files: del_vec });
    proof {
        let folded = del_fold(st0, Seq::empty(), fsv, max as int);
        assert(batch_view(current_set@) =~= folded.0.cur.push(
            ReqV::Deletion { files: folded.1 },
        ));
    }
}

/// Splits a merged batch into frames of at most `max_uncompressed_request_size`
/// payload characters; oversized file payloads become a head record and
/// continuation chunks. The batch must not already contain chunks.
pub fn chunk_batch(batch: Vec<RequestType>, max_uncompressed_request_size: usize) -> (res: Vec<
    Vec<RequestType>,
>)
    requires
        max_uncompressed_request_size >= 1,
        no_chunks(batch_view(batch@)),
    ensures
        frames_view(res@) == chunk_spec(
            batch_view(batch@),
            max_uncompressed_request_size as int,
        ),
{
    let max = max_uncompressed_request_size;
    let ghost whole = batch_view(batch@);
    let mut res: Vec<Vec<RequestType>> = Vec::new();
    let mut current_set: Vec<RequestType> = Vec::new();
    let mut current_size: usize = 0;
    let mut i: usize = 0;
    proof {
        assert(frames_view(res@) =~= Seq::<Seq<ReqV>>::empty());
        assert(batch_view(current_set@) =~= Seq::<ReqV>::empty());
        assert(whole.skip(0) =~= whole);
    }
    while i < batch.len()
        invariant
            i <= batch.len(),
            max == max_uncompressed_request_size,
            max >= 1,
            whole == batch_view(batch@),
            no_chunks(whole),
            chunk_fold_from(chunk_init(), whole, max as int) == chunk_fold_from(
                ChunkSt {
                    out: frames_view(res@),
                    cur: batch_view(current_set@),
                    size: current_size as int,
                },
                whole.skip(i as int),
                max as int,
            ),
        decreases batch.len() - i,
    {
        let ghost rest = whole.skip(i as int);
        assert(rest[0] == batch@[i as int]@);
        match &batch[i] {
            RequestType::Resource { data } => {
                let d = DataSync {
                    file_path: clone_string(&data.file_path),
                    file_data: clone_string(&data.file_data),
                };
                assert(head_of(HeadKind::Resource, d@) == rest[0]);
                chunk_head_record(
                    &mut res,
                    &mut current_set,
                    &mut current_size,
                    HeadKind::Resource,
                    d,
                    max,
                );
            },
            RequestType::Library { data } => {
                let d = DataSync {
                    file_path: clone_string(&data.file_path),
                    file_data: clone_string(&data.file_data),
                };
                assert(head_of(HeadKind::Library, d@) == rest[0]);
                chunk_head_record(
                    &mut res,
                    &mut current_set,
                    &mut current_size,
                    HeadKind::Library,
                    d,
                    max,
                );
            },
            RequestType::Script { data } => {
                let d = DataSync {
                    file_path: clone_string(&data.file_path),
                    file_data: clone_string(&data.file_data),
                };
                assert(head_of(HeadKind::Script, d@) == rest[0]);
                chunk_head_record(
                    &mut res,
                    &mut current_set,
                    &mut current_size,
                    HeadKind::Script,
                    d,
                    max,
                );
            },
            RequestType::Deletion { files } => {
                let fs = crate::batch::clone_strings(files);
                assert(ReqV::Deletion { files: strs_view(&fs) } == rest[0]);
                chunk_deletion_record(&mut res, &mut current_set, &mut current_size, fs, max);
            },
            RequestType::Chunk { .. } => {
                proof {
                    assert(whole[i as int] is Chunk);
                    assert(false);
                }
                vstd::pervasive::unreached::<()>()
            },
        }
        proof {
            assert(rest.drop_first() =~= whole.skip(i as int + 1));
        }
        i = i + 1;
    }
    proof {
        assert(whole.skip(batch.len() as int) =~= Seq::<ReqV>::empty());
    }
    if current_set.len() > 0 {
        res.push(current_set);
    }
    assert(frames_view(res@) =~= chunk_spec(whole, max as int));
    res
}

/// The payload characters a frame carries in total.
pub open spec fn frame_payload(f: Seq<ReqV>) -> int
    decreases f.len(),
{
    if f.len() == 0 {
        0
    } else {
        f[0].payload_len() + frame_payload(f.drop_first())
    }
}

proof fn lemma_frame_payload_push(f: Seq<ReqV>, r: ReqV)
    ensures
        frame_payload(f.push(r)) == frame_payload(f) + r.payload_len(),
    decreases f.len(),
{
    if f.len() == 0 {
        assert(f.push(r)[0] == r);
        assert(f.push(r).drop_first().len() == 0);
        assert(frame_payload(f.push(r).drop_first()) == 0);
    } else {
        lemma_frame_payload_push(f.drop_first(), r);
        assert(f.push(r)[0] == f[0]);
        assert(f.push(r).drop_first() =~= f.drop_first().push(r));
    }
}

proof fn lemma_names_len_push(a: Seq<Seq<char>>, f: Seq<char>)
    ensures
        names_len(a.push(f)) == names_len(a) + f.len(),
    decreases a.len(),
{
    if a.len() == 0 {
        assert(a.push(f)[0] == f);
        assert(a.push(f).drop_first().len() == 0);
        assert(names_len(a.push(f).drop_first()) == 0);
    } else {
        lemma_names_len_push(a.drop_first(), f);
        assert(a.push(f)[0] == a[0]);
        assert(a.push(f).drop_first() =~= a.drop_first().push(f));
    }
}

/// Replacing the data of a file-bearing record keeps its kind and sets its
/// path and payload.
proof fn lemma_with_data(r: ReqV, d: DataSyncV)
    requires
        r.is_head(),
    ensures
        r.with_data(d).is_head(),
        r.with_data(d).head_data() == d.file_data,
        r.with_data(d).head_path() == d.file_path,
        r.with_data(d).payload_len() == d.file_data.len(),
        !(r.with_data(d) is Deletion),
        !(r.with_data(d) is Chunk),
        r.with_data(head_pair(r)) == r,
{
    match r {
        ReqV::Resource { .. } => {},
        ReqV::Library { .. } => {},
        ReqV::Script { .. } => {},
        _ => {},
    }
}

/// Replacing a replaced payload keeps only the last replacement.
proof fn lemma_with_data_twice(r: ReqV, d1: DataSyncV, d2: DataSyncV)
    requires
        r.is_head(),
    ensures
        r.with_data(d1).with_data(d2) == r.with_data(d2),
{
    match r {
        ReqV::Resource { .. } => {},
        ReqV::Library { .. } => {},
        ReqV::Script { .. } => {},
        _ => {},
    }
}

/// Every finished frame carries at most `max` payload characters.
pub open spec fn bounded_frames(out: Seq<Seq<ReqV>>, max: int) -> bool {
    forall|i: int| 0 <= i < out.len() ==> #[trigger] frame_payload(out[i]) <= max
}

/// The chunking invariant: the running size is the payload of the open
/// frame, never exceeds `max`, and every closed frame is within bounds.
pub open spec fn st_ok(st: ChunkSt, max: int) -> bool {
    &&& st.size == frame_payload(st.cur)
    &&& 0 <= st.size <= max
    &&& bounded_frames(st.out, max)
}

/// Every deletion name of the batch fits in a frame by itself.
pub open spec fn names_bounded(b: Seq<ReqV>, max: int) -> bool {
    forall|i: int, j: int|
        0 <= i < b.len() && b[i] is Deletion && 0 <= j < b[i]->Deletion_files.len()
            ==> #[trigger] b[i]->Deletion_files[j].len() <= max
}

proof fn lemma_pieces_fold_ok(st: ChunkSt, pieces: Seq<Seq<char>>, max: int)
    requires
        max >= 1,
        st.cur.len() == 0,
        st.size == 0,
        bounded_frames(st.out, max),
        forall|i: int| 0 <= i < pieces.len() ==> #[trigger] pieces[i].len() <= max,
        forall|i: int| 0 <= i < pieces.len() - 1 ==> #[trigger] pieces[i].len() == max,
    ensures
        st_ok(chunk_pieces_fold(st, pieces, max), max),
    decreases pieces.len(),
{
    assert(frame_payload(st.cur) == 0);
    if pieces.len() == 0 {
    } else {
        let p = pieces[0];
        let cur1 = st.cur.push(ReqV::Chunk { file_data: p });
        lemma_frame_payload_push(st.cur, ReqV::Chunk { file_data: p });
        assert(frame_payload(cur1) == p.len());
        if st.size + p.len() >= max {
            let st1 = ChunkSt { out: st.out.push(cur1), cur: Seq::empty(), size: 0 };
            assert(bounded_frames(st1.out, max)) by {
                assert(forall|i: int|
                    0 <= i < st.out.len() ==> st1.out[i] == st.out[i] && #[trigger] frame_payload(
                        st1.out[i],
                    ) <= max);
                assert(st1.out[st.out.len() as int] == cur1);
            }
            assert(forall|i: int|
                0 <= i < pieces.drop_first().len() ==> #[trigger] pieces.drop_first()[i].len()
                    <= max && pieces.drop_first()[i] == pieces[i + 1]);
            assert(forall|i: int|
                0 <= i < pieces.drop_first().len() - 1 ==> #[trigger] pieces.drop_first()[i]
                    == pieces[i + 1] && pieces.drop_first()[i].len() == max);
            lemma_pieces_fold_ok(st1, pieces.drop_first(), max);
        } else {
            assert(p.len() < max);
            if pieces.len() > 1 {
                assert(pieces[0].len() == max);
                assert(false);
            }
            let st1 = ChunkSt { out: st.out, cur: cur1, size: st.size + p.len() };
            assert(pieces.drop_first().len() == 0);
            assert(chunk_pieces_fold(st1, pieces.drop_first(), max) == st1);
            assert(st_ok(st1, max));
        }
    }
}

proof fn lemma_del_fold_ok(st: ChunkSt, acc: Seq<Seq<char>>, files: Seq<Seq<char>>, max: int)
    requires
        max >= 1,
        st.size == frame_payload(st.cur) + names_len(acc),
        0 <= st.size <= max,
        frame_payload(st.cur) >= 0,
        names_len(acc) >= 0,
        bounded_frames(st.out, max),
        forall|i: int| 0 <= i < files.len() ==> #[trigger] files[i].len() <= max,
    ensures
        ({
            let folded = del_fold(st, acc, files, max);
            &&& folded.0.size == frame_payload(folded.0.cur) + names_len(folded.1)
            &&& 0 <= folded.0.size <= max
            &&& frame_payload(folded.0.cur) >= 0
            &&& names_len(folded.1) >= 0
            &&& bounded_frames(folded.0.out, max)
        }),
    decreases files.len(),
{
    if files.len() == 0 {
    } else {
        let f = files[0];
        let stepped = del_step(st, acc, f, max);
        assert(forall|i: int|
            0 <= i < files.drop_first().len() ==> files.drop_first()[i] == files[i + 1]
                && #[trigger] files.drop_first()[i].len() <= max);
        if st.size + f.len() > max {
            let cur1 = if acc.len() > 0 {
                st.cur.push(ReqV::Deletion { files: acc })
            } else {
                st.cur
            };
            if acc.len() > 0 {
                lemma_frame_payload_push(st.cur, ReqV::Deletion { files: acc });
            }
            assert(frame_payload(cur1) == st.size);
            let out1 = if cur1.len() > 0 {
                st.out.push(cur1)
            } else {
                st.out
            };
            assert(bounded_frames(out1, max)) by {
                if cur1.len() > 0 {
                    assert(forall|i: int|
                        0 <= i < st.out.len() ==> out1[i] == st.out[i] && #[trigger] frame_payload(
                            out1[i],
                        ) <= max);
                    assert(out1[st.out.len() as int] == cur1);
                }
            }
            assert(names_len(seq![f]) == f.len()) by {
                assert(seq![f][0] == f);
                assert(seq![f].drop_first().len() == 0);
                assert(names_len(seq![f].drop_first()) == 0);
            }
            assert(frame_payload(Seq::<ReqV>::empty()) == 0);
            lemma_del_fold_ok(stepped.0, stepped.1, files.drop_first(), max);
        } else {
            lemma_names_len_push(acc, f);
            lemma_del_fold_ok(stepped.0, stepped.1, files.drop_first(), max);
        }
    }
}

proof fn lemma_step_ok(st: ChunkSt, r: ReqV, max: int)
    requires
        max >= 1,
        st_ok(st, max),
        !(r is Chunk),
        r is Deletion ==> forall|j: int|
            0 <= j < r->Deletion_files.len() ==> #[trigger] r->Deletion_files[j].len() <= max,
    ensures
        st_ok(chunk_step(st, r, max), max),
{
    match r {
        ReqV::Deletion { files } => {
            assert(names_len(Seq::<Seq<char>>::empty()) == 0);
            lemma_del_fold_ok(st, Seq::empty(), files, max);
            let folded = del_fold(st, Seq::empty(), files, max);
            lemma_frame_payload_push(folded.0.cur, ReqV::Deletion { files: folded.1 });
        },
        ReqV::Chunk { .. } => {},
        _ => {
            let len = r.head_data().len() as int;
            assert(r.payload_len() == r.head_data().len());
            if st.size + len > max {
                let stf = chunk_flush(st);
                assert(bounded_frames(stf.out, max)) by {
                    if st.cur.len() > 0 {
                        assert(forall|i: int|
                            0 <= i < st.out.len() ==> stf.out[i] == st.out[i]
                                && #[trigger] frame_payload(stf.out[i]) <= max);
                        assert(stf.out[st.out.len() as int] == st.cur);
                    }
                }
                if len > max {
                    lemma_split_chunks(r.head_data(), max);
                    let pieces = split_chunks(r.head_data(), max);
                    let head = r.with_data(
                        DataSyncV { file_path: r.head_path(), file_data: pieces[0] },
                    );
                    lemma_with_data(r, DataSyncV { file_path: r.head_path(), file_data: pieces[0] });
                    assert(head.payload_len() == pieces[0].len());
                    assert(pieces[0].len() <= max);
                    let frame0 = seq![head];
                    assert(frame_payload(frame0) == head.payload_len()) by {
                        assert(frame0[0] == head);
                        assert(frame0.drop_first().len() == 0);
                        assert(frame_payload(frame0.drop_first()) == 0);
                    }
                    let st1 = ChunkSt {
                        out: stf.out.push(frame0),
                        cur: Seq::empty(),
                        size: 0,
                    };
                    assert(bounded_frames(st1.out, max)) by {
                        assert(forall|i: int|
                            0 <= i < stf.out.len() ==> st1.out[i] == stf.out[i]
                                && #[trigger] frame_payload(st1.out[i]) <= max);
                        assert(st1.out[stf.out.len() as int] == frame0);
                    }
                    assert(forall|i: int|
                        0 <= i < pieces.drop_first().len() ==> pieces.drop_first()[i] == pieces[i
                            + 1] && #[trigger] pieces.drop_first()[i].len() <= max);
                    assert(forall|i: int|
                        0 <= i < pieces.drop_first().len() - 1 ==> #[trigger] pieces.drop_first()[i]
                            == pieces[i + 1] && pieces.drop_first()[i].len() == max);
                    lemma_pieces_fold_ok(st1, pieces.drop_first(), max);
                } else {
                    assert(frame_payload(seq![r]) == r.payload_len()) by {
                        assert(seq![r][0] == r);
                        assert(seq![r].drop_first().len() == 0);
                        assert(frame_payload(seq![r].drop_first()) == 0);
                    }
                }
            } else {
                lemma_frame_payload_push(st.cur, r);
            }
        },
    }
}

proof fn lemma_fold_ok(st: ChunkSt, b: Seq<ReqV>, max: int)
    requires
        max >= 1,
        st_ok(st, max),
        no_chunks(b),
        names_bounded(b, max),
    ensures
        st_ok(chunk_fold_from(st, b, max), max),
    decreases b.len(),
{
    if b.len() > 0 {
        lemma_step_ok(st, b[0], max);
        assert(forall|i: int|
            0 <= i < b.drop_first().len() ==> #[trigger] b.drop_first()[i] == b[i + 1]);
        lemma_fold_ok(chunk_step(st, b[0], max), b.drop_first(), max);
    }
}

/// For a batch without chunks whose deletion names each fit in a frame,
/// every frame produced by the chunking pass carries at most `max` payload
/// characters.
pub proof fn lemma_chunk_frames_bounded(b: Seq<ReqV>, max: int)
    requires
        max >= 1,
        no_chunks(b),
        names_bounded(b, max),
    ensures
        forall|i: int|
            0 <= i < chunk_spec(b, max).len() ==> #[trigger] frame_payload(chunk_spec(b, max)[i])
                <= max,
{
    assert(frame_payload(Seq::<ReqV>::empty()) == 0);
    assert(st_ok(chunk_init(), max));
    lemma_fold_ok(chunk_init(), b, max);
    let st = chunk_fold_from(chunk_init(), b, max);
    let frames = chunk_spec(b, max);
    assert forall|i: int| 0 <= i < frames.len() implies #[trigger] frame_payload(frames[i])
        <= max by {
        if i < st.out.len() {
            assert(frames[i] == st.out[i]);
        } else {
            assert(frames[i] == st.cur);
        }
    }
}

/// All records of a chunking state, closed frames first, in delivery order.
pub open spec fn flat_st(st: ChunkSt) -> Seq<ReqV> {
    st.out.flatten() + st.cur
}

/// The path and payload of a file-bearing record.
pub open spec fn head_pair(r: ReqV) -> DataSyncV {
    DataSyncV { file_path: r.head_path(), file_data: r.head_data() }
}

/// The file-bearing records of a batch, in order.
pub open spec fn heads_records(b: Seq<ReqV>) -> Seq<ReqV>
    decreases b.len(),
{
    if b.len() == 0 {
        Seq::empty()
    } else {
        let rest = heads_records(b.drop_first());
        if b[0].is_head() {
            seq![b[0]] + rest
        } else {
            rest
        }
    }
}

/// Reassembles a record stream as the client does: each file-bearing record
/// starts a file of its kind and path, each following chunk appends to its
/// payload, deletions are ignored.
pub open spec fn reassemble(s: Seq<ReqV>) -> Seq<ReqV>
    decreases s.len(),
{
    if s.len() == 0 {
        Seq::empty()
    } else {
        let front = reassemble(s.drop_last());
        match s.last() {
            ReqV::Chunk { file_data } => {
                if front.len() > 0 {
                    front.update(
                        front.len() - 1,
                        front.last().with_data(
                            DataSyncV {
                                file_path: front.last().head_path(),
                                file_data: front.last().head_data() + file_data,
                            },
                        ),
                    )
                } else {
                    front
                }
            },
            ReqV::Deletion { .. } => front,
            _ => front.push(s.last()),
        }
    }
}

/// Records past position `n` that are all deletions do not change the
/// reassembled files.
proof fn lemma_reassemble_skip_deletions(y: Seq<ReqV>, n: int)
    requires
        0 <= n <= y.len(),
        forall|k: int| n <= k < y.len() ==> #[trigger] y[k] is Deletion,
    ensures
        reassemble(y) == reassemble(y.take(n)),
    decreases y.len() - n,
{
    if n == y.len() {
        assert(y.take(n) =~= y);
    } else {
        assert(y[y.len() - 1] is Deletion);
        assert(reassemble(y) == reassemble(y.drop_last()));
        assert(y.drop_last() =~= y.take(y.len() - 1));
        lemma_reassemble_skip_deletions(y.take(y.len() - 1), n);
        assert(y.take(y.len() - 1).take(n) =~= y.take(n));
    }
}

proof fn lemma_reassemble_push_head(x: Seq<ReqV>, h: ReqV)
    requires
        h.is_head(),
    ensures
        reassemble(x.push(h)) == reassemble(x).push(h),
{
    assert(x.push(h).last() == h);
    assert(x.push(h).drop_last() =~= x);
}

proof fn lemma_reassemble_chunks(x: Seq<ReqV>, pieces: Seq<Seq<char>>)
    requires
        reassemble(x).len() > 0,
        reassemble(x).last().is_head(),
    ensures
        reassemble(x + pieces.map_values(|p: Seq<char>| ReqV::Chunk { file_data: p }))
            =~= reassemble(x).update(
            reassemble(x).len() - 1,
            reassemble(x).last().with_data(
                DataSyncV {
                    file_path: reassemble(x).last().head_path(),
                    file_data: reassemble(x).last().head_data() + pieces.flatten(),
                },
            ),
        ),
    decreases pieces.len(),
{
    let r = reassemble(x);
    let n = r.len() - 1;
    lemma_with_data(
        r.last(),
        DataSyncV { file_path: r.last().head_path(), file_data: r.last().head_data() },
    );
    if pieces.len() == 0 {
        assert(x + pieces.map_values(|p: Seq<char>| ReqV::Chunk { file_data: p }) =~= x);
        assert(pieces.flatten() =~= Seq::<char>::empty());
        assert(r.last().head_data() + Seq::<char>::empty() =~= r.last().head_data());
        assert(r.last().with_data(
            DataSyncV { file_path: r.last().head_path(), file_data: r.last().head_data() },
        ) == r.last());
        assert(r.update(n, r.last()) =~= r);
    } else {
        let pp = pieces.drop_last();
        let p = pieces.last();
        lemma_reassemble_chunks(x, pp);
        let mapped = pieces.map_values(|q: Seq<char>| ReqV::Chunk { file_data: q });
        let mappedpp = pp.map_values(|q: Seq<char>| ReqV::Chunk { file_data: q });
        assert(x + mapped =~= (x + mappedpp).push(ReqV::Chunk { file_data: p }));
        let y = x + mappedpp;
        let ry = reassemble(y);
        let d1 = DataSyncV {
            file_path: r.last().head_path(),
            file_data: r.last().head_data() + pp.flatten(),
        };
        assert(ry =~= r.update(n, r.last().with_data(d1)));
        assert(ry.len() == r.len());
        assert(ry.last() == r.last().with_data(d1));
        lemma_with_data(r.last(), d1);
        assert(ry.last().is_head());
        assert(y.push(ReqV::Chunk { file_data: p }).last() == ReqV::Chunk { file_data: p });
        assert(y.push(ReqV::Chunk { file_data: p }).drop_last() =~= y);
        let d2 = DataSyncV {
            file_path: ry.last().head_path(),
            file_data: ry.last().head_data() + p,
        };
        assert(reassemble(y.push(ReqV::Chunk { file_data: p })) == ry.update(
            ry.len() - 1,
            ry.last().with_data(d2),
        ));
        pp.lemma_flatten_push(p);
        assert(pp.push(p) =~= pieces);
        assert(pp.flatten() + p =~= pieces.flatten());
        assert(d2.file_path == r.last().head_path());
        assert(d2.file_data =~= r.last().head_data() + pieces.flatten());
        lemma_with_data_twice(r.last(), d1, d2);
        assert(ry.last().with_data(d2) == r.last().with_data(d2));
        assert(ry.update(ry.len() - 1, ry.last().with_data(d2)) =~= r.update(
            n,
            r.last().with_data(
                DataSyncV {
                    file_path: r.last().head_path(),
                    file_data: r.last().head_data() + pieces.flatten(),
                },
            ),
        ));
    }
}

proof fn lemma_pieces_fold_flat(st: ChunkSt, pieces: Seq<Seq<char>>, max: int)
    ensures
        flat_st(chunk_pieces_fold(st, pieces, max)) =~= flat_st(st) + pieces.map_values(
            |p: Seq<char>| ReqV::Chunk { file_data: p },
        ),
    decreases pieces.len(),
{
    if pieces.len() == 0 {
        assert(flat_st(st) + pieces.map_values(|p: Seq<char>| ReqV::Chunk { file_data: p }) =~=
            flat_st(st));
    } else {
        let p = pieces[0];
        let cur1 = st.cur.push(ReqV::Chunk { file_data: p });
        let st1 = if st.size + p.len() >= max {
            ChunkSt { out: st.out.push(cur1), cur: Seq::empty(), size: 0 }
        } else {
            ChunkSt { out: st.out, cur: cur1, size: st.size + p.len() }
        };
        if st.size + p.len() >= max {
            st.out.lemma_flatten_push(cur1);
        }
        assert(flat_st(st1) =~= flat_st(st).push(ReqV::Chunk { file_data: p }));
        lemma_pieces_fold_flat(st1, pieces.drop_first(), max);
        assert(flat_st(st).push(ReqV::Chunk { file_data: p }) + pieces.drop_first().map_values(
            |q: Seq<char>| ReqV::Chunk { file_data: q },
        ) =~= flat_st(st) + pieces.map_values(|q: Seq<char>| ReqV::Chunk { file_data: q }));
    }
}

proof fn lemma_del_fold_flat(st: ChunkSt, acc: Seq<Seq<char>>, files: Seq<Seq<char>>, max: int)
    ensures
        ({
            let folded = del_fold(st, acc, files, max);
            &&& flat_st(folded.0).len() >= flat_st(st).len()
            &&& flat_st(folded.0).take(flat_st(st).len() as int) =~= flat_st(st)
            &&& forall|k: int|
                flat_st(st).len() <= k < flat_st(folded.0).len() ==> #[trigger] flat_st(
                    folded.0,
                )[k] is Deletion
        }),
    decreases files.len(),
{
    if files.len() == 0 {
    } else {
        let f = files[0];
        let stepped = del_step(st, acc, f, max);
        let st1 = stepped.0;
        if st.size + f.len() > max {
            let cur1 = if acc.len() > 0 {
                st.cur.push(ReqV::Deletion { files: acc })
            } else {
                st.cur
            };
            if cur1.len() > 0 {
                st.out.lemma_flatten_push(cur1);
            }
            if acc.len() > 0 {
                assert(flat_st(st1) =~= flat_st(st).push(ReqV::Deletion { files: acc }));
            } else {
                assert(flat_st(st1) =~= flat_st(st));
            }
        } else {
            assert(flat_st(st1) =~= flat_st(st));
        }
        lemma_del_fold_flat(st1, stepped.1, files.drop_first(), max);
        let folded = del_fold(st, acc, files, max);
        assert(flat_st(folded.0).take(flat_st(st).len() as int) =~= flat_st(st)) by {
            assert(flat_st(folded.0).take(flat_st(st1).len() as int) =~= flat_st(st1));
            assert(flat_st(folded.0).take(flat_st(st).len() as int) =~= flat_st(st1).take(
                flat_st(st).len() as int,
            ));
        }
        assert forall|k: int|
            flat_st(st).len() <= k < flat_st(folded.0).len() implies #[trigger] flat_st(
            folded.0,
        )[k] is Deletion by {
            if k < flat_st(st1).len() {
                assert(flat_st(folded.0)[k] == flat_st(st1)[k]);
            }
        }
    }
}

proof fn lemma_fold_reassemble(st: ChunkSt, b: Seq<ReqV>, max: int)
    requires
        max >= 1,
        no_chunks(b),
    ensures
        reassemble(flat_st(chunk_fold_from(st, b, max))) =~= reassemble(flat_st(st))
            + heads_records(b),
    decreases b.len(),
{
    if b.len() == 0 {
        assert(reassemble(flat_st(st)) + heads_records(b) =~= reassemble(flat_st(st)));
    } else {
        let r = b[0];
        let st1 = chunk_step(st, r, max);
        assert(forall|i: int|
            0 <= i < b.drop_first().len() ==> #[trigger] b.drop_first()[i] == b[i + 1]);
        lemma_fold_reassemble(st1, b.drop_first(), max);
        match r {
            ReqV::Deletion { files } => {
                lemma_del_fold_flat(st, Seq::empty(), files, max);
                let folded = del_fold(st, Seq::empty(), files, max);
                let wrapped = ChunkSt {
                    out: folded.0.out,
                    cur: folded.0.cur.push(ReqV::Deletion { files: folded.1 }),
                    size: folded.0.size,
                };
                assert(st1 == wrapped);
                assert(flat_st(wrapped) =~= flat_st(folded.0).push(
                    ReqV::Deletion { files: folded.1 },
                ));
                let n = flat_st(st).len() as int;
                assert(flat_st(wrapped).take(n) =~= flat_st(st));
                assert(forall|k: int|
                    n <= k < flat_st(wrapped).len() ==> #[trigger] flat_st(wrapped)[k]
                        is Deletion) by {
                    assert(forall|k: int|
                        n <= k < flat_st(folded.0).len() ==> #[trigger] flat_st(wrapped)[k]
                            == flat_st(folded.0)[k]);
                }
                lemma_reassemble_skip_deletions(flat_st(wrapped), n);
                assert(reassemble(flat_st(st1)) =~= reassemble(flat_st(st)));
                assert(heads_records(b) =~= heads_records(b.drop_first()));
            },
            ReqV::Chunk { .. } => {
                assert(false);
            },
            _ => {
                let len = r.head_data().len() as int;
                assert(heads_records(b) =~= seq![r] + heads_records(b.drop_first()));
                if st.size + len > max {
                    let stf = chunk_flush(st);
                    if st.cur.len() > 0 {
                        st.out.lemma_flatten_push(st.cur);
                    }
                    assert(flat_st(stf) =~= flat_st(st));
                    if len > max {
                        lemma_split_chunks(r.head_data(), max);
                        let pieces = split_chunks(r.head_data(), max);
                        let d = DataSyncV { file_path: r.head_path(), file_data: pieces[0] };
                        let head = r.with_data(d);
                        lemma_with_data(r, d);
                        let sth = ChunkSt {
                            out: stf.out.push(seq![head]),
                            cur: Seq::empty(),
                            size: 0,
                        };
                        stf.out.lemma_flatten_push(seq![head]);
                        assert(flat_st(sth) =~= flat_st(st).push(head));
                        lemma_pieces_fold_flat(sth, pieces.drop_first(), max);
                        assert(flat_st(st1) =~= flat_st(st).push(head)
                            + pieces.drop_first().map_values(
                            |q: Seq<char>| ReqV::Chunk { file_data: q },
                        ));
                        lemma_reassemble_push_head(flat_st(st), head);
                        let rx = reassemble(flat_st(st).push(head));
                        assert(rx.len() > 0);
                        assert(rx.last() == head);
                        lemma_reassemble_chunks(flat_st(st).push(head), pieces.drop_first());
                        assert(pieces.flatten() == pieces[0] + pieces.drop_first().flatten());
                        let dfull = DataSyncV {
                            file_path: head.head_path(),
                            file_data: head.head_data() + pieces.drop_first().flatten(),
                        };
                        assert(dfull.file_path == r.head_path());
                        assert(dfull.file_data =~= r.head_data());
                        lemma_with_data_twice(r, d, dfull);
                        lemma_with_data(
                            r,
                            DataSyncV { file_path: r.head_path(), file_data: r.head_data() },
                        );
                        assert(head.with_data(dfull) == r.with_data(dfull));
                        assert(r.with_data(dfull) == r.with_data(
                            DataSyncV { file_path: r.head_path(), file_data: r.head_data() },
                        ));
                        assert(head.with_data(dfull) == r);
                        assert(rx.update(rx.len() - 1, rx.last().with_data(dfull)) =~= reassemble(
                            flat_st(st),
                        ).push(r));
                        assert(reassemble(flat_st(st1)) =~= reassemble(flat_st(st)).push(r));
                    } else {
                        assert(flat_st(st1) =~= flat_st(st).push(r));
                        lemma_reassemble_push_head(flat_st(st), r);
                    }
                } else {
                    assert(flat_st(st1) =~= flat_st(st).push(r));
                    lemma_reassemble_push_head(flat_st(st), r);
                }
                assert(reassemble(flat_st(st1)) =~= reassemble(flat_st(st)).push(r));
                assert(reassemble(flat_st(st)).push(r) + heads_records(b.drop_first())
                    =~= reassemble(flat_st(st)) + heads_records(b));
            },
        }
    }
}

/// Chunking loses nothing: reading the produced frames in order and appending
/// each continuation chunk to the file-bearing record before it restores, in
/// order, exactly the batch's file-bearing records - kind, path and payload.
pub proof fn lemma_chunk_reconstructs(b: Seq<ReqV>, max: int)
    requires
        max >= 1,
        no_chunks(b),
    ensures
        reassemble(chunk_spec(b, max).flatten()) =~= heads_records(b),
{
    let st = chunk_fold_from(chunk_init(), b, max);
    lemma_fold_reassemble(chunk_init(), b, max);
    assert(flat_st(chunk_init()) =~= Seq::<ReqV>::empty());
    assert(reassemble(Seq::<ReqV>::empty()) =~= Seq::<ReqV>::empty());
    if st.cur.len() > 0 {
        st.out.lemma_flatten_push(st.cur);
        assert(chunk_spec(b, max).flatten() =~= flat_st(st));
    } else {
        assert(chunk_spec(b, max).flatten() =~= flat_st(st));
    }
    assert(Seq::<ReqV>::empty() + heads_records(b) =~= heads_records(b));
}

} // verus!
