//! The wire encoding of a frame: a MessagePack array of records, each a map
//! tagged by a one-letter `type` field, byte-compatible with the downstream
//! client's decoder. The whole frame is then raw-DEFLATE compressed.

use vstd::prelude::*;
use vstd::utf8::{encode_utf8, is_ascii_chars, is_ascii_chars_encode_utf8};

use crate::deps::{deflate_best, deflate_of};
use crate::structs::{ReqV, RequestType, batch_view, strs_view};

verus! {

/// Why a frame could not be encoded: a string or a list is too long for a
/// 32-bit MessagePack length field.
#[derive(Clone, Copy, PartialEq, Eq, Structural, Debug)]
pub enum EncodeError {
    TooLong,
}

/// The two big-endian bytes of a 16-bit length.
pub open spec fn be16(n: int) -> Seq<u8> {
    seq![(n / 0x100) as u8, (n % 0x100) as u8]
}

/// The four big-endian bytes of a 32-bit length.
pub open spec fn be32(n: int) -> Seq<u8> {
    seq![
        (n / 0x1000000) as u8,
        ((n / 0x10000) % 0x100) as u8,
        ((n / 0x100) % 0x100) as u8,
        (n % 0x100) as u8,
    ]
}

/// The MessagePack string header for a byte length: fixstr, str 8, str 16 or
/// str 32, whichever is smallest.
pub open spec fn mp_str_header(n: int) -> Seq<u8> {
    if n < 32 {
        seq![(0xa0 + n) as u8]
    } else if n < 0x100 {
        seq![0xd9u8, n as u8]
    } else if n < 0x10000 {
        seq![0xdau8] + be16(n)
    } else {
        seq![0xdbu8] + be32(n)
    }
}

/// The MessagePack encoding of a string: header plus UTF-8 bytes.
pub open spec fn mp_str(s: Seq<char>) -> Seq<u8> {
    mp_str_header(encode_utf8(s).len() as int) + encode_utf8(s)
}

/// The MessagePack array header: fixarray, array 16 or array 32.
pub open spec fn mp_array_header(n: int) -> Seq<u8> {
    if n < 16 {
        seq![(0x90 + n) as u8]
    } else if n < 0x10000 {
        seq![0xdcu8] + be16(n)
    } else {
        seq![0xddu8] + be32(n)
    }
}

/// The MessagePack map header: fixmap, map 16 or map 32.
pub open spec fn mp_map_header(n: int) -> Seq<u8> {
    if n < 16 {
        seq![(0x80 + n) as u8]
    } else if n < 0x10000 {
        seq![0xdeu8] + be16(n)
    } else {
        seq![0xdfu8] + be32(n)
    }
}

/// A string's UTF-8 form fits a 32-bit MessagePack length field.
pub open spec fn str_fits(s: Seq<char>) -> bool {
    encode_utf8(s).len() <= 0xFFFFFFFF
}

/// The MessagePack encodings of a list of strings, in order.
pub open spec fn mp_strs(files: Seq<Seq<char>>) -> Seq<u8>
    decreases files.len(),
{
    if files.len() == 0 {
        Seq::empty()
    } else {
        mp_str(files[0]) + mp_strs(files.drop_first())
    }
}

/// The MessagePack encoding of one record: a map tagged by its `type` field,
/// with the wire-stable field names.
pub open spec fn mp_record(r: ReqV) -> Seq<u8> {
    match r {
        ReqV::Resource { data } => mp_map_header(3) + mp_str("type"@) + mp_str("r"@) + mp_str(
            "filePath"@,
        ) + mp_str(data.file_path) + mp_str("fileData"@) + mp_str(data.file_data),
        ReqV::Library { data } => mp_map_header(3) + mp_str("type"@) + mp_str("l"@) + mp_str(
            "filePath"@,
        ) + mp_str(data.file_path) + mp_str("fileData"@) + mp_str(data.file_data),
        ReqV::Script { data } => mp_map_header(3) + mp_str("type"@) + mp_str("s"@) + mp_str(
            "filePath"@,
        ) + mp_str(data.file_path) + mp_str("fileData"@) + mp_str(data.file_data),
        ReqV::Deletion { files } => mp_map_header(2) + mp_str("type"@) + mp_str("d"@) + mp_str(
            "files"@,
        ) + mp_array_header(files.len() as int) + mp_strs(files),
        ReqV::Chunk { file_data } => mp_map_header(2) + mp_str("type"@) + mp_str("c"@) + mp_str(
            "file_data"@,
        ) + mp_str(file_data),
    }
}

/// Every length of the record fits a 32-bit MessagePack length field.
pub open spec fn record_fits(r: ReqV) -> bool {
    match r {
        ReqV::Resource { data } => str_fits(data.file_path) && str_fits(data.file_data),
        ReqV::Library { data } => str_fits(data.file_path) && str_fits(data.file_data),
        ReqV::Script { data } => str_fits(data.file_path) && str_fits(data.file_data),
        ReqV::Deletion { files } => files.len() <= 0xFFFFFFFF && (forall|i: int|
            0 <= i < files.len() ==> #[trigger] str_fits(files[i])),
        ReqV::Chunk { file_data } => str_fits(file_data),
    }
}

/// The MessagePack encodings of a batch of records, in order.
pub open spec fn mp_records(rs: Seq<ReqV>) -> Seq<u8>
    decreases rs.len(),
{
    if rs.len() == 0 {
        Seq::empty()
    } else {
        mp_record(rs[0]) + mp_records(rs.drop_first())
    }
}

/// Every record of the frame fits, and so does the record count.
pub open spec fn frame_fits(rs: Seq<ReqV>) -> bool {
    rs.len() <= 0xFFFFFFFF && (forall|i: int|
        0 <= i < rs.len() ==> #[trigger] record_fits(rs[i]))
}

/// The MessagePack bytes of a frame: an array of its records.
pub open spec fn frame_bytes(rs: Seq<ReqV>) -> Seq<u8> {
    mp_array_header(rs.len() as int) + mp_records(rs)
}

/// A short ASCII string fits, and its byte length is its character count.
proof fn lemma_ascii_str(s: Seq<char>)
    requires
        is_ascii_chars(s),
        s.len() <= 0xFFFFFFFF,
    ensures
        str_fits(s),
        encode_utf8(s).len() == s.len(),
{
    is_ascii_chars_encode_utf8(s);
}

/// Appends the two big-endian bytes of a 16-bit length.
fn push_be16(out: &mut Vec<u8>, n: usize)
    requires
        n < 0x10000,
    ensures
        final(out)@ == old(out)@ + be16(n as int),
{
    out.push((n / 0x100) as u8);
    out.push((n % 0x100) as u8);
    assert(out@ =~= old(out)@ + be16(n as int));
}

/// Appends the four big-endian bytes of a 32-bit length.
fn push_be32(out: &mut Vec<u8>, n: usize)
    requires
        n <= 0xFFFFFFFF,
    ensures
        final(out)@ == old(out)@ + be32(n as int),
{
    out.push((n / 0x1000000) as u8);
    out.push(((n / 0x10000) % 0x100) as u8);
    out.push(((n / 0x100) % 0x100) as u8);
    out.push((n % 0x100) as u8);
    assert(out@ =~= old(out)@ + be32(n as int));
}

/// Appends a MessagePack string header.
fn push_str_header(out: &mut Vec<u8>, n: usize)
    requires
        n <= 0xFFFFFFFF,
    ensures
        final(out)@ == old(out)@ + mp_str_header(n as int),
{
    if n < 32 {
        out.push((0xa0 + n) as u8);
        assert(out@ =~= old(out)@ + mp_str_header(n as int));
    } else if n < 0x100 {
        out.push(0xd9u8);
        out.push(n as u8);
        assert(out@ =~= old(out)@ + mp_str_header(n as int));
    } else if n < 0x10000 {
        out.push(0xdau8);
        push_be16(out, n);
        assert(out@ =~= old(out)@ + mp_str_header(n as int));
    } else {
        out.push(0xdbu8);
        push_be32(out, n);
        assert(out@ =~= old(out)@ + mp_str_header(n as int));
    }
}

/// Appends a MessagePack array header.
fn push_array_header(out: &mut Vec<u8>, n: usize)
    requires
        n <= 0xFFFFFFFF,
    ensures
        final(out)@ == old(out)@ + mp_array_header(n as int),
{
    if n < 16 {
        out.push((0x90 + n) as u8);
        assert(out@ =~= old(out)@ + mp_array_header(n as int));
    } else if n < 0x10000 {
        out.push(0xdcu8);
        push_be16(out, n);
        assert(out@ =~= old(out)@ + mp_array_header(n as int));
    } else {
        out.push(0xddu8);
        push_be32(out, n);
        assert(out@ =~= old(out)@ + mp_array_header(n as int));
    }
}

/// Appends a MessagePack map header.
fn push_map_header(out: &mut Vec<u8>, n: usize)
    requires
        n <= 0xFFFFFFFF,
    ensures
        final(out)@ == old(out)@ + mp_map_header(n as int),
{
    if n < 16 {
        out.push((0x80 + n) as u8);
        assert(out@ =~= old(out)@ + mp_map_header(n as int));
    } else if n < 0x10000 {
        out.push(0xdeu8);
        push_be16(out, n);
        assert(out@ =~= old(out)@ + mp_map_header(n as int));
    } else {
        out.push(0xdfu8);
        push_be32(out, n);
        assert(out@ =~= old(out)@ + mp_map_header(n as int));
    }
}

/// Appends the bytes of a slice.
fn push_bytes(out: &mut Vec<u8>, b: &[u8])
    ensures
        final(out)@ == old(out)@ + b@,
{
    let mut j: usize = 0;
    while j < b.len()
        invariant
            j <= b@.len(),
            out@ == old(out)@ + b@.take(j as int),
        decreases b@.len() - j,
    {
        out.push(b[j]);
        assert(out@ =~= old(out)@ + b@.take(j as int) + seq![b@[j as int]]);
        assert(old(out)@ + b@.take(j as int) + seq![b@[j as int]] =~= old(out)@ + b@.take(
            j as int + 1,
        ));
        j = j + 1;
    }
    assert(b@.take(b@.len() as int) =~= b@);
}

/// Appends the MessagePack encoding of a string.
fn push_mp_str(out: &mut Vec<u8>, s: &str)
    requires
        str_fits(s@),
    ensures
        final(out)@ == old(out)@ + mp_str(s@),
{
    let bytes = s.as_bytes();
    let n = bytes.len();
    push_str_header(out, n);
    push_bytes(out, bytes);
    assert(out@ =~= old(out)@ + mp_str(s@));
}

/// Whether a string fits a 32-bit MessagePack length field.
fn str_fits_exec(s: &str) -> (r: bool)
    ensures
        r == str_fits(s@),
{
    s.as_bytes().len() <= 0xFFFFFFFFusize
}

/// Whether every length of a record fits.
fn record_fits_exec(r: &RequestType) -> (b: bool)
    ensures
        b == record_fits(r@),
{
    match r {
        RequestType::Resource { data } => str_fits_exec(data.file_path.as_str())
            && str_fits_exec(data.file_data.as_str()),
        RequestType::Library { data } => str_fits_exec(data.file_path.as_str()) && str_fits_exec(
            data.file_data.as_str(),
        ),
        RequestType::Script { data } => str_fits_exec(data.file_path.as_str()) && str_fits_exec(
            data.file_data.as_str(),
        ),
        RequestType::Deletion { files } => {
            if files.len() > 0xFFFFFFFFusize {
                return false;
            }
            let mut i: usize = 0;
            let mut ok = true;
            while i < files.len()
                invariant
                    i <= files.len(),
                    ok == (forall|k: int|
                        0 <= k < i ==> #[trigger] str_fits(strs_view(files)[k])),
                decreases files.len() - i,
            {
                if !str_fits_exec(files[i].as_str()) {
                    assert(!str_fits(strs_view(files)[i as int]));
                    ok = false;
                }
                i = i + 1;
            }
            ok
        },
        RequestType::Chunk { file_data } => str_fits_exec(file_data.as_str()),
    }
}

/// The keys and tags of the wire format are short ASCII strings.
proof fn lemma_keys_fit()
    ensures
        str_fits("type"@),
        str_fits("r"@),
        str_fits("l"@),
        str_fits("s"@),
        str_fits("d"@),
        str_fits("c"@),
        str_fits("filePath"@),
        str_fits("fileData"@),
        str_fits("files"@),
        str_fits("file_data"@),
{
    reveal_strlit("type");
    reveal_strlit("r");
    reveal_strlit("l");
    reveal_strlit("s");
    reveal_strlit("d");
    reveal_strlit("c");
    reveal_strlit("filePath");
    reveal_strlit("fileData");
    reveal_strlit("files");
    reveal_strlit("file_data");
    lemma_ascii_str("type"@);
    lemma_ascii_str("r"@);
    lemma_ascii_str("l"@);
    lemma_ascii_str("s"@);
    lemma_ascii_str("d"@);
    lemma_ascii_str("c"@);
    lemma_ascii_str("filePath"@);
    lemma_ascii_str("fileData"@);
    lemma_ascii_str("files"@);
    lemma_ascii_str("file_data"@);
}

/// Appends the MessagePack encoding of one record.
#[verifier::rlimit(60)]
fn encode_record(out: &mut Vec<u8>, r: &RequestType)
    requires
        record_fits(r@),
    ensures
        final(out)@ == old(out)@ + mp_record(r@),
{
    proof {
        lemma_keys_fit();
    }
    match r {
        RequestType::Resource { data } => {
            push_map_header(out, 3);
            push_mp_str(out, "type");
            push_mp_str(out, "r");
            push_mp_str(out, "filePath");
            push_mp_str(out, data.file_path.as_str());
            push_mp_str(out, "fileData");
            push_mp_str(out, data.file_data.as_str());
            assert(out@ =~= old(out)@ + mp_record(r@));
        },
        RequestType::Library { data } => {
            push_map_header(out, 3);
            push_mp_str(out, "type");
            push_mp_str(out, "l");
            push_mp_str(out, "filePath");
            push_mp_str(out, data.file_path.as_str());
            push_mp_str(out, "fileData");
            push_mp_str(out, data.file_data.as_str());
            assert(out@ =~= old(out)@ + mp_record(r@));
        },
        RequestType::Script { data } => {
            push_map_header(out, 3);
            push_mp_str(out, "type");
            push_mp_str(out, "s");
            push_mp_str(out, "filePath");
            push_mp_str(out, data.file_path.as_str());
            push_mp_str(out, "fileData");
            push_mp_str(out, data.file_data.as_str());
            assert(out@ =~= old(out)@ + mp_record(r@));
        },
        RequestType::Deletion { files } => {
            push_map_header(out, 2);
            push_mp_str(out, "type");
            push_mp_str(out, "d");
            push_mp_str(out, "files");
            push_array_header(out, files.len());
            let ghost fsv = strs_view(files);
            let ghost mid = out@;
            let mut i: usize = 0;
            proof {
                assert(fsv.skip(0) =~= fsv);
                assert(mid + Seq::<u8>::empty() =~= mid);
            }
            while i < files.len()
                invariant
                    i <= files.len(),
                    fsv == strs_view(files),
                    forall|k: int| 0 <= k < fsv.len() ==> #[trigger] str_fits(fsv[k]),
                    mid + mp_strs(fsv) == out@ + mp_strs(fsv.skip(i as int)),
                decreases files.len() - i,
            {
                let ghost rest = fsv.skip(i as int);
                assert(rest[0] == files@[i as int]@);
                push_mp_str(out, files[i].as_str());
                proof {
                    assert(rest.drop_first() =~= fsv.skip(i as int + 1));
                    assert(mp_strs(rest) == mp_str(rest[0]) + mp_strs(rest.drop_first()));
                }
                i = i + 1;
            }
            proof {
                assert(fsv.skip(files.len() as int) =~= Seq::<Seq<char>>::empty());
                assert(out@ + Seq::<u8>::empty() =~= out@);
            }
            assert(out@ =~= old(out)@ + mp_record(r@));
        },
        RequestType::Chunk { file_data } => {
            push_map_header(out, 2);
            push_mp_str(out, "type");
            push_mp_str(out, "c");
            push_mp_str(out, "file_data");
            push_mp_str(out, file_data.as_str());
            assert(out@ =~= old(out)@ + mp_record(r@));
        },
    }
}

/// Encodes a frame as a MessagePack array of its records. Fails exactly when
/// a string, a deletion list or the record count does not fit a 32-bit
/// MessagePack length field.
pub fn encode_frame(batch: &Vec<RequestType>) -> (r: Result<Vec<u8>, EncodeError>)
    ensures
        r is Ok <==> frame_fits(batch_view(batch@)),
        r is Ok ==> r->Ok_0@ == frame_bytes(batch_view(batch@)),
{
    let ghost bv = batch_view(batch@);
    if batch.len() > 0xFFFFFFFFusize {
        return Err(EncodeError::TooLong);
    }
    let mut i: usize = 0;
    while i < batch.len()
        invariant
            i <= batch.len(),
            bv == batch_view(batch@),
            forall|k: int| 0 <= k < i ==> #[trigger] record_fits(bv[k]),
        decreases batch.len() - i,
    {
        if !record_fits_exec(&batch[i]) {
            assert(!record_fits(bv[i as int]));
            return Err(EncodeError::TooLong);
        }
        i = i + 1;
    }
    let mut out: Vec<u8> = Vec::new();
    push_array_header(&mut out, batch.len());
    let ghost mid = out@;
    let mut j: usize = 0;
    proof {
        assert(bv.skip(0) =~= bv);
        assert(mid + Seq::<u8>::empty() =~= mid);
    }
    while j < batch.len()
        invariant
            j <= batch.len(),
            bv == batch_view(batch@),
            forall|k: int| 0 <= k < bv.len() ==> #[trigger] record_fits(bv[k]),
            mid + mp_records(bv) == out@ + mp_records(bv.skip(j as int)),
        decreases batch.len() - j,
    {
        let ghost rest = bv.skip(j as int);
        assert(rest[0] == batch@[j as int]@);
        encode_record(&mut out, &batch[j]);
        proof {
            assert(rest.drop_first() =~= bv.skip(j as int + 1));
            assert(mp_records(rest) == mp_record(rest[0]) + mp_records(rest.drop_first()));
        }
        j = j + 1;
    }
    proof {
        assert(bv.skip(batch.len() as int) =~= Seq::<ReqV>::empty());
        assert(out@ + Seq::<u8>::empty() =~= out@);
        assert(out@ =~= frame_bytes(bv));
    }
    Ok(out)
}

/// Encodes a frame and compresses it: the bytes written to the subscriber
/// for one frame.
pub fn compress_frame(batch: &Vec<RequestType>) -> (r: Result<Vec<u8>, EncodeError>)
    ensures
        r is Ok <==> frame_fits(batch_view(batch@)),
        r is Ok ==> r->Ok_0@ == deflate_of(frame_bytes(batch_view(batch@))),
{
    match encode_frame(batch) {
        Ok(encoded) => Ok(deflate_best(encoded.as_slice())),
        Err(e) => Err(e),
    }
}

} // verus!
