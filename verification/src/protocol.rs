//! The wire codec: discovery announcements and chunk transfer messages as
//! little-endian, length-prefixed bytes. Malformed input is rejected, never
//! trusted: every decoder answers nothing unless the bytes are exactly one
//! well-formed message.

use vstd::prelude::*;
use vstd::bytes::*;
use vstd::slice::slice_subrange;
use vstd::slice::slice_to_vec;
use crate::Error;
use crate::chunk::Chunk;

verus! {

/// Append the bytes of `src` to `dst`.
fn append_bytes(dst: &mut Vec<u8>, src: &Vec<u8>)
    ensures
        final(dst)@ == old(dst)@ + src@,
{
    let mut j: usize = 0;
    while j < src.len()
        invariant
            0 <= j <= src@.len(),
            dst@ == old(dst)@ + src@.subrange(0, j as int),
        decreases src@.len() - j,
    {
        dst.push(src[j]);
        j = j + 1;
        proof {
            assert(dst@ =~= old(dst)@ + src@.subrange(0, j as int));
        }
    }
    proof {
        assert(dst@ =~= old(dst)@ + src@);
    }
}

/// A chunk request as it travels on the wire: the file's name as bytes and
/// the wanted chunk index.
pub struct ChunkRequest {
    /// The requested file's name, as its bytes on the wire.
    pub name: Vec<u8>,
    /// The wanted chunk index.
    pub index: u64,
}

/// The bytes of an encoded chunk request: a length-prefixed name followed
/// by the chunk index.
pub open spec fn spec_encode_request(name: Seq<u8>, index: u64) -> Seq<u8> {
    spec_u16_to_le_bytes(name.len() as u16) + name + spec_u64_to_le_bytes(index)
}

/// What chunk request, if any, a byte string is the encoding of.
pub open spec fn spec_decode_request(b: Seq<u8>) -> Option<(Seq<u8>, u64)> {
    if b.len() < 2 {
        None
    } else {
        let n = spec_u16_from_le_bytes(b.subrange(0, 2)) as int;
        if b.len() == 2 + n + 8 {
            Some(
                (
                    b.subrange(2, 2 + n),
                    spec_u64_from_le_bytes(b.subrange(2 + n, 2 + n + 8)),
                ),
            )
        } else {
            None
        }
    }
}

/// Encode a chunk request.
pub fn encode_request(name: &Vec<u8>, index: u64) -> (r: Vec<u8>)
    requires
        name@.len() <= u16::MAX,
    ensures
        r@ == spec_encode_request(name@, index),
{
    let mut out = u16_to_le_bytes(name.len() as u16);
    append_bytes(&mut out, name);
    let tail = u64_to_le_bytes(index);
    append_bytes(&mut out, &tail);
    proof {
        assert(out@ =~= spec_encode_request(name@, index));
    }
    out
}

/// Decode a chunk request, or nothing if the bytes are not exactly one
/// well-formed request.
pub fn decode_request(bytes: &Vec<u8>) -> (r: Option<ChunkRequest>)
    ensures
        r is Some <==> spec_decode_request(bytes@) is Some,
        r matches Some(req) ==> spec_decode_request(bytes@) == Some((req.name@, req.index)),
{
    if bytes.len() < 2 {
        return None;
    }
    let n = u16_from_le_bytes(slice_subrange(bytes.as_slice(), 0, 2)) as usize;
    if bytes.len() < 2 + 8 || bytes.len() - 2 - 8 != n {
        return None;
    }
    let name = slice_to_vec(slice_subrange(bytes.as_slice(), 2, 2 + n));
    let index = u64_from_le_bytes(slice_subrange(bytes.as_slice(), 2 + n, 2 + n + 8));
    Some(ChunkRequest { name, index })
}

/// Decoding inverts encoding: a request that fits the wire format comes
/// back exactly from its own encoding.
pub proof fn lemma_request_round_trip(name: Seq<u8>, index: u64)
    requires
        name.len() <= u16::MAX,
    ensures
        spec_decode_request(spec_encode_request(name, index)) == Some((name, index)),
{
    lemma_auto_spec_u16_to_from_le_bytes();
    lemma_auto_spec_u64_to_from_le_bytes();
    let b = spec_encode_request(name, index);
    let n = name.len() as int;
    assert(b.subrange(0, 2) =~= spec_u16_to_le_bytes(name.len() as u16));
    assert(b.subrange(2, 2 + n) =~= name);
    assert(b.subrange(2 + n, 2 + n + 8) =~= spec_u64_to_le_bytes(index));
}

/// The bytes of an encoded chunk response. Success carries the chunk's
/// index and its length-prefixed data after a zero status byte; failure is
/// a single status byte naming the error.
pub open spec fn spec_encode_response_ok(index: u64, data: Seq<u8>) -> Seq<u8> {
    seq![0u8] + spec_u64_to_le_bytes(index) + spec_u64_to_le_bytes(data.len() as u64) + data
}

/// The status byte of a wire-level failure.
pub open spec fn spec_error_code(e: Error) -> u8 {
    match e {
        Error::NotFound => 1u8,
        Error::OutOfRange => 2u8,
        _ => 3u8,
    }
}

/// The error a failure status byte names.
pub open spec fn spec_error_of_code(c: u8) -> Error {
    if c == 1 {
        Error::NotFound
    } else if c == 2 {
        Error::OutOfRange
    } else {
        Error::IoError
    }
}

/// What chunk response, if any, a byte string is the encoding of.
pub open spec fn spec_decode_response(b: Seq<u8>) -> Option<Result<(u64, Seq<u8>), Error>> {
    if b.len() < 1 {
        None
    } else if b[0] == 0 {
        if b.len() < 17 {
            None
        } else {
            let index = spec_u64_from_le_bytes(b.subrange(1, 9));
            let dlen = spec_u64_from_le_bytes(b.subrange(9, 17)) as int;
            if b.len() == 17 + dlen {
                Some(Ok((index, b.subrange(17, 17 + dlen))))
            } else {
                None
            }
        }
    } else if (b[0] == 1 || b[0] == 2 || b[0] == 3) && b.len() == 1 {
        Some(Err(spec_error_of_code(b[0])))
    } else {
        None
    }
}

/// Encode a successful chunk response.
pub fn encode_response_ok(chunk: &Chunk) -> (r: Vec<u8>)
    ensures
        r@ == spec_encode_response_ok(chunk.index, chunk.data@),
{
    let mut out: Vec<u8> = Vec::new();
    out.push(0u8);
    let ix = u64_to_le_bytes(chunk.index);
    append_bytes(&mut out, &ix);
    let dl = u64_to_le_bytes(chunk.data.len() as u64);
    append_bytes(&mut out, &dl);
    append_bytes(&mut out, &chunk.data);
    proof {
        assert(out@ =~= spec_encode_response_ok(chunk.index, chunk.data@));
    }
    out
}

/// Encode a failed chunk response: one status byte naming the error.
pub fn encode_response_err(e: Error) -> (r: Vec<u8>)
    requires
        e == Error::NotFound || e == Error::OutOfRange || e == Error::IoError,
    ensures
        r@ == seq![spec_error_code(e)],
        spec_decode_response(r@) == Some(Err::<(u64, Seq<u8>), Error>(e)),
{
    let code: u8 = match e {
        Error::NotFound => 1u8,
        Error::OutOfRange => 2u8,
        _ => 3u8,
    };
    let mut out: Vec<u8> = Vec::new();
    out.push(code);
    proof {
        assert(out@ =~= seq![spec_error_code(e)]);
    }
    out
}

/// Decode a chunk response, or nothing if the bytes are not exactly one
/// well-formed response.
pub fn decode_response(bytes: &Vec<u8>) -> (r: Option<Result<Chunk, Error>>)
    ensures
        r is Some <==> spec_decode_response(bytes@) is Some,
        r matches Some(Ok(c)) ==> spec_decode_response(bytes@) == Some(
            Ok::<(u64, Seq<u8>), Error>((c.index, c.data@)),
        ),
        r matches Some(Err(e)) ==> spec_decode_response(bytes@) == Some(
            Err::<(u64, Seq<u8>), Error>(e),
        ),
{
    if bytes.len() < 1 {
        return None;
    }
    let status = bytes[0];
    if status == 0 {
        if bytes.len() < 17 {
            return None;
        }
        let index = u64_from_le_bytes(slice_subrange(bytes.as_slice(), 1, 9));
        let dlen = u64_from_le_bytes(slice_subrange(bytes.as_slice(), 9, 17));
        if bytes.len() as u64 - 17 != dlen {
            return None;
        }
        let data = slice_to_vec(slice_subrange(bytes.as_slice(), 17, bytes.len()));
        Some(Ok(Chunk { index, data }))
    } else if (status == 1 || status == 2 || status == 3) && bytes.len() == 1 {
        let e = if status == 1 {
            Error::NotFound
        } else if status == 2 {
            Error::OutOfRange
        } else {
            Error::IoError
        };
        Some(Err(e))
    } else {
        None
    }
}

/// One file a discovery announcement advertises, as it travels on the
/// wire: the file's name as bytes and its chunk geometry.
pub struct AnnounceFile {
    /// The advertised file's name, as its bytes on the wire.
    pub name: Vec<u8>,
    /// Size in bytes of every chunk but possibly the last.
    pub chunk_size: u64,
    /// Size of the whole file in bytes.
    pub total_length: u64,
    /// Number of chunks of the file.
    pub total_chunks: u64,
}

impl View for AnnounceFile {
    type V = (Seq<u8>, u64, u64, u64);

    open spec fn view(&self) -> Self::V {
        (self.name@, self.chunk_size, self.total_length, self.total_chunks)
    }
}

/// The views of a list of advertised files.
pub open spec fn announce_files_view(fs: Seq<AnnounceFile>) -> Seq<(Seq<u8>, u64, u64, u64)> {
    fs.map_values(|f: AnnounceFile| f@)
}

/// The bytes of one advertised file on the wire: a length-prefixed name,
/// the chunk size, the file length and the chunk count.
pub open spec fn spec_encode_file(f: (Seq<u8>, u64, u64, u64)) -> Seq<u8> {
    spec_u16_to_le_bytes(f.0.len() as u16) + f.0 + spec_u64_to_le_bytes(f.1)
        + spec_u64_to_le_bytes(f.2) + spec_u64_to_le_bytes(f.3)
}

/// The bytes of a list of advertised files: the files' records in order.
pub open spec fn spec_encode_files(fs: Seq<(Seq<u8>, u64, u64, u64)>) -> Seq<u8>
    decreases fs.len(),
{
    if fs.len() == 0 {
        Seq::empty()
    } else {
        spec_encode_file(fs[0]) + spec_encode_files(fs.skip(1))
    }
}

/// The bytes of an encoded announcement: the announcing peer's serving
/// port, the number of advertised files, and the files' records.
pub open spec fn spec_encode_announce(tcp_port: u16, fs: Seq<(Seq<u8>, u64, u64, u64)>) -> Seq<u8> {
    spec_u16_to_le_bytes(tcp_port) + spec_u16_to_le_bytes(fs.len() as u16) + spec_encode_files(fs)
}

/// What list of `count` advertised-file records, if any, a byte string is
/// the encoding of.
pub open spec fn spec_decode_files(b: Seq<u8>, count: int) -> Option<Seq<(Seq<u8>, u64, u64, u64)>>
    decreases count,
{
    if count <= 0 {
        if b.len() == 0 {
            Some(Seq::empty())
        } else {
            None
        }
    } else if b.len() < 2 {
        None
    } else {
        let n = spec_u16_from_le_bytes(b.subrange(0, 2)) as int;
        if b.len() < 2 + n + 24 {
            None
        } else {
            let f = (
                b.subrange(2, 2 + n),
                spec_u64_from_le_bytes(b.subrange(2 + n, 2 + n + 8)),
                spec_u64_from_le_bytes(b.subrange(2 + n + 8, 2 + n + 16)),
                spec_u64_from_le_bytes(b.subrange(2 + n + 16, 2 + n + 24)),
            );
            match spec_decode_files(b.skip(2 + n + 24), count - 1) {
                Some(rest) => Some(seq![f] + rest),
                None => None,
            }
        }
    }
}

/// What announcement, if any, a byte string is the encoding of.
pub open spec fn spec_decode_announce(b: Seq<u8>) -> Option<(u16, Seq<(Seq<u8>, u64, u64, u64)>)> {
    if b.len() < 4 {
        None
    } else {
        let port = spec_u16_from_le_bytes(b.subrange(0, 2));
        let count = spec_u16_from_le_bytes(b.subrange(2, 4)) as int;
        match spec_decode_files(b.skip(4), count) {
            Some(fs) => Some((port, fs)),
            None => None,
        }
    }
}

/// Appending one file to a list appends its record to the list's bytes.
proof fn lemma_encode_files_snoc(fs: Seq<(Seq<u8>, u64, u64, u64)>, f: (Seq<u8>, u64, u64, u64))
    ensures
        spec_encode_files(fs.push(f)) == spec_encode_files(fs) + spec_encode_file(f),
    decreases fs.len(),
{
    reveal_with_fuel(spec_encode_files, 3);
    if fs.len() == 0 {
        assert(fs.push(f).skip(1) =~~= Seq::<(Seq<u8>, u64, u64, u64)>::empty());
        assert(spec_encode_files(fs.push(f)) =~= spec_encode_files(fs) + spec_encode_file(f));
    } else {
        assert(fs.push(f).skip(1) =~~= fs.skip(1).push(f));
        lemma_encode_files_snoc(fs.skip(1), f);
        assert((fs.push(f))[0] == fs[0]);
        assert(spec_encode_files(fs.push(f)) =~= spec_encode_files(fs) + spec_encode_file(f));
    }
}

/// Encode a discovery announcement.
pub fn encode_announce(tcp_port: u16, files: &Vec<AnnounceFile>) -> (r: Vec<u8>)
    requires
        files@.len() <= u16::MAX,
        forall|k: int| 0 <= k < files@.len() ==> (#[trigger] files@[k]).name@.len() <= u16::MAX,
    ensures
        r@ == spec_encode_announce(tcp_port, announce_files_view(files@)),
{
    let mut out = u16_to_le_bytes(tcp_port);
    let cnt = u16_to_le_bytes(files.len() as u16);
    append_bytes(&mut out, &cnt);
    let ghost header = out@;
    let mut i: usize = 0;
    while i < files.len()
        invariant
            0 <= i <= files@.len(),
            forall|k: int| 0 <= k < files@.len() ==> (#[trigger] files@[k]).name@.len()
                <= u16::MAX,
            out@ == header + spec_encode_files(announce_files_view(files@.take(i as int))),
        decreases files@.len() - i,
    {
        let f = &files[i];
        let nl = u16_to_le_bytes(f.name.len() as u16);
        append_bytes(&mut out, &nl);
        append_bytes(&mut out, &f.name);
        let cs = u64_to_le_bytes(f.chunk_size);
        append_bytes(&mut out, &cs);
        let tl = u64_to_le_bytes(f.total_length);
        append_bytes(&mut out, &tl);
        let tc = u64_to_le_bytes(f.total_chunks);
        append_bytes(&mut out, &tc);
        i = i + 1;
        proof {
            let va = announce_files_view(files@.take(i - 1));
            let vb = announce_files_view(files@.take(i as int));
            assert(vb =~= va.push(files@[i - 1]@));
            lemma_encode_files_snoc(va, files@[i - 1]@);
            assert(out@ =~= header + spec_encode_files(vb));
        }
    }
    proof {
        assert(files@.take(files@.len() as int) =~= files@);
        assert(out@ =~= spec_encode_announce(tcp_port, announce_files_view(files@)));
    }
    out
}

/// Decode a discovery announcement, or nothing if the bytes are not
/// exactly one well-formed announcement — a malformed message is
/// discarded, never trusted.
pub fn decode_announce(bytes: &Vec<u8>) -> (r: Option<(u16, Vec<AnnounceFile>)>)
    ensures
        r is Some <==> spec_decode_announce(bytes@) is Some,
        r matches Some((port, files)) ==> spec_decode_announce(bytes@) == Some(
            (port, announce_files_view(files@)),
        ),
{
    if bytes.len() < 4 {
        return None;
    }
    let port = u16_from_le_bytes(slice_subrange(bytes.as_slice(), 0, 2));
    let count = u16_from_le_bytes(slice_subrange(bytes.as_slice(), 2, 4)) as usize;
    let mut files: Vec<AnnounceFile> = Vec::new();
    let mut pos: usize = 4;
    let mut i: usize = 0;
    while i < count
        invariant
            0 <= i <= count,
            4 <= pos <= bytes@.len(),
            port == spec_u16_from_le_bytes(bytes@.subrange(0, 2)),
            count == spec_u16_from_le_bytes(bytes@.subrange(2, 4)) as int,
            bytes@.len() >= 4,
            files@.len() == i,
            match spec_decode_files(bytes@.skip(pos as int), count - i) {
                Some(rest) => spec_decode_announce(bytes@) == Some(
                    (port, announce_files_view(files@) + rest),
                ),
                None => spec_decode_announce(bytes@) is None,
            },
        decreases count - i,
    {
        let ghost pre = bytes@.skip(pos as int);
        if bytes.len() - pos < 2 {
            proof {
                assert(spec_decode_files(pre, count - i) is None);
            }
            return None;
        }
        let n = u16_from_le_bytes(slice_subrange(bytes.as_slice(), pos, pos + 2)) as usize;
        proof {
            assert(pre.subrange(0, 2) =~= bytes@.subrange(pos as int, pos + 2));
        }
        if bytes.len() - pos - 2 < n + 24 {
            proof {
                assert(spec_decode_files(pre, count - i) is None);
            }
            return None;
        }
        let name = slice_to_vec(slice_subrange(bytes.as_slice(), pos + 2, pos + 2 + n));
        let chunk_size = u64_from_le_bytes(
            slice_subrange(bytes.as_slice(), pos + 2 + n, pos + 2 + n + 8),
        );
        let total_length = u64_from_le_bytes(
            slice_subrange(bytes.as_slice(), pos + 2 + n + 8, pos + 2 + n + 16),
        );
        let total_chunks = u64_from_le_bytes(
            slice_subrange(bytes.as_slice(), pos + 2 + n + 16, pos + 2 + n + 24),
        );
        let ghost files0 = files@;
        files.push(AnnounceFile { name, chunk_size, total_length, total_chunks });
        proof {
            assert(pre.subrange(2, 2 + n) =~= bytes@.subrange(pos + 2, pos + 2 + n));
            assert(pre.subrange(2 + n, 2 + n + 8) =~= bytes@.subrange(
                pos + 2 + n,
                pos + 2 + n + 8,
            ));
            assert(pre.subrange(2 + n + 8, 2 + n + 16) =~= bytes@.subrange(
                pos + 2 + n + 8,
                pos + 2 + n + 16,
            ));
            assert(pre.subrange(2 + n + 16, 2 + n + 24) =~= bytes@.subrange(
                pos + 2 + n + 16,
                pos + 2 + n + 24,
            ));
            assert(pre.skip(2 + n + 24) =~= bytes@.skip(pos + 26 + n));
            assert(announce_files_view(files@) =~= announce_files_view(files0).push(
                (files@[i as int].name@, chunk_size, total_length, total_chunks),
            ));
            if spec_decode_files(bytes@.skip(pos + 26 + n), count - i - 1) is Some {
                let rest = spec_decode_files(bytes@.skip(pos + 26 + n), count - i - 1)->Some_0;
                assert(spec_decode_files(pre, count - i) == Some(
                    seq![(files@[i as int].name@, chunk_size, total_length, total_chunks)] + rest,
                ));
                assert(announce_files_view(files0) + (seq![
                    (files@[i as int].name@, chunk_size, total_length, total_chunks),
                ] + rest) =~= announce_files_view(files@) + rest);
            } else {
                assert(spec_decode_files(pre, count - i) is None);
            }
        }
        pos = pos + 26 + n;
        i = i + 1;
    }
    if pos != bytes.len() {
        proof {
            assert(bytes@.skip(pos as int).len() != 0);
            assert(spec_decode_files(bytes@.skip(pos as int), 0) is None);
        }
        return None;
    }
    proof {
        assert(bytes@.skip(pos as int).len() == 0);
        assert(spec_decode_files(bytes@.skip(pos as int), 0) == Some(
            Seq::<(Seq<u8>, u64, u64, u64)>::empty(),
        ));
        assert(announce_files_view(files@) + Seq::<(Seq<u8>, u64, u64, u64)>::empty()
            =~= announce_files_view(files@));
    }
    Some((port, files))
}

/// Decoding a list of advertised-file records inverts encoding it.
proof fn lemma_decode_files_of_encode(fs: Seq<(Seq<u8>, u64, u64, u64)>)
    requires
        forall|k: int| 0 <= k < fs.len() ==> (#[trigger] fs[k]).0.len() <= u16::MAX,
    ensures
        spec_decode_files(spec_encode_files(fs), fs.len() as int) == Some(fs),
    decreases fs.len(),
{
    lemma_auto_spec_u16_to_from_le_bytes();
    lemma_auto_spec_u64_to_from_le_bytes();
    if fs.len() == 0 {
        assert(spec_encode_files(fs) =~= Seq::<u8>::empty());
    } else {
        let b = spec_encode_files(fs);
        let f = fs[0];
        let n = f.0.len() as int;
        lemma_decode_files_of_encode(fs.skip(1));
        assert(b =~= spec_encode_file(f) + spec_encode_files(fs.skip(1)));
        assert(b.subrange(0, 2) =~= spec_u16_to_le_bytes(f.0.len() as u16));
        assert(b.subrange(2, 2 + n) =~= f.0);
        assert(b.subrange(2 + n, 2 + n + 8) =~= spec_u64_to_le_bytes(f.1));
        assert(b.subrange(2 + n + 8, 2 + n + 16) =~= spec_u64_to_le_bytes(f.2));
        assert(b.subrange(2 + n + 16, 2 + n + 24) =~= spec_u64_to_le_bytes(f.3));
        assert(b.skip(2 + n + 24) =~= spec_encode_files(fs.skip(1)));
        assert(seq![f] + fs.skip(1) =~~= fs);
    }
}

/// Decoding inverts encoding: an announcement whose file list and names
/// fit the wire format comes back exactly from its own encoding.
pub proof fn lemma_announce_round_trip(tcp_port: u16, fs: Seq<(Seq<u8>, u64, u64, u64)>)
    requires
        fs.len() <= u16::MAX,
        forall|k: int| 0 <= k < fs.len() ==> (#[trigger] fs[k]).0.len() <= u16::MAX,
    ensures
        spec_decode_announce(spec_encode_announce(tcp_port, fs)) == Some((tcp_port, fs)),
{
    lemma_auto_spec_u16_to_from_le_bytes();
    let b = spec_encode_announce(tcp_port, fs);
    lemma_decode_files_of_encode(fs);
    assert(b.subrange(0, 2) =~= spec_u16_to_le_bytes(tcp_port));
    assert(b.subrange(2, 4) =~= spec_u16_to_le_bytes(fs.len() as u16));
    assert(b.skip(4) =~= spec_encode_files(fs));
}

/// Decoding inverts encoding for successful responses.
pub proof fn lemma_response_round_trip(index: u64, data: Seq<u8>)
    requires
        data.len() <= u64::MAX - 17,
    ensures
        spec_decode_response(spec_encode_response_ok(index, data)) == Some(
            Ok::<(u64, Seq<u8>), Error>((index, data)),
        ),
{
    lemma_auto_spec_u64_to_from_le_bytes();
    let b = spec_encode_response_ok(index, data);
    assert(b[0] == 0);
    assert(b.subrange(1, 9) =~= spec_u64_to_le_bytes(index));
    assert(b.subrange(9, 17) =~= spec_u64_to_le_bytes(data.len() as u64));
    assert(b.subrange(17, 17 + data.len() as int) =~= data);
}

} // verus!
