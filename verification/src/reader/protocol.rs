//! Parser for the FD-3 wire format on the reader side.
use crate::proto::{
    cut_off, unexpected_eof, MAGIC_HEADER, MAGIC_TRAILER, MAX_ENTRIES, MAX_ENTRY_BYTES, MAX_PATH_LEN, ProtoError,
    SpecProtoError, VERSION,
};
use crate::text::utf8_string;
use vstd::prelude::*;
use vstd::slice::{slice_subrange, slice_to_vec};
use vstd::utf8::*;

verus! {

/// One file of the stream: its relative path and its bytes.
pub struct Frame {
    pub relative_path: String,
    pub bytes: Vec<u8>,
}

impl DeepView for Frame {
    type V = (Seq<char>, Seq<u8>);

    open spec fn deep_view(&self) -> (Seq<char>, Seq<u8>) {
        (self.relative_path@, self.bytes@)
    }
}

/// Little-endian value of `b[i..i + 2]`.
pub open spec fn le16(b: Seq<u8>, i: int) -> int {
    b[i] + 256 * b[i + 1]
}

/// Little-endian value of `b[i..i + 4]`.
pub open spec fn le32(b: Seq<u8>, i: int) -> int {
    le16(b, i) + 65536 * le16(b, i + 2)
}

/// Little-endian value of `b[i..i + 8]`.
pub open spec fn le64(b: Seq<u8>, i: int) -> int {
    le32(b, i) + 4294967296 * le32(b, i + 4)
}

/// One entry starting at `pos`: the frame and where the next field starts.
pub open spec fn parse_entry(b: Seq<u8>, pos: int) -> Result<((Seq<char>, Seq<u8>), int), SpecProtoError> {
    if pos + 4 > b.len() {
        Err(cut_off())
    } else if le32(b, pos) > MAX_PATH_LEN {
        Err(SpecProtoError::TooLarge(le32(b, pos) as u64))
    } else if pos + 4 + le32(b, pos) > b.len() {
        Err(cut_off())
    } else {
        let path = b.subrange(pos + 4, pos + 4 + le32(b, pos));
        let q = pos + 4 + le32(b, pos);
        if !valid_utf8(path) {
            Err(SpecProtoError::BadPath)
        } else if q + 8 > b.len() {
            Err(cut_off())
        } else if le64(b, q) > MAX_ENTRY_BYTES {
            Err(SpecProtoError::TooLarge(le64(b, q) as u64))
        } else if q + 8 + le64(b, q) > b.len() {
            Err(cut_off())
        } else {
            Ok(((decode_utf8(path), b.subrange(q + 8, q + 8 + le64(b, q))), q + 8 + le64(b, q)))
        }
    }
}

/// How many more bytes the entry at `pos` needs before the field that ends
/// it is there, counted from the end of `b`.
pub open spec fn entry_shortfall(b: Seq<u8>, pos: int) -> nat {
    if pos + 4 > b.len() {
        (pos + 4 - b.len()) as nat
    } else if pos + 4 + le32(b, pos) > b.len() {
        (pos + 4 + le32(b, pos) - b.len()) as nat
    } else if pos + 4 + le32(b, pos) + 8 > b.len() {
        (pos + 4 + le32(b, pos) + 8 - b.len()) as nat
    } else {
        (pos + 4 + le32(b, pos) + 8 + le64(b, pos + 4 + le32(b, pos)) - b.len()) as nat
    }
}

/// `k` entries starting at `pos`, and where the field after them starts.
pub open spec fn parse_entries(b: Seq<u8>, pos: int, k: nat) -> Result<
    (Seq<(Seq<char>, Seq<u8>)>, int),
    SpecProtoError,
>
    decreases k,
{
    if k == 0 {
        Ok((seq![], pos))
    } else {
        match parse_entry(b, pos) {
            Err(e) => Err(e),
            Ok((f, next)) => match parse_entries(b, next, (k - 1) as nat) {
                Err(e) => Err(e),
                Ok((fs, end)) => Ok((seq![f] + fs, end)),
            },
        }
    }
}

/// `fs` followed by what `r` parsed, or the error of `r`.
pub open spec fn prepend(fs: Seq<(Seq<char>, Seq<u8>)>, r: Result<(Seq<(Seq<char>, Seq<u8>)>, int), SpecProtoError>) -> Result<
    (Seq<(Seq<char>, Seq<u8>)>, int),
    SpecProtoError,
> {
    match r {
        Err(e) => Err(e),
        Ok((rest, end)) => Ok((fs + rest, end)),
    }
}

pub open spec fn is_magic(b: Seq<u8>, i: int, m: [u8; 4]) -> bool {
    b.subrange(i, i + 4) == m@
}

/// The frames that a complete stream `b` holds, or the first error.
pub open spec fn parse_frames(b: Seq<u8>) -> Result<Seq<(Seq<char>, Seq<u8>)>, SpecProtoError> {
    if b.len() < 4 {
        Err(cut_off())
    } else if !is_magic(b, 0, MAGIC_HEADER) {
        Err(SpecProtoError::BadMagic)
    } else if b.len() < 6 {
        Err(cut_off())
    } else if le16(b, 4) != VERSION {
        Err(SpecProtoError::BadVersion(le16(b, 4) as u16))
    } else if b.len() < 12 {
        Err(cut_off())
    } else if le32(b, 8) > MAX_ENTRIES {
        Err(SpecProtoError::TooLarge(le32(b, 8) as u64))
    } else {
        match parse_entries(b, 12, le32(b, 8) as nat) {
            Err(e) => Err(e),
            Ok((fs, end)) => if end + 4 > b.len() {
                Err(cut_off())
            } else if !is_magic(b, end, MAGIC_TRAILER) {
                Err(SpecProtoError::BadMagic)
            } else {
                Ok(fs)
            },
        }
    }
}

pub(crate) fn read_le16(b: &[u8], i: usize) -> (v: u64)
    requires
        i + 2 <= b.len(),
    ensures
        v == le16(b@, i as int),
        v < 0x1_0000,
{
    b[i] as u64 + 256 * (b[i + 1] as u64)
}

pub(crate) fn read_le32(b: &[u8], i: usize) -> (v: u64)
    requires
        i + 4 <= b.len(),
    ensures
        v == le32(b@, i as int),
        v < 0x1_0000_0000,
{
    read_le16(b, i) + 65536 * read_le16(b, i + 2)
}

pub(crate) fn read_le64(b: &[u8], i: usize) -> (v: u64)
    requires
        i + 8 <= b.len(),
    ensures
        v == le64(b@, i as int),
{
    let lo = read_le32(b, i);
    let hi = read_le32(b, i + 4);
    assert(lo + 4294967296 * hi <= u64::MAX) by (nonlinear_arith)
        requires
            lo < 0x1_0000_0000,
            hi < 0x1_0000_0000,
    ;
    lo + 4294967296 * hi
}

pub(crate) fn magic_at(b: &[u8], i: usize, m: [u8; 4]) -> (r: bool)
    requires
        i + 4 <= b.len(),
    ensures
        r == is_magic(b@, i as int, m),
{
    let r = b[i] == m[0] && b[i + 1] == m[1] && b[i + 2] == m[2] && b[i + 3] == m[3];
    proof {
        if r {
            assert(b@.subrange(i as int, i + 4) =~= m@);
        } else {
            assert(exists|k: int|
                0 <= k < 4 && b@.subrange(i as int, i + 4)[k] != m@[k]);
        }
    }
    r
}

/// Parses one entry at `pos`.
fn read_entry(b: &[u8], pos: usize) -> (r: Result<(Frame, usize), ProtoError>)
    ensures
        match r {
            Ok((f, next)) => parse_entry(b@, pos as int) == Ok::<_, SpecProtoError>(
                (f.deep_view(), next as int),
            ),
            Err(e) => parse_entry(b@, pos as int) == Err::<((Seq<char>, Seq<u8>), int), _>(e@),
        },
{
    let len = b.len();
    if pos > len || len - pos < 4 {
        return Err(ProtoError::Io(unexpected_eof()));
    }
    let pl = read_le32(b, pos);
    if pl > MAX_PATH_LEN as u64 {
        return Err(ProtoError::TooLarge(pl));
    }
    let p0 = pos + 4;
    if (len - p0) < pl as usize {
        return Err(ProtoError::Io(unexpected_eof()));
    }
    let q = p0 + pl as usize;
    let path_bytes = slice_to_vec(slice_subrange(b, p0, q));
    let relative_path = match utf8_string(path_bytes) {
        Some(s) => s,
        None => {
            return Err(ProtoError::BadPath);
        },
    };
    if len - q < 8 {
        return Err(ProtoError::Io(unexpected_eof()));
    }
    let bl = read_le64(b, q);
    if bl > MAX_ENTRY_BYTES {
        return Err(ProtoError::TooLarge(bl));
    }
    let d0 = q + 8;
    if ((len - d0) as u64) < bl {
        return Err(ProtoError::Io(unexpected_eof()));
    }
    let end = d0 + bl as usize;
    let bytes = slice_to_vec(slice_subrange(b, d0, end));
    Ok((Frame { relative_path, bytes }, end))
}

/// Parses a complete host→reader stream into its frames.
///
/// The stream is the whole of `input`; bytes after the trailer are ignored.
pub fn read_frames(input: &[u8]) -> (r: Result<Vec<Frame>, ProtoError>)
    ensures
        match r {
            Ok(fs) => parse_frames(input@) == Ok::<_, SpecProtoError>(fs.deep_view()),
            Err(e) => parse_frames(input@) == Err::<Seq<(Seq<char>, Seq<u8>)>, _>(e@),
        },
{
    let b = input;
    let len = b.len();
    if len < 4 {
        return Err(ProtoError::Io(unexpected_eof()));
    }
    if !magic_at(b, 0, MAGIC_HEADER) {
        return Err(ProtoError::BadMagic);
    }
    if len < 6 {
        return Err(ProtoError::Io(unexpected_eof()));
    }
    let v = read_le16(b, 4) as u16;
    if v != VERSION {
        return Err(ProtoError::BadVersion(v));
    }
    if len < 12 {
        return Err(ProtoError::Io(unexpected_eof()));
    }
    let n = read_le32(b, 8);
    if n > MAX_ENTRIES as u64 {
        return Err(ProtoError::TooLarge(n));
    }
    let mut out: Vec<Frame> = Vec::new();
    let mut pos: usize = 12;
    let mut i: u64 = 0;
    while i < n
        invariant
            i <= n,
            n == le32(b@, 8),
            n <= MAX_ENTRIES,
            b@.len() >= 12,
            len == b@.len(),
            b@ == input@,
            is_magic(b@, 0, MAGIC_HEADER),
            le16(b@, 4) == VERSION,
            parse_entries(b@, 12, n as nat) == prepend(
                out.deep_view(),
                parse_entries(b@, pos as int, (n - i) as nat),
            ),
        decreases n - i,
    {
        let ghost old_out = out.deep_view();
        match read_entry(b, pos) {
            Ok((f, next)) => {
                out.push(f);
                assert(out.deep_view() =~= old_out + seq![f.deep_view()]);
                assert(parse_entries(b@, pos as int, (n - i) as nat) == prepend(
                    seq![f.deep_view()],
                    parse_entries(b@, next as int, (n - i - 1) as nat),
                ));
                proof {
                    match parse_entries(b@, next as int, (n - i - 1) as nat) {
                        Ok((fs, e)) => {
                            assert(old_out + (seq![f.deep_view()] + fs) =~= out.deep_view()
                                + fs);
                        },
                        Err(_) => {},
                    }
                }
                pos = next;
            },
            Err(e) => {
                assert(parse_entries(b@, pos as int, (n - i) as nat) == Err::<
                    (Seq<(Seq<char>, Seq<u8>)>, int),
                    _,
                >(e@));
                assert(parse_entries(b@, 12, n as nat) == Err::<
                    (Seq<(Seq<char>, Seq<u8>)>, int),
                    _,
                >(e@));
                assert(parse_frames(b@) == Err::<Seq<(Seq<char>, Seq<u8>)>, _>(e@));
                return Err(e);
            },
        }
        i = i + 1;
    }
    assert(out.deep_view() + Seq::<(Seq<char>, Seq<u8>)>::empty() =~= out.deep_view());
    if pos > len || len - pos < 4 {
        return Err(ProtoError::Io(unexpected_eof()));
    }
    if !magic_at(b, pos, MAGIC_TRAILER) {
        return Err(ProtoError::BadMagic);
    }
    Ok(out)
}

/// One frame within the stream's limits: its path is at most
/// `MAX_PATH_LEN` bytes of UTF-8, its content at most `MAX_ENTRY_BYTES`.
pub open spec fn frame_within_limits(f: (Seq<char>, Seq<u8>)) -> bool {
    &&& exists|p: Seq<u8>|
        p.len() <= MAX_PATH_LEN && valid_utf8(p) && #[trigger] decode_utf8(p) == f.0
    &&& f.1.len() <= MAX_ENTRY_BYTES
}

proof fn lemma_entries_within_limits(b: Seq<u8>, pos: int, k: nat)
    requires
        pos >= 0,
    ensures
        parse_entries(b, pos, k) matches Ok((fs, _)) ==> fs.len() == k && forall|i: int|
            0 <= i < fs.len() ==> frame_within_limits(#[trigger] fs[i]),
    decreases k,
{
    if k > 0 {
        if let Ok((f, next)) = parse_entry(b, pos) {
            lemma_entries_within_limits(b, next, (k - 1) as nat);
            if let Ok((fs, end)) = parse_entries(b, next, (k - 1) as nat) {
                let path = b.subrange(pos + 4, pos + 4 + le32(b, pos));
                let q = pos + 4 + le32(b, pos);
                assert(le32(b, pos) <= MAX_PATH_LEN);
                assert(pos + 4 + le32(b, pos) <= b.len());
                assert(path.len() == le32(b, pos));
                assert(valid_utf8(path));
                assert(decode_utf8(path) == f.0);
                assert(f.1.len() == le64(b, q));
                assert(le64(b, q) <= MAX_ENTRY_BYTES);
                assert(frame_within_limits(f));
                let all = seq![f] + fs;
                assert forall|i: int| 0 <= i < all.len() implies frame_within_limits(
                    #[trigger] all[i],
                ) by {
                    if i > 0 {
                        assert(all[i] == fs[i - 1]);
                    }
                }
            }
        }
    }
}

/// A stream that parses holds at most `MAX_ENTRIES` frames, each within
/// the path and size limits: nothing larger gets through.
pub proof fn lemma_frames_within_limits(b: Seq<u8>)
    ensures
        parse_frames(b) matches Ok(fs) ==> fs.len() <= MAX_ENTRIES && forall|i: int|
            0 <= i < fs.len() ==> frame_within_limits(#[trigger] fs[i]),
{
    if b.len() >= 12 && le32(b, 8) <= MAX_ENTRIES {
        lemma_entries_within_limits(b, 12, le32(b, 8) as nat);
    }
}

/// `n` in four bytes, little-endian.
pub open spec fn u32le(n: u32) -> Seq<u8> {
    seq![(n % 256) as u8, ((n / 256) % 256) as u8, ((n / 65536) % 256) as u8, (n / 16777216) as u8]
}

/// `n` in eight bytes, little-endian.
pub open spec fn u64le(n: u64) -> Seq<u8> {
    u32le((n % 4294967296) as u32) + u32le((n / 4294967296) as u32)
}

/// One frame as the host writes it: path length, path bytes, content
/// length, content.
pub open spec fn encode_entry(f: (Seq<char>, Seq<u8>)) -> Seq<u8> {
    u32le(encode_utf8(f.0).len() as u32) + encode_utf8(f.0) + u64le(f.1.len() as u64) + f.1
}

pub open spec fn encode_entries(fs: Seq<(Seq<char>, Seq<u8>)>) -> Seq<u8>
    decreases fs.len(),
{
    if fs.len() == 0 {
        seq![]
    } else {
        encode_entry(fs[0]) + encode_entries(fs.drop_first())
    }
}

/// The stream that the host writes for `fs`: header, entries, trailer.
pub open spec fn encode_frames(fs: Seq<(Seq<char>, Seq<u8>)>) -> Seq<u8> {
    MAGIC_HEADER@ + seq![1u8, 0, 0, 0] + u32le(fs.len() as u32) + encode_entries(fs)
        + MAGIC_TRAILER@
}

/// A frame the host may send: its path at most `MAX_PATH_LEN` bytes of
/// UTF-8, its content at most `MAX_ENTRY_BYTES`.
pub open spec fn entry_encodable(f: (Seq<char>, Seq<u8>)) -> bool {
    encode_utf8(f.0).len() <= MAX_PATH_LEN && f.1.len() <= MAX_ENTRY_BYTES
}

proof fn lemma_u32le_value(n: u32)
    ensures
        (n % 256) + 256 * ((n / 256) % 256) + 65536 * (((n / 65536) % 256) + 256 * (n
            / 16777216)) == n,
        n / 16777216 < 256,
{
    assert((n % 256) + 256 * ((n / 256) % 256) + 65536 * (((n / 65536) % 256) + 256 * (n
        / 16777216)) == n) by (bit_vector);
    assert(n / 16777216 < 256) by (bit_vector);
}

/// Four bytes written by `u32le` read back as `n`.
pub(crate) proof fn lemma_le32_of(b: Seq<u8>, i: int, n: u32)
    requires
        0 <= i,
        i + 4 <= b.len(),
        b.subrange(i, i + 4) == u32le(n),
    ensures
        le32(b, i) == n,
{
    lemma_u32le_value(n);
    assert(b[i] == b.subrange(i, i + 4)[0]);
    assert(b[i + 1] == b.subrange(i, i + 4)[1]);
    assert(b[i + 2] == b.subrange(i, i + 4)[2]);
    assert(b[i + 3] == b.subrange(i, i + 4)[3]);
}

/// Eight bytes written by `u64le` read back as `n`.
proof fn lemma_le64_of(b: Seq<u8>, i: int, n: u64)
    requires
        0 <= i,
        i + 8 <= b.len(),
        b.subrange(i, i + 8) == u64le(n),
    ensures
        le64(b, i) == n,
{
    let lo = (n % 4294967296) as u32;
    let hi = (n / 4294967296) as u32;
    assert(b.subrange(i, i + 4) =~= b.subrange(i, i + 8).subrange(0, 4));
    assert(b.subrange(i + 4, i + 8) =~= b.subrange(i, i + 8).subrange(4, 8));
    assert(u64le(n).subrange(0, 4) =~= u32le(lo));
    assert(u64le(n).subrange(4, 8) =~= u32le(hi));
    lemma_le32_of(b, i, lo);
    lemma_le32_of(b, i + 4, hi);
    assert(lo + 4294967296 * hi == n) by (bit_vector)
        requires
            lo == (n % 4294967296) as u32,
            hi == (n / 4294967296) as u32,
    ;
}

/// An encoded entry at `pos` parses back to the frame, and the next field
/// starts right after it.
pub(crate) proof fn lemma_parse_entry_encoded(b: Seq<u8>, pos: int, f: (Seq<char>, Seq<u8>))
    requires
        0 <= pos,
        pos + encode_entry(f).len() <= b.len(),
        b.subrange(pos, pos + encode_entry(f).len()) == encode_entry(f),
        entry_encodable(f),
    ensures
        parse_entry(b, pos) == Ok::<_, SpecProtoError>((f, pos + encode_entry(f).len())),
{
    broadcast use encode_utf8_valid_utf8, encode_utf8_decode_utf8;

    let p = encode_utf8(f.0);
    let l = p.len() as int;
    let e = encode_entry(f);
    let q = pos + 4 + l;
    assert(b.subrange(pos, pos + 4) =~= e.subrange(0, 4));
    assert(e.subrange(0, 4) =~= u32le(p.len() as u32));
    lemma_le32_of(b, pos, p.len() as u32);
    assert(b.subrange(pos + 4, q) =~= e.subrange(4, 4 + l));
    assert(e.subrange(4, 4 + l) =~= p);
    assert(b.subrange(q, q + 8) =~= e.subrange(4 + l, 4 + l + 8));
    assert(e.subrange(4 + l, 4 + l + 8) =~= u64le(f.1.len() as u64));
    lemma_le64_of(b, q, f.1.len() as u64);
    assert(b.subrange(q + 8, q + 8 + f.1.len()) =~= e.subrange(12 + l, e.len() as int));
    assert(e.subrange(12 + l, e.len() as int) =~= f.1);
}

proof fn lemma_parse_entries_encoded(b: Seq<u8>, pos: int, fs: Seq<(Seq<char>, Seq<u8>)>)
    requires
        0 <= pos,
        pos + encode_entries(fs).len() <= b.len(),
        b.subrange(pos, pos + encode_entries(fs).len()) == encode_entries(fs),
        forall|i: int| 0 <= i < fs.len() ==> entry_encodable(#[trigger] fs[i]),
    ensures
        parse_entries(b, pos, fs.len()) == Ok::<_, SpecProtoError>(
            (fs, pos + encode_entries(fs).len()),
        ),
    decreases fs.len(),
{
    if fs.len() > 0 {
        let e0 = encode_entry(fs[0]);
        let rest = fs.drop_first();
        let er = encode_entries(rest);
        assert(encode_entries(fs) == e0 + er);
        assert(b.subrange(pos, pos + e0.len()) =~= encode_entries(fs).subrange(0, e0.len() as int));
        assert(encode_entries(fs).subrange(0, e0.len() as int) =~= e0);
        lemma_parse_entry_encoded(b, pos, fs[0]);
        let next = pos + e0.len();
        assert(b.subrange(next, next + er.len()) =~= encode_entries(fs).subrange(
            e0.len() as int,
            encode_entries(fs).len() as int,
        ));
        assert(encode_entries(fs).subrange(e0.len() as int, encode_entries(fs).len() as int)
            =~= er);
        assert forall|i: int| 0 <= i < rest.len() implies entry_encodable(#[trigger] rest[i]) by {
            assert(rest[i] == fs[i + 1]);
        }
        lemma_parse_entries_encoded(b, next, rest);
        assert((fs.len() - 1) as nat == rest.len());
        assert(seq![fs[0]] + rest =~= fs);
        assert(parse_entry(b, pos) == Ok::<_, SpecProtoError>((fs[0], next)));
        assert(parse_entries(b, next, rest.len()) == Ok::<_, SpecProtoError>(
            (rest, next + er.len()),
        ));
        assert(next + er.len() == pos + encode_entries(fs).len());
    } else {
        assert(fs =~= Seq::<(Seq<char>, Seq<u8>)>::empty());
    }
}

/// What the host writes reads back: a stream of at most `MAX_ENTRIES`
/// frames within the limits, followed by anything at all, parses to those
/// frames, in order.
pub proof fn lemma_frames_round_trip(fs: Seq<(Seq<char>, Seq<u8>)>, rest: Seq<u8>)
    requires
        fs.len() <= MAX_ENTRIES,
        forall|i: int| 0 <= i < fs.len() ==> entry_encodable(#[trigger] fs[i]),
    ensures
        parse_frames(encode_frames(fs) + rest) == Ok::<_, SpecProtoError>(fs),
{
    let b = encode_frames(fs) + rest;
    let ee = encode_entries(fs);
    let end = 12 + ee.len() as int;
    assert(b.subrange(0, 4) =~= MAGIC_HEADER@);
    assert(b[4] == 1u8 && b[5] == 0u8);
    assert(b.subrange(8, 12) =~= u32le(fs.len() as u32));
    lemma_le32_of(b, 8, fs.len() as u32);
    assert(b.subrange(12, end) =~= ee);
    lemma_parse_entries_encoded(b, 12, fs);
    assert(b.subrange(end, end + 4) =~= MAGIC_TRAILER@);
}

pub(crate) proof fn lemma_parse_entry_cut(b: Seq<u8>, pos: int, f: (Seq<char>, Seq<u8>))
    requires
        0 <= pos <= b.len(),
        b.len() < pos + encode_entry(f).len(),
        b.subrange(pos, b.len() as int) == encode_entry(f).subrange(0, b.len() - pos),
        entry_encodable(f),
    ensures
        parse_entry(b, pos) == Err::<((Seq<char>, Seq<u8>), int), _>(cut_off()),
        0 < entry_shortfall(b, pos),
        b.len() + entry_shortfall(b, pos) <= pos + encode_entry(f).len(),
{
    broadcast use encode_utf8_valid_utf8, encode_utf8_decode_utf8;

    let p = encode_utf8(f.0);
    let l = p.len() as int;
    let e = encode_entry(f);
    let q = pos + 4 + l;
    if pos + 4 <= b.len() {
        assert(b.subrange(pos, pos + 4) =~= e.subrange(0, 4));
        assert(e.subrange(0, 4) =~= u32le(p.len() as u32));
        lemma_le32_of(b, pos, p.len() as u32);
        if q <= b.len() {
            assert(b.subrange(pos + 4, q) =~= b.subrange(pos, b.len() as int).subrange(4, 4 + l));
            assert(e.subrange(0, b.len() - pos).subrange(4, 4 + l) =~= e.subrange(4, 4 + l));
            assert(b.subrange(pos + 4, q) =~= e.subrange(4, 4 + l));
            assert(e.subrange(4, 4 + l) =~= p);
            if q + 8 <= b.len() {
                assert(b.subrange(q, q + 8) =~= b.subrange(pos, b.len() as int).subrange(
                    4 + l,
                    4 + l + 8,
                ));
                assert(e.subrange(0, b.len() - pos).subrange(4 + l, 4 + l + 8) =~= e.subrange(
                    4 + l,
                    4 + l + 8,
                ));
                assert(b.subrange(q, q + 8) =~= e.subrange(4 + l, 4 + l + 8));
                assert(e.subrange(4 + l, 4 + l + 8) =~= u64le(f.1.len() as u64));
                lemma_le64_of(b, q, f.1.len() as u64);
            }
        }
    }
}

proof fn lemma_parse_entries_cut(b: Seq<u8>, pos: int, fs: Seq<(Seq<char>, Seq<u8>)>)
    requires
        0 <= pos <= b.len(),
        b.len() < pos + encode_entries(fs).len(),
        b.subrange(pos, b.len() as int) == encode_entries(fs).subrange(0, b.len() - pos),
        forall|i: int| 0 <= i < fs.len() ==> entry_encodable(#[trigger] fs[i]),
    ensures
        parse_entries(b, pos, fs.len()) == Err::<(Seq<(Seq<char>, Seq<u8>)>, int), _>(cut_off()),
    decreases fs.len(),
{
    let e0 = encode_entry(fs[0]);
    let rest = fs.drop_first();
    let er = encode_entries(rest);
    assert(encode_entries(fs) == e0 + er);
    if b.len() < pos + e0.len() {
        assert(b.subrange(pos, b.len() as int) =~= e0.subrange(0, b.len() - pos));
        lemma_parse_entry_cut(b, pos, fs[0]);
    } else {
        let next = pos + e0.len();
        assert(b.subrange(pos, next) =~= e0);
        lemma_parse_entry_encoded(b, pos, fs[0]);
        assert(b.subrange(next, b.len() as int) =~= b.subrange(pos, b.len() as int).subrange(
            e0.len() as int,
            b.len() - pos,
        ));
        assert((e0 + er).subrange(0, b.len() - pos).subrange(e0.len() as int, b.len() - pos)
            =~= er.subrange(0, b.len() - next));
        assert(b.subrange(next, b.len() as int) =~= er.subrange(0, b.len() - next));
        assert forall|i: int| 0 <= i < rest.len() implies entry_encodable(#[trigger] rest[i]) by {
            assert(rest[i] == fs[i + 1]);
        }
        lemma_parse_entries_cut(b, next, rest);
        assert((fs.len() - 1) as nat == rest.len());
    }
}

/// A stream that the host's writing of `fs` was cut off in the middle of
/// fails as an I/O error of kind `UnexpectedEof`, never with frames.
pub proof fn lemma_frames_cut_off(fs: Seq<(Seq<char>, Seq<u8>)>, n: int)
    requires
        fs.len() <= MAX_ENTRIES,
        forall|i: int| 0 <= i < fs.len() ==> entry_encodable(#[trigger] fs[i]),
        0 <= n < encode_frames(fs).len(),
    ensures
        parse_frames(encode_frames(fs).take(n)) == Err::<Seq<(Seq<char>, Seq<u8>)>, _>(cut_off()),
{
    let full = encode_frames(fs);
    let b = full.take(n);
    let ee = encode_entries(fs);
    let end = 12 + ee.len() as int;
    if n >= 4 {
        assert(b.subrange(0, 4) =~= MAGIC_HEADER@);
    }
    if n >= 6 {
        assert(b[4] == 1u8 && b[5] == 0u8);
    }
    if n >= 12 {
        assert(b.subrange(8, 12) =~= u32le(fs.len() as u32));
        lemma_le32_of(b, 8, fs.len() as u32);
        if n < end {
            assert(b.subrange(12, n) =~= ee.subrange(0, n - 12));
            lemma_parse_entries_cut(b, 12, fs);
        } else {
            assert(b.subrange(12, end) =~= ee);
            lemma_parse_entries_encoded(b, 12, fs);
        }
    }
}

} // verus!
