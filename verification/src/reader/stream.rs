//! Reading the FD-3 stream field by field: how many more bytes to read
//! before the stream can be decided, so that the reader takes exactly the
//! stream and leaves whatever follows its trailer unread.
use crate::proto::{
    cut_off, MAGIC_HEADER, MAGIC_TRAILER, MAX_ENTRIES, MAX_ENTRY_BYTES, MAX_PATH_LEN, ProtoError,
    SpecProtoError, VERSION,
};
use crate::reader::protocol::{
    encode_entries, encode_entry, encode_frames, entry_encodable, entry_shortfall, is_magic, le16, le32, le64,
    lemma_le32_of, lemma_parse_entry_cut, lemma_parse_entry_encoded, magic_at, parse_entries, parse_entry,
    parse_frames, read_frames, read_le16, read_le32, read_le64, u32le, Frame,
};
use crate::text::utf8_string;
use vstd::prelude::*;
use vstd::slice::{slice_subrange, slice_to_vec};

verus! {

/// What the `k` entries from `pos` on and the trailer still need: how many
/// more bytes to read before the next field is whole, `Ok(0)` once the
/// trailer is there, or the error that the bytes so far already show.
pub open spec fn entries_need(b: Seq<u8>, pos: int, k: nat) -> Result<nat, SpecProtoError>
    decreases k,
{
    if k == 0 {
        if pos + 4 > b.len() {
            Ok((pos + 4 - b.len()) as nat)
        } else if !is_magic(b, pos, MAGIC_TRAILER) {
            Err(SpecProtoError::BadMagic)
        } else {
            Ok(0)
        }
    } else {
        match parse_entry(b, pos) {
            Ok((_, next)) => entries_need(b, next, (k - 1) as nat),
            Err(e) => if e == cut_off() {
                Ok(entry_shortfall(b, pos))
            } else {
                Err(e)
            },
        }
    }
}

/// What a stream of which `b` has been read still needs: how many more
/// bytes to read before its next field is whole, `Ok(0)` once it is
/// complete, or the error that the bytes so far already show.
pub open spec fn frames_need(b: Seq<u8>) -> Result<nat, SpecProtoError> {
    if b.len() < 4 {
        Ok((4 - b.len()) as nat)
    } else if !is_magic(b, 0, MAGIC_HEADER) {
        Err(SpecProtoError::BadMagic)
    } else if b.len() < 6 {
        Ok((6 - b.len()) as nat)
    } else if le16(b, 4) != VERSION {
        Err(SpecProtoError::BadVersion(le16(b, 4) as u16))
    } else if b.len() < 12 {
        Ok((12 - b.len()) as nat)
    } else if le32(b, 8) > MAX_ENTRIES {
        Err(SpecProtoError::TooLarge(le32(b, 8) as u64))
    } else {
        entries_need(b, 12, le32(b, 8) as nat)
    }
}

proof fn lemma_entry_cut_short(b: Seq<u8>, pos: int)
    requires
        parse_entry(b, pos) == Err::<((Seq<char>, Seq<u8>), int), _>(cut_off()),
    ensures
        entry_shortfall(b, pos) > 0,
{
}

proof fn lemma_entries_need_agrees(b: Seq<u8>, pos: int, k: nat)
    ensures
        entries_need(b, pos, k) == Ok::<nat, SpecProtoError>(0) ==> (parse_entries(b, pos, k) matches Ok(
            (_, end),
        ) && end + 4 <= b.len() && is_magic(b, end, MAGIC_TRAILER)),
        entries_need(b, pos, k) matches Ok(s) && s > 0 ==> (parse_entries(b, pos, k) == Err::<
            (Seq<(Seq<char>, Seq<u8>)>, int),
            _,
        >(cut_off()) || (parse_entries(b, pos, k) matches Ok((_, end)) && end + 4 > b.len())),
        entries_need(b, pos, k) matches Err(e) ==> (parse_entries(b, pos, k) == Err::<
            (Seq<(Seq<char>, Seq<u8>)>, int),
            _,
        >(e) || (parse_entries(b, pos, k) matches Ok((_, end)) && end + 4 <= b.len() && !is_magic(
            b,
            end,
            MAGIC_TRAILER,
        ) && e == SpecProtoError::BadMagic)),
    decreases k,
{
    if k > 0 {
        match parse_entry(b, pos) {
            Ok((f, next)) => {
                lemma_entries_need_agrees(b, next, (k - 1) as nat);
            },
            Err(e) => {
                if e == cut_off() {
                    lemma_entry_cut_short(b, pos);
                }
            },
        }
    }
}

/// What the reader is asked for agrees with the parser: nothing more
/// exactly when the stream parses, an error only when parsing fails with
/// that same error, and more bytes only when the stream so far is cut off.
pub proof fn lemma_need_agrees(b: Seq<u8>)
    ensures
        frames_need(b) == Ok::<nat, SpecProtoError>(0) <==> parse_frames(b) is Ok,
        frames_need(b) matches Err(e) ==> parse_frames(b) == Err::<Seq<(Seq<char>, Seq<u8>)>, _>(e),
        frames_need(b) matches Ok(k) && k > 0 ==> parse_frames(b) == Err::<
            Seq<(Seq<char>, Seq<u8>)>,
            _,
        >(cut_off()),
{
    if b.len() >= 12 && is_magic(b, 0, MAGIC_HEADER) && le16(b, 4) == VERSION && le32(b, 8)
        <= MAX_ENTRIES {
        lemma_entries_need_agrees(b, 12, le32(b, 8) as nat);
    }
}

/// Entries of the host's writing, then its trailer, read up to the end of
/// `b`: the reader is asked for more until they are whole, never past them.
proof fn lemma_entries_need_prefix(b: Seq<u8>, pos: int, fs: Seq<(Seq<char>, Seq<u8>)>)
    requires
        0 <= pos <= b.len(),
        b.len() <= pos + encode_entries(fs).len() + 4,
        b.subrange(pos, b.len() as int) == (encode_entries(fs) + MAGIC_TRAILER@).subrange(
            0,
            b.len() - pos,
        ),
        forall|i: int| 0 <= i < fs.len() ==> entry_encodable(#[trigger] fs[i]),
    ensures
        entries_need(b, pos, fs.len()) matches Ok(k) && b.len() + k <= pos + encode_entries(fs).len()
            + 4 && (k == 0 <==> b.len() == pos + encode_entries(fs).len() + 4),
    decreases fs.len(),
{
    let r = encode_entries(fs) + MAGIC_TRAILER@;
    if fs.len() == 0 {
        assert(encode_entries(fs) =~= Seq::<u8>::empty());
        if pos + 4 <= b.len() {
            assert(b.subrange(pos, pos + 4) =~= MAGIC_TRAILER@);
        }
    } else {
        let e0 = encode_entry(fs[0]);
        let rest = fs.drop_first();
        let er = encode_entries(rest);
        assert(encode_entries(fs) == e0 + er);
        if b.len() < pos + e0.len() {
            assert(b.subrange(pos, b.len() as int) =~= e0.subrange(0, b.len() - pos));
            lemma_parse_entry_cut(b, pos, fs[0]);
        } else {
            let next = pos + e0.len();
            assert(b.subrange(pos, next) =~= e0);
            lemma_parse_entry_encoded(b, pos, fs[0]);
            assert(b.subrange(next, b.len() as int) =~= b.subrange(pos, b.len() as int).subrange(
                e0.len() as int,
                b.len() - pos,
            ));
            assert(r.subrange(0, b.len() - pos).subrange(e0.len() as int, b.len() - pos)
                =~= (er + MAGIC_TRAILER@).subrange(0, b.len() - next));
            assert(b.subrange(next, b.len() as int) =~= (er + MAGIC_TRAILER@).subrange(
                0,
                b.len() - next,
            ));
            assert forall|i: int| 0 <= i < rest.len() implies entry_encodable(#[trigger] rest[i]) by {
                assert(rest[i] == fs[i + 1]);
            }
            lemma_entries_need_prefix(b, next, rest);
            assert((fs.len() - 1) as nat == rest.len());
        }
    }
}

/// Reading what the reader is asked for, from the host's writing of `fs`
/// followed by anything, takes exactly that writing: at every shorter
/// prefix it asks for more, never past the trailer, and at the whole
/// writing for nothing more.
pub proof fn lemma_need_reads_exactly(fs: Seq<(Seq<char>, Seq<u8>)>, n: int)
    requires
        fs.len() <= MAX_ENTRIES,
        forall|i: int| 0 <= i < fs.len() ==> entry_encodable(#[trigger] fs[i]),
        0 <= n <= encode_frames(fs).len(),
    ensures
        frames_need(encode_frames(fs).take(n)) matches Ok(k) && n + k <= encode_frames(fs).len() && (k
            == 0 <==> n == encode_frames(fs).len()),
{
    let full = encode_frames(fs);
    let b = full.take(n);
    let ee = encode_entries(fs);
    assert(full.len() == 16 + ee.len());
    if n >= 4 {
        assert(b.subrange(0, 4) =~= MAGIC_HEADER@);
    }
    if n >= 6 {
        assert(b[4] == 1u8 && b[5] == 0u8);
    }
    if n >= 12 {
        assert(b.subrange(8, 12) =~= u32le(fs.len() as u32));
        lemma_le32_of(b, 8, fs.len() as u32);
        assert(b.subrange(12, n) =~= (ee + MAGIC_TRAILER@).subrange(0, n - 12));
        lemma_entries_need_prefix(b, 12, fs);
    }
}

/// Checks the entry at `pos` without copying its content. `(next, 0)`: it
/// is whole and the next field starts at `next`; `(_, short)` with `short`
/// above zero: it needs `short` more bytes.
fn scan_entry(b: &[u8], pos: usize) -> (r: Result<(usize, usize), ProtoError>)
    requires
        pos <= b.len(),
    ensures
        match r {
            Ok((next, short)) => if short == 0 {
                parse_entry(b@, pos as int) matches Ok((_, n)) && n == next as int
            } else {
                &&& parse_entry(b@, pos as int) == Err::<((Seq<char>, Seq<u8>), int), _>(cut_off())
                &&& short == entry_shortfall(b@, pos as int)
            },
            Err(e) => {
                &&& parse_entry(b@, pos as int) == Err::<((Seq<char>, Seq<u8>), int), _>(e@)
                &&& e@ != cut_off()
            },
        },
{
    let len = b.len();
    if len - pos < 4 {
        return Ok((0, 4 - (len - pos)));
    }
    let pl = read_le32(b, pos);
    if pl > MAX_PATH_LEN as u64 {
        return Err(ProtoError::TooLarge(pl));
    }
    let p0 = pos + 4;
    let avail = (len - p0) as u64;
    if avail < pl {
        return Ok((0, (pl - avail) as usize));
    }
    let q = p0 + pl as usize;
    match utf8_string(slice_to_vec(slice_subrange(b, p0, q))) {
        Some(_) => {},
        None => {
            return Err(ProtoError::BadPath);
        },
    }
    if len - q < 8 {
        return Ok((0, 8 - (len - q)));
    }
    let bl = read_le64(b, q);
    if bl > MAX_ENTRY_BYTES {
        return Err(ProtoError::TooLarge(bl));
    }
    let d0 = q + 8;
    let rest = (len - d0) as u64;
    if rest < bl {
        return Ok((0, (bl - rest) as usize));
    }
    Ok((d0 + bl as usize, 0))
}

/// The entry at `pos` reads the same once more bytes follow: it was whole.
proof fn lemma_entry_extends(b: Seq<u8>, c: Seq<u8>, pos: int)
    requires
        0 <= pos,
        parse_entry(b, pos) is Ok,
    ensures
        parse_entry(b + c, pos) == parse_entry(b, pos),
{
    let bc = b + c;
    let l = le32(b, pos);
    assert(le32(bc, pos) == l);
    let q = pos + 4 + l;
    assert(bc.subrange(pos + 4, q) =~= b.subrange(pos + 4, q));
    assert(le64(bc, q) == le64(b, q));
    assert(bc.subrange(q + 8, q + 8 + le64(b, q)) =~= b.subrange(q + 8, q + 8 + le64(b, q)));
}

/// A stream's header reads the same once more bytes follow.
proof fn lemma_header_extends(b: Seq<u8>, c: Seq<u8>)
    requires
        b.len() >= 12,
        is_magic(b, 0, MAGIC_HEADER),
        le16(b, 4) == VERSION,
        le32(b, 8) <= MAX_ENTRIES,
    ensures
        frames_need(b + c) == entries_need(b + c, 12, le32(b, 8) as nat),
{
    let bc = b + c;
    assert(bc.subrange(0, 4) =~= b.subrange(0, 4));
    assert(le16(bc, 4) == le16(b, 4));
    assert(le32(bc, 8) == le32(b, 8));
}

/// The part of the FD-3 stream read so far, and how far it has been
/// checked.
pub struct FrameReader {
    read: Vec<u8>,
    started: bool,
    pos: usize,
    left: u64,
}

impl View for FrameReader {
    type V = Seq<u8>;

    closed spec fn view(&self) -> Seq<u8> {
        self.read@
    }
}

impl FrameReader {
    /// Once the header has been checked, the entries before `pos` are whole
    /// and `left` entries and the trailer follow, whatever is read next.
    pub closed spec fn wf(&self) -> bool {
        self.started ==> {
            &&& 12 <= self.pos <= self.read@.len()
            &&& forall|c: Seq<u8>|
                #[trigger] frames_need(self.read@ + c) == entries_need(
                    self.read@ + c,
                    self.pos as int,
                    self.left as nat,
                )
        }
    }

    /// Nothing read yet.
    pub fn new() -> (r: Self)
        ensures
            r.wf(),
            r@ == Seq::<u8>::empty(),
    {
        FrameReader { read: Vec::new(), started: false, pos: 0, left: 0 }
    }

    /// Appends the bytes just read.
    pub fn push(&mut self, chunk: &[u8])
        requires
            old(self).wf(),
        ensures
            final(self).wf(),
            final(self)@ == old(self)@ + chunk@,
    {
        let ghost before = self.read@;
        let mut more = slice_to_vec(chunk);
        self.read.append(&mut more);
        proof {
            if self.started {
                assert forall|c: Seq<u8>|
                    #[trigger] frames_need(self.read@ + c) == entries_need(
                        self.read@ + c,
                        self.pos as int,
                        self.left as nat,
                    ) by {
                    assert(self.read@ + c =~= before + (chunk@ + c));
                    assert(frames_need(before + (chunk@ + c)) == entries_need(
                        before + (chunk@ + c),
                        self.pos as int,
                        self.left as nat,
                    ));
                }
            }
        }
    }

    /// How many more bytes to read before the stream can be decided:
    /// `Ok(0)` once it is complete, or the error that it already shows.
    pub fn need(&mut self) -> (r: Result<usize, ProtoError>)
        requires
            old(self).wf(),
        ensures
            final(self).wf(),
            final(self)@ == old(self)@,
            match r {
                Ok(k) => frames_need(old(self)@) == Ok::<nat, SpecProtoError>(k as nat),
                Err(e) => frames_need(old(self)@) == Err::<nat, _>(e@),
            },
    {
        let ghost b = self.read@;
        proof {
            assert(b + Seq::<u8>::empty() =~= b);
        }
        let len = self.read.len();
        if !self.started {
            if len < 4 {
                return Ok(4 - len);
            }
            if !magic_at(self.read.as_slice(), 0, MAGIC_HEADER) {
                return Err(ProtoError::BadMagic);
            }
            if len < 6 {
                return Ok(6 - len);
            }
            let v = read_le16(self.read.as_slice(), 4) as u16;
            if v != VERSION {
                return Err(ProtoError::BadVersion(v));
            }
            if len < 12 {
                return Ok(12 - len);
            }
            let n = read_le32(self.read.as_slice(), 8);
            if n > MAX_ENTRIES as u64 {
                return Err(ProtoError::TooLarge(n));
            }
            proof {
                assert forall|c: Seq<u8>|
                    #[trigger] frames_need(b + c) == entries_need(b + c, 12, n as nat) by {
                    lemma_header_extends(b, c);
                }
            }
            self.started = true;
            self.pos = 12;
            self.left = n;
        }
        let mut pos = self.pos;
        let mut left = self.left;
        proof {
            assert(frames_need(b + Seq::<u8>::empty()) == entries_need(
                b + Seq::<u8>::empty(),
                pos as int,
                left as nat,
            ));
        }
        while left > 0
            invariant
                self.read@ == b,
                old(self)@ == b,
                len == b.len(),
                self.started,
                12 <= pos <= len,
                forall|c: Seq<u8>|
                    #[trigger] frames_need(b + c) == entries_need(b + c, pos as int, left as nat),
                frames_need(b) == entries_need(b, pos as int, left as nat),
            decreases left,
        {
            match scan_entry(self.read.as_slice(), pos) {
                Err(e) => {
                    self.pos = pos;
                    self.left = left;
                    return Err(e);
                },
                Ok((next, short)) => {
                    if short > 0 {
                        self.pos = pos;
                        self.left = left;
                        return Ok(short);
                    }
                    proof {
                        assert forall|c: Seq<u8>|
                            #[trigger] frames_need(b + c) == entries_need(
                                b + c,
                                next as int,
                                (left - 1) as nat,
                            ) by {
                            lemma_entry_extends(b, c, pos as int);
                            assert(frames_need(b + c) == entries_need(b + c, pos as int, left as nat));
                        }
                        assert(pos <= next);
                    }
                    pos = next;
                    left = left - 1;
                },
            }
        }
        self.pos = pos;
        self.left = left;
        if len - pos < 4 {
            return Ok(4 - (len - pos));
        }
        if !magic_at(self.read.as_slice(), pos, MAGIC_TRAILER) {
            return Err(ProtoError::BadMagic);
        }
        Ok(0)
    }

    /// The frames of the stream read so far, as `read_frames` parses them.
    pub fn frames(&self) -> (r: Result<Vec<Frame>, ProtoError>)
        ensures
            match r {
                Ok(fs) => parse_frames(self@) == Ok::<_, SpecProtoError>(fs.deep_view()),
                Err(e) => parse_frames(self@) == Err::<Seq<(Seq<char>, Seq<u8>)>, _>(e@),
            },
    {
        read_frames(self.read.as_slice())
    }
}

} // verus!
