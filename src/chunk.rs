//! A chunk: a length, a type code, the data, and a CRC-32 over type and data.
use vstd::prelude::*;
use crate::bytes::{
    all_ascii, ascii_chars, be_u32_at, crc32, crc32_of, extend_bytes, lemma_u32_be_round_trip,
    lemma_u32_from_be_round_trip, push_u32_be,
    read_u32_be, string_from_utf8, u32_to_be,
};
use crate::chunk_type::{is_type_code, ChunkType};
use crate::error::PngError;
use vstd::utf8::{decode_utf8, valid_utf8};

verus! {

/// The mathematical content of a chunk.
pub struct ChunkView {
    pub length: u32,
    pub chunk_type: Seq<u8>,
    pub data: Seq<u8>,
    pub crc: u32,
}

impl ChunkView {
    /// A chunk whose length counts its data, whose type is four letters, and
    /// whose checksum is the CRC-32 of type and data.
    pub open spec fn wf(self) -> bool {
        &&& self.data.len() == self.length as nat
        &&& is_type_code(self.chunk_type)
        &&& self.crc == crc32_of(self.chunk_type + self.data)
    }

    /// The wire form: length, type, data and checksum, integers big-endian.
    pub open spec fn bytes(self) -> Seq<u8> {
        u32_to_be(self.length) + self.chunk_type + self.data + u32_to_be(self.crc)
    }
}

/// The chunk that `new` builds from a type code and data.
pub open spec fn new_chunk_view(chunk_type: Seq<u8>, data: Seq<u8>) -> ChunkView {
    ChunkView {
        length: data.len() as u32,
        chunk_type,
        data,
        crc: crc32_of(chunk_type + data),
    }
}

/// What parsing a chunk from the start of `b` gives. Bytes after the
/// checksum are not read.
#[verifier::opaque]
pub open spec fn parse_chunk(b: Seq<u8>) -> Result<ChunkView, PngError> {
    if b.len() < 12 {
        Err(PngError::TruncatedBuffer)
    } else if !is_type_code(b.subrange(4, 8)) {
        Err(PngError::InvalidTypeCode)
    } else if b.len() < 12 + be_u32_at(b, 0) {
        Err(PngError::TruncatedBuffer)
    } else {
        let end = 8 + be_u32_at(b, 0);
        if be_u32_at(b, end) != crc32_of(b.subrange(4, end)) {
            Err(PngError::ChecksumMismatch)
        } else {
            Ok(
                ChunkView {
                    length: be_u32_at(b, 0),
                    chunk_type: b.subrange(4, 8),
                    data: b.subrange(8, end),
                    crc: be_u32_at(b, end),
                },
            )
        }
    }
}

/// The views of a sequence of chunks.
pub open spec fn chunk_views(cs: Seq<Chunk>) -> Seq<ChunkView> {
    cs.map_values(|c: Chunk| c@)
}

/// The view of a parse result.
pub open spec fn chunk_result_view(r: Result<Chunk, PngError>) -> Result<ChunkView, PngError> {
    match r {
        Ok(c) => Ok(c@),
        Err(e) => Err(e),
    }
}

/// A chunk of a PNG stream. Its length always counts its data and its
/// checksum always matches its type and data.
pub struct Chunk {
    length: u32,
    chunk_type: ChunkType,
    chunk_data: Vec<u8>,
    crc: u32,
}

impl View for Chunk {
    type V = ChunkView;

    closed spec fn view(&self) -> ChunkView {
        ChunkView {
            length: self.length,
            chunk_type: self.chunk_type@,
            data: self.chunk_data@,
            crc: self.crc,
        }
    }
}

/// Copies `b[from..to]`.
fn copy_range(b: &[u8], from: usize, to: usize) -> (r: Vec<u8>)
    requires
        from <= to <= b@.len(),
    ensures
        r@ == b@.subrange(from as int, to as int),
{
    let mut r: Vec<u8> = Vec::new();
    let mut i: usize = from;
    while i < to
        invariant
            from <= i <= to <= b@.len(),
            r@ == b@.subrange(from as int, i as int),
        decreases to - i,
    {
        r.push(b[i]);
        i = i + 1;
        assert(r@ =~= b@.subrange(from as int, i as int));
    }
    r
}

impl Chunk {
    #[verifier::type_invariant]
    spec fn inv(&self) -> bool {
        self@.wf()
    }

    /// A chunk of the given type holding `data`; its length and checksum are computed.
    pub fn new(chunk_type: ChunkType, data: Vec<u8>) -> (r: Chunk)
        requires
            data@.len() <= u32::MAX,
        ensures
            r@ == new_chunk_view(chunk_type@, data@),
    {
        let length = data.len() as u32;
        let code = chunk_type.bytes();
        let mut covered: Vec<u8> = Vec::new();
        extend_bytes(&mut covered, &code);
        extend_bytes(&mut covered, data.as_slice());
        let crc = crc32(covered.as_slice());
        Chunk { length, chunk_type, chunk_data: data, crc }
    }

    /// Parses the chunk that starts at offset `pos` of `b`.
    pub(crate) fn parse_at(b: &[u8], pos: usize) -> (r: Result<Chunk, PngError>)
        requires
            pos <= b@.len(),
        ensures
            chunk_result_view(r) == parse_chunk(b@.subrange(pos as int, b@.len() as int)),
    {
        reveal(parse_chunk);
        let ghost s = b@.subrange(pos as int, b@.len() as int);
        let rem = b.len() - pos;
        if rem < 12 {
            return Err(PngError::TruncatedBuffer);
        }
        let code: [u8; 4] = [b[pos + 4], b[pos + 5], b[pos + 6], b[pos + 7]];
        assert(code@ =~= s.subrange(4, 8));
        let chunk_type = match ChunkType::try_from(code) {
            Ok(t) => t,
            Err(_) => {
                return Err(PngError::InvalidTypeCode);
            },
        };
        let length = read_u32_be(b, pos);
        assert(length == be_u32_at(s, 0));
        if length as usize > rem - 12 {
            return Err(PngError::TruncatedBuffer);
        }
        let end = pos + 8 + length as usize;
        let covered = copy_range(b, pos + 4, end);
        let chunk_data = copy_range(b, pos + 8, end);
        let crc = read_u32_be(b, end);
        assert(crc == be_u32_at(s, 8 + length));
        assert(covered@ =~= s.subrange(4, 8 + length));
        assert(chunk_data@ =~= s.subrange(8, 8 + length));
        let computed = crc32(covered.as_slice());
        if crc != computed {
            return Err(PngError::ChecksumMismatch);
        }
        assert(covered@ =~= chunk_type@ + chunk_data@);
        Ok(Chunk { length, chunk_type, chunk_data, crc })
    }

    /// Parses a chunk from the start of `b`: length, type, data and checksum.
    /// Fails where the bytes run out, the type is not four letters, or the
    /// checksum does not match.
    pub fn try_from(b: &[u8]) -> (r: Result<Chunk, PngError>)
        ensures
            chunk_result_view(r) == parse_chunk(b@),
            b@.len() < 12 ==> r == Err::<Chunk, PngError>(PngError::TruncatedBuffer),
    {
        assert(b@.subrange(0, b@.len() as int) =~= b@);
        reveal(parse_chunk);
        Chunk::parse_at(b, 0)
    }

    /// The number of data bytes.
    pub fn length(&self) -> (r: u32)
        ensures
            r == self@.length,
            r == self@.data.len(),
    {
        proof {
            use_type_invariant(self);
        }
        self.length
    }

    /// The type code.
    pub fn chunk_type(&self) -> (r: &ChunkType)
        ensures
            r@ == self@.chunk_type,
    {
        &self.chunk_type
    }

    /// The data.
    pub fn data(&self) -> (r: &[u8])
        ensures
            r@ == self@.data,
    {
        self.chunk_data.as_slice()
    }

    /// The stored checksum, which is the CRC-32 of type and data.
    pub fn crc(&self) -> (r: u32)
        ensures
            r == self@.crc,
            r == crc32_of(self@.chunk_type + self@.data),
    {
        proof {
            use_type_invariant(self);
        }
        self.crc
    }

    /// The data read as UTF-8 text.
    pub fn data_as_string(&self) -> (r: Result<String, PngError>)
        ensures
            if valid_utf8(self@.data) {
                r matches Ok(s) && s@ == decode_utf8(self@.data)
            } else {
                r == Err::<String, PngError>(PngError::InvalidUtf8)
            },
            all_ascii(self@.data) ==> (r matches Ok(s) && s@ == ascii_chars(self@.data)),
    {
        match string_from_utf8(self.chunk_data.clone()) {
            Some(s) => Ok(s),
            None => Err(PngError::InvalidUtf8),
        }
    }

    /// The wire form of the chunk.
    pub fn as_bytes(&self) -> (r: Vec<u8>)
        ensures
            r@ == self@.bytes(),
            self@.wf(),
    {
        proof {
            use_type_invariant(self);
        }
        let mut out: Vec<u8> = Vec::new();
        push_u32_be(&mut out, self.length);
        let code = self.chunk_type.bytes();
        extend_bytes(&mut out, &code);
        extend_bytes(&mut out, self.chunk_data.as_slice());
        push_u32_be(&mut out, self.crc);
        assert(out@ =~= self@.bytes());
        out
    }
}

/// Parsing the wire form of a well-formed chunk gives back that chunk:
/// the same type, data, length and checksum.
pub proof fn lemma_chunk_round_trip(c: ChunkView)
    requires
        c.wf(),
    ensures
        parse_chunk(c.bytes()) == Ok::<ChunkView, PngError>(c),
{
    lemma_chunk_round_trip_before(c, Seq::<u8>::empty());
    assert(c.bytes() + Seq::<u8>::empty() =~= c.bytes());
}

/// Bytes after a well-formed chunk's wire form do not change what is parsed.
pub proof fn lemma_chunk_round_trip_before(c: ChunkView, rest: Seq<u8>)
    requires
        c.wf(),
    ensures
        parse_chunk(c.bytes() + rest) == Ok::<ChunkView, PngError>(c),
{
    reveal(parse_chunk);
    let b = c.bytes() + rest;
    let end = 8 + c.length;
    lemma_u32_be_round_trip(c.length);
    lemma_u32_be_round_trip(c.crc);
    assert(be_u32_at(b, 0) == c.length);
    assert(b.subrange(4, 8) =~= c.chunk_type);
    assert(b.subrange(8, end) =~= c.data);
    assert(b.subrange(4, end) =~= c.chunk_type + c.data);
    assert(be_u32_at(b, end) == c.crc);
}

/// `s` with bit `bit` of byte `k` flipped.
pub open spec fn flip_bit(s: Seq<u8>, k: int, bit: u8) -> Seq<u8> {
    s.update(k, s[k] ^ (1u8 << bit))
}

/// Flipping one bit of the type code or of the data in a chunk's wire form
/// leaves its length and stored checksum in place: where the type code is
/// still four letters and the CRC-32 of the altered type and data differs
/// from the stored one, parsing reports a checksum mismatch.
pub proof fn lemma_flipped_bit_is_checksum_mismatch(c: ChunkView, k: int, bit: u8)
    requires
        c.wf(),
        4 <= k < 8 + c.length,
        bit < 8,
        is_type_code(flip_bit(c.bytes(), k, bit).subrange(4, 8)),
        crc32_of(flip_bit(c.bytes(), k, bit).subrange(4, 8 + c.length)) != c.crc,
    ensures
        parse_chunk(flip_bit(c.bytes(), k, bit)) == Err::<ChunkView, PngError>(
            PngError::ChecksumMismatch,
        ),
{
    reveal(parse_chunk);
    let b = c.bytes();
    let f = flip_bit(b, k, bit);
    let end = 8 + c.length;
    lemma_u32_be_round_trip(c.length);
    lemma_u32_be_round_trip(c.crc);
    assert(f.len() == b.len());
    assert(f[0] == b[0] && f[1] == b[1] && f[2] == b[2] && f[3] == b[3]);
    assert(be_u32_at(f, 0) == c.length);
    assert(f[end] == b[end] && f[end + 1] == b[end + 1]);
    assert(f[end + 2] == b[end + 2] && f[end + 3] == b[end + 3]);
    assert(be_u32_at(f, end) == c.crc);
}

/// A chunk parsed from `b` lays out exactly the bytes that it was read from.
pub proof fn lemma_parse_chunk_reproduces(b: Seq<u8>)
    requires
        parse_chunk(b) is Ok,
    ensures
        ({
            let c = parse_chunk(b)->Ok_0;
            12 + c.length <= b.len() && c.bytes() == b.subrange(0, 12 + c.length)
        }),
{
    reveal(parse_chunk);
    let c = parse_chunk(b)->Ok_0;
    let end = 8 + c.length;
    lemma_u32_from_be_round_trip(b[0], b[1], b[2], b[3]);
    lemma_u32_from_be_round_trip(b[end], b[end + 1], b[end + 2], b[end + 3]);
    assert(u32_to_be(c.length) =~= b.subrange(0, 4));
    assert(u32_to_be(c.crc) =~= b.subrange(end as int, end + 4));
    assert(c.bytes() =~= b.subrange(0, 12 + c.length));
}

} // verus!
