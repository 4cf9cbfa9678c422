//! The container: the PNG signature followed by an ordered sequence of chunks.
use vstd::prelude::*;
use vstd::string::StringSliceAdditionalSpecFns;
use crate::bytes::extend_bytes;
use crate::chunk::{
    chunk_views, lemma_chunk_round_trip_before, lemma_parse_chunk_reproduces, parse_chunk, Chunk,
    ChunkView,
};
use crate::error::PngError;

verus! {

/// The eight bytes with which every PNG stream begins.
pub open spec fn png_signature() -> Seq<u8> {
    seq![137u8, 80u8, 78u8, 71u8, 13u8, 10u8, 26u8, 10u8]
}

/// The wire forms of `cs`, back to back, in order.
pub open spec fn chunks_bytes(cs: Seq<ChunkView>) -> Seq<u8>
    decreases cs.len(),
{
    if cs.len() == 0 {
        seq![]
    } else {
        cs[0].bytes() + chunks_bytes(cs.drop_first())
    }
}

/// What parsing back-to-back chunks that fill all of `b` gives.
pub open spec fn parse_chunks(b: Seq<u8>) -> Result<Seq<ChunkView>, PngError>
    decreases b.len(),
{
    if b.len() == 0 {
        Ok(seq![])
    } else {
        match parse_chunk(b) {
            Err(e) => Err(e),
            // A parsed chunk always fits in `b`; the test keeps the
            // recursion's measure visible.
            Ok(c) => if 12 + c.length <= b.len() {
                match parse_chunks(b.subrange(12 + c.length, b.len() as int)) {
                    Ok(rest) => Ok(seq![c] + rest),
                    Err(e) => Err(e),
                }
            } else {
                Err(PngError::TruncatedBuffer)
            },
        }
    }
}

/// What parsing a whole PNG stream gives: the signature, then chunks up to
/// the last byte.
pub open spec fn parse_png(b: Seq<u8>) -> Result<Seq<ChunkView>, PngError> {
    if b.len() < 8 || b.subrange(0, 8) != png_signature() {
        Err(PngError::InvalidSignature)
    } else {
        parse_chunks(b.subrange(8, b.len() as int))
    }
}

/// `r` with `prefix` put before the chunks of a success.
pub open spec fn prepend(prefix: Seq<ChunkView>, r: Result<Seq<ChunkView>, PngError>) -> Result<
    Seq<ChunkView>,
    PngError,
> {
    match r {
        Ok(cs) => Ok(prefix + cs),
        Err(e) => Err(e),
    }
}

/// The view of a parse result.
pub open spec fn png_result_view(r: Result<Png, PngError>) -> Result<Seq<ChunkView>, PngError> {
    match r {
        Ok(p) => Ok(p@),
        Err(e) => Err(e),
    }
}

/// Whether `i` is the first position of `cs` whose chunk has type `t`.
pub open spec fn is_first_of_type(cs: Seq<ChunkView>, i: int, t: Seq<u8>) -> bool {
    &&& 0 <= i < cs.len()
    &&& cs[i].chunk_type == t
    &&& forall|j: int| 0 <= j < i ==> cs[j].chunk_type != t
}

/// The first position of `cs` whose chunk has type `t`, if there is one.
pub open spec fn first_of_type(cs: Seq<ChunkView>, t: Seq<u8>) -> Option<int> {
    if exists|i: int| is_first_of_type(cs, i, t) {
        Some(choose|i: int| is_first_of_type(cs, i, t))
    } else {
        None
    }
}

/// There is at most one first position of a type.
proof fn lemma_first_of_type_is(cs: Seq<ChunkView>, i: int, t: Seq<u8>)
    requires
        is_first_of_type(cs, i, t),
    ensures
        first_of_type(cs, t) == Some(i),
{
    let k = choose|k: int| is_first_of_type(cs, k, t);
    assert(is_first_of_type(cs, k, t));
    if k < i {
        assert(cs[k].chunk_type != t);
    } else if i < k {
        assert(cs[i].chunk_type != t);
    }
}

/// Whether the type code of `c` is the bytes `t`.
fn has_type(c: &Chunk, t: &[u8]) -> (r: bool)
    ensures
        r == (c@.chunk_type == t@),
{
    let code = c.chunk_type().bytes();
    if t.len() != 4 {
        return false;
    }
    let r = code[0] == t[0] && code[1] == t[1] && code[2] == t[2] && code[3] == t[3];
    if r {
        assert(code@ =~= t@);
    }
    r
}

/// A PNG stream: the fixed signature and its chunks in order.
pub struct Png {
    chunks: Vec<Chunk>,
}

impl View for Png {
    type V = Seq<ChunkView>;

    closed spec fn view(&self) -> Seq<ChunkView> {
        chunk_views(self.chunks@)
    }
}

impl Png {
    /// The PNG signature.
    pub fn header(&self) -> (r: [u8; 8])
        ensures
            r@ == png_signature(),
    {
        let r: [u8; 8] = [137, 80, 78, 71, 13, 10, 26, 10];
        assert(r@ =~= png_signature());
        r
    }

    /// A stream holding `chunks` in the given order.
    pub fn from_chunks(chunks: Vec<Chunk>) -> (r: Png)
        ensures
            r@ == chunk_views(chunks@),
    {
        Png { chunks }
    }

    /// Parses a whole PNG stream: the signature, then chunks that fill the
    /// rest of the buffer exactly. Any failure fails the whole parse.
    pub fn try_from(bytes: &[u8]) -> (r: Result<Png, PngError>)
        ensures
            png_result_view(r) == parse_png(bytes@),
            bytes@.len() < 8 || bytes@.subrange(0, 8) != png_signature() ==> r == Err::<
                Png,
                PngError,
            >(PngError::InvalidSignature),
    {
        if bytes.len() < 8 || !(bytes[0] == 137 && bytes[1] == 80 && bytes[2] == 78 && bytes[3]
            == 71 && bytes[4] == 13 && bytes[5] == 10 && bytes[6] == 26 && bytes[7] == 10) {
            proof {
                if bytes@.len() >= 8 {
                    assert(bytes@.subrange(0, 8)[0] == bytes@[0]);
                    assert(bytes@.subrange(0, 8)[1] == bytes@[1]);
                    assert(bytes@.subrange(0, 8)[2] == bytes@[2]);
                    assert(bytes@.subrange(0, 8)[3] == bytes@[3]);
                    assert(bytes@.subrange(0, 8)[4] == bytes@[4]);
                    assert(bytes@.subrange(0, 8)[5] == bytes@[5]);
                    assert(bytes@.subrange(0, 8)[6] == bytes@[6]);
                    assert(bytes@.subrange(0, 8)[7] == bytes@[7]);
                    assert(bytes@.subrange(0, 8) != png_signature());
                }
            }
            return Err(PngError::InvalidSignature);
        }
        assert(bytes@.subrange(0, 8) =~= png_signature());
        let ghost whole = bytes@.subrange(8, bytes@.len() as int);
        let mut chunks: Vec<Chunk> = Vec::new();
        let mut pos: usize = 8;
        while pos < bytes.len()
            invariant
                8 <= pos <= bytes@.len(),
                bytes@.subrange(0, 8) == png_signature(),
                whole == bytes@.subrange(8, bytes@.len() as int),
                parse_chunks(whole) == prepend(
                    chunk_views(chunks@),
                    parse_chunks(bytes@.subrange(pos as int, bytes@.len() as int)),
                ),
            decreases bytes@.len() - pos,
        {
            let ghost rest = bytes@.subrange(pos as int, bytes@.len() as int);
            let ghost prev = chunk_views(chunks@);
            let c = match Chunk::parse_at(bytes, pos) {
                Ok(c) => c,
                Err(e) => {
                    return Err(e);
                },
            };
            proof {
                lemma_parse_chunk_reproduces(rest);
            }
            let n = c.length() as usize;
            let ghost next = bytes@.subrange(pos + 12 + n, bytes@.len() as int);
            assert(rest.subrange(12 + c@.length, rest.len() as int) =~= next);
            chunks.push(c);
            assert(chunk_views(chunks@) =~= prev + seq![c@]);
            assert(prev + (seq![c@] + parse_chunks(next)->Ok_0) =~= chunk_views(chunks@)
                + parse_chunks(next)->Ok_0);
            pos = pos + 12 + n;
        }
        assert(bytes@.subrange(pos as int, bytes@.len() as int).len() == 0);
        assert(chunk_views(chunks@) + seq![] =~= chunk_views(chunks@));
        Ok(Png { chunks })
    }

    /// Adds `chunk` after the last chunk.
    pub fn append_chunk(&mut self, chunk: Chunk)
        ensures
            final(self)@ == old(self)@.push(chunk@),
    {
        self.chunks.push(chunk);
        assert(chunk_views(self.chunks@) =~= chunk_views(old(self).chunks@).push(chunk@));
    }

    /// The position of the first chunk whose type code is `t`, if any.
    fn find_type(&self, t: &[u8]) -> (r: Option<usize>)
        ensures
            match r {
                Some(k) => first_of_type(self@, t@) == Some(k as int),
                None => first_of_type(self@, t@) is None,
            },
    {
        let mut i: usize = 0;
        while i < self.chunks.len()
            invariant
                0 <= i <= self@.len(),
                self@.len() == self.chunks@.len(),
                forall|j: int| 0 <= j < i ==> self@[j].chunk_type != t@,
            decreases self.chunks@.len() - i,
        {
            if has_type(&self.chunks[i], t) {
                proof {
                    lemma_first_of_type_is(self@, i as int, t@);
                }
                return Some(i);
            }
            i = i + 1;
        }
        assert(!exists|k: int| is_first_of_type(self@, k, t@));
        None
    }

    /// Removes and returns the first chunk of the given type; the others
    /// keep their order. Fails where no chunk has that type.
    pub fn remove_first_chunk(&mut self, chunk_type: &str) -> (r: Result<Chunk, PngError>)
        ensures
            match first_of_type(old(self)@, chunk_type.spec_bytes()) {
                Some(i) => r is Ok && r->Ok_0@ == old(self)@[i] && final(self)@ == old(
                    self,
                )@.remove(i),
                None => r == Err::<Chunk, PngError>(PngError::ChunkNotFound) && final(self)@ == old(
                    self,
                )@,
            },
    {
        match self.find_type(chunk_type.as_bytes()) {
            Some(i) => {
                let ghost before = self.chunks@;
                assert(chunk_views(before)[i as int] == before[i as int]@);
                let c = self.chunks.remove(i);
                assert(chunk_views(self.chunks@) =~= chunk_views(before).remove(i as int));
                Ok(c)
            },
            None => Err(PngError::ChunkNotFound),
        }
    }

    /// The chunks, in order.
    pub fn chunks(&self) -> (r: &[Chunk])
        ensures
            chunk_views(r@) == self@,
    {
        self.chunks.as_slice()
    }

    /// The first chunk whose type code reads `chunk_type`, if any.
    pub fn chunk_by_type(&self, chunk_type: &str) -> (r: Option<&Chunk>)
        ensures
            match first_of_type(self@, chunk_type.spec_bytes()) {
                Some(i) => r is Some && r->Some_0@ == self@[i],
                None => r is None,
            },
    {
        match self.find_type(chunk_type.as_bytes()) {
            Some(i) => {
                let c = &self.chunks[i];
                assert(c@ == self@[i as int]);
                Some(c)
            },
            None => None,
        }
    }

    /// The wire form: the signature, then each chunk's wire form in order.
    pub fn as_bytes(&self) -> (r: Vec<u8>)
        ensures
            r@ == png_signature() + chunks_bytes(self@),
            forall|i: int| 0 <= i < self@.len() ==> (#[trigger] self@[i]).wf(),
    {
        let sig = self.header();
        let mut out: Vec<u8> = Vec::new();
        extend_bytes(&mut out, &sig);
        let mut i: usize = 0;
        while i < self.chunks.len()
            invariant
                0 <= i <= self@.len(),
                self@.len() == self.chunks@.len(),
                out@ == png_signature() + chunks_bytes(self@.take(i as int)),
                forall|j: int| 0 <= j < i ==> (#[trigger] self@[j]).wf(),
            decreases self.chunks@.len() - i,
        {
            let b = self.chunks[i].as_bytes();
            assert(self@[i as int] == self.chunks@[i as int]@);
            extend_bytes(&mut out, b.as_slice());
            proof {
                lemma_chunks_bytes_push(self@.take(i as int), self@[i as int]);
                assert(self@.take(i as int).push(self@[i as int]) =~= self@.take(i + 1));
            }
            i = i + 1;
        }
        assert(self@.take(i as int) =~= self@);
        out
    }
}

/// Adding a chunk at the end adds its wire form at the end.
pub proof fn lemma_chunks_bytes_push(cs: Seq<ChunkView>, c: ChunkView)
    ensures
        chunks_bytes(cs.push(c)) == chunks_bytes(cs) + c.bytes(),
    decreases cs.len(),
{
    if cs.len() == 0 {
        assert(cs.push(c).drop_first() =~= Seq::<ChunkView>::empty());
        assert(chunks_bytes(cs.push(c).drop_first()) == Seq::<u8>::empty());
        assert(chunks_bytes(cs.push(c)) =~= c.bytes());
    } else {
        lemma_chunks_bytes_push(cs.drop_first(), c);
        assert(cs.push(c).drop_first() =~= cs.drop_first().push(c));
        assert(chunks_bytes(cs.push(c)) =~= chunks_bytes(cs) + c.bytes());
    }
}

/// Chunks parsed from a buffer lay out, back to back, the very same bytes.
proof fn lemma_parse_chunks_reproduces(b: Seq<u8>)
    requires
        parse_chunks(b) is Ok,
    ensures
        chunks_bytes(parse_chunks(b)->Ok_0) == b,
    decreases b.len(),
{
    if b.len() > 0 {
        let c = parse_chunk(b)->Ok_0;
        let n = 12 + c.length;
        let rest = b.subrange(n as int, b.len() as int);
        lemma_parse_chunks_reproduces(rest);
        lemma_parse_chunk_reproduces(b);
        let cs = parse_chunks(b)->Ok_0;
        assert(cs == seq![c] + parse_chunks(rest)->Ok_0);
        assert(cs.drop_first() =~= parse_chunks(rest)->Ok_0);
        assert(b =~= b.subrange(0, n as int) + rest);
    } else {
        assert(chunks_bytes(parse_chunks(b)->Ok_0) =~= b);
    }
}

/// Serializing a stream parsed from `b` reproduces `b` exactly.
pub proof fn lemma_png_round_trip(b: Seq<u8>)
    requires
        parse_png(b) is Ok,
    ensures
        png_signature() + chunks_bytes(parse_png(b)->Ok_0) == b,
{
    lemma_parse_chunks_reproduces(b.subrange(8, b.len() as int));
    assert(png_signature() + b.subrange(8, b.len() as int) =~= b);
}

/// Back-to-back wire forms of well-formed chunks parse back to those chunks.
proof fn lemma_chunks_round_trip(cs: Seq<ChunkView>)
    requires
        forall|i: int| 0 <= i < cs.len() ==> (#[trigger] cs[i]).wf(),
    ensures
        parse_chunks(chunks_bytes(cs)) == Ok::<Seq<ChunkView>, PngError>(cs),
    decreases cs.len(),
{
    if cs.len() == 0 {
        assert(cs =~= seq![]);
    } else {
        let c = cs[0];
        let rest = cs.drop_first();
        assert(c.wf());
        assert forall|i: int| 0 <= i < rest.len() implies (#[trigger] rest[i]).wf() by {
            assert(rest[i] == cs[i + 1]);
        }
        lemma_chunks_round_trip(rest);
        let b = chunks_bytes(cs);
        assert(b == c.bytes() + chunks_bytes(rest));
        lemma_chunk_round_trip_before(c, chunks_bytes(rest));
        assert(b.subrange(12 + c.length, b.len() as int) =~= chunks_bytes(rest));
        assert(seq![c] + rest =~= cs);
    }
}

/// Parsing the wire form of a stream of well-formed chunks gives back
/// those chunks, in order.
pub proof fn lemma_png_parse_of_serialized(cs: Seq<ChunkView>)
    requires
        forall|i: int| 0 <= i < cs.len() ==> (#[trigger] cs[i]).wf(),
    ensures
        parse_png(png_signature() + chunks_bytes(cs)) == Ok::<Seq<ChunkView>, PngError>(cs),
{
    let b = png_signature() + chunks_bytes(cs);
    lemma_chunks_round_trip(cs);
    assert(b.subrange(0, 8) =~= png_signature());
    assert(b.subrange(8, b.len() as int) =~= chunks_bytes(cs));
}

/// Appending a chunk of a type that no chunk has yet and then removing the
/// first chunk of that type succeeds with that chunk and restores the
/// sequence; removing that type once more finds nothing.
pub proof fn lemma_append_then_remove(cs: Seq<ChunkView>, c: ChunkView)
    requires
        forall|j: int| 0 <= j < cs.len() ==> cs[j].chunk_type != c.chunk_type,
    ensures
        first_of_type(cs.push(c), c.chunk_type) == Some(cs.len() as int),
        cs.push(c)[cs.len() as int] == c,
        cs.push(c).remove(cs.len() as int) == cs,
        first_of_type(cs, c.chunk_type) is None,
{
    lemma_first_of_type_is(cs.push(c), cs.len() as int, c.chunk_type);
    assert(cs.push(c).remove(cs.len() as int) =~= cs);
}

} // verus!
