use vstd::prelude::*;
use vstd::slice::slice_subrange;
use vstd::string::StringSliceAdditionalSpecFns;

use crate::chunk::{
    lemma_parse_serialized, lemma_serialize_parsed_chunk, parse_chunk, Chunk, ChunkError,
    ChunkView,
};

verus! {

/// The eight bytes that open every PNG file.
pub open spec fn signature() -> Seq<u8> {
    seq![137u8, 80u8, 78u8, 71u8, 13u8, 10u8, 26u8, 10u8]
}

/// What reading `b` as a run of whole chunks, one after the other, gives.
pub open spec fn parse_chunks(b: Seq<u8>) -> Result<Seq<ChunkView>, ChunkError>
    decreases b.len(),
{
    if b.len() == 0 {
        Ok(Seq::empty())
    } else {
        match parse_chunk(b) {
            Err(e) => Err(e),
            Ok(c) => {
                // a parsed chunk never reaches past `b`; the test keeps the
                // recursion visibly finite
                if 12 + c.length <= b.len() {
                    match parse_chunks(b.subrange(12 + c.length, b.len() as int)) {
                        Ok(rest) => Ok(seq![c] + rest),
                        Err(e) => Err(e),
                    }
                } else {
                    Err(ChunkError::IncompleteSlice)
                }
            },
        }
    }
}

/// What parsing `b` as a PNG file gives: the signature, then whole chunks.
pub open spec fn parse_png(b: Seq<u8>) -> Result<Seq<ChunkView>, PngError> {
    if b.len() < 8 || b.subrange(0, 8) != signature() {
        Err(PngError::SignatureMismatch)
    } else {
        match parse_chunks(b.subrange(8, b.len() as int)) {
            Ok(s) => Ok(s),
            Err(e) => Err(PngError::InvalidChunk(e)),
        }
    }
}

/// The wire forms of the chunks, one after the other.
pub open spec fn serialize_chunks(s: Seq<ChunkView>) -> Seq<u8>
    decreases s.len(),
{
    if s.len() == 0 {
        Seq::empty()
    } else {
        serialize_chunks(s.drop_last()) + s.last().serialized()
    }
}

/// `acc` put in front of what a parse of the rest gives.
pub open spec fn after(acc: Seq<ChunkView>, r: Result<Seq<ChunkView>, ChunkError>) -> Result<
    Seq<ChunkView>,
    ChunkError,
> {
    match r {
        Ok(s) => Ok(acc + s),
        Err(e) => Err(e),
    }
}

/// `i` is the first place in `s` that holds a chunk of type `key`.
pub open spec fn first_with_type(s: Seq<ChunkView>, key: Seq<u8>, i: int) -> bool {
    &&& 0 <= i < s.len()
    &&& s[i].chunk_type == key
    &&& forall|j: int| 0 <= j < i ==> s[j].chunk_type != key
}

/// Some chunk of `s` has type `key`.
pub open spec fn has_type(s: Seq<ChunkView>, key: Seq<u8>) -> bool {
    exists|i: int| 0 <= i < s.len() && s[i].chunk_type == key
}

pub open spec fn views(chunks: Seq<Chunk>) -> Seq<ChunkView> {
    chunks.map_values(|c: Chunk| c@)
}

/// A PNG file: the signature, implied, and its chunks in order.
#[derive(Debug, Clone)]
pub struct Png {
    chunks: Vec<Chunk>,
}

impl View for Png {
    type V = Seq<ChunkView>;

    closed spec fn view(&self) -> Seq<ChunkView> {
        views(self.chunks@)
    }
}

/// Why bytes could not be read as a PNG file, or a chunk not removed.
#[derive(Debug, Clone, Copy, PartialEq, Eq, Structural)]
pub enum PngError {
    /// The first eight bytes are not the PNG signature.
    SignatureMismatch,
    /// No chunk has the type asked for.
    ChunkNotPresent,
    /// A chunk after the signature could not be read.
    InvalidChunk(ChunkError),
}

impl PngError {
    /// The sentence that says what went wrong.
    pub open spec fn message(self) -> Seq<char> {
        match self {
            PngError::SignatureMismatch => "file does not start with the PNG signature"@,
            PngError::ChunkNotPresent => "chunk type does not exist in file"@,
            PngError::InvalidChunk(e) => e.message(),
        }
    }

    /// The sentence that says what went wrong.
    pub fn to_string(&self) -> (r: String)
        ensures
            r@ == self.message(),
    {
        match self {
            PngError::SignatureMismatch => "file does not start with the PNG signature".to_owned(),
            PngError::ChunkNotPresent => "chunk type does not exist in file".to_owned(),
            PngError::InvalidChunk(e) => e.to_string(),
        }
    }
}

/// The index of the first chunk of type `key`, if there is one.
fn position_of_type(chunks: &Vec<Chunk>, key: &[u8]) -> (r: Option<usize>)
    ensures
        r matches Some(i) ==> first_with_type(views(chunks@), key@, i as int),
        r is None <==> !has_type(views(chunks@), key@),
{
    let mut i: usize = 0;
    while i < chunks.len()
        invariant
            i <= chunks@.len(),
            forall|j: int| 0 <= j < i ==> (#[trigger] views(chunks@)[j]).chunk_type != key@,
        decreases chunks@.len() - i,
    {
        if chunks[i].chunk_type().has_bytes(key) {
            assert(views(chunks@)[i as int].chunk_type == key@);
            return Some(i);
        }
        i = i + 1;
    }
    None
}

impl Png {
    pub const STANDARD_HEADER: [u8; 8] = [137, 80, 78, 71, 13, 10, 26, 10];

    /// Every chunk is well formed, as those that a parse gives are.
    pub open spec fn wf(&self) -> bool {
        forall|i: int| 0 <= i < self@.len() ==> (#[trigger] self@[i]).wf()
    }

    /// Reads a PNG file: the signature, then chunks up to the last byte.
    pub fn try_from(bytes: &[u8]) -> (r: Result<Png, PngError>)
        ensures
            r matches Ok(p) ==> parse_png(bytes@) == Ok::<Seq<ChunkView>, PngError>(p@) && p.wf(),
            r matches Err(e) ==> parse_png(bytes@) == Err::<Seq<ChunkView>, PngError>(e),
            bytes@.len() < 8 || bytes@.subrange(0, 8) != signature() ==> r == Err::<Png, PngError>(
                PngError::SignatureMismatch,
            ),
    {
        let n = bytes.len();
        if n < 8 {
            return Err(PngError::SignatureMismatch);
        }
        let header = Self::STANDARD_HEADER;
        assert(header@ =~= signature());
        let mut k: usize = 0;
        while k < 8
            invariant
                k <= 8,
                n == bytes@.len(),
                n >= 8,
                header@ == signature(),
                forall|j: int| 0 <= j < k ==> bytes@[j] == #[trigger] signature()[j],
            decreases 8 - k,
        {
            if bytes[k] != header[k] {
                assert(bytes@.subrange(0, 8)[k as int] != signature()[k as int]);
                return Err(PngError::SignatureMismatch);
            }
            k = k + 1;
        }
        assert(bytes@.subrange(0, 8) =~= signature());
        let mut chunks: Vec<Chunk> = Vec::new();
        let mut off: usize = 8;
        while off < n
            invariant
                8 <= off <= n,
                n == bytes@.len(),
                bytes@.subrange(0, 8) == signature(),
                parse_chunks(bytes@.subrange(8, n as int)) == after(
                    views(chunks@),
                    parse_chunks(bytes@.subrange(off as int, n as int)),
                ),
                forall|i: int| 0 <= i < chunks@.len() ==> (#[trigger] views(chunks@)[i]).wf(),
            decreases n - off,
        {
            let rest = slice_subrange(bytes, off, n);
            match Chunk::try_from(rest) {
                Err(e) => {
                    assert(parse_chunks(rest@) == Err::<Seq<ChunkView>, ChunkError>(e));
                    return Err(PngError::InvalidChunk(e));
                },
                Ok(c) => {
                    proof {
                        lemma_serialize_parsed_chunk(rest@);
                    }
                    let step = 12 + c.length() as usize;
                    assert(rest@.subrange(step as int, rest@.len() as int) =~= bytes@.subrange(
                        off + step,
                        n as int,
                    ));
                    let ghost before = views(chunks@);
                    chunks.push(c);
                    assert(views(chunks@) =~= before.push(c@));
                    assert forall|s: Seq<ChunkView>| #[trigger] (before + (seq![c@] + s)) =~= views(
                        chunks@,
                    ) + s by {}
                    off = off + step;
                },
            }
        }
        assert(bytes@.subrange(off as int, n as int) =~= Seq::<u8>::empty());
        assert(views(chunks@) + Seq::<ChunkView>::empty() =~= views(chunks@));
        Ok(Png { chunks })
    }

    /// The wire form of the file: the signature, then each chunk's.
    pub fn as_bytes(&self) -> (r: Vec<u8>)
        ensures
            r@ == signature() + serialize_chunks(self@),
    {
        let mut out: Vec<u8> = Vec::new();
        let header = Self::STANDARD_HEADER;
        let mut k: usize = 0;
        while k < 8
            invariant
                k <= 8,
                header@ == signature(),
                out@ == signature().subrange(0, k as int),
            decreases 8 - k,
        {
            out.push(header[k]);
            assert(signature().subrange(0, k + 1) =~= signature().subrange(0, k as int).push(
                header@[k as int],
            ));
            k = k + 1;
        }
        assert(signature().subrange(0, 8) =~= signature());
        let mut i: usize = 0;
        while i < self.chunks.len()
            invariant
                i <= self@.len(),
                self@.len() == self.chunks@.len(),
                out@ == signature() + serialize_chunks(self@.take(i as int)),
            decreases self.chunks@.len() - i,
        {
            let mut piece = self.chunks[i].as_bytes();
            out.append(&mut piece);
            assert(self@.take(i + 1).drop_last() =~= self@.take(i as int));
            i = i + 1;
        }
        assert(self@.take(i as int) =~= self@);
        out
    }

    /// A file holding the given chunks, in the given order.
    pub fn from_chunks(chunks: Vec<Chunk>) -> (r: Png)
        ensures
            r@ == views(chunks@),
    {
        Png { chunks }
    }

    /// Adds a chunk at the end.
    pub fn append_chunk(&mut self, chunk: Chunk)
        ensures
            final(self)@ == old(self)@.push(chunk@),
    {
        self.chunks.push(chunk);
        assert(views(self.chunks@) =~= views(old(self).chunks@).push(chunk@));
    }

    /// Removes and returns the first chunk whose type is the bytes of
    /// `chunk_type`.
    pub fn remove_chunk(&mut self, chunk_type: &str) -> (r: Result<Chunk, PngError>)
        ensures
            r is Ok <==> has_type(old(self)@, chunk_type.spec_bytes()),
            r matches Ok(c) ==> exists|i: int|
                first_with_type(old(self)@, chunk_type.spec_bytes(), i) && c@ == old(self)@[i]
                    && final(self)@ == old(self)@.remove(i),
            r matches Err(e) ==> e == PngError::ChunkNotPresent && final(self)@ == old(self)@,
    {
        let index = position_of_type(&self.chunks, chunk_type.as_bytes());
        match index {
            None => Err(PngError::ChunkNotPresent),
            Some(i) => {
                assert(first_with_type(old(self)@, chunk_type.spec_bytes(), i as int));
                let c = self.chunks.remove(i);
                assert(views(self.chunks@) =~= views(old(self).chunks@).remove(i as int));
                Ok(c)
            },
        }
    }

    /// The signature that opens the file.
    pub fn header(&self) -> (r: [u8; 8])
        ensures
            r@ == signature(),
    {
        let r = Self::STANDARD_HEADER;
        assert(r@ =~= signature());
        r
    }

    /// The chunks, in order.
    pub fn chunks(&self) -> (r: &[Chunk])
        ensures
            views(r@) == self@,
    {
        self.chunks.as_slice()
    }

    /// The first chunk whose type is the bytes of `chunk_type`.
    pub fn chunk_by_type(&self, chunk_type: &str) -> (r: Option<&Chunk>)
        ensures
            r is Some <==> has_type(self@, chunk_type.spec_bytes()),
            r matches Some(c) ==> exists|i: int|
                first_with_type(self@, chunk_type.spec_bytes(), i) && c@ == self@[i],
    {
        match position_of_type(&self.chunks, chunk_type.as_bytes()) {
            None => None,
            Some(i) => {
                assert(first_with_type(self@, chunk_type.spec_bytes(), i as int));
                Some(&self.chunks[i])
            },
        }
    }
}

/// The wire form of a run of chunks starts with that of its first chunk.
pub proof fn lemma_serialize_chunks_prepend(c: ChunkView, s: Seq<ChunkView>)
    ensures
        serialize_chunks(seq![c] + s) == c.serialized() + serialize_chunks(s),
    decreases s.len(),
{
    if s.len() == 0 {
        let whole = seq![c] + s;
        assert(whole.drop_last() =~= Seq::<ChunkView>::empty());
        assert(serialize_chunks(whole.drop_last()) == Seq::<u8>::empty());
        assert(serialize_chunks(s) == Seq::<u8>::empty());
        assert(whole.last() == c);
        assert(serialize_chunks(whole) =~= c.serialized() + serialize_chunks(s));
    } else {
        let whole = seq![c] + s;
        lemma_serialize_chunks_prepend(c, s.drop_last());
        assert(whole.drop_last() =~= seq![c] + s.drop_last());
        assert(whole.last() == s.last());
        assert(serialize_chunks(whole) == serialize_chunks(whole.drop_last()) + whole.last().serialized());
        assert(serialize_chunks(s) == serialize_chunks(s.drop_last()) + s.last().serialized());
        assert(serialize_chunks(whole) =~= c.serialized() + serialize_chunks(s));
    }
}

/// Reading a run of chunks reads the first, then the run after it.
proof fn lemma_parse_chunks_step(b: Seq<u8>, c: ChunkView)
    requires
        b.len() > 0,
        parse_chunk(b) == Ok::<ChunkView, ChunkError>(c),
        12 + c.length <= b.len(),
    ensures
        parse_chunks(b) == after(seq![c], parse_chunks(b.subrange(12 + c.length, b.len() as int))),
{
}

/// A run of well-formed chunks is read back from its wire form.
pub proof fn lemma_parse_serialized_chunks(s: Seq<ChunkView>)
    requires
        forall|i: int| 0 <= i < s.len() ==> (#[trigger] s[i]).wf(),
    ensures
        parse_chunks(serialize_chunks(s)) == Ok::<Seq<ChunkView>, ChunkError>(s),
    decreases s.len(),
{
    if s.len() > 0 {
        let c = s[0];
        let tail = s.drop_first();
        let r = serialize_chunks(tail);
        let b = serialize_chunks(s);
        assert(b == c.serialized() + r) by {
            assert(s =~= seq![c] + tail);
            lemma_serialize_chunks_prepend(c, tail);
        }
        assert(parse_chunk(b) == Ok::<ChunkView, ChunkError>(c)) by {
            assert(c.wf());
            lemma_parse_serialized(c, r);
        }
        assert(parse_chunks(r) == Ok::<Seq<ChunkView>, ChunkError>(tail)) by {
            assert forall|i: int| 0 <= i < tail.len() implies (#[trigger] tail[i]).wf() by {
                assert(tail[i] == s[i + 1]);
            }
            lemma_parse_serialized_chunks(tail);
        }
        assert(b.subrange(12 + c.length, b.len() as int) =~= r);
        lemma_parse_chunks_step(b, c);
        assert(seq![c] + tail =~= s);
    } else {
        assert(serialize_chunks(s) =~= Seq::<u8>::empty());
        assert(s =~= Seq::<ChunkView>::empty());
    }
}

/// What a run of whole chunks parses to has exactly that run as wire form.
pub proof fn lemma_serialize_parsed_chunks(b: Seq<u8>)
    requires
        parse_chunks(b) is Ok,
    ensures
        serialize_chunks(parse_chunks(b)->Ok_0) == b,
    decreases b.len(),
{
    if b.len() == 0 {
        assert(b =~= Seq::<u8>::empty());
    } else {
        let c = parse_chunk(b)->Ok_0;
        lemma_serialize_parsed_chunk(b);
        let rest = b.subrange(12 + c.length, b.len() as int);
        lemma_serialize_parsed_chunks(rest);
        lemma_serialize_chunks_prepend(c, parse_chunks(rest)->Ok_0);
        assert(b =~= b.subrange(0, 12 + c.length as int) + rest);
    }
}

/// A file whose chunks are all well formed is read back, chunk for chunk,
/// from its wire form.
pub proof fn lemma_png_round_trip(png: Png)
    requires
        png.wf(),
    ensures
        parse_png(signature() + serialize_chunks(png@)) == Ok::<Seq<ChunkView>, PngError>(png@),
{
    let b = signature() + serialize_chunks(png@);
    assert(b.subrange(0, 8) =~= signature());
    assert(b.subrange(8, b.len() as int) =~= serialize_chunks(png@));
    lemma_parse_serialized_chunks(png@);
}

/// Serializing what a parse of a whole file gives yields the same bytes.
pub proof fn lemma_png_serialize_parsed(b: Seq<u8>)
    requires
        parse_png(b) is Ok,
    ensures
        signature() + serialize_chunks(parse_png(b)->Ok_0) == b,
{
    lemma_serialize_parsed_chunks(b.subrange(8, b.len() as int));
    assert(b =~= b.subrange(0, 8) + b.subrange(8, b.len() as int));
}

} // verus!
