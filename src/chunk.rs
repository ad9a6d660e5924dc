use vstd::prelude::*;
use vstd::slice::{slice_subrange, slice_to_vec};
use vstd::utf8::{decode_utf8, valid_utf8};

use crate::checksum::{crc32, crc32_iso_hdlc};
use crate::chunk_type::{all_letters, ChunkType, ChunkTypeError};
use crate::endian::{
    be_bytes, be_value, lemma_be_bytes_of_value, lemma_be_value_of_bytes, push_be, u32_from_be,
};
use crate::text::utf8_to_string;

verus! {

/// What a chunk holds, as mathematical values.
pub struct ChunkView {
    pub length: u32,
    pub chunk_type: Seq<u8>,
    pub data: Seq<u8>,
    pub crc: u32,
}

/// The checksum that a chunk carries: over its type's bytes, then its data.
pub open spec fn chunk_crc(chunk_type: Seq<u8>, data: Seq<u8>) -> u32 {
    crc32_iso_hdlc(chunk_type + data)
}

/// The chunk that `Chunk::new` builds from a type and a payload.
pub open spec fn new_chunk_view(chunk_type: Seq<u8>, data: Seq<u8>) -> ChunkView {
    ChunkView {
        length: data.len() as u32,
        chunk_type,
        data,
        crc: chunk_crc(chunk_type, data),
    }
}

impl ChunkView {
    /// The length counts the data, the type is four letters and the
    /// checksum matches the type and data.
    pub open spec fn wf(self) -> bool {
        &&& self.length as int == self.data.len()
        &&& self.chunk_type.len() == 4
        &&& all_letters(self.chunk_type)
        &&& self.crc == chunk_crc(self.chunk_type, self.data)
    }

    /// The wire form: length, type, data and checksum, numbers big-endian.
    pub open spec fn serialized(self) -> Seq<u8> {
        be_bytes(self.length) + self.chunk_type + self.data + be_bytes(self.crc)
    }
}

/// What parsing the start of `b` as a chunk gives. Bytes after the chunk
/// are left alone.
#[verifier::opaque]
pub open spec fn parse_chunk(b: Seq<u8>) -> Result<ChunkView, ChunkError> {
    if b.len() < 8 {
        Err(ChunkError::IncompleteSlice)
    } else if !all_letters(b.subrange(4, 8)) {
        Err(ChunkError::InvalidType(ChunkTypeError::AsciiError))
    } else {
        let length = be_value(b.subrange(0, 4));
        if b.len() < 12 + length {
            Err(ChunkError::IncompleteSlice)
        } else {
            let chunk_type = b.subrange(4, 8);
            let data = b.subrange(8, 8 + length);
            let crc = be_value(b.subrange(8 + length, 12 + length));
            if crc != chunk_crc(chunk_type, data) {
                Err(ChunkError::IncorrectCrc)
            } else {
                Ok(ChunkView { length, chunk_type, data, crc })
            }
        }
    }
}

/// A chunk: a typed payload with its length and checksum.
#[derive(Debug, Clone)]
pub struct Chunk {
    length: u32,
    chunk_type: ChunkType,
    data: Vec<u8>,
    crc: u32,
}

impl View for Chunk {
    type V = ChunkView;

    closed spec fn view(&self) -> ChunkView {
        ChunkView {
            length: self.length,
            chunk_type: self.chunk_type@,
            data: self.data@,
            crc: self.crc,
        }
    }
}

/// Why bytes could not be read as a chunk, or its data as text.
#[derive(Debug, Clone, Copy, PartialEq, Eq, Structural)]
pub enum ChunkError {
    /// Fewer bytes than the chunk's header or declared length needs.
    IncompleteSlice,
    /// The stored checksum differs from the one over the type and data.
    IncorrectCrc,
    /// The type bytes are not a chunk type.
    InvalidType(ChunkTypeError),
    /// The data is not UTF-8 text.
    TextDecodeError,
}

impl ChunkError {
    /// The sentence that says what went wrong.
    pub open spec fn message(self) -> Seq<char> {
        match self {
            ChunkError::IncompleteSlice => "not enough chunk bytes"@,
            ChunkError::IncorrectCrc => "CRC value is incorrect for the provided data and chunk type"@,
            ChunkError::InvalidType(e) => e.message(),
            ChunkError::TextDecodeError => "chunk data is not valid UTF-8"@,
        }
    }

    /// The sentence that says what went wrong.
    pub fn to_string(&self) -> (r: String)
        ensures
            r@ == self.message(),
    {
        match self {
            ChunkError::IncompleteSlice => "not enough chunk bytes".to_owned(),
            ChunkError::IncorrectCrc => "CRC value is incorrect for the provided data and chunk type".to_owned(),
            ChunkError::InvalidType(e) => e.to_string(),
            ChunkError::TextDecodeError => "chunk data is not valid UTF-8".to_owned(),
        }
    }
}

impl Chunk {
    /// A chunk of the given type and data, with its length and checksum.
    pub fn new(chunk_type: ChunkType, data: Vec<u8>) -> (r: Chunk)
        requires
            data@.len() <= u32::MAX,
        ensures
            r@ == new_chunk_view(chunk_type@, data@),
            chunk_type.wf() ==> r@.wf(),
    {
        let mut covered: Vec<u8> = Vec::new();
        append_type_and_data(&mut covered, &chunk_type, &data);
        let crc = crc32(covered.as_slice());
        Chunk { length: data.len() as u32, chunk_type, data, crc }
    }

    /// The chunk of the given type and data, once the checksum that was
    /// stored for them has been compared with the one computed over them.
    pub fn with_checked_crc(chunk_type: ChunkType, data: Vec<u8>, stored: u32, computed: u32) -> (r:
        Result<Chunk, ChunkError>)
        requires
            data@.len() <= u32::MAX,
        ensures
            stored != computed ==> r == Err::<Chunk, ChunkError>(ChunkError::IncorrectCrc),
            stored == computed ==> (r matches Ok(c) && c@ == (ChunkView {
                length: data@.len() as u32,
                chunk_type: chunk_type@,
                data: data@,
                crc: stored,
            })),
    {
        if stored != computed {
            return Err(ChunkError::IncorrectCrc);
        }
        Ok(Chunk { length: data.len() as u32, chunk_type, data, crc: stored })
    }

    /// Reads a chunk from the start of `bytes`.
    pub fn try_from(bytes: &[u8]) -> (r: Result<Chunk, ChunkError>)
        ensures
            r matches Ok(c) ==> parse_chunk(bytes@) == Ok::<ChunkView, ChunkError>(c@) && c.wf(),
            r matches Err(e) ==> parse_chunk(bytes@) == Err::<ChunkView, ChunkError>(e),
    {
        proof {
            reveal(parse_chunk);
        }
        if bytes.len() < 8 {
            return Err(ChunkError::IncompleteSlice);
        }
        let length = u32_from_be(bytes[0], bytes[1], bytes[2], bytes[3]);
        assert(seq![bytes@[0], bytes@[1], bytes@[2], bytes@[3]] =~= bytes@.subrange(0, 4));
        let type_bytes: [u8; 4] = [bytes[4], bytes[5], bytes[6], bytes[7]];
        assert(type_bytes@ =~= bytes@.subrange(4, 8));
        let chunk_type = match ChunkType::try_from(type_bytes) {
            Ok(t) => t,
            Err(e) => {
                return Err(ChunkError::InvalidType(e));
            },
        };
        let len = length as usize;
        if bytes.len() - 8 < len || bytes.len() - 8 - len < 4 {
            return Err(ChunkError::IncompleteSlice);
        }
        let data_end = 8 + len;
        let data = slice_to_vec(slice_subrange(bytes, 8, data_end));
        let stored = u32_from_be(
            bytes[data_end],
            bytes[data_end + 1],
            bytes[data_end + 2],
            bytes[data_end + 3],
        );
        assert(seq![bytes@[data_end as int], bytes@[data_end + 1], bytes@[data_end + 2], bytes@[data_end + 3]]
            =~= bytes@.subrange(data_end as int, data_end + 4));
        let mut covered: Vec<u8> = Vec::new();
        append_type_and_data(&mut covered, &chunk_type, &data);
        let computed = crc32(covered.as_slice());
        Chunk::with_checked_crc(chunk_type, data, stored, computed)
    }

    /// The chunk's well-formedness, which every chunk built here has.
    pub open spec fn wf(&self) -> bool {
        self@.wf()
    }

    /// The wire form of the chunk.
    pub fn as_bytes(&self) -> (r: Vec<u8>)
        ensures
            r@ == self@.serialized(),
    {
        let mut out: Vec<u8> = Vec::new();
        push_be(&mut out, self.length);
        append_type_and_data(&mut out, &self.chunk_type, &self.data);
        push_be(&mut out, self.crc);
        assert(out@ =~= self@.serialized());
        out
    }

    /// The number of data bytes.
    pub fn length(&self) -> (r: u32)
        ensures
            r == self@.length,
    {
        self.length
    }

    /// The chunk's type.
    pub fn chunk_type(&self) -> (r: &ChunkType)
        ensures
            r@ == self@.chunk_type,
    {
        &self.chunk_type
    }

    /// The chunk's data.
    pub fn data(&self) -> (r: &[u8])
        ensures
            r@ == self@.data,
    {
        self.data.as_slice()
    }

    /// The stored checksum.
    pub fn crc(&self) -> (r: u32)
        ensures
            r == self@.crc,
    {
        self.crc
    }

    /// The data read as UTF-8 text.
    pub fn data_as_string(&self) -> (r: Result<String, ChunkError>)
        ensures
            r is Ok <==> valid_utf8(self@.data),
            r matches Ok(s) ==> s@ == decode_utf8(self@.data),
            r matches Err(e) ==> e == ChunkError::TextDecodeError,
    {
        let copy = slice_to_vec(self.data.as_slice());
        match utf8_to_string(copy) {
            Some(s) => Ok(s),
            None => Err(ChunkError::TextDecodeError),
        }
    }
}

/// Appends a type's four bytes and then the data.
fn append_type_and_data(out: &mut Vec<u8>, chunk_type: &ChunkType, data: &Vec<u8>)
    ensures
        final(out)@ == old(out)@ + chunk_type@ + data@,
{
    let t = chunk_type.bytes();
    let mut i: usize = 0;
    while i < 4
        invariant
            i <= 4,
            t@ == chunk_type@,
            t@.len() == 4,
            out@ == old(out)@ + t@.subrange(0, i as int),
        decreases 4 - i,
    {
        out.push(t[i]);
        assert(t@.subrange(0, i + 1) =~= t@.subrange(0, i as int).push(t@[i as int]));
        i = i + 1;
    }
    assert(t@.subrange(0, 4) =~= t@);
    let base = Ghost(out@);
    let mut j: usize = 0;
    while j < data.len()
        invariant
            j <= data@.len(),
            out@ == base@ + data@.subrange(0, j as int),
        decreases data@.len() - j,
    {
        out.push(data[j]);
        assert(data@.subrange(0, j + 1) =~= data@.subrange(0, j as int).push(data@[j as int]));
        j = j + 1;
    }
    assert(data@.subrange(0, data@.len() as int) =~= data@);
}

/// `b` with bit `bit` (0 the least significant) of byte `i` inverted.
pub open spec fn flip_bit(b: Seq<u8>, i: int, bit: u8) -> Seq<u8> {
    b.update(i, b[i] ^ (1u8 << bit))
}

/// A well-formed chunk is read back from its wire form, whatever follows it.
pub proof fn lemma_parse_serialized(c: ChunkView, rest: Seq<u8>)
    requires
        c.wf(),
    ensures
        parse_chunk(c.serialized() + rest) == Ok::<ChunkView, ChunkError>(c),
{
    reveal(parse_chunk);
    let b = c.serialized() + rest;
    let len = c.length as int;
    assert(b.subrange(0, 4) =~= be_bytes(c.length));
    lemma_be_value_of_bytes(c.length);
    assert(b.subrange(4, 8) =~= c.chunk_type);
    assert(b.subrange(8, 8 + len) =~= c.data);
    assert(b.subrange(8 + len, 12 + len) =~= be_bytes(c.crc));
    lemma_be_value_of_bytes(c.crc);
}

/// Parsing the wire form of a chunk built from a type and a payload gives
/// that same chunk, field for field.
pub proof fn lemma_new_chunk_round_trip(chunk_type: ChunkType, data: Seq<u8>)
    requires
        chunk_type.wf(),
        data.len() <= u32::MAX,
    ensures
        parse_chunk(new_chunk_view(chunk_type@, data).serialized()) == Ok::<ChunkView, ChunkError>(
            new_chunk_view(chunk_type@, data),
        ),
{
    let c = new_chunk_view(chunk_type@, data);
    lemma_parse_serialized(c, Seq::empty());
    assert(c.serialized() + Seq::<u8>::empty() =~= c.serialized());
}

/// What a parse accepts is well formed, and its wire form is exactly the
/// bytes that were read: all of `b` when nothing follows the chunk.
pub proof fn lemma_serialize_parsed_chunk(b: Seq<u8>)
    requires
        parse_chunk(b) is Ok,
    ensures
        ({
            let c = parse_chunk(b)->Ok_0;
            &&& c.wf()
            &&& 12 + c.length <= b.len()
            &&& c.serialized() == b.subrange(0, 12 + c.length as int)
            &&& b.len() == 12 + c.length ==> c.serialized() == b
        }),
{
    reveal(parse_chunk);
    let c = parse_chunk(b)->Ok_0;
    let len = c.length as int;
    lemma_be_bytes_of_value(b.subrange(0, 4));
    lemma_be_bytes_of_value(b.subrange(8 + len, 12 + len));
    assert(c.serialized() =~= b.subrange(0, 12 + len));
    if b.len() == 12 + len {
        assert(b.subrange(0, 12 + len) =~= b);
    }
}

/// Inverting any one bit of the stored checksum in a chunk's wire form makes
/// the parse fail on the checksum.
pub proof fn lemma_flipped_crc_bit_rejected(c: ChunkView, k: int, bit: u8)
    requires
        c.wf(),
        0 <= k < 4,
        bit < 8,
    ensures
        parse_chunk(flip_bit(c.serialized(), 8 + c.length + k, bit)) == Err::<ChunkView, ChunkError>(
            ChunkError::IncorrectCrc,
        ),
{
    reveal(parse_chunk);
    let len = c.length as int;
    let s = c.serialized();
    let i = 8 + len + k;
    let f = flip_bit(s, i, bit);
    let x = s[i];
    assert(x ^ (1u8 << bit) != x) by (bit_vector)
        requires
            bit < 8,
    ;
    lemma_be_value_of_bytes(c.length);
    assert(f.subrange(0, 4) =~= be_bytes(c.length));
    assert(f.subrange(4, 8) =~= c.chunk_type);
    assert(f.subrange(8, 8 + len) =~= c.data);
    let field = f.subrange(8 + len, 12 + len);
    assert(field.len() == 4);
    assert(field[k] != be_bytes(c.crc)[k]);
    if be_value(field) == c.crc {
        lemma_be_bytes_of_value(field);
        assert(field =~= be_bytes(c.crc));
    }
}

/// Inverting any one bit of the data in a chunk's wire form makes the parse
/// fail on the checksum whenever the checksum of the changed data differs.
pub proof fn lemma_flipped_data_bit_rejected(c: ChunkView, k: int, bit: u8)
    requires
        c.wf(),
        0 <= k < c.length,
        bit < 8,
        chunk_crc(c.chunk_type, flip_bit(c.data, k, bit)) != c.crc,
    ensures
        parse_chunk(flip_bit(c.serialized(), 8 + k, bit)) == Err::<ChunkView, ChunkError>(
            ChunkError::IncorrectCrc,
        ),
{
    reveal(parse_chunk);
    let len = c.length as int;
    let f = flip_bit(c.serialized(), 8 + k, bit);
    lemma_be_value_of_bytes(c.length);
    lemma_be_value_of_bytes(c.crc);
    assert(f.subrange(0, 4) =~= be_bytes(c.length));
    assert(f.subrange(4, 8) =~= c.chunk_type);
    assert(f.subrange(8, 8 + len) =~= flip_bit(c.data, k, bit));
    assert(f.subrange(8 + len, 12 + len) =~= be_bytes(c.crc));
}

} // verus!
