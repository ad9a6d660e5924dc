use vstd::prelude::*;

use vstd::string::StringSliceAdditionalSpecFns;

use crate::text::{ascii_chars, lemma_decode_ascii, utf8_to_string};

verus! {

/// An ASCII letter, `A`-`Z` or `a`-`z`.
pub open spec fn is_letter(b: u8) -> bool {
    (65 <= b && b <= 90) || (97 <= b && b <= 122)
}

pub open spec fn all_letters(s: Seq<u8>) -> bool {
    forall|i: int| 0 <= i < s.len() ==> #[trigger] is_letter(s[i])
}

/// Bit 5 of a byte (mask 0x20), the flag that each byte of a type carries.
pub open spec fn flag_bit(b: u8) -> bool {
    b & 0x20 != 0
}

/// The four-byte code that names what a chunk holds.
#[derive(Debug, Clone, Copy, Eq)]
pub struct ChunkType {
    bytes: [u8; 4],
}

impl PartialEq for ChunkType {
    fn eq(&self, other: &ChunkType) -> (r: bool) {
        let r = self.bytes[0] == other.bytes[0] && self.bytes[1] == other.bytes[1]
            && self.bytes[2] == other.bytes[2] && self.bytes[3] == other.bytes[3];
        assert(r ==> self.bytes@ =~= other.bytes@);
        r
    }
}

impl vstd::std_specs::cmp::PartialEqSpecImpl for ChunkType {
    open spec fn obeys_eq_spec() -> bool {
        true
    }

    open spec fn eq_spec(&self, other: &ChunkType) -> bool {
        self@ == other@
    }
}

impl View for ChunkType {
    type V = Seq<u8>;

    closed spec fn view(&self) -> Seq<u8> {
        self.bytes@
    }
}

/// Why a chunk type could not be built.
#[derive(Debug, Clone, Copy, PartialEq, Eq, Structural)]
pub enum ChunkTypeError {
    /// The text is not exactly four bytes long.
    InvalidLength,
    /// A byte is not an ASCII letter.
    AsciiError,
}

impl ChunkTypeError {
    /// The sentence that says what went wrong.
    pub open spec fn message(self) -> Seq<char> {
        match self {
            ChunkTypeError::InvalidLength => "length of string must be exactly 4 bytes"@,
            ChunkTypeError::AsciiError => "all bytes must be ascii a-z or A-Z"@,
        }
    }

    /// The sentence that says what went wrong.
    pub fn to_string(&self) -> (r: String)
        ensures
            r@ == self.message(),
    {
        match self {
            ChunkTypeError::InvalidLength => "length of string must be exactly 4 bytes".to_owned(),
            ChunkTypeError::AsciiError => "all bytes must be ascii a-z or A-Z".to_owned(),
        }
    }
}

impl TryFrom<[u8; 4]> for ChunkType {
    type Error = ChunkTypeError;

    fn try_from(bytes: [u8; 4]) -> Result<ChunkType, ChunkTypeError> {
        let ok = is_ascii_letter(bytes[0]) && is_ascii_letter(bytes[1]) && is_ascii_letter(
            bytes[2],
        ) && is_ascii_letter(bytes[3]);
        assert(ok <==> all_letters(bytes@)) by {
            if ok {
                assert forall|i: int| 0 <= i < bytes@.len() implies is_letter(bytes@[i]) by {
                    assert(0 <= i < 4);
                }
            }
        }
        if ok {
            Ok(ChunkType { bytes })
        } else {
            Err(ChunkTypeError::AsciiError)
        }
    }
}

impl vstd::std_specs::convert::TryFromSpecImpl<[u8; 4]> for ChunkType {
    open spec fn obeys_try_from_spec() -> bool {
        true
    }

    closed spec fn try_from_spec(bytes: [u8; 4]) -> Result<ChunkType, ChunkTypeError> {
        if all_letters(bytes@) {
            Ok(ChunkType { bytes })
        } else {
            Err(ChunkTypeError::AsciiError)
        }
    }
}

impl std::str::FromStr for ChunkType {
    type Err = ChunkTypeError;

    fn from_str(s: &str) -> Result<ChunkType, ChunkTypeError> {
        ChunkType::from_str(s)
    }
}

/// A chunk type read from a command-line argument; a failure is reported
/// as its message.
#[derive(Clone)]
pub struct ChunkTypeWrapper(pub ChunkType);

impl std::str::FromStr for ChunkTypeWrapper {
    type Err = String;

    fn from_str(s: &str) -> Result<ChunkTypeWrapper, String> {
        match ChunkType::from_str(s) {
            Ok(t) => Ok(ChunkTypeWrapper(t)),
            Err(e) => Err(e.to_string()),
        }
    }
}

fn is_ascii_letter(b: u8) -> (r: bool)
    ensures
        r == is_letter(b),
{
    (65 <= b && b <= 90) || (97 <= b && b <= 122)
}

impl ChunkType {
    /// Four letters: what every chunk type built by this library holds.
    pub open spec fn wf(&self) -> bool {
        self@.len() == 4 && all_letters(self@)
    }

    /// Builds a type from four raw bytes, which must all be ASCII letters.
    pub fn try_from(bytes: [u8; 4]) -> (r: Result<ChunkType, ChunkTypeError>)
        ensures
            r is Ok <==> all_letters(bytes@),
            r matches Ok(t) ==> t@ == bytes@ && t.wf(),
            r matches Err(e) ==> e == ChunkTypeError::AsciiError,
    {
        let mut i: usize = 0;
        while i < 4
            invariant
                i <= 4,
                forall|j: int| 0 <= j < i ==> is_letter(#[trigger] bytes@[j]),
            decreases 4 - i,
        {
            if !is_ascii_letter(bytes[i]) {
                return Err(ChunkTypeError::AsciiError);
            }
            i = i + 1;
        }
        Ok(ChunkType { bytes })
    }

    /// Builds a type from a text of exactly four bytes, all ASCII letters.
    pub fn from_str(s: &str) -> (r: Result<ChunkType, ChunkTypeError>)
        ensures
            s.spec_bytes().len() != 4 ==> r == Err::<ChunkType, ChunkTypeError>(
                ChunkTypeError::InvalidLength,
            ),
            s.spec_bytes().len() == 4 ==> (r is Ok <==> all_letters(s.spec_bytes())),
            r matches Ok(t) ==> t@ == s.spec_bytes() && t.wf(),
            r matches Err(e) ==> (e == ChunkTypeError::AsciiError <==> s.spec_bytes().len() == 4),
    {
        if s.len() != 4 {
            return Err(ChunkTypeError::InvalidLength);
        }
        let b = s.as_bytes();
        let arr: [u8; 4] = [b[0], b[1], b[2], b[3]];
        assert(arr@ =~= s.spec_bytes());
        ChunkType::try_from(arr)
    }

    /// The type's bytes are exactly `key`.
    pub fn has_bytes(&self, key: &[u8]) -> (r: bool)
        ensures
            r == (self@ == key@),
    {
        if key.len() != 4 {
            return false;
        }
        let r = self.bytes[0] == key[0] && self.bytes[1] == key[1] && self.bytes[2] == key[2]
            && self.bytes[3] == key[3];
        assert(r ==> self@ =~= key@);
        r
    }

    /// The four bytes of the type.
    pub fn bytes(&self) -> (r: [u8; 4])
        ensures
            r@ == self@,
    {
        self.bytes
    }

    /// All four bytes are letters and the reserved bit is clear.
    pub fn is_valid(&self) -> (r: bool)
        ensures
            r == (all_letters(self@) && !flag_bit(self@[2])),
    {
        let mut i: usize = 0;
        while i < 4
            invariant
                i <= 4,
                self@.len() == 4,
                forall|j: int| 0 <= j < i ==> is_letter(#[trigger] self@[j]),
            decreases 4 - i,
        {
            if !is_ascii_letter(self.bytes[i]) {
                return false;
            }
            i = i + 1;
        }
        self.is_reserved_bit_valid()
    }

    /// The first byte's flag is clear.
    pub fn is_critical(&self) -> (r: bool)
        ensures
            r == !flag_bit(self@[0]),
    {
        self.bytes[0] & 0x20 == 0
    }

    /// The second byte's flag is clear.
    pub fn is_public(&self) -> (r: bool)
        ensures
            r == !flag_bit(self@[1]),
    {
        self.bytes[1] & 0x20 == 0
    }

    /// The third byte's flag is clear, as the format requires.
    pub fn is_reserved_bit_valid(&self) -> (r: bool)
        ensures
            r == !flag_bit(self@[2]),
    {
        self.bytes[2] & 0x20 == 0
    }

    /// The fourth byte's flag is set.
    pub fn is_safe_to_copy(&self) -> (r: bool)
        ensures
            r == flag_bit(self@[3]),
    {
        self.bytes[3] & 0x20 != 0
    }

    /// The type as text: its four letters.
    pub fn to_string(&self) -> (r: String)
        requires
            self.wf(),
        ensures
            r@ == ascii_chars(self@),
    {
        let v: Vec<u8> = vec![self.bytes[0], self.bytes[1], self.bytes[2], self.bytes[3]];
        assert(v@ =~= self@);
        proof {
            assert forall|i: int| 0 <= i < v@.len() implies v@[i] <= 0x7f by {
                assert(is_letter(self@[i]));
            }
            lemma_decode_ascii(v@);
        }
        match utf8_to_string(v) {
            Some(s) => s,
            None => {
                assert(false);
                String::new()
            },
        }
    }
}

} // verus!
