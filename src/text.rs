use vstd::prelude::*;
use vstd::utf8::*;

verus! {

/// Relies on std's `String::from_utf8`: it accepts exactly the well-formed
/// UTF-8 byte sequences and keeps the characters they encode.
#[verifier::external_body]
pub(crate) fn utf8_to_string(bytes: Vec<u8>) -> (r: Option<String>)
    ensures
        r is Some <==> valid_utf8(bytes@),
        r matches Some(s) ==> s@ == decode_utf8(bytes@),
{
    String::from_utf8(bytes).ok()
}

/// Every byte below 0x80 is one character of the same code.
pub open spec fn is_ascii_bytes(b: Seq<u8>) -> bool {
    forall|i: int| 0 <= i < b.len() ==> #[trigger] b[i] <= 0x7f
}

pub open spec fn ascii_chars(b: Seq<u8>) -> Seq<char> {
    b.map_values(|x: u8| x as char)
}

/// A sequence of ASCII bytes is valid UTF-8 and decodes to the same codes.
pub proof fn lemma_decode_ascii(b: Seq<u8>)
    requires
        is_ascii_bytes(b),
    ensures
        valid_utf8(b),
        decode_utf8(b) == ascii_chars(b),
    decreases b.len(),
{
    if b.len() > 0 {
        let x = b[0];
        assert(x <= 0x7f);
        assert(x & 0x7f == x) by (bit_vector)
            requires
                x <= 0x7f,
        ;
        let rest = b.subrange(1, b.len() as int);
        lemma_decode_ascii(rest);
        assert(pop_first_scalar(b) =~= rest);
        assert(decode_utf8(b) =~= ascii_chars(b));
    }
}

} // verus!
