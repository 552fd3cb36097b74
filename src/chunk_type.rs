use vstd::prelude::*;

use vstd::string::StringSliceAdditionalSpecFns;
use vstd::utf8::{decode_utf8, is_leading_byte_width_1, partial_valid_utf8_extend_ascii_block, valid_utf8};

use crate::error::PngError;
use crate::text::utf8_text;

verus! {

/// An upper-case ASCII letter.
pub open spec fn is_upper(b: u8) -> bool {
    65 <= b <= 90
}

/// A lower-case ASCII letter.
pub open spec fn is_lower(b: u8) -> bool {
    97 <= b <= 122
}

/// An ASCII letter of either case.
pub open spec fn is_alpha(b: u8) -> bool {
    is_upper(b) || is_lower(b)
}

/// Every byte of `s` is an ASCII letter.
pub open spec fn all_alpha(s: Seq<u8>) -> bool {
    forall|i: int| 0 <= i < s.len() ==> is_alpha(#[trigger] s[i])
}

/// A tag that a chunk may carry: four letters, the third upper-case.
pub open spec fn valid_tag(s: Seq<u8>) -> bool {
    &&& s.len() == 4
    &&& all_alpha(s)
    &&& is_upper(s[2])
}

fn byte_is_upper(b: u8) -> (r: bool)
    ensures
        r == is_upper(b),
{
    65 <= b && b <= 90
}

fn byte_is_lower(b: u8) -> (r: bool)
    ensures
        r == is_lower(b),
{
    97 <= b && b <= 122
}

fn byte_is_alpha(b: u8) -> (r: bool)
    ensures
        r == is_alpha(b),
{
    byte_is_upper(b) || byte_is_lower(b)
}

/// The four-byte type tag of a chunk.
#[derive(Clone, Copy, Debug, Eq)]
pub struct ChunkType {
    bytes: [u8; 4],
}

impl View for ChunkType {
    type V = Seq<u8>;

    closed spec fn view(&self) -> Seq<u8> {
        self.bytes@
    }
}

/// A tag always has four bytes.
pub broadcast proof fn lemma_tag_len(t: ChunkType)
    ensures
        #[trigger] t@.len() == 4,
{
}

impl ChunkType {
    /// Every tag that can be built holds four ASCII letters.
    #[verifier::type_invariant]
    spec fn inv(&self) -> bool {
        all_alpha(self.bytes@)
    }

    /// The tag as text: the four letters, in order.
    pub fn to_string(&self) -> (r: String)
        ensures
            valid_utf8(self@),
            r@ == decode_utf8(self@),
    {
        proof {
            use_type_invariant(self);
            let b = self.bytes@;
            assert(b.subrange(0, 0).len() == 0);
            assert forall|i: int| 0 <= 0 <= i < 4 <= b.len() implies is_leading_byte_width_1(
                #[trigger] b[i],
            ) by {
                assert(is_alpha(b[i]));
            }
            partial_valid_utf8_extend_ascii_block(b, 0, 4);
            assert(b.subrange(0, 4) =~= b);
        }
        let bytes = self.bytes;
        match utf8_text(bytes.as_slice()) {
            Some(s) => s,
            None => String::new(),
        }
    }

    /// The four bytes of the tag.
    pub fn bytes(&self) -> (r: [u8; 4])
        ensures
            r@ == self@,
    {
        self.bytes
    }

    /// All four bytes are letters and the reserved bit is valid.
    pub fn is_valid(&self) -> (r: bool)
        ensures
            r == valid_tag(self@),
    {
        let alpha = byte_is_alpha(self.bytes[0]) && byte_is_alpha(self.bytes[1])
            && byte_is_alpha(self.bytes[2]) && byte_is_alpha(self.bytes[3]);
        proof {
            assert(alpha == all_alpha(self@)) by {
                if all_alpha(self@) {
                    assert(is_alpha(self@[0]) && is_alpha(self@[1]) && is_alpha(self@[2])
                        && is_alpha(self@[3]));
                }
            }
        }
        alpha && self.is_reserved_bit_valid()
    }

    /// The first letter is upper-case.
    pub fn is_critical(&self) -> (r: bool)
        ensures
            r == is_upper(self@[0]),
    {
        byte_is_upper(self.bytes[0])
    }

    /// The second letter is upper-case.
    pub fn is_public(&self) -> (r: bool)
        ensures
            r == is_upper(self@[1]),
    {
        byte_is_upper(self.bytes[1])
    }

    /// The third letter is upper-case.
    pub fn is_reserved_bit_valid(&self) -> (r: bool)
        ensures
            r == is_upper(self@[2]),
    {
        byte_is_upper(self.bytes[2])
    }

    /// The fourth letter is lower-case.
    pub fn is_safe_to_copy(&self) -> (r: bool)
        ensures
            r == is_lower(self@[3]),
    {
        byte_is_lower(self.bytes[3])
    }
}

impl TryFrom<[u8; 4]> for ChunkType {
    type Error = PngError;

    /// Accepts four ASCII letters, whatever their case.
    fn try_from(bytes: [u8; 4]) -> (r: Result<ChunkType, PngError>)
        ensures
            match r {
                Ok(t) => all_alpha(bytes@) && t@ == bytes@,
                Err(e) => !all_alpha(bytes@) && e == PngError::InvalidChunkType,
            },
    {
        if byte_is_alpha(bytes[0]) && byte_is_alpha(bytes[1]) && byte_is_alpha(bytes[2])
            && byte_is_alpha(bytes[3]) {
            proof {
                assert forall|i: int| 0 <= i < bytes@.len() implies is_alpha(#[trigger] bytes@[i]) by {
                    assert(i == 0 || i == 1 || i == 2 || i == 3);
                }
            }
            Ok(ChunkType { bytes })
        } else {
            Err(PngError::InvalidChunkType)
        }
    }
}

impl vstd::std_specs::convert::TryFromSpecImpl<[u8; 4]> for ChunkType {
    open spec fn obeys_try_from_spec() -> bool {
        true
    }

    closed spec fn try_from_spec(bytes: [u8; 4]) -> Result<ChunkType, PngError> {
        if all_alpha(bytes@) {
            Ok(ChunkType { bytes })
        } else {
            Err(PngError::InvalidChunkType)
        }
    }
}

impl std::str::FromStr for ChunkType {
    type Err = PngError;

    /// Accepts a string of exactly four bytes, each an ASCII letter.
    fn from_str(s: &str) -> (r: Result<ChunkType, PngError>)
        ensures
            match r {
                Ok(t) => s.spec_bytes().len() == 4 && all_alpha(s.spec_bytes())
                    && t@ == s.spec_bytes(),
                Err(e) => !(s.spec_bytes().len() == 4 && all_alpha(s.spec_bytes()))
                    && e == PngError::InvalidChunkType,
            },
    {
        let b = s.as_bytes();
        if b.len() != 4 {
            return Err(PngError::InvalidChunkType);
        }
        let bytes: [u8; 4] = [b[0], b[1], b[2], b[3]];
        assert(bytes@ =~= b@);
        ChunkType::try_from(bytes)
    }
}

impl PartialEq for ChunkType {
    fn eq(&self, other: &ChunkType) -> (r: bool) {
        let r = self.bytes[0] == other.bytes[0] && self.bytes[1] == other.bytes[1]
            && self.bytes[2] == other.bytes[2] && self.bytes[3] == other.bytes[3];
        proof {
            if r {
                assert(self@ =~= other@);
            }
        }
        r
    }
}

impl vstd::std_specs::cmp::PartialEqSpecImpl for ChunkType {
    open spec fn obeys_eq_spec() -> bool {
        true
    }

    open spec fn eq_spec(&self, other: &ChunkType) -> bool {
        self@ == other@
    }
}

} // verus!
