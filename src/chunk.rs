use vstd::prelude::*;
use vstd::utf8::{decode_utf8, valid_utf8};

use crate::chunk_type::{lemma_tag_len, valid_tag, ChunkType};
use crate::error::PngError;
use crate::text::utf8_text;

verus! {

/// The CRC-32/ISO-HDLC checksum of a byte sequence.
pub uninterp spec fn crc32_of(bytes: Seq<u8>) -> u32;

/// Relies on `crc::Crc::<u32>::checksum` with `crc::CRC_32_ISO_HDLC`: the checksum
/// of the given bytes, which depends on those bytes alone.
#[verifier::external_body]
fn crc32(bytes: &[u8]) -> (r: u32)
    ensures
        r == crc32_of(bytes@),
{
    crc::Crc::<u32>::new(&crc::CRC_32_ISO_HDLC).checksum(bytes)
}

/// The four big-endian bytes of `n`.
pub open spec fn be32(n: u32) -> Seq<u8> {
    seq![(n >> 24u32) as u8, (n >> 16u32) as u8, (n >> 8u32) as u8, n as u8]
}

/// The number that the first four bytes of `b` spell in big-endian order.
pub open spec fn be32_value(b: Seq<u8>) -> u32
    recommends
        b.len() >= 4,
{
    ((b[0] as u32) << 24u32) | ((b[1] as u32) << 16u32) | ((b[2] as u32) << 8u32) | (b[3] as u32)
}

/// Reading back the bytes that `be32` writes gives the number again.
pub proof fn lemma_be32_round_trip(n: u32)
    ensures
        be32_value(be32(n)) == n,
{
    let b0 = (n >> 24u32) as u8;
    let b1 = (n >> 16u32) as u8;
    let b2 = (n >> 8u32) as u8;
    let b3 = n as u8;
    assert(((b0 as u32) << 24u32) | ((b1 as u32) << 16u32) | ((b2 as u32) << 8u32) | (b3 as u32)
        == n) by (bit_vector)
        requires
            b0 == (n >> 24u32) as u8,
            b1 == (n >> 16u32) as u8,
            b2 == (n >> 8u32) as u8,
            b3 == n as u8,
    ;
}

/// Writing out the number that four bytes spell gives those bytes again.
pub proof fn lemma_be32_of_value(s: Seq<u8>)
    requires
        s.len() == 4,
    ensures
        be32(be32_value(s)) == s,
{
    let b0 = s[0];
    let b1 = s[1];
    let b2 = s[2];
    let b3 = s[3];
    let v = be32_value(s);
    assert((v >> 24u32) as u8 == b0 && (v >> 16u32) as u8 == b1 && (v >> 8u32) as u8 == b2
        && v as u8 == b3) by (bit_vector)
        requires
            v == ((b0 as u32) << 24u32) | ((b1 as u32) << 16u32) | ((b2 as u32) << 8u32) | (
            b3 as u32),
    ;
    assert(be32(v) =~= s);
}

/// What a chunk holds: its tag and its data. Its length and checksum follow from these.
pub struct ChunkView {
    pub tag: Seq<u8>,
    pub data: Seq<u8>,
}

/// The checksum that a chunk with this tag and data carries.
pub open spec fn chunk_crc(tag: Seq<u8>, data: Seq<u8>) -> u32 {
    crc32_of(tag + data)
}

/// The encoded form of a chunk: length, tag, data, checksum.
pub open spec fn encode_chunk(c: ChunkView) -> Seq<u8> {
    be32(c.data.len() as u32) + c.tag + c.data + be32(chunk_crc(c.tag, c.data))
}

/// The number of bytes that the encoded form of `c` takes.
pub open spec fn encoded_len(c: ChunkView) -> int {
    12 + c.data.len() as int
}

/// Reads one chunk from the front of `b`; bytes after it are left alone.
#[verifier::opaque]
pub open spec fn decode_chunk(b: Seq<u8>) -> Result<ChunkView, PngError> {
    if b.len() < 8 {
        Err(PngError::TruncatedChunk)
    } else if !valid_tag(b.subrange(4, 8)) {
        Err(PngError::InvalidChunkType)
    } else {
        let len = be32_value(b.subrange(0, 4)) as int;
        if b.len() < 12 + len {
            Err(PngError::TruncatedChunk)
        } else {
            let tag = b.subrange(4, 8);
            let data = b.subrange(8, 8 + len);
            if be32_value(b.subrange(8 + len, 12 + len)) != chunk_crc(tag, data) {
                Err(PngError::CrcMismatch)
            } else {
                Ok(ChunkView { tag, data })
            }
        }
    }
}

/// A typed, checksummed record of a PNG stream.
#[derive(Debug)]
pub struct Chunk {
    length: u32,
    chunk_type: ChunkType,
    data: Vec<u8>,
    crc: u32,
}

impl View for Chunk {
    type V = ChunkView;

    closed spec fn view(&self) -> ChunkView {
        ChunkView { tag: self.chunk_type@, data: self.data@ }
    }
}

/// A chunk's tag always has four bytes.
pub broadcast proof fn lemma_chunk_tag_len(c: Chunk)
    ensures
        #[trigger] c@.tag.len() == 4,
{
    lemma_tag_len(c.chunk_type);
}

impl Chunk {
    /// The length always counts the data, and the checksum covers tag and data.
    #[verifier::type_invariant]
    spec fn inv(&self) -> bool {
        &&& self.length as int == self.data@.len()
        &&& self.crc == chunk_crc(self.chunk_type@, self.data@)
    }

    /// A chunk with the given tag and data; length and checksum are computed.
    pub fn new(chunk_type: ChunkType, data: Vec<u8>) -> (r: Chunk)
        requires
            data@.len() <= u32::MAX,
        ensures
            r@ == (ChunkView { tag: chunk_type@, data: data@ }),
    {
        let length = data.len() as u32;
        let tag = chunk_type.bytes();
        let mut covered: Vec<u8> = Vec::new();
        covered.push(tag[0]);
        covered.push(tag[1]);
        covered.push(tag[2]);
        covered.push(tag[3]);
        let mut i: usize = 0;
        while i < data.len()
            invariant
                i <= data@.len(),
                covered@ == tag@ + data@.subrange(0, i as int),
            decreases data@.len() - i,
        {
            covered.push(data[i]);
            i = i + 1;
            assert(covered@ =~= tag@ + data@.subrange(0, i as int));
        }
        assert(data@.subrange(0, data@.len() as int) =~= data@);
        let crc = crc32(covered.as_slice());
        Chunk { length, chunk_type, data, crc }
    }

    /// The number of data bytes.
    pub fn length(&self) -> (r: u32)
        ensures
            r as int == self@.data.len(),
    {
        proof {
            use_type_invariant(self);
        }
        self.length
    }

    /// The chunk's tag.
    pub fn chunk_type(&self) -> (r: &ChunkType)
        ensures
            r@ == self@.tag,
    {
        &self.chunk_type
    }

    /// The chunk's data.
    pub fn data(&self) -> (r: &[u8])
        ensures
            r@ == self@.data,
    {
        self.data.as_slice()
    }

    /// The stored checksum, which covers the tag followed by the data.
    pub fn crc(&self) -> (r: u32)
        ensures
            r == chunk_crc(self@.tag, self@.data),
    {
        proof {
            use_type_invariant(self);
        }
        self.crc
    }

    /// The data read as UTF-8 text.
    pub fn data_as_string(&self) -> (r: Result<String, PngError>)
        ensures
            match r {
                Ok(s) => valid_utf8(self@.data) && s@ == decode_utf8(self@.data),
                Err(e) => !valid_utf8(self@.data) && e == PngError::InvalidUtf8,
            },
    {
        match utf8_text(self.data.as_slice()) {
            Some(s) => Ok(s),
            None => Err(PngError::InvalidUtf8),
        }
    }

    /// The encoded chunk: big-endian length, tag, data, big-endian checksum.
    pub fn as_bytes(&self) -> (r: Vec<u8>)
        ensures
            r@ == encode_chunk(self@),
    {
        proof {
            use_type_invariant(self);
            lemma_tag_len(self.chunk_type);
        }
        let mut out: Vec<u8> = Vec::new();
        push_be32(&mut out, self.length);
        let tag = self.chunk_type.bytes();
        out.push(tag[0]);
        out.push(tag[1]);
        out.push(tag[2]);
        out.push(tag[3]);
        assert(out@ =~= be32(self.length) + tag@);
        extend(&mut out, &self.data);
        push_be32(&mut out, self.crc);
        out
    }
}

impl Clone for Chunk {
    fn clone(&self) -> (r: Chunk)
        ensures
            r@ == self@,
    {
        proof {
            use_type_invariant(self);
        }
        let data = self.data.clone();
        proof {
            assert(data@ =~= self.data@);
        }
        Chunk { length: self.length, chunk_type: self.chunk_type, data, crc: self.crc }
    }
}

/// Reads one chunk that starts `start` bytes into `bytes`.
pub(crate) fn parse_at(bytes: &[u8], start: usize) -> (r: Result<Chunk, PngError>)
    requires
        start <= bytes@.len(),
    ensures
        match r {
            Ok(c) => decode_chunk(bytes@.skip(start as int)) == Ok::<ChunkView, PngError>(c@),
            Err(e) => decode_chunk(bytes@.skip(start as int)) == Err::<ChunkView, PngError>(e),
        },
{
    let ghost b = bytes@.skip(start as int);
    proof {
        reveal(decode_chunk);
    }
    let rest = bytes.len() - start;
    if rest < 8 {
        return Err(PngError::TruncatedChunk);
    }
    let length = read_be32(bytes, start);
    assert(b.subrange(0, 4) =~= bytes@.subrange(start as int, start + 4));
    let tag: [u8; 4] = [bytes[start + 4], bytes[start + 5], bytes[start + 6], bytes[start + 7]];
    assert(tag@ =~= b.subrange(4, 8));
    let chunk_type = match ChunkType::try_from(tag) {
        Ok(t) => t,
        Err(e) => {
            return Err(e);
        },
    };
    if !chunk_type.is_valid() {
        return Err(PngError::InvalidChunkType);
    }
    let len = length as usize;
    if rest < 12 || rest - 12 < len {
        return Err(PngError::TruncatedChunk);
    }
    let from = start + 8;
    let mut data: Vec<u8> = Vec::new();
    let mut i: usize = 0;
    while i < len
        invariant
            from == start + 8,
            from + len + 4 <= bytes@.len() <= usize::MAX,
            i <= len,
            data@ == bytes@.subrange(from as int, from + i),
        decreases len - i,
    {
        data.push(bytes[from + i]);
        i = i + 1;
        assert(data@ =~= bytes@.subrange(from as int, from + i));
    }
    assert(data@ =~= b.subrange(8, 8 + len));
    let stored = read_be32(bytes, from + len);
    assert(b.subrange(8 + len, 12 + len) =~= bytes@.subrange(from + len, from + len + 4));
    let chunk = Chunk::new(chunk_type, data);
    if stored != chunk.crc() {
        Err(PngError::CrcMismatch)
    } else {
        Ok(chunk)
    }
}

/// Reads the four big-endian bytes at `at`.
fn read_be32(b: &[u8], at: usize) -> (r: u32)
    requires
        at + 4 <= b@.len(),
    ensures
        r == be32_value(b@.subrange(at as int, at + 4)),
{
    ((b[at] as u32) << 24u32) | ((b[at + 1] as u32) << 16u32) | ((b[at + 2] as u32) << 8u32) | (
    b[at + 3] as u32)
}

impl<'a> TryFrom<&'a [u8]> for Chunk {
    type Error = PngError;

    /// Reads one chunk from the front of the buffer and checks its tag and checksum.
    fn try_from(bytes: &'a [u8]) -> (r: Result<Chunk, PngError>)
        ensures
            match r {
                Ok(c) => decode_chunk(bytes@) == Ok::<ChunkView, PngError>(c@),
                Err(e) => decode_chunk(bytes@) == Err::<ChunkView, PngError>(e),
            },
    {
        assert(bytes@.skip(0) =~= bytes@);
        parse_at(bytes, 0)
    }
}

impl<'a> vstd::std_specs::convert::TryFromSpecImpl<&'a [u8]> for Chunk {
    /// The contract of `try_from` above says what it returns.
    open spec fn obeys_try_from_spec() -> bool {
        false
    }

    closed spec fn try_from_spec(bytes: &'a [u8]) -> Result<Chunk, PngError> {
        Err(PngError::TruncatedChunk)
    }
}

/// Appends the big-endian bytes of `n`.
fn push_be32(out: &mut Vec<u8>, n: u32)
    ensures
        final(out)@ == old(out)@ + be32(n),
{
    out.push((n >> 24u32) as u8);
    out.push((n >> 16u32) as u8);
    out.push((n >> 8u32) as u8);
    out.push(n as u8);
    assert(out@ =~= old(out)@ + be32(n));
}

/// Appends every byte of `src`.
pub(crate) fn extend(out: &mut Vec<u8>, src: &[u8])
    ensures
        final(out)@ == old(out)@ + src@,
{
    let ghost start = out@;
    let mut i: usize = 0;
    while i < src.len()
        invariant
            i <= src@.len(),
            out@ == start + src@.subrange(0, i as int),
        decreases src@.len() - i,
    {
        out.push(src[i]);
        i = i + 1;
        assert(out@ =~= start + src@.subrange(0, i as int));
    }
    assert(src@.subrange(0, src@.len() as int) =~= src@);
}

} // verus!
