use vstd::prelude::*;
use vstd::string::StringSliceAdditionalSpecFns;

use crate::chunk::{
    be32, be32_value, chunk_crc, lemma_be32_of_value, decode_chunk, encode_chunk, encoded_len, lemma_be32_round_trip,
    lemma_chunk_tag_len, parse_at, Chunk, ChunkView,
};
use crate::chunk_type::valid_tag;
use crate::error::PngError;

verus! {

/// The eight bytes that open every PNG stream.
pub open spec fn signature() -> Seq<u8> {
    seq![137u8, 80u8, 78u8, 71u8, 13u8, 10u8, 26u8, 10u8]
}

/// The chunks encoded one after the other.
pub open spec fn encode_chunks(cs: Seq<ChunkView>) -> Seq<u8>
    decreases cs.len(),
{
    if cs.len() == 0 {
        seq![]
    } else {
        encode_chunk(cs[0]) + encode_chunks(cs.drop_first())
    }
}

/// The encoded stream: signature, then every chunk in order.
pub open spec fn encode_png(cs: Seq<ChunkView>) -> Seq<u8> {
    signature() + encode_chunks(cs)
}

/// `r` with the chunks `s` put in front of a successful result.
pub open spec fn prefix_with(s: Seq<ChunkView>, r: Result<Seq<ChunkView>, PngError>) -> Result<
    Seq<ChunkView>,
    PngError,
> {
    match r {
        Ok(t) => Ok(s + t),
        Err(e) => Err(e),
    }
}

/// Reads chunks until `b` is used up; the first chunk that cannot be read decides the error.
pub open spec fn decode_chunks(b: Seq<u8>) -> Result<Seq<ChunkView>, PngError>
    decreases b.len(),
{
    if b.len() == 0 {
        Ok(seq![])
    } else {
        match decode_chunk(b) {
            Err(e) => Err(e),
            Ok(c) => if 0 < encoded_len(c) <= b.len() {
                prefix_with(seq![c], decode_chunks(b.skip(encoded_len(c))))
            } else {
                Err(PngError::TruncatedChunk)
            },
        }
    }
}

/// Reads a whole stream: the signature, then chunks up to the last byte.
pub open spec fn decode_png(b: Seq<u8>) -> Result<Seq<ChunkView>, PngError> {
    if b.len() >= 8 && b.subrange(0, 8) == signature() {
        decode_chunks(b.skip(8))
    } else {
        Err(PngError::BadSignature)
    }
}

/// Every chunk can be written and read back: a valid tag, and a length that fits 32 bits.
pub open spec fn all_encodable(cs: Seq<ChunkView>) -> bool {
    forall|i: int|
        0 <= i < cs.len() ==> valid_tag(#[trigger] cs[i].tag) && cs[i].data.len() <= u32::MAX
}

/// `i` is the position of the first chunk tagged `s`.
pub open spec fn is_first_of_type(cs: Seq<ChunkView>, s: Seq<u8>, i: int) -> bool {
    &&& 0 <= i < cs.len()
    &&& cs[i].tag == s
    &&& forall|j: int| 0 <= j < i ==> #[trigger] cs[j].tag != s
}

/// Some chunk is tagged `s`.
pub open spec fn has_type(cs: Seq<ChunkView>, s: Seq<u8>) -> bool {
    exists|i: int| 0 <= i < cs.len() && #[trigger] cs[i].tag == s
}

/// The position of the first chunk tagged `s`, where there is one.
pub open spec fn first_of_type(cs: Seq<ChunkView>, s: Seq<u8>) -> int {
    choose|i: int| is_first_of_type(cs, s, i)
}

proof fn lemma_first_of_type(cs: Seq<ChunkView>, s: Seq<u8>, i: int)
    requires
        is_first_of_type(cs, s, i),
    ensures
        has_type(cs, s),
        first_of_type(cs, s) == i,
{
    let k = first_of_type(cs, s);
    assert(is_first_of_type(cs, s, k));
    if k < i {
        assert(cs[k].tag != s);
    } else if i < k {
        assert(cs[i].tag != s);
    }
}

/// A chunk's encoding, followed by anything, reads back as that chunk, so with the
/// same length and checksum.
pub proof fn lemma_chunk_round_trip(c: ChunkView, rest: Seq<u8>)
    requires
        valid_tag(c.tag),
        c.data.len() <= u32::MAX,
    ensures
        decode_chunk(encode_chunk(c) + rest) == Ok::<ChunkView, PngError>(c),
        encoded_len(c) == encode_chunk(c).len(),
{
    reveal(decode_chunk);
    let b = encode_chunk(c) + rest;
    let len = c.data.len() as int;
    lemma_be32_round_trip(c.data.len() as u32);
    lemma_be32_round_trip(chunk_crc(c.tag, c.data));
    assert(b.subrange(0, 4) =~= be32(c.data.len() as u32));
    assert(b.subrange(4, 8) =~= c.tag);
    assert(b.subrange(8, 8 + len) =~= c.data);
    assert(b.subrange(8 + len, 12 + len) =~= be32(chunk_crc(c.tag, c.data)));
}

/// An encoded chunk whose data was altered while its stored checksum was kept is
/// refused with `CrcMismatch` whenever the checksum of the altered tag and data differs.
pub proof fn lemma_tampered_data_refused(c: ChunkView, altered: Seq<u8>)
    requires
        valid_tag(c.tag),
        c.data.len() <= u32::MAX,
        altered.len() == c.data.len(),
        chunk_crc(c.tag, altered) != chunk_crc(c.tag, c.data),
    ensures
        decode_chunk(
            be32(c.data.len() as u32) + c.tag + altered + be32(chunk_crc(c.tag, c.data)),
        ) == Err::<ChunkView, PngError>(PngError::CrcMismatch),
{
    reveal(decode_chunk);
    let b = be32(c.data.len() as u32) + c.tag + altered + be32(chunk_crc(c.tag, c.data));
    let len = c.data.len() as int;
    lemma_be32_round_trip(c.data.len() as u32);
    lemma_be32_round_trip(chunk_crc(c.tag, c.data));
    assert(b.subrange(0, 4) =~= be32(c.data.len() as u32));
    assert(b.subrange(4, 8) =~= c.tag);
    assert(b.subrange(8, 8 + len) =~= altered);
    assert(b.subrange(8 + len, 12 + len) =~= be32(chunk_crc(c.tag, c.data)));
}

/// A chunk that was read is the encoding of what came out, and nothing more.
proof fn lemma_decoded_chunk_encodes(b: Seq<u8>)
    requires
        decode_chunk(b) is Ok,
    ensures
        ({
            let c = decode_chunk(b)->Ok_0;
            &&& c.data.len() <= u32::MAX
            &&& encoded_len(c) <= b.len()
            &&& b.subrange(0, encoded_len(c)) == encode_chunk(c)
        }),
{
    reveal(decode_chunk);
    let c = decode_chunk(b)->Ok_0;
    let len = be32_value(b.subrange(0, 4)) as int;
    lemma_be32_of_value(b.subrange(0, 4));
    lemma_be32_of_value(b.subrange(8 + len, 12 + len));
    assert(c.data.len() == len);
    assert(b.subrange(0, 12 + len) =~= b.subrange(0, 4) + c.tag + c.data + b.subrange(
        8 + len,
        12 + len,
    ));
}

proof fn lemma_decoded_chunks_encode(b: Seq<u8>)
    requires
        decode_chunks(b) is Ok,
    ensures
        encode_chunks(decode_chunks(b)->Ok_0) == b,
    decreases b.len(),
{
    if b.len() == 0 {
        assert(decode_chunks(b)->Ok_0 =~= seq![]);
        assert(b =~= seq![]);
    } else {
        let c = decode_chunk(b)->Ok_0;
        lemma_decoded_chunk_encodes(b);
        let n = encoded_len(c);
        let rest = b.skip(n);
        lemma_decoded_chunks_encode(rest);
        let cs = decode_chunks(b)->Ok_0;
        let ts = decode_chunks(rest)->Ok_0;
        assert(cs == seq![c] + ts);
        assert(cs[0] == c);
        assert(cs.drop_first() =~= ts);
        assert(b =~= b.subrange(0, n) + rest);
    }
}

/// Reading a stream and writing out what came out gives the very same bytes.
pub proof fn lemma_parse_then_serialize(b: Seq<u8>)
    requires
        decode_png(b) is Ok,
    ensures
        encode_png(decode_png(b)->Ok_0) == b,
{
    assert(b.subrange(0, 8) == signature());
    lemma_decoded_chunks_encode(b.skip(8));
    assert(b =~= b.subrange(0, 8) + b.skip(8));
}

proof fn lemma_encode_chunks_push(cs: Seq<ChunkView>, c: ChunkView)
    ensures
        encode_chunks(cs.push(c)) == encode_chunks(cs) + encode_chunk(c),
    decreases cs.len(),
{
    if cs.len() == 0 {
        assert(cs.push(c).drop_first() =~= cs);
        assert(encode_chunks(cs.push(c)) =~= encode_chunks(cs) + encode_chunk(c));
    } else {
        assert(cs.push(c).drop_first() =~= cs.drop_first().push(c));
        lemma_encode_chunks_push(cs.drop_first(), c);
        assert(encode_chunks(cs.push(c)) =~= encode_chunks(cs) + encode_chunk(c));
    }
}

proof fn lemma_chunks_round_trip(cs: Seq<ChunkView>)
    requires
        all_encodable(cs),
    ensures
        decode_chunks(encode_chunks(cs)) == Ok::<Seq<ChunkView>, PngError>(cs),
    decreases cs.len(),
{
    if cs.len() == 0 {
        assert(cs =~= seq![]);
    } else {
        let c = cs[0];
        let tail = cs.drop_first();
        let rest = encode_chunks(tail);
        let b = encode_chunks(cs);
        assert(b == encode_chunk(c) + rest);
        assert(valid_tag(cs[0].tag));
        lemma_chunk_round_trip(c, rest);
        assert(b.skip(encoded_len(c)) =~= rest);
        assert(all_encodable(tail)) by {
            assert forall|i: int| 0 <= i < tail.len() implies valid_tag(#[trigger] tail[i].tag)
                && tail[i].data.len() <= u32::MAX by {
                assert(tail[i] == cs[i + 1]);
            }
        }
        lemma_chunks_round_trip(tail);
        assert(b.len() > 0);
        assert(decode_chunks(b) == prefix_with(seq![c], decode_chunks(rest)));
        assert(seq![c] + tail =~= cs);
    }
}

/// Encoding a sequence of chunks and reading the bytes back gives the same sequence,
/// provided each chunk has a valid tag and data that a 32-bit length can count.
pub proof fn lemma_round_trip(cs: Seq<ChunkView>)
    requires
        all_encodable(cs),
    ensures
        decode_png(encode_png(cs)) == Ok::<Seq<ChunkView>, PngError>(cs),
{
    let b = encode_png(cs);
    assert(b.subrange(0, 8) =~= signature());
    assert(b.skip(8) =~= encode_chunks(cs));
    lemma_chunks_round_trip(cs);
}

/// A PNG stream: the signature followed by an ordered sequence of chunks.
#[derive(Debug)]
pub struct Png {
    chunks: Vec<Chunk>,
}

/// The views of the given chunks, in order.
pub open spec fn views(cs: Seq<Chunk>) -> Seq<ChunkView> {
    cs.map_values(|c: Chunk| c@)
}

impl View for Png {
    type V = Seq<ChunkView>;

    closed spec fn view(&self) -> Seq<ChunkView> {
        views(self.chunks@)
    }
}

/// Whether the tag `t` has the bytes `want`.
fn tag_is(t: [u8; 4], want: &[u8]) -> (r: bool)
    requires
        want@.len() == 4,
    ensures
        r == (t@ == want@),
{
    let r = t[0] == want[0] && t[1] == want[1] && t[2] == want[2] && t[3] == want[3];
    proof {
        if r {
            assert(t@ =~= want@);
        }
    }
    r
}

impl Png {
    /// The signature bytes.
    pub const STANDARD_HEADER: [u8; 8] = [137, 80, 78, 71, 13, 10, 26, 10];

    /// A stream holding the given chunks, in order.
    pub fn from_chunks(chunks: Vec<Chunk>) -> (r: Png)
        ensures
            r@ == views(chunks@),
    {
        Png { chunks }
    }

    /// Adds a chunk at the end; chunks of the same type may repeat.
    pub fn append_chunk(&mut self, chunk: Chunk)
        ensures
            final(self)@ == old(self)@.push(chunk@),
    {
        self.chunks.push(chunk);
        assert(views(self.chunks@) =~= views(old(self).chunks@).push(chunk@));
    }

    /// The position of the first chunk whose tag has the bytes `want`.
    fn position(&self, want: &[u8]) -> (r: Option<usize>)
        ensures
            match r {
                Some(i) => is_first_of_type(self@, want@, i as int),
                None => !has_type(self@, want@),
            },
    {
        let ghost cs = self@;
        if want.len() != 4 {
            proof {
                assert forall|i: int| 0 <= i < cs.len() implies #[trigger] cs[i].tag != want@ by {
                    lemma_chunk_tag_len(self.chunks@[i]);
                }
            }
            return None;
        }
        let mut i: usize = 0;
        while i < self.chunks.len()
            invariant
                want@.len() == 4,
                cs == self@,
                i <= self.chunks@.len(),
                forall|j: int| 0 <= j < i ==> #[trigger] cs[j].tag != want@,
            decreases self.chunks@.len() - i,
        {
            let t = self.chunks[i].chunk_type().bytes();
            if tag_is(t, want) {
                return Some(i);
            }
            i = i + 1;
        }
        None
    }

    /// The first chunk whose tag spells `chunk_type`, if any.
    pub fn chunk_by_type(&self, chunk_type: &str) -> (r: Option<&Chunk>)
        ensures
            match r {
                Some(c) => has_type(self@, chunk_type.spec_bytes()) && c@ == self@[first_of_type(
                    self@,
                    chunk_type.spec_bytes(),
                )],
                None => !has_type(self@, chunk_type.spec_bytes()),
            },
    {
        let want = chunk_type.as_bytes();
        match self.position(want) {
            Some(i) => {
                proof {
                    lemma_first_of_type(self@, want@, i as int);
                }
                Some(&self.chunks[i])
            },
            None => None,
        }
    }

    /// Removes and returns the first chunk whose tag spells `chunk_type`; later
    /// chunks of that type stay. Without such a chunk the stream is left as it was.
    pub fn remove_first_chunk(&mut self, chunk_type: &str) -> (r: Result<Chunk, PngError>)
        ensures
            match r {
                Ok(c) => {
                    let i = first_of_type(old(self)@, chunk_type.spec_bytes());
                    &&& has_type(old(self)@, chunk_type.spec_bytes())
                    &&& c@ == old(self)@[i]
                    &&& final(self)@ == old(self)@.remove(i)
                },
                Err(e) => {
                    &&& !has_type(old(self)@, chunk_type.spec_bytes())
                    &&& e == PngError::ChunkNotFound
                    &&& final(self)@ == old(self)@
                },
            },
    {
        let want = chunk_type.as_bytes();
        match self.position(want) {
            Some(i) => {
                proof {
                    lemma_first_of_type(self@, want@, i as int);
                }
                let c = self.chunks.remove(i);
                assert(views(self.chunks@) =~= views(old(self).chunks@).remove(i as int));
                Ok(c)
            },
            None => Err(PngError::ChunkNotFound),
        }
    }

    /// The signature that opens every encoded stream.
    pub fn header(&self) -> (r: [u8; 8])
        ensures
            r@ == signature(),
    {
        let r = Png::STANDARD_HEADER;
        assert(r@ =~= signature());
        r
    }

    /// All chunks, in order.
    pub fn chunks(&self) -> (r: &[Chunk])
        ensures
            views(r@) == self@,
    {
        self.chunks.as_slice()
    }

    /// The encoded stream: the signature, then each chunk's encoding in order.
    pub fn as_bytes(&self) -> (r: Vec<u8>)
        ensures
            r@ == encode_png(self@),
    {
        let ghost cs = self@;
        let header = self.header();
        let mut out: Vec<u8> = Vec::new();
        let mut k: usize = 0;
        while k < 8
            invariant
                k <= 8,
                header@ == signature(),
                out@ == signature().subrange(0, k as int),
            decreases 8 - k,
        {
            out.push(header[k]);
            k = k + 1;
            assert(out@ =~= signature().subrange(0, k as int));
        }
        assert(encode_chunks(cs.take(0)) =~= seq![]) by {
            assert(cs.take(0) =~= seq![]);
        }
        assert(out@ =~= signature() + encode_chunks(cs.take(0)));
        let mut i: usize = 0;
        while i < self.chunks.len()
            invariant
                cs == self@,
                i <= self.chunks@.len(),
                out@ == signature() + encode_chunks(cs.take(i as int)),
            decreases self.chunks@.len() - i,
        {
            let bytes = self.chunks[i].as_bytes();
            let ghost before = out@;
            crate::chunk::extend(&mut out, bytes.as_slice());
            proof {
                assert(cs.take(i + 1) =~= cs.take(i as int).push(cs[i as int]));
                lemma_encode_chunks_push(cs.take(i as int), cs[i as int]);
                assert(out@ =~= signature() + encode_chunks(cs.take(i + 1)));
            }
            i = i + 1;
        }
        assert(cs.take(cs.len() as int) =~= cs);
        out
    }
}

impl<'a> TryFrom<&'a [u8]> for Png {
    type Error = PngError;

    /// Reads a whole stream: the signature, then chunks until the buffer is used up.
    fn try_from(bytes: &'a [u8]) -> (r: Result<Png, PngError>)
        ensures
            match r {
                Ok(p) => decode_png(bytes@) == Ok::<Seq<ChunkView>, PngError>(p@),
                Err(e) => decode_png(bytes@) == Err::<Seq<ChunkView>, PngError>(e),
            },
    {
        let ghost b = bytes@;
        if bytes.len() < 8 {
            return Err(PngError::BadSignature);
        }
        let header = Png::STANDARD_HEADER;
        assert(header@ =~= signature());
        let mut k: usize = 0;
        while k < 8
            invariant
                k <= 8 <= b.len(),
                b == bytes@,
                header@ == signature(),
                b.subrange(0, k as int) == signature().subrange(0, k as int),
            decreases 8 - k,
        {
            if bytes[k] != header[k] {
                assert(b.subrange(0, 8)[k as int] != signature()[k as int]);
                return Err(PngError::BadSignature);
            }
            k = k + 1;
            assert(b.subrange(0, k as int) =~= signature().subrange(0, k as int));
        }
        assert(b.subrange(0, 8) =~= signature());
        let mut chunks: Vec<Chunk> = Vec::new();
        let mut pos: usize = 8;
        assert(views(chunks@) =~= seq![]);
        assert(prefix_with(seq![], decode_chunks(b.skip(8))) == decode_chunks(b.skip(8))) by {
            match decode_chunks(b.skip(8)) {
                Ok(t) => {
                    assert(seq![] + t =~= t);
                },
                Err(_) => {},
            }
        }
        while pos < bytes.len()
            invariant
                b == bytes@,
                8 <= pos <= b.len(),
                b.subrange(0, 8) == signature(),
                decode_chunks(b.skip(8)) == prefix_with(views(chunks@), decode_chunks(b.skip(pos as int))),
            decreases b.len() - pos,
        {
            let ghost rest = b.skip(pos as int);
            let c = match parse_at(bytes, pos) {
                Ok(c) => c,
                Err(e) => {
                    assert(decode_chunks(rest) == Err::<Seq<ChunkView>, PngError>(e));
                    return Err(e);
                },
            };
            let n = c.length() as usize;
            proof {
                lemma_decoded_chunk_encodes(rest);
            }
            assert(rest.len() >= 12 + n);
            let ghost next = pos + 12 + n;
            proof {
                assert(rest.skip(encoded_len(c@)) =~= b.skip(next));
                let tail = decode_chunks(b.skip(next));
                assert(decode_chunks(rest) == prefix_with(seq![c@], tail));
                assert(views(chunks@.push(c)) =~= views(chunks@).push(c@));
                match tail {
                    Ok(t) => {
                        assert(views(chunks@) + (seq![c@] + t) =~= views(chunks@).push(c@) + t);
                    },
                    Err(_) => {},
                }
            }
            chunks.push(c);
            pos = pos + 12 + n;
        }
        proof {
            assert(b.skip(pos as int) =~= seq![]);
            assert(views(chunks@) + seq![] =~= views(chunks@));
        }
        Ok(Png { chunks })
    }
}

impl<'a> vstd::std_specs::convert::TryFromSpecImpl<&'a [u8]> for Png {
    /// The contract of `try_from` above says what it returns.
    open spec fn obeys_try_from_spec() -> bool {
        false
    }

    closed spec fn try_from_spec(bytes: &'a [u8]) -> Result<Png, PngError> {
        Err(PngError::BadSignature)
    }
}

} // verus!
