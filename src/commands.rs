use vstd::prelude::*;
use vstd::string::StringSliceAdditionalSpecFns;
use vstd::utf8::{decode_utf8, valid_utf8};

use crate::chunk::{extend, Chunk, ChunkView};
use crate::chunk_type::{all_alpha, ChunkType};
use crate::error::PngError;
use crate::png::{first_of_type, has_type, Png};

verus! {

/// Stores `message` in a new chunk tagged `chunk_type` at the end of the stream.
/// A tag that is not four ASCII letters is refused and the stream is left as it was.
pub fn encode(png: &mut Png, chunk_type: &str, message: &str) -> (r: Result<(), PngError>)
    requires
        message.spec_bytes().len() <= u32::MAX,
    ensures
        match r {
            Ok(()) => {
                &&& chunk_type.spec_bytes().len() == 4
                &&& all_alpha(chunk_type.spec_bytes())
                &&& final(png)@ == old(png)@.push(
                    ChunkView { tag: chunk_type.spec_bytes(), data: message.spec_bytes() },
                )
            },
            Err(e) => {
                &&& !(chunk_type.spec_bytes().len() == 4 && all_alpha(chunk_type.spec_bytes()))
                &&& e == PngError::InvalidChunkType
                &&& final(png)@ == old(png)@
            },
        },
{
    let tag = match <ChunkType as std::str::FromStr>::from_str(chunk_type) {
        Ok(t) => t,
        Err(e) => {
            return Err(e);
        },
    };
    let mut data: Vec<u8> = Vec::new();
    extend(&mut data, message.as_bytes());
    assert(data@ =~= message.spec_bytes());
    png.append_chunk(Chunk::new(tag, data));
    Ok(())
}

/// The text held by the first chunk tagged `chunk_type`.
pub fn decode(png: &Png, chunk_type: &str) -> (r: Result<String, PngError>)
    ensures
        ({
            let s = chunk_type.spec_bytes();
            let data = png@[first_of_type(png@, s)].data;
            match r {
                Ok(text) => has_type(png@, s) && valid_utf8(data) && text@ == decode_utf8(data),
                Err(e) => if has_type(png@, s) {
                    !valid_utf8(data) && e == PngError::InvalidUtf8
                } else {
                    e == PngError::ChunkNotFound
                },
            }
        }),
{
    match png.chunk_by_type(chunk_type) {
        Some(c) => c.data_as_string(),
        None => Err(PngError::ChunkNotFound),
    }
}

/// Removes the first chunk tagged `chunk_type`; without one, the stream is left as it was.
pub fn remove(png: &mut Png, chunk_type: &str) -> (r: Result<(), PngError>)
    ensures
        ({
            let s = chunk_type.spec_bytes();
            match r {
                Ok(()) => has_type(old(png)@, s) && final(png)@ == old(png)@.remove(
                    first_of_type(old(png)@, s),
                ),
                Err(e) => !has_type(old(png)@, s) && e == PngError::ChunkNotFound && final(png)@
                    == old(png)@,
            }
        }),
{
    match png.remove_first_chunk(chunk_type) {
        Ok(_) => Ok(()),
        Err(e) => Err(e),
    }
}

} // verus!
