use crate::chunk::{copy_range, new_chunk_model, Chunk};
use crate::chunk_type::{readable_code_bytes, readable_code_ok, ChunkType};
use crate::error::FormatError;
use crate::png::{chunks_bytes, has_match, is_first_match, parse_png, signature, Png};
use vstd::prelude::*;
use vstd::string::*;
use vstd::utf8::{decode_utf8, valid_utf8};

verus! {

/// The container in `file` with a chunk of type `chunk_type` holding
/// `message` appended, as bytes.
pub fn encode(file: &[u8], chunk_type: &str, message: &str) -> (r: Result<Vec<u8>, FormatError>)
    requires
        message.spec_bytes().len() <= u32::MAX,
    ensures
        parse_png(file@) is Err ==> r == Err::<Vec<u8>, FormatError>(parse_png(file@)->Err_0),
        parse_png(file@) is Ok && !readable_code_ok(chunk_type@) ==> r == Err::<
            Vec<u8>,
            FormatError,
        >(FormatError::InvalidTypeCode),
        parse_png(file@) is Ok && readable_code_ok(chunk_type@) ==> r is Ok && r->Ok_0@
            == signature() + chunks_bytes(
            parse_png(file@)->Ok_0.push(
                new_chunk_model(readable_code_bytes(chunk_type@), message.spec_bytes()),
            ),
        ),
{
    let mut png = match Png::parse(file) {
        Ok(p) => p,
        Err(e) => {
            return Err(e);
        },
    };
    let code = match ChunkType::from_readable_string(chunk_type) {
        Ok(c) => c,
        Err(e) => {
            return Err(e);
        },
    };
    let text = message.as_bytes();
    let mut data: Vec<u8> = Vec::new();
    copy_range(text, 0, text.len(), &mut data);
    assert(text@.subrange(0, text@.len() as int) == text@);
    let chunk = Chunk::new(code, data);
    png.append_chunk(chunk);
    Ok(png.as_bytes())
}

/// The text of the first chunk of type `chunk_type` in the container in `file`.
pub fn decode(file: &[u8], chunk_type: &str) -> (r: Result<String, FormatError>)
    ensures
        parse_png(file@) is Err ==> r == Err::<String, FormatError>(parse_png(file@)->Err_0),
        parse_png(file@) is Ok && !readable_code_ok(chunk_type@) ==> r == Err::<
            String,
            FormatError,
        >(FormatError::InvalidTypeCode),
        parse_png(file@) is Ok && readable_code_ok(chunk_type@) && !has_match(
            parse_png(file@)->Ok_0,
            chunk_type@,
        ) ==> r == Err::<String, FormatError>(FormatError::ChunkNotFound),
        parse_png(file@) is Ok && readable_code_ok(chunk_type@) ==> forall|i: int|
            #![trigger parse_png(file@)->Ok_0[i]]
            is_first_match(parse_png(file@)->Ok_0, chunk_type@, i) ==> {
                let data = parse_png(file@)->Ok_0[i].data;
                &&& valid_utf8(data) ==> r is Ok && r->Ok_0@ == decode_utf8(data)
                &&& !valid_utf8(data) ==> r == Err::<String, FormatError>(FormatError::InvalidUtf8)
            },
{
    let png = match Png::parse(file) {
        Ok(p) => p,
        Err(e) => {
            return Err(e);
        },
    };
    if let Err(e) = ChunkType::from_readable_string(chunk_type) {
        return Err(e);
    }
    match png.find_chunk_by_type(chunk_type) {
        Some(c) => c.data_as_string(),
        None => Err(FormatError::ChunkNotFound),
    }
}

/// The container in `file` without its first chunk of type `chunk_type`, as bytes.
pub fn remove(file: &[u8], chunk_type: &str) -> (r: Result<Vec<u8>, FormatError>)
    ensures
        parse_png(file@) is Err ==> r == Err::<Vec<u8>, FormatError>(parse_png(file@)->Err_0),
        parse_png(file@) is Ok && !readable_code_ok(chunk_type@) ==> r == Err::<
            Vec<u8>,
            FormatError,
        >(FormatError::InvalidTypeCode),
        parse_png(file@) is Ok && readable_code_ok(chunk_type@) && !has_match(
            parse_png(file@)->Ok_0,
            chunk_type@,
        ) ==> r == Err::<Vec<u8>, FormatError>(FormatError::ChunkNotFound),
        parse_png(file@) is Ok && readable_code_ok(chunk_type@) ==> forall|i: int|
            #![trigger parse_png(file@)->Ok_0[i]]
            is_first_match(parse_png(file@)->Ok_0, chunk_type@, i) ==> r is Ok && r->Ok_0@
                == signature() + chunks_bytes(parse_png(file@)->Ok_0.remove(i)),
{
    let mut png = match Png::parse(file) {
        Ok(p) => p,
        Err(e) => {
            return Err(e);
        },
    };
    if let Err(e) = ChunkType::from_readable_string(chunk_type) {
        return Err(e);
    }
    match png.remove_first_chunk_by_type(chunk_type) {
        Ok(_) => Ok(png.as_bytes()),
        Err(e) => Err(e),
    }
}

} // verus!
