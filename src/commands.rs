//! The decisions behind each command: given the command and the bytes of the
//! file it names, what to write back or report.
use vstd::prelude::*;
use vstd::utf8::{
    decode_utf8, encode_utf8, encode_utf8_decode_utf8, encode_utf8_valid_utf8, valid_utf8,
};
use crate::bytes::extend_bytes;
use crate::chunk::{new_chunk_view, Chunk, ChunkView};
use crate::chunk_type::{is_type_code, ChunkType};
use crate::error::PngError;
use crate::png::{
    chunks_bytes, first_of_type, lemma_append_then_remove, lemma_png_parse_of_serialized, parse_png,
    png_signature, Png,
};

verus! {

/// Hide a message in a new chunk at the end of a PNG file.
#[derive(Debug)]
pub struct EncodeCommand {
    pub file_path: String,
    pub chunk_type: String,
    pub message: String,
    /// Where to write the result; the input file where absent.
    pub output_file: Option<String>,
}

/// Read the message of the first chunk of a type.
#[derive(Debug)]
pub struct DecodeCommand {
    pub file_path: String,
    pub chunk_type: String,
}

/// Remove the first chunk of a type.
#[derive(Debug)]
pub struct RemoveCommand {
    pub file_path: String,
    pub chunk_type: String,
}

/// List the chunks of a PNG file.
#[derive(Debug)]
pub struct PrintCommand {
    pub file_path: String,
}

/// The command to carry out.
#[derive(Debug)]
pub enum Feature {
    Encode(EncodeCommand),
    Decode(DecodeCommand),
    Remove(RemoveCommand),
    Print(PrintCommand),
}

/// The arguments of the program.
#[derive(Debug)]
pub struct PngmeArgs {
    pub feature: Feature,
}

/// What is left to do once a command has been decided.
pub enum Outcome {
    /// Write `bytes` to the file at `path`.
    Write { path: String, bytes: Vec<u8> },
    /// The decoded message, or `None` where no chunk has the type.
    Message(Option<String>),
    /// A chunk was removed: write `bytes` back to the file at `path`.
    Removed { path: String, bytes: Vec<u8> },
    /// The stream whose chunks are to be listed.
    Listing(Png),
}

/// Whether an encode command's message fits in one chunk.
pub open spec fn message_fits(args: PngmeArgs) -> bool {
    args.feature matches Feature::Encode(e) ==> encode_utf8(e.message@).len() <= u32::MAX
}

/// Carries out the command on `file_bytes`, the contents of the file that it
/// names, and says what to write or report.
pub fn run(args: PngmeArgs, file_bytes: &[u8]) -> (r: Result<Outcome, PngError>)
    requires
        message_fits(args),
    ensures
        match args.feature {
            Feature::Encode(e) => match parse_png(file_bytes@) {
                Err(err) => r == Err::<Outcome, PngError>(err),
                Ok(cs) => if !is_type_code(encode_utf8(e.chunk_type@)) {
                    r == Err::<Outcome, PngError>(PngError::InvalidTypeCode)
                } else {
                    r matches Ok(Outcome::Write { path, bytes }) && path@ == (match e.output_file {
                        Some(o) => o@,
                        None => e.file_path@,
                    }) && bytes@ == png_signature() + chunks_bytes(
                        cs.push(
                            new_chunk_view(encode_utf8(e.chunk_type@), encode_utf8(e.message@)),
                        ),
                    )
                },
            },
            Feature::Decode(d) => match parse_png(file_bytes@) {
                Err(err) => r == Err::<Outcome, PngError>(err),
                Ok(cs) => match first_of_type(cs, encode_utf8(d.chunk_type@)) {
                    None => r matches Ok(Outcome::Message(None)),
                    Some(i) => if valid_utf8(cs[i].data) {
                        r matches Ok(Outcome::Message(Some(s))) && s@ == decode_utf8(cs[i].data)
                    } else {
                        r == Err::<Outcome, PngError>(PngError::InvalidUtf8)
                    },
                },
            },
            Feature::Remove(m) => match parse_png(file_bytes@) {
                Err(err) => r == Err::<Outcome, PngError>(err),
                Ok(cs) => match first_of_type(cs, encode_utf8(m.chunk_type@)) {
                    None => r == Err::<Outcome, PngError>(PngError::ChunkNotFound),
                    Some(i) => r matches Ok(Outcome::Removed { path, bytes }) && path@
                        == m.file_path@ && bytes@ == png_signature() + chunks_bytes(cs.remove(i)),
                },
            },
            Feature::Print(_) => match parse_png(file_bytes@) {
                Err(err) => r == Err::<Outcome, PngError>(err),
                Ok(cs) => r matches Ok(Outcome::Listing(p)) && p@ == cs,
            },
        },
{
    match args.feature {
        Feature::Encode(e) => {
            let mut png = Png::try_from(file_bytes)?;
            let chunk_type = match ChunkType::from_str(e.chunk_type.as_str()) {
                Ok(t) => t,
                Err(_) => {
                    return Err(PngError::InvalidTypeCode);
                },
            };
            let mut message: Vec<u8> = Vec::new();
            extend_bytes(&mut message, e.message.as_str().as_bytes());
            png.append_chunk(Chunk::new(chunk_type, message));
            let path = match e.output_file {
                Some(o) => o,
                None => e.file_path,
            };
            Ok(Outcome::Write { path, bytes: png.as_bytes() })
        },
        Feature::Decode(d) => {
            let png = Png::try_from(file_bytes)?;
            match png.chunk_by_type(d.chunk_type.as_str()) {
                Some(c) => Ok(Outcome::Message(Some(c.data_as_string()?))),
                None => Ok(Outcome::Message(None)),
            }
        },
        Feature::Remove(m) => {
            let mut png = Png::try_from(file_bytes)?;
            match png.remove_first_chunk(m.chunk_type.as_str()) {
                Ok(_) => Ok(Outcome::Removed { path: m.file_path, bytes: png.as_bytes() }),
                Err(e) => Err(e),
            }
        },
        Feature::Print(_) => {
            let png = Png::try_from(file_bytes)?;
            Ok(Outcome::Listing(png))
        },
    }
}

/// A message encoded into a stream of well-formed chunks, none of which has
/// the message's type yet, is what decoding that type from the written bytes
/// gives back: the bytes parse to the old chunks and the new one, the new
/// chunk is the first of its type, and its data is valid UTF-8 that decodes
/// to the message.
pub proof fn lemma_encode_then_decode(cs: Seq<ChunkView>, chunk_type: Seq<char>, message: Seq<char>)
    requires
        forall|i: int| 0 <= i < cs.len() ==> (#[trigger] cs[i]).wf(),
        is_type_code(encode_utf8(chunk_type)),
        encode_utf8(message).len() <= u32::MAX,
        forall|i: int| 0 <= i < cs.len() ==> (#[trigger] cs[i]).chunk_type != encode_utf8(chunk_type),
    ensures
        ({
            let c = new_chunk_view(encode_utf8(chunk_type), encode_utf8(message));
            let written = cs.push(c);
            &&& parse_png(png_signature() + chunks_bytes(written)) == Ok::<
                Seq<ChunkView>,
                PngError,
            >(written)
            &&& first_of_type(written, encode_utf8(chunk_type)) == Some(cs.len() as int)
            &&& valid_utf8(written[cs.len() as int].data)
            &&& decode_utf8(written[cs.len() as int].data) == message
        }),
{
    let c = new_chunk_view(encode_utf8(chunk_type), encode_utf8(message));
    let written = cs.push(c);
    assert forall|i: int| 0 <= i < written.len() implies (#[trigger] written[i]).wf() by {
        if i < cs.len() {
            assert(written[i] == cs[i]);
        }
    }
    lemma_png_parse_of_serialized(written);
    lemma_append_then_remove(cs, c);
    encode_utf8_valid_utf8(message);
    encode_utf8_decode_utf8(message);
}

} // verus!
