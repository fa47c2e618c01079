//! The upload protocol of the chat server: a file is announced with its
//! media type and name, sent in chunks, and then posted by the path the
//! server gives back.
use vstd::prelude::*;

verus! {

/// Files are sent in chunks of this many bytes.
pub const CHUNK_SIZE: usize = 204800;

/// The announcement of a file about to be uploaded.
pub struct PrepareUpload {
    pub content_type: String,
    pub filename: String,
}

/// Width and height of an uploaded image.
pub struct ImageProperties {
    pub width: i64,
    pub height: i64,
}

/// What the server answers to the last chunk of an upload.
pub struct UploadResponse {
    pub path: String,
    pub size: i64,
    pub hash: String,
    pub image_properties: Option<ImageProperties>,
}

/// The media type that mime_guess gives a file name.
pub uninterp spec fn guessed_mime(file_name: Seq<char>) -> Seq<char>;

/// Relies on `mime_guess::from_path(..).first_or_octet_stream()`: the
/// media type registered for the name's extension, from a fixed table, or
/// `application/octet-stream`.
#[verifier::external_body]
fn guess_mime(file_name: &str) -> (r: String)
    ensures
        r@ == guessed_mime(file_name@),
{
    mime_guess::from_path(file_name).first_or_octet_stream().to_string()
}

/// The announcement for a file of this name.
pub fn prepare_upload(file_name: &str) -> (r: PrepareUpload)
    ensures
        r.content_type@ == guessed_mime(file_name@),
        r.filename@ == file_name@,
{
    PrepareUpload { content_type: guess_mime(file_name), filename: file_name.to_owned() }
}

/// Whether a chunk of `len` bytes read at `offset` ends a file of `size`
/// bytes.
pub fn chunk_is_last(offset: usize, len: usize, size: usize) -> (r: bool)
    ensures
        r == (offset + len >= size),
{
    len >= size || offset >= size - len
}

} // verus!
