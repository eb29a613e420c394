use vstd::prelude::*;

verus! {

#[verifier::external_type_specification]
#[verifier::external_body]
pub struct ExIoError(std::io::Error);

#[verifier::external_type_specification]
#[verifier::external_body]
pub struct ExUtf8Error(std::str::Utf8Error);

#[verifier::external_type_specification]
#[verifier::external_body]
pub struct ExEncodingError(png::EncodingError);

#[verifier::external_type_specification]
#[verifier::external_body]
pub struct ExDecodingError(png::DecodingError);

#[verifier::external_type_specification]
#[verifier::external_body]
pub struct ExJsonError(serde_json::Error);

#[verifier::external_type_specification]
#[verifier::external_body]
pub struct ExRegexError(regex::Error);

/// Everything that can go wrong while building a catalog, generating items
/// or rewriting their metadata.
#[derive(Debug)]
pub enum NftgenError {
    IO(std::io::Error),
    Encode(png::EncodingError),
    Decode(png::DecodingError),
    JsonEncode(serde_json::Error),
    InvalidUtf8(std::str::Utf8Error),
    Regex(regex::Error),
    /// A layer file whose name has no stem.
    InvalidFilename(String),
    /// A layer directory whose path has no final component.
    InvalidLayerPath(String),
    /// A layer directory that the declared order does not name.
    UnknownLayer(String),
    /// Two layer directories of one name, which would share a place in the order.
    DuplicateLayer(String),
    /// Layers of one item whose sizes or pixel formats differ, or no layer at all.
    LayerMismatch,
    /// An image whose 8-bit RGBA buffer would not fit in memory's address range.
    ImageTooLarge,
    /// An archive larger than the upload service takes.
    CarTooLarge(String),
    /// Output of the content-addressing tool that could not be read.
    IpfsCommandError(String),
}

} // verus!
