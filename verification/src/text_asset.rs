use vstd::prelude::*;
use vstd::utf8::{decode_utf8, valid_utf8};

verus! {

/// Why an asset file could not be loaded.
#[derive(Clone, Copy, Debug, PartialEq, Eq, Structural)]
pub enum AssetLoadError {
    /// The file's bytes are not UTF-8 text.
    InvalidUtf8,
}

/// A simple asset that contains the text contents of a file.
pub struct StringAsset {
    pub contents: String,
}

impl StringAsset {
    pub fn new(contents: String) -> (r: StringAsset)
        ensures
            r.contents == contents,
    {
        StringAsset { contents }
    }
}

/// Loads text files (`.txt`, `.mat`, `.toml`, ...) as `StringAsset`s.
pub struct StringAssetLoader;

/// Loads `.scene` files.
pub struct SceneAssetLoader;

/// Calls `String::from_utf8`, which accepts exactly the byte sequences that
/// are UTF-8 and then holds the text they encode.
#[verifier::external_body]
fn utf8_to_string(bytes: Vec<u8>) -> (r: Option<String>)
    ensures
        r is Some <==> valid_utf8(bytes@),
        r matches Some(s) ==> s@ == decode_utf8(bytes@),
{
    String::from_utf8(bytes).ok()
}

/// The text of a file's bytes; an error when they are not UTF-8.
pub fn text_from_bytes(bytes: Vec<u8>) -> (r: Result<String, AssetLoadError>)
    ensures
        r is Ok <==> valid_utf8(bytes@),
        r matches Ok(s) ==> s@ == decode_utf8(bytes@),
        r matches Err(e) ==> e == AssetLoadError::InvalidUtf8,
{
    match utf8_to_string(bytes) {
        Some(s) => Ok(s),
        None => Err(AssetLoadError::InvalidUtf8),
    }
}

impl StringAssetLoader {
    /// The asset built from a file's bytes: its text, or an error when the
    /// bytes are not UTF-8.
    pub fn load_bytes(&self, bytes: Vec<u8>) -> (r: Result<StringAsset, AssetLoadError>)
        ensures
            r is Ok <==> valid_utf8(bytes@),
            r matches Ok(a) ==> a.contents@ == decode_utf8(bytes@),
            r matches Err(e) ==> e == AssetLoadError::InvalidUtf8,
    {
        match text_from_bytes(bytes) {
            Ok(contents) => Ok(StringAsset { contents }),
            Err(e) => Err(e),
        }
    }

    /// The file extensions this loader reads (`.scene` files are left to
    /// `SceneAssetLoader`).
    pub fn extensions(&self) -> (r: Vec<&'static str>)
        ensures
            r@.len() == 7,
            r@[0]@ == "txt"@,
            r@[1]@ == "mat"@,
            r@[2]@ == "toml"@,
            r@[3]@ == "json"@,
            r@[4]@ == "xml"@,
            r@[5]@ == "md"@,
            r@[6]@ == "ron"@,
    {
        vec!["txt", "mat", "toml", "json", "xml", "md", "ron"]
    }
}

impl SceneAssetLoader {
    /// The file extensions this loader reads.
    pub fn extensions(&self) -> (r: Vec<&'static str>)
        ensures
            r@.len() == 1,
            r@[0]@ == "scene"@,
    {
        vec!["scene"]
    }
}

} // verus!
