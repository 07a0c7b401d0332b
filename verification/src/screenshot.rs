//! Screenshots as data: PNG files as data URLs, the base64 text a capture
//! script prints, and the default place of saved screenshots.

use vstd::prelude::*;
use base64::Engine;
use std::path::PathBuf;
use crate::clock::now_ms;
use crate::image::{decimal, decimal_string};
use crate::text::{trimmed, trim_string};

verus! {

#[verifier::external_type_specification]
#[verifier::external_body]
pub struct ExPathBuf(PathBuf);

/// The standard base64 text (RFC 4648 alphabet, padded) of some bytes.
pub uninterp spec fn base64_standard(bytes: Seq<u8>) -> Seq<char>;

/// The bytes of a standard base64 text, or the decoder's error message.
pub uninterp spec fn base64_standard_decoded(text: Seq<char>) -> Result<Seq<u8>, Seq<char>>;

/// `base64::engine::general_purpose::STANDARD.encode`.
#[verifier::external_body]
fn encode_base64(bytes: &Vec<u8>) -> (r: String)
    ensures
        r@ == base64_standard(bytes@),
{
    base64::engine::general_purpose::STANDARD.encode(bytes)
}

/// `base64::engine::general_purpose::STANDARD.decode`; its error becomes
/// its message.
#[verifier::external_body]
fn decode_base64(text: &str) -> (r: Result<Vec<u8>, String>)
    ensures
        match r {
            Ok(bytes) => base64_standard_decoded(text@) == Ok::<Seq<u8>, Seq<char>>(bytes@),
            Err(message) => base64_standard_decoded(text@) == Err::<Seq<u8>, Seq<char>>(message@),
        },
{
    match base64::engine::general_purpose::STANDARD.decode(text) {
        Ok(bytes) => Ok(bytes),
        Err(error) => Err(error.to_string()),
    }
}

/// A PNG file as a `data:` URL for a vision model.
pub fn png_data_url(png: &Vec<u8>) -> (r: String)
    ensures
        r@ == "data:image/png;base64,"@ + base64_standard(png@),
{
    let mut url = String::new();
    url.push_str("data:image/png;base64,");
    url.push_str(encode_base64(png).as_str());
    url
}

/// The PNG bytes of a capture script's output: the output is trimmed and
/// decoded from base64; a decoding error is reported as
/// "Base64 decode error: {error}".
pub fn screenshot_from_base64(output: &str) -> (r: Result<Vec<u8>, String>)
    ensures
        match base64_standard_decoded(trimmed(output@)) {
            Ok(bytes) => r matches Ok(b) && b@ == bytes,
            Err(message) => r matches Err(m) && m@ == "Base64 decode error: "@ + message,
        },
{
    let text = trim_string(output);
    match decode_base64(text.as_str()) {
        Ok(bytes) => Ok(bytes),
        Err(message) => {
            let mut full = String::new();
            full.push_str("Base64 decode error: ");
            full.push_str(message.as_str());
            Err(full)
        },
    }
}

/// The folder where screenshots are saved when no path is given.
pub const DEFAULT_DIR: &'static str = "C:\\Users\\volge\\Desktop\\папака";

/// The file name of a screenshot: `{prefix}_{millis}.png`.
pub fn screenshot_file_name(prefix: &str, millis: u128) -> (r: String)
    ensures
        r@ == prefix@ + "_"@ + decimal(millis as nat) + ".png"@,
{
    let mut name = String::new();
    name.push_str(prefix);
    name.push_str("_");
    name.push_str(decimal_string(millis).as_str());
    name.push_str(".png");
    name
}

/// The path of `file` inside `folder`, as `PathBuf::push` joins them on
/// the platform the library is built for.
pub uninterp spec fn path_joined(folder: Seq<char>, file: Seq<char>) -> PathBuf;

/// `PathBuf::from(folder)` with `push(file)`: the file inside the folder.
/// The result is a function of the two texts alone.
#[verifier::external_body]
fn path_in_dir(folder: &str, file: &str) -> (r: PathBuf)
    ensures
        r == path_joined(folder@, file@),
{
    let mut path = PathBuf::from(folder);
    path.push(file);
    path
}

/// Where a screenshot is saved when no path is given: a file named after
/// the prefix and the current time in the default folder.
pub fn default_path(prefix: &str) -> (r: PathBuf)
    ensures
        exists|millis: u128| r == path_joined(DEFAULT_DIR@, prefix@ + "_"@ + decimal(millis as nat) + ".png"@),
{
    let millis = now_ms();
    let name = screenshot_file_name(prefix, millis);
    let r = path_in_dir(DEFAULT_DIR, name.as_str());
    assert(r == path_joined(DEFAULT_DIR@, prefix@ + "_"@ + decimal(millis as nat) + ".png"@));
    r
}

} // verus!
