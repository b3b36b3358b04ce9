//! The "describe this image" feature: its settings, the results handed back
//! by the background requests, and the pure parts of building a request.

use vstd::prelude::*;
use base64::Engine;
use crate::text::{chars_of, decimal, decimal_chars, push_all, string_of, trim, trimmed};
use crate::picture::{image_error_text, png, png_of, thumbnail, thumbnail_of, Picture, Raster};

verus! {

/// Settings controlling the AI describe feature. Defaults disable it.
#[derive(Debug, Clone)]
pub struct AiConfig {
    pub enabled: bool,
    pub base_url: String,
    pub model: String,
}

/// Completed describe job handed back to the main thread: the image path and
/// either the reply text or an error message.
#[derive(Debug)]
pub struct DescribeDone {
    pub path: String,
    pub result: Result<String, String>,
}


/// Environment variable that holds the gateway bearer token.
pub const TOKEN_ENV: &'static str = "SWIFTROUTER_API_KEY";

/// Upper bound on the completion length.
pub const MAX_TOKENS: u32 = 400;

/// Timeout of the gateway round trip, in seconds.
pub const HTTP_TIMEOUT_SECS: u64 = 30;

/// Longest side (pixels) of an image sent for description.
pub const MAX_UPLOAD_DIM: u32 = 1024;

/// System prompt used for every describe call.
pub const SYSTEM_PROMPT: &'static str = "You are describing images for a terminal image-viewer user. Write 2-4 short plain-prose sentences covering what's in the image, any notable text, and mood or style. Be concrete. No markdown, no bullet lists, no preamble.";

/// The user message sent with the image.
pub const USER_PROMPT: &'static str = "Describe this image.";

/// The default gateway.
pub const DEFAULT_BASE_URL: &'static str = "https://api.swiftrouter.com/v1";

/// The default model.
pub const DEFAULT_MODEL: &'static str = "gpt-5.4-mini";

impl Default for AiConfig {
    fn default() -> (c: Self)
        ensures
            !c.enabled,
            c.base_url@ == DEFAULT_BASE_URL@,
            c.model@ == DEFAULT_MODEL@,
    {
        AiConfig {
            enabled: false,
            base_url: string_of(chars_of(DEFAULT_BASE_URL).as_slice()),
            model: string_of(chars_of(DEFAULT_MODEL).as_slice()),
        }
    }
}

/// The feature is on when the user enabled it and a token is known.
pub fn ai_available(cfg: &AiConfig, token: &Option<String>) -> (r: bool)
    ensures
        r == (cfg.enabled && token is Some),
{
    cfg.enabled && token.is_some()
}

/// `s` without trailing `/` characters (`str::trim_end_matches('/')`).
pub open spec fn strip_slashes(s: Seq<char>) -> Seq<char>
    decreases s.len(),
{
    if s.len() > 0 && s.last() == '/' {
        strip_slashes(s.drop_last())
    } else {
        s
    }
}

/// The chat-completions endpoint under `base_url`.
pub open spec fn chat_url_spec(base_url: Seq<char>) -> Seq<char> {
    strip_slashes(base_url) + "/chat/completions"@
}

/// The chat-completions endpoint under `base_url`, however many slashes it ends with.
pub fn chat_completions_url(base_url: &str) -> (r: String)
    ensures
        r@ == chat_url_spec(base_url@),
{
    let mut cs = chars_of(base_url);
    while cs.len() > 0 && cs[cs.len() - 1] == '/'
        invariant
            strip_slashes(cs@) == strip_slashes(base_url@),
        decreases cs@.len(),
    {
        let ghost before = cs@;
        cs.pop();
        assert(cs@ =~= before.drop_last());
    }
    push_all(&mut cs, chars_of("/chat/completions").as_slice());
    string_of(cs.as_slice())
}

/// What `base64::engine::general_purpose::STANDARD.encode` returns for some bytes.
pub uninterp spec fn base64_of(bytes: Seq<u8>) -> Seq<char>;

/// Calls `STANDARD.encode` (RFC 4648 alphabet, padded: four characters per
/// started group of three bytes).
#[verifier::external_body]
fn base64_standard(bytes: &[u8]) -> (r: String)
    ensures
        r@ == base64_of(bytes@),
        r@.len() == 4 * ((bytes@.len() + 2) / 3),
{
    base64::engine::general_purpose::STANDARD.encode(bytes)
}

/// The `data:` URL of PNG bytes.
pub open spec fn png_data_url(png: Seq<u8>) -> Seq<char> {
    "data:image/png;base64,"@ + base64_of(png)
}

/// The `data:` URL a PNG is uploaded as.
pub fn data_url(png: &[u8]) -> (r: String)
    ensures
        r@ == png_data_url(png@),
{
    let mut cs = chars_of("data:image/png;base64,");
    let b = base64_standard(png);
    push_all(&mut cs, chars_of(b.as_str()).as_slice());
    string_of(cs.as_slice())
}

/// The reply shown in the overlay: the assistant's content, trimmed.
pub fn reply_text(content: &str) -> (r: String)
    ensures
        r@ == trim(content@),
{
    let cs = chars_of(content);
    string_of(trimmed(cs.as_slice()).as_slice())
}

/// A JSON value of `serde_json`.
#[verifier::external_type_specification]
#[verifier::external_body]
pub struct ExJsonValue(serde_json::Value);

/// Whether `serde_json` accepts `text` as one JSON document.
pub uninterp spec fn json_parses_of(text: Seq<char>) -> bool;

/// Calls `serde_json::from_str` for a `Value`: `Ok` exactly when the text is
/// a JSON document (the same text always gives the same answer); on failure,
/// the error's text. Nothing is stated of the value itself.
#[verifier::external_body]
fn parse_json(text: &str) -> (r: Result<serde_json::Value, String>)
    ensures
        r is Ok == json_parses_of(text@),
{
    match serde_json::from_str::<serde_json::Value>(text) {
        Ok(v) => Ok(v),
        Err(e) => Err(e.to_string()),
    }
}

/// Calls `Value::pointer`: the value a JSON Pointer addresses, if any.
/// Nothing is stated of it, as `Value` has no model here.
#[verifier::external_body]
fn json_pointer<'a>(v: &'a serde_json::Value, pointer: &str) -> (r: Option<&'a serde_json::Value>) {
    v.pointer(pointer)
}

/// Calls `Value::as_str`: the text of a JSON string value, `None` for any
/// other kind of value. Nothing is stated of it, as `Value` has no model here.
#[verifier::external_body]
fn json_as_str(v: &serde_json::Value) -> (r: Option<String>) {
    v.as_str().map(|t| t.to_string())
}

/// Why a gateway reply gave no description.
#[derive(Debug)]
pub enum ReplyError {
    /// The body is not JSON; the parser's message.
    BadJson(String),
    /// The JSON has no string at `choices[0].message.content`.
    NoContent,
}

impl ReplyError {
    /// The error as the overlay shows it.
    pub fn message(&self) -> (r: String)
        ensures
            r@ == match self {
                ReplyError::BadJson(e) => "parsing AI response JSON: "@ + e@,
                ReplyError::NoContent => "AI response had no choices[0].message.content"@,
            },
    {
        match self {
            ReplyError::BadJson(e) => {
                let mut cs = chars_of("parsing AI response JSON: ");
                push_all(&mut cs, chars_of(e.as_str()).as_slice());
                string_of(cs.as_slice())
            },
            ReplyError::NoContent => string_of(
                chars_of("AI response had no choices[0].message.content").as_slice(),
            ),
        }
    }
}

/// The description for the assistant content found in a reply: the content
/// trimmed, or `NoContent` when there was none.
pub fn reply_from_content(content: Option<String>) -> (r: Result<String, ReplyError>)
    ensures
        match content {
            None => r matches Err(ReplyError::NoContent),
            Some(c) => r matches Ok(t) && t@ == trim(c@),
        },
{
    match content {
        None => Err(ReplyError::NoContent),
        Some(c) => Ok(reply_text(c.as_str())),
    }
}

/// The description in a gateway reply body: the string at
/// `/choices/0/message/content`, trimmed (see [`reply_from_content`]).
/// Fails with `BadJson` exactly when the body is not JSON.
pub fn reply_from_body(body: &str) -> (r: Result<String, ReplyError>)
    ensures
        (r matches Err(ReplyError::BadJson(_))) == !json_parses_of(body@),
{
    match parse_json(body) {
        Err(e) => Err(ReplyError::BadJson(e)),
        Ok(v) => {
            let content = match json_pointer(&v, "/choices/0/message/content") {
                Some(x) => json_as_str(x),
                None => None,
            };
            reply_from_content(content)
        },
    }
}

/// Message for a gateway answer with an error status.
pub open spec fn gateway_error_spec(code: u16, body: Seq<char>) -> Seq<char> {
    "AI gateway returned "@ + decimal(code as nat) + ": "@ + trim(body)
}

/// Message for a gateway answer with an error status and body.
pub fn gateway_error(code: u16, body: &str) -> (r: String)
    ensures
        r@ == gateway_error_spec(code, body@),
{
    let mut cs = chars_of("AI gateway returned ");
    push_all(&mut cs, decimal_chars(code as u64).as_slice());
    push_all(&mut cs, chars_of(": ").as_slice());
    let b = chars_of(body);
    push_all(&mut cs, trimmed(b.as_slice()).as_slice());
    string_of(cs.as_slice())
}

/// Why an image could not be prepared for upload.
#[derive(Debug)]
pub struct EncodeError {
    pub message: String,
}

/// PNG bytes of `image`, or why the encoder refused it.
pub fn encode_png(image: &Picture) -> (r: Result<Vec<u8>, EncodeError>)
    ensures
        match r {
            Ok(bytes) => png_of(image@) == Some(bytes@),
            Err(_) => png_of(image@) is None,
        },
{
    match png(image) {
        Ok(bytes) => Ok(bytes),
        Err(e) => Err(EncodeError { message: image_error_text(&e) }),
    }
}

/// The image sent for a description: `r` downscaled to fit
/// `MAX_UPLOAD_DIM` x `MAX_UPLOAD_DIM` when larger, else `r` itself.
pub open spec fn upload_view(r: Raster) -> Raster {
    if r.width > MAX_UPLOAD_DIM || r.height > MAX_UPLOAD_DIM {
        thumbnail_of(r, MAX_UPLOAD_DIM, MAX_UPLOAD_DIM)
    } else {
        r
    }
}

/// PNG bytes of `image` for upload (see [`upload_view`]), or why the
/// encoder refused it.
pub fn encode_png_for_upload(image: &Picture) -> (r: Result<Vec<u8>, EncodeError>)
    ensures
        match r {
            Ok(bytes) => png_of(upload_view(image@)) == Some(bytes@),
            Err(_) => png_of(upload_view(image@)) is None,
        },
        image@.width >= 1 && image@.height >= 1 ==> upload_view(image@).width <= MAX_UPLOAD_DIM
            && upload_view(image@).height <= MAX_UPLOAD_DIM,
{
    let w = image.width();
    let h = image.height();
    if w > MAX_UPLOAD_DIM || h > MAX_UPLOAD_DIM {
        let scaled = thumbnail(image, MAX_UPLOAD_DIM, MAX_UPLOAD_DIM);
        encode_png(&scaled)
    } else {
        encode_png(image)
    }
}

} // verus!
