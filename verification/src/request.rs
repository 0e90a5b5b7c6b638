//! What one request to an inference host consists of: the address, the
//! body, the authorization header and the time to wait for the answer.

use base64::Engine;
use vstd::prelude::*;
use vstd::string::*;
use crate::json::{json_quoted, quote_json};
use crate::text::{strip_trailing, without_trailing};

verus! {

/// The standard base64 encoding of `data`, with padding, as the `base64`
/// crate's `STANDARD` engine produces it. A function of the bytes alone; the
/// alphabet and the padding rule are not restated here.
pub uninterp spec fn base64_standard(data: Seq<u8>) -> Seq<char>;

/// `Engine::encode` of the `base64` crate, on its `STANDARD` engine: the
/// encoding of `data` named by [`base64_standard`]. The call panics only
/// where the encoded length does not fit in `usize`, which no slice in
/// memory can cause.
#[verifier::external_body]
pub(crate) fn encode_base64(data: &[u8]) -> (encoded: String)
    ensures
        encoded@ == base64_standard(data@),
{
    base64::engine::general_purpose::STANDARD.encode(data)
}

/// The address that a request to `host` goes to.
pub open spec fn endpoint_of(host: Seq<char>) -> Seq<char> {
    without_trailing(host, '/') + "/v1/chat/completions"@
}

/// The value of the `Authorization` header for `key`.
pub open spec fn bearer_of(key: Seq<char>) -> Seq<char> {
    "Bearer "@ + key
}

/// The `data:` address that carries an image, given its base64 encoding.
pub open spec fn data_url_with(encoded: Seq<char>) -> Seq<char> {
    "data:image/jpeg;base64,"@ + encoded
}

/// The `data:` address that carries the image inside the request.
pub open spec fn data_url_of(image: Seq<u8>) -> Seq<char> {
    data_url_with(base64_standard(image))
}

/// The request body, given the model, the prompt and the image address as
/// JSON string literals: one user message made of the prompt and the image,
/// for the given model, not streamed. The members of each object stand in
/// alphabetical order of their keys.
pub open spec fn body_with(
    quoted_model: Seq<char>,
    quoted_prompt: Seq<char>,
    quoted_address: Seq<char>,
) -> Seq<char> {
    "{\"messages\":[{\"content\":[{\"text\":"@ + quoted_prompt
        + ",\"type\":\"text\"},{\"image_url\":{\"url\":"@ + quoted_address
        + "},\"type\":\"image_url\"}],\"role\":\"user\"}],\"model\":"@ + quoted_model
        + ",\"stream\":false}"@
}

/// The request body for `model`, `prompt` and `image`.
pub open spec fn request_text(model: Seq<char>, prompt: Seq<char>, image: Seq<u8>) -> Seq<char> {
    body_with(json_quoted(model), json_quoted(prompt), json_quoted(data_url_of(image)))
}

/// The time to wait for an answer: one unit more than the configured
/// timeout, and no more than a `u64` holds.
pub open spec fn wait_of(timeout: u64) -> u64 {
    if timeout == u64::MAX {
        u64::MAX
    } else {
        (timeout + 1) as u64
    }
}

/// Builds the address for `host`: the host without trailing slashes,
/// followed by the path of the chat endpoint.
pub fn endpoint_url(host: &str) -> (url: String)
    ensures
        url@ == endpoint_of(host@),
{
    let mut url = strip_trailing(host, '/');
    url.append("/v1/chat/completions");
    url
}

/// Builds the `Authorization` header value for `key`.
pub fn bearer(key: &str) -> (value: String)
    ensures
        value@ == bearer_of(key@),
{
    let mut value = String::from_str("Bearer ");
    value.append(key);
    value
}

/// Builds the `data:` address around the base64 encoding of an image.
pub fn compose_data_url(encoded: &str) -> (url: String)
    ensures
        url@ == data_url_with(encoded@),
{
    let mut url = String::from_str("data:image/jpeg;base64,");
    url.append(encoded);
    url
}

/// Builds the `data:` address for the image.
pub fn data_url(image: &[u8]) -> (url: String)
    ensures
        url@ == data_url_of(image@),
{
    let encoded = encode_base64(image);
    compose_data_url(encoded.as_str())
}

/// Builds the request body around the model, the prompt and the image
/// address, each given as a JSON string literal.
pub fn compose_body(quoted_model: &str, quoted_prompt: &str, quoted_address: &str) -> (body: String)
    ensures
        body@ == body_with(quoted_model@, quoted_prompt@, quoted_address@),
{
    let mut body = String::from_str("{\"messages\":[{\"content\":[{\"text\":");
    body.append(quoted_prompt);
    body.append(",\"type\":\"text\"},{\"image_url\":{\"url\":");
    body.append(quoted_address);
    body.append("},\"type\":\"image_url\"}],\"role\":\"user\"}],\"model\":");
    body.append(quoted_model);
    body.append(",\"stream\":false}");
    body
}

/// Builds the request body for `model`, `prompt` and `image`.
pub fn request_body(model: &str, prompt: &str, image: &[u8]) -> (body: String)
    ensures
        body@ == request_text(model@, prompt@, image@),
{
    let quoted_prompt = quote_json(prompt);
    let address = data_url(image);
    let quoted_address = quote_json(address.as_str());
    let quoted_model = quote_json(model);
    compose_body(quoted_model.as_str(), quoted_prompt.as_str(), quoted_address.as_str())
}

/// The time to wait for an answer, given the configured timeout.
pub fn attempt_wait(timeout: u64) -> (wait: u64)
    ensures
        wait == wait_of(timeout),
{
    if timeout == u64::MAX {
        u64::MAX
    } else {
        timeout + 1
    }
}

} // verus!
