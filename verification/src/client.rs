//! Request framing for the LCU HTTP API: the URL of an endpoint, the Basic
//! authorization header, and the reading of HTTP status codes.

use vstd::prelude::*;
use vstd::utf8::encode_utf8;
use crate::credentials::LcuCredentials;
use crate::number::{decimal_u64, decimal_digits};
use crate::text::joined;

verus! {

/// The character of the standard Base64 alphabet (RFC 4648) for a 6-bit value.
pub open spec fn base64_digit(v: int) -> char {
    if v < 26 {
        (65 + v) as char
    } else if v < 52 {
        (97 + (v - 26)) as char
    } else if v < 62 {
        (48 + (v - 52)) as char
    } else if v == 62 {
        '+'
    } else {
        '/'
    }
}

/// The Base64 text of `bytes` in the standard alphabet with `=` padding
/// (RFC 4648): each group of three bytes gives four characters, and a last
/// group of one or two bytes gives two or three characters and padding.
pub open spec fn base64_standard(bytes: Seq<u8>) -> Seq<char>
    decreases bytes.len(),
{
    if bytes.len() == 0 {
        seq![]
    } else if bytes.len() == 1 {
        let n = bytes[0] as int;
        seq![base64_digit(n / 4), base64_digit((n % 4) * 16), '=', '=']
    } else if bytes.len() == 2 {
        let n = bytes[0] as int * 256 + bytes[1] as int;
        seq![base64_digit(n / 1024), base64_digit((n / 16) % 64), base64_digit((n % 16) * 4), '=']
    } else {
        let n = bytes[0] as int * 65536 + bytes[1] as int * 256 + bytes[2] as int;
        seq![
            base64_digit(n / 262144),
            base64_digit((n / 4096) % 64),
            base64_digit((n / 64) % 64),
            base64_digit(n % 64),
        ] + base64_standard(bytes.skip(3))
    }
}

/// Encodes `bytes` with `base64::engine::general_purpose::STANDARD`
/// (`Engine::encode`: the standard alphabet with `=` padding). Trusted: the
/// result is the RFC 4648 encoding `base64_standard` of the bytes. `encode`
/// panics when the padded output length overflows `usize`, which the
/// precondition rules out.
#[verifier::external_body]
fn encode_base64(bytes: &[u8]) -> (r: String)
    requires
        4 * ((bytes@.len() + 2) / 3) <= usize::MAX,
    ensures
        r@ == base64_standard(bytes@),
{
    base64::Engine::encode(&base64::engine::general_purpose::STANDARD, bytes)
}

/// The host and scheme of every LCU request.
pub open spec fn lcu_origin() -> Seq<char> {
    "https://127.0.0.1:"@
}

/// The URL of `path` on the client listening on `port`.
pub open spec fn lcu_url_text(port: u16, path: Seq<char>) -> Seq<char> {
    lcu_origin() + decimal_digits(port as nat) + path
}

/// The URL for an LCU API path: `https://127.0.0.1:{port}{path}`.
pub fn lcu_url(creds: &LcuCredentials, path: &str) -> (url: String)
    ensures
        url@ == lcu_url_text(creds.port, path@),
{
    let mut url = "https://127.0.0.1:".to_owned();
    let port = decimal_u64(creds.port as u64);
    url.append(port.as_str());
    url.append(path);
    url
}

/// The user-and-password text that the LCU expects in Basic auth.
pub open spec fn lcu_login(password: Seq<char>) -> Seq<char> {
    "riot:"@ + password
}

/// The value of an `Authorization` header for Basic auth, given the Base64
/// text of the login.
pub open spec fn basic_authorization_text(encoded: Seq<char>) -> Seq<char> {
    "Basic "@ + encoded
}

/// `Basic {encoded}`: the header value for an already encoded login.
pub fn basic_authorization(encoded: &str) -> (header: String)
    ensures
        header@ == basic_authorization_text(encoded@),
{
    joined("Basic ", encoded)
}

/// Law: the login is `riot:` followed by the password exactly as given.
pub proof fn law_login_is_riot_then_password(password: Seq<char>)
    ensures
        lcu_login(password).len() == password.len() + 5,
        lcu_login(password).take(5) == "riot:"@,
        lcu_login(password).skip(5) == password,
{
    reveal_strlit("riot:");
    assert(lcu_login(password).take(5) =~= "riot:"@);
    assert(lcu_login(password).skip(5) =~= password);
}

/// Law: the Base64 text has four characters for every started group of
/// three bytes.
pub proof fn law_base64_length(bytes: Seq<u8>)
    ensures
        base64_standard(bytes).len() == 4 * ((bytes.len() + 2) / 3),
    decreases bytes.len(),
{
    if bytes.len() >= 3 {
        law_base64_length(bytes.skip(3));
    }
}

/// Whether the Base64 text of the login fits in memory.
pub open spec fn login_encodable(password: Seq<char>) -> bool {
    4 * ((encode_utf8("riot:"@ + password).len() + 2) / 3) <= usize::MAX
}

/// The `Authorization` header for the client: `Basic` and the Base64 of
/// `riot:{password}` (its UTF-8 bytes).
pub fn lcu_authorization(creds: &LcuCredentials) -> (header: String)
    requires
        login_encodable(creds.password@),
    ensures
        header@ == basic_authorization_text(base64_standard(encode_utf8(lcu_login(creds.password@)))),
        header@ == "Basic "@ + base64_standard(encode_utf8("riot:"@ + creds.password@)),
{
    let login = joined("riot:", creds.password.as_str());
    let encoded = encode_base64(login.as_str().as_bytes());
    basic_authorization(encoded.as_str())
}

/// Whether an HTTP status is a success (`200..=299`, `StatusCode::is_success`).
pub open spec fn is_success(status: u16) -> bool {
    200 <= status <= 299
}

/// Whether an HTTP status is a success.
pub fn is_success_status(status: u16) -> (r: bool)
    ensures
        r == is_success(status),
{
    200 <= status && status <= 299
}

/// The message when no client credentials were found.
pub fn client_not_found_message() -> (m: String)
    ensures
        m@ == "League Client not found."@,
{
    "League Client not found.".to_owned()
}

/// The message for a failed LCU request.
pub fn request_failed_message(detail: &str) -> (m: String)
    ensures
        m@ == "LCU request failed: "@ + detail@,
{
    joined("LCU request failed: ", detail)
}

/// What an LCU request gives back: the HTTP status and the body text, or the
/// transport error's text.
pub type LcuReply = Result<(u16, String), String>;

/// Whether a body holds something: neither empty nor the JSON `null`.
pub open spec fn body_present(body: Seq<char>) -> bool {
    body.len() > 0 && body != "null"@
}

/// Whether a body holds something.
pub fn body_is_present(body: &str) -> (r: bool)
    ensures
        r == body_present(body@),
{
    !body.is_empty() && !crate::text::same_text(body, "null")
}

} // verus!
