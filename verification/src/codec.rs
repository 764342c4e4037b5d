//! Base64, through the `base64` crate: the standard alphabet of HTTP Basic
//! credentials, and the URL-safe unpadded alphabet envelopes travel in to and
//! from the mailbox relay.

use vstd::prelude::*;
use vstd::utf8::encode_utf8;
use vstd::string::StringSliceAdditionalSpecFns;

use base64::engine::general_purpose::{STANDARD, URL_SAFE_NO_PAD};
use base64::Engine;

verus! {

/// What `STANDARD.decode` makes of `input`: the bytes it encodes, or `None`
/// when it is not valid padded standard base64.
pub uninterp spec fn spec_standard_decode(input: Seq<u8>) -> Option<Seq<u8>>;

/// What `URL_SAFE_NO_PAD.decode` makes of `input`: the bytes it encodes, or
/// the text of the error it reports.
pub uninterp spec fn spec_url_safe_decode(input: Seq<u8>) -> Result<Seq<u8>, Seq<char>>;

/// The URL-safe base64 digit of a six-bit value: `A`–`Z`, `a`–`z`, `0`–`9`,
/// `-`, `_`.
pub open spec fn url_safe_digit(v: int) -> char {
    if v < 26 {
        ('A' as int + v) as char
    } else if v < 52 {
        ('a' as int + (v - 26)) as char
    } else if v < 62 {
        ('0' as int + (v - 52)) as char
    } else if v == 62 {
        '-'
    } else {
        '_'
    }
}

/// URL-safe base64 of `data` without padding: each three bytes become four
/// digits of six bits each, and a last one or two bytes become two or three
/// digits, their spare low bits zero.
pub open spec fn url_safe_encoding(data: Seq<u8>) -> Seq<char>
    decreases data.len(),
{
    if data.len() == 0 {
        Seq::empty()
    } else if data.len() == 1 {
        let n = data[0] as int;
        seq![url_safe_digit(n / 4), url_safe_digit((n % 4) * 16)]
    } else if data.len() == 2 {
        let n = data[0] as int * 256 + data[1] as int;
        seq![url_safe_digit(n / 1024), url_safe_digit((n / 16) % 64), url_safe_digit((n % 16) * 4)]
    } else {
        let n = data[0] as int * 65536 + data[1] as int * 256 + data[2] as int;
        seq![
            url_safe_digit(n / 262144),
            url_safe_digit((n / 4096) % 64),
            url_safe_digit((n / 64) % 64),
            url_safe_digit(n % 64),
        ] + url_safe_encoding(data.subrange(3, data.len() as int))
    }
}

/// `base64::engine::general_purpose::STANDARD.decode`, asked only for the
/// bytes. Trusted: the answer is named [`spec_standard_decode`] of the input.
#[verifier::external_body]
pub fn standard_decode(input: &[u8]) -> (r: Option<Vec<u8>>)
    ensures
        match r {
            Some(v) => spec_standard_decode(input@) == Some(v@),
            None => spec_standard_decode(input@) is None,
        },
{
    STANDARD.decode(input).ok()
}

/// `base64::engine::general_purpose::URL_SAFE_NO_PAD.decode`, its error
/// reported as text. Trusted: the answer is named [`spec_url_safe_decode`]
/// of the input, and the URL-safe encoding of some bytes, which the crate's
/// encoder writes, decodes back to those bytes.
#[verifier::external_body]
pub fn url_safe_decode(input: &[u8]) -> (r: Result<Vec<u8>, String>)
    ensures
        match r {
            Ok(v) => spec_url_safe_decode(input@) == Ok::<Seq<u8>, Seq<char>>(v@),
            Err(e) => spec_url_safe_decode(input@) == Err::<Seq<u8>, Seq<char>>(e@),
        },
        r is Ok || forall|d: Seq<u8>| input@ != encode_utf8(#[trigger] url_safe_encoding(d)),
        r matches Ok(v) ==> forall|d: Seq<u8>| input@ == encode_utf8(#[trigger] url_safe_encoding(d)) ==> v@ == d,
{
    URL_SAFE_NO_PAD.decode(input).map_err(|e| e.to_string())
}

/// `base64::engine::general_purpose::URL_SAFE_NO_PAD.encode`. Trusted: the
/// answer is the unpadded URL-safe base64 of the data, [`url_safe_encoding`]. The crate panics when the
/// encoded length overflows `usize`, which the bound on the input rules out.
#[verifier::external_body]
pub fn url_safe_encode(data: &[u8]) -> (r: String)
    requires
        data@.len() <= usize::MAX / 2,
    ensures
        r@ == url_safe_encoding(data@),
{
    URL_SAFE_NO_PAD.encode(data)
}

/// Decode the URL-safe base64 text `text`.
pub fn decode_text(text: &str) -> (r: Result<Vec<u8>, String>)
    ensures
        match r {
            Ok(v) => spec_url_safe_decode(text.spec_bytes()) == Ok::<Seq<u8>, Seq<char>>(v@),
            Err(e) => spec_url_safe_decode(text.spec_bytes()) == Err::<Seq<u8>, Seq<char>>(e@),
        },
        forall|d: Seq<u8>| text@ == #[trigger] url_safe_encoding(d) ==> (r matches Ok(v) && v@ == d),
{
    url_safe_decode(text.as_bytes())
}

} // verus!
