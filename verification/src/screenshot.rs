//! A captured screenshot is reported as a `data:` URL that carries the PNG
//! bytes in standard base64.

use base64::engine::general_purpose;
use base64::Engine;
use vstd::prelude::*;

verus! {

/// The standard base64 alphabet of RFC 4648: the character for each 6-bit
/// value.
pub open spec fn base64_alphabet() -> Seq<char> {
    seq![
        'A', 'B', 'C', 'D', 'E', 'F', 'G', 'H', 'I', 'J', 'K', 'L', 'M',
        'N', 'O', 'P', 'Q', 'R', 'S', 'T', 'U', 'V', 'W', 'X', 'Y', 'Z',
        'a', 'b', 'c', 'd', 'e', 'f', 'g', 'h', 'i', 'j', 'k', 'l', 'm',
        'n', 'o', 'p', 'q', 'r', 's', 't', 'u', 'v', 'w', 'x', 'y', 'z',
        '0', '1', '2', '3', '4', '5', '6', '7', '8', '9', '+', '/',
    ]
}

/// The alphabet character for the 6-bit value `v`.
pub open spec fn sextet(v: int) -> char {
    base64_alphabet()[v]
}

/// The standard base64 encoding (RFC 4648 alphabet, with `=` padding) of
/// `bytes`: each group of three bytes becomes four characters, 6 bits each,
/// and a final group of one or two bytes becomes two or three characters
/// padded with `=` to four.
pub open spec fn base64_standard(bytes: Seq<u8>) -> Seq<char>
    decreases bytes.len(),
{
    if bytes.len() == 0 {
        Seq::empty()
    } else if bytes.len() == 1 {
        let b0 = bytes[0] as int;
        seq![sextet(b0 / 4), sextet((b0 % 4) * 16), '=', '=']
    } else if bytes.len() == 2 {
        let b0 = bytes[0] as int;
        let b1 = bytes[1] as int;
        seq![sextet(b0 / 4), sextet((b0 % 4) * 16 + b1 / 16), sextet((b1 % 16) * 4), '=']
    } else {
        let b0 = bytes[0] as int;
        let b1 = bytes[1] as int;
        let b2 = bytes[2] as int;
        seq![
            sextet(b0 / 4),
            sextet((b0 % 4) * 16 + b1 / 16),
            sextet((b1 % 16) * 4 + b2 / 64),
            sextet(b2 % 64),
        ] + base64_standard(bytes.skip(3))
    }
}

/// The encoding of `n` bytes is `4 * ceil(n / 3)` characters long.
pub proof fn lemma_base64_standard_len(bytes: Seq<u8>)
    ensures
        base64_standard(bytes).len() == (bytes.len() + 2) / 3 * 4,
    decreases bytes.len(),
{
    if bytes.len() > 2 {
        lemma_base64_standard_len(bytes.skip(3));
    }
}

/// The prefix of a `data:` URL that holds a base64-encoded PNG image.
pub open spec fn png_data_url_prefix() -> Seq<char> {
    "data:image/png;base64,"@
}

/// Whether `n` bytes can be base64-encoded here: the encoder refuses an
/// input whose encoded length would not fit in a `usize`.
pub open spec fn encodable_len(n: nat) -> bool {
    n / 3 * 4 + 4 <= usize::MAX
}

/// Calls `Engine::encode` of `base64::engine::general_purpose::STANDARD`.
/// Claimed: the result is the standard padded base64 encoding of `data`,
/// as `base64_standard` spells it out. The encoder panics only where the encoded
/// length overflows `usize`, which `requires` leaves out.
#[verifier::external_body]
fn encode_base64_standard(data: &[u8]) -> (r: String)
    requires
        encodable_len(data@.len()),
    ensures
        r@ == base64_standard(data@),
{
    general_purpose::STANDARD.encode(data)
}

/// Frames base64 text as the `data:` URL of a PNG image.
pub fn png_data_url(encoded: &str) -> (r: String)
    ensures
        r@ == png_data_url_prefix() + encoded@,
{
    String::from_str("data:image/png;base64,").concat(encoded)
}

/// The `data:` URL under which a screenshot's PNG bytes are reported.
pub fn screenshot_data_url(png: &[u8]) -> (r: String)
    requires
        encodable_len(png@.len()),
    ensures
        r@ == png_data_url_prefix() + base64_standard(png@),
{
    let encoded = encode_base64_standard(png);
    png_data_url(encoded.as_str())
}

} // verus!
