//! File contents handed to the web view as base64 text.
use vstd::prelude::*;
use base64::Engine;

verus! {

/// The character of a 6-bit value in the standard base64 alphabet
/// (`A-Z`, `a-z`, `0-9`, `+`, `/`).
pub open spec fn b64_char(n: int) -> char {
    if n < 26 {
        (65 + n) as char
    } else if n < 52 {
        (97 + n - 26) as char
    } else if n < 62 {
        (48 + n - 52) as char
    } else if n == 62 {
        '+'
    } else {
        '/'
    }
}

/// Standard base64 with padding (RFC 4648): each group of three bytes
/// becomes four characters; a last group of one or two bytes is padded
/// with `=`.
pub open spec fn base64_of(d: Seq<u8>) -> Seq<char>
    decreases d.len(),
{
    if d.len() == 0 {
        Seq::empty()
    } else if d.len() == 1 {
        let a = d[0] as int;
        seq![b64_char(a / 4), b64_char((a % 4) * 16), '=', '=']
    } else if d.len() == 2 {
        let a = d[0] as int;
        let b = d[1] as int;
        seq![b64_char(a / 4), b64_char((a % 4) * 16 + b / 16), b64_char((b % 16) * 4), '=']
    } else {
        let a = d[0] as int;
        let b = d[1] as int;
        let c = d[2] as int;
        seq![
            b64_char(a / 4),
            b64_char((a % 4) * 16 + b / 16),
            b64_char((b % 16) * 4 + c / 64),
            b64_char(c % 64),
        ] + base64_of(d.skip(3))
    }
}

/// An input of `n` bytes whose encoded length fits in a `usize`.
pub open spec fn encodable(n: int) -> bool {
    (n / 3) * 4 <= usize::MAX && (n % 3 == 0 || (n / 3) * 4 + 4 <= usize::MAX)
}

/// Calls `base64::engine::general_purpose::STANDARD.encode` (the standard
/// alphabet, with padding).  Claimed: the result is `base64_of(data)`, as
/// the crate documents the engine; inputs whose encoded length overflows
/// a `usize` (where the crate panics) are left out.
#[verifier::external_body]
fn standard_encode(data: &[u8]) -> (r: String)
    requires
        encodable(data@.len() as int),
    ensures
        r@ == base64_of(data@),
{
    base64::engine::general_purpose::STANDARD.encode(data)
}

/// A file's contents as standard base64 text with padding.
pub fn file_base64(data: &Vec<u8>) -> (r: String)
    requires
        encodable(data@.len() as int),
    ensures
        r@ == base64_of(data@),
{
    standard_encode(data.as_slice())
}

} // verus!
