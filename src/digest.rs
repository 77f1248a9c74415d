use vstd::prelude::*;

verus! {

/// The lowercase hexadecimal MD5 digest of the UTF-8 encoding of `s`.
pub uninterp spec fn md5_hex(s: Seq<char>) -> Seq<char>;

/// Relies on `md5::compute` and the `LowerHex` formatting of its `Digest`:
/// the result depends on the characters of `s` alone, and holds two hex
/// digits for each of the sixteen digest bytes.
#[verifier::external_body]
pub(crate) fn md5_hex_of(s: &str) -> (r: String)
    ensures
        r@ == md5_hex(s@),
        r@.len() == 32,
{
    format!("{:x}", md5::compute(s.as_bytes()))
}

} // verus!
