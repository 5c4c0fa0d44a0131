use vstd::prelude::*;

use crate::text::{decimal, format_u64};

verus! {

/// The content fingerprint of a text: a fixed function of the characters
/// alone, the same in every call and in every process. Its exact digits are
/// not modelled; contracts speak of it only through this name.
pub uninterp spec fn fingerprint_of(s: Seq<char>) -> Seq<char>;

/// Relies on md5::compute (md5 0.7), which digests the UTF-8 bytes of the
/// text into 16 bytes, and on the LowerHex impl of md5::Digest, which writes
/// them as exactly 32 lowercase hexadecimal digits; both are pure functions
/// of the input bytes.
#[verifier::external_body]
pub(crate) fn fingerprint(text: &str) -> (r: String)
    ensures
        r@ == fingerprint_of(text@),
        r@.len() == 32,
{
    format!("{:x}", md5::compute(text.as_bytes()))
}

/// The stored identity of an actor: the fingerprint of the decimal form of
/// the raw numeric id, so that raw ids never reach the counter store.
pub fn mask_user(id: u64) -> (r: String)
    ensures
        r@ == fingerprint_of(decimal(id as nat)),
{
    let s = format_u64(id);
    fingerprint(s.as_str())
}

} // verus!
