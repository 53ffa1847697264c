//! Case folding for case-insensitive comparison.

use vstd::prelude::*;
use vstd::string::*;
use vstd::utf8::*;

verus! {

/// The lowercase form of the text `s`, as `str::to_lowercase` computes it.
pub uninterp spec fn lowercase_of(s: Seq<char>) -> Seq<char>;

/// Calls `str::to_lowercase` of the standard library, which maps a text to its
/// lowercase form by the Unicode case tables. The contract only gives that
/// result its name, `lowercase_of`: the result depends on the text alone, and
/// nothing more is claimed of it; in particular it may differ from the text
/// in length.
#[verifier::external_body]
fn lowercase(s: &str) -> (r: String)
    ensures
        r@ == lowercase_of(s@),
{
    s.to_lowercase()
}

/// The UTF-8 bytes of the lowercase form of the text that `bytes` encode.
pub open spec fn fold_case(bytes: Seq<u8>) -> Seq<u8> {
    encode_utf8(lowercase_of(decode_utf8(bytes)))
}

/// The form in which a text is compared: itself, or its lowercase form where
/// case is ignored.
pub open spec fn comparison_form(bytes: Seq<u8>, case_insensitive: bool) -> Seq<u8> {
    if case_insensitive {
        fold_case(bytes)
    } else {
        bytes
    }
}

/// The comparison form of a text, as an owned string.
pub fn comparison_text(text: &str, case_insensitive: bool) -> (r: String)
    ensures
        r@ == decode_utf8(comparison_form(text.spec_bytes(), case_insensitive)),
        encode_utf8(r@) == comparison_form(text.spec_bytes(), case_insensitive),
{
    proof {
        encode_utf8_decode_utf8(text@);
    }
    if case_insensitive {
        let folded = lowercase(text);
        proof {
            encode_utf8_decode_utf8(folded@);
        }
        folded
    } else {
        text.to_owned()
    }
}

} // verus!
