//! Source files in the encodings that Java projects use.

use vstd::prelude::*;
use vstd::utf8::{decode_utf8, valid_utf8};

verus! {

/// The most bytes that are decoded: what they decode to can be held.
pub const MAX_BYTES: usize = usize::MAX / 8;

/// `std::str::from_utf8`: the text of bytes that are valid UTF-8.
#[verifier::external_body]
fn from_utf8(bytes: &[u8]) -> (r: Option<String>)
    ensures
        match r {
            Some(text) => valid_utf8(bytes@) && text@ == decode_utf8(bytes@),
            None => !valid_utf8(bytes@),
        },
{
    std::str::from_utf8(bytes).ok().map(str::to_string)
}

/// What bytes mean in Shift_JIS, and whether some of them mean nothing.
pub uninterp spec fn shift_jis_text(bytes: Seq<u8>) -> (Seq<char>, bool);

/// What bytes mean in EUC-JP.
pub uninterp spec fn euc_jp_text(bytes: Seq<u8>) -> Seq<char>;

/// `encoding_rs::SHIFT_JIS.decode`: the text, in which bytes that mean nothing
/// are replaced, and whether there were any. Both depend on the bytes alone.
#[verifier::external_body]
fn from_shift_jis(bytes: &[u8]) -> (r: (String, bool))
    requires
        bytes@.len() <= MAX_BYTES,
    ensures
        (r.0@, r.1) == shift_jis_text(bytes@),
{
    let (text, _, had_errors) = encoding_rs::SHIFT_JIS.decode(bytes);
    (text.into_owned(), had_errors)
}

/// `encoding_rs::EUC_JP.decode`: the text, in which bytes that mean nothing are
/// replaced. It depends on the bytes alone.
#[verifier::external_body]
fn from_euc_jp(bytes: &[u8]) -> (r: String)
    requires
        bytes@.len() <= MAX_BYTES,
    ensures
        r@ == euc_jp_text(bytes@),
{
    let (text, _, _) = encoding_rs::EUC_JP.decode(bytes);
    text.into_owned()
}

/// The text of a source file: UTF-8 where it is valid, else Shift_JIS where
/// every byte has a meaning, else EUC-JP.
pub open spec fn source_text(bytes: Seq<u8>) -> Seq<char> {
    if valid_utf8(bytes) {
        decode_utf8(bytes)
    } else if !shift_jis_text(bytes).1 {
        shift_jis_text(bytes).0
    } else {
        euc_jp_text(bytes)
    }
}

/// Decodes a source file.
pub fn decode_source(bytes: &[u8]) -> (r: String)
    requires
        bytes@.len() <= MAX_BYTES,
    ensures
        r@ == source_text(bytes@),
{
    match from_utf8(bytes) {
        Some(text) => text,
        None => {
            let (text, had_errors) = from_shift_jis(bytes);
            if had_errors {
                from_euc_jp(bytes)
            } else {
                text
            }
        },
    }
}

/// The text of a file that is only shown: UTF-8 where it is valid, else Shift_JIS.
pub open spec fn shown_text(bytes: Seq<u8>) -> Seq<char> {
    if valid_utf8(bytes) {
        decode_utf8(bytes)
    } else {
        shift_jis_text(bytes).0
    }
}

/// Decodes a file that is only shown.
pub fn decode_shown(bytes: &[u8]) -> (r: String)
    requires
        bytes@.len() <= MAX_BYTES,
    ensures
        r@ == shown_text(bytes@),
{
    match from_utf8(bytes) {
        Some(text) => text,
        None => from_shift_jis(bytes).0,
    }
}

} // verus!
