//! The encoders and decoders that the library calls but does not define, and
//! what it takes on trust of them.
//!
//! The legacy encodings come from the crate `encoding_rs`. What its encoders
//! and decoders return is a function of their input alone, far too long to
//! state here: each result only gets a name, so that the contracts of the
//! library can speak of it. Nothing is claimed of what a name holds.

use vstd::prelude::*;
use vstd::utf8::*;

verus! {

/// An input of `len` bytes is within reach of the legacy encoders and
/// decoders.
///
/// They size their buffers at a small multiple of the length of their input,
/// rounded up to a power of two, and panic where such a size overflows. With
/// an input of at most a 128th of `usize::MAX` every size they ask for stays
/// below `isize::MAX`.
pub open spec fn within_codec_reach(len: nat) -> bool {
    128 * len <= usize::MAX
}

/// What `encoding_rs::SHIFT_JIS.encode` returns for `text`: the bytes, with a
/// numeric character reference in place of each character that has no
/// Shift-JIS form, and whether there was such a character.
pub uninterp spec fn shift_jis_encoded(text: Seq<char>) -> (Seq<u8>, bool);

/// What `encoding_rs::EUC_JP.encode` returns for `text`: the bytes, with a
/// numeric character reference in place of each character that has no EUC-JP
/// form, and whether there was such a character.
pub uninterp spec fn euc_jp_encoded(text: Seq<char>) -> (Seq<u8>, bool);

/// What `encoding_rs::ISO_2022_JP.encode` returns for `text`: the bytes, with
/// a numeric character reference in place of each character that has no
/// ISO-2022-JP form, and whether there was such a character.
pub uninterp spec fn iso_2022_jp_encoded(text: Seq<char>) -> (Seq<u8>, bool);

/// What `encoding_rs::SHIFT_JIS.decode` returns for `bytes`: the text, with
/// U+FFFD in place of each malformed sequence, and whether there was such a
/// sequence.
pub uninterp spec fn shift_jis_decoded(bytes: Seq<u8>) -> (Seq<char>, bool);

/// What `encoding_rs::EUC_JP.decode` returns for `bytes`: the text, with
/// U+FFFD in place of each malformed sequence, and whether there was such a
/// sequence.
pub uninterp spec fn euc_jp_decoded(bytes: Seq<u8>) -> (Seq<char>, bool);

/// What `encoding_rs::ISO_2022_JP.decode` returns for `bytes`: the text, with
/// U+FFFD in place of each malformed sequence, and whether there was such a
/// sequence.
pub uninterp spec fn iso_2022_jp_decoded(bytes: Seq<u8>) -> (Seq<char>, bool);

/// Calls `encoding_rs::Encoding::encode` on `encoding_rs::SHIFT_JIS`.
///
/// Trusted: the bytes and the flag that come back are those that
/// `shift_jis_encoded` names. The call panics where the size of its buffer
/// overflows `usize`; the bound on the input rules that out.
#[verifier::external_body]
pub(crate) fn shift_jis_encode(text: &str) -> (r: (Vec<u8>, bool))
    requires
        within_codec_reach(encode_utf8(text@).len()),
    ensures
        r.0@ == shift_jis_encoded(text@).0,
        r.1 == shift_jis_encoded(text@).1,
{
    let (bytes, _, unmappable) = encoding_rs::SHIFT_JIS.encode(text);
    (bytes.into_owned(), unmappable)
}

/// Calls `encoding_rs::Encoding::encode` on `encoding_rs::EUC_JP`.
///
/// Trusted: the bytes and the flag that come back are those that
/// `euc_jp_encoded` names. The call panics where the size of its buffer
/// overflows `usize`; the bound on the input rules that out.
#[verifier::external_body]
pub(crate) fn euc_jp_encode(text: &str) -> (r: (Vec<u8>, bool))
    requires
        within_codec_reach(encode_utf8(text@).len()),
    ensures
        r.0@ == euc_jp_encoded(text@).0,
        r.1 == euc_jp_encoded(text@).1,
{
    let (bytes, _, unmappable) = encoding_rs::EUC_JP.encode(text);
    (bytes.into_owned(), unmappable)
}

/// Calls `encoding_rs::Encoding::encode` on `encoding_rs::ISO_2022_JP`.
///
/// Trusted: the bytes and the flag that come back are those that
/// `iso_2022_jp_encoded` names. The call panics where the size of its buffer
/// overflows `usize`; the bound on the input rules that out.
#[verifier::external_body]
pub(crate) fn iso_2022_jp_encode(text: &str) -> (r: (Vec<u8>, bool))
    requires
        within_codec_reach(encode_utf8(text@).len()),
    ensures
        r.0@ == iso_2022_jp_encoded(text@).0,
        r.1 == iso_2022_jp_encoded(text@).1,
{
    let (bytes, _, unmappable) = encoding_rs::ISO_2022_JP.encode(text);
    (bytes.into_owned(), unmappable)
}

/// Calls `encoding_rs::Encoding::decode` on `encoding_rs::SHIFT_JIS`.
///
/// Trusted: the text and the flag that come back are those that
/// `shift_jis_decoded` names. The call panics where the size of its buffer
/// overflows `usize`; the bound on the input rules that out.
#[verifier::external_body]
pub(crate) fn shift_jis_decode(bytes: &[u8]) -> (r: (String, bool))
    requires
        within_codec_reach(bytes@.len()),
    ensures
        r.0@ == shift_jis_decoded(bytes@).0,
        r.1 == shift_jis_decoded(bytes@).1,
{
    let (text, _, malformed) = encoding_rs::SHIFT_JIS.decode(bytes);
    (text.into_owned(), malformed)
}

/// Calls `encoding_rs::Encoding::decode` on `encoding_rs::EUC_JP`.
///
/// Trusted: the text and the flag that come back are those that
/// `euc_jp_decoded` names. The call panics where the size of its buffer
/// overflows `usize`; the bound on the input rules that out.
#[verifier::external_body]
pub(crate) fn euc_jp_decode(bytes: &[u8]) -> (r: (String, bool))
    requires
        within_codec_reach(bytes@.len()),
    ensures
        r.0@ == euc_jp_decoded(bytes@).0,
        r.1 == euc_jp_decoded(bytes@).1,
{
    let (text, _, malformed) = encoding_rs::EUC_JP.decode(bytes);
    (text.into_owned(), malformed)
}

/// Calls `encoding_rs::Encoding::decode` on `encoding_rs::ISO_2022_JP`.
///
/// Trusted: the text and the flag that come back are those that
/// `iso_2022_jp_decoded` names. The call panics where the size of its buffer
/// overflows `usize`; the bound on the input rules that out.
#[verifier::external_body]
pub(crate) fn iso_2022_jp_decode(bytes: &[u8]) -> (r: (String, bool))
    requires
        within_codec_reach(bytes@.len()),
    ensures
        r.0@ == iso_2022_jp_decoded(bytes@).0,
        r.1 == iso_2022_jp_decoded(bytes@).1,
{
    let (text, _, malformed) = encoding_rs::ISO_2022_JP.decode(bytes);
    (text.into_owned(), malformed)
}

/// The error of `String::from_utf8`. Nothing is read from it.
#[verifier::external_type_specification]
#[verifier::external_body]
pub struct ExFromUtf8Error(std::string::FromUtf8Error);

/// `String::from_utf8` succeeds exactly on valid UTF-8, and the string that
/// it then returns is made of the bytes that it was given.
pub assume_specification[ String::from_utf8 ](vec: Vec<u8>) -> (r: Result<
    String,
    std::string::FromUtf8Error,
>)
    ensures
        r is Ok <==> valid_utf8(vec@),
        r matches Ok(text) ==> encode_utf8(text@) == vec@,
;

} // verus!
