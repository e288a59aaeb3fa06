//! The text encodings in which a pattern is searched and a found string is
//! read.

use crate::codec::{
    euc_jp_decode, euc_jp_decoded, euc_jp_encode, euc_jp_encoded, iso_2022_jp_decode,
    iso_2022_jp_decoded, iso_2022_jp_encode, iso_2022_jp_encoded, shift_jis_decode,
    shift_jis_decoded, shift_jis_encode, shift_jis_encoded, within_codec_reach,
};
use crate::line::{debug_quoted, entry, entry_text};
use crate::span::{
    find_span, lemma_span_unique, nul_before, nul_from, span_of, BEGINNING_NOT_FOUND, END_NOT_FOUND,
};
use vstd::prelude::*;
use vstd::slice::slice_to_vec;
use vstd::string::*;
use vstd::utf8::*;

verus! {

/// The messages with which `encode` fails, one for each encoding that cannot
/// hold every character.
pub const ENCODE_FAILED_SHIFT_JIS: &'static str =
    "Failed to encode the search pattern to Shift-JIS";

pub const ENCODE_FAILED_EUC_JP: &'static str = "Failed to encode the search pattern to EUC-JP";

pub const ENCODE_FAILED_ISO_2022_JP: &'static str =
    "Failed to encode the search pattern to ISO-2022-JP";

/// The messages with which `decode` fails, one for each encoding.
pub const DECODE_FAILED_SHIFT_JIS: &'static str =
    "Failed to decode the found string to Shift-JIS";

pub const DECODE_FAILED_EUC_JP: &'static str = "Failed to decode the found string to EUC-JP";

pub const DECODE_FAILED_ISO_2022_JP: &'static str =
    "Failed to decode the found string to ISO-2022-JP";

pub const DECODE_FAILED_UTF_8: &'static str = "Failed to decode the found string to UTF-8";

/// A text encoding.
#[derive(Clone, Copy, Debug, PartialEq, Eq, Structural)]
pub enum Encoding {
    ShiftJis,
    EucJp,
    Iso2022Jp,
    Utf8,
}

/// What becomes of a conversion that replaced what it could not convert:
/// `message` where it had to replace something, else what it converted.
pub open spec fn unless_replaced<T>(converted: (T, bool), message: Seq<char>) -> Result<
    T,
    Seq<char>,
> {
    if converted.1 {
        Err(message)
    } else {
        Ok(converted.0)
    }
}

/// Hands on `value`, or `message` in its place where `failed` says that the
/// conversion that gave `value` had to replace a part of its input.
pub fn checked<T>(value: T, failed: bool, message: &'static str) -> (r: Result<T, &'static str>)
    ensures
        failed ==> r == Err::<T, &'static str>(message),
        !failed ==> r == Ok::<T, &'static str>(value),
{
    if failed {
        return Err(message);
    }
    Ok(value)
}

/// The text that a displayed line shows for what a decoder gave: the decoded
/// text, or the decoder's message where it failed.
pub fn shown_text(decoded: Result<String, &'static str>) -> (shown: String)
    ensures
        shown@ == match decoded {
            Ok(text) => text@,
            Err(message) => message@,
        },
{
    match decoded {
        Ok(text) => text,
        Err(message) => message.to_owned(),
    }
}

impl Encoding {
    /// The bytes of `text` in this encoding, or the message that `encode`
    /// gives where a character of `text` has no form in it.
    pub open spec fn encode_spec(self, text: Seq<char>) -> Result<Seq<u8>, Seq<char>> {
        match self {
            Encoding::ShiftJis => unless_replaced(
                shift_jis_encoded(text),
                ENCODE_FAILED_SHIFT_JIS@,
            ),
            Encoding::EucJp => unless_replaced(euc_jp_encoded(text), ENCODE_FAILED_EUC_JP@),
            Encoding::Iso2022Jp => unless_replaced(
                iso_2022_jp_encoded(text),
                ENCODE_FAILED_ISO_2022_JP@,
            ),
            Encoding::Utf8 => Ok(encode_utf8(text)),
        }
    }

    /// The text that `bytes` hold in this encoding, or the message that
    /// `decode` gives where they are malformed.
    pub open spec fn decode_spec(self, bytes: Seq<u8>) -> Result<Seq<char>, Seq<char>> {
        match self {
            Encoding::ShiftJis => unless_replaced(
                shift_jis_decoded(bytes),
                DECODE_FAILED_SHIFT_JIS@,
            ),
            Encoding::EucJp => unless_replaced(euc_jp_decoded(bytes), DECODE_FAILED_EUC_JP@),
            Encoding::Iso2022Jp => unless_replaced(
                iso_2022_jp_decoded(bytes),
                DECODE_FAILED_ISO_2022_JP@,
            ),
            Encoding::Utf8 => if valid_utf8(bytes) {
                Ok(decode_utf8(bytes))
            } else {
                Err(DECODE_FAILED_UTF_8@)
            },
        }
    }

    /// Encodes `text`, or fails where a character of it has no form in this
    /// encoding.
    pub fn encode(&self, text: &str) -> (r: Result<Vec<u8>, &'static str>)
        requires
            *self != Encoding::Utf8 ==> within_codec_reach(encode_utf8(text@).len()),
        ensures
            match r {
                Ok(bytes) => self.encode_spec(text@) == Ok::<Seq<u8>, Seq<char>>(bytes@),
                Err(message) => self.encode_spec(text@) == Err::<Seq<u8>, Seq<char>>(message@),
            },
    {
        match self {
            Encoding::ShiftJis => {
                let (result, err) = shift_jis_encode(text);
                checked(result, err, ENCODE_FAILED_SHIFT_JIS)
            },
            Encoding::EucJp => {
                let (result, err) = euc_jp_encode(text);
                checked(result, err, ENCODE_FAILED_EUC_JP)
            },
            Encoding::Iso2022Jp => {
                let (result, err) = iso_2022_jp_encode(text);
                checked(result, err, ENCODE_FAILED_ISO_2022_JP)
            },
            Encoding::Utf8 => Ok(slice_to_vec(text.as_bytes())),
        }
    }

    /// Decodes `bytes`, or fails where they are malformed in this encoding.
    pub fn decode(&self, bytes: &[u8]) -> (r: Result<String, &'static str>)
        requires
            *self != Encoding::Utf8 ==> within_codec_reach(bytes@.len()),
        ensures
            match r {
                Ok(text) => self.decode_spec(bytes@) == Ok::<Seq<char>, Seq<char>>(text@),
                Err(message) => self.decode_spec(bytes@) == Err::<Seq<char>, Seq<char>>(message@),
            },
    {
        match self {
            Encoding::ShiftJis => {
                let (result, err) = shift_jis_decode(bytes);
                checked(result, err, DECODE_FAILED_SHIFT_JIS)
            },
            Encoding::EucJp => {
                let (result, err) = euc_jp_decode(bytes);
                checked(result, err, DECODE_FAILED_EUC_JP)
            },
            Encoding::Iso2022Jp => {
                let (result, err) = iso_2022_jp_decode(bytes);
                checked(result, err, DECODE_FAILED_ISO_2022_JP)
            },
            Encoding::Utf8 => match String::from_utf8(slice_to_vec(bytes)) {
                Ok(text) => {
                    proof {
                        encode_utf8_decode_utf8(text@);
                    }
                    Ok(text)
                },
                Err(_) => Err(DECODE_FAILED_UTF_8),
            },
        }
    }

    /// The text that stands for the bytes of a span in a displayed line: what
    /// they decode to, or the decoder's message where they are malformed.
    pub open spec fn shown(self, bytes: Seq<u8>) -> Seq<char> {
        match self.decode_spec(bytes) {
            Ok(text) => text,
            Err(message) => message,
        }
    }

    /// The line that `display` gives for the span of `text` around `start`:
    /// the address of the span or of `start`, and the quoted text of the span.
    pub open spec fn display_spec(self, start: int, text: Seq<u8>, show_beginning: bool) -> Seq<
        char,
    > {
        let (begin, end) = span_of(text, start);
        let address = if show_beginning {
            begin
        } else {
            start
        };
        entry_text(address as nat, debug_quoted(self.shown(text.subrange(begin, end))))
    }

    /// Shows the NUL-delimited string of `text` that holds the offset `start`
    /// as a line: an address in hexadecimal and the decoded string in quotes.
    ///
    /// The address is that of the string's first byte where `show_beginning`
    /// is set, and `start` where it is not. A string that cannot be decoded
    /// is no failure: the line then holds the decoder's message in its place.
    /// The call fails where `text` has no NUL byte before `start`, or none at
    /// or after it.
    pub fn display(&self, start: usize, text: &[u8], show_beginning: bool) -> (r: Result<
        String,
        &'static str,
    >)
        requires
            start <= text@.len(),
            *self != Encoding::Utf8 ==> within_codec_reach(text@.len()),
        ensures
            !nul_before(text@, start as int) ==> r == Err::<String, &'static str>(
                BEGINNING_NOT_FOUND,
            ),
            nul_before(text@, start as int) && !nul_from(text@, start as int) ==> r == Err::<
                String,
                &'static str,
            >(END_NOT_FOUND),
            nul_before(text@, start as int) && nul_from(text@, start as int) ==> (r matches Ok(line)
                && line@ == self.display_spec(start as int, text@, show_beginning)),
    {
        let (begin, end) = match find_span(text, start) {
            Ok(span) => span,
            Err(message) => {
                return Err(message);
            },
        };
        proof {
            lemma_span_unique(text@, start as int, begin as int, end as int);
        }
        let entire_string_bytes = &text[begin..end];
        let entire_string = shown_text(self.decode(entire_string_bytes));
        let address = if show_beginning {
            begin
        } else {
            start
        };
        Ok(entry(address, entire_string.as_str()))
    }
}

/// In UTF-8 every text can be encoded, and what it is encoded to decodes to
/// the same text.
pub proof fn lemma_utf8_round_trip(text: Seq<char>)
    ensures
        Encoding::Utf8.encode_spec(text) matches Ok(bytes) && Encoding::Utf8.decode_spec(bytes)
            == Ok::<Seq<char>, Seq<char>>(text),
{
    encode_utf8_valid_utf8(text);
    encode_utf8_decode_utf8(text);
}

} // verus!
