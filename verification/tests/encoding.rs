use bgrep::encoding::{
    checked, shown_text, Encoding, DECODE_FAILED_EUC_JP, DECODE_FAILED_ISO_2022_JP, DECODE_FAILED_SHIFT_JIS,
    DECODE_FAILED_UTF_8, ENCODE_FAILED_EUC_JP, ENCODE_FAILED_ISO_2022_JP, ENCODE_FAILED_SHIFT_JIS,
};
use bgrep::search::grep;
use bgrep::span::{BEGINNING_NOT_FOUND, END_NOT_FOUND};

#[test]
fn display_shows_address_and_quoted_string() {
    let buffer = [0, 65, 66, 0, 67, 0];
    assert_eq!(Encoding::Utf8.display(1, &buffer, false), Ok("0x1 \"AB\"".to_string()));
    assert_eq!(Encoding::Utf8.display(1, &buffer, true), Ok("0x1 \"AB\"".to_string()));
}

#[test]
fn display_without_any_nul_fails() {
    let buffer = [65, 66, 67];
    for offset in 0..=buffer.len() {
        let shown = Encoding::Utf8.display(offset, &buffer, false);
        assert!(shown == Err(BEGINNING_NOT_FOUND) || shown == Err(END_NOT_FOUND));
        assert_eq!(shown, Err(BEGINNING_NOT_FOUND));
    }
}

#[test]
fn display_without_a_following_nul_fails() {
    let buffer = [0, 65, 66, 67];
    for offset in 1..=buffer.len() {
        assert_eq!(Encoding::Utf8.display(offset, &buffer, false), Err(END_NOT_FOUND));
        assert_eq!(Encoding::ShiftJis.display(offset, &buffer, true), Err(END_NOT_FOUND));
    }
}

#[test]
fn display_without_a_preceding_nul_fails() {
    let buffer = [65, 66, 67, 0];
    for offset in 0..=3 {
        assert_eq!(Encoding::Utf8.display(offset, &buffer, false), Err(BEGINNING_NOT_FOUND));
    }
    assert_eq!(Encoding::Utf8.display(0, &[0, 65, 0], false), Err(BEGINNING_NOT_FOUND));
    assert_eq!(Encoding::Utf8.display(0, &[], false), Err(BEGINNING_NOT_FOUND));
}

#[test]
fn display_reports_the_span_start_on_request() {
    let buffer = [0, 65, 66, 67, 0];
    assert_eq!(Encoding::Utf8.display(2, &buffer, false), Ok("0x2 \"ABC\"".to_string()));
    assert_eq!(Encoding::Utf8.display(2, &buffer, true), Ok("0x1 \"ABC\"".to_string()));
    assert_eq!(Encoding::Utf8.display(3, &buffer, true), Ok("0x1 \"ABC\"".to_string()));
}

#[test]
fn display_at_a_nul_shows_the_string_before_it() {
    let buffer = [0, 65, 66, 0, 67, 0];
    assert_eq!(Encoding::Utf8.display(3, &buffer, false), Ok("0x3 \"AB\"".to_string()));
    assert_eq!(Encoding::Utf8.display(1, &[0, 0], false), Ok("0x1 \"\"".to_string()));
}

#[test]
fn display_writes_the_address_in_upper_case_hexadecimal() {
    let mut buffer = vec![b'.'; 0x2C00];
    buffer[0x2AFF] = 0;
    buffer[0x2B05] = 0;
    buffer[0x2B00..0x2B05].copy_from_slice(b"hello");
    assert_eq!(
        Encoding::Utf8.display(0x2B02, &buffer, false),
        Ok("0x2B02 \"hello\"".to_string())
    );
    assert_eq!(
        Encoding::Utf8.display(0x2B02, &buffer, true),
        Ok("0x2B00 \"hello\"".to_string())
    );
}

#[test]
fn display_escapes_what_cannot_be_printed() {
    let buffer = [0, b'a', b'\n', b'"', b'\\', 0x1B, 0];
    assert_eq!(
        Encoding::Utf8.display(1, &buffer, false),
        Ok("0x1 \"a\\n\\\"\\\\\\u{1b}\"".to_string())
    );
}

#[test]
fn display_puts_the_decoder_message_in_place_of_a_malformed_string() {
    let buffer = [0, 0xFF, 0xFE, 0];
    assert_eq!(
        Encoding::Utf8.display(1, &buffer, false),
        Ok(format!("0x1 {:?}", DECODE_FAILED_UTF_8))
    );
    assert_eq!(
        Encoding::Utf8.display(1, &buffer, false),
        Ok("0x1 \"Failed to decode the found string to UTF-8\"".to_string())
    );
    let buffer = [0, 0x82, 0];
    assert_eq!(
        Encoding::ShiftJis.display(1, &buffer, false),
        Ok("0x1 \"Failed to decode the found string to Shift-JIS\"".to_string())
    );
    let buffer = [0, 0xA4, 0];
    assert_eq!(
        Encoding::EucJp.display(1, &buffer, false),
        Ok("0x1 \"Failed to decode the found string to EUC-JP\"".to_string())
    );
    let buffer = [0, 0x1B, 0x24, 0x42, 0x24, 0];
    assert_eq!(
        Encoding::Iso2022Jp.display(1, &buffer, false),
        Ok("0x1 \"Failed to decode the found string to ISO-2022-JP\"".to_string())
    );
}

#[test]
fn display_decodes_shift_jis() {
    let buffer = [0x00, 0x82, 0xB1, 0x82, 0xF1, 0x00];
    assert_eq!(Encoding::ShiftJis.display(1, &buffer, false), Ok("0x1 \"こん\"".to_string()));
    assert_eq!(Encoding::ShiftJis.display(3, &buffer, true), Ok("0x1 \"こん\"".to_string()));
    assert_eq!(Encoding::ShiftJis.display(3, &buffer, false), Ok("0x3 \"こん\"".to_string()));
}

#[test]
fn encode_gives_the_bytes_of_each_encoding() {
    assert_eq!(Encoding::ShiftJis.encode("あ"), Ok(vec![0x82, 0xA0]));
    assert_eq!(Encoding::EucJp.encode("あ"), Ok(vec![0xA4, 0xA2]));
    assert_eq!(
        Encoding::Iso2022Jp.encode("あ"),
        Ok(vec![0x1B, 0x24, 0x42, 0x24, 0x22, 0x1B, 0x28, 0x42])
    );
    assert_eq!(Encoding::Utf8.encode("あ"), Ok(vec![0xE3, 0x81, 0x82]));
    assert_eq!(Encoding::ShiftJis.encode("abc"), Ok(b"abc".to_vec()));
    assert_eq!(Encoding::Utf8.encode(""), Ok(vec![]));
}

#[test]
fn encode_fails_on_a_character_without_a_form_in_the_encoding() {
    assert_eq!(Encoding::ShiftJis.encode("a😀"), Err(ENCODE_FAILED_SHIFT_JIS));
    assert_eq!(Encoding::EucJp.encode("a😀"), Err(ENCODE_FAILED_EUC_JP));
    assert_eq!(Encoding::Iso2022Jp.encode("a😀"), Err(ENCODE_FAILED_ISO_2022_JP));
    assert_eq!(Encoding::Utf8.encode("a😀"), Ok(vec![b'a', 0xF0, 0x9F, 0x98, 0x80]));
}

#[test]
fn error_messages_name_the_encoding() {
    assert_eq!(ENCODE_FAILED_SHIFT_JIS, "Failed to encode the search pattern to Shift-JIS");
    assert_eq!(ENCODE_FAILED_EUC_JP, "Failed to encode the search pattern to EUC-JP");
    assert_eq!(ENCODE_FAILED_ISO_2022_JP, "Failed to encode the search pattern to ISO-2022-JP");
    assert_eq!(DECODE_FAILED_SHIFT_JIS, "Failed to decode the found string to Shift-JIS");
    assert_eq!(DECODE_FAILED_EUC_JP, "Failed to decode the found string to EUC-JP");
    assert_eq!(DECODE_FAILED_ISO_2022_JP, "Failed to decode the found string to ISO-2022-JP");
    assert_eq!(DECODE_FAILED_UTF_8, "Failed to decode the found string to UTF-8");
    assert_eq!(
        BEGINNING_NOT_FOUND,
        "Failed to find the beginning of the string that contains the pattern"
    );
    assert_eq!(END_NOT_FOUND, "Failed to find the end of the string that contains the pattern");
}

#[test]
fn decode_gives_the_text_of_each_encoding() {
    assert_eq!(Encoding::ShiftJis.decode(&[0x82, 0xA0]), Ok("あ".to_string()));
    assert_eq!(Encoding::EucJp.decode(&[0xA4, 0xA2]), Ok("あ".to_string()));
    assert_eq!(
        Encoding::Iso2022Jp.decode(&[0x1B, 0x24, 0x42, 0x24, 0x22, 0x1B, 0x28, 0x42]),
        Ok("あ".to_string())
    );
    assert_eq!(Encoding::Utf8.decode(&[0xE3, 0x81, 0x82]), Ok("あ".to_string()));
    assert_eq!(Encoding::Utf8.decode(&[]), Ok(String::new()));
}

#[test]
fn decode_fails_on_malformed_bytes() {
    assert_eq!(Encoding::ShiftJis.decode(&[0x82]), Err(DECODE_FAILED_SHIFT_JIS));
    assert_eq!(Encoding::EucJp.decode(&[0xA4]), Err(DECODE_FAILED_EUC_JP));
    assert_eq!(
        Encoding::Iso2022Jp.decode(&[0x1B, 0x24, 0x42, 0x24]),
        Err(DECODE_FAILED_ISO_2022_JP)
    );
    assert_eq!(Encoding::Utf8.decode(&[0xE3, 0x81]), Err(DECODE_FAILED_UTF_8));
    assert_eq!(Encoding::Utf8.decode(&[0xFF]), Err(DECODE_FAILED_UTF_8));
}

#[test]
fn decode_of_encode_gives_the_text_back() {
    let texts = ["", "plain ascii", "こんにちは世界", "カタカナ と ひらがな", "漢字 123"];
    for encoding in [Encoding::ShiftJis, Encoding::EucJp, Encoding::Iso2022Jp, Encoding::Utf8] {
        for text in texts {
            let bytes = encoding.encode(text).unwrap();
            assert_eq!(encoding.decode(&bytes), Ok(text.to_string()));
        }
    }
    let bytes = Encoding::Utf8.encode("a😀é").unwrap();
    assert_eq!(Encoding::Utf8.decode(&bytes), Ok("a😀é".to_string()));
}

#[test]
fn yen_sign_does_not_survive_the_legacy_encodings() {
    assert_eq!(Encoding::ShiftJis.encode("\u{a5}"), Ok(vec![0x5C]));
    assert_eq!(Encoding::ShiftJis.decode(&[0x5C]), Ok("\\".to_string()));
    assert_eq!(Encoding::EucJp.encode("\u{a5}"), Ok(vec![0x5C]));
    assert_eq!(Encoding::EucJp.decode(&[0x5C]), Ok("\\".to_string()));
    let bytes = Encoding::Utf8.encode("\u{a5}").unwrap();
    assert_eq!(Encoding::Utf8.decode(&bytes), Ok("\u{a5}".to_string()));
}

#[test]
fn checked_hands_on_the_value_or_the_message() {
    assert_eq!(checked(vec![1u8, 2], false, "message"), Ok(vec![1u8, 2]));
    assert_eq!(checked(vec![1u8, 2], true, "message"), Err("message"));
    assert_eq!(checked("text".to_string(), false, "message"), Ok("text".to_string()));
    assert_eq!(checked("text".to_string(), true, "message"), Err("message"));
}

#[test]
fn shown_text_is_the_decoded_text_or_the_message() {
    assert_eq!(shown_text(Ok("text".to_string())), "text");
    assert_eq!(shown_text(Ok(String::new())), "");
    assert_eq!(shown_text(Err(DECODE_FAILED_EUC_JP)), "Failed to decode the found string to EUC-JP");
}

#[test]
fn encoding_can_be_copied_and_compared() {
    let encoding = Encoding::EucJp;
    let copy = encoding;
    assert_eq!(encoding, copy);
    assert_ne!(encoding, Encoding::Utf8);
    assert_eq!(format!("{:?}", encoding.clone()), "EucJp");
}

#[test]
fn encoded_pattern_is_found_and_shown() {
    let encoding = Encoding::ShiftJis;
    let mut buffer = vec![0x01, 0x02, 0x00];
    buffer.extend_from_slice(&encoding.encode("こんにちは").unwrap());
    buffer.push(0x00);
    buffer.extend_from_slice(&[0xFF, 0x00]);
    buffer.extend_from_slice(&encoding.encode("さようなら、こんにちは").unwrap());
    buffer.push(0x00);
    let pattern = encoding.encode("にち").unwrap();
    let matches = grep(&buffer, &pattern).unwrap();
    assert_eq!(matches, vec![7, 32]);
    let lines: Vec<String> =
        matches.iter().map(|&at| encoding.display(at, &buffer, false).unwrap()).collect();
    assert_eq!(lines, vec!["0x7 \"こんにちは\"", "0x20 \"さようなら、こんにちは\""]);
    let lines: Vec<String> =
        matches.iter().map(|&at| encoding.display(at, &buffer, true).unwrap()).collect();
    assert_eq!(lines, vec!["0x3 \"こんにちは\"", "0x10 \"さようなら、こんにちは\""]);
}
