//! The shared label formatters: decimal rendering, byte dumps, indentation,
//! and code-page decoding.

use lcf_explorer::code_page::CodePage;
use lcf_explorer::text::byte_list;
use lcf_explorer::text::bool_text;
use lcf_explorer::text::dec;
use lcf_explorer::text::decode_bytes;
use lcf_explorer::text::label_num;
use lcf_explorer::text::num_list;
use lcf_explorer::text::tabs;

#[test]
fn decimal_rendering() {
    assert_eq!(dec(0).as_str(), "0");
    assert_eq!(dec(7).as_str(), "7");
    assert_eq!(dec(10).as_str(), "10");
    assert_eq!(dec(200).as_str(), "200");
    assert_eq!(dec(65535).as_str(), "65535");
    assert_eq!(dec(u64::MAX).as_str(), "18446744073709551615");
}

#[test]
fn byte_dumps() {
    assert_eq!(byte_list(&[]).as_str(), "[]");
    assert_eq!(byte_list(&[7]).as_str(), "[7]");
    assert_eq!(byte_list(&[1, 2, 3]).as_str(), "[1, 2, 3]");
    assert_eq!(byte_list(&[0, 255]).as_str(), "[0, 255]");
}

#[test]
fn number_dumps() {
    assert_eq!(num_list(&[]).as_str(), "[]");
    assert_eq!(num_list(&[70000, 0]).as_str(), "[70000, 0]");
}

#[test]
fn indentation_and_booleans() {
    assert_eq!(tabs(0).as_str(), "");
    assert_eq!(tabs(3).as_str(), "\t\t\t");
    assert_eq!(bool_text(true), "true");
    assert_eq!(bool_text(false), "false");
}

#[test]
fn numeric_labels() {
    assert_eq!(label_num("Width: ", 20).as_str(), "Width: 20");
}

#[test]
fn western_decoding_is_not_identity() {
    // 0xC9 is "É" in windows-1252; a decoder handing bytes back unchanged
    // could not produce this two-byte UTF-8 character.
    let text = decode_bytes(CodePage::Ascii, &[0xC9]);
    assert_eq!(text.as_str(), "\u{C9}");
}

#[test]
fn japanese_decoding() {
    // 0x83 0x65 is the katakana "te" in Shift JIS.
    let text = decode_bytes(CodePage::ShiftJIS, &[0x83, 0x65]);
    assert_eq!(text.as_str(), "\u{30C6}");
}

#[test]
fn cyrillic_decoding() {
    // 0xC0 is the capital "A" (\u{0410}) in windows-1251.
    let text = decode_bytes(CodePage::Cyrillic, &[0xC0]);
    assert_eq!(text.as_str(), "\u{0410}");
}

#[test]
fn decoding_is_total_on_malformed_input() {
    // A lone Shift JIS lead byte is malformed; decoding must substitute a
    // replacement, never fail.
    let text = decode_bytes(CodePage::ShiftJIS, &[0x83]);
    assert!(!text.is_empty());
}

#[test]
fn empty_input_decodes_to_empty_text() {
    for page in CodePage::all() {
        assert!(decode_bytes(page, &[]).is_empty());
    }
}
