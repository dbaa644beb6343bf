use solar_monitoring_import::decoder::encoding::{strip_bom, Big5Decoder, BomDecoder, DecodeError, Utf8Decoder};
use solar_monitoring_import::decoder::{from_label, Decoder, DecoderKind};

#[test]
fn utf8_decodes_ascii() {
    let out = Utf8Decoder.decode(b"hello").unwrap();
    assert_eq!(out, "hello");
}

#[test]
fn utf8_strips_bom() {
    let out = Utf8Decoder.decode(b"\xEF\xBB\xBFhi").unwrap();
    assert_eq!(out, "hi");
}

#[test]
fn big5_decodes_cjk() {
    // big5 bytes for 案件
    let bytes = b"\xae\xd7\xa5\xf3";
    let out = Big5Decoder.decode(bytes).unwrap();
    assert_eq!(out, "案件");
}

#[test]
fn bom_chooses_utf8_by_default() {
    let out = BomDecoder.decode(b"hi").unwrap();
    assert_eq!(out, "hi");
}

#[test]
fn bom_detects_utf16le() {
    let out = BomDecoder.decode(b"\xFF\xFEh\x00i\x00").unwrap();
    assert_eq!(out, "hi");
}

#[test]
fn bom_detects_utf16be() {
    let out = BomDecoder.decode(b"\xFE\xFF\x00h\x00i").unwrap();
    assert_eq!(out, "hi");
}

#[test]
fn invalid_utf8_is_an_error() {
    assert!(matches!(Utf8Decoder.decode(b"a\xFFb"), Err(DecodeError::Utf8Replacement)));
}

#[test]
fn strip_bom_only_strips_utf8_bom() {
    assert_eq!(strip_bom(b"\xEF\xBB\xBFabc"), b"abc");
    assert_eq!(strip_bom(b"abc"), b"abc");
    assert_eq!(strip_bom(b"\xEF\xBB"), b"\xEF\xBB");
}

#[test]
fn labels_select_decoders() {
    assert_eq!(from_label("big5"), DecoderKind::Big5);
    assert_eq!(from_label("BIG5"), DecoderKind::Big5);
    assert_eq!(from_label("auto"), DecoderKind::Bom);
    assert_eq!(from_label("bom"), DecoderKind::Bom);
    assert_eq!(from_label("utf-8"), DecoderKind::Utf8);
    assert_eq!(from_label("latin1"), DecoderKind::Utf8);
}

#[test]
fn decoder_kind_decodes_as_selected() {
    assert_eq!(from_label("big5").decode(b"\xae\xd7\xa5\xf3").unwrap(), "案件");
    assert_eq!(from_label("auto").decode(b"\xEF\xBB\xBFok").unwrap(), "ok");
}

#[test]
fn invalid_big5_and_utf16_are_errors() {
    assert!(matches!(Big5Decoder.decode(b"\x80"), Err(DecodeError::Big5Replacement)));
    assert!(matches!(BomDecoder.decode(b"\xFF\xFEa"), Err(DecodeError::Utf16LeReplacement)));
    assert!(matches!(BomDecoder.decode(b"\xFE\xFFa"), Err(DecodeError::Utf16BeReplacement)));
}

#[test]
fn big5_strips_bom() {
    assert_eq!(Big5Decoder.decode(b"\xEF\xBB\xBF\xae\xd7\xa5\xf3").unwrap(), "案件");
}
