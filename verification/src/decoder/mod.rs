//! Decoding raw file bytes into text.
pub mod encoding;

use vstd::prelude::*;
use crate::text::chars_of;
use self::encoding::{Utf8Decoder, Big5Decoder, BomDecoder, DecodeError};

verus! {

/// Decodes raw bytes into text. Implementations strip a BOM if present.
pub trait Decoder {
    fn decode(&self, bytes: &[u8]) -> Result<String, DecodeError>;
}

/// The decoder a profile's encoding label selects.
#[derive(Debug, Clone, Copy, PartialEq, Eq, Structural)]
pub enum DecoderKind {
    Utf8,
    Big5,
    Bom,
}

/// ASCII letters made lower case.
pub open spec fn lower_label(s: Seq<char>) -> Seq<char> {
    crate::reader::ascii_lower(s)
}

/// `big5` → Big5, `bom` / `auto` → BOM sniffing, anything else → UTF-8,
/// letters compared without case.
pub open spec fn label_kind(label: Seq<char>) -> DecoderKind {
    let l = lower_label(label);
    if l == "big5"@ {
        DecoderKind::Big5
    } else if l == "bom"@ || l == "auto"@ {
        DecoderKind::Bom
    } else {
        DecoderKind::Utf8
    }
}

/// Chooses a decoder from a profile's encoding label.
pub fn from_label(label: &str) -> (res: DecoderKind)
    ensures
        res == label_kind(label@),
{
    let l = crate::reader::to_ascii_lowercase(&chars_of(label));
    if crate::text::chars_equal_str(&l, "big5") {
        DecoderKind::Big5
    } else if crate::text::chars_equal_str(&l, "bom") || crate::text::chars_equal_str(&l, "auto") {
        DecoderKind::Bom
    } else {
        DecoderKind::Utf8
    }
}

impl Decoder for DecoderKind {
    fn decode(&self, bytes: &[u8]) -> (res: Result<String, DecodeError>)
        ensures
            match self {
                DecoderKind::Utf8 => encoding::utf8_result(res) == encoding::utf8_spec(bytes@),
                DecoderKind::Big5 => encoding::utf8_result(res) == encoding::big5_spec(bytes@),
                DecoderKind::Bom => encoding::utf8_result(res) == encoding::bom_spec(bytes@),
            },
    {
        match self {
            DecoderKind::Utf8 => Utf8Decoder.decode(bytes),
            DecoderKind::Big5 => Big5Decoder.decode(bytes),
            DecoderKind::Bom => BomDecoder.decode(bytes),
        }
    }
}

/// Encoding labels are read without regard to ASCII letter case.
pub proof fn law_labels_ignore_case(a: Seq<char>, b: Seq<char>)
    requires
        lower_label(a) == lower_label(b),
    ensures
        label_kind(a) == label_kind(b),
{
}

} // verus!
