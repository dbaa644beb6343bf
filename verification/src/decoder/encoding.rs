//! UTF-8, Big5 and BOM-sniffing decoders over `encoding_rs`.
use vstd::prelude::*;
use vstd::slice::slice_subrange;
use super::Decoder;

verus! {

/// The encodings the decoders use.
#[derive(Debug, Clone, Copy, PartialEq, Eq, Structural)]
pub enum Charset {
    Utf8,
    Big5,
    Utf16Le,
    Utf16Be,
}

/// The `encoding_rs` name of an encoding.
pub open spec fn charset_name(c: Charset) -> Seq<char> {
    match c {
        Charset::Utf8 => "UTF-8"@,
        Charset::Big5 => "Big5"@,
        Charset::Utf16Le => "UTF-16LE"@,
        Charset::Utf16Be => "UTF-16BE"@,
    }
}

/// What `encoding_rs::Encoding::decode` of the named encoding gives for these
/// bytes: the text and whether malformed sequences were replaced.
pub uninterp spec fn encoding_decode(encoding: Seq<char>, bytes: Seq<u8>) -> (Seq<char>, bool);

/// Calls `Encoding::decode` of the chosen `encoding_rs` encoding (which
/// sniffs a BOM and replaces malformed sequences). The contract claims only
/// that the text and the error flag are the ones named above.
#[verifier::external_body]
fn decode_with(charset: Charset, bytes: &[u8]) -> (res: (String, bool))
    ensures
        (res.0@, res.1) == encoding_decode(charset_name(charset), bytes@),
{
    let enc = match charset {
        Charset::Utf8 => encoding_rs::UTF_8,
        Charset::Big5 => encoding_rs::BIG5,
        Charset::Utf16Le => encoding_rs::UTF_16LE,
        Charset::Utf16Be => encoding_rs::UTF_16BE,
    };
    let (text, _, had_errors) = enc.decode(bytes);
    (text.into_owned(), had_errors)
}

/// Decoding failures: malformed input in the given encoding.
#[derive(Debug, Clone, Copy, PartialEq, Eq, Structural)]
pub enum DecodeError {
    Utf8Replacement,
    Big5Replacement,
    Utf16LeReplacement,
    Utf16BeReplacement,
}

impl DecodeError {
    pub open spec fn message_spec(self) -> Seq<char> {
        match self {
            DecodeError::Utf8Replacement => "utf-8 decode had replacement characters"@,
            DecodeError::Big5Replacement => "big5 decode had replacement characters"@,
            DecodeError::Utf16LeReplacement => "utf-16le decode had replacement characters"@,
            DecodeError::Utf16BeReplacement => "utf-16be decode had replacement characters"@,
        }
    }

    /// The error's message.
    pub fn message(&self) -> (res: String)
        ensures
            res@ == self.message_spec(),
    {
        match self {
            DecodeError::Utf8Replacement => "utf-8 decode had replacement characters".to_owned(),
            DecodeError::Big5Replacement => "big5 decode had replacement characters".to_owned(),
            DecodeError::Utf16LeReplacement => "utf-16le decode had replacement characters".to_owned(),
            DecodeError::Utf16BeReplacement => "utf-16be decode had replacement characters".to_owned(),
        }
    }
}

/// A decoding result with the text taken by its characters.
pub open spec fn utf8_result(r: Result<String, DecodeError>) -> Result<Seq<char>, DecodeError> {
    match r {
        Ok(s) => Ok(s@),
        Err(e) => Err(e),
    }
}

pub open spec fn has_utf8_bom(b: Seq<u8>) -> bool {
    b.len() >= 3 && b[0] == 0xEFu8 && b[1] == 0xBBu8 && b[2] == 0xBFu8
}

/// The bytes without a leading UTF-8 BOM.
pub open spec fn strip_bom_spec(b: Seq<u8>) -> Seq<u8> {
    if has_utf8_bom(b) { b.subrange(3, b.len() as int) } else { b }
}

/// Decoding in `charset`, failing with `err` when anything was replaced.
pub open spec fn decoded(charset: Charset, b: Seq<u8>, err: DecodeError) -> Result<Seq<char>, DecodeError> {
    let (t, bad) = encoding_decode(charset_name(charset), b);
    if bad { Err(err) } else { Ok(t) }
}

pub open spec fn utf8_spec(b: Seq<u8>) -> Result<Seq<char>, DecodeError> {
    decoded(Charset::Utf8, strip_bom_spec(b), DecodeError::Utf8Replacement)
}

pub open spec fn big5_spec(b: Seq<u8>) -> Result<Seq<char>, DecodeError> {
    decoded(Charset::Big5, strip_bom_spec(b), DecodeError::Big5Replacement)
}

/// UTF-8 after a UTF-8 BOM, UTF-16LE after `FF FE`, UTF-16BE after `FE FF`,
/// UTF-8 otherwise.
pub open spec fn bom_spec(b: Seq<u8>) -> Result<Seq<char>, DecodeError> {
    if has_utf8_bom(b) {
        utf8_spec(b)
    } else if b.len() >= 2 && b[0] == 0xFFu8 && b[1] == 0xFEu8 {
        decoded(Charset::Utf16Le, b.subrange(2, b.len() as int), DecodeError::Utf16LeReplacement)
    } else if b.len() >= 2 && b[0] == 0xFEu8 && b[1] == 0xFFu8 {
        decoded(Charset::Utf16Be, b.subrange(2, b.len() as int), DecodeError::Utf16BeReplacement)
    } else {
        utf8_spec(b)
    }
}

/// The bytes without a leading UTF-8 BOM.
pub fn strip_bom(bytes: &[u8]) -> (res: &[u8])
    ensures
        res@ == strip_bom_spec(bytes@),
{
    if bytes.len() >= 3 && bytes[0] == 0xEF && bytes[1] == 0xBB && bytes[2] == 0xBF {
        slice_subrange(bytes, 3, bytes.len())
    } else {
        bytes
    }
}

fn decode_checked(charset: Charset, bytes: &[u8], err: DecodeError) -> (res: Result<String, DecodeError>)
    ensures
        utf8_result(res) == decoded(charset, bytes@, err),
{
    let (text, bad) = decode_with(charset, bytes);
    if bad {
        Err(err)
    } else {
        Ok(text)
    }
}

#[derive(Debug)]
pub struct Utf8Decoder;

impl Decoder for Utf8Decoder {
    fn decode(&self, bytes: &[u8]) -> (res: Result<String, DecodeError>)
        ensures
            utf8_result(res) == utf8_spec(bytes@),
    {
        decode_checked(Charset::Utf8, strip_bom(bytes), DecodeError::Utf8Replacement)
    }
}

#[derive(Debug)]
pub struct Big5Decoder;

impl Decoder for Big5Decoder {
    fn decode(&self, bytes: &[u8]) -> (res: Result<String, DecodeError>)
        ensures
            utf8_result(res) == big5_spec(bytes@),
    {
        decode_checked(Charset::Big5, strip_bom(bytes), DecodeError::Big5Replacement)
    }
}

#[derive(Debug)]
pub struct BomDecoder;

impl Decoder for BomDecoder {
    fn decode(&self, bytes: &[u8]) -> (res: Result<String, DecodeError>)
        ensures
            utf8_result(res) == bom_spec(bytes@),
    {
        if bytes.len() >= 3 && bytes[0] == 0xEF && bytes[1] == 0xBB && bytes[2] == 0xBF {
            Utf8Decoder.decode(bytes)
        } else if bytes.len() >= 2 && bytes[0] == 0xFF && bytes[1] == 0xFE {
            decode_checked(Charset::Utf16Le, slice_subrange(bytes, 2, bytes.len()), DecodeError::Utf16LeReplacement)
        } else if bytes.len() >= 2 && bytes[0] == 0xFE && bytes[1] == 0xFF {
            decode_checked(Charset::Utf16Be, slice_subrange(bytes, 2, bytes.len()), DecodeError::Utf16BeReplacement)
        } else {
            Utf8Decoder.decode(bytes)
        }
    }
}

/// The UTF-8 byte order mark.
pub open spec fn utf8_bom() -> Seq<u8> {
    seq![0xEFu8, 0xBBu8, 0xBFu8]
}

/// Decoders strip a leading BOM: text with a UTF-8 BOM decodes as the text
/// without it, in UTF-8 and in Big5, and the sniffing decoder reads it as
/// UTF-8.
pub proof fn law_decoders_strip_bom(b: Seq<u8>)
    requires
        !has_utf8_bom(b),
    ensures
        utf8_spec(utf8_bom() + b) == utf8_spec(b),
        big5_spec(utf8_bom() + b) == big5_spec(b),
        bom_spec(utf8_bom() + b) == utf8_spec(b),
{
    let x = utf8_bom() + b;
    assert(has_utf8_bom(x));
    assert(x.subrange(3, x.len() as int) =~= b);
}

/// Without any byte order mark the sniffing decoder decodes as UTF-8.
pub proof fn law_sniffing_defaults_to_utf8(b: Seq<u8>)
    requires
        !has_utf8_bom(b),
        !(b.len() >= 2 && b[0] == 0xFFu8 && b[1] == 0xFEu8),
        !(b.len() >= 2 && b[0] == 0xFEu8 && b[1] == 0xFFu8),
    ensures
        bom_spec(b) == utf8_spec(b),
{
}

} // verus!
