//! A stable signature of a header row: SHA-1 over the trimmed cells joined
//! with `|`, as lowercase hex, first 12 characters.
use vstd::prelude::*;
use vstd::string::StringSliceAdditionalSpecFns;
use vstd::utf8::encode_utf8;
use sha1::Digest;
use crate::grid::str_trim;
use crate::text::{trim, join, views, chars_of, string_of, join_strings, slice_chars};

verus! {

/// What `sha1::Sha1::digest` gives for these bytes.
pub uninterp spec fn sha1_digest(bytes: Seq<u8>) -> Seq<u8>;

/// Calls `sha1::Sha1::digest`. The contract claims only that the result is the
/// SHA-1 digest named above and that it has 20 bytes (`OutputSize = U20`).
#[verifier::external_body]
fn sha1_of(bytes: &[u8]) -> (res: Vec<u8>)
    ensures
        res@ == sha1_digest(bytes@),
        res@.len() == 20,
{
    sha1::Sha1::digest(bytes).to_vec()
}

/// The lowercase hexadecimal digit for `n < 16`: `0`..`9`, then `a`..`f`.
pub open spec fn hex_digit(n: int) -> char {
    if n < 10 { (48 + n) as char } else { (87 + n) as char }
}

/// Lowercase hex encoding: two digits per byte, high nibble first.
pub open spec fn hex_lower(bytes: Seq<u8>) -> Seq<char>
    decreases bytes.len(),
{
    if bytes.len() == 0 {
        Seq::empty()
    } else {
        hex_lower(bytes.drop_last()) + seq![
            hex_digit(bytes.last() as int / 16),
            hex_digit(bytes.last() as int % 16),
        ]
    }
}

pub proof fn lemma_hex_lower_len(bytes: Seq<u8>)
    ensures
        hex_lower(bytes).len() == 2 * bytes.len(),
    decreases bytes.len(),
{
    if bytes.len() > 0 {
        lemma_hex_lower_len(bytes.drop_last());
    }
}

fn hex_char(n: u8) -> (c: char)
    requires
        n < 16,
    ensures
        c == hex_digit(n as int),
{
    if n < 10 {
        (48u8 + n) as char
    } else {
        (87u8 + n) as char
    }
}

/// Lowercase hex encoding (as `hex::encode` writes it): two digits per byte,
/// high nibble first.
fn hex_encode(bytes: &[u8]) -> (res: String)
    ensures
        res@ == hex_lower(bytes@),
{
    let mut out: Vec<char> = Vec::new();
    let mut i: usize = 0;
    while i < bytes.len()
        invariant
            i <= bytes@.len(),
            out@ == hex_lower(bytes@.subrange(0, i as int)),
        decreases bytes.len() - i,
    {
        let b = bytes[i];
        let hi = hex_char(b / 16);
        let lo = hex_char(b % 16);
        proof {
            let s = bytes@.subrange(0, i + 1);
            assert(s.drop_last() =~= bytes@.subrange(0, i as int));
            assert(s.last() == b);
        }
        out.push(hi);
        out.push(lo);
        proof {
            assert(out@ =~= hex_lower(bytes@.subrange(0, i + 1)));
        }
        i = i + 1;
    }
    proof {
        assert(bytes@.subrange(0, bytes@.len() as int) =~= bytes@);
    }
    string_of(out.as_slice())
}

/// The signature of a header row: trimmed cells joined with `|`, hashed with
/// SHA-1 over their UTF-8 bytes, lowercase hex, first 12 characters.
pub open spec fn signature_spec(header: Seq<Seq<char>>) -> Seq<char> {
    hex_lower(sha1_digest(encode_utf8(join(header.map_values(|s: Seq<char>| trim(s)), "|"@)))).subrange(0, 12)
}

/// Computes the signature of a header row.
pub fn compute(header: &[String]) -> (res: String)
    ensures
        res@ == signature_spec(views(header@)),
        res@.len() == 12,
{
    let mut normalized: Vec<String> = Vec::new();
    let mut i: usize = 0;
    while i < header.len()
        invariant
            i <= header.len(),
            views(normalized@) =~= views(header@).subrange(0, i as int).map_values(|s: Seq<char>| trim(s)),
        decreases header.len() - i,
    {
        let t = str_trim(header[i].as_str());
        let ghost before = normalized@;
        normalized.push(t.to_owned());
        proof {
            assert(views(normalized@) =~= views(before).push(t@));
            assert(views(header@)[i as int] == header@[i as int]@);
        }
        i = i + 1;
    }
    proof {
        assert(views(header@).subrange(0, header.len() as int) =~= views(header@));
    }
    let joined_chars = join_strings(normalized.as_slice(), "|");
    let joined = string_of(joined_chars.as_slice());
    let digest = sha1_of(joined.as_str().as_bytes());
    signature_of_digest(digest.as_slice())
}

/// The signature for a digest: its lowercase hex, first 12 characters.
pub fn signature_of_digest(digest: &[u8]) -> (res: String)
    requires
        digest@.len() >= 6,
    ensures
        res@ == hex_lower(digest@).subrange(0, 12),
        res@.len() == 12,
{
    let full = hex_encode(digest);
    proof {
        lemma_hex_lower_len(digest@);
    }
    let fc = chars_of(full.as_str());
    let head = slice_chars(&fc, 0, 12);
    string_of(head.as_slice())
}

/// The signature depends on each cell only through its trimmed text.
pub proof fn law_signature_ignores_surrounding_whitespace(a: Seq<Seq<char>>, b: Seq<Seq<char>>)
    requires
        a.len() == b.len(),
        forall|i: int| 0 <= i < a.len() ==> trim(#[trigger] a[i]) == trim(b[i]),
    ensures
        signature_spec(a) == signature_spec(b),
{
    assert(a.map_values(|s: Seq<char>| trim(s)) =~= b.map_values(|s: Seq<char>| trim(s)));
}

} // verus!
