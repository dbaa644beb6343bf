//! The one combination of connection-string keys that the SQL Server
//! client's configuration refuses by panicking: `TrustServerCertificate` set to
//! true together with `TrustServerCertificateCA`.
//!
//! An ADO.NET connection string is a `;`-separated list of `key=value` pairs;
//! keys are compared without case and values of booleans are `true`/`yes`
//! (any case, surrounding whitespace ignored). Quotes, braces and newlines
//! can escape or join parts of keys and values; a string that holds any of
//! them is judged by the key text alone.
use vstd::prelude::*;
use crate::reader::{ascii_lower, to_ascii_lowercase};
use crate::text::{trim, contains_seq, chars_of, trim_chars, contains_chars, chars_equal_str, slice_chars};

verus! {

/// Characters that the connection-string lexer drops from, or uses to
/// delimit, the text of a key: quotes, braces, newlines and spaces.
pub open spec fn key_delimiter(c: char) -> bool {
    c == '{' || c == '}' || c == '"' || c == '\'' || c == '\n' || c == ' '
}

/// Characters that can escape or join parts of keys and values.
pub open spec fn escaping_char(c: char) -> bool {
    c == '{' || c == '}' || c == '"' || c == '\'' || c == '\n'
}

/// The string uses quoting, braces or newlines.
pub open spec fn has_escapes(s: Seq<char>) -> bool {
    exists|i: int| 0 <= i < s.len() && escaping_char(#[trigger] s[i])
}

/// The string with delimiters dropped and ASCII letters made lower case: any
/// key the lexer reads appears in it as one run of characters.
pub open spec fn squeezed(s: Seq<char>) -> Seq<char> {
    ascii_lower(s.filter(|c: char| !key_delimiter(c)))
}

/// The string may name the key `TrustServerCertificateCA`.
pub open spec fn may_name_ca_key(s: Seq<char>) -> bool {
    contains_seq(squeezed(s), "trustservercertificateca"@)
}

/// The first position from `i` on that holds `c`, or the length.
pub open spec fn next_char(s: Seq<char>, i: int, c: char) -> int
    decreases s.len() - i,
{
    if i < 0 || i >= s.len() {
        s.len() as int
    } else if s[i] == c {
        i
    } else {
        next_char(s, i + 1, c)
    }
}

/// `next_char` lies between `i` and the length, holds `c` when inside, and
/// nothing before it from `i` on does.
pub proof fn lemma_next_char(s: Seq<char>, i: int, c: char)
    requires
        0 <= i <= s.len(),
    ensures
        i <= next_char(s, i, c) <= s.len(),
        next_char(s, i, c) < s.len() ==> s[next_char(s, i, c)] == c,
        forall|k: int| i <= k < next_char(s, i, c) ==> s[k] != c,
    decreases s.len() - i,
{
    if i < s.len() && s[i] != c {
        lemma_next_char(s, i + 1, c);
    }
}

/// A `key=value` pair that sets `TrustServerCertificate` to true: the text
/// before the first `=`, trimmed and without case, is the key, and the text
/// after it, trimmed and without case, is `true` or `yes`.
pub open spec fn sets_trust_all(pair: Seq<char>) -> bool {
    let q = next_char(pair, 0, '=');
    &&& q < pair.len()
    &&& ascii_lower(trim(pair.subrange(0, q))) == "trustservercertificate"@
    &&& {
        let v = ascii_lower(trim(pair.subrange(q + 1, pair.len() as int)));
        v == "true"@ || v == "yes"@
    }
}

/// Some `;`-separated part from position `i` on sets
/// `TrustServerCertificate` to true.
pub open spec fn trust_all_from(s: Seq<char>, i: int) -> bool
    decreases s.len() + 1 - i,
{
    if i < 0 || i > s.len() {
        false
    } else {
        let e = next_char(s, i, ';');
        proof {
            lemma_next_char(s, i, ';');
        }
        sets_trust_all(s.subrange(i, e)) || (e < s.len() && trust_all_from(s, e + 1))
    }
}

/// The connection string may ask both to trust every server certificate and
/// to trust a given CA certificate. Without quotes, braces or newlines this
/// is read from its pairs; with them, the mention of the CA key suffices.
pub open spec fn trust_conflict(s: Seq<char>) -> bool {
    &&& may_name_ca_key(s)
    &&& (has_escapes(s) || trust_all_from(s, 0))
}

fn next_char_exec(s: &Vec<char>, i: usize, c: char) -> (res: usize)
    requires
        i <= s.len(),
    ensures
        res == next_char(s@, i as int, c),
{
    let mut k: usize = i;
    while k < s.len() && s[k] != c
        invariant
            i <= k <= s.len(),
            next_char(s@, i as int, c) == next_char(s@, k as int, c),
        decreases s.len() - k,
    {
        k = k + 1;
    }
    k
}

fn sets_trust_all_exec(pair: &Vec<char>) -> (res: bool)
    ensures
        res == sets_trust_all(pair@),
{
    let q = next_char_exec(pair, 0, '=');
    proof {
        lemma_next_char(pair@, 0, '=');
    }
    if q >= pair.len() {
        return false;
    }
    let key = to_ascii_lowercase(&trim_chars(&slice_chars(pair, 0, q)));
    if !chars_equal_str(&key, "trustservercertificate") {
        return false;
    }
    let v = to_ascii_lowercase(&trim_chars(&slice_chars(pair, q + 1, pair.len())));
    chars_equal_str(&v, "true") || chars_equal_str(&v, "yes")
}

/// Whether the connection string may set both trust options.
pub fn has_trust_conflict(conn: &str) -> (res: bool)
    ensures
        res == trust_conflict(conn@),
{
    let s = chars_of(conn);
    let ghost keep = |c: char| !key_delimiter(c);
    // The squeezed text, and whether any escaping character occurs.
    let mut kept: Vec<char> = Vec::new();
    let mut escapes = false;
    let mut i: usize = 0;
    while i < s.len()
        invariant
            i <= s.len(),
            s@ == conn@,
            keep == (|c: char| !key_delimiter(c)),
            kept@ == s@.subrange(0, i as int).filter(keep),
            escapes == exists|k: int| 0 <= k < i && escaping_char(#[trigger] s@[k]),
        decreases s.len() - i,
    {
        let c = s[i];
        proof {
            s@.subrange(0, i as int).lemma_filter_push(c, keep);
            assert(s@.subrange(0, i + 1) =~= s@.subrange(0, i as int).push(c));
        }
        if !(c == '{' || c == '}' || c == '"' || c == '\'' || c == '\n' || c == ' ') {
            kept.push(c);
        }
        if c == '{' || c == '}' || c == '"' || c == '\'' || c == '\n' {
            escapes = true;
        }
        proof {
            if !escapes {
                assert forall|k: int| 0 <= k < i + 1 implies !escaping_char(#[trigger] s@[k]) by {
                    if k == i {
                        assert(s@[k] == c);
                    }
                }
            }
        }
        i = i + 1;
    }
    proof {
        assert(s@.subrange(0, s.len() as int) =~= s@);
    }
    let lower = to_ascii_lowercase(&kept);
    let ca = chars_of("trustservercertificateca");
    proof {
        reveal_strlit("trustservercertificateca");
    }
    if !contains_chars(&lower, &ca) {
        return false;
    }
    proof {
        assert(lower@ == squeezed(conn@));
        assert(may_name_ca_key(conn@));
        assert(escapes == has_escapes(conn@));
    }
    if escapes {
        return true;
    }
    // Walk the `;`-separated parts.
    let mut start: usize = 0;
    loop
        invariant
            start <= s.len(),
            s@ == conn@,
            trust_all_from(s@, 0) == trust_all_from(s@, start as int),
            may_name_ca_key(conn@),
            !has_escapes(conn@),
        decreases s.len() - start,
    {
        let e = next_char_exec(&s, start, ';');
        proof {
            lemma_next_char(s@, start as int, ';');
        }
        let part = slice_chars(&s, start, e);
        proof {
            assert(trust_all_from(s@, start as int) == (sets_trust_all(s@.subrange(start as int, e as int))
                || (e < s@.len() && trust_all_from(s@, e + 1))));
        }
        if sets_trust_all_exec(&part) {
            return true;
        }
        if e >= s.len() {
            return false;
        }
        start = e + 1;
    }
}

} // verus!
