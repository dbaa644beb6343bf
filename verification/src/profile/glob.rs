//! Filename glob matching with `*` (any run of characters) and `?` (any one
//! character).
use vstd::prelude::*;
use vstd::string::StringSliceAdditionalSpecFns;
use crate::text::chars_of;

verus! {

/// Whether the pattern characters from `i` match the text characters from
/// `j`: `*` matches any (possibly empty) run of characters, `?` exactly one
/// character, and every other character itself.
pub open spec fn glob_from(p: Seq<char>, t: Seq<char>, i: nat, j: nat) -> bool
    decreases p.len() + t.len() - (i + j) when i <= p.len() && j <= t.len()
{
    if i >= p.len() {
        j >= t.len()
    } else if p[i as int] == '*' {
        glob_from(p, t, i + 1, j) || (j < t.len() && glob_from(p, t, i, j + 1))
    } else if p[i as int] == '?' {
        j < t.len() && glob_from(p, t, i + 1, j + 1)
    } else {
        j < t.len() && p[i as int] == t[j as int] && glob_from(p, t, i + 1, j + 1)
    }
}

/// The whole pattern matches the whole text.
pub open spec fn glob_spec(p: Seq<char>, t: Seq<char>) -> bool {
    glob_from(p, t, 0, 0)
}

/// No `*` in the pattern between `a` (inclusive) and `b` (exclusive).
pub open spec fn star_free(p: Seq<char>, a: int, b: int) -> bool {
    forall|k: int| a <= k < b ==> #[trigger] p[k] != '*'
}

/// A star may absorb more text: matching from a later position implies
/// matching from an earlier one.
proof fn lemma_star_absorb(p: Seq<char>, t: Seq<char>, i: nat, j: nat, j2: nat)
    requires
        i < p.len(),
        p[i as int] == '*',
        j <= j2 <= t.len(),
        glob_from(p, t, i, j2),
    ensures
        glob_from(p, t, i, j),
    decreases j2 - j,
{
    if j < j2 {
        lemma_star_absorb(p, t, i, j + 1, j2);
    }
}

/// A star matches iff the rest of the pattern matches from some later position.
proof fn lemma_star_witness(p: Seq<char>, t: Seq<char>, i: nat, j: nat) -> (k: nat)
    requires
        i < p.len(),
        p[i as int] == '*',
        j <= t.len(),
        glob_from(p, t, i, j),
    ensures
        j <= k <= t.len(),
        glob_from(p, t, i + 1, k),
    decreases t.len() - j,
{
    if glob_from(p, t, i + 1, j) {
        j
    } else {
        lemma_star_witness(p, t, i, j + 1)
    }
}

/// A run of pattern characters without `*` consumes exactly as many text
/// characters.
proof fn lemma_forced(p: Seq<char>, t: Seq<char>, a: nat, b: nat, k: nat)
    requires
        a <= b <= p.len(),
        star_free(p, a as int, b as int),
        k <= t.len(),
        glob_from(p, t, a, k),
    ensures
        k + (b - a) <= t.len(),
        glob_from(p, t, b, (k + (b - a)) as nat),
    decreases b - a,
{
    if a < b {
        assert(p[a as int] != '*');
        lemma_forced(p, t, a + 1, b, k + 1);
    }
}

/// At the end of the text, the rest of the pattern must be all stars.
proof fn lemma_tail(p: Seq<char>, t: Seq<char>, i: nat)
    requires
        i <= p.len(),
    ensures
        glob_from(p, t, i, t.len()) == (forall|k: int| i <= k < p.len() ==> #[trigger] p[k]
            == '*'),
    decreases p.len() - i,
{
    if i < p.len() {
        lemma_tail(p, t, i + 1);
    }
}

/// Glob match of `name` against `pattern`, character by character: `*`
/// matches any run of characters (possibly empty) and `?` any single
/// character, whatever its UTF-8 length; no `**` or `[..]`.
pub fn glob_match(pattern: &str, name: &str) -> (res: bool)
    ensures
        res == glob_spec(pattern@, name@),
{
    let p = chars_of(pattern);
    let t = chars_of(name);
    glob_chars(&p, &t)
}

fn glob_chars(pat: &Vec<char>, txt: &Vec<char>) -> (res: bool)
    ensures
        res == glob_spec(pat@, txt@),
{
    let ghost p = pat@;
    let ghost t = txt@;
    let n = txt.len();
    let m = pat.len();
    let mut pi: usize = 0;
    let mut ti: usize = 0;
    let mut has_star = false;
    let mut sp: usize = 0;
    let mut st: usize = 0;
    while ti < n
        invariant
            n == t.len(),
            m == p.len(),
            p == pat@,
            t == txt@,
            pi <= m,
            ti <= n,
            !has_star ==> glob_spec(p, t) == glob_from(p, t, pi as nat, ti as nat),
            has_star ==> {
                &&& sp < pi
                &&& p[sp as int] == '*'
                &&& st <= ti
                &&& ti - st == pi - (sp + 1)
                &&& star_free(p, sp + 1, pi as int)
                &&& glob_from(p, t, (sp + 1) as nat, st as nat) == glob_from(
                    p,
                    t,
                    pi as nat,
                    ti as nat,
                )
                &&& glob_spec(p, t) == glob_from(p, t, sp as nat, st as nat)
            },
        decreases
            (if has_star { n + 1 - st } else { n + 2 }),
            (m - pi) + (n - ti),
    {
        if pi < m {
            let b = pat[pi];
            if b == '*' {
                proof {
                    if has_star {
                        // The previous star's alternatives are subsumed by this one.
                        if glob_from(p, t, sp as nat, st as nat) {
                            let k = lemma_star_witness(p, t, sp as nat, st as nat);
                            lemma_forced(p, t, (sp + 1) as nat, pi as nat, k);
                            lemma_star_absorb(
                                p,
                                t,
                                pi as nat,
                                ti as nat,
                                (k + (pi - (sp + 1))) as nat,
                            );
                        }
                        if glob_from(p, t, pi as nat, ti as nat) {
                            assert(glob_from(p, t, (sp + 1) as nat, st as nat));
                        }
                    }
                }
                has_star = true;
                sp = pi;
                st = ti;
                pi = pi + 1;
                continue ;
            } else if b == '?' {
                pi = pi + 1;
                ti = ti + 1;
                continue ;
            } else if b == txt[ti] {
                pi = pi + 1;
                ti = ti + 1;
                continue ;
            }
        }
        if has_star {
            proof {
                assert(!glob_from(p, t, pi as nat, ti as nat));
            }
            pi = sp + 1;
            ti = st + 1;
            st = st + 1;
            continue ;
        }
        return false;
    }
    proof {
        if has_star {
            if glob_from(p, t, sp as nat, st as nat) {
                let k = lemma_star_witness(p, t, sp as nat, st as nat);
                lemma_forced(p, t, (sp + 1) as nat, pi as nat, k);
                assert(k == st);
            }
        }
        lemma_tail(p, t, pi as nat);
    }
    let ghost pi0 = pi;
    while pi < m && pat[pi] == '*'
        invariant
            pi0 <= pi <= m,
            m == p.len(),
            p == pat@,
            forall|k: int| pi0 <= k < pi ==> #[trigger] p[k] == '*',
        decreases m - pi,
    {
        pi = pi + 1;
    }
    pi == m
}

proof fn lemma_star_from(t: Seq<char>, j: nat)
    requires
        j <= t.len(),
    ensures
        glob_from(seq!['*'], t, 0, j),
    decreases t.len() - j,
{
    let p = seq!['*'];
    assert(glob_from(p, t, 1, t.len()));
    if j < t.len() {
        lemma_star_from(t, j + 1);
    }
}

/// The pattern `*` matches every name.
pub proof fn law_star_matches_everything(t: Seq<char>)
    ensures
        glob_spec(seq!['*'], t),
{
    lemma_star_from(t, 0);
}

/// No wildcard (`*` or `?`) in the pattern from `i` on.
pub open spec fn literal_from(p: Seq<char>, i: int) -> bool {
    forall|k: int| i <= k < p.len() ==> #[trigger] p[k] != '*' && p[k] != '?'
}

proof fn lemma_literal_from(p: Seq<char>, t: Seq<char>, i: nat, j: nat)
    requires
        i <= p.len(),
        j <= t.len(),
        literal_from(p, i as int),
    ensures
        glob_from(p, t, i, j) <==> (p.len() - i == t.len() - j && p.subrange(i as int, p.len() as int) == t.subrange(j as int, t.len() as int)),
    decreases p.len() - i,
{
    if i < p.len() {
        if j < t.len() {
            lemma_literal_from(p, t, i + 1, j + 1);
            if p.len() - i == t.len() - j && p.subrange(i as int, p.len() as int) == t.subrange(j as int, t.len() as int) {
                assert(p[i as int] == p.subrange(i as int, p.len() as int)[0]);
                assert(t[j as int] == t.subrange(j as int, t.len() as int)[0]);
                assert(p.subrange((i + 1) as int, p.len() as int) =~= p.subrange(i as int, p.len() as int).subrange(1, p.len() - i));
                assert(t.subrange((j + 1) as int, t.len() as int) =~= t.subrange(j as int, t.len() as int).subrange(1, t.len() - j));
            }
            if glob_from(p, t, i, j) {
                assert(p.subrange(i as int, p.len() as int) =~= seq![p[i as int]] + p.subrange((i + 1) as int, p.len() as int));
                assert(t.subrange(j as int, t.len() as int) =~= seq![t[j as int]] + t.subrange((j + 1) as int, t.len() as int));
            }
        }
    } else {
        if j == t.len() {
            assert(p.subrange(i as int, p.len() as int) =~= t.subrange(j as int, t.len() as int));
        }
    }
}

/// A pattern without wildcards matches exactly the name equal to it.
pub proof fn law_literal_pattern_matches_only_itself(p: Seq<char>, t: Seq<char>)
    requires
        literal_from(p, 0),
    ensures
        glob_spec(p, t) <==> p == t,
{
    lemma_literal_from(p, t, 0, 0);
    assert(p.subrange(0, p.len() as int) =~= p);
    assert(t.subrange(0, t.len() as int) =~= t);
}

/// A pattern `*` followed by literal characters matches every name that ends
/// with them (such as `*.csv` and every `.csv` file).
pub proof fn law_star_suffix(s: Seq<char>, t: Seq<char>)
    requires
        literal_from(s, 0),
        s.len() <= t.len(),
        t.subrange(t.len() - s.len(), t.len() as int) == s,
    ensures
        glob_spec(seq!['*'] + s, t),
{
    let p = seq!['*'] + s;
    let j = (t.len() - s.len()) as nat;
    assert(literal_from(p, 1)) by {
        assert forall|k: int| 1 <= k < p.len() implies #[trigger] p[k] != '*' && p[k] != '?' by {
            assert(p[k] == s[k - 1]);
        }
    }
    lemma_literal_from(p, t, 1, j);
    assert(p.subrange(1, p.len() as int) =~= s);
    assert(glob_from(p, t, 1, j));
    assert(glob_from(p, t, 0, j));
    lemma_star_absorb(p, t, 0, 0, j);
}

} // verus!
