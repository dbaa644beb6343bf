//! Settings of a run, as plain values.
use vstd::prelude::*;
use crate::text::{chars_of, chars_equal, string_of, push_all, contains_chars, contains_seq, occurs_at, slice_chars};

verus! {

/// The settings of a run.
#[derive(Debug, Clone)]
pub struct Config {
    pub source: SourceCfg,
    pub database: DatabaseCfg,
    pub log: LogCfg,
    pub profile: ProfileCfg,
}

/// Where input files are read, and where they go afterwards.
#[derive(Debug, Clone)]
pub struct SourceCfg {
    pub input_dir: String,
    pub backup_dir: String,
    pub error_dir: String,
}

/// The database target. `enabled` holds the per-target switches
/// (one entry per target name).
#[derive(Debug, Clone)]
pub struct DatabaseCfg {
    pub target: String,
    pub conn: String,
    pub table: String,
    pub enabled: Vec<(String, bool)>,
}

/// Where logs go and at which level.
#[derive(Debug, Clone)]
pub struct LogCfg {
    pub dir: String,
    pub level: String,
}

/// Where profiles are loaded from.
#[derive(Debug, Clone)]
pub struct ProfileCfg {
    pub dir: String,
}

/// Whether the switches have an entry for `target` set to true; a target
/// without an entry is switched off.
pub open spec fn enabled_spec(cfg: &DatabaseCfg, target: Seq<char>) -> bool {
    exists|i: int| 0 <= i < cfg.enabled@.len() && (#[trigger] cfg.enabled@[i]).0@ == target && cfg.enabled@[i].1
        && forall|j: int| 0 <= j < i ==> cfg.enabled@[j].0@ != target
}

impl DatabaseCfg {
    /// The switches name each target at most once, as the keys of a map do.
    pub open spec fn wf(&self) -> bool {
        forall|i: int, j: int| 0 <= i < j < self.enabled@.len() ==> (#[trigger] self.enabled@[i]).0@ != (#[trigger] self.enabled@[j]).0@
    }

    /// Whether the switches name each target at most once.
    pub fn switches_distinct(&self) -> (res: bool)
        ensures
            res == self.wf(),
    {
        let mut i: usize = 0;
        while i < self.enabled.len()
            invariant
                i <= self.enabled@.len(),
                forall|a: int, b: int| 0 <= a < b < self.enabled@.len() && a < i ==> (#[trigger] self.enabled@[a]).0@ != (#[trigger] self.enabled@[b]).0@,
            decreases self.enabled.len() - i,
        {
            let ki = chars_of(self.enabled[i].0.as_str());
            let mut j: usize = i + 1;
            while j < self.enabled.len()
                invariant
                    i < j <= self.enabled@.len(),
                    ki@ == self.enabled@[i as int].0@,
                    forall|a: int, b: int| 0 <= a < b < self.enabled@.len() && a < i ==> (#[trigger] self.enabled@[a]).0@ != (#[trigger] self.enabled@[b]).0@,
                    forall|b: int| i < b < j ==> self.enabled@[i as int].0@ != (#[trigger] self.enabled@[b]).0@,
                decreases self.enabled.len() - j,
            {
                let kj = chars_of(self.enabled[j].0.as_str());
                if chars_equal(&ki, &kj) {
                    return false;
                }
                j = j + 1;
            }
            proof {
                assert forall|a: int, b: int| 0 <= a < b < self.enabled@.len() && a < i + 1 implies (#[trigger] self.enabled@[a]).0@ != (#[trigger] self.enabled@[b]).0@ by {
                    if a == i {
                        assert(self.enabled@[i as int].0@ != self.enabled@[b].0@);
                    }
                }
            }
            i = i + 1;
        }
        true
    }

    /// Whether `target` is switched on (off when it has no entry). With
    /// distinct keys this is the target's own entry, as in a map.
    pub fn is_enabled(&self, target: &str) -> (res: bool)
        ensures
            res == enabled_spec(self, target@),
            self.wf() ==> (res <==> exists|i: int| 0 <= i < self.enabled@.len() && (#[trigger] self.enabled@[i]).0@ == target@ && self.enabled@[i].1),
    {
        let t = chars_of(target);
        let mut i: usize = 0;
        while i < self.enabled.len()
            invariant
                i <= self.enabled@.len(),
                t@ == target@,
                forall|j: int| 0 <= j < i ==> self.enabled@[j].0@ != target@,
            decreases self.enabled.len() - i,
        {
            let k = chars_of(self.enabled[i].0.as_str());
            if chars_equal(&k, &t) {
                let v = self.enabled[i].1;
                proof {
                    if !v {
                        assert forall|ii: int| !(0 <= ii < self.enabled@.len() && (#[trigger] self.enabled@[ii]).0@ == target@ && self.enabled@[ii].1
                            && forall|j: int| 0 <= j < ii ==> self.enabled@[j].0@ != target@) by {
                            if 0 <= ii < self.enabled@.len() && self.enabled@[ii].0@ == target@ && self.enabled@[ii].1 {
                                if ii > i {
                                    assert(self.enabled@[i as int].0@ == target@);
                                }
                            }
                        }
                    } else {
                        assert(self.enabled@[i as int].0@ == target@ && self.enabled@[i as int].1);
                    }
                }
                return v;
            }
            i = i + 1;
        }
        false
    }
}

/// The placeholder in a connection string that the password replaces.
pub open spec fn password_placeholder() -> Seq<char> {
    "<REPLACED_BY_ENV>"@
}

/// Every occurrence of `from` in `s` (left to right, not overlapping)
/// replaced by `to` (`str::replace`), `from` not empty.
pub open spec fn replace_all(s: Seq<char>, from: Seq<char>, to: Seq<char>) -> Seq<char>
    decreases s.len(),
{
    if from.len() == 0 || s.len() < from.len() {
        s
    } else if s.subrange(0, from.len() as int) == from {
        to + replace_all(s.subrange(from.len() as int, s.len() as int), from, to)
    } else {
        seq![s[0]] + replace_all(s.subrange(1, s.len() as int), from, to)
    }
}

/// The connection string with the password put in place of the placeholder
/// (unchanged when it holds none).
pub open spec fn with_password_spec(conn: Seq<char>, password: Seq<char>) -> Seq<char> {
    if contains_seq(conn, password_placeholder()) {
        replace_all(conn, password_placeholder(), password)
    } else {
        conn
    }
}

fn replace_all_exec(s: &Vec<char>, from: &Vec<char>, to: &Vec<char>) -> (res: Vec<char>)
    requires
        from.len() > 0,
    ensures
        res@ == replace_all(s@, from@, to@),
{
    let mut out: Vec<char> = Vec::new();
    let mut i: usize = 0;
    proof {
        assert(s@.subrange(0, s.len() as int) =~= s@);
        assert(out@ + replace_all(s@, from@, to@) =~= replace_all(s@, from@, to@));
    }
    while i < s.len()
        invariant
            i <= s.len(),
            from.len() > 0,
            replace_all(s@, from@, to@) == out@ + replace_all(s@.subrange(i as int, s.len() as int), from@, to@),
        decreases s.len() - i,
    {
        let ghost rest = s@.subrange(i as int, s.len() as int);
        if s.len() - i >= from.len() && crate::text::starts_with(&slice_chars(s, i, s.len()), from) {
            push_all(&mut out, to);
            proof {
                assert(rest.subrange(0, from.len() as int) == from@);
                assert(rest.subrange(from.len() as int, rest.len() as int) =~= s@.subrange(i + from.len(), s.len() as int));
                assert(replace_all(s@, from@, to@) =~= out@ + replace_all(s@.subrange(i + from.len(), s.len() as int), from@, to@));
            }
            i = i + from.len();
        } else {
            out.push(s[i]);
            proof {
                if rest.len() >= from.len() {
                    assert(rest.subrange(0, from.len() as int) != from@);
                }
                assert(rest.subrange(1, rest.len() as int) =~= s@.subrange(i + 1, s.len() as int));
                if rest.len() < from.len() {
                    // Too short to hold `from`: the rest stays as it is.
                    assert(replace_all(rest, from@, to@) == rest);
                    assert(rest.subrange(1, rest.len() as int).len() < from.len());
                    assert(replace_all(rest.subrange(1, rest.len() as int), from@, to@) == rest.subrange(1, rest.len() as int));
                    assert(rest =~= seq![s@[i as int]] + rest.subrange(1, rest.len() as int));
                }
                assert(replace_all(s@, from@, to@) =~= out@ + replace_all(s@.subrange(i + 1, s.len() as int), from@, to@));
            }
            i = i + 1;
        }
    }
    proof {
        assert(out@ + replace_all(Seq::<char>::empty(), from@, to@) =~= out@);
    }
    out
}

/// Puts the password in place of the placeholder of a connection string.
pub fn with_password(conn: &str, password: &str) -> (res: String)
    ensures
        res@ == with_password_spec(conn@, password@),
{
    let c = chars_of(conn);
    let ph = chars_of("<REPLACED_BY_ENV>");
    proof {
        reveal_strlit("<REPLACED_BY_ENV>");
    }
    if contains_chars(&c, &ph) {
        let p = chars_of(password);
        proof {
            assert(c@ == conn@);
        }
        let r = replace_all_exec(&c, &ph, &p);
        string_of(r.as_slice())
    } else {
        conn.to_owned()
    }
}

} // verus!
