//! Turning a raw cell into a decimal value according to the value rules.
use vstd::prelude::*;
use crate::decimal::{DecimalValue, decimal_from_str, dec_lt, parse_decimal, less_than};
use crate::error::{ReshapeError, ReshapeErrorView};
use crate::profile::{ValueKind, ValueRules};
use crate::text::{trim, views, chars_of, trim_chars, chars_equal, string_of};

verus! {

/// The missing-value tokens of the rules.
pub open spec fn missing_tokens(rules: &ValueRules) -> Seq<Seq<char>> {
    views(rules.missing_values@)
}

/// A cell is missing when it is blank, or equal (as is or trimmed) to one of
/// the missing-value tokens.
pub open spec fn is_missing(raw: Seq<char>, rules: &ValueRules) -> bool {
    trim(raw).len() == 0 || exists|i: int|
        0 <= i < missing_tokens(rules).len() && (#[trigger] missing_tokens(rules)[i] == raw
            || missing_tokens(rules)[i] == trim(raw))
}

/// The text with every `,` removed (`str::replace(',', "")`).
pub open spec fn strip_commas(s: Seq<char>) -> Seq<char> {
    s.filter(|c: char| c != ',')
}

/// The name of a value kind, as `Debug` prints it.
pub open spec fn kind_name(k: ValueKind) -> Seq<char> {
    match k {
        ValueKind::Decimal => "Decimal"@,
        ValueKind::Int => "Int"@,
        ValueKind::String => "String"@,
    }
}

/// The decimal that a triple from `decimal_from_str` stands for.
pub open spec fn to_decimal(t: (bool, nat, nat)) -> DecimalValue {
    DecimalValue { negative: t.0, magnitude: t.1 as u128, scale: t.2 as u32 }
}

/// The range and zero checks on a parsed value.
pub open spec fn range_spec(d: DecimalValue, rules: &ValueRules, row: usize, col: usize, raw: Seq<char>) -> Option<ReshapeErrorView> {
    let oor = ReshapeErrorView::OutOfRange { row, col, value: raw, min: rules.min, max: rules.max };
    if rules.min matches Some(m) && dec_lt(d, m) {
        Some(oor)
    } else if rules.max matches Some(m) && dec_lt(m, d) {
        Some(oor)
    } else if !rules.zero_is_valid && d.spec_is_zero() {
        Some(ReshapeErrorView::Cast { row, col, value: raw, kind: "zero_is_valid=false"@ })
    } else {
        None
    }
}

/// What `cast_value` gives: nothing for a missing cell or a `String` column;
/// otherwise the cell, trimmed and without `,`, parsed as a decimal and checked
/// against the bounds and the zero rule.
pub open spec fn cast_spec(raw: Seq<char>, rules: &ValueRules, row: usize, col: usize) -> Result<Option<DecimalValue>, ReshapeErrorView> {
    if is_missing(raw, rules) {
        Ok(None)
    } else if rules.kind == ValueKind::String {
        Ok(None)
    } else {
        match decimal_from_str(strip_commas(trim(raw))) {
            None => Err(ReshapeErrorView::Cast { row, col, value: raw, kind: kind_name(rules.kind) }),
            Some(t) => match range_spec(to_decimal(t), rules, row, col, raw) {
                Some(e) => Err(e),
                None => Ok(Some(to_decimal(t))),
            },
        }
    }
}

fn remove_commas(s: &Vec<char>) -> (res: Vec<char>)
    ensures
        res@ == strip_commas(s@),
{
    let mut out: Vec<char> = Vec::new();
    let mut i: usize = 0;
    while i < s.len()
        invariant
            i <= s.len(),
            out@ == strip_commas(s@.subrange(0, i as int)),
        decreases s.len() - i,
    {
        proof {
            assert(s@.subrange(0, i + 1) =~= s@.subrange(0, i as int).push(s@[i as int]));
            s@.subrange(0, i as int).lemma_filter_push(s@[i as int], |c: char| c != ',');
        }
        if s[i] != ',' {
            out.push(s[i]);
        }
        i = i + 1;
    }
    proof {
        assert(s@.subrange(0, s.len() as int) =~= s@);
    }
    out
}

fn missing(raw: &Vec<char>, trimmed: &Vec<char>, rules: &ValueRules) -> (res: bool)
    requires
        trimmed@ == trim(raw@),
    ensures
        res == is_missing(raw@, rules),
{
    if trimmed.len() == 0 {
        return true;
    }
    let mut i: usize = 0;
    while i < rules.missing_values.len()
        invariant
            i <= rules.missing_values.len(),
            trimmed@ == trim(raw@),
            trim(raw@).len() != 0,
            forall|k: int| 0 <= k < i ==> !(#[trigger] missing_tokens(rules)[k] == raw@
                || missing_tokens(rules)[k] == trim(raw@)),
        decreases rules.missing_values.len() - i,
    {
        let m = chars_of(rules.missing_values[i].as_str());
        proof {
            assert(missing_tokens(rules)[i as int] == m@);
        }
        if chars_equal(&m, raw) || chars_equal(&m, trimmed) {
            return true;
        }
        i = i + 1;
    }
    false
}

fn kind_text(k: ValueKind) -> (res: String)
    ensures
        res@ == kind_name(k),
{
    match k {
        ValueKind::Decimal => "Decimal".to_owned(),
        ValueKind::Int => "Int".to_owned(),
        ValueKind::String => "String".to_owned(),
    }
}

/// Checks a parsed value against the bounds (inclusive) and the zero rule.
pub fn check_range(d: &DecimalValue, rules: &ValueRules, row: usize, col: usize, raw: &str) -> (res: Result<(), ReshapeError>)
    requires
        d.wf(),
        rules.wf(),
    ensures
        match res {
            Ok(()) => range_spec(*d, rules, row, col, raw@) is None,
            Err(e) => range_spec(*d, rules, row, col, raw@) == Some(e@),
        },
{
    if let Some(m) = &rules.min {
        if less_than(d, m) {
            return Err(ReshapeError::OutOfRange { row, col, value: raw.to_owned(), min: rules.min, max: rules.max });
        }
    }
    if let Some(m) = &rules.max {
        if less_than(m, d) {
            return Err(ReshapeError::OutOfRange { row, col, value: raw.to_owned(), min: rules.min, max: rules.max });
        }
    }
    if !rules.zero_is_valid && d.is_zero() {
        return Err(ReshapeError::Cast { row, col, value: raw.to_owned(), kind: "zero_is_valid=false".to_owned() });
    }
    Ok(())
}

/// Casts a raw cell into an optional decimal according to the value rules:
/// `Ok(None)` for missing values, `Err` for parse and range failures.
pub fn cast_value(raw: &str, rules: &ValueRules, row: usize, col: usize) -> (res: Result<Option<DecimalValue>, ReshapeError>)
    requires
        rules.wf(),
    ensures
        match res {
            Ok(v) => cast_spec(raw@, rules, row, col) == Ok::<Option<DecimalValue>, ReshapeErrorView>(v),
            Err(e) => cast_spec(raw@, rules, row, col) == Err::<Option<DecimalValue>, ReshapeErrorView>(e@),
        },
        res matches Ok(Some(d)) ==> d.wf(),
{
    let rc = chars_of(raw);
    let trimmed = trim_chars(&rc);
    if missing(&rc, &trimmed, rules) {
        return Ok(None);
    }
    match rules.kind {
        ValueKind::String => Ok(None),
        _ => {
            let cleaned = remove_commas(&trimmed);
            let cs = string_of(cleaned.as_slice());
            match parse_decimal(cs.as_str()) {
                None => Err(ReshapeError::Cast { row, col, value: raw.to_owned(), kind: kind_text(rules.kind) }),
                Some(d) => {
                    match check_range(&d, rules, row, col, raw) {
                        Err(e) => Err(e),
                        Ok(()) => Ok(Some(d)),
                    }
                },
            }
        },
    }
}

/// A filled cell that reads as a number within the bounds (and not a
/// forbidden zero) casts to that number in a `Decimal` or an `Int` column;
/// only a `String` column gives nothing for it.
pub proof fn law_numbers_cast_unless_string(raw: Seq<char>, rules: &ValueRules, row: usize, col: usize, t: (bool, nat, nat))
    requires
        trim(raw).len() > 0,
        forall|i: int| 0 <= i < rules.missing_values@.len()
            ==> #[trigger] rules.missing_values@[i]@ != raw && rules.missing_values@[i]@ != trim(raw),
        decimal_from_str(strip_commas(trim(raw))) == Some(t),
        rules.min matches Some(m) ==> !dec_lt(to_decimal(t), m),
        rules.max matches Some(m) ==> !dec_lt(m, to_decimal(t)),
        rules.zero_is_valid || !to_decimal(t).spec_is_zero(),
    ensures
        rules.kind == ValueKind::String ==> cast_spec(raw, rules, row, col) == Ok::<Option<DecimalValue>, ReshapeErrorView>(None),
        rules.kind != ValueKind::String ==> cast_spec(raw, rules, row, col) == Ok::<Option<DecimalValue>, ReshapeErrorView>(Some(to_decimal(t))),
{
    assert(!is_missing(raw, rules)) by {
        if is_missing(raw, rules) {
            let i = choose|i: int| 0 <= i < missing_tokens(rules).len() && (#[trigger] missing_tokens(rules)[i] == raw
                || missing_tokens(rules)[i] == trim(raw));
            assert(missing_tokens(rules)[i] == rules.missing_values@[i]@);
        }
    }
}

/// An `Int` column casts a cell exactly as a `Decimal` column with the same
/// rules does whenever the latter gives a value (or nothing).
pub proof fn law_int_columns_cast_like_decimal(raw: Seq<char>, dec: &ValueRules, int_rules: &ValueRules, row: usize, col: usize)
    requires
        dec.kind == ValueKind::Decimal,
        int_rules.kind == ValueKind::Int,
        int_rules.decimals == dec.decimals,
        int_rules.missing_values@ == dec.missing_values@,
        int_rules.zero_is_valid == dec.zero_is_valid,
        int_rules.min == dec.min,
        int_rules.max == dec.max,
    ensures
        cast_spec(raw, dec, row, col) matches Ok(v) ==> cast_spec(raw, int_rules, row, col) == Ok::<Option<DecimalValue>, ReshapeErrorView>(v),
{
    assert(missing_tokens(dec) == missing_tokens(int_rules));
}

} // verus!
