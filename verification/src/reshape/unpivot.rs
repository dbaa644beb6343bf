//! The row constructor of the wide-to-long unpivot.
use vstd::prelude::*;
use crate::dao::row::{DailyKwhRow, RowView};
use crate::decimal::DecimalValue;
use crate::text::{nat_text2, chars_of, push_decimal2, string_of};

verus! {

/// The row that `make_row` builds: the day appended to the year-month with at
/// least two digits (`"YYYYMM" + "DD"`).
pub open spec fn row_spec(caseid: Seq<char>, plant_name: Option<Seq<char>>, year_month: Seq<char>, day: u32, value: Option<DecimalValue>) -> RowView {
    RowView { caseid, plant_name, shift_hour: year_month + nat_text2(day as nat), daily_kwh: value }
}

pub fn make_row(caseid: &str, plant_name: Option<&str>, year_month: &str, day: u32, value: Option<DecimalValue>) -> (res: DailyKwhRow)
    ensures
        res@ == row_spec(
            caseid@,
            match plant_name {
                Some(p) => Some(p@),
                None => None,
            },
            year_month@,
            day,
            value,
        ),
{
    let mut sh = chars_of(year_month);
    push_decimal2(&mut sh, day as u64);
    DailyKwhRow {
        caseid: caseid.to_owned(),
        plant_name: match plant_name {
            Some(p) => Some(p.to_owned()),
            None => None,
        },
        shift_hour: string_of(sh.as_slice()),
        daily_kwh: value,
    }
}

} // verus!
