//! The output row of the importer.
use vstd::prelude::*;
use crate::decimal::DecimalValue;

verus! {

/// One output row: a case, a day and its reading.
#[derive(Debug, Clone, PartialEq, Eq)]
pub struct DailyKwhRow {
    pub caseid: String,
    pub plant_name: Option<String>,
    /// `"YYYYMMDD"`.
    pub shift_hour: String,
    pub daily_kwh: Option<DecimalValue>,
}

/// A `DailyKwhRow` with its strings taken by their characters.
pub struct RowView {
    pub caseid: Seq<char>,
    pub plant_name: Option<Seq<char>>,
    pub shift_hour: Seq<char>,
    pub daily_kwh: Option<DecimalValue>,
}

impl View for DailyKwhRow {
    type V = RowView;

    open spec fn view(&self) -> RowView {
        RowView {
            caseid: self.caseid@,
            plant_name: match self.plant_name {
                Some(s) => Some(s@),
                None => None,
            },
            shift_hour: self.shift_hour@,
            daily_kwh: self.daily_kwh,
        }
    }
}

} // verus!
