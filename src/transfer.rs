use vstd::prelude::*;
use crate::record::Record;

verus! {

/// The interval between two records, in whole minutes.
#[derive(Debug, PartialEq)]
pub struct Transfer {
    pub from: Record,
    pub to: Record,
    pub minutes: i64,
}

impl Transfer {
    pub fn new(from: Record, to: Record, minutes: i64) -> (r: Result<Transfer, crate::error::ShipError>)
        ensures
            r matches Ok(t) && t.from == from && t.to == to && t.minutes == minutes,
    {
        Ok(Transfer { from, to, minutes })
    }
}

} // verus!
