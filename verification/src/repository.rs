//! What the store of power descriptions holds, and what a lookup gives.

use vstd::prelude::*;

verus! {

/// The description of one power, as the store holds it.
#[derive(Debug, Clone)]
pub struct PowerRecord {
    /// The name under which the power is stored and shown.
    pub name: String,
    /// The usage category: `At-Will`, `Encounter`, `Daily`.
    pub usage_category: String,
    /// The stored HTML of the power. One element of it carries the sentinel
    /// identity.
    pub raw_markup: String,
}

/// What a [`PowerRecord`] holds.
pub struct PowerRecordView {
    pub name: Seq<char>,
    pub usage_category: Seq<char>,
    pub raw_markup: Seq<char>,
}

impl View for PowerRecord {
    type V = PowerRecordView;

    open spec fn view(&self) -> PowerRecordView {
        PowerRecordView {
            name: self.name@,
            usage_category: self.usage_category@,
            raw_markup: self.raw_markup@,
        }
    }
}

/// The outcome of looking a name up in the store.
#[derive(Debug, Clone)]
pub enum Lookup {
    /// The store holds a record under the name.
    Found(PowerRecord),
    /// The store holds none. This is no failure: the power is left out of the
    /// sheet.
    NotFound,
}

/// What a [`Lookup`] holds.
pub enum LookupView {
    Found(PowerRecordView),
    NotFound,
}

impl View for Lookup {
    type V = LookupView;

    open spec fn view(&self) -> LookupView {
        match *self {
            Lookup::Found(record) => LookupView::Found(record@),
            Lookup::NotFound => LookupView::NotFound,
        }
    }
}

impl Lookup {
    /// The outcome that a query for one name stands for: the row that the
    /// store gave is the record that was found, and no row means that the
    /// store holds none.
    pub fn from_row(row: Option<PowerRecord>) -> (lookup: Lookup)
        ensures
            lookup == match row {
                Some(record) => Lookup::Found(record),
                None => Lookup::NotFound,
            },
    {
        match row {
            Some(record) => Lookup::Found(record),
            None => Lookup::NotFound,
        }
    }
}

} // verus!
