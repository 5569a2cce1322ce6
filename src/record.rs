use vstd::prelude::*;
use crate::timestamp::Timestamp;

verus! {

/// One tracking event.
#[derive(Debug, PartialEq)]
pub struct Record {
    pub datetime: Timestamp,
    pub status: String,
    pub locale: Option<String>,
}

/// What a record holds, as mathematical values.
pub struct RecordView {
    pub datetime: Timestamp,
    pub status: Seq<char>,
    pub locale: Option<Seq<char>>,
}

pub open spec fn opt_view(o: Option<String>) -> Option<Seq<char>> {
    match o {
        Some(s) => Some(s@),
        None => None,
    }
}

impl View for Record {
    type V = RecordView;

    open spec fn view(&self) -> RecordView {
        RecordView { datetime: self.datetime, status: self.status@, locale: opt_view(self.locale) }
    }
}

pub open spec fn views(s: Seq<Record>) -> Seq<RecordView> {
    s.map_values(|r: Record| r@)
}

/// Every timestamp in `s` is a real instant.
pub open spec fn all_well_formed(s: Seq<RecordView>) -> bool {
    forall|i: int| 0 <= i < s.len() ==> (#[trigger] s[i]).datetime.wf()
}

/// Every record in `s` has a locale.
pub open spec fn all_resolved(s: Seq<RecordView>) -> bool {
    forall|i: int| 0 <= i < s.len() ==> (#[trigger] s[i]).locale is Some
}

pub fn clone_locale(o: &Option<String>) -> (r: Option<String>)
    ensures
        opt_view(r) == opt_view(*o),
{
    match o {
        Some(s) => Some(s.clone()),
        None => None,
    }
}

impl Clone for Record {
    fn clone(&self) -> (r: Record)
        ensures
            r@ == self@,
    {
        Record {
            datetime: self.datetime,
            status: self.status.clone(),
            locale: clone_locale(&self.locale),
        }
    }
}

impl Record {
    /// A record whose locale is not resolved yet.
    pub fn new(datetime: Timestamp, status: String) -> (r: Result<Record, String>)
        ensures
            r matches Ok(rec) && rec@ == (RecordView { datetime, status: status@, locale: None }),
    {
        let locale: Option<String> = None;
        Ok(Record { datetime, status, locale })
    }

    pub fn set_locale(&mut self, new_locale: Option<String>)
        ensures
            final(self)@ == (RecordView { locale: opt_view(new_locale), ..old(self)@ }),
    {
        self.locale = new_locale;
    }
}

} // verus!
