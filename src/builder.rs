use vstd::prelude::*;
use crate::error::ShipError;
use crate::extract::{is_stable_sort_of, line_record, line_records, parse_raw_records};
use crate::locale::{fill_locales, lemma_fill_resolves_all, resolve_all, set_locales, set_null_locales};
use crate::record::{all_resolved, all_well_formed, views, Record, RecordView};

verus! {

/// Turns tracking lines into records ordered by time, each with a locale:
/// the one its status text names, else the one carried forward from the
/// records before it.
pub fn data_builder(raw_data: Vec<String>) -> (r: Result<Vec<Record>, ShipError>)
    ensures
        r is Ok <==> forall|i: int|
            0 <= i < raw_data@.len() ==> (#[trigger] line_record(raw_data@[i]@)) is Some,
        r matches Err(e) ==> e matches ShipError::MalformedLine(i) && i < raw_data@.len()
            && line_record(raw_data@[i as int]@) is None
            && forall|j: int| 0 <= j < i ==> (#[trigger] line_record(raw_data@[j]@)) is Some,
        r matches Ok(v) ==> {
            &&& all_well_formed(views(v@))
            &&& all_resolved(views(v@))
            &&& exists|sorted: Seq<RecordView>|
                #[trigger] is_stable_sort_of(sorted, line_records(raw_data@)) && views(v@)
                    == fill_locales(resolve_all(sorted))
        },
{
    let raw_records = match parse_raw_records(raw_data) {
        Ok(v) => v,
        Err(e) => {
            return Err(e);
        },
    };
    let ghost sorted = views(raw_records@);
    let base_locales = match set_locales(raw_records) {
        Ok(v) => v,
        Err(e) => {
            return Err(e);
        },
    };
    let filled_locales = match set_null_locales(base_locales) {
        Ok(v) => v,
        Err(e) => {
            return Err(e);
        },
    };
    proof {
        let f = views(filled_locales@);
        lemma_fill_resolves_all(resolve_all(sorted));
        assert(all_resolved(f));
        assert forall|i: int| 0 <= i < f.len() implies (#[trigger] f[i]).datetime.wf() by {
            assert(f[i].datetime == resolve_all(sorted)[i].datetime);
            assert(resolve_all(sorted)[i].datetime == sorted[i].datetime);
        }
        assert(is_stable_sort_of(sorted, line_records(raw_data@)));
    }
    Ok(filled_locales)
}

} // verus!
