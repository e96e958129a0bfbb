//! The record type of the `csv` crate, as the query logic sees it: an
//! ordered sequence of text fields.

use vstd::prelude::*;
use csv::StringRecord;

verus! {

#[verifier::external_type_specification]
#[verifier::external_body]
pub struct ExStringRecord(StringRecord);

/// The fields that a record holds, in order.
pub uninterp spec fn record_fields(r: StringRecord) -> Seq<Seq<char>>;

/// Relies on csv::StringRecord::len: the number of fields in the record.
pub assume_specification[ StringRecord::len ](r: &StringRecord) -> (n: usize)
    ensures
        n == record_fields(*r).len(),
;

/// Relies on csv::StringRecord::get: the field at index `i`, or `None` past the end.
pub assume_specification[ StringRecord::get ](r: &StringRecord, i: usize) -> (f: Option<&str>)
    ensures
        f is Some <==> i < record_fields(*r).len(),
        f matches Some(s) ==> s@ == record_fields(*r)[i as int],
;

} // verus!
