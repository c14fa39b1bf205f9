//! CSV records. A record is a `csv::StringRecord`; what it holds is known to
//! the verifier only through the declarations of this file, none of which is
//! proved: each states what the `csv` crate's source shows of one method.

use vstd::prelude::*;

verus! {

/// The record type of the `csv` crate, opaque to the verifier.
#[verifier::external_type_specification]
#[verifier::external_body]
pub struct ExStringRecord(csv::StringRecord);

/// The fields that a record holds, first to last.
pub uninterp spec fn record_fields(record: &csv::StringRecord) -> Seq<Seq<char>>;

/// `StringRecord::new`: the record without fields.
pub assume_specification[ csv::StringRecord::new ]() -> (record: csv::StringRecord)
    ensures
        record_fields(&record) == Seq::<Seq<char>>::empty(),
;

/// `StringRecord::len`: the number of fields.
pub assume_specification[ csv::StringRecord::len ](record: &csv::StringRecord) -> (n: usize)
    ensures
        n == record_fields(record).len(),
;

/// `StringRecord::get`: the field at index `i`, or nothing where the record
/// is shorter.
pub assume_specification<'a>[ csv::StringRecord::get ](
    record: &'a csv::StringRecord,
    i: usize,
) -> (field: Option<&'a str>)
    ensures
        i < record_fields(record).len() ==> field is Some && field->0@ == record_fields(
            record,
        )[i as int],
        i >= record_fields(record).len() ==> field is None,
;

/// `StringRecord::push_field`: one more field at the end, the others as they
/// were.
pub assume_specification[ csv::StringRecord::push_field ](
    record: &mut csv::StringRecord,
    field: &str,
)
    ensures
        record_fields(final(record)) == record_fields(old(record)).push(field@),
;

} // verus!
