use vstd::prelude::*;

verus! {

#[verifier::external_type_specification]
#[verifier::external_body]
pub struct ExByteRecord(csv::ByteRecord);

/// The fields held by a CSV byte record, in order.
pub uninterp spec fn record_fields(r: csv::ByteRecord) -> Seq<Seq<u8>>;

/// Relies on csv::ByteRecord::new: a record with no fields.
#[verifier::external_body]
pub(crate) fn new_record() -> (r: csv::ByteRecord)
    ensures
        record_fields(r) == Seq::<Seq<u8>>::empty(),
{
    csv::ByteRecord::new()
}

/// Relies on csv::ByteRecord::push_field: the field is appended after the
/// existing ones, byte for byte.
#[verifier::external_body]
pub(crate) fn push_field(record: &mut csv::ByteRecord, field: &[u8])
    ensures
        record_fields(*final(record)) == record_fields(*old(record)).push(field@),
{
    record.push_field(field)
}

} // verus!
