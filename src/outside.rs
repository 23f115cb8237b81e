use vstd::prelude::*;

verus! {

/// Relies on `uuid::Uuid::now_v7` and `Uuid::as_u128`: a fresh version-7 UUID, built from
/// the current time and random bits, as a number. Nothing is promised of its value.
#[verifier::external_body]
pub(crate) fn new_v7_id() -> (r: u128) {
    uuid::Uuid::now_v7().as_u128()
}

/// Relies on `chrono::Utc::now` and `DateTime::timestamp_micros`: the current time, in
/// microseconds since the Unix epoch. Nothing is promised of its value.
#[verifier::external_body]
pub(crate) fn now_micros() -> (r: i64) {
    chrono::Utc::now().timestamp_micros()
}

/// The text of the UUID whose 128 bits are `raw`.
pub uninterp spec fn uuid_text(raw: u128) -> Seq<char>;

/// Relies on `uuid::Uuid::from_u128` and the `Display` of `Uuid`, which writes the
/// hyphenated form (`Hyphenated::LENGTH`, 36 characters): the text depends on `raw` alone.
#[verifier::external_body]
pub(crate) fn uuid_string(raw: u128) -> (r: String)
    ensures
        r@ == uuid_text(raw),
        r@.len() == 36,
{
    uuid::Uuid::from_u128(raw).to_string()
}

} // verus!
