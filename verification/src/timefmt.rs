use vstd::prelude::*;

verus! {

/// The RFC 3339 rendering (at UTC) of a unix timestamp in seconds, or
/// `None` where the timestamp lies outside the representable range.
pub uninterp spec fn rfc3339_of(t: int) -> Option<Seq<char>>;

/// Relies on time::OffsetDateTime::from_unix_timestamp and
/// OffsetDateTime::format with the well-known RFC 3339 description: the
/// rendered text is a pure function of the timestamp, and out-of-range
/// timestamps (those the two calls reject) yield no rendering.
#[verifier::external_body]
pub fn format_rfc3339(t: i64) -> (r: Option<String>)
    ensures
        r is Some <==> rfc3339_of(t as int) is Some,
        r matches Some(s) ==> rfc3339_of(t as int) == Some(s@),
{
    match time::OffsetDateTime::from_unix_timestamp(t) {
        Ok(dt) => match dt.format(&time::format_description::well_known::Rfc3339) {
            Ok(s) => Some(s),
            Err(_) => None,
        },
        Err(_) => None,
    }
}

} // verus!
