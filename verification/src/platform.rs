//! The clock and the identifier generator, which differ from call to call.
use vstd::prelude::*;
use crate::database::Timestamp;

verus! {

/// What `chrono::DateTime::parse_from_rfc3339` gives for the text: `None` where
/// it fails, else the instant as seconds since the Unix epoch and the
/// nanoseconds past that second. A function of the text alone.
pub uninterp spec fn rfc3339_instant(text: Seq<char>) -> Option<(i64, u32)>;

/// `chrono::Utc::now`, as seconds and nanoseconds since the Unix epoch. The
/// result depends on the clock: nothing is claimed of it.
#[verifier::external_body]
pub(crate) fn now_utc() -> (t: Timestamp) {
    let now = chrono::Utc::now();
    Timestamp { secs: now.timestamp(), nanos: now.timestamp_subsec_nanos() }
}

/// A lower-case hexadecimal digit.
pub open spec fn lower_hex_digit(c: char) -> bool {
    ('0' <= c && c <= '9') || ('a' <= c && c <= 'f')
}

/// The text of a version-4 UUID as `Uuid`'s `Display` writes it: 36
/// characters, hyphens at 8, 13, 18 and 23, lower-case hex digits elsewhere,
/// the version digit '4' at 14 and a variant digit of 8, 9, a or b at 19.
pub open spec fn uuid_v4_text(s: Seq<char>) -> bool {
    &&& s.len() == 36
    &&& forall|i: int|
        #![trigger s[i]]
        0 <= i < 36 ==> if i == 8 || i == 13 || i == 18 || i == 23 {
            s[i] == '-'
        } else {
            lower_hex_digit(s[i])
        }
    &&& s[14] == '4'
    &&& (s[19] == '8' || s[19] == '9' || s[19] == 'a' || s[19] == 'b')
}

/// `uuid::Uuid::new_v4` rendered by `to_string`. The value is random; what
/// is claimed is only the form of its text: `new_v4` fixes the version nibble
/// to 4 and the variant bits to 10 (src/v4.rs), and `Display` writes the
/// hyphenated lower-case form (src/fmt.rs, `format_hyphenated`). The crate
/// panics when the system's random source fails, which no precondition can
/// rule out.
#[verifier::external_body]
pub(crate) fn new_uuid() -> (id: String)
    ensures
        uuid_v4_text(id@),
{
    uuid::Uuid::new_v4().to_string()
}

/// `chrono::DateTime::parse_from_rfc3339`, with the instant read back by
/// `timestamp` and `timestamp_subsec_nanos`: the result is the one named
/// `rfc3339_instant` of the text.
#[verifier::external_body]
pub(crate) fn parse_rfc3339(text: &str) -> (r: Option<Timestamp>)
    ensures
        r is Some <==> rfc3339_instant(text@) is Some,
        r matches Some(t) ==> rfc3339_instant(text@) == Some((t.secs, t.nanos)),
{
    match chrono::DateTime::parse_from_rfc3339(text) {
        Ok(dt) => Some(Timestamp { secs: dt.timestamp(), nanos: dt.timestamp_subsec_nanos() }),
        Err(_) => None,
    }
}

} // verus!
