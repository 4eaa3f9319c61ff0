//! Identifiers and timestamps for new records.
use vstd::prelude::*;

verus! {

/// A lower-case hexadecimal digit.
pub open spec fn is_lower_hex(c: char) -> bool {
    ('0' <= c && c <= '9') || ('a' <= c && c <= 'f')
}

/// The text of a UUID in its hyphenated lower-case form: 36 characters,
/// hyphens at 8, 13, 18 and 23 and hexadecimal digits elsewhere.
pub open spec fn uuid_text(s: Seq<char>) -> bool {
    &&& s.len() == 36
    &&& forall|i: int|
        0 <= i < 36 ==> if i == 8 || i == 13 || i == 18 || i == 23 {
            #[trigger] s[i] == '-'
        } else {
            is_lower_hex(s[i])
        }
}

/// An RFC 3339 timestamp of UTC as `to_rfc3339` writes it: it ends with the
/// offset `+00:00`.
pub open spec fn utc_stamp(s: Seq<char>) -> bool {
    s.len() >= 6 && s.skip(s.len() - 6) == "+00:00"@
}

/// `uuid::Uuid::new_v4().to_string()`: a fresh random identifier. Its
/// value is random; claimed is only its form, which `Display` for `Uuid`
/// writes: the lower-case hyphenated text.
#[verifier::external_body]
pub(crate) fn new_id() -> (s: String)
    ensures
        uuid_text(s@),
{
    uuid::Uuid::new_v4().to_string()
}

/// `chrono::Utc::now().to_rfc3339()`: the current time. Its value depends on
/// the clock; claimed is only that the offset written for UTC is `+00:00`.
#[verifier::external_body]
pub(crate) fn now_rfc3339() -> (s: String)
    ensures
        utc_stamp(s@),
{
    chrono::Utc::now().to_rfc3339()
}

} // verus!
