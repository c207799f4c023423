//! Random identifiers: requirement ids, session ids and solver access ids.
use vstd::prelude::*;
use vstd::string::*;

verus! {

/// A lower-case hexadecimal digit.
pub open spec fn is_lower_hex(c: char) -> bool {
    ('0' <= c && c <= '9') || ('a' <= c && c <= 'f')
}

/// The hyphenated lower-case text of a random (version 4, RFC 4122
/// variant) UUID: 36 characters, `-` at positions 8, 13, 18 and 23,
/// lower-case hex digits elsewhere, `4` at position 14 and one of
/// `8`, `9`, `a`, `b` at position 19.
pub open spec fn is_v4_uuid_text(s: Seq<char>) -> bool {
    &&& s.len() == 36
    &&& forall|i: int|
        0 <= i < 36 ==> if i == 8 || i == 13 || i == 18 || i == 23 {
            s[i] == '-'
        } else {
            is_lower_hex(#[trigger] s[i])
        }
    &&& s[14] == '4'
    &&& (s[19] == '8' || s[19] == '9' || s[19] == 'a' || s[19] == 'b')
}

/// `uuid::Uuid::new_v4` rendered with `to_string`. The value is random;
/// the contract states only its shape, which the crate's `new_v4` (it
/// masks in the version and variant bits) and its hyphenated lower-hex
/// `Display` give for every outcome.
#[verifier::external_body]
fn random_uuid_text() -> (s: String)
    ensures
        is_v4_uuid_text(s@),
{
    uuid::Uuid::new_v4().to_string()
}

/// `prefix` followed by the text of a fresh random UUID.
pub open spec fn is_prefixed_uuid(s: Seq<char>, prefix: Seq<char>) -> bool {
    &&& s.len() == prefix.len() + 36
    &&& s.take(prefix.len() as int) == prefix
    &&& is_v4_uuid_text(s.skip(prefix.len() as int))
}

/// A fresh requirement id, `req_` and a random UUID.
pub fn new_requirement_id() -> (s: String)
    ensures
        is_prefixed_uuid(s@, "req_"@),
{
    proof {
        reveal_strlit("req_");
    }
    let mut s = String::from_str("req_");
    let u = random_uuid_text();
    s.append(u.as_str());
    assert(s@.take(4) =~= "req_"@);
    assert(s@.skip(4) =~= u@);
    s
}

/// A fresh session or access id, `gpui-` and a random UUID.
pub fn new_session_id() -> (s: String)
    ensures
        is_prefixed_uuid(s@, "gpui-"@),
{
    proof {
        reveal_strlit("gpui-");
    }
    let mut s = String::from_str("gpui-");
    let u = random_uuid_text();
    s.append(u.as_str());
    assert(s@.take(5) =~= "gpui-"@);
    assert(s@.skip(5) =~= u@);
    s
}

} // verus!
