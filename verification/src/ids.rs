//! Instance ids: `instance_` followed by a random version-4 UUID.
use vstd::prelude::*;

verus! {

/// A lowercase hexadecimal digit.
pub open spec fn is_lower_hex(c: char) -> bool {
    (0x30 <= (c as u32) <= 0x39) || (0x61 <= (c as u32) <= 0x66)
}

/// The hyphenated lowercase text of a version-4 UUID: 36 characters, hyphens
/// at positions 8, 13, 18 and 23, hexadecimal digits elsewhere, the version
/// digit `4` at position 14 and a variant digit of 8, 9, a or b at position 19.
pub open spec fn is_uuid_v4_text(s: Seq<char>) -> bool {
    &&& s.len() == 36
    &&& forall|i: int|
        0 <= i < 36 ==> if i == 8 || i == 13 || i == 18 || i == 23 {
            #[trigger] s[i] == '-'
        } else {
            is_lower_hex(s[i])
        }
    &&& s[14] == '4'
    &&& (s[19] == '8' || s[19] == '9' || s[19] == 'a' || s[19] == 'b')
}

/// The prefix of every generated instance id.
pub open spec fn instance_id_prefix() -> Seq<char> {
    "instance_"@
}

/// An id that `new_instance_id` can return.
pub open spec fn is_instance_id(s: Seq<char>) -> bool {
    exists|u: Seq<char>| is_uuid_v4_text(u) && s == instance_id_prefix() + u
}

/// Calls `uuid::Uuid::new_v4` and renders the UUID with `to_string`. The
/// contract claims what the uuid crate's source shows of every result: the
/// `Display` form is the hyphenated lowercase one, and a version-4 UUID has
/// the version digit 4 and the variant bits `10`. Which UUID comes out is left open: it is random.
#[verifier::external_body]
fn random_uuid_v4() -> (s: String)
    ensures
        is_uuid_v4_text(s@),
{
    uuid::Uuid::new_v4().to_string()
}

/// A fresh instance id: `instance_` and a random version-4 UUID.
pub fn new_instance_id() -> (id: String)
    ensures
        is_instance_id(id@),
{
    let u = random_uuid_v4();
    let mut id = String::from_str("instance_");
    id.append(u.as_str());
    assert(is_uuid_v4_text(u@) && id@ == instance_id_prefix() + u@);
    id
}

} // verus!
