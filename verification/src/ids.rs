//! Identifiers of nodes, components and instances. A UUID is held as the
//! `u128` whose big-endian bytes are the UUID's bytes.
use vstd::prelude::*;
use vstd::arithmetic::power2::pow2;

verus! {

/// Identifier of a node.
pub type NodeId = u128;

/// Identifier of a logical or physical function/resource instance.
pub type ComponentId = u128;

/// The nil UUID, used as "no instance".
pub const NIL_ID: u128 = 0u128;

/// Lowercase hexadecimal digit of a value below 16.
pub open spec fn hex_char(n: int) -> char {
    if n == 0 { '0' }
    else if n == 1 { '1' }
    else if n == 2 { '2' }
    else if n == 3 { '3' }
    else if n == 4 { '4' }
    else if n == 5 { '5' }
    else if n == 6 { '6' }
    else if n == 7 { '7' }
    else if n == 8 { '8' }
    else if n == 9 { '9' }
    else if n == 10 { 'a' }
    else if n == 11 { 'b' }
    else if n == 12 { 'c' }
    else if n == 13 { 'd' }
    else if n == 14 { 'e' }
    else { 'f' }
}

/// The `k`-th hexadecimal digit of `u`, the most significant first.
pub open spec fn nibble(u: u128, k: int) -> int {
    ((u as nat) / pow2((4 * (31 - k)) as nat)) as int % 16
}

pub open spec fn is_hyphen_position(p: int) -> bool {
    p == 8 || p == 13 || p == 18 || p == 23
}

/// Number of hyphens before position `p` of the hyphenated form.
pub open spec fn hyphens_before(p: int) -> int {
    (if p > 8 { 1int } else { 0int }) + (if p > 13 { 1int } else { 0int }) + (if p > 18 { 1int } else { 0int })
        + (if p > 23 { 1int } else { 0int })
}

/// The hyphenated lowercase form of a UUID, such as
/// `67e55044-10b1-426f-9247-bb680e5fe0c8`.
pub open spec fn uuid_text(u: u128) -> Seq<char> {
    Seq::new(
        36,
        |p: int|
            if is_hyphen_position(p) {
                '-'
            } else {
                hex_char(nibble(u, p - hyphens_before(p)))
            },
    )
}

/// The UUID that `uuid::Uuid::parse_str` reads from a text, if any.
pub uninterp spec fn uuid_parse(s: Seq<char>) -> Option<u128>;

/// Parse a UUID with `uuid::Uuid::parse_str`, which accepts the simple,
/// hyphenated, braced and URN forms with hexadecimal digits of either case.
/// The contract names the outcome `uuid_parse` of the text and states no more
/// of it: what the parser accepts is its own code.
#[verifier::external_body]
pub(crate) fn parse_uuid(s: &str) -> (r: Option<u128>)
    ensures
        r == uuid_parse(s@),
{
    match uuid::Uuid::parse_str(s) {
        Ok(u) => Some(u.as_u128()),
        Err(_) => None,
    }
}

/// The hyphenated lowercase form of a UUID, through `Display` of
/// `uuid::Uuid`. The contract states the form, and that `parse_str` reads
/// the same UUID back from it, as uuid's parser accepts the hyphenated form.
#[verifier::external_body]
pub(crate) fn uuid_to_string(u: u128) -> (r: String)
    ensures
        r@ == uuid_text(u),
        uuid_parse(r@) == Some(u),
{
    uuid::Uuid::from_u128(u).to_string()
}

/// A fresh random (version 4) UUID from `uuid::Uuid::new_v4`. Nothing is
/// stated of the value, which is random.
#[verifier::external_body]
pub(crate) fn new_random_id() -> (r: u128) {
    uuid::Uuid::new_v4().as_u128()
}

/// The hyphenated form of a UUID is made of hexadecimal digits and hyphens
/// only: in particular it holds no comma and no colon.
pub proof fn lemma_uuid_text_chars(u: u128)
    ensures
        uuid_text(u).len() == 36,
        forall|p: int| 0 <= p < 36 ==> #[trigger] uuid_text(u)[p] != ',' && uuid_text(u)[p] != ':',
{
    assert forall|p: int| 0 <= p < 36 implies #[trigger] uuid_text(u)[p] != ',' && uuid_text(u)[p] != ':' by {
        if !is_hyphen_position(p) {
            let n = nibble(u, p - hyphens_before(p));
            assert(0 <= n < 16);
        }
    }
}

} // verus!
