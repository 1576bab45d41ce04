//! Anchor identifiers as the 16 bytes of a UUID.
use vstd::prelude::*;

verus! {

/// The 16 bytes that `uuid::Uuid::parse_str` reads from `s`, or `None` where it
/// refuses `s`.
pub uninterp spec fn uuid_parse(s: Seq<char>) -> Option<Seq<u8>>;

/// Relies on `uuid::Uuid::parse_str`, taking the bytes of the parsed UUID
/// (`Uuid::as_bytes`); the result depends on the text alone.
#[verifier::external_body]
fn parse_uuid(s: &str) -> (r: Option<[u8; 16]>)
    ensures
        match r {
            Some(b) => uuid_parse(s@) == Some(b@),
            None => uuid_parse(s@) is None,
        },
{
    uuid::Uuid::parse_str(s).ok().map(|u| *u.as_bytes())
}

/// The nil UUID: sixteen zero bytes.
pub open spec fn nil_uuid() -> Seq<u8> {
    Seq::new(16, |i: int| 0u8)
}

/// The parsed bytes, or the nil UUID where parsing failed.
pub fn uuid_or_nil(parsed: Option<[u8; 16]>) -> (r: [u8; 16])
    ensures
        r@ == match parsed {
            Some(b) => b@,
            None => nil_uuid(),
        },
{
    match parsed {
        Some(b) => b,
        None => {
            let z = [0u8; 16];
            assert(z@ =~= nil_uuid());
            z
        },
    }
}

/// The identifier of an anchor as UUID bytes; an identifier that is not a
/// UUID becomes the nil UUID.
pub fn anchor_uuid(id: &str) -> (r: [u8; 16])
    ensures
        r@ == match uuid_parse(id@) {
            Some(b) => b,
            None => nil_uuid(),
        },
{
    uuid_or_nil(parse_uuid(id))
}

} // verus!
