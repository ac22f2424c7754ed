//! The closed set of transport schemes and the registry that selects one by
//! its tag. An address with any other tag is rejected at submission, never a
//! crash.
use vstd::prelude::*;

verus! {

/// The supported transport schemes. A closed set: adding a scheme means
/// adding a variant and its request/response rules.
#[derive(Clone, Copy, PartialEq, Eq, Structural, Debug)]
pub enum Schema {
    Http,
}

/// The scheme tag `"http"`, as bytes.
pub open spec fn http_tag() -> Seq<u8> {
    seq!['h' as u8, 't' as u8, 't' as u8, 'p' as u8]
}

/// Which scheme a tag selects: only `"http"` is recognised.
pub open spec fn spec_schema_of(tag: Seq<u8>) -> Option<Schema> {
    if tag == http_tag() {
        Some(Schema::Http)
    } else {
        None
    }
}

/// Look a scheme tag up in the registry of supported schemes.
pub fn schema_of(tag: &Vec<u8>) -> (r: Option<Schema>)
    ensures
        r == spec_schema_of(tag@),
{
    if tag.len() == 4 && tag[0] == 'h' as u8 && tag[1] == 't' as u8 && tag[2] == 't' as u8
        && tag[3] == 'p' as u8 {
        proof {
            assert(tag@ =~= http_tag());
        }
        Some(Schema::Http)
    } else {
        proof {
            if tag@ == http_tag() {
                assert(tag@.len() == 4);
                assert(tag@[0] == 'h' as u8 && tag@[1] == 't' as u8 && tag@[2] == 't' as u8
                    && tag@[3] == 'p' as u8);
            }
        }
        None
    }
}

} // verus!
