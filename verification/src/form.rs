//! Form bodies: the fields of an `application/x-www-form-urlencoded` body.

use vstd::prelude::*;

verus! {

/// The (name, value) pairs that a form body stands for, in the order in
/// which the body gives them, each name and value decoded.
pub uninterp spec fn form_pairs(body: Seq<u8>) -> Seq<(Seq<char>, Seq<char>)>;

/// Calls `form_urlencoded::parse` on `body` and collects the pairs that its
/// iterator yields, as owned strings.
///
/// Trusted: the result is taken to be a function of the bytes of `body`
/// alone, named [`form_pairs`]. Nothing else is claimed of it.
#[verifier::external_body]
pub(crate) fn parse_form(body: &[u8]) -> (pairs: Vec<(String, String)>)
    ensures
        pairs.deep_view() == form_pairs(body@),
{
    form_urlencoded::parse(body).into_owned().collect()
}

} // verus!
