//! The boundary to the `url` crate: deciding whether an entry link is a
//! well-formed absolute URL, and assembling the browser-navigable
//! authorization URL with a form-urlencoded query.

use vstd::prelude::*;

verus! {

/// Whether `url::Url::parse` accepts this text as an absolute URL; the
/// outcome depends on the text alone.
pub uninterp spec fn url_ok(s: Seq<char>) -> bool;

/// Relies on url::Url::parse: returns whether the text parses as an absolute
/// URL, a decision made from the text alone.
#[verifier::external_body]
pub(crate) fn url_accepts(s: &str) -> (r: bool)
    ensures
        r == url_ok(s@),
{
    url::Url::parse(s).is_ok()
}

/// The form-urlencoded rendering of two query pairs, as
/// `url::form_urlencoded::Serializer` produces it: a function of the four
/// texts alone.
pub uninterp spec fn urlencoded_pairs(
    k1: Seq<char>,
    v1: Seq<char>,
    k2: Seq<char>,
    v2: Seq<char>,
) -> Seq<char>;

/// Relies on url::form_urlencoded::Serializer: percent-encodes the two pairs
/// and joins them with `=` and `&`, from the given texts alone.
#[verifier::external_body]
pub(crate) fn urlencode_two_pairs(k1: &str, v1: &str, k2: &str, v2: &str) -> (r: String)
    ensures
        r@ == urlencoded_pairs(k1@, v1@, k2@, v2@),
{
    let mut serializer = url::form_urlencoded::Serializer::new(String::new());
    serializer.append_pair(k1, v1);
    serializer.append_pair(k2, v2);
    serializer.finish()
}

} // verus!
