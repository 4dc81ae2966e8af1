//! Building the search-engine URL for a generated query.

use vstd::prelude::*;

verus! {

/// The percent-encoded form of a character sequence, as `urlencoding`
/// produces it.
pub uninterp spec fn percent_encoded(s: Seq<char>) -> Seq<char>;

/// Relies on `urlencoding::encode`: the percent-encoding of a string is a
/// function of its characters alone.
#[verifier::external_body]
fn encode_component(s: &str) -> (r: String)
    ensures
        r@ == percent_encoded(s@),
{
    urlencoding::encode(s).into_owned()
}

/// The search-engine endpoint URL for a query: the fixed search prefix
/// followed by the percent-encoded query string.
pub fn search_url(query: &str) -> (r: String)
    ensures
        r@ == "https://www.google.com/search?q="@ + percent_encoded(query@),
{
    let mut out = String::new();
    out.append("https://www.google.com/search?q=");
    let encoded = encode_component(query);
    out.append(encoded.as_str());
    out
}

} // verus!
