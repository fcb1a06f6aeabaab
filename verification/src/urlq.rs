//! URL query-string helpers, delegating parsing and encoding to the `url`
//! crate.

use vstd::prelude::*;

use crate::error::AvanteCurlError;

verus! {

#[verifier::external_type_specification]
#[verifier::external_body]
pub struct ExParseError(url::ParseError);

/// View of a list of query pairs.
pub open spec fn pairs_view(params: Vec<(String, String)>) -> Seq<(Seq<char>, Seq<char>)> {
    params@.map_values(|p: (String, String)| (p.0@, p.1@))
}

/// Whether `url::Url::parse_with_params` accepts the URL string: the
/// string parses as an absolute URL.  Appending query pairs cannot fail,
/// so acceptance depends on the string alone.
pub uninterp spec fn url_with_params_ok(s: Seq<char>) -> bool;

/// The serialization `url::Url::parse_with_params` produces for this URL
/// string and these query pairs: the parsed URL's normalized form with
/// each pair appended, percent-encoded, to its query.  A pure function of
/// the string and the pairs.
pub uninterp spec fn url_with_params_of(
    s: Seq<char>,
    params: Seq<(Seq<char>, Seq<char>)>,
) -> Seq<char>;

/// Relies on `url::Url::parse_with_params` and `url::Url::as_str`: the
/// former parses an absolute URL and appends each given pair to its query,
/// failing exactly when the URL string does not parse, whatever the pairs;
/// the latter returns the URL's serialization, a pure function of the
/// string and the pairs.
#[verifier::external_body]
fn parse_with_params(url_str: &str, params: &Vec<(String, String)>) -> (r: Result<
    String,
    url::ParseError,
>)
    ensures
        r is Ok <==> url_with_params_ok(url_str@),
        r matches Ok(s) ==> s@ == url_with_params_of(url_str@, pairs_view(*params)),
{
    match url::Url::parse_with_params(url_str, params) {
        Ok(u) => Ok(u.as_str().to_owned()),
        Err(e) => Err(e),
    }
}

/// Relies on `url::ParseError`'s `Display`: a human-readable description.
#[verifier::external_body]
fn parse_error_message(e: &url::ParseError) -> String {
    format!("{}", e)
}

/// Add query parameters to a URL string, keeping any existing parameters.
///
/// Succeeds exactly when the string parses as an absolute URL, returning
/// the parsed URL's serialization with the pairs appended to its query;
/// otherwise returns an `InvalidConfig` error describing the parse
/// failure.
pub fn add_query_params(url_str: &str, params: &Vec<(String, String)>) -> (r: Result<
    String,
    AvanteCurlError,
>)
    ensures
        r is Ok <==> url_with_params_ok(url_str@),
        r matches Ok(s) ==> s@ == url_with_params_of(url_str@, pairs_view(*params)),
        r matches Err(e) ==> e matches AvanteCurlError::InvalidConfig(_),
{
    match parse_with_params(url_str, params) {
        Ok(s) => Ok(s),
        Err(e) => Err(
            AvanteCurlError::InvalidConfig(
                "Invalid URL: ".to_owned().concat(parse_error_message(&e).as_str()),
            ),
        ),
    }
}

} // verus!
