//! Addresses, as the `http` and `rustls` crates read them.

use crate::text::text_of;
use http::uri::InvalidUri;
use http::Uri;
use rustls::pki_types::InvalidDnsNameError;
use rustls::pki_types::ServerName;
use vstd::prelude::*;

verus! {

/// A text is not a URI.
#[verifier::external_type_specification]
#[verifier::external_body]
pub struct ExInvalidUri(InvalidUri);

/// A message cannot be built from its parts.
#[verifier::external_type_specification]
#[verifier::external_body]
pub struct ExHttpError(http::Error);

/// A text is not the name of a server.
#[verifier::external_type_specification]
#[verifier::external_body]
pub struct ExInvalidDnsNameError(InvalidDnsNameError);

/// The parts of a URI that the gateway uses.
#[derive(Debug)]
pub struct UriParts {
    pub scheme: Option<String>,
    pub authority: Option<String>,
    pub path: String,
}

/// The parts of a URI, as a mathematical value.
pub struct UriModel {
    pub scheme: Option<Seq<char>>,
    pub authority: Option<Seq<char>>,
    pub path: Seq<char>,
}

impl View for UriParts {
    type V = UriModel;

    open spec fn view(&self) -> UriModel {
        UriModel {
            scheme: text_of(self.scheme),
            authority: text_of(self.authority),
            path: self.path@,
        }
    }
}

/// The parts of an optional URI, as a mathematical value.
pub open spec fn uri_model(uri: Option<UriParts>) -> Option<UriModel> {
    match uri {
        Some(parts) => Some(parts@),
        None => None,
    }
}

/// The URI that a text is, if it is one.
pub uninterp spec fn uri_of(text: Seq<char>) -> Option<UriModel>;

/// An absolute path, perhaps with a query, and without a fragment.
pub open spec fn is_absolute(path_and_query: Seq<char>) -> bool {
    path_and_query.len() > 0 && path_and_query[0] == '/' && !path_and_query.contains('#')
}

/// The request target that a path and query make, if they can be one.
pub uninterp spec fn request_target_of(path_and_query: Seq<char>) -> Option<Seq<char>>;

/// The server name that a text is, in its usual form, if it is one.
pub uninterp spec fn server_name_of(host: Seq<char>) -> Option<Seq<char>>;

/// `str::parse` into an `http::Uri`, with what `Uri::scheme_str`,
/// `Uri::authority` and `Uri::path` say of the result.
#[verifier::external_body]
pub(crate) fn parse_uri(text: &str) -> (r: Result<UriParts, InvalidUri>)
    ensures
        match r {
            Ok(parts) => uri_of(text@) == Some(parts@),
            Err(_) => uri_of(text@) is None,
        },
{
    let uri: Uri = text.parse()?;
    Ok(UriParts {
        scheme: uri.scheme_str().map(|s| s.to_string()),
        authority: uri.authority().map(|a| a.as_str().to_string()),
        path: uri.path().to_string(),
    })
}

/// `Uri::builder` with a path and query alone, and its `build`; the target is
/// the `Display` form of the URI. An absolute path and query without a fragment
/// is its own request target, where it is one.
#[verifier::external_body]
pub(crate) fn request_target(path_and_query: &str) -> (r: Result<String, http::Error>)
    ensures
        match r {
            Ok(target) => request_target_of(path_and_query@) == Some(target@),
            Err(_) => request_target_of(path_and_query@) is None,
        },
        r matches Ok(target) ==> (is_absolute(path_and_query@) ==> target@ == path_and_query@),
{
    Uri::builder().path_and_query(path_and_query).build().map(|uri| uri.to_string())
}

/// `ServerName::try_from`, on an owned text, with `ServerName::to_str` of the result.
#[verifier::external_body]
pub(crate) fn parse_server_name(host: &str) -> (r: Result<String, InvalidDnsNameError>)
    ensures
        match r {
            Ok(name) => server_name_of(host@) == Some(name@),
            Err(_) => server_name_of(host@) is None,
        },
{
    ServerName::try_from(host.to_string()).map(|name| name.to_str().into_owned())
}

} // verus!
