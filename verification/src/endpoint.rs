//! The text values that the request layer around this library attaches to
//! outgoing calls: the service endpoint derived from a region and a
//! service name, and the URL for a GET request. Signing and transport are
//! not this library's concern; only the exact texts are, so they are
//! computed and pinned down here.

use vstd::prelude::*;

verus! {

/// The host name of a service in a region.
pub open spec fn spec_host(region: Seq<char>, service: Seq<char>) -> Seq<char> {
    service + "."@ + region + ".amazonaws.com"@
}

/// The endpoint URL of a service in a region. The archive service is
/// addressed under `/-/`; every other service under `/`.
pub open spec fn spec_endpoint(region: Seq<char>, service: Seq<char>) -> Seq<char> {
    if service == "glacier"@ {
        "https://"@ + spec_host(region, service) + "/-/"@
    } else {
        "https://"@ + spec_host(region, service) + "/"@
    }
}

/// The query string that names an action.
pub open spec fn spec_action_query(action: Seq<char>) -> Seq<char> {
    "Action="@ + action + "&Version=2015-04-15"@
}

/// The URL of a GET request for an action: the archive service appends
/// the action to the endpoint as a path segment; every other service
/// passes it in the query string.
pub open spec fn spec_request_url(
    endpoint: Seq<char>,
    service: Seq<char>,
    action: Seq<char>,
) -> Seq<char> {
    if service == "glacier"@ {
        endpoint + "/"@ + action
    } else {
        endpoint + "?"@ + spec_action_query(action)
    }
}

/// Whether a service name is the archive service's.
fn is_glacier(service: &str) -> (r: bool)
    ensures
        r == (service@ == "glacier"@),
{
    let s: String = service.to_owned();
    let g: String = String::from_str("glacier");
    s == g
}

/// Builds the endpoint URL of a service in a region.
pub fn endpoint_for(region: &str, service: &str) -> (r: String)
    ensures
        r@ == spec_endpoint(region@, service@),
{
    let mut s = String::new();
    s.append("https://");
    s.append(service);
    s.append(".");
    s.append(region);
    s.append(".amazonaws.com");
    if is_glacier(service) {
        s.append("/-/");
    } else {
        s.append("/");
    }
    proof {
        assert(s@ =~= spec_endpoint(region@, service@));
    }
    s
}

/// Builds the query string that names an action.
pub fn action_query(action: &str) -> (r: String)
    ensures
        r@ == spec_action_query(action@),
{
    let mut s = String::new();
    s.append("Action=");
    s.append(action);
    s.append("&Version=2015-04-15");
    proof {
        assert(s@ =~= spec_action_query(action@));
    }
    s
}

/// Builds the URL of a GET request for an action against an endpoint.
pub fn request_url(endpoint: &str, service: &str, action: &str) -> (r: String)
    ensures
        r@ == spec_request_url(endpoint@, service@, action@),
{
    let mut s = String::new();
    s.append(endpoint);
    if is_glacier(service) {
        s.append("/");
        s.append(action);
    } else {
        s.append("?");
        let q = action_query(action);
        s.append(q.as_str());
    }
    proof {
        assert(s@ =~= spec_request_url(endpoint@, service@, action@));
    }
    s
}

} // verus!
