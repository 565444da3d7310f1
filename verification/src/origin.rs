//! Classification of a git remote origin url by its host domain.

use vstd::prelude::*;
use crate::chars::{chars_eq, chars_range_to_string, chars_to_string, str_to_chars};
use crate::provider::Domain;
use crate::util::{ParsedScpUrl, find_char, find_first, scp_parts};
use url::Url;

verus! {

/// What `url::Url::parse` followed by `Url::domain` yields for an origin
/// string: the domain name of a parsable URL whose host is a domain, else
/// nothing.  A pure function of the string.
pub uninterp spec fn url_domain_of(s: Seq<char>) -> Option<Seq<char>>;

/// Relies on `url::Url::parse` and `url::Url::domain`: parsing a URL is a
/// pure function of the input string, and `domain` returns the host name
/// exactly when the parsed URL's host is a domain name rather than an IP
/// address or absent.
#[verifier::external_body]
fn url_domain(origin: &str) -> (r: Option<String>)
    ensures
        match r {
            Some(d) => url_domain_of(origin@) == Some(d@),
            None => url_domain_of(origin@) is None,
        },
{
    match Url::parse(origin).ok().as_ref().and_then(Url::domain) {
        Some(d) => Some(d.to_owned()),
        None => None,
    }
}

/// The domain a git origin string names: a full URL's domain when it has
/// one, else the host part of an SCP-style `user@host:path` url.
pub open spec fn spec_parse_git_origin(s: Seq<char>) -> Option<Seq<char>> {
    match url_domain_of(s) {
        Some(d) => Some(d),
        None => match scp_parts(s) {
            Some((user, host, path)) => Some(host),
            None => None,
        },
    }
}

/// Extract the domain of a git origin url.
pub fn parse_git_origin(origin: &str) -> (r: Option<String>)
    ensures
        match r {
            Some(d) => spec_parse_git_origin(origin@) == Some(d@),
            None => spec_parse_git_origin(origin@) is None,
        },
{
    match url_domain(origin) {
        Some(d) => Some(d),
        None => match ParsedScpUrl::parse(origin) {
            Some(u) => Some(String::from_str(u.host())),
            None => None,
        },
    }
}

/// The name of the remote a tracking branch belongs to: the part of the
/// upstream name before the first separator, or all of it when there is
/// none.
pub open spec fn spec_remote_name(s: Seq<char>) -> Seq<char> {
    match find_first(s, 0, '/') {
        Some(k) => s.subrange(0, k),
        None => s,
    }
}

/// Extract the remote name from an upstream branch name such as
/// `origin/main`.
pub fn remote_name_of(upstream: &str) -> (r: String)
    ensures
        r@ == spec_remote_name(upstream@),
{
    let v = str_to_chars(upstream);
    match find_char(&v, 0, '/') {
        Some(k) => chars_range_to_string(&v, 0, k),
        None => chars_to_string(&v),
    }
}

/// The forge a host name belongs to.
pub open spec fn spec_classify_host(h: Seq<char>) -> Domain {
    if h == "github.com"@ {
        Domain::Github
    } else if h == "gitlab.com"@ {
        Domain::Gitlab
    } else if h == "bitbucket.org"@ {
        Domain::BitBucket
    } else if h == "dev.azure.com"@ {
        Domain::Azure
    } else {
        Domain::Git
    }
}

/// Classify a remote host name as a forge domain; anything unknown is the
/// generic [`Domain::Git`].
pub fn classify_host(host: &str) -> (r: Domain)
    ensures
        r == spec_classify_host(host@),
{
    let h = str_to_chars(host);
    if chars_eq(&h, &str_to_chars("github.com")) {
        Domain::Github
    } else if chars_eq(&h, &str_to_chars("gitlab.com")) {
        Domain::Gitlab
    } else if chars_eq(&h, &str_to_chars("bitbucket.org")) {
        Domain::BitBucket
    } else if chars_eq(&h, &str_to_chars("dev.azure.com")) {
        Domain::Azure
    } else {
        Domain::Git
    }
}

} // verus!
