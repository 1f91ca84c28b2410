//! The host of a URL.

use crate::text::optional_text;
use vstd::prelude::*;

verus! {

/// `url::ParseError`, opaque.
#[verifier::external_type_specification]
#[verifier::external_body]
pub struct ExParseError(url::ParseError);

/// The host that the `url` crate reads in a text: `None` where the text is not an
/// absolute URL, `Some(None)` where it is one without a host.
pub uninterp spec fn url_host(url: Seq<char>) -> Option<Option<Seq<char>>>;

/// `url::Url::parse`, and `url::Url::host_str` of what it gives. What the crate
/// takes for a URL, and the host it reads there, have a name.
#[verifier::external_body]
fn parse_host(url: &str) -> (r: Result<Option<String>, url::ParseError>)
    ensures
        r is Ok <==> url_host(url@) is Some,
        r matches Ok(host) ==> url_host(url@) == Some(optional_text(host)),
{
    match url::Url::parse(url) {
        Ok(parsed) => Ok(parsed.host_str().map(|host| host.to_string())),
        Err(error) => Err(error),
    }
}

/// What became of reading the host of a URL.
#[derive(Debug)]
pub enum UrlHost {
    /// The text is not an absolute URL.
    Invalid,
    /// The URL has no host.
    Missing,
    Host(String),
}

impl View for UrlHost {
    type V = Option<Option<Seq<char>>>;

    open spec fn view(&self) -> Option<Option<Seq<char>>> {
        match self {
            UrlHost::Invalid => None,
            UrlHost::Missing => Some(None),
            UrlHost::Host(host) => Some(Some(host@)),
        }
    }
}

impl UrlHost {
    /// Reads the host of a URL.
    pub fn of(url: &str) -> (host: UrlHost)
        ensures
            host@ == url_host(url@),
            host is Invalid <==> url_host(url@) is None,
            host is Missing <==> url_host(url@) == Some(None::<Seq<char>>),
            host matches UrlHost::Host(name) ==> url_host(url@) == Some(Some(name@)),
    {
        match parse_host(url) {
            Ok(Some(host)) => UrlHost::Host(host),
            Ok(None) => UrlHost::Missing,
            Err(_) => UrlHost::Invalid,
        }
    }
}

/// A host that was read is the host that it names.
pub proof fn law_host_is_the_one_named(host: UrlHost)
    ensures
        host is Invalid <==> host@ is None,
        host is Missing <==> host@ == Some(None::<Seq<char>>),
        host matches UrlHost::Host(name) ==> host@ == Some(Some(name@)),
{
}

} // verus!
