//! What the engine reads of a URL.
use vstd::prelude::*;

verus! {

/// What a URL stands for here: its text, its host where it has one, and the
/// segments of its path unless it cannot be a base.
pub struct LocationView {
    pub text: Seq<char>,
    pub host: Option<Seq<char>>,
    pub segments: Option<Seq<Seq<char>>>,
}

/// A parsed URL, held as the plain values that the engine reads of it.
#[derive(Debug)]
pub struct Location {
    text: String,
    host: Option<String>,
    segments: Option<Vec<String>>,
}

impl View for Location {
    type V = LocationView;

    closed spec fn view(&self) -> LocationView {
        LocationView {
            text: self.text@,
            host: match self.host {
                Some(host) => Some(host@),
                None => None,
            },
            segments: match self.segments {
                Some(segments) => Some(segments@.map_values(|segment: String| segment@)),
                None => None,
            },
        }
    }
}

/// What `Url::parse` makes of `text`: the serialization of the URL, its
/// `host_str` and its `path_segments`; `None` where it refuses the text.
pub uninterp spec fn parsed_url(text: Seq<char>) -> Option<LocationView>;

/// Parses `text` with `reqwest::Url::parse` and reads the URL's `as_str`,
/// `host_str` and `path_segments`. The answer depends on the text alone.
#[verifier::external_body]
fn parse_url(text: &str) -> (r: Option<Location>)
    ensures
        match parsed_url(text@) {
            Some(url) => r matches Some(location) && location@ == url,
            None => r is None,
        },
{
    match reqwest::Url::parse(text) {
        Ok(url) => Some(
            Location {
                text: url.as_str().to_string(),
                host: url.host_str().map(|host| host.to_string()),
                segments: url.path_segments().map(|parts| parts.map(|part| part.to_string()).collect()),
            },
        ),
        Err(_) => None,
    }
}

impl Location {
    /// Parses an absolute URL; `None` where `text` is none.
    pub fn parse(text: &str) -> (r: Option<Self>)
        ensures
            match parsed_url(text@) {
                Some(url) => r matches Some(location) && location@ == url,
                None => r is None,
            },
    {
        parse_url(text)
    }

    /// The URL as text.
    pub fn as_str(&self) -> (r: &str)
        ensures
            r@ == self@.text,
    {
        self.text.as_str()
    }

    /// The host, where the URL has one.
    pub fn host(&self) -> (r: Option<&String>)
        ensures
            match self@.host {
                Some(host) => r matches Some(text) && text@ == host,
                None => r is None,
            },
    {
        self.host.as_ref()
    }

    /// The last segment of the path, where the URL has path segments.
    pub fn last_segment(&self) -> (r: Option<&String>)
        ensures
            match self@.segments {
                Some(segments) if segments.len() > 0 => r matches Some(text) && text@
                    == segments.last(),
                _ => r is None,
            },
    {
        match &self.segments {
            Some(segments) => {
                if segments.len() > 0 {
                    Some(&segments[segments.len() - 1])
                } else {
                    None
                }
            },
            None => None,
        }
    }
}

} // verus!
