use vstd::prelude::*;
use crate::errors::DownloadError;

verus! {

/// The last path segment of `u` as the `url` crate parses it: `None` when
/// `u` is not a valid absolute URL or when it is a cannot-be-a-base URL;
/// otherwise the final slash-separated, percent-encoded segment of the
/// parsed path, which may be empty (for a path that ends in a slash, or an
/// http(s) URL with no path at all).
pub uninterp spec fn url_last_segment(u: Seq<char>) -> Option<Seq<char>>;

/// Relies on url::Url::parse (re-exported by reqwest as reqwest::Url) and
/// url::Url::path_segments: parsing depends on the input string alone, and
/// path_segments returns the slash-separated segments of the parsed path —
/// at least one, possibly empty — or None for cannot-be-a-base URLs.
#[verifier::external_body]
fn url_last_path_segment(url: &str) -> (r: Option<String>)
    ensures
        r is None ==> url_last_segment(url@) is None,
        r matches Some(s) ==> url_last_segment(url@) == Some(s@),
{
    match reqwest::Url::parse(url) {
        Ok(parsed) => match parsed.path_segments() {
            Some(segments) => segments.last().map(|s| s.to_string()),
            None => None,
        },
        Err(_) => None,
    }
}

/// The contents of an optional string.
pub open spec fn opt_view(o: Option<String>) -> Option<Seq<char>> {
    match o {
        Some(s) => Some(s@),
        None => None,
    }
}

/// Turn a derived segment into an output file name: only a present,
/// non-empty segment is usable; anything else means no name can be inferred.
pub fn segment_to_name(segment: Option<String>) -> (r: Result<String, DownloadError>)
    ensures
        match opt_view(segment) {
            Some(seg) => {
                if seg.len() > 0 {
                    r matches Ok(name) && name@ == seg
                } else {
                    r == Err::<String, DownloadError>(DownloadError::NoFilenameInferred)
                }
            },
            None => r == Err::<String, DownloadError>(DownloadError::NoFilenameInferred),
        },
{
    match segment {
        Some(seg) => {
            if seg.as_str().unicode_len() > 0 {
                Ok(seg)
            } else {
                Err(DownloadError::NoFilenameInferred)
            }
        },
        None => Err(DownloadError::NoFilenameInferred),
    }
}

/// What the resolved output name must be: an explicitly given name wins;
/// otherwise the URL's last path segment is used, and an absent or empty
/// segment means no name can be inferred.
pub open spec fn spec_resolve_output(url: Seq<char>, output: Option<Seq<char>>) -> Result<
    Seq<char>,
    DownloadError,
> {
    match output {
        Some(o) => Ok(o),
        None => match url_last_segment(url) {
            Some(seg) => if seg.len() > 0 {
                Ok(seg)
            } else {
                Err(DownloadError::NoFilenameInferred)
            },
            None => Err(DownloadError::NoFilenameInferred),
        },
    }
}

/// Resolve the output file name from the explicit choice and the URL.
pub fn resolve_output(url: &str, output: Option<String>) -> (r: Result<String, DownloadError>)
    ensures
        match spec_resolve_output(url@, opt_view(output)) {
            Ok(name) => r matches Ok(n) && n@ == name,
            Err(e) => r == Err::<String, DownloadError>(e),
        },
{
    match output {
        Some(o) => Ok(o),
        None => segment_to_name(url_last_path_segment(url)),
    }
}

} // verus!
