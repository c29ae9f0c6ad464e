//! Content-type inference for the image proxy: the served type is
//! guessed from the image reference's extension, through its URL path
//! component when the reference parses as a URL, with a generic octet
//! stream as the fallback.

use vstd::prelude::*;

verus! {

/// The media type that the extension-table guess yields for a path,
/// with `application/octet-stream` when nothing is known. A function
/// of the path characters alone.
pub uninterp spec fn mime_for(path: Seq<char>) -> Seq<char>;

/// The path component of a string parsed as an absolute URL, or
/// `None` where it does not parse as one. A function of the input
/// characters alone.
pub uninterp spec fn parsed_url_path(s: Seq<char>) -> Option<Seq<char>>;

/// Relies on `mime_guess::from_path` and
/// `MimeGuess::first_or_octet_stream`: a case-insensitive static
/// table lookup on the path's extension, falling back to
/// `application/octet-stream`; no disk access, the result depends on
/// the path characters alone.
#[verifier::external_body]
fn guess_mime(path: &String) -> (r: String)
    ensures
        r@ == mime_for(path@),
{
    mime_guess::from_path(path.as_str()).first_or_octet_stream().as_ref().to_string()
}

/// Relies on `url::Url::parse` and `Url::path`: parsing is a
/// deterministic function of the input string, and `path` returns the
/// path component of the parsed URL.
#[verifier::external_body]
fn url_path(s: &String) -> (r: Option<String>)
    ensures
        match r {
            Some(p) => parsed_url_path(s@) == Some(p@),
            None => parsed_url_path(s@) is None,
        },
{
    match url::Url::parse(s.as_str()) {
        Ok(u) => Some(u.path().to_string()),
        Err(_) => None,
    }
}

/// The content type served for an image reference: the guess for the
/// reference's URL path component when it parses as a URL, else for
/// the reference itself.
pub open spec fn spec_content_type(s: Seq<char>) -> Seq<char> {
    match parsed_url_path(s) {
        Some(p) => mime_for(p),
        None => mime_for(s),
    }
}

/// Infers the content type under which an image reference is served.
pub fn image_content_type(reference: &String) -> (r: String)
    ensures
        r@ == spec_content_type(reference@),
{
    match url_path(reference) {
        Some(p) => guess_mime(&p),
        None => guess_mime(reference),
    }
}

} // verus!
