//! Media types of the content the proxy serves, through `mime_guess`.

use vstd::prelude::*;

verus! {

/// The media type that `mime_guess` associates with the extension of `path`,
/// or `application/octet-stream` when it knows none, written as text.
pub uninterp spec fn guessed_media_type(path: Seq<char>) -> Seq<char>;

/// The media type that `text` parses to (`mime_guess::Mime::from_str`),
/// written back as text; nothing when `text` is not a media type.
pub uninterp spec fn parsed_media_type(text: Seq<char>) -> Option<Seq<char>>;

/// `mime_guess::from_path(path).first_or_octet_stream()`, as text.
#[verifier::external_body]
pub(crate) fn guess_media_type(path: &str) -> (r: String)
    ensures
        r@ == guessed_media_type(path@),
{
    mime_guess::from_path(path).first_or_octet_stream().to_string()
}

/// `text.parse::<mime_guess::Mime>()`, as text.
#[verifier::external_body]
pub(crate) fn parse_media_type(text: &str) -> (r: Option<String>)
    ensures
        match r {
            Some(m) => parsed_media_type(text@) == Some(m@),
            None => parsed_media_type(text@) is None,
        },
{
    text.parse::<mime_guess::Mime>().ok().map(|m| m.to_string())
}

} // verus!
