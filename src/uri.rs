use crate::save_set::is_absolute;
use vstd::prelude::*;

verus! {

#[verifier::external_type_specification]
#[verifier::external_body]
pub struct ExUrl(url::Url);

#[verifier::external_type_specification]
#[verifier::external_body]
pub struct ExParseError(url::ParseError);

/// Whether `s` parses as a URL.
pub uninterp spec fn url_parses(s: Seq<char>) -> bool;

/// The local path that the URL `s` denotes, when it denotes one whose text
/// is valid UTF-8.
pub uninterp spec fn uri_path_of(s: Seq<char>) -> Option<Seq<char>>;

/// The text of the `file:` URL for the absolute path `path`.
pub uninterp spec fn file_url_text(path: Seq<char>) -> Seq<char>;

/// Relies on `url::Url::parse` and `url::Url::to_file_path`: whether a text
/// parses, and the path it denotes, depend on the text alone; on Unix the
/// path that `to_file_path` builds starts with `/`. A path that is not valid
/// UTF-8 is given up here.
#[verifier::external_body]
pub(crate) fn uri_file_path(s: &String) -> (r: Result<Option<String>, url::ParseError>)
    ensures
        r is Ok <==> url_parses(s@),
        r matches Ok(Some(p)) ==> uri_path_of(s@) == Some(p@) && is_absolute(p@),
        r matches Ok(None) ==> uri_path_of(s@) is None,
{
    url::Url::parse(s.as_str()).map(|u| u.to_file_path().ok().and_then(|p| p.to_str().map(|t| t.to_string())))
}

/// Relies on `url::Url::from_file_path` and the URL's serialization: on Unix
/// it fails exactly on paths that are not absolute, and the text depends on
/// the path alone.
#[verifier::external_body]
pub(crate) fn file_url(path: &String) -> (r: Option<String>)
    ensures
        r is Some <==> is_absolute(path@),
        r matches Some(u) ==> u@ == file_url_text(path@),
{
    url::Url::from_file_path(path.as_str()).ok().map(String::from)
}

} // verus!
