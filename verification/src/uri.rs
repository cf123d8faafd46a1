//! Absolute URIs and references to them, as `url` reads them.

use vstd::prelude::*;
use crate::text::option_view;

verus! {

/// The text that `url` gives back for an absolute URL, where it reads
/// `text` as one.
///
/// The grammar and the normal form are those of `url`; this crate states
/// nothing of them but that the answer depends on the text alone.
pub uninterp spec fn absolute_url(text: Seq<char>) -> Option<Seq<char>>;

/// The text that `url` gives back for `reference` resolved against the
/// absolute URL `base`, where it reads `base` as an absolute URL and
/// `reference` as a reference.
pub uninterp spec fn joined_url(base: Seq<char>, reference: Seq<char>) -> Option<Seq<char>>;

/// Reads an absolute URL with `url::Url::parse` and gives back its text in
/// the form that `url` writes.
///
/// Believed, not proved: the answer is the one that `absolute_url` names
/// for the characters of `text`.
#[verifier::external_body]
pub(crate) fn parse_url(text: &str) -> (url: Option<String>)
    ensures
        option_view(url) == absolute_url(text@),
{
    url::Url::parse(text).ok().map(String::from)
}

/// Reads `base` with `url::Url::parse`, resolves `reference` against it
/// with `url::Url::join`, and gives back the text of the result.
///
/// Believed, not proved: the answer is the one that `joined_url` names
/// for the characters of the two texts.
#[verifier::external_body]
pub(crate) fn join_url(base: &str, reference: &str) -> (url: Option<String>)
    ensures
        option_view(url) == joined_url(base@, reference@),
{
    url::Url::parse(base).ok()?.join(reference).ok().map(String::from)
}

} // verus!
