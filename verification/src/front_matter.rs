//! Tag extraction from a note's front-matter header.
//!
//! The header is the YAML block at the top of a note file. Decoding it is
//! delegated to the `yaml-front-matter` and `serde_yaml` crates behind one
//! trusted wrapper; what the decode yields on a given text is fixed by the
//! uninterpreted name `front_matter_tags`, and everything downstream is
//! verified against that name.

use vstd::prelude::*;

verus! {

/// The tag list the front-matter decode yields for a given text: `None` when
/// the text has no decodable header or its `tags` field is not a list of
/// strings, `Some` of the listed tags otherwise (absence of the field gives
/// the empty list). The decode is a pure function of the text alone.
pub uninterp spec fn front_matter_tags(text: Seq<char>) -> Option<Seq<Seq<char>>>;

/// The text had no decodable front-matter header, or a `tags` field that is
/// not a list of strings.
#[derive(Clone, Copy, PartialEq, Eq, Structural, Debug)]
pub struct ParseError;

/// Relies on `yaml_front_matter::YamlFrontMatter::parse` and on
/// `serde_yaml::Value`: the parse reads the `---`-delimited header block and
/// decodes it as YAML; the decode is deterministic in the text. A text whose
/// header is not a YAML mapping fails; a mapping without a `tags` key gives
/// the empty list; a `tags` key that is not a sequence of strings fails.
#[verifier::external_body]
fn decode_front_matter_tags(text: &str) -> (r: Option<Vec<String>>)
    ensures
        r is Some <==> front_matter_tags(text@) is Some,
        r matches Some(tags) ==> front_matter_tags(text@) == Some(tags.deep_view()),
{
    let doc = match yaml_front_matter::YamlFrontMatter::parse::<serde_yaml::Value>(text) {
        Ok(d) => d,
        Err(_) => return None,
    };
    match (&doc.metadata, doc.metadata.get("tags")) {
        (serde_yaml::Value::Mapping(_), None) => Some(Vec::new()),
        (serde_yaml::Value::Mapping(_), Some(serde_yaml::Value::Sequence(items))) => items
            .iter()
            .map(|item| item.as_str().map(|s| s.to_string()))
            .collect::<Option<Vec<String>>>(),
        _ => None,
    }
}

/// Reads the tag list from one note's raw text: the tags named by the
/// front-matter header, in header order, or `ParseError` when the text has no
/// decodable header. A header that omits the `tags` field yields no tags and
/// is not an error.
pub fn extract(text: &str) -> (r: Result<Vec<String>, ParseError>)
    ensures
        r is Ok <==> front_matter_tags(text@) is Some,
        r matches Ok(tags) ==> front_matter_tags(text@) == Some(tags.deep_view()),
{
    match decode_front_matter_tags(text) {
        Some(tags) => Ok(tags),
        None => Err(ParseError),
    }
}

} // verus!
