//! Trusted boundary to the YAML tokenizer.
//!
//! The library never reads YAML text itself: `yaml_rust2` turns the text into
//! its own node tree, and the conversion below reshapes that tree, one node
//! variant at a time, into the library's [`DocNode`]. What the text parses to
//! is a function of the text alone, so it is given the name
//! [`yaml_documents_of`], and all contracts downstream speak of that name.

use vstd::prelude::*;

use crate::doc::DocNode;

verus! {

#[verifier::external_type_specification]
#[verifier::external_body]
pub struct ExYaml(yaml_rust2::yaml::Yaml);

/// The document trees that the YAML tokenizer produces from `s`, or `None`
/// when it reports a scan error. A function of the text alone.
pub uninterp spec fn yaml_documents_of(s: Seq<char>) -> Option<Seq<DocNode>>;

/// Relies on yaml_rust2::yaml::Yaml: reshapes one parsed node into the
/// library's document tree, one variant at a time. String scalars, arrays,
/// hashes and nulls keep their structure; every other node kind becomes
/// `DocNode::Other`.
#[verifier::external_body]
fn doc_of_yaml(y: &yaml_rust2::yaml::Yaml) -> DocNode {
    match y {
        yaml_rust2::yaml::Yaml::String(s) => DocNode::Scalar(s.clone()),
        yaml_rust2::yaml::Yaml::Array(items) => DocNode::Sequence(
            items.iter().map(doc_of_yaml).collect(),
        ),
        yaml_rust2::yaml::Yaml::Hash(entries) => DocNode::Mapping(
            entries.iter().map(|(k, v)| (doc_of_yaml(k), doc_of_yaml(v))).collect(),
        ),
        yaml_rust2::yaml::Yaml::Null => DocNode::Null,
        _ => DocNode::Other,
    }
}

/// Relies on yaml_rust2::YamlLoader::load_from_str: parses the text into a
/// sequence of documents, or fails with a scan error, on the text alone.
#[verifier::external_body]
pub(crate) fn load_yaml_documents(text: &str) -> (r: Option<Vec<DocNode>>)
    ensures
        r is Some <==> yaml_documents_of(text@) is Some,
        r matches Some(docs) ==> yaml_documents_of(text@) == Some(docs@),
{
    match yaml_rust2::YamlLoader::load_from_str(text) {
        Ok(docs) => Some(docs.iter().map(doc_of_yaml).collect()),
        Err(_) => None,
    }
}

} // verus!
