//! Representational spaces and how faithfully an ontology survives a round trip through
//! them.

use vstd::prelude::*;
use crate::symmetry::{ERdfaTerm, UniversalEncoder};
use crate::text::{push_str, string_of, texts_equal};

verus! {

/// Representational spaces for encoding.
#[derive(Debug, Clone, Copy, PartialEq, Eq, Structural, Hash)]
pub enum Space {
    URL,
    Path,
    Filename,
    Variable,
    Type,
    Function,
    JSON,
    XML,
    RDF,
    SQL,
    GraphQL,
    REST,
    SPARQL,
    CSS,
    HTML,
    Markdown,
    YAML,
    TOML,
    Protobuf,
    Attribute,
}

/// An ontology that can be encoded into spaces and decoded back.
pub trait Ontology: Sized {
    fn encode(&self, space: Space) -> String;

    fn decode(encoded: &str, space: Space) -> Self;

    fn is_isomorphic(&self, other: &Self) -> bool;
}

/// Coverage classification, from maximal down to minimal.
#[derive(Debug, Clone, Copy, PartialEq, Eq, Structural)]
pub enum CoverageClass {
    Maximal,
    High,
    Medium,
    Low,
    Minimal,
}

/// The encoding of a term in each space it has one for; empty in the others. The HTML
/// form lists the attributes in the order term, action, result.
pub open spec fn term_encoding(t: ERdfaTerm, space: Space) -> Seq<char> {
    match space {
        Space::URL => t.namespace@ + "/"@ + t.term@ + "/"@ + t.action@ + "/"@ + t.result@,
        Space::Path => "erdfa/term/"@ + t.term@ + "/action/"@ + t.action@ + "/result/"@ + t.result@,
        Space::Filename => "erdfa.term."@ + t.term@ + ".action."@ + t.action@ + ".result."@ + t.result@ + ".html"@,
        Space::Variable => "erdfa_term_"@ + t.term@ + "_action_"@ + t.action@ + "_result_"@ + t.result@,
        Space::Function => "erdfa_term_"@ + t.term@ + "_action_"@ + t.action@ + "_"@ + t.result@,
        Space::JSON => "{\"erdfa\":{\"term\":\""@ + t.term@ + "\",\"action\":\""@ + t.action@ + "\",\"result\":\""@
            + t.result@ + "\"}}"@,
        Space::CSS => "[data-erdfa-term=\""@ + t.term@ + "\"][data-erdfa-action=\""@ + t.action@ + "\"]"@,
        Space::HTML => "<div "@ + "erdfa-term=\""@ + t.term@ + "\""@ + " "@ + "erdfa-action=\""@ + t.action@ + "\""@
            + " "@ + "erdfa-result=\""@ + t.result@ + "\""@ + "></div>"@,
        _ => Seq::empty(),
    }
}

fn html_attributes(t: &ERdfaTerm) -> (r: String)
    ensures
        r@ == term_encoding(*t, Space::HTML),
{
    let mut out: Vec<char> = Vec::new();
    push_str(&mut out, "<div ");
    push_str(&mut out, "erdfa-term=\"");
    push_str(&mut out, t.term.as_str());
    push_str(&mut out, "\"");
    push_str(&mut out, " ");
    push_str(&mut out, "erdfa-action=\"");
    push_str(&mut out, t.action.as_str());
    push_str(&mut out, "\"");
    push_str(&mut out, " ");
    push_str(&mut out, "erdfa-result=\"");
    push_str(&mut out, t.result.as_str());
    push_str(&mut out, "\"");
    push_str(&mut out, "></div>");
    string_of(&out)
}

impl Ontology for ERdfaTerm {
    fn encode(&self, space: Space) -> (r: String)
        ensures
            r@ == term_encoding(*self, space),
    {
        match space {
            Space::URL => self.encode_url(),
            Space::Path => self.path_text(),
            Space::Filename => self.encode_filename(),
            Space::Variable => self.encode_variable(),
            Space::Function => self.encode_function_name(),
            Space::JSON => self.encode_json(),
            Space::CSS => self.encode_css_selector(),
            Space::HTML => html_attributes(self),
            _ => String::new(),
        }
    }

    /// Every encoding decodes to the `embedded` term.
    fn decode(encoded: &str, space: Space) -> (r: ERdfaTerm)
        ensures
            r.namespace@ == "https://escaped-rdfa.github.io/namespace/docs/1.0.html#"@,
            r.term@ == "embedded"@,
            r.action@ == "unescape"@,
            r.result@ == "extract"@,
    {
        crate::symmetry::terms::embedded()
    }

    /// Same term and same action.
    fn is_isomorphic(&self, other: &ERdfaTerm) -> (r: bool)
        ensures
            r == (self.term@ == other.term@ && self.action@ == other.action@),
    {
        texts_equal(self.term.as_str(), other.term.as_str()) && texts_equal(self.action.as_str(), other.action.as_str())
    }
}

} // verus!
