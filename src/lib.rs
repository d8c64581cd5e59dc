//! Escaped RDFa (eRDFa): processing of escaped RDFa content, layered access control over
//! nested ciphertexts, and stake-weighted sharding of confidential documents.

use vstd::prelude::*;

pub mod acl;
pub mod blockchain;
pub mod coverage;
pub mod crypto;
pub mod homomorphic_mixer;
pub mod lean4;
pub mod modular;
pub mod shards;
pub mod stego;
pub mod symmetry;
pub mod zk_migration;
pub mod zkreach;
mod text;

use crate::text::{chars_of, replace_all, replace_str, same_text, string_of};

verus! {

/// eRDFa vocabulary terms.
#[derive(Debug, Clone, Copy, PartialEq, Eq, Structural, Hash)]
pub enum Term {
    Example,
    Embedded,
}

/// What processing an eRDFa element yields.
#[derive(Debug, Clone, PartialEq)]
pub enum ProcessingResult {
    Skip,
    Extract(String),
}

/// Processing of eRDFa elements.
pub trait ERdfaProcessor {
    fn process(&self, term: Term, content: &str) -> ProcessingResult;
}

/// The default processor: examples are skipped, embedded content is unescaped.
#[derive(Debug, Default)]
pub struct Processor;

impl ERdfaProcessor for Processor {
    fn process(&self, term: Term, content: &str) -> (r: ProcessingResult)
        ensures
            term == Term::Example ==> r == ProcessingResult::Skip,
            term == Term::Embedded ==> (r matches ProcessingResult::Extract(s) && s@ == unescape_spec(content@)),
    {
        match term {
            Term::Example => ProcessingResult::Skip,
            Term::Embedded => ProcessingResult::Extract(unescape(content)),
        }
    }
}

/// `s` with the entities `&lt;`, `&gt;`, `&quot;` and `&amp;` decoded, one entity after
/// the other in that order.
pub open spec fn unescape_spec(s: Seq<char>) -> Seq<char> {
    replace_all(
        replace_all(replace_all(replace_all(s, "&lt;"@, "<"@), "&gt;"@, ">"@), "&quot;"@, "\""@),
        "&amp;"@,
        "&"@,
    )
}

/// `s` with `&`, `<`, `>` and `"` encoded as entities, `&` first.
pub open spec fn escape_spec(s: Seq<char>) -> Seq<char> {
    replace_all(
        replace_all(replace_all(replace_all(s, "&"@, "&amp;"@), "<"@, "&lt;"@), ">"@, "&gt;"@),
        "\""@,
        "&quot;"@,
    )
}

/// Decodes the HTML entities of `input`.
pub fn unescape(input: &str) -> (r: String)
    ensures
        r@ == unescape_spec(input@),
{
    proof {
        reveal_strlit("&lt;");
        reveal_strlit("&gt;");
        reveal_strlit("&quot;");
        reveal_strlit("&amp;");
    }
    let s = chars_of(input);
    let s = replace_str(&s, "&lt;", "<");
    let s = replace_str(&s, "&gt;", ">");
    let s = replace_str(&s, "&quot;", "\"");
    let s = replace_str(&s, "&amp;", "&");
    string_of(&s)
}

/// Encodes `&`, `<`, `>` and `"` as HTML entities.
pub fn escape(input: &str) -> (r: String)
    ensures
        r@ == escape_spec(input@),
{
    proof {
        reveal_strlit("&");
        reveal_strlit("<");
        reveal_strlit(">");
        reveal_strlit("\"");
    }
    let s = chars_of(input);
    let s = replace_str(&s, "&", "&amp;");
    let s = replace_str(&s, "<", "&lt;");
    let s = replace_str(&s, ">", "&gt;");
    let s = replace_str(&s, "\"", "&quot;");
    string_of(&s)
}

/// The term a name stands for, with or without the `eRDFa:` prefix.
pub open spec fn parse_term_spec(s: Seq<char>) -> Option<Term> {
    if s == "eRDFa:example"@ || s == "example"@ {
        Some(Term::Example)
    } else if s == "eRDFa:embedded"@ || s == "embedded"@ {
        Some(Term::Embedded)
    } else {
        None
    }
}

pub fn parse_term(s: &str) -> (r: Option<Term>)
    ensures
        r == parse_term_spec(s@),
{
    let cs = chars_of(s);
    if same_text(&cs, "eRDFa:example") || same_text(&cs, "example") {
        Some(Term::Example)
    } else if same_text(&cs, "eRDFa:embedded") || same_text(&cs, "embedded") {
        Some(Term::Embedded)
    } else {
        None
    }
}

/// The eRDFa namespace IRI.
pub fn erdfa_ns() -> (r: &'static str)
    ensures
        r@ == "https://escaped-rdfa.github.io/namespace/docs/1.0.html#"@,
{
    "https://escaped-rdfa.github.io/namespace/docs/1.0.html#"
}

/// An embedded block: `content` escaped inside a `div` with `rel="eRDFa:embedded"`.
pub fn erdfa_embedded(content: &str) -> (r: String)
    ensures
        r@ == "<div rel=\"eRDFa:embedded\">"@ + escape_spec(content@) + "</div>"@,
{
    let escaped = escape(content);
    let mut out = String::from_str("<div rel=\"eRDFa:embedded\">");
    out.append(escaped.as_str());
    out.append("</div>");
    out
}

/// An example block: `content` as it is inside a `div` with `rel="eRDFa:example"`.
pub fn erdfa_example(content: &str) -> (r: String)
    ensures
        r@ == "<div rel=\"eRDFa:example\">"@ + content@ + "</div>"@,
{
    let mut out = String::from_str("<div rel=\"eRDFa:example\">");
    out.append(content);
    out.append("</div>");
    out
}

} // verus!
