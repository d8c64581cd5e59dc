//! Encodings of one eRDFa term into many representational spaces.

use vstd::prelude::*;
use std::collections::HashMap;
use std::path::PathBuf;
use crate::text::{char_views, chars_of, push_str, string_of};

pub mod terms;

verus! {

#[verifier::external_type_specification]
#[verifier::external_body]
pub struct ExPathBuf(std::path::PathBuf);

/// Relies on `PathBuf::from(String)`: the path is made of the string's text.
#[verifier::external_body]
fn path_from(s: String) -> (r: PathBuf) {
    PathBuf::from(s)
}

/// Relies on `Path::iter` and `OsStr::to_string_lossy`: the path's components as text.
#[verifier::external_body]
fn path_components(p: &PathBuf) -> (r: Vec<String>) {
    p.iter().map(|s| s.to_string_lossy().to_string()).collect()
}

/// Encoding into any representational space.
pub trait UniversalEncoder {
    fn encode_url(&self) -> String;

    fn encode_attribute(&self) -> HashMap<String, String>;

    fn encode_json(&self) -> String;

    fn encode_path(&self) -> PathBuf;

    fn encode_filename(&self) -> String;

    fn encode_variable(&self) -> String;

    fn encode_css_selector(&self) -> String;

    fn encode_function_name(&self) -> String;
}

/// Two lists of texts with the same contents.
pub fn same_texts(a: &Vec<String>, b: &Vec<String>) -> (r: bool)
    ensures
        r == (a@.map_values(|s: String| s@) == b@.map_values(|s: String| s@)),
{
    if a.len() != b.len() {
        assert(a@.map_values(|s: String| s@).len() != b@.map_values(|s: String| s@).len());
        return false;
    }
    let mut i: usize = 0;
    while i < a.len()
        invariant
            a@.len() == b@.len(),
            i <= a@.len(),
            forall|q: int| 0 <= q < i ==> (#[trigger] a@[q])@ == b@[q]@,
        decreases a@.len() - i,
    {
        if !crate::text::texts_equal(a[i].as_str(), b[i].as_str()) {
            assert(a@.map_values(|s: String| s@)[i as int] != b@.map_values(|s: String| s@)[i as int]);
            return false;
        }
        i = i + 1;
    }
    assert(a@.map_values(|s: String| s@) =~= b@.map_values(|s: String| s@));
    true
}

/// Invariance of a term's meaning across the URL, path and variable encodings.
pub trait MonsterSymmetry: UniversalEncoder {
    /// The URL, path and variable encodings decode to the same pieces.
    fn verify_invariance(&self) -> bool {
        let url = self.encode_url();
        let path = self.encode_path();
        let var = self.encode_variable();
        let from_url = Self::decode_url(url.as_str());
        let from_path = Self::decode_path(&path);
        let from_var = Self::decode_variable(var.as_str());
        same_texts(&from_url, &from_path) && same_texts(&from_path, &from_var)
    }

    fn decode_url(s: &str) -> Vec<String>;

    fn decode_path(p: &PathBuf) -> Vec<String>;

    fn decode_variable(s: &str) -> Vec<String>;
}

/// An eRDFa term with the action it calls for and its result.
#[derive(Debug, Clone, PartialEq)]
pub struct ERdfaTerm {
    pub namespace: String,
    pub term: String,
    pub action: String,
    pub result: String,
}

/// The pieces of `s` between occurrences of `sep`, empty pieces included; `cur` is the
/// piece in progress.
pub open spec fn split_from(s: Seq<char>, sep: char, cur: Seq<char>) -> Seq<Seq<char>>
    decreases s.len(),
{
    if s.len() == 0 {
        seq![cur]
    } else if s[0] == sep {
        seq![cur] + split_from(s.skip(1), sep, Seq::empty())
    } else {
        split_from(s.skip(1), sep, cur.push(s[0]))
    }
}

/// Splits the text of `s` at every `sep`.
pub fn split_text(s: &str, sep: char) -> (r: Vec<String>)
    ensures
        r@.map_values(|x: String| x@) == split_from(s@, sep, Seq::empty()),
{
    let cs = chars_of(s);
    let ghost all = split_from(cs@, sep, Seq::empty());
    let mut pieces: Vec<Vec<char>> = Vec::new();
    let mut cur: Vec<char> = Vec::new();
    let mut i: usize = 0;
    assert(cs@.skip(0) =~= cs@);
    assert(Seq::<Seq<char>>::empty() + all =~= all);
    while i < cs.len()
        invariant
            i <= cs@.len(),
            all == split_from(cs@, sep, Seq::empty()),
            all == char_views(pieces@) + split_from(cs@.skip(i as int), sep, cur@),
        decreases cs@.len() - i,
    {
        let ghost rest = cs@.skip(i as int);
        assert(rest.skip(1) =~= cs@.skip(i + 1));
        let ghost before = char_views(pieces@);
        if cs[i] == sep {
            let mut done: Vec<char> = Vec::new();
            core::mem::swap(&mut done, &mut cur);
            pieces.push(done);
            assert(char_views(pieces@) =~= before + seq![done@]);
            assert(cur@ =~= Seq::<char>::empty());
        } else {
            cur.push(cs[i]);
        }
        i = i + 1;
    }
    let ghost before = char_views(pieces@);
    pieces.push(cur);
    assert(char_views(pieces@) =~= all);
    let mut out: Vec<String> = Vec::new();
    let mut j: usize = 0;
    while j < pieces.len()
        invariant
            j <= pieces@.len(),
            out@.len() == j,
            forall|q: int| 0 <= q < j ==> (#[trigger] out@[q])@ == pieces@[q]@,
        decreases pieces@.len() - j,
    {
        out.push(string_of(&pieces[j]));
        j = j + 1;
    }
    assert(out@.map_values(|x: String| x@) =~= char_views(pieces@));
    out
}

impl UniversalEncoder for ERdfaTerm {
    /// `namespace/term/action/result`.
    fn encode_url(&self) -> (r: String)
        ensures
            r@ == self.namespace@ + "/"@ + self.term@ + "/"@ + self.action@ + "/"@ + self.result@,
    {
        let mut out: Vec<char> = Vec::new();
        push_str(&mut out, self.namespace.as_str());
        push_str(&mut out, "/");
        push_str(&mut out, self.term.as_str());
        push_str(&mut out, "/");
        push_str(&mut out, self.action.as_str());
        push_str(&mut out, "/");
        push_str(&mut out, self.result.as_str());
        assert(out@ =~= self.namespace@ + "/"@ + self.term@ + "/"@ + self.action@ + "/"@ + self.result@);
        string_of(&out)
    }

    /// `erdfa-term`, `erdfa-action` and `erdfa-result` attributes.
    fn encode_attribute(&self) -> (r: HashMap<String, String>)
        ensures
            vstd::std_specs::hash::obeys_key_model::<String>()
                && vstd::std_specs::hash::builds_valid_hashers::<std::collections::hash_map::RandomState>() ==> {
                &&& exists|k: String| k@ == "erdfa-term"@ && r@.contains_key(k) && r@[k]@ == self.term@
                &&& exists|k: String| k@ == "erdfa-action"@ && r@.contains_key(k) && r@[k]@ == self.action@
                &&& exists|k: String| k@ == "erdfa-result"@ && r@.contains_key(k) && r@[k]@ == self.result@
            },
    {
        let mut attrs: HashMap<String, String> = HashMap::new();
        let k1 = String::from_str("erdfa-term");
        let k2 = String::from_str("erdfa-action");
        let k3 = String::from_str("erdfa-result");
        let ghost (g1, g2, g3) = (k1, k2, k3);
        proof {
            reveal_strlit("erdfa-term");
            reveal_strlit("erdfa-action");
            reveal_strlit("erdfa-result");
            assert(g1@[6] == 't' && g2@[6] == 'a' && g3@[6] == 'r');
            assert(g1 != g2 && g1 != g3 && g2 != g3);
        }
        let v1 = self.term.clone();
        let v2 = self.action.clone();
        let v3 = self.result.clone();
        attrs.insert(k1, v1);
        attrs.insert(k2, v2);
        attrs.insert(k3, v3);
        proof {
            if vstd::std_specs::hash::obeys_key_model::<String>()
                && vstd::std_specs::hash::builds_valid_hashers::<std::collections::hash_map::RandomState>() {
                assert(attrs@.contains_key(g1) && attrs@[g1]@ == self.term@);
                assert(attrs@.contains_key(g2) && attrs@[g2]@ == self.action@);
                assert(attrs@.contains_key(g3) && attrs@[g3]@ == self.result@);
            }
        }
        attrs
    }

    /// `{"erdfa":{"term":"…","action":"…","result":"…"}}`.
    fn encode_json(&self) -> (r: String)
        ensures
            r@ == "{\"erdfa\":{\"term\":\""@ + self.term@ + "\",\"action\":\""@ + self.action@ + "\",\"result\":\""@
                + self.result@ + "\"}}"@,
    {
        let mut out: Vec<char> = Vec::new();
        push_str(&mut out, "{\"erdfa\":{\"term\":\"");
        push_str(&mut out, self.term.as_str());
        push_str(&mut out, "\",\"action\":\"");
        push_str(&mut out, self.action.as_str());
        push_str(&mut out, "\",\"result\":\"");
        push_str(&mut out, self.result.as_str());
        push_str(&mut out, "\"}}");
        string_of(&out)
    }

    /// `erdfa/term/<term>/action/<action>/result/<result>` as a path.
    fn encode_path(&self) -> (r: PathBuf) {
        path_from(self.path_text())
    }

    /// `erdfa.term.<term>.action.<action>.result.<result>.html`.
    fn encode_filename(&self) -> (r: String)
        ensures
            r@ == "erdfa.term."@ + self.term@ + ".action."@ + self.action@ + ".result."@ + self.result@ + ".html"@,
    {
        let mut out: Vec<char> = Vec::new();
        push_str(&mut out, "erdfa.term.");
        push_str(&mut out, self.term.as_str());
        push_str(&mut out, ".action.");
        push_str(&mut out, self.action.as_str());
        push_str(&mut out, ".result.");
        push_str(&mut out, self.result.as_str());
        push_str(&mut out, ".html");
        string_of(&out)
    }

    /// `erdfa_term_<term>_action_<action>_result_<result>`.
    fn encode_variable(&self) -> (r: String)
        ensures
            r@ == "erdfa_term_"@ + self.term@ + "_action_"@ + self.action@ + "_result_"@ + self.result@,
    {
        let mut out: Vec<char> = Vec::new();
        push_str(&mut out, "erdfa_term_");
        push_str(&mut out, self.term.as_str());
        push_str(&mut out, "_action_");
        push_str(&mut out, self.action.as_str());
        push_str(&mut out, "_result_");
        push_str(&mut out, self.result.as_str());
        string_of(&out)
    }

    /// `[data-erdfa-term="<term>"][data-erdfa-action="<action>"]`.
    fn encode_css_selector(&self) -> (r: String)
        ensures
            r@ == "[data-erdfa-term=\""@ + self.term@ + "\"][data-erdfa-action=\""@ + self.action@ + "\"]"@,
    {
        let mut out: Vec<char> = Vec::new();
        push_str(&mut out, "[data-erdfa-term=\"");
        push_str(&mut out, self.term.as_str());
        push_str(&mut out, "\"][data-erdfa-action=\"");
        push_str(&mut out, self.action.as_str());
        push_str(&mut out, "\"]");
        string_of(&out)
    }

    /// `erdfa_term_<term>_action_<action>_<result>`.
    fn encode_function_name(&self) -> (r: String)
        ensures
            r@ == "erdfa_term_"@ + self.term@ + "_action_"@ + self.action@ + "_"@ + self.result@,
    {
        let mut out: Vec<char> = Vec::new();
        push_str(&mut out, "erdfa_term_");
        push_str(&mut out, self.term.as_str());
        push_str(&mut out, "_action_");
        push_str(&mut out, self.action.as_str());
        push_str(&mut out, "_");
        push_str(&mut out, self.result.as_str());
        string_of(&out)
    }
}

impl ERdfaTerm {
    /// The text of the path encoding.
    pub fn path_text(&self) -> (r: String)
        ensures
            r@ == "erdfa/term/"@ + self.term@ + "/action/"@ + self.action@ + "/result/"@ + self.result@,
    {
        let mut out: Vec<char> = Vec::new();
        push_str(&mut out, "erdfa/term/");
        push_str(&mut out, self.term.as_str());
        push_str(&mut out, "/action/");
        push_str(&mut out, self.action.as_str());
        push_str(&mut out, "/result/");
        push_str(&mut out, self.result.as_str());
        string_of(&out)
    }
}

impl MonsterSymmetry for ERdfaTerm {
    fn decode_url(s: &str) -> (r: Vec<String>)
        ensures
            r@.map_values(|x: String| x@) == split_from(s@, '/', Seq::empty()),
    {
        split_text(s, '/')
    }

    fn decode_path(p: &PathBuf) -> (r: Vec<String>) {
        path_components(p)
    }

    fn decode_variable(s: &str) -> (r: Vec<String>)
        ensures
            r@.map_values(|x: String| x@) == split_from(s@, '_', Seq::empty()),
    {
        split_text(s, '_')
    }
}

} // verus!
