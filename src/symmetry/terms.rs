//! Predefined symmetric terms.

use vstd::prelude::*;
use super::ERdfaTerm;

verus! {

/// `embedded`: unescape, then extract.
pub fn embedded() -> (r: ERdfaTerm)
    ensures
        r.namespace@ == "https://escaped-rdfa.github.io/namespace/docs/1.0.html#"@,
        r.term@ == "embedded"@,
        r.action@ == "unescape"@,
        r.result@ == "extract"@,
{
    ERdfaTerm {
        namespace: String::from_str(crate::erdfa_ns()),
        term: String::from_str("embedded"),
        action: String::from_str("unescape"),
        result: String::from_str("extract"),
    }
}

/// `example`: skip, then ignore.
pub fn example() -> (r: ERdfaTerm)
    ensures
        r.namespace@ == "https://escaped-rdfa.github.io/namespace/docs/1.0.html#"@,
        r.term@ == "example"@,
        r.action@ == "skip"@,
        r.result@ == "ignore"@,
{
    ERdfaTerm {
        namespace: String::from_str(crate::erdfa_ns()),
        term: String::from_str("example"),
        action: String::from_str("skip"),
        result: String::from_str("ignore"),
    }
}

} // verus!
