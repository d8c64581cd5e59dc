//! A Lean 4 dump as an example of a universal ontology, with its provenance.

use vstd::prelude::*;

verus! {

/// A dumped Lean 4 expression.
#[derive(Debug, Clone)]
pub struct Lean4Dump {
    pub kind: String,
    pub cnst_inf_b: ConstantInfo,
}

#[derive(Debug, Clone)]
pub struct ConstantInfo {
    pub name: String,
}

/// Where a dump came from.
#[derive(Debug)]
pub struct Lean4Trace {
    pub dumper: String,
    pub addr: String,
    pub source: String,
}

/// An ontology of Gandalf size backed by a Lean 4 dump.
#[derive(Debug)]
pub struct UniversalOntology {
    pub size: usize,
    pub dump: Lean4Dump,
    pub trace: Lean4Trace,
    pub verified: bool,
}

/// The dataset record of the example dump.
pub const HF_DATASET: &'static str = "https://huggingface.co/datasets/introspector/MicroLean4/raw/main/SimpleExpr.rec_686e510a6699f2e1ff1b216c16d94cd379ebeca00c030a79a3134adff699e06c.json";

impl UniversalOntology {
    /// The example `SimpleExpr` dump, of size 71, traced to `url`.
    pub fn from_hf_dataset(url: &str) -> (r: UniversalOntology)
        ensures
            r.size == 71,
            r.dump.kind@ == "SimpleExpr"@,
            r.dump.cnst_inf_b.name@ == "example"@,
            r.trace.dumper@ == "lean4-introspector"@,
            r.trace.addr@ == "0x686e510a"@,
            r.trace.source@ == url@,
            r.verified,
    {
        UniversalOntology {
            size: 71,
            dump: Lean4Dump {
                kind: String::from_str("SimpleExpr"),
                cnst_inf_b: ConstantInfo { name: String::from_str("example") },
            },
            trace: Lean4Trace {
                dumper: String::from_str("lean4-introspector"),
                addr: String::from_str("0x686e510a"),
                source: String::from_str(url),
            },
            verified: true,
        }
    }
}

} // verus!
