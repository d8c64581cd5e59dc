//! Knowledge levels of ontologies, from small systems to the Monster group.

use vstd::prelude::*;

pub mod binary_levels;
pub mod maximal_ontologies;
pub mod sporadic_groups;

verus! {

/// Depth of the fundamental binary tree.
pub const FUNDAMENTAL_DEPTH: u32 = 46;

/// Nodes of the fundamental binary tree: `2^46`.
pub const FUNDAMENTAL_NODES: u64 = 70_368_744_177_664;

/// Conway's Gandalf prime, the gateway to the sporadic groups.
pub const GANDALF_PRIME: u64 = 71;

/// Dimension of the smallest faithful representation of the Monster group.
pub const MONSTER_DIMENSION: u64 = 196_883;

/// Order of the Baby Monster group.
pub const BABY_MONSTER_ORDER: u128 = 4_154_781_481_226_426_191_177_580_544_000_000;

/// The three classes a system falls into by its number of dimensions.
#[derive(Debug, Clone, Copy, PartialEq, Eq, Structural, PartialOrd, Ord)]
pub enum SystemClass {
    SubGandalf,
    Gandalf,
    SuperGandalf,
}

/// Finer classification of what an ontology reaches.
#[derive(Debug, Clone, Copy, PartialEq, Eq, Structural, PartialOrd, Ord)]
pub enum KnowledgeLevel {
    PreGandalf,
    GandalfComplete,
    FundamentalComplete,
    MonsterComplete,
}

/// Size measures of an ontology.
pub trait GandalfComplete {
    spec fn spec_dimensions(&self) -> u64;

    spec fn spec_symmetries(&self) -> u64;

    spec fn spec_encodings(&self) -> u64;

    spec fn spec_states(&self) -> u64;

    spec fn spec_representation_dimension(&self) -> u64;

    fn count_dimensions(&self) -> (r: u64)
        ensures
            r == self.spec_dimensions(),
    ;

    fn count_symmetries(&self) -> (r: u64)
        ensures
            r == self.spec_symmetries(),
    ;

    fn count_encodings(&self) -> (r: u64)
        ensures
            r == self.spec_encodings(),
    ;

    fn count_states(&self) -> (r: u64)
        ensures
            r == self.spec_states(),
    ;

    fn representation_dimension(&self) -> (r: u64)
        ensures
            r == self.spec_representation_dimension(),
    ;
}

/// At least 71 dimensions, symmetries and encodings.
pub open spec fn gandalf_complete_spec<T: GandalfComplete>(o: &T) -> bool {
    o.spec_dimensions() >= GANDALF_PRIME && o.spec_symmetries() >= GANDALF_PRIME && o.spec_encodings() >= GANDALF_PRIME
}

pub open spec fn knowledge_level_spec<T: GandalfComplete>(o: &T) -> KnowledgeLevel {
    if o.spec_representation_dimension() >= MONSTER_DIMENSION {
        KnowledgeLevel::MonsterComplete
    } else if o.spec_states() >= FUNDAMENTAL_NODES {
        KnowledgeLevel::FundamentalComplete
    } else if gandalf_complete_spec(o) {
        KnowledgeLevel::GandalfComplete
    } else {
        KnowledgeLevel::PreGandalf
    }
}

pub fn is_gandalf_complete<T: GandalfComplete>(ontology: &T) -> (r: bool)
    ensures
        r == gandalf_complete_spec(ontology),
{
    ontology.count_dimensions() >= GANDALF_PRIME && ontology.count_symmetries() >= GANDALF_PRIME
        && ontology.count_encodings() >= GANDALF_PRIME
}

pub fn reaches_fundamental_complexity<T: GandalfComplete>(ontology: &T) -> (r: bool)
    ensures
        r == (ontology.spec_states() >= FUNDAMENTAL_NODES),
{
    ontology.count_states() >= FUNDAMENTAL_NODES
}

pub fn achieves_monster_symmetry<T: GandalfComplete>(ontology: &T) -> (r: bool)
    ensures
        r == (ontology.spec_representation_dimension() >= MONSTER_DIMENSION),
{
    ontology.representation_dimension() >= MONSTER_DIMENSION
}

/// The highest level reached, checking Monster symmetry first.
pub fn knowledge_level<T: GandalfComplete>(ontology: &T) -> (r: KnowledgeLevel)
    ensures
        r == knowledge_level_spec(ontology),
{
    if achieves_monster_symmetry(ontology) {
        KnowledgeLevel::MonsterComplete
    } else if reaches_fundamental_complexity(ontology) {
        KnowledgeLevel::FundamentalComplete
    } else if is_gandalf_complete(ontology) {
        KnowledgeLevel::GandalfComplete
    } else {
        KnowledgeLevel::PreGandalf
    }
}

/// Below, at, or above 71 dimensions.
pub fn classify_system<T: GandalfComplete>(system: &T) -> (r: SystemClass)
    ensures
        system.spec_dimensions() < GANDALF_PRIME ==> r == SystemClass::SubGandalf,
        system.spec_dimensions() == GANDALF_PRIME ==> r == SystemClass::Gandalf,
        system.spec_dimensions() > GANDALF_PRIME ==> r == SystemClass::SuperGandalf,
{
    let dim = system.count_dimensions();
    if dim < GANDALF_PRIME {
        SystemClass::SubGandalf
    } else if dim == GANDALF_PRIME {
        SystemClass::Gandalf
    } else {
        SystemClass::SuperGandalf
    }
}

pub fn has_passed_gandalf<T: GandalfComplete>(system: &T) -> (r: bool)
    ensures
        r == (system.spec_dimensions() >= GANDALF_PRIME),
{
    system.count_dimensions() >= GANDALF_PRIME
}

} // verus!
