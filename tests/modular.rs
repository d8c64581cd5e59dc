use erdfa::modular::maximal_ontologies::{OpenStreetMap, Wikipedia, GCC, Linux};
use erdfa::modular::{
    achieves_monster_symmetry, classify_system, has_passed_gandalf, is_gandalf_complete, knowledge_level,
    reaches_fundamental_complexity, KnowledgeLevel, SystemClass, FUNDAMENTAL_NODES, GANDALF_PRIME,
    MONSTER_DIMENSION,
};

#[test]
fn test_fundamental_complexity() {
    assert!(reaches_fundamental_complexity(&Wikipedia));
    assert!(reaches_fundamental_complexity(&Linux));
    assert!(reaches_fundamental_complexity(&GCC));
    assert!(reaches_fundamental_complexity(&OpenStreetMap));
}

#[test]
fn modular_test_monster_symmetry() {
    assert!(achieves_monster_symmetry(&Wikipedia));
    assert!(!achieves_monster_symmetry(&Linux));
    assert!(!achieves_monster_symmetry(&GCC));
    assert!(!achieves_monster_symmetry(&OpenStreetMap));
}

#[test]
fn test_knowledge_levels() {
    assert_eq!(knowledge_level(&Wikipedia), KnowledgeLevel::MonsterComplete);
    assert_eq!(knowledge_level(&Linux), KnowledgeLevel::FundamentalComplete);
    assert_eq!(knowledge_level(&GCC), KnowledgeLevel::FundamentalComplete);
    assert_eq!(knowledge_level(&OpenStreetMap), KnowledgeLevel::FundamentalComplete);
}

#[test]
fn test_gandalf_trichotomy() {
    assert_eq!(classify_system(&Wikipedia), SystemClass::SuperGandalf);
    assert_eq!(classify_system(&Linux), SystemClass::SuperGandalf);
    assert_eq!(classify_system(&GCC), SystemClass::SuperGandalf);
    assert_eq!(classify_system(&OpenStreetMap), SystemClass::SuperGandalf);
    assert!(has_passed_gandalf(&Wikipedia));
    assert!(has_passed_gandalf(&Linux));
    assert!(has_passed_gandalf(&GCC));
    assert!(has_passed_gandalf(&OpenStreetMap));
}

#[test]
fn test_constants() {
    assert_eq!(FUNDAMENTAL_NODES, 70_368_744_177_664);
    assert_eq!(GANDALF_PRIME, 71);
    assert_eq!(MONSTER_DIMENSION, 196_883);
}

#[test]
fn symmetries_keep_known_ontologies_below_gandalf_completeness() {
    assert!(!is_gandalf_complete(&Wikipedia));
    assert!(!is_gandalf_complete(&Linux));
    assert!(!is_gandalf_complete(&GCC));
    assert!(!is_gandalf_complete(&OpenStreetMap));
    assert_eq!(FUNDAMENTAL_NODES, 1u64 << 46);
}
