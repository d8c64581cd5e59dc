use erdfa::coverage::{Ontology, Space};
use erdfa::lean4::{UniversalOntology, HF_DATASET};
use erdfa::symmetry::terms;
use erdfa::symmetry::{MonsterSymmetry, UniversalEncoder};

#[test]
fn test_symmetric_encoding() {
    let term = terms::embedded();
    assert!(term.encode_url().contains("embedded"));
    assert!(term.encode_path().to_string_lossy().contains("embedded"));
    assert!(term.encode_variable().contains("embedded"));
    assert!(term.encode_filename().contains("embedded"));
    assert!(term.encode_function_name().contains("embedded"));
}

#[test]
fn test_all_encodings() {
    let term = terms::example();
    println!("URL: {}", term.encode_url());
    println!("Path: {:?}", term.encode_path());
    println!("Variable: {}", term.encode_variable());
    println!("Filename: {}", term.encode_filename());
    println!("CSS: {}", term.encode_css_selector());
    println!("Function: {}", term.encode_function_name());
    println!("JSON: {}", term.encode_json());
}

#[test]
fn encodings_exact() {
    let t = terms::example();
    assert_eq!(t.encode_url(), "https://escaped-rdfa.github.io/namespace/docs/1.0.html#/example/skip/ignore");
    assert_eq!(t.encode_variable(), "erdfa_term_example_action_skip_result_ignore");
    assert_eq!(t.encode_filename(), "erdfa.term.example.action.skip.result.ignore.html");
    assert_eq!(t.encode_function_name(), "erdfa_term_example_action_skip_ignore");
    assert_eq!(t.encode_css_selector(), "[data-erdfa-term=\"example\"][data-erdfa-action=\"skip\"]");
    assert_eq!(t.encode_json(), "{\"erdfa\":{\"term\":\"example\",\"action\":\"skip\",\"result\":\"ignore\"}}");
    assert_eq!(t.encode_path(), std::path::PathBuf::from("erdfa/term/example/action/skip/result/ignore"));
    let attrs = t.encode_attribute();
    assert_eq!(attrs.len(), 3);
    assert_eq!(attrs["erdfa-action"], "skip");
}

#[test]
fn invariance_fails_across_differently_split_encodings() {
    // the URL splits into the namespace pieces too, the path does not
    let term = terms::embedded();
    assert!(!term.verify_invariance());
    let url_pieces = erdfa::symmetry::ERdfaTerm::decode_url("a/b//c");
    assert_eq!(url_pieces, vec!["a", "b", "", "c"]);
    assert_eq!(erdfa::symmetry::ERdfaTerm::decode_variable("x_y"), vec!["x", "y"]);
}

#[test]
fn ontology_round_trip_for_embedded_term() {
    let term = terms::embedded();
    for space in [Space::URL, Space::Path, Space::Filename, Space::Variable, Space::Function, Space::JSON, Space::CSS, Space::HTML] {
        let decoded = erdfa::symmetry::ERdfaTerm::decode(&term.encode(space), space);
        assert!(term.is_isomorphic(&decoded));
    }
    assert!(!terms::example().is_isomorphic(&term));
    assert_eq!(term.encode(Space::SQL), "");
    assert_eq!(
        term.encode(Space::HTML),
        "<div erdfa-term=\"embedded\" erdfa-action=\"unescape\" erdfa-result=\"extract\"></div>"
    );
}

#[test]
fn lean4_ontology_from_dataset() {
    let o = UniversalOntology::from_hf_dataset(HF_DATASET);
    assert_eq!(o.size, 71);
    assert_eq!(o.dump.kind, "SimpleExpr");
    assert_eq!(o.dump.cnst_inf_b.name, "example");
    assert_eq!(o.trace.source, HF_DATASET);
    assert!(o.verified);
}
