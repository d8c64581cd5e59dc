use erdfa::{erdfa_embedded, erdfa_example, erdfa_ns, escape, parse_term, unescape, ERdfaProcessor, ProcessingResult, Processor, Term};

#[test]
fn test_unescape() {
    let input = "&lt;div&gt;&quot;test&quot;&amp;&lt;/div&gt;";
    let expected = "<div>\"test\"&</div>";
    assert_eq!(unescape(input), expected);
}

#[test]
fn test_escape() {
    let input = "<div>\"test\"&</div>";
    let expected = "&lt;div&gt;&quot;test&quot;&amp;&lt;/div&gt;";
    assert_eq!(escape(input), expected);
}

#[test]
fn test_parse_term() {
    assert_eq!(parse_term("eRDFa:example"), Some(Term::Example));
    assert_eq!(parse_term("embedded"), Some(Term::Embedded));
    assert_eq!(parse_term("invalid"), None);
}

#[test]
fn test_processor() {
    let processor = Processor;
    let result = processor.process(Term::Example, "content");
    assert_eq!(result, ProcessingResult::Skip);
    let result = processor.process(Term::Embedded, "&lt;div&gt;");
    assert_eq!(result, ProcessingResult::Extract("<div>".to_string()));
}

#[test]
fn test_erdfa_ns_macro() {
    assert_eq!(erdfa_ns(), "https://escaped-rdfa.github.io/namespace/docs/1.0.html#");
}

#[test]
fn test_erdfa_embedded_macro() {
    let content = "<div property=\"name\">Test</div>";
    let result = erdfa_embedded(content);
    assert!(result.contains("rel=\"eRDFa:embedded\""));
    assert!(result.contains("&lt;div"));
}

#[test]
fn unescape_decodes_amp_last() {
    assert_eq!(unescape("&amp;lt;"), "&lt;");
    assert_eq!(unescape("a &amp b"), "a &amp b");
    assert_eq!(unescape(""), "");
}

#[test]
fn escape_then_unescape_round_trip() {
    let s = "<a href=\"x\">&amp;</a>";
    assert_eq!(unescape(&escape(s)), s);
    assert_eq!(escape("plain"), "plain");
}

#[test]
fn parse_term_prefixed_and_bare() {
    assert_eq!(parse_term("example"), Some(Term::Example));
    assert_eq!(parse_term("eRDFa:embedded"), Some(Term::Embedded));
    assert_eq!(parse_term("eRDFa:"), None);
    assert_eq!(parse_term(""), None);
}

#[test]
fn example_block_keeps_content() {
    assert_eq!(erdfa_example("<b>"), "<div rel=\"eRDFa:example\"><b></div>");
    assert_eq!(erdfa_embedded("<b>"), "<div rel=\"eRDFa:embedded\">&lt;b&gt;</div>");
}
