use ifs_parser::parser::ast::{AstNode, Identifier, PlSqlNode, Position, Span};
use ifs_parser::parser::incremental::{
    checksum_of, ranges_overlap, CachedNode, IncrementalParser, TextChange,
};
use ifs_parser::parser::parser::ParseError;

fn fragment(name: &str, range: std::ops::Range<usize>, dependencies: Vec<std::ops::Range<usize>>) -> CachedNode {
    let span = Span {
        start: Position { line: 1, column: 1, offset: range.start },
        end: Position { line: 1, column: 1, offset: range.end },
    };
    CachedNode {
        node: AstNode::PlSql(PlSqlNode::Package {
            name: Identifier { name: name.to_string(), span },
            component: None,
            annotations: Vec::new(),
            declarations: Vec::new(),
            body: None,
            span,
        }),
        text_range: range,
        checksum: 0,
        dependencies,
    }
}

fn names(parser: &IncrementalParser) -> Vec<String> {
    parser
        .cached_nodes()
        .iter()
        .map(|c| match &c.node {
            AstNode::PlSql(PlSqlNode::Package { name, .. }) => name.name.clone(),
            AstNode::PlSql(PlSqlNode::Procedure { name, .. }) => name.name.clone(),
            _ => String::new(),
        })
        .collect()
}

fn edit(range: std::ops::Range<usize>) -> TextChange {
    TextChange { range, new_text: String::new() }
}

#[test]
fn ranges_overlap_when_each_starts_before_the_other_ends() {
    assert!(ranges_overlap(&(0..10), &(5..15)));
    assert!(ranges_overlap(&(5..15), &(0..10)));
    assert!(ranges_overlap(&(0..10), &(3..4)));
    assert!(!ranges_overlap(&(0..10), &(10..20)));
    assert!(!ranges_overlap(&(10..20), &(0..10)));
    assert!(!ranges_overlap(&(0..0), &(0..10)));
    assert!(ranges_overlap(&(5..5), &(0..10)));
    assert!(!ranges_overlap(&(10..10), &(0..10)));
    assert!(!ranges_overlap(&(5..5), &(5..5)));
}

#[test]
fn an_edit_evicts_what_it_overlaps() {
    let mut parser = IncrementalParser::new();
    parser.cache_fragment(fragment("a", 0..10, Vec::new()));
    parser.cache_fragment(fragment("b", 10..20, Vec::new()));
    parser.cache_fragment(fragment("c", 20..30, Vec::new()));
    parser.update_text("text".to_string(), vec![edit(12..14)]);
    assert_eq!(names(&parser), vec!["a", "c"]);
    assert_eq!(parser.pending(), &vec![12..14]);
    assert_eq!(parser.text(), "text");
}

#[test]
fn eviction_follows_dependencies_all_the_way() {
    let mut parser = IncrementalParser::new();
    parser.cache_fragment(fragment("spec", 0..10, Vec::new()));
    parser.cache_fragment(fragment("body", 10..20, vec![0..10]));
    parser.cache_fragment(fragment("user", 20..30, vec![12..13]));
    parser.cache_fragment(fragment("far", 30..40, vec![25..26, 90..95]));
    parser.cache_fragment(fragment("alone", 40..50, vec![60..70]));
    parser.cache_fragment(fragment("early", 50..60, vec![40..45]));
    parser.update_text("x".to_string(), vec![edit(3..4)]);
    assert_eq!(names(&parser), vec!["alone", "early"]);
}

#[test]
fn dependencies_that_lead_backwards_are_followed_too() {
    let mut parser = IncrementalParser::new();
    parser.cache_fragment(fragment("last", 0..10, vec![20..30]));
    parser.cache_fragment(fragment("stays", 10..20, Vec::new()));
    parser.cache_fragment(fragment("middle", 20..30, vec![30..40]));
    parser.cache_fragment(fragment("first", 30..40, Vec::new()));
    parser.update_text("x".to_string(), vec![edit(35..36)]);
    assert_eq!(names(&parser), vec!["stays"]);
}

#[test]
fn edits_are_applied_in_turn() {
    let mut parser = IncrementalParser::new();
    parser.cache_fragment(fragment("a", 0..10, Vec::new()));
    parser.cache_fragment(fragment("b", 10..20, Vec::new()));
    parser.cache_fragment(fragment("c", 20..30, vec![10..20]));
    parser.cache_fragment(fragment("d", 30..40, Vec::new()));
    parser.update_text("x".to_string(), vec![edit(100..200), edit(15..16), edit(0..1)]);
    assert_eq!(names(&parser), vec!["d"]);
    assert_eq!(parser.pending(), &vec![100..200, 15..16, 0..1]);
    parser.update_text("y".to_string(), Vec::new());
    assert_eq!(names(&parser), vec!["d"]);
    assert_eq!(parser.pending().len(), 3);
}

#[test]
fn parsing_caches_the_tree_and_clears_dirty_ranges() {
    let mut parser = IncrementalParser::new();
    assert!(matches!(parser.parse(), Err(ParseError::InvalidSyntax { .. })));

    let text = "PROCEDURE First IS BEGIN NULL; END;";
    parser.update_text(text.to_string(), vec![edit(0..0)]);
    assert_eq!(parser.pending().len(), 1);
    let tree = parser.parse().unwrap();
    assert!(matches!(&tree, AstNode::PlSql(PlSqlNode::Procedure { name, .. }) if name.name == "First"));
    assert!(parser.pending().is_empty());
    assert_eq!(names(&parser), vec!["First"]);
    assert_eq!(parser.cached_nodes()[0].text_range, 0..text.len());
    assert_eq!(parser.cached_nodes()[0].checksum, checksum_of(text));

    let again = parser.parse().unwrap();
    assert_eq!(again, tree);
    assert_eq!(names(&parser), vec!["First"]);

    let changed = "PROCEDURE Second IS BEGIN NULL; END;";
    parser.update_text(changed.to_string(), vec![edit(10..15)]);
    assert!(names(&parser).is_empty());
    let tree = parser.parse().unwrap();
    assert!(matches!(&tree, AstNode::PlSql(PlSqlNode::Procedure { name, .. }) if name.name == "Second"));

    parser.update_text("PROCEDURE".to_string(), vec![edit(9..36)]);
    assert!(parser.parse().is_err());
    assert_eq!(parser.pending().len(), 1);
    assert!(names(&parser).is_empty());
}

#[test]
fn a_changed_text_is_parsed_anew_even_without_edits() {
    let mut parser = IncrementalParser::new();
    parser.update_text("PROCEDURE A IS".to_string(), Vec::new());
    assert!(matches!(parser.parse(), Ok(AstNode::PlSql(PlSqlNode::Procedure { name, .. })) if name.name == "A"));
    parser.update_text("PROCEDURE B IS".to_string(), Vec::new());
    assert!(matches!(parser.parse(), Ok(AstNode::PlSql(PlSqlNode::Procedure { name, .. })) if name.name == "B"));
    parser.update_text("PROCEDURE B IS".to_string(), Vec::new());
    assert!(matches!(parser.parse(), Ok(AstNode::PlSql(PlSqlNode::Procedure { name, .. })) if name.name == "B"));
}

#[test]
fn checksums() {
    assert_eq!(checksum_of(""), 0);
    assert_eq!(checksum_of("a"), 97);
    assert_eq!(checksum_of("ab"), 97 * 31 + 98);
    assert_eq!(checksum_of("é"), 233);
    assert_ne!(checksum_of("ab"), checksum_of("ba"));
    let long = "x".repeat(100);
    let mut expected: u64 = 0;
    for _ in 0..100 {
        expected = expected.wrapping_mul(31).wrapping_add(120);
    }
    assert_eq!(checksum_of(&long), expected);
}

#[test]
fn the_cached_fragment_spans_the_bytes_of_the_text() {
    let mut parser = IncrementalParser::new();
    let text = "PROCEDURE P IS BEGIN x_ := 'é€𝄞'; END;";
    assert_ne!(text.len(), text.chars().count());
    parser.update_text(text.to_string(), Vec::new());
    parser.parse().unwrap();
    assert_eq!(parser.cached_nodes().len(), 1);
    assert_eq!(parser.cached_nodes()[0].text_range, 0..text.len());
    assert!(parser.cached_nodes()[0].dependencies.is_empty());
    assert_eq!(ifs_parser::parser::incremental::byte_length(text), text.len());
    parser.parse().unwrap();
    assert_eq!(parser.cached_nodes().len(), 1);
}

#[test]
fn a_fragment_takes_the_place_of_the_fragment_of_its_range() {
    let mut parser = IncrementalParser::new();
    parser.cache_fragment(fragment("a", 0..10, Vec::new()));
    parser.cache_fragment(fragment("b", 10..20, Vec::new()));
    parser.cache_fragment(fragment("c", 0..10, Vec::new()));
    assert_eq!(names(&parser), vec!["c", "b"]);
    parser.cache_fragment(fragment("d", 0..11, Vec::new()));
    assert_eq!(names(&parser), vec!["c", "b", "d"]);
}
