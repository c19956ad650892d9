use pytest_diff_core::{
    blocks_from_tree, calculate_checksum, outline_tree, parse_module, syntax_of, EngineError,
    Statement, StatementKind, SyntaxKind, SyntaxNode,
};

fn node(form: SyntaxKind, name: &str, start: usize, end: usize, body: Vec<SyntaxNode>) -> SyntaxNode {
    SyntaxNode { form, name: name.to_string(), start, end, decorator: None, body }
}

fn other(start: usize, end: usize) -> SyntaxNode {
    node(SyntaxKind::Other, "", start, end, vec![])
}

fn statement(kind: StatementKind, name: &str, first: usize, header: usize, last: usize, body: Vec<Statement>) -> Statement {
    Statement { kind, name: name.to_string(), first_line: first, header_line: header, last_line: last, body }
}

fn simple(line: usize) -> Statement {
    statement(StatementKind::Simple, "", line, line, line, vec![])
}

#[test]
fn syntax_tree_is_copied_in_offsets() {
    let source = "import os\n@d\ndef f():\n    return 1\n";
    let tree = syntax_of(source).unwrap();
    assert_eq!(
        tree,
        vec![
            other(0, 9),
            SyntaxNode {
                form: SyntaxKind::FunctionDef,
                name: "f".to_string(),
                start: 13,
                end: 34,
                decorator: Some(11),
                body: vec![other(26, 34)],
            },
        ]
    );
}

#[test]
fn every_form_is_told_apart() {
    let source = "def a():\n    pass\nasync def b():\n    pass\nclass C:\n    pass\nif x:\n    pass\nfor i in x:\n    pass\nwhile x:\n    pass\nwith x:\n    pass\ntry:\n    pass\nfinally:\n    pass\nmatch x:\n    case _:\n        pass\n";
    let forms: Vec<SyntaxKind> = syntax_of(source).unwrap().iter().map(|n| n.form).collect();
    assert_eq!(
        forms,
        vec![
            SyntaxKind::FunctionDef,
            SyntaxKind::AsyncFunctionDef,
            SyntaxKind::ClassDef,
            SyntaxKind::If,
            SyntaxKind::For,
            SyntaxKind::While,
            SyntaxKind::With,
            SyntaxKind::Try,
            SyntaxKind::Other,
        ]
    );
    let names: Vec<String> = syntax_of(source).unwrap().iter().map(|n| n.name.clone()).collect();
    assert_eq!(names, vec!["a", "b", "C", "", "", "", "", "", ""]);
}

#[test]
fn nested_lists_come_in_field_order() {
    let source = "try:\n    a\nexcept E:\n    b\nexcept F:\n    c\nelse:\n    d\nfinally:\n    e\n";
    let tree = syntax_of(source).unwrap();
    assert_eq!(tree.len(), 1);
    let starts: Vec<usize> = tree[0].body.iter().map(|n| n.start).collect();
    assert_eq!(starts, vec![9, 25, 41, 53, 68]);
    let source = "if x:\n    a\nelse:\n    b\nwhile y:\n    c\nelse:\n    d\n";
    let tree = syntax_of(source).unwrap();
    assert_eq!(tree[0].body.iter().map(|n| n.start).collect::<Vec<usize>>(), vec![10, 22]);
    assert_eq!(tree[1].body.iter().map(|n| n.start).collect::<Vec<usize>>(), vec![37, 49]);
    let source = "x = [\n  1,\n]\nmatch x:\n    case _:\n        def hidden():\n            pass\n";
    let tree = syntax_of(source).unwrap();
    assert_eq!(tree[0], other(0, 12));
    assert_eq!(tree[1].form, SyntaxKind::Other);
    assert!(tree[1].body.is_empty());
}

#[test]
fn outline_turns_offsets_into_lines() {
    let source = "import os\n@d\ndef f():\n    return 1\n";
    let tree = syntax_of(source).unwrap();
    assert_eq!(
        outline_tree(source, &tree),
        Ok(vec![
            simple(1),
            statement(StatementKind::Function, "f", 2, 3, 4, vec![simple(4)]),
        ])
    );
}

#[test]
fn outline_keeps_what_is_searched_and_drops_the_rest() {
    let source = "aaaa\nbbbb\ncccc\ndddd\n";
    let inner = || node(SyntaxKind::ClassDef, "C", 5, 14, vec![other(10, 14)]);
    let forms = [
        (SyntaxKind::If, StatementKind::Compound),
        (SyntaxKind::For, StatementKind::Compound),
        (SyntaxKind::While, StatementKind::Compound),
        (SyntaxKind::With, StatementKind::Compound),
        (SyntaxKind::Try, StatementKind::Compound),
        (SyntaxKind::FunctionDef, StatementKind::Function),
        (SyntaxKind::AsyncFunctionDef, StatementKind::AsyncFunction),
        (SyntaxKind::ClassDef, StatementKind::Class),
    ];
    for (form, kind) in forms {
        let tree = vec![node(form, "n", 0, 19, vec![inner()])];
        let expected = statement(
            kind,
            "n",
            1,
            1,
            4,
            vec![statement(StatementKind::Class, "C", 2, 2, 3, vec![simple(3)])],
        );
        assert_eq!(outline_tree(source, &tree), Ok(vec![expected]));
    }
    let passed_over = vec![node(SyntaxKind::Other, "", 0, 19, vec![inner()])];
    assert_eq!(
        outline_tree(source, &passed_over),
        Ok(vec![statement(StatementKind::Simple, "", 1, 1, 4, vec![])])
    );
}

#[test]
fn decorator_sets_the_first_line_of_what_is_searched() {
    let source = "@a\n@b\nclass C:\n    pass\n";
    let mut class = node(SyntaxKind::ClassDef, "C", 6, 23, vec![other(19, 23)]);
    class.decorator = Some(1);
    assert_eq!(
        outline_tree(source, &vec![class]),
        Ok(vec![statement(StatementKind::Class, "C", 1, 3, 4, vec![simple(4)])])
    );
    let mut plain = other(6, 23);
    plain.decorator = Some(1);
    assert_eq!(outline_tree(source, &vec![plain]), Ok(vec![statement(StatementKind::Simple, "", 3, 3, 4, vec![])]));
}

#[test]
fn offsets_outside_the_source_are_an_invariant_error() {
    let source = "x = 1\n";
    assert!(outline_tree(source, &vec![other(0, 6)]).is_ok());
    assert!(matches!(outline_tree(source, &vec![other(0, 7)]), Err(EngineError::Invariant(_))));
    assert!(matches!(outline_tree(source, &vec![other(7, 6)]), Err(EngineError::Invariant(_))));
    let mut decorated = node(SyntaxKind::FunctionDef, "f", 0, 5, vec![]);
    decorated.decorator = Some(7);
    assert!(matches!(outline_tree(source, &vec![decorated]), Err(EngineError::Invariant(_))));
    let mut ignored = other(0, 5);
    ignored.decorator = Some(7);
    assert!(outline_tree(source, &vec![ignored]).is_ok());
    let nested = node(SyntaxKind::If, "", 0, 5, vec![other(0, 9)]);
    assert!(matches!(outline_tree(source, &vec![nested]), Err(EngineError::Invariant(_))));
    let dropped = node(SyntaxKind::Other, "", 0, 5, vec![other(0, 9)]);
    assert!(outline_tree(source, &vec![dropped]).is_ok());
    assert!(matches!(blocks_from_tree(source, &vec![other(0, 7)]), Err(EngineError::Invariant(_))));
}

#[test]
fn blocks_from_a_tree_are_those_of_the_parsed_source() {
    let source = "import os\n\n@d\ndef f(a):\n    def g():\n        pass\n    return g\n\nclass C:\n    x = 1\n";
    let tree = syntax_of(source).unwrap();
    let blocks = blocks_from_tree(source, &tree).unwrap();
    assert_eq!(blocks, parse_module(source).unwrap());
    let names: Vec<&str> = blocks.iter().map(|b| b.name.as_str()).collect();
    assert_eq!(names, vec!["<module>", "f", "g", "C"]);
    assert_eq!(blocks[2].checksum, calculate_checksum("    def g():\n        pass"));
}

#[test]
fn block_that_ends_before_it_starts_is_an_invariant_error() {
    let source = "a\nb\nc\n";
    let backwards = node(SyntaxKind::FunctionDef, "f", 4, 0, vec![]);
    assert!(outline_tree(source, &vec![backwards]).is_ok());
    let backwards = node(SyntaxKind::FunctionDef, "f", 4, 0, vec![]);
    assert!(matches!(blocks_from_tree(source, &vec![backwards]), Err(EngineError::Invariant(_))));
}

#[test]
fn deep_nesting_is_followed() {
    let mut source = String::new();
    for depth in 0..60 {
        source.push_str(&" ".repeat(depth));
        source.push_str("if x:\n");
    }
    source.push_str(&" ".repeat(60));
    source.push_str("def deep():\n");
    source.push_str(&" ".repeat(61));
    source.push_str("pass\n");
    let blocks = parse_module(&source).unwrap();
    assert_eq!(blocks.len(), 2);
    assert_eq!(blocks[1].name, "deep");
    assert_eq!((blocks[1].start_line, blocks[1].body_start_line, blocks[1].end_line), (61, 62, 62));
}
