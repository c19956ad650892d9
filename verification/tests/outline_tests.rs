use pytest_diff_core::signature::{find_signature_end, scan_text_line, Depths};
use pytest_diff_core::text::LineTable;
use pytest_diff_core::{
    calculate_checksum, extract_blocks, outline_of, parse_module, BlockType, EngineError,
    Statement, StatementKind,
};

fn simple(line: usize) -> Statement {
    Statement {
        kind: StatementKind::Simple,
        name: String::new(),
        first_line: line,
        header_line: line,
        last_line: line,
        body: vec![],
    }
}

fn definition(kind: StatementKind, name: &str, first: usize, header: usize, last: usize, body: Vec<Statement>) -> Statement {
    Statement { kind, name: name.to_string(), first_line: first, header_line: header, last_line: last, body }
}

#[test]
fn blocks_follow_the_outline() {
    let source = "import os\n@d\ndef f():\n    x = 1\n    return x\ny = 2\n";
    let outline = vec![
        simple(1),
        definition(StatementKind::Function, "f", 2, 3, 5, vec![simple(4), simple(5)]),
        simple(6),
    ];
    let blocks = extract_blocks(source, &outline).unwrap();
    assert_eq!(blocks.len(), 2);
    assert_eq!(blocks[0].name, "<module>");
    assert_eq!(blocks[0].block_type, BlockType::Module);
    assert_eq!((blocks[0].start_line, blocks[0].body_start_line, blocks[0].end_line), (1, 1, 6));
    assert_eq!(blocks[0].checksum, calculate_checksum("import os\n@d\ndef f():\ny = 2\n"));
    assert_eq!(blocks[1].name, "f");
    assert_eq!(blocks[1].block_type, BlockType::Function);
    assert_eq!((blocks[1].start_line, blocks[1].body_start_line, blocks[1].end_line), (2, 4, 5));
    assert_eq!(blocks[1].checksum, calculate_checksum("@d\ndef f():\n    x = 1\n    return x"));
    assert_eq!(outline_of(source).unwrap(), outline);
    assert_eq!(parse_module(source).unwrap(), blocks);
}

#[test]
fn misplaced_definition_is_an_invariant_error() {
    let source = "def f():\n    pass\n";
    let beyond = vec![definition(StatementKind::Function, "f", 1, 1, 3, vec![simple(2)])];
    assert!(matches!(extract_blocks(source, &beyond), Err(EngineError::Invariant(_))));
    let zero = vec![definition(StatementKind::Class, "C", 0, 1, 2, vec![])];
    assert!(matches!(extract_blocks(source, &zero), Err(EngineError::Invariant(_))));
    let backwards = vec![definition(StatementKind::Function, "f", 2, 2, 1, vec![])];
    assert!(matches!(extract_blocks(source, &backwards), Err(EngineError::Invariant(_))));
    let header_before = vec![definition(StatementKind::Function, "f", 2, 1, 2, vec![])];
    assert!(matches!(extract_blocks(source, &header_before), Err(EngineError::Invariant(_))));
    let body_outside = vec![definition(StatementKind::Function, "f", 1, 1, 1, vec![simple(2)])];
    assert!(matches!(extract_blocks(source, &body_outside), Err(EngineError::Invariant(_))));
    let nested = vec![definition(
        StatementKind::Compound,
        "",
        1,
        1,
        2,
        vec![definition(StatementKind::Class, "C", 2, 2, 9, vec![])],
    )];
    assert!(matches!(extract_blocks(source, &nested), Err(EngineError::Invariant(_))));
    let ignored = vec![Statement { last_line: 99, ..simple(1) }];
    assert_eq!(extract_blocks(source, &ignored).unwrap().len(), 1);
}

#[test]
fn empty_source_has_one_line_and_a_module_block() {
    let blocks = parse_module("").unwrap();
    assert_eq!(blocks.len(), 1);
    assert_eq!((blocks[0].start_line, blocks[0].body_start_line, blocks[0].end_line), (1, 1, 1));
    assert_eq!(blocks[0].checksum, calculate_checksum("\n"));
    let blocks = parse_module("\n").unwrap();
    assert_eq!(blocks[0].end_line, 1);
    let blocks = parse_module("x = 1").unwrap();
    assert_eq!(blocks[0].end_line, 1);
    assert_eq!(blocks[0].checksum, calculate_checksum("x = 1\n"));
    let blocks = parse_module("x = 1\ny = 2\n\n").unwrap();
    assert_eq!(blocks[0].end_line, 3);
}

#[test]
fn blocks_come_in_source_order_outer_before_inner() {
    let source = "class A:\n    def f(self):\n        def g():\n            pass\n        return g\n    class B:\n        pass\ndef h():\n    pass\n";
    let blocks = parse_module(source).unwrap();
    let names: Vec<&str> = blocks.iter().map(|b| b.name.as_str()).collect();
    assert_eq!(names, vec!["<module>", "A", "f", "g", "B", "h"]);
    let kinds: Vec<&str> = blocks.iter().map(|b| b.block_type.as_str()).collect();
    assert_eq!(kinds, vec!["module", "class", "function", "function", "class", "function"]);
    for block in &blocks {
        assert!(1 <= block.start_line);
        assert!(block.start_line <= block.body_start_line);
        assert!(block.body_start_line <= block.end_line);
        assert!(block.end_line <= 9);
    }
    assert_eq!(blocks[0].checksum, calculate_checksum("class A:\ndef h():\n"));
}

#[test]
fn definitions_inside_compound_statements_are_found() {
    let source = "if a:\n    def in_if():\n        pass\nelse:\n    def in_else():\n        pass\nfor i in x:\n    def in_for():\n        pass\nwhile c:\n    def in_while():\n        pass\nwith m:\n    def in_with():\n        pass\ntry:\n    def in_try():\n        pass\nexcept E:\n    def in_handler():\n        pass\nelse:\n    def in_try_else():\n        pass\nfinally:\n    def in_finally():\n        pass\n";
    let blocks = parse_module(source).unwrap();
    let names: Vec<&str> = blocks.iter().map(|b| b.name.as_str()).collect();
    assert_eq!(
        names,
        vec![
            "<module>", "in_if", "in_else", "in_for", "in_while", "in_with", "in_try",
            "in_handler", "in_try_else", "in_finally"
        ]
    );
    let in_handler = blocks.iter().find(|b| b.name == "in_handler").unwrap();
    assert_eq!((in_handler.start_line, in_handler.body_start_line, in_handler.end_line), (20, 21, 21));
}

#[test]
fn definitions_inside_other_statements_are_passed_over() {
    let source = "async def outer():\n    async with m:\n        def hidden():\n            pass\n    async for i in x:\n        def hidden_too():\n            pass\n";
    let blocks = parse_module(source).unwrap();
    let names: Vec<&str> = blocks.iter().map(|b| b.name.as_str()).collect();
    assert_eq!(names, vec!["<module>", "outer"]);
    assert_eq!(blocks[1].block_type, BlockType::AsyncFunction);
}

#[test]
fn module_checksum_ignores_bodies_but_not_signatures() {
    let module = |source: &str| parse_module(source).unwrap()[0].checksum;
    let base = "import os\n\ndef f(a):\n    return a\n\nclass C:\n    x = 1\n";
    assert_eq!(module(base), module("import os\n\ndef f(a):\n    return a + 1\n\nclass C:\n    x = 2\n"));
    assert_eq!(module(base), module("import os\n\ndef f(a):\n    b = a\n    return b\n\nclass C:\n    x = 1\n"));
    assert_ne!(module(base), module("import os\n\ndef f(b):\n    return a\n\nclass C:\n    x = 1\n"));
    assert_ne!(module(base), module("import sys\n\ndef f(a):\n    return a\n\nclass C:\n    x = 1\n"));
    assert_ne!(module(base), module("import os\n\n@d\ndef f(a):\n    return a\n\nclass C:\n    x = 1\n"));
    let guarded = "if x:\n    def f():\n        return 1\n";
    assert_eq!(module(guarded), module("if x:\n    def f():\n        return 2\n"));
    assert_eq!(module(guarded), calculate_checksum("if x:\n    def f():\n"));
}

#[test]
fn one_line_definition_keeps_its_body_in_the_skeleton() {
    let module = |source: &str| parse_module(source).unwrap()[0].checksum;
    assert_ne!(module("def f(): return 1\n"), module("def f(): return 2\n"));
    let blocks = parse_module("def f(): return 1\n").unwrap();
    assert_eq!((blocks[1].start_line, blocks[1].body_start_line, blocks[1].end_line), (1, 1, 1));
}

#[test]
fn decorator_changes_function_and_module_checksum() {
    let plain = parse_module("def f():\n    pass\n").unwrap();
    let decorated = parse_module("@d\ndef f():\n    pass\n").unwrap();
    assert_ne!(plain[0].checksum, decorated[0].checksum);
    assert_ne!(plain[1].checksum, decorated[1].checksum);
    assert_eq!(decorated[1].start_line, 1);
    assert_eq!(decorated[1].checksum, calculate_checksum("@d\ndef f():\n    pass"));
}

#[test]
fn decorated_class_starts_at_its_decorator_and_runs_from_its_header() {
    let blocks = parse_module("@register\n@final\nclass C(\n    Base,\n):\n    x = 1\n").unwrap();
    let c = &blocks[1];
    assert_eq!(c.block_type, BlockType::Class);
    assert_eq!((c.start_line, c.body_start_line, c.end_line), (1, 3, 6));
    assert_eq!(blocks[0].checksum, calculate_checksum("@register\n@final\nclass C(\n    Base,\n):\n"));
}

#[test]
fn carriage_returns_end_lines_too() {
    let blocks = parse_module("x = 1\r\ndef f():\r\n    pass\r\n").unwrap();
    assert_eq!(blocks[0].end_line, 3);
    assert_eq!((blocks[1].start_line, blocks[1].body_start_line, blocks[1].end_line), (2, 3, 3));
    assert_eq!(blocks[1].checksum, calculate_checksum("def f():\r\n    pass"));
    assert_eq!(blocks[0].checksum, calculate_checksum("x = 1\ndef f():\n"));
    let blocks = parse_module("x = 1\rdef f():\r    pass\r").unwrap();
    assert_eq!(blocks[0].end_line, 3);
    assert_eq!((blocks[1].start_line, blocks[1].body_start_line, blocks[1].end_line), (2, 3, 3));
}

#[test]
fn line_table_maps_offsets_to_lines() {
    let text = b"ab\ncd\r\nef\rgh";
    let table = LineTable::build(text);
    assert_eq!(table.starts, vec![0, 3, 7, 10]);
    assert_eq!(table.line_count(text), 4);
    let lines: Vec<usize> = (0..=text.len()).map(|o| table.line_of_offset(text, o)).collect();
    assert_eq!(lines, vec![1, 1, 1, 2, 2, 2, 2, 3, 3, 3, 4, 4, 4]);
    assert_eq!((table.line_start(text, 2), table.line_end(text, 2)), (3, 5));
    assert_eq!((table.line_start(text, 1), table.line_end(text, 1)), (0, 2));
    assert_eq!((table.line_start(text, 3), table.line_end(text, 3)), (7, 9));
    assert_eq!((table.line_start(text, 4), table.line_end(text, 4)), (10, 12));
    let empty = LineTable::build(b"");
    assert_eq!(empty.line_count(b""), 1);
    assert_eq!(empty.line_of_offset(b"", 0), 1);
    let bare = LineTable::build(b"\r\n\n\r");
    assert_eq!(bare.starts, vec![0, 2, 3, 4]);
    assert_eq!((bare.line_start(b"\r\n\n\r", 1), bare.line_end(b"\r\n\n\r", 1)), (0, 0));
    assert_eq!((bare.line_start(b"\r\n\n\r", 2), bare.line_end(b"\r\n\n\r", 2)), (2, 2));
    assert_eq!(bare.line_count(b"\r\n\n\r"), 3);
    let ended = LineTable::build(b"a\n");
    assert_eq!(ended.line_count(b"a\n"), 1);
    assert_eq!(ended.starts, vec![0, 2]);
}

#[test]
fn signature_ends_at_the_colon_outside_brackets_strings_and_comments() {
    let end = |text: &str, last: usize| {
        let table = LineTable::build(text.as_bytes());
        find_signature_end(&table, text.as_bytes(), 1, last)
    };
    assert_eq!(end("def f():\n    pass\n", 2), 1);
    assert_eq!(end("def f():   # why: because\n    pass\n", 2), 1);
    assert_eq!(end("def f(a,\n      b):\n    pass\n", 3), 2);
    assert_eq!(end("def f(a={\n  'k': [\n    1]}):\n    pass\n", 4), 3);
    assert_eq!(end("def f(a=':',\n      b='#:'):  \n    pass\n", 3), 2);
    assert_eq!(end("def f(a='\\':',\n      b=1):\n    pass\n", 3), 2);
    assert_eq!(end("@d(x[1:])\ndef f():\n    pass\n", 3), 2);
    assert_eq!(end("def f(): pass\n", 1), 1);
    assert_eq!(end("x = 1\ny = 2\nz = 3\n", 3), 3);
    assert_eq!(end("def f(\n    a,  # see also dict:\n    b,\n):\n    pass\n", 5), 4);
}

#[test]
fn line_scan_tracks_brackets_and_last_code_byte() {
    let text = b"f(a[1], {'k': \"v)\"}  # )]}";
    let table = LineTable::build(text);
    let scan = scan_text_line(&table, text, 1, Depths { round: 0, square: 0, curly: 0 });
    assert_eq!(scan.depths, Depths { round: 1, square: 0, curly: 0 });
    assert_eq!(scan.last_code, b'}');
    assert!(scan.in_comment);
    let close = b"))";
    let table = LineTable::build(close);
    let scan = scan_text_line(&table, close, 1, Depths { round: 1, square: 2, curly: 0 });
    assert_eq!(scan.depths, Depths { round: 0, square: 2, curly: 0 });
}
