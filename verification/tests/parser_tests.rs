use pytest_diff_core::{calculate_checksum, outline_of, parse_module, syntax_of, EngineError};
use pytest_diff_core::types::{Block, BlockType};

fn find<'a>(blocks: &'a [Block], name: &str) -> &'a Block {
    blocks.iter().find(|b| b.name == name).unwrap()
}

#[test]
fn test_parse_simple_function() {
    let source = "\ndef add(a, b):\n    return a + b\n";
    let blocks = parse_module(source).unwrap();

    assert!(blocks.len() >= 2);
    assert_eq!(blocks[0].name, "<module>");

    let func_block = blocks.iter().find(|b| b.name == "add").unwrap();
    assert_eq!(func_block.block_type.as_str(), "function");
}

#[test]
fn test_parse_class_with_methods() {
    let source = "\nclass Calculator:\n    def add(self, a, b):\n        return a + b\n\n    def subtract(self, a, b):\n        return a - b\n";
    let blocks = parse_module(source).unwrap();

    assert!(blocks.len() >= 4);
    assert!(blocks
        .iter()
        .any(|b| b.name == "Calculator" && b.block_type.as_str() == "class"));
    assert!(blocks
        .iter()
        .any(|b| b.name == "add" && b.block_type.as_str() == "function"));
    assert!(blocks
        .iter()
        .any(|b| b.name == "subtract" && b.block_type.as_str() == "function"));
}

#[test]
fn test_parse_async_function() {
    let source = "\nasync def fetch_data():\n    return await get_data()\n";
    let blocks = parse_module(source).unwrap();

    assert!(blocks.len() >= 2);
    let async_func = blocks.iter().find(|b| b.name == "fetch_data").unwrap();
    assert_eq!(async_func.block_type.as_str(), "async_function");
}

#[test]
fn test_checksum_stability() {
    let source = "def foo(): pass";
    let checksum1 = calculate_checksum(source);
    let checksum2 = calculate_checksum(source);

    assert_eq!(checksum1, checksum2);
}

#[test]
fn test_checksum_changes_with_content() {
    let source1 = "def foo(): pass";
    let source2 = "def foo(): return 1";

    let checksum1 = calculate_checksum(source1);
    let checksum2 = calculate_checksum(source2);

    assert_ne!(checksum1, checksum2);
}

#[test]
fn test_parse_nested_functions() {
    let source = "\ndef outer():\n    def inner():\n        pass\n    return inner\n";
    let blocks = parse_module(source).unwrap();

    assert!(blocks.len() >= 3);
    assert!(blocks.iter().any(|b| b.name == "outer"));
    assert!(blocks.iter().any(|b| b.name == "inner"));
}

#[test]
fn test_parse_invalid_syntax() {
    let source = "def foo(";
    let result = parse_module(source);

    assert!(result.is_err());
}

#[test]
fn simple_function_has_module_and_function_block() {
    let blocks = parse_module("def add(a, b):\n    return a + b\n").unwrap();
    assert_eq!(blocks.len(), 2);
    assert_eq!(blocks[0].name, "<module>");
    assert_eq!(blocks[0].block_type, BlockType::Module);
    assert_eq!((blocks[0].start_line, blocks[0].body_start_line, blocks[0].end_line), (1, 1, 2));
    let add = &blocks[1];
    assert_eq!(add.name, "add");
    assert_eq!(add.block_type.as_str(), "function");
    assert_eq!(add.start_line, 1);
    assert_eq!(add.body_start_line, 2);
    assert_eq!(add.end_line, 2);
    assert_eq!(add.checksum, calculate_checksum("def add(a, b):\n    return a + b"));
    assert_eq!(blocks[0].checksum, calculate_checksum("def add(a, b):\n"));
}

#[test]
fn decorators_belong_to_the_block() {
    let source = "@login_required\n@app.route('/api')\ndef get_data():\n    return []\n";
    let blocks = parse_module(source).unwrap();
    let get_data = find(&blocks, "get_data");
    assert_eq!(get_data.start_line, 1);
    assert_eq!(get_data.body_start_line, 4);
    assert_eq!(get_data.end_line, 4);
    assert_eq!(
        blocks[0].checksum,
        calculate_checksum("@login_required\n@app.route('/api')\ndef get_data():\n")
    );
}

#[test]
fn multi_line_signature_with_comment_colon() {
    let source = "def foo(\n    a,  # see also dict:\n    b,\n):\n    pass\n";
    let blocks = parse_module(source).unwrap();
    assert_eq!(blocks.len(), 2);
    let foo = &blocks[1];
    assert_eq!(foo.name, "foo");
    assert_eq!(foo.start_line, 1);
    assert_eq!(foo.end_line, 5);
    assert_eq!(foo.body_start_line, 5);
    assert_eq!(
        blocks[0].checksum,
        calculate_checksum("def foo(\n    a,  # see also dict:\n    b,\n):\n")
    );
}

#[test]
fn rejected_source_gives_a_parse_error_at_every_level() {
    for source in ["def foo(", "class :", "x = = 1", "if x:\npass\n"] {
        assert!(matches!(syntax_of(source), Err(EngineError::Parse(_))));
        assert!(matches!(outline_of(source), Err(EngineError::Parse(_))));
        assert!(matches!(parse_module(source), Err(EngineError::Parse(_))));
    }
}

#[test]
fn parsing_twice_gives_the_same_blocks() {
    let source = "import os\n\n@d\ndef f(a):\n    return a\n\nclass C:\n    def m(self):\n        pass\n";
    assert_eq!(parse_module(source), parse_module(source));
    assert_eq!(parse_module(source), parse_module(&source.to_string()));
    assert_eq!(parse_module("def foo(").is_err(), parse_module("def foo(").is_err());
}
