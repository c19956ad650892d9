use pytest_diff_core::{calculate_checksum, filter_executed_blocks, parse_module, Block};

const SAMPLE: &str = r##""""Inventory: a sample module.

It has a docstring with a colon: and a hash # inside.
"""
import os
from typing import (
    Dict,
    List,
)

LIMIT = {"a": 1,
         "b": [2, 3]}


def plain(x, y=lambda: 0):
    """Docstring: with colon."""
    return x + y()


@staticmethod
@registry.add(
    name="multi",  # comment with ):
    tags=["x:y"],
)
def decorated(
    first: Dict[str, int],
    second: List[str] = (),  # default: empty
) -> bool:
    text = "not a comment # here:"
    return bool(first) or bool(second) or text


class Shelf(Base, metaclass=Meta):
    capacity = 10

    def __init__(self):
        self.items = []

    @property
    def size(self): return len(self.items)

    async def refill(self):
        async with lock:
            def helper():
                pass
        try:
            await fetch()
        except (IOError, ValueError) as error:
            def on_error():
                return error
        finally:
            class Cleanup:
                pass

    class Inner:
        def method(self):
            for item in self.items:
                def visit():
                    return item


if os.name == "nt":
    def platform():
        return "windows"
else:
    def platform():
        return "other"
"##;

fn shape(block: &Block) -> (String, String, usize, usize, usize) {
    (
        block.name.clone(),
        block.block_type.as_str().to_string(),
        block.start_line,
        block.body_start_line,
        block.end_line,
    )
}

fn entry(name: &str, kind: &str, start: usize, body: usize, end: usize) -> (String, String, usize, usize, usize) {
    (name.to_string(), kind.to_string(), start, body, end)
}

fn span(first: usize, last: usize) -> String {
    SAMPLE.lines().collect::<Vec<&str>>()[first - 1..last].join("\n")
}

#[test]
fn sample_module_has_the_expected_blocks() {
    let blocks = parse_module(SAMPLE).unwrap();
    let shapes: Vec<_> = blocks.iter().map(shape).collect();
    assert_eq!(
        shapes,
        vec![
            entry("<module>", "module", 1, 1, 67),
            entry("plain", "function", 15, 16, 17),
            entry("decorated", "function", 20, 29, 30),
            entry("Shelf", "class", 33, 33, 59),
            entry("__init__", "function", 36, 37, 37),
            entry("size", "function", 39, 40, 40),
            entry("refill", "async_function", 42, 43, 53),
            entry("on_error", "function", 49, 50, 50),
            entry("Cleanup", "class", 52, 52, 53),
            entry("Inner", "class", 55, 55, 59),
            entry("method", "function", 56, 57, 59),
            entry("visit", "function", 58, 59, 59),
            entry("platform", "function", 63, 64, 64),
            entry("platform", "function", 66, 67, 67),
        ]
    );
}

#[test]
fn sample_block_checksums_are_taken_over_their_lines() {
    let blocks = parse_module(SAMPLE).unwrap();
    for block in &blocks[1..] {
        assert_eq!(block.checksum, calculate_checksum(&span(block.start_line, block.end_line)));
    }
}

#[test]
fn sample_module_checksum_is_taken_over_the_skeleton() {
    let blocks = parse_module(SAMPLE).unwrap();
    let mut skeleton = String::new();
    for (first, last) in [(1, 15), (18, 28), (31, 33), (60, 63), (65, 66)] {
        skeleton.push_str(&span(first, last));
        skeleton.push('\n');
    }
    assert_eq!(blocks[0].checksum, calculate_checksum(&skeleton));
}

#[test]
fn sample_coverage_finds_the_blocks_that_ran() {
    let blocks = parse_module(SAMPLE).unwrap();
    let ran = |lines: Vec<usize>| -> Vec<String> {
        filter_executed_blocks(&blocks, &lines).iter().map(|b| b.name.clone()).collect()
    };
    assert_eq!(ran(vec![5, 15, 20, 25, 33]), vec!["<module>", "Shelf"]);
    assert_eq!(ran(vec![29]), vec!["<module>", "decorated"]);
    assert_eq!(ran(vec![50]), vec!["<module>", "Shelf", "refill", "on_error"]);
    assert_eq!(ran(vec![59]), vec!["<module>", "Shelf", "Inner", "method", "visit"]);
    assert_eq!(ran(vec![44, 45]), vec!["<module>", "Shelf", "refill"]);
}
