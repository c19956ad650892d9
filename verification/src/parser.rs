use crate::extract::{extract_blocks, is_block_list};
use crate::outline::{
    all_well_placed, lemma_outline_view, module_blocks, outline_view, Statement, StatementKind,
    StatementView,
};
use crate::syntax::{
    lemma_node_view, lemma_tree_view, parse_error_text, parse_tree, parsed_tree, tree_view,
    SyntaxKind, SyntaxNode, SyntaxNodeView,
};
use crate::text::{line_count, line_of_offset, LineTable};
use crate::types::{block_views, Block, BlockView, EngineError};
use vstd::prelude::*;
use vstd::string::StringSliceAdditionalSpecFns;

verus! {

/// Which statements are definitions, which are searched for definitions,
/// and which are passed over: `if`, `for`, `while`, `with` and `try` are
/// searched, and nothing else that is no definition.
pub open spec fn kind_of(syntax: SyntaxKind) -> StatementKind {
    match syntax {
        SyntaxKind::FunctionDef => StatementKind::Function,
        SyntaxKind::AsyncFunctionDef => StatementKind::AsyncFunction,
        SyntaxKind::ClassDef => StatementKind::Class,
        SyntaxKind::If | SyntaxKind::For | SyntaxKind::While | SyntaxKind::With
        | SyntaxKind::Try => StatementKind::Compound,
        SyntaxKind::Other => StatementKind::Simple,
    }
}

/// Tells what a statement of this form is, as far as blocks are concerned.
pub fn statement_kind(kind: SyntaxKind) -> (out: StatementKind)
    ensures
        out == kind_of(kind),
{
    match kind {
        SyntaxKind::FunctionDef => StatementKind::Function,
        SyntaxKind::AsyncFunctionDef => StatementKind::AsyncFunction,
        SyntaxKind::ClassDef => StatementKind::Class,
        SyntaxKind::If | SyntaxKind::For | SyntaxKind::While | SyntaxKind::With
        | SyntaxKind::Try => StatementKind::Compound,
        SyntaxKind::Other => StatementKind::Simple,
    }
}

/// The offsets that are read of a node lie inside a text of `len` bytes.
/// The decorator of a statement that is passed over is not read.
pub open spec fn offsets_inside(node: SyntaxNodeView, len: int) -> bool {
    &&& 0 <= node.start <= len
    &&& 0 <= node.end <= len
    &&& kind_of(node.form) != StatementKind::Simple ==> (node.decorator matches Some(at) ==> 0
        <= at <= len)
}

/// The statement that a node of the syntax tree gives, in lines. The header
/// line is the line on which the statement starts, the first line that of
/// its first decorator where it has one, the last line that on which it
/// ends. Nothing nested in a statement that is passed over is kept. A node
/// with an offset outside the text, or with such a node nested in it where
/// it is searched, gives nothing.
pub open spec fn outlined(s: Seq<u8>, node: SyntaxNodeView) -> Option<StatementView>
    decreases node,
{
    let kind = kind_of(node.form);
    let header_line = line_of_offset(s, node.start);
    if !offsets_inside(node, s.len() as int) {
        None
    } else if kind == StatementKind::Simple {
        Some(
            StatementView {
                kind,
                name: node.name,
                first_line: header_line,
                header_line,
                last_line: line_of_offset(s, node.end),
                body: Seq::empty(),
            },
        )
    } else {
        match outlined_list(s, node.body, node.body.len() as int) {
            None => None,
            Some(body) => Some(
                StatementView {
                    kind,
                    name: node.name,
                    first_line: match node.decorator {
                        Some(at) => line_of_offset(s, at),
                        None => header_line,
                    },
                    header_line,
                    last_line: line_of_offset(s, node.end),
                    body,
                },
            ),
        }
    }
}

/// The statements that the first `n` nodes of a list give, in order;
/// nothing where one of them gives nothing.
pub open spec fn outlined_list(s: Seq<u8>, list: Seq<SyntaxNodeView>, n: int) -> Option<
    Seq<StatementView>,
>
    decreases list, n,
{
    if n <= 0 || n > list.len() {
        Some(Seq::empty())
    } else {
        match (outlined_list(s, list, n - 1), outlined(s, list[n - 1])) {
            (Some(earlier), Some(statement)) => Some(earlier.push(statement)),
            _ => None,
        }
    }
}

fn out_of_text() -> (error: EngineError)
    ensures
        error matches EngineError::Invariant(text) && text@
            == "a statement lies outside the text"@,
{
    EngineError::Invariant("a statement lies outside the text".to_string())
}

fn outline_node(node: &SyntaxNode, table: &LineTable, bytes: &[u8]) -> (result: Result<
    Statement,
    EngineError,
>)
    requires
        table.describes(bytes@),
    ensures
        match result {
            Ok(statement) => outlined(bytes@, node@) == Some(statement@),
            Err(e) => outlined(bytes@, node@) is None && e is Invariant,
        },
    decreases node,
{
    proof {
        lemma_node_view(*node);
    }
    let kind: StatementKind = statement_kind(node.form);
    if node.start > bytes.len() || node.end > bytes.len() {
        return Err(out_of_text());
    }
    let header_line: usize = table.line_of_offset(bytes, node.start);
    let last_line: usize = table.line_of_offset(bytes, node.end);
    let mut first_line: usize = header_line;
    let mut body: Vec<Statement> = Vec::new();
    if kind != StatementKind::Simple {
        if let Some(at) = node.decorator {
            if at > bytes.len() {
                return Err(out_of_text());
            }
            first_line = table.line_of_offset(bytes, at);
        }
        match outline_nodes(&node.body, table, bytes) {
            Ok(statements) => {
                body = statements;
            },
            Err(e) => {
                return Err(e);
            },
        }
    }
    let statement = Statement {
        kind,
        name: node.name.clone(),
        first_line,
        header_line,
        last_line,
        body,
    };
    proof {
        crate::outline::lemma_statement_view(statement);
        lemma_outline_view(body@, body@.len() as int);
        assert(statement@.body =~= outlined(bytes@, node@)->0.body);
    }
    Ok(statement)
}

fn outline_nodes(list: &Vec<SyntaxNode>, table: &LineTable, bytes: &[u8]) -> (result: Result<
    Vec<Statement>,
    EngineError,
>)
    requires
        table.describes(bytes@),
    ensures
        match result {
            Ok(statements) => outlined_list(bytes@, tree_view(list@), list@.len() as int) == Some(
                outline_view(statements@),
            ),
            Err(e) => outlined_list(bytes@, tree_view(list@), list@.len() as int) is None
                && e is Invariant,
        },
    decreases list@,
{
    let ghost nodes = tree_view(list@);
    proof {
        lemma_tree_view(list@, list@.len() as int);
    }
    let mut statements: Vec<Statement> = Vec::new();
    let mut i: usize = 0;
    assert(outline_view(statements@) =~= Seq::<StatementView>::empty());
    while i < list.len()
        invariant
            table.describes(bytes@),
            i <= list@.len(),
            nodes == tree_view(list@),
            nodes.len() == list@.len(),
            forall|k: int| 0 <= k < list@.len() ==> #[trigger] nodes[k] == list@[k]@,
            outlined_list(bytes@, nodes, i as int) == Some(outline_view(statements@)),
        decreases list@.len() - i,
    {
        let ghost earlier = outline_view(statements@);
        match outline_node(&list[i], table, bytes) {
            Ok(statement) => {
                proof {
                    lemma_outline_view(statements@, statements@.len() as int);
                    lemma_outline_view(
                        statements@.push(statement),
                        statements@.len() as int + 1,
                    );
                    assert(outline_view(statements@.push(statement)) =~= earlier.push(statement@));
                }
                statements.push(statement);
            },
            Err(e) => {
                proof {
                    lemma_list_gives_nothing(bytes@, nodes, i as int + 1, list@.len() as int);
                }
                return Err(e);
            },
        }
        i += 1;
    }
    Ok(statements)
}

/// Once a node gives nothing, the list gives nothing.
proof fn lemma_list_gives_nothing(s: Seq<u8>, list: Seq<SyntaxNodeView>, i: int, n: int)
    requires
        0 <= i <= n <= list.len(),
        outlined_list(s, list, i) is None,
    ensures
        outlined_list(s, list, n) is None,
    decreases n,
{
    if i < n {
        lemma_list_gives_nothing(s, list, i, n - 1);
    }
}

/// Turns what a syntax tree says, in byte offsets, into the outline of the
/// source, in lines.
///
/// Fails, with `EngineError::Invariant`, exactly when an offset that is
/// read lies outside the source.
pub fn outline_tree(source: &str, tree: &Vec<SyntaxNode>) -> (result: Result<
    Vec<Statement>,
    EngineError,
>)
    ensures
        match result {
            Ok(outline) => outlined_list(
                source.spec_bytes(),
                tree_view(tree@),
                tree@.len() as int,
            ) == Some(outline_view(outline@)),
            Err(e) => outlined_list(source.spec_bytes(), tree_view(tree@), tree@.len() as int)
                is None && e is Invariant,
        },
{
    let bytes: &[u8] = source.as_bytes();
    let table: LineTable = LineTable::build(bytes);
    outline_nodes(tree, &table, bytes)
}

/// The syntax tree of a source: the tree that the parser gives for it.
/// Nothing for a source of more than 4,294,967,295 bytes, which is not
/// shown to the parser, for one that the parser rejects, and for one whose
/// statements nest deeper than it has bytes.
pub open spec fn source_tree(s: Seq<u8>) -> Option<Seq<SyntaxNodeView>> {
    if s.len() > u32::MAX {
        None
    } else {
        parsed_tree(s)
    }
}

/// The outline of a source: the one that its syntax tree gives.
pub open spec fn source_outline(s: Seq<u8>) -> Option<Seq<StatementView>> {
    match source_tree(s) {
        Some(tree) => outlined_list(s, tree, tree.len() as int),
        None => None,
    }
}

/// Parses a source and copies what its syntax tree says of its statements.
///
/// Gives the syntax tree of the source. Fails, with `EngineError::Parse`,
/// exactly when the source has none: the parser's message comes with a
/// source that the parser rejects.
pub fn syntax_of(source: &str) -> (result: Result<Vec<SyntaxNode>, EngineError>)
    ensures
        match result {
            Ok(tree) => source_tree(source.spec_bytes()) == Some(tree_view(tree@)),
            Err(e) => source_tree(source.spec_bytes()) is None && e is Parse,
        },
{
    let bytes: &[u8] = source.as_bytes();
    if bytes.len() > 0xffff_ffff {
        return Err(EngineError::Parse("the source is longer than the parser accepts".to_string()));
    }
    match parse_tree(source) {
        Err(error) => Err(EngineError::Parse(parse_error_text(&error))),
        Ok(Some(tree)) => Ok(tree),
        Ok(None) => Err(
            EngineError::Parse("statements nest deeper than the source is long".to_string()),
        ),
    }
}

/// Parses a source and returns its outline: its top-level statements, in
/// lines, with what is nested in them.
///
/// Fails with `EngineError::Parse` exactly when the source has no syntax
/// tree, and with `EngineError::Invariant` exactly when it has one that
/// gives no outline because an offset lies outside the source.
pub fn outline_of(source: &str) -> (result: Result<Vec<Statement>, EngineError>)
    ensures
        match result {
            Ok(outline) => source_outline(source.spec_bytes()) == Some(outline_view(outline@)),
            Err(e) => {
                &&& source_outline(source.spec_bytes()) is None
                &&& e is Parse <==> source_tree(source.spec_bytes()) is None
                &&& e is Invariant <==> source_tree(source.spec_bytes()) is Some
            },
        },
{
    match syntax_of(source) {
        Err(e) => Err(e),
        Ok(tree) => {
            proof {
                lemma_tree_view(tree@, tree@.len() as int);
            }
            outline_tree(source, &tree)
        },
    }
}

/// The blocks of a source whose syntax tree says `tree`: those of the
/// outline that the tree gives. Nothing where the tree gives no outline or
/// a definition of the outline lies outside the text.
pub open spec fn blocks_of_tree(s: Seq<u8>, tree: Seq<SyntaxNodeView>) -> Option<Seq<BlockView>> {
    match outlined_list(s, tree, tree.len() as int) {
        Some(outline) if all_well_placed(outline, outline.len() as int, line_count(s)) => Some(
            module_blocks(s, outline),
        ),
        _ => None,
    }
}

/// Lists the blocks of a source whose syntax tree says `tree`.
///
/// Fails, with `EngineError::Invariant`, exactly when an offset that is
/// read of the tree lies outside the source or a definition of the outline
/// does not lie inside the text.
pub fn blocks_from_tree(source: &str, tree: &Vec<SyntaxNode>) -> (result: Result<
    Vec<Block>,
    EngineError,
>)
    ensures
        match result {
            Ok(blocks) => blocks_of_tree(source.spec_bytes(), tree_view(tree@)) == Some(
                block_views(blocks@),
            ) && is_block_list(source.spec_bytes(), block_views(blocks@)),
            Err(e) => blocks_of_tree(source.spec_bytes(), tree_view(tree@)) is None
                && e is Invariant,
        },
{
    proof {
        lemma_tree_view(tree@, tree@.len() as int);
    }
    match outline_tree(source, tree) {
        Err(e) => Err(e),
        Ok(outline) => {
            proof {
                lemma_outline_view(outline@, outline@.len() as int);
            }
            extract_blocks(source, &outline)
        },
    }
}

/// The blocks of a source: those that its syntax tree gives.
pub open spec fn source_blocks(s: Seq<u8>) -> Option<Seq<BlockView>> {
    match source_tree(s) {
        Some(tree) => blocks_of_tree(s, tree),
        None => None,
    }
}

/// `result` is what parsing a source with these bytes gives: its blocks;
/// or an error, `EngineError::Parse` where the source has no syntax tree and
/// `EngineError::Invariant` where it has one that gives no blocks.
pub open spec fn is_parse_of(s: Seq<u8>, result: Result<Vec<Block>, EngineError>) -> bool {
    match result {
        Ok(blocks) => source_blocks(s) == Some(block_views(blocks@)),
        Err(e) => {
            &&& source_blocks(s) is None
            &&& e is Parse <==> source_tree(s) is None
            &&& e is Invariant <==> source_tree(s) is Some
        },
    }
}

/// Parses a source and lists its blocks: the module block, then every
/// function, async function and class, in source order.
///
/// The result is a function of the bytes of the source: the blocks that
/// its syntax tree gives. A source without syntax tree gives
/// `EngineError::Parse`, and a tree that gives no blocks
/// `EngineError::Invariant`.
pub fn parse_module(source: &str) -> (result: Result<Vec<Block>, EngineError>)
    ensures
        is_parse_of(source.spec_bytes(), result),
        result matches Ok(blocks) ==> is_block_list(source.spec_bytes(), block_views(blocks@)),
{
    match syntax_of(source) {
        Err(e) => Err(e),
        Ok(tree) => blocks_from_tree(source, &tree),
    }
}

} // verus!
