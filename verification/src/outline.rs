use crate::checksum::checksum_of;
use crate::signature::signature_end;
use crate::text::{line_count, line_text, span_text, LINE_FEED};
use crate::types::{module_name, BlockType, BlockView};
use vstd::prelude::*;

verus! {

/// What a statement is, as far as blocks are concerned.
#[derive(Clone, Copy, PartialEq, Eq, Structural, Debug)]
pub enum StatementKind {
    /// `def`
    Function,
    /// `async def`
    AsyncFunction,
    /// `class`
    Class,
    /// `if`, `for`, `while`, `with` or `try`: its statements are searched
    /// for definitions.
    Compound,
    /// Any other statement: nothing inside it is searched.
    Simple,
}

/// One statement of a parsed source with the statements nested in it: what
/// the syntax tree says of it, in lines.
///
/// `body` holds the nested statements in source order. For `if`, `for` and
/// `while` these are the body and the `else` branch, for `try` the body, the
/// handlers, the `else` branch and the `finally` branch.
#[derive(Debug, PartialEq, Eq)]
pub struct Statement {
    pub kind: StatementKind,
    /// The identifier of a definition; empty otherwise.
    pub name: String,
    /// The line of the first decorator, or of the header where there is none.
    pub first_line: usize,
    /// The line on which `def`, `async def` or `class` stands.
    pub header_line: usize,
    /// The line on which the statement ends.
    pub last_line: usize,
    pub body: Vec<Statement>,
}

/// What a statement says, with the statements nested in it.
pub ghost struct StatementView {
    pub kind: StatementKind,
    pub name: Seq<char>,
    pub first_line: int,
    pub header_line: int,
    pub last_line: int,
    pub body: Seq<StatementView>,
}

/// What a statement says.
pub open spec fn statement_view(st: Statement) -> StatementView
    decreases st,
{
    StatementView {
        kind: st.kind,
        name: st.name@,
        first_line: st.first_line as int,
        header_line: st.header_line as int,
        last_line: st.last_line as int,
        body: outline_view_upto(st.body@, st.body@.len() as int),
    }
}

/// What the first `n` statements of a list say.
pub open spec fn outline_view_upto(list: Seq<Statement>, n: int) -> Seq<StatementView>
    decreases list, n,
{
    if n <= 0 || n > list.len() {
        Seq::empty()
    } else {
        outline_view_upto(list, n - 1).push(statement_view(list[n - 1]))
    }
}

/// What a list of statements says.
pub open spec fn outline_view(list: Seq<Statement>) -> Seq<StatementView> {
    outline_view_upto(list, list.len() as int)
}

impl View for Statement {
    type V = StatementView;

    open spec fn view(&self) -> StatementView {
        statement_view(*self)
    }
}

/// The view of a list holds the view of each statement, in order.
pub proof fn lemma_outline_view(list: Seq<Statement>, n: int)
    requires
        0 <= n <= list.len(),
    ensures
        outline_view_upto(list, n).len() == n,
        forall|i: int| 0 <= i < n ==> #[trigger] outline_view_upto(list, n)[i] == statement_view(list[i]),
    decreases n,
{
    if n > 0 {
        lemma_outline_view(list, n - 1);
    }
}

/// The view of a statement holds its fields and the views of the
/// statements nested in it.
pub proof fn lemma_statement_view(st: Statement)
    ensures
        st@.kind == st.kind,
        st@.name == st.name@,
        st@.first_line == st.first_line,
        st@.header_line == st.header_line,
        st@.last_line == st.last_line,
        st@.body == outline_view(st.body@),
        st@.body.len() == st.body@.len(),
        forall|i: int| 0 <= i < st.body@.len() ==> #[trigger] st@.body[i] == st.body@[i]@,
{
    lemma_outline_view(st.body@, st.body@.len() as int);
}

/// The statement defines a function, an async function or a class.
pub open spec fn is_definition(kind: StatementKind) -> bool {
    kind == StatementKind::Function || kind == StatementKind::AsyncFunction || kind
        == StatementKind::Class
}

/// The kind of block that a definition gives.
pub open spec fn block_type_of(kind: StatementKind) -> BlockType {
    match kind {
        StatementKind::Function => BlockType::Function,
        StatementKind::AsyncFunction => BlockType::AsyncFunction,
        _ => BlockType::Class,
    }
}

/// The first line that runs when the block is entered: for a class its
/// header, which runs when the class statement does; for a function the
/// first statement of its body.
pub open spec fn body_start_line(st: StatementView) -> int {
    if st.kind == StatementKind::Class || st.body.len() == 0 {
        st.header_line
    } else {
        st.body[0].first_line
    }
}

/// A definition lies inside a text of `lines` lines, its header inside it
/// and its body start inside it.
pub open spec fn placed(st: StatementView, lines: int) -> bool {
    &&& 1 <= st.first_line <= st.header_line <= st.last_line <= lines
    &&& st.first_line <= body_start_line(st) <= st.last_line
}

/// Every definition that is searched for in `st` is placed.
pub open spec fn well_placed(st: StatementView, lines: int) -> bool
    decreases st,
{
    match st.kind {
        StatementKind::Simple => true,
        StatementKind::Compound => all_well_placed(st.body, st.body.len() as int, lines),
        _ => placed(st, lines) && all_well_placed(st.body, st.body.len() as int, lines),
    }
}

/// Every definition that is searched for in the first `n` statements is
/// placed.
pub open spec fn all_well_placed(list: Seq<StatementView>, n: int, lines: int) -> bool
    decreases list, n,
{
    if n <= 0 || n > list.len() {
        true
    } else {
        all_well_placed(list, n - 1, lines) && well_placed(list[n - 1], lines)
    }
}

/// The block of one definition. Its checksum is taken over its lines as they
/// stand, decorators and body included.
pub open spec fn block_of(s: Seq<u8>, st: StatementView) -> BlockView {
    BlockView {
        name: st.name,
        block_type: block_type_of(st.kind),
        start_line: st.first_line,
        end_line: st.last_line,
        body_start_line: body_start_line(st),
        checksum: checksum_of(span_text(s, st.first_line, st.last_line)),
    }
}

/// The blocks found in one statement, the outer before the inner.
pub open spec fn nested_blocks(s: Seq<u8>, st: StatementView) -> Seq<BlockView>
    decreases st,
{
    match st.kind {
        StatementKind::Simple => Seq::empty(),
        StatementKind::Compound => blocks_in(s, st.body, st.body.len() as int),
        _ => seq![block_of(s, st)] + blocks_in(s, st.body, st.body.len() as int),
    }
}

/// The blocks found in the first `n` statements of a list, in source order.
pub open spec fn blocks_in(s: Seq<u8>, list: Seq<StatementView>, n: int) -> Seq<BlockView>
    decreases list, n,
{
    if n <= 0 || n > list.len() {
        Seq::empty()
    } else {
        blocks_in(s, list, n - 1) + nested_blocks(s, list[n - 1])
    }
}

/// `line` belongs to the body of an outermost definition found in `st`: it
/// lies after the definition's signature and not after its end.
pub open spec fn elided_by(s: Seq<u8>, st: StatementView, line: int) -> bool
    decreases st,
{
    match st.kind {
        StatementKind::Simple => false,
        StatementKind::Compound => elided_in(s, st.body, st.body.len() as int, line),
        _ => signature_end(s, st.first_line, st.last_line) < line <= st.last_line,
    }
}

/// `line` belongs to the body of an outermost definition found in the first
/// `n` statements.
pub open spec fn elided_in(s: Seq<u8>, list: Seq<StatementView>, n: int, line: int) -> bool
    decreases list, n,
{
    if n <= 0 || n > list.len() {
        false
    } else {
        elided_in(s, list, n - 1, line) || elided_by(s, list[n - 1], line)
    }
}

/// The lines among the first `n` that belong to no definition body, in
/// order.
pub open spec fn kept_lines_upto(s: Seq<u8>, top: Seq<StatementView>, n: int) -> Seq<Seq<u8>>
    decreases n,
{
    if n <= 0 {
        Seq::empty()
    } else if elided_in(s, top, top.len() as int, n) {
        kept_lines_upto(s, top, n - 1)
    } else {
        kept_lines_upto(s, top, n - 1).push(line_text(s, n))
    }
}

/// The lines of the text that belong to no definition body.
pub open spec fn kept_lines(s: Seq<u8>, top: Seq<StatementView>) -> Seq<Seq<u8>> {
    kept_lines_upto(s, top, line_count(s))
}

/// The lines one after the other, a line feed after each.
pub open spec fn join_terminated(lines: Seq<Seq<u8>>) -> Seq<u8>
    decreases lines.len(),
{
    if lines.len() == 0 {
        Seq::empty()
    } else {
        join_terminated(lines.drop_last()) + lines.last() + seq![LINE_FEED]
    }
}

/// The module skeleton: the text with the body of every outermost
/// definition left out, so that of a definition only the signature lines
/// remain.
pub open spec fn module_skeleton(s: Seq<u8>, top: Seq<StatementView>) -> Seq<u8> {
    join_terminated(kept_lines(s, top))
}

/// The block that stands for the whole file.
pub open spec fn module_block(s: Seq<u8>, top: Seq<StatementView>) -> BlockView {
    BlockView {
        name: module_name(),
        block_type: BlockType::Module,
        start_line: 1,
        end_line: line_count(s),
        body_start_line: 1,
        checksum: checksum_of(module_skeleton(s, top)),
    }
}

/// The blocks of a source whose top-level statements are `top`: the module
/// block, then the definitions in source order, the outer before the inner.
pub open spec fn module_blocks(s: Seq<u8>, top: Seq<StatementView>) -> Seq<BlockView> {
    seq![module_block(s, top)] + blocks_in(s, top, top.len() as int)
}

} // verus!
