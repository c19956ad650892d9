use crate::checksum::checksum_bytes;
use crate::outline::{
    all_well_placed, block_of, blocks_in, body_start_line, elided_by, elided_in, join_terminated,
    kept_lines_upto, lemma_outline_view, lemma_statement_view, module_blocks, module_skeleton,
    nested_blocks, outline_view, placed, well_placed, Statement, StatementKind, StatementView,
};
use crate::signature::find_signature_end;
use crate::text::{lemma_line_starts_shape, line_count, line_starts, LineTable, LINE_FEED};
use crate::types::{block_views, module_name, Block, BlockType, BlockView, EngineError};
use vstd::prelude::*;
use vstd::slice::slice_subrange;
use vstd::string::StringSliceAdditionalSpecFns;

verus! {

fn body_start_of(st: &Statement) -> (line: usize)
    ensures
        line == body_start_line(st@),
{
    proof {
        lemma_statement_view(*st);
    }
    if st.kind == StatementKind::Class || st.body.len() == 0 {
        st.header_line
    } else {
        st.body[0].first_line
    }
}

fn definition_placed(st: &Statement, lines: usize) -> (ok: bool)
    ensures
        ok == placed(st@, lines as int),
{
    proof {
        lemma_statement_view(*st);
    }
    let body_start: usize = body_start_of(st);
    1 <= st.first_line && st.first_line <= st.header_line && st.header_line <= st.last_line
        && st.last_line <= lines && st.first_line <= body_start && body_start <= st.last_line
}

/// Tells whether every definition found in `st` lies inside a text of
/// `lines` lines.
pub fn statement_in_place(st: &Statement, lines: usize) -> (ok: bool)
    ensures
        ok == well_placed(st@, lines as int),
    decreases st,
{
    proof {
        lemma_statement_view(*st);
    }
    match st.kind {
        StatementKind::Simple => true,
        StatementKind::Compound => statements_in_place(&st.body, lines),
        _ => definition_placed(st, lines) && statements_in_place(&st.body, lines),
    }
}

/// Tells whether every definition found in a list of statements lies inside
/// a text of `lines` lines.
pub fn statements_in_place(list: &Vec<Statement>, lines: usize) -> (ok: bool)
    ensures
        ok == all_well_placed(outline_view(list@), list@.len() as int, lines as int),
    decreases list@,
{
    proof {
        lemma_outline_view(list@, list@.len() as int);
    }
    let mut ok: bool = true;
    let mut i: usize = 0;
    while i < list.len()
        invariant
            i <= list@.len(),
            outline_view(list@).len() == list@.len(),
            forall|k: int| 0 <= k < list@.len() ==> #[trigger] outline_view(list@)[k] == list@[k]@,
            ok == all_well_placed(outline_view(list@), i as int, lines as int),
        decreases list@.len() - i,
    {
        if !statement_in_place(&list[i], lines) {
            ok = false;
        }
        i += 1;
    }
    ok
}

proof fn lemma_line_count_bounds(s: Seq<u8>)
    ensures
        1 <= line_count(s) <= line_starts(s).len(),
{
    lemma_line_starts_shape(s, s.len() as int);
}

proof fn lemma_lines_in_order(s: Seq<u8>, first: int, last: int)
    requires
        1 <= first <= last <= line_starts(s).len(),
    ensures
        line_starts(s)[first - 1] <= line_starts(s)[last - 1],
{
    lemma_line_starts_shape(s, s.len() as int);
}

fn block_of_definition(table: &LineTable, bytes: &[u8], st: &Statement) -> (block: Block)
    requires
        table.describes(bytes@),
        placed(st@, line_count(bytes@)),
    ensures
        block@ == block_of(bytes@, st@),
{
    proof {
        lemma_statement_view(*st);
        lemma_line_count_bounds(bytes@);
        lemma_lines_in_order(bytes@, st.first_line as int, st.last_line as int);
    }
    let from: usize = table.line_start(bytes, st.first_line);
    let to: usize = table.line_end(bytes, st.last_line);
    let checksum: i32 = checksum_bytes(slice_subrange(bytes, from, to));
    let block_type: BlockType = match st.kind {
        StatementKind::Function => BlockType::Function,
        StatementKind::AsyncFunction => BlockType::AsyncFunction,
        _ => BlockType::Class,
    };
    Block {
        name: st.name.clone(),
        block_type,
        start_line: st.first_line,
        end_line: st.last_line,
        body_start_line: body_start_of(st),
        checksum,
    }
}

fn collect_statement(table: &LineTable, bytes: &[u8], st: &Statement, out: &mut Vec<Block>)
    requires
        table.describes(bytes@),
        well_placed(st@, line_count(bytes@)),
    ensures
        block_views(final(out)@) == block_views(old(out)@) + nested_blocks(bytes@, st@),
    decreases st,
{
    proof {
        lemma_statement_view(*st);
    }
    match st.kind {
        StatementKind::Simple => {
            assert(block_views(out@) + Seq::<crate::types::BlockView>::empty() =~= block_views(
                out@,
            ));
        },
        StatementKind::Compound => {
            collect_statements(table, bytes, &st.body, out);
        },
        _ => {
            let block: Block = block_of_definition(table, bytes, st);
            let ghost before = out@;
            out.push(block);
            assert(block_views(out@) =~= block_views(before) + seq![block_of(bytes@, st@)]);
            collect_statements(table, bytes, &st.body, out);
            assert(block_views(out@) =~= block_views(before) + nested_blocks(bytes@, st@));
        },
    }
}

fn collect_statements(table: &LineTable, bytes: &[u8], list: &Vec<Statement>, out: &mut Vec<Block>)
    requires
        table.describes(bytes@),
        all_well_placed(outline_view(list@), list@.len() as int, line_count(bytes@)),
    ensures
        block_views(final(out)@) == block_views(old(out)@) + blocks_in(
            bytes@,
            outline_view(list@),
            list@.len() as int,
        ),
    decreases list@,
{
    let ghost before = block_views(out@);
    let ghost views = outline_view(list@);
    let mut i: usize = 0;
    proof {
        lemma_outline_view(list@, list@.len() as int);
        assert(before + blocks_in(bytes@, views, 0) =~= before);
    }
    while i < list.len()
        invariant
            table.describes(bytes@),
            i <= list@.len(),
            views == outline_view(list@),
            views.len() == list@.len(),
            forall|k: int| 0 <= k < list@.len() ==> #[trigger] views[k] == list@[k]@,
            all_well_placed(views, list@.len() as int, line_count(bytes@)),
            block_views(out@) == before + blocks_in(bytes@, views, i as int),
        decreases list@.len() - i,
    {
        proof {
            lemma_placed_each(views, list@.len() as int, line_count(bytes@), i as int);
        }
        collect_statement(table, bytes, &list[i], out);
        assert(block_views(out@) =~= before + blocks_in(bytes@, views, i + 1));
        i += 1;
    }
}

/// Where the first `n` statements are well placed, each of them is.
pub proof fn lemma_placed_each(list: Seq<StatementView>, n: int, lines: int, i: int)
    requires
        0 <= i < n <= list.len(),
        all_well_placed(list, n, lines),
    ensures
        well_placed(list[i], lines),
    decreases n,
{
    if i < n - 1 {
        lemma_placed_each(list, n - 1, lines, i);
    }
}

fn mark_statement(
    table: &LineTable,
    bytes: &[u8],
    st: &Statement,
    lines: usize,
    mask: &mut Vec<bool>,
)
    requires
        table.describes(bytes@),
        lines == line_count(bytes@),
        well_placed(st@, lines as int),
        old(mask)@.len() == lines,
    ensures
        final(mask)@.len() == lines,
        forall|l: int|
            1 <= l <= lines ==> #[trigger] final(mask)@[l - 1] == (old(mask)@[l - 1] || elided_by(
                bytes@,
                st@,
                l,
            )),
    decreases st,
{
    proof {
        lemma_statement_view(*st);
    }
    match st.kind {
        StatementKind::Simple => {},
        StatementKind::Compound => {
            mark_statements(table, bytes, &st.body, lines, mask);
        },
        _ => {
            proof {
                lemma_line_count_bounds(bytes@);
            }
            let signature_end: usize = find_signature_end(
                table,
                bytes,
                st.first_line,
                st.last_line,
            );
            let mut line: usize = signature_end;
            while line < st.last_line
                invariant
                    signature_end <= line <= st.last_line <= lines,
                    mask@.len() == lines,
                    forall|l: int|
                        1 <= l <= lines ==> #[trigger] mask@[l - 1] == (old(mask)@[l - 1] || (
                        signature_end < l <= line)),
                decreases st.last_line - line,
            {
                line += 1;
                mask.set(line - 1, true);
            }
        },
    }
}

fn mark_statements(
    table: &LineTable,
    bytes: &[u8],
    list: &Vec<Statement>,
    lines: usize,
    mask: &mut Vec<bool>,
)
    requires
        table.describes(bytes@),
        lines == line_count(bytes@),
        all_well_placed(outline_view(list@), list@.len() as int, lines as int),
        old(mask)@.len() == lines,
    ensures
        final(mask)@.len() == lines,
        forall|l: int|
            1 <= l <= lines ==> #[trigger] final(mask)@[l - 1] == (old(mask)@[l - 1] || elided_in(
                bytes@,
                outline_view(list@),
                list@.len() as int,
                l,
            )),
    decreases list@,
{
    let ghost views = outline_view(list@);
    proof {
        lemma_outline_view(list@, list@.len() as int);
    }
    let mut i: usize = 0;
    while i < list.len()
        invariant
            table.describes(bytes@),
            lines == line_count(bytes@),
            i <= list@.len(),
            views == outline_view(list@),
            views.len() == list@.len(),
            forall|k: int| 0 <= k < list@.len() ==> #[trigger] views[k] == list@[k]@,
            all_well_placed(views, list@.len() as int, lines as int),
            mask@.len() == lines,
            forall|l: int|
                1 <= l <= lines ==> #[trigger] mask@[l - 1] == (old(mask)@[l - 1] || elided_in(
                    bytes@,
                    views,
                    i as int,
                    l,
                )),
        decreases list@.len() - i,
    {
        proof {
            lemma_placed_each(views, list@.len() as int, lines as int, i as int);
        }
        mark_statement(table, bytes, &list[i], lines, mask);
        i += 1;
    }
}

fn append_range(out: &mut Vec<u8>, bytes: &[u8], from: usize, to: usize)
    requires
        from <= to <= bytes@.len(),
    ensures
        final(out)@ == old(out)@ + bytes@.subrange(from as int, to as int),
{
    let mut i: usize = from;
    assert(out@ =~= old(out)@ + bytes@.subrange(from as int, from as int));
    while i < to
        invariant
            from <= i <= to <= bytes@.len(),
            out@ == old(out)@ + bytes@.subrange(from as int, i as int),
        decreases to - i,
    {
        out.push(bytes[i]);
        assert(out@ =~= old(out)@ + bytes@.subrange(from as int, i + 1));
        i += 1;
    }
}

/// Builds the module skeleton of a text.
pub fn build_skeleton(table: &LineTable, bytes: &[u8], top: &Vec<Statement>) -> (out: Vec<u8>)
    requires
        table.describes(bytes@),
        all_well_placed(outline_view(top@), top@.len() as int, line_count(bytes@)),
    ensures
        out@ == module_skeleton(bytes@, outline_view(top@)),
{
    let lines: usize = table.line_count(bytes);
    let mut mask: Vec<bool> = Vec::new();
    let mut k: usize = 0;
    while k < lines
        invariant
            k <= lines,
            mask@.len() == k,
            forall|j: int| 0 <= j < k ==> !(#[trigger] mask@[j]),
        decreases lines - k,
    {
        mask.push(false);
        k += 1;
    }
    mark_statements(table, bytes, top, lines, &mut mask);
    let mut out: Vec<u8> = Vec::new();
    let mut line: usize = 0;
    let ghost views = outline_view(top@);
    proof {
        lemma_outline_view(top@, top@.len() as int);
        assert(out@ =~= join_terminated(kept_lines_upto(bytes@, views, 0)));
    }
    while line < lines
        invariant
            table.describes(bytes@),
            lines == line_count(bytes@),
            lines <= table.starts@.len(),
            line <= lines,
            mask@.len() == lines,
            views == outline_view(top@),
            views.len() == top@.len(),
            forall|l: int|
                1 <= l <= lines ==> #[trigger] mask@[l - 1] == elided_in(
                    bytes@,
                    views,
                    views.len() as int,
                    l,
                ),
            out@ == join_terminated(kept_lines_upto(bytes@, views, line as int)),
        decreases lines - line,
    {
        line += 1;
        if !mask[line - 1] {
            let from: usize = table.line_start(bytes, line);
            let to: usize = table.line_end(bytes, line);
            let ghost before = kept_lines_upto(bytes@, views, line - 1);
            let ghost text = bytes@.subrange(from as int, to as int);
            append_range(&mut out, bytes, from, to);
            out.push(LINE_FEED);
            assert(before.push(text).drop_last() =~= before);
            assert(out@ =~= join_terminated(before) + text + seq![LINE_FEED]);
        }
    }
    out
}

/// Every block of a well placed statement has its body inside its lines.
pub proof fn lemma_nested_blocks_well_formed(s: Seq<u8>, st: StatementView, i: int)
    requires
        well_placed(st, line_count(s)),
        0 <= i < nested_blocks(s, st).len(),
    ensures
        nested_blocks(s, st)[i].well_formed(),
        nested_blocks(s, st)[i].end_line <= line_count(s),
        nested_blocks(s, st)[i].block_type != BlockType::Module,
    decreases st,
{
    match st.kind {
        StatementKind::Simple => {},
        StatementKind::Compound => {
            lemma_blocks_in_well_formed(s, st.body, st.body.len() as int, i);
        },
        _ => {
            if i > 0 {
                lemma_blocks_in_well_formed(s, st.body, st.body.len() as int, i - 1);
            }
        },
    }
}

/// Every block of a well placed list of statements has its body inside its
/// lines.
pub proof fn lemma_blocks_in_well_formed(s: Seq<u8>, list: Seq<StatementView>, n: int, i: int)
    requires
        0 <= n <= list.len(),
        all_well_placed(list, n, line_count(s)),
        0 <= i < blocks_in(s, list, n).len(),
    ensures
        blocks_in(s, list, n)[i].well_formed(),
        blocks_in(s, list, n)[i].end_line <= line_count(s),
        blocks_in(s, list, n)[i].block_type != BlockType::Module,
    decreases list, n,
{
    if n > 0 {
        let before = blocks_in(s, list, n - 1);
        if i < before.len() {
            lemma_blocks_in_well_formed(s, list, n - 1, i);
        } else {
            lemma_nested_blocks_well_formed(s, list[n - 1], i - before.len());
        }
    }
}

/// What holds of the blocks of a source, whatever its statements are: the
/// module block comes first and spans the whole text, and every block has
/// its body inside its lines.
pub open spec fn is_block_list(s: Seq<u8>, blocks: Seq<BlockView>) -> bool {
    &&& blocks.len() >= 1
    &&& blocks[0].name == module_name()
    &&& blocks[0].block_type == BlockType::Module
    &&& blocks[0].start_line == 1
    &&& blocks[0].body_start_line == 1
    &&& blocks[0].end_line == line_count(s)
    &&& forall|i: int| 0 <= i < blocks.len() ==> (#[trigger] blocks[i]).well_formed()
    &&& forall|i: int| 1 <= i < blocks.len() ==> (#[trigger] blocks[i]).block_type != BlockType::Module
}

/// The blocks of a source under a well placed outline are a block list.
pub proof fn lemma_module_blocks_shape(s: Seq<u8>, top: Seq<StatementView>)
    requires
        all_well_placed(top, top.len() as int, line_count(s)),
    ensures
        is_block_list(s, module_blocks(s, top)),
{
    let blocks = module_blocks(s, top);
    lemma_line_starts_shape(s, s.len() as int);
    assert forall|i: int| 0 <= i < blocks.len() implies (#[trigger] blocks[i]).well_formed() && (i
        >= 1 ==> blocks[i].block_type != BlockType::Module) by {
        if i > 0 {
            lemma_blocks_in_well_formed(s, top, top.len() as int, i - 1);
        }
    }
}

/// Lists the blocks of a source whose top-level statements are `outline`:
/// the module block first, then every function, async function and class
/// found in the statements, in source order.
///
/// Fails, with `EngineError::Invariant`, exactly when some definition of the
/// outline does not lie inside the text.
pub fn extract_blocks(source: &str, outline: &Vec<Statement>) -> (result: Result<
    Vec<Block>,
    EngineError,
>)
    ensures
        match result {
            Ok(blocks) => {
                &&& all_well_placed(
                    outline_view(outline@),
                    outline@.len() as int,
                    line_count(source.spec_bytes()),
                )
                &&& block_views(blocks@) == module_blocks(
                    source.spec_bytes(),
                    outline_view(outline@),
                )
                &&& is_block_list(source.spec_bytes(), block_views(blocks@))
            },
            Err(e) => {
                &&& !all_well_placed(
                    outline_view(outline@),
                    outline@.len() as int,
                    line_count(source.spec_bytes()),
                )
                &&& e is Invariant
            },
        },
{
    let bytes: &[u8] = source.as_bytes();
    let table: LineTable = LineTable::build(bytes);
    let lines: usize = table.line_count(bytes);
    if !statements_in_place(outline, lines) {
        return Err(EngineError::Invariant("a definition lies outside the text".to_string()));
    }
    let skeleton: Vec<u8> = build_skeleton(&table, bytes, outline);
    let module: Block = Block {
        name: "<module>".to_string(),
        block_type: BlockType::Module,
        start_line: 1,
        end_line: lines,
        body_start_line: 1,
        checksum: checksum_bytes(skeleton.as_slice()),
    };
    let mut blocks: Vec<Block> = Vec::new();
    blocks.push(module);
    proof {
        lemma_outline_view(outline@, outline@.len() as int);
        lemma_module_blocks_shape(bytes@, outline_view(outline@));
    }
    collect_statements(&table, bytes, outline, &mut blocks);
    Ok(blocks)
}

} // verus!
