use rustpython_parser::ast::{ExceptHandler, Ranged, Stmt, Suite};
use rustpython_parser::{Parse, ParseError};
use vstd::prelude::*;
use vstd::string::StringSliceAdditionalSpecFns;

verus! {

/// A statement of the parser's syntax tree. Nothing inside it is visible
/// to the verifier.
#[verifier::external_type_specification]
#[verifier::external_body]
#[verifier::reject_recursive_types(R)]
pub struct ExStmt<R>(rustpython_parser::ast::Stmt<R>);

/// The range type that the statements of the parser carry.
#[verifier::external_type_specification]
#[verifier::external_body]
pub struct ExTextRange(rustpython_parser::text_size::TextRange);

/// The error of the parser: `ParseError` is `BaseError<ParseErrorType>`.
#[verifier::external_type_specification]
#[verifier::external_body]
#[verifier::reject_recursive_types(T)]
pub struct ExBaseError<T>(rustpython_parser_core::BaseError<T>);

/// The kinds of error of the parser.
#[verifier::external_type_specification]
#[verifier::external_body]
pub struct ExParseErrorType(rustpython_parser::ParseErrorType);

/// The statement forms that the engine tells apart.
#[derive(Clone, Copy, PartialEq, Eq, Structural, Debug)]
pub enum SyntaxKind {
    FunctionDef,
    AsyncFunctionDef,
    ClassDef,
    If,
    For,
    While,
    With,
    Try,
    Other,
}

/// The syntax tree of a source, as the parser gives it and `copy_suite`
/// copies it: what it says of each statement, in byte offsets. Nothing where
/// the parser rejects the source, or where statements nest deeper than the
/// source has bytes. The tree depends on the bytes of the source alone.
pub uninterp spec fn parsed_tree(source: Seq<u8>) -> Option<Seq<SyntaxNodeView>>;

/// Calls `Suite::parse` of `rustpython_parser` on the source, under the path
/// `<string>`, and has the tree that it returns copied by `copy_suite`, which
/// follows nested statements as many levels down as the source has bytes.
/// The outcome is the named tree of the source. The parser counts offsets in
/// 32 bits, so longer sources are kept from it.
#[verifier::external_body]
pub(crate) fn parse_tree(source: &str) -> (parsed: Result<Option<Vec<SyntaxNode>>, ParseError>)
    requires
        source.spec_bytes().len() <= u32::MAX,
    ensures
        match parsed {
            Ok(Some(tree)) => parsed_tree(source.spec_bytes()) == Some(tree_view(tree@)),
            _ => parsed_tree(source.spec_bytes()) is None,
        },
{
    Suite::parse(source, "<string>").map(|suite| copy_suite(&suite, source.len()))
}

/// The text of a parse error, as its `Display` impl writes it.
#[verifier::external_body]
pub(crate) fn parse_error_text(error: &ParseError) -> (text: String) {
    error.to_string()
}

/// Tells the variants of `Stmt` apart.
#[verifier::external_body]
pub(crate) fn syntax_kind(stmt: &Stmt) -> (kind: SyntaxKind) {
    match stmt {
        Stmt::FunctionDef(_) => SyntaxKind::FunctionDef,
        Stmt::AsyncFunctionDef(_) => SyntaxKind::AsyncFunctionDef,
        Stmt::ClassDef(_) => SyntaxKind::ClassDef,
        Stmt::If(_) => SyntaxKind::If,
        Stmt::For(_) => SyntaxKind::For,
        Stmt::While(_) => SyntaxKind::While,
        Stmt::With(_) => SyntaxKind::With,
        Stmt::Try(_) => SyntaxKind::Try,
        _ => SyntaxKind::Other,
    }
}

/// The `name` field of a function, async function or class definition; the
/// empty string for any other statement.
#[verifier::external_body]
pub(crate) fn definition_name(stmt: &Stmt) -> (name: String) {
    match stmt {
        Stmt::FunctionDef(def) => def.name.to_string(),
        Stmt::AsyncFunctionDef(def) => def.name.to_string(),
        Stmt::ClassDef(def) => def.name.to_string(),
        _ => String::new(),
    }
}

/// The byte offset at which the statement's range starts (`Ranged::start`).
#[verifier::external_body]
pub(crate) fn statement_start(stmt: &Stmt) -> (offset: usize) {
    stmt.start().to_usize()
}

/// The byte offset at which the statement's range ends (`Ranged::end`).
#[verifier::external_body]
pub(crate) fn statement_end(stmt: &Stmt) -> (offset: usize) {
    stmt.end().to_usize()
}

/// The byte offset at which the first entry of a definition's
/// `decorator_list` starts, if it has one.
#[verifier::external_body]
pub(crate) fn first_decorator_start(stmt: &Stmt) -> (offset: Option<usize>) {
    let decorators = match stmt {
        Stmt::FunctionDef(def) => &def.decorator_list,
        Stmt::AsyncFunctionDef(def) => &def.decorator_list,
        Stmt::ClassDef(def) => &def.decorator_list,
        _ => return None,
    };
    decorators.first().map(|decorator| decorator.start().to_usize())
}

/// The statement lists held by a definition or by an `if`, `for`, `while` or
/// `with` statement, in the order of its fields: `body`, then `orelse`. No
/// list for any other statement.
#[verifier::external_body]
pub(crate) fn nested_suites(stmt: &Stmt) -> (suites: Vec<&Vec<Stmt>>) {
    match stmt {
        Stmt::FunctionDef(def) => vec![&def.body],
        Stmt::AsyncFunctionDef(def) => vec![&def.body],
        Stmt::ClassDef(def) => vec![&def.body],
        Stmt::If(s) => vec![&s.body, &s.orelse],
        Stmt::For(s) => vec![&s.body, &s.orelse],
        Stmt::While(s) => vec![&s.body, &s.orelse],
        Stmt::With(s) => vec![&s.body],
        _ => Vec::new(),
    }
}

/// The statement lists held by a `try` statement, in the order of its
/// fields: `body`, the body of each of `handlers`, `orelse`, `finalbody`. No
/// list for any other statement.
#[verifier::external_body]
pub(crate) fn try_suites(stmt: &Stmt) -> (suites: Vec<&Vec<Stmt>>) {
    match stmt {
        Stmt::Try(s) => std::iter::once(&s.body)
            .chain(s.handlers.iter().map(|ExceptHandler::ExceptHandler(h)| &h.body))
            .chain([&s.orelse, &s.finalbody])
            .collect(),
        _ => Vec::new(),
    }
}

/// What the syntax tree says of one statement, in plain values: its form,
/// the name it defines, the byte offsets at which it starts and ends and at
/// which its first decorator starts, and the statements nested in it, in
/// source order.
#[derive(Debug, PartialEq, Eq)]
pub struct SyntaxNode {
    pub form: SyntaxKind,
    /// The identifier of a definition; empty otherwise.
    pub name: String,
    /// Where the statement starts: at `def`, `async` or `class` for a
    /// definition, not at its decorators.
    pub start: usize,
    /// Where the statement ends.
    pub end: usize,
    /// Where the first decorator of a definition starts.
    pub decorator: Option<usize>,
    pub body: Vec<SyntaxNode>,
}

/// What a node of the syntax tree says.
pub ghost struct SyntaxNodeView {
    pub form: SyntaxKind,
    pub name: Seq<char>,
    pub start: int,
    pub end: int,
    pub decorator: Option<int>,
    pub body: Seq<SyntaxNodeView>,
}

/// What a node says.
pub open spec fn node_view(node: SyntaxNode) -> SyntaxNodeView
    decreases node,
{
    SyntaxNodeView {
        form: node.form,
        name: node.name@,
        start: node.start as int,
        end: node.end as int,
        decorator: match node.decorator {
            Some(at) => Some(at as int),
            None => None,
        },
        body: tree_view_upto(node.body@, node.body@.len() as int),
    }
}

/// What the first `n` nodes of a list say.
pub open spec fn tree_view_upto(list: Seq<SyntaxNode>, n: int) -> Seq<SyntaxNodeView>
    decreases list, n,
{
    if n <= 0 || n > list.len() {
        Seq::empty()
    } else {
        tree_view_upto(list, n - 1).push(node_view(list[n - 1]))
    }
}

/// What a list of nodes says.
pub open spec fn tree_view(list: Seq<SyntaxNode>) -> Seq<SyntaxNodeView> {
    tree_view_upto(list, list.len() as int)
}

impl View for SyntaxNode {
    type V = SyntaxNodeView;

    open spec fn view(&self) -> SyntaxNodeView {
        node_view(*self)
    }
}

/// The view of a list holds the view of each node, in order.
pub proof fn lemma_tree_view(list: Seq<SyntaxNode>, n: int)
    requires
        0 <= n <= list.len(),
    ensures
        tree_view_upto(list, n).len() == n,
        forall|i: int| 0 <= i < n ==> #[trigger] tree_view_upto(list, n)[i] == node_view(list[i]),
    decreases n,
{
    if n > 0 {
        lemma_tree_view(list, n - 1);
    }
}

/// The view of a node holds its fields and the views of the nodes nested in
/// it.
pub proof fn lemma_node_view(node: SyntaxNode)
    ensures
        node@.form == node.form,
        node@.name == node.name@,
        node@.start == node.start,
        node@.end == node.end,
        node@.decorator == match node.decorator {
            Some(at) => Some(at as int),
            None => None,
        },
        node@.body == tree_view(node.body@),
        node@.body.len() == node.body@.len(),
        forall|i: int| 0 <= i < node.body@.len() ==> #[trigger] node@.body[i] == node.body@[i]@,
{
    lemma_tree_view(node.body@, node.body@.len() as int);
}

/// Copies what the syntax tree says of a statement and of the statements
/// nested in it. Nested statements are followed `depth` levels down; a tree
/// that goes deeper gives nothing.
pub(crate) fn read_statement(stmt: &Stmt, depth: usize) -> (node: Option<SyntaxNode>)
    ensures
        node matches Some(copied) ==> nesting_within(copied@, depth as int),
    decreases depth, 0nat,
{
    let form: SyntaxKind = syntax_kind(stmt);
    let mut body: Vec<SyntaxNode> = Vec::new();
    if form != SyntaxKind::Other {
        if depth == 0 {
            return None;
        }
        let suites: Vec<&Vec<Stmt>> = if form == SyntaxKind::Try {
            try_suites(stmt)
        } else {
            nested_suites(stmt)
        };
        let mut i: usize = 0;
        while i < suites.len()
            invariant
                depth > 0,
                forall|k: int|
                    0 <= k < body@.len() ==> nesting_within((#[trigger] body@[k])@, depth - 1),
            decreases suites.len() - i,
        {
            if !read_statements(suites[i], depth - 1, &mut body) {
                return None;
            }
            i += 1;
        }
    }
    let copied = SyntaxNode {
        form,
        name: definition_name(stmt),
        start: statement_start(stmt),
        end: statement_end(stmt),
        decorator: first_decorator_start(stmt),
        body,
    };
    proof {
        lemma_node_view(copied);
        if form != SyntaxKind::Other {
            lemma_all_nesting_within(copied@.body, copied@.body.len() as int, depth - 1);
        }
    }
    Some(copied)
}

/// Copies what the syntax tree says of a list of statements and appends it
/// to `out`, one node for each statement, in order. Tells whether the tree
/// was no deeper than `depth` levels; where it was deeper, the statements
/// before the one that was too deep have been appended.
///
/// What stood in `out` stays. Every node that is appended nests no deeper
/// than `depth` levels. A list without statements is always read.
pub(crate) fn read_statements(stmts: &Vec<Stmt>, depth: usize, out: &mut Vec<SyntaxNode>) -> (done:
    bool)
    ensures
        old(out)@.len() <= final(out)@.len() <= old(out)@.len() + stmts@.len(),
        forall|i: int| 0 <= i < old(out)@.len() ==> #[trigger] final(out)@[i] == old(out)@[i],
        forall|i: int|
            old(out)@.len() <= i < final(out)@.len() ==> nesting_within(
                (#[trigger] final(out)@[i])@,
                depth as int,
            ),
        done ==> final(out)@.len() == old(out)@.len() + stmts@.len(),
        stmts@.len() == 0 ==> done,
    decreases depth, 1nat,
{
    let mut i: usize = 0;
    while i < stmts.len()
        invariant
            i <= stmts@.len(),
            out@.len() == old(out)@.len() + i,
            forall|k: int| 0 <= k < old(out)@.len() ==> #[trigger] out@[k] == old(out)@[k],
            forall|k: int|
                old(out)@.len() <= k < out@.len() ==> nesting_within(
                    (#[trigger] out@[k])@,
                    depth as int,
                ),
        decreases stmts.len() - i,
    {
        match read_statement(&stmts[i], depth) {
            Some(node) => {
                out.push(node);
            },
            None => {
                return false;
            },
        }
        i += 1;
    }
    true
}

/// Copies what the syntax tree says of the statements of a source: one
/// node for each statement, in order, each nesting no deeper than `depth`
/// levels. Gives nothing where the tree goes deeper.
pub(crate) fn copy_suite(stmts: &Vec<Stmt>, depth: usize) -> (tree: Option<Vec<SyntaxNode>>)
    ensures
        tree matches Some(copied) ==> {
            &&& copied@.len() == stmts@.len()
            &&& forall|i: int|
                0 <= i < copied@.len() ==> nesting_within((#[trigger] copied@[i])@, depth as int)
        },
        stmts@.len() == 0 ==> tree is Some,
{
    let mut copied: Vec<SyntaxNode> = Vec::new();
    if read_statements(stmts, depth, &mut copied) {
        Some(copied)
    } else {
        None
    }
}

/// The node and what is nested in it go no deeper than `depth` levels: a
/// statement of a form that is told apart counts one level, and a statement
/// of another form has nothing nested in it.
pub open spec fn nesting_within(node: SyntaxNodeView, depth: int) -> bool
    decreases node,
{
    if node.form == SyntaxKind::Other {
        node.body.len() == 0
    } else {
        depth > 0 && all_nesting_within(node.body, node.body.len() as int, depth - 1)
    }
}

/// Each of the first `n` nodes goes no deeper than `depth` levels.
pub open spec fn all_nesting_within(list: Seq<SyntaxNodeView>, n: int, depth: int) -> bool
    decreases list, n,
{
    if n <= 0 || n > list.len() {
        true
    } else {
        all_nesting_within(list, n - 1, depth) && nesting_within(list[n - 1], depth)
    }
}

/// Where each of the first `n` nodes goes no deeper than `depth` levels,
/// the first `n` nodes do.
pub proof fn lemma_all_nesting_within(list: Seq<SyntaxNodeView>, n: int, depth: int)
    requires
        0 <= n <= list.len(),
        forall|i: int| 0 <= i < n ==> nesting_within(#[trigger] list[i], depth),
    ensures
        all_nesting_within(list, n, depth),
    decreases n,
{
    if n > 0 {
        lemma_all_nesting_within(list, n - 1, depth);
    }
}

} // verus!
