//! Syntax trees: what the parser found in a translation unit, as plain values.
//!
//! The parser's own tree is read off once, node by node in preorder, and kept as an arena: a node
//! is an index, its children come after it, and every question a rule asks of a node is answered
//! here.

use vstd::prelude::*;
use vstd::string::StringSliceAdditionalSpecFns;
use vstd::utf8::{decode_utf8, encode_utf8, is_char_boundary};
use crate::collections::views;
use crate::kinds::{field_of, kind_of, read_field, read_kind, Field, Kind};
use crate::text::{trim, trimmed};

verus! {

broadcast use crate::collections::group_views;

// ---------------------------------------------------------------------------------------------
// What the parser says

/// One node as the parser reports it. The nodes of a tree are listed in preorder, so the depth of
/// each says which node it hangs from.
#[derive(Debug)]
pub struct Row {
    pub kind: String,
    pub field: Option<String>,
    pub named: bool,
    pub error: bool,
    pub has_error: bool,
    pub start: usize,
    pub end: usize,
    pub line: usize,
    pub depth: usize,
}

/// View of a [`Row`].
pub ghost struct RowView {
    pub kind: Seq<char>,
    pub field: Option<Seq<char>>,
    pub named: bool,
    pub error: bool,
    pub has_error: bool,
    pub start: usize,
    pub end: usize,
    pub line: usize,
    pub depth: usize,
}

impl View for Row {
    type V = RowView;

    open spec fn view(&self) -> RowView {
        RowView {
            kind: self.kind@,
            field: match self.field {
                Some(f) => Some(f@),
                None => None,
            },
            named: self.named,
            error: self.error,
            has_error: self.has_error,
            start: self.start,
            end: self.end,
            line: self.line,
            depth: self.depth,
        }
    }
}

/// A tree-sitter syntax tree.
#[verifier::external_type_specification]
#[verifier::external_body]
pub struct ExTree(tree_sitter::Tree);

/// The nodes a tree-sitter tree holds, in preorder.
pub uninterp spec fn tree_rows(t: tree_sitter::Tree) -> Seq<RowView>;

/// The nodes of the tree that the `tree-sitter-c` grammar gives a source text.
pub uninterp spec fn c_rows(source: Seq<char>) -> Seq<RowView>;

/// The nodes of the tree that the `tree-sitter-cpp` grammar gives a source text.
pub uninterp spec fn cpp_rows(source: Seq<char>) -> Seq<RowView>;

/// `tree_sitter::Parser::parse` with the C grammar: a fresh parser's tree is a function of the
/// text alone.
#[verifier::external_body]
fn parse_with_c_grammar(source: &str) -> (t: tree_sitter::Tree)
    ensures
        tree_rows(t) == c_rows(source@),
{
    let mut parser = tree_sitter::Parser::new();
    parser.set_language(&tree_sitter_c::LANGUAGE.into()).expect("error loading C grammar");
    parser.parse(source, None).expect("tree-sitter failed to parse")
}

/// `tree_sitter::Parser::parse` with the C++ grammar: a fresh parser's tree is a function of the
/// text alone.
#[verifier::external_body]
fn parse_with_cpp_grammar(source: &str) -> (t: tree_sitter::Tree)
    ensures
        tree_rows(t) == cpp_rows(source@),
{
    let mut parser = tree_sitter::Parser::new();
    parser.set_language(&tree_sitter_cpp::LANGUAGE.into()).expect("error loading C++ grammar");
    parser.parse(source, None).expect("tree-sitter failed to parse")
}

/// `tree_sitter::Node::descendant_count` of the root: how many nodes the tree holds.
#[verifier::external_body]
fn node_count(t: &tree_sitter::Tree) -> (n: usize)
    ensures
        n == tree_rows(*t).len(),
{
    t.root_node().descendant_count()
}

/// `tree_sitter::TreeCursor::goto_descendant`: node `i` in preorder, with what the cursor and the
/// node say of it.
#[verifier::external_body]
fn node_row(t: &tree_sitter::Tree, i: usize) -> (r: Row)
    requires
        i < tree_rows(*t).len(),
    ensures
        r@ == tree_rows(*t)[i as int],
{
    let mut cursor = t.walk();
    cursor.goto_descendant(i);
    let (node, depth) = (cursor.node(), cursor.depth() as usize);
    let (named, error, has_error) = (node.is_named(), node.is_error(), node.has_error());
    let (start, end, line) = (node.start_byte(), node.end_byte(), node.start_position().row);
    let field = cursor.field_name().map(str::to_string);
    Row { kind: node.kind().to_string(), field, named, error, has_error, start, end, line, depth }
}

/// The nodes of `t`, in preorder.
fn rows_of(t: &tree_sitter::Tree) -> (rows: Vec<Row>)
    ensures
        views(rows@) == tree_rows(*t),
{
    let n: usize = node_count(t);
    let mut rows: Vec<Row> = Vec::new();
    let mut i: usize = 0;
    while i < n
        invariant
            n == tree_rows(*t).len(),
            i <= n,
            views(rows@) == tree_rows(*t).take(i as int),
        decreases n - i,
    {
        rows.push(node_row(t, i));
        i = i + 1;
        assert(views(rows@) =~= tree_rows(*t).take(i as int));
    }
    assert(views(rows@) =~= tree_rows(*t));
    rows
}

/// The nodes the C grammar finds in `source`, in preorder.
pub fn c_syntax(source: &str) -> (rows: Vec<Row>)
    ensures
        views(rows@) == c_rows(source@),
{
    rows_of(&parse_with_c_grammar(source))
}

/// The nodes the C++ grammar finds in `source`, in preorder.
pub fn cpp_syntax(source: &str) -> (rows: Vec<Row>)
    ensures
        views(rows@) == cpp_rows(source@),
{
    rows_of(&parse_with_cpp_grammar(source))
}

// ---------------------------------------------------------------------------------------------
// The tree

/// A node of a [`SyntaxTree`].
#[derive(Debug)]
struct NodeData {
    kind: Kind,
    kind_name: String,
    text: String,
    field: Field,
    named: bool,
    error: bool,
    has_error: bool,
    start: usize,
    end: usize,
    line: usize,
    parent: Option<usize>,
    children: Vec<usize>,
}

/// What there is to know of a node.
pub ghost struct NodeView {
    pub kind: Kind,
    /// The grammar's word for the kind.
    pub kind_name: Seq<char>,
    /// The source text the node covers, without the white space at either end.
    pub text: Seq<char>,
    /// The node's role in its parent.
    pub field: Field,
    /// Whether the node is named in the grammar, rather than a literal token of it.
    pub named: bool,
    /// Whether the node is text that could not be parsed.
    pub error: bool,
    /// Whether the node is, or holds, something that could not be parsed.
    pub has_error: bool,
    /// Where the node begins, in bytes.
    pub start: usize,
    /// Where the node ends, in bytes.
    pub end: usize,
    /// The line the node begins on, counted from zero.
    pub line: usize,
    pub parent: Option<usize>,
    pub children: Seq<usize>,
}

impl View for NodeData {
    type V = NodeView;

    closed spec fn view(&self) -> NodeView {
        NodeView {
            kind: self.kind,
            kind_name: self.kind_name@,
            text: self.text@,
            field: self.field,
            named: self.named,
            error: self.error,
            has_error: self.has_error,
            start: self.start,
            end: self.end,
            line: self.line,
            parent: self.parent,
            children: self.children@,
        }
    }
}

/// A tree: its nodes in preorder.
pub type TreeView = Seq<NodeView>;

/// Whether `c` lies below `n`'s place in the preorder.
pub open spec fn inside(t: TreeView, n: usize, c: usize) -> bool {
    n < c && c < t.len()
}

/// An index that is no node of any tree.
pub open spec fn no_node() -> usize {
    usize::MAX
}

/// How much of the tree is left from `n` on.
pub open spec fn rest(t: TreeView, n: usize) -> nat {
    if n < t.len() && n != no_node() {
        (t.len() - n) as nat
    } else {
        0
    }
}

/// `r`, unless it is not inside `n`.
pub open spec fn only_inside(t: TreeView, n: usize, r: Option<usize>) -> Option<usize> {
    match r {
        Some(c) => if inside(t, n, c) {
            Some(c)
        } else {
            None
        },
        None => None,
    }
}

/// The children of `n`, in order.
pub open spec fn kids(t: TreeView, n: usize) -> Seq<usize> {
    if n < t.len() {
        t[n as int].children
    } else {
        Seq::empty()
    }
}

/// Child number `i` of `n`.
pub open spec fn child_at(t: TreeView, n: usize, i: int) -> Option<usize> {
    only_inside(t, n, if 0 <= i < kids(t, n).len() {
        Some(kids(t, n)[i])
    } else {
        None
    })
}

/// Of the children of `n` from number `i` on, those that `p` holds of, in order.
pub open spec fn kids_where(t: TreeView, n: usize, i: int, p: spec_fn(NodeView) -> bool) -> Seq<usize>
    decreases kids(t, n).len() - i,
{
    if i < 0 || i >= kids(t, n).len() {
        Seq::empty()
    } else {
        let later = kids_where(t, n, i + 1, p);
        match child_at(t, n, i) {
            Some(c) => if p(t[c as int]) {
                seq![c] + later
            } else {
                later
            },
            None => later,
        }
    }
}

/// The first of some nodes.
pub open spec fn first_of(s: Seq<usize>) -> Option<usize> {
    if s.len() > 0 {
        Some(s[0])
    } else {
        None
    }
}

/// The children of `n` in the role `f`.
pub open spec fn field_children(t: TreeView, n: usize, f: Field) -> Seq<usize> {
    kids_where(t, n, 0, |v: NodeView| v.field == f)
}

/// The first child of `n` in the role `f`.
pub open spec fn field_child(t: TreeView, n: usize, f: Field) -> Option<usize> {
    only_inside(t, n, first_of(field_children(t, n, f)))
}

/// The child of `n` in the role `f`, which is there.
pub open spec fn part(t: TreeView, n: usize, f: Field) -> usize {
    match field_child(t, n, f) {
        Some(c) => c,
        None => no_node(),
    }
}

/// The named children of `n`.
pub open spec fn named_children(t: TreeView, n: usize) -> Seq<usize> {
    kids_where(t, n, 0, |v: NodeView| v.named)
}

/// The named children of `n` that are not comments.
pub open spec fn plain_children(t: TreeView, n: usize) -> Seq<usize> {
    kids_where(t, n, 0, |v: NodeView| v.named && v.kind != Kind::Comment)
}

/// The children of `n` of kind `k`.
pub open spec fn kids_of_kind(t: TreeView, n: usize, k: Kind) -> Seq<usize> {
    kids_where(t, n, 0, |v: NodeView| v.kind == k)
}

/// Named child number `i` of `n`.
pub open spec fn named_child(t: TreeView, n: usize, i: int) -> Option<usize> {
    only_inside(t, n, if 0 <= i < named_children(t, n).len() {
        Some(named_children(t, n)[i])
    } else {
        None
    })
}

/// The first named child of `n` that is not a comment.
pub open spec fn first_named_child(t: TreeView, n: usize) -> Option<usize> {
    only_inside(t, n, first_of(plain_children(t, n)))
}

/// What the parentheses of a parenthesized expression or declarator hold.
pub open spec fn paren_inner(t: TreeView, n: usize) -> usize {
    match child_at(t, n, 1) {
        Some(c) => c,
        None => no_node(),
    }
}

/// The index of a subscript: its `index`, or the first of its `indices`, of which there may be none.
pub open spec fn subscript_index(t: TreeView, n: usize) -> Option<usize> {
    only_inside(t, n, match field_child(t, n, Field::Indices) {
        Some(list) => match named_child(t, list, 0) {
            Some(c) => Some(c),
            None => field_child(t, n, Field::Index),
        },
        None => field_child(t, n, Field::Index),
    })
}

/// Whether the grammar gives every node of kind `k` a child in the role `f`.
pub open spec fn has_part(k: Kind, f: Field) -> bool {
    match k {
        Kind::InitializerPair => f == Field::Designator || f == Field::Value,
        Kind::InitDeclarator => f == Field::Declarator,
        Kind::ForStatement => f == Field::Body,
        Kind::DoStatement => f == Field::Body || f == Field::Condition,
        Kind::WhileStatement => f == Field::Condition || f == Field::Body,
        Kind::SwitchStatement => f == Field::Condition || f == Field::Body,
        Kind::GotoStatement => f == Field::Label,
        Kind::LabeledStatement => f == Field::Label,
        Kind::IfStatement => f == Field::Condition || f == Field::Consequence,
        Kind::CommaExpression => f == Field::Left || f == Field::Right,
        Kind::UnaryExpression => f == Field::Argument,
        Kind::BinaryExpression => f == Field::Operator || f == Field::Left || f == Field::Right,
        Kind::UpdateExpression => f == Field::Argument,
        Kind::FieldExpression => f == Field::Argument || f == Field::Member,
        Kind::AssignmentExpression => f == Field::Left || f == Field::Right,
        Kind::PointerExpression => f == Field::Argument,
        Kind::SubscriptExpression => f == Field::Argument,
        Kind::CastExpression => f == Field::Value,
        Kind::CompoundLiteralExpression => f == Field::Type || f == Field::Value,
        Kind::ConditionalExpression => f == Field::Condition || f == Field::Alternative,
        Kind::CallExpression => f == Field::Function || f == Field::Arguments,
        Kind::ParameterDeclaration => f == Field::Type,
        _ => false,
    }
}

/// Whether the labels in a node of kind `k` are not those of the function around it: a nested
/// function has labels of its own, and an unevaluated operand has none to jump to.
pub open spec fn unlabelled_kind(k: Kind) -> bool {
    k == Kind::FunctionDefinition || k == Kind::SizeofExpression || k == Kind::AlignofExpression
}

fn is_unlabelled(k: Kind) -> (b: bool)
    ensures
        b == unlabelled_kind(k),
{
    k == Kind::FunctionDefinition || k == Kind::SizeofExpression || k == Kind::AlignofExpression
}

/// Whether what has the role `f` is a list, or an item of one, and not an expression.
pub open spec fn list_role(f: Field) -> bool {
    f == Field::Arguments || f == Field::Indices || f == Field::InputOperands || f
        == Field::OutputOperands || f == Field::Operand
}

/// Whether the child of a node of kind `k` in the role `f` is a clause, a block or a list, and not an
/// expression.
pub open spec fn clause_role(k: Kind, f: Field) -> bool {
    match k {
        Kind::IfStatement => f == Field::Condition || f == Field::Alternative,
        Kind::WhileStatement => f == Field::Condition,
        Kind::SwitchStatement => f == Field::Condition || f == Field::Body,
        Kind::CompoundLiteralExpression => f == Field::Value,
        _ => false,
    }
}

/// Whether node `n` has the parts that the grammar gives nodes of its kind.
pub open spec fn shape_at(t: TreeView, n: usize) -> bool {
    &&& forall|f: Field| #[trigger]
        has_part(t[n as int].kind, f) ==> field_child(t, n, f) is Some
    &&& t[n as int].kind == Kind::ParenthesizedExpression ==> child_at(t, n, 1) is Some
    &&& t[n as int].kind == Kind::ParenthesizedDeclarator ==> child_at(t, n, 1) is Some
    &&& t[n as int].field == Field::Operand ==> field_child(t, n, Field::Value) is Some
    &&& list_role(t[n as int].field) ==> !unlabelled_kind(t[n as int].kind)
    &&& forall|f: Field| #[trigger]
        clause_role(t[n as int].kind, f) ==> (field_child(t, n, f) matches Some(c)
            ==> !unlabelled_kind(t[c as int].kind))
}

/// Whether every node has the parts that the grammar gives nodes of its kind.
pub open spec fn shaped(t: TreeView) -> bool {
    forall|n: usize| n < t.len() ==> #[trigger] shape_at(t, n)
}

/// Whether the links between the nodes are those of a tree listed in preorder.
pub open spec fn linked(t: TreeView) -> bool {
    &&& t.len() > 0
    &&& t.len() <= usize::MAX
    &&& forall|n: usize, i: int| #![trigger t[n as int].children[i]]
        n < t.len() && 0 <= i < t[n as int].children.len() ==> inside(t, n, t[n as int].children[i])
    &&& forall|n: usize| #![trigger t[n as int].parent]
        n < t.len() ==> (t[n as int].parent matches Some(p) ==> p < n)
}

/// The nearest node before `i` at depth `d`.
pub open spec fn last_at_depth(rows: Seq<RowView>, i: int, d: int) -> Option<usize>
    decreases i,
{
    if i <= 0 {
        None
    } else if rows[i - 1].depth == d {
        Some((i - 1) as usize)
    } else {
        last_at_depth(rows, i - 1, d)
    }
}

/// The node that row `i` hangs from: the nearest one before it that is one level up.
pub open spec fn parent_of(rows: Seq<RowView>, i: int) -> Option<usize> {
    if i == 0 {
        None
    } else {
        last_at_depth(rows, i, rows[i].depth - 1)
    }
}

/// The rows before `m` that hang from `n`, in order.
pub open spec fn children_before(rows: Seq<RowView>, n: usize, m: int) -> Seq<usize>
    decreases m,
{
    if m <= 0 {
        Seq::empty()
    } else if parent_of(rows, m - 1) == Some(n) {
        children_before(rows, n, m - 1).push((m - 1) as usize)
    } else {
        children_before(rows, n, m - 1)
    }
}

/// Whether the rows are the preorder of one tree.
pub open spec fn preorder(rows: Seq<RowView>) -> bool {
    &&& rows.len() > 0
    &&& rows[0].depth == 0
    &&& forall|i: int| #![trigger rows[i].depth]
        1 <= i < rows.len() ==> 1 <= rows[i].depth && rows[i].depth <= rows[i - 1].depth + 1
}

/// Whether bytes `start..end` of `source` are whole characters.
pub open spec fn covers_text(source: Seq<char>, start: usize, end: usize) -> bool {
    &&& is_char_boundary(encode_utf8(source), end as int)
    &&& is_char_boundary(encode_utf8(source).subrange(0, end as int), start as int)
}

/// The characters in bytes `start..end` of `source`.
pub open spec fn text_between(source: Seq<char>, start: usize, end: usize) -> Seq<char> {
    decode_utf8(
        encode_utf8(source).subrange(0, end as int).subrange(start as int, end as int),
    )
}

/// Whether every row covers whole characters.
pub open spec fn rows_cover_text(source: Seq<char>, rows: Seq<RowView>) -> bool {
    forall|i: int| #![trigger rows[i].start]
        0 <= i < rows.len() ==> covers_text(source, rows[i].start, rows[i].end)
}

/// The role a row names.
pub open spec fn row_field(r: RowView) -> Field {
    match r.field {
        Some(f) => field_of(f),
        None => Field::NoField,
    }
}

/// Node `i` of the tree the rows describe, with the children that come before `m`.
pub open spec fn node_before(source: Seq<char>, rows: Seq<RowView>, i: int, m: int) -> NodeView {
    NodeView {
        kind: kind_of(rows[i].kind),
        kind_name: rows[i].kind,
        text: trimmed(text_between(source, rows[i].start, rows[i].end)),
        field: row_field(rows[i]),
        named: rows[i].named,
        error: rows[i].error,
        has_error: rows[i].has_error,
        start: rows[i].start,
        end: rows[i].end,
        line: rows[i].line,
        parent: parent_of(rows, i),
        children: children_before(rows, i as usize, m),
    }
}

/// The tree the rows describe.
pub open spec fn tree_of(source: Seq<char>, rows: Seq<RowView>) -> TreeView {
    Seq::new(rows.len(), |i: int| node_before(source, rows, i, rows.len() as int))
}

/// Whether the rows describe a tree over `source` whose nodes have the parts of their kinds.
pub open spec fn readable(source: Seq<char>, rows: Seq<RowView>) -> bool {
    &&& preorder(rows)
    &&& rows_cover_text(source, rows)
    &&& shaped(tree_of(source, rows))
}

/// A syntax tree. A node is an index into it.
#[derive(Debug)]
pub struct SyntaxTree {
    nodes: Vec<NodeData>,
}

impl View for SyntaxTree {
    type V = TreeView;

    closed spec fn view(&self) -> TreeView {
        views(self.nodes@)
    }
}

proof fn lemma_last_at_depth(rows: Seq<RowView>, i: int, d: int)
    requires
        0 <= i <= rows.len(),
        rows.len() <= usize::MAX,
    ensures
        last_at_depth(rows, i, d) matches Some(j) ==> j < i && rows[j as int].depth == d,
    decreases i,
{
    if i > 0 && rows[i - 1].depth != d {
        lemma_last_at_depth(rows, i - 1, d);
    }
}

proof fn lemma_children_before(rows: Seq<RowView>, n: usize, m: int)
    requires
        0 <= m <= rows.len(),
        rows.len() <= usize::MAX,
    ensures
        forall|i: int| #![trigger children_before(rows, n, m)[i]]
            0 <= i < children_before(rows, n, m).len() ==> n < children_before(rows, n, m)[i]
                && children_before(rows, n, m)[i] < m,
    decreases m,
{
    if m > 0 {
        lemma_children_before(rows, n, m - 1);
        if m - 1 > 0 {
            lemma_last_at_depth(rows, m - 1, rows[m - 1].depth - 1);
        }
        let shorter = children_before(rows, n, m - 1);
        let now = children_before(rows, n, m);
        assert forall|i: int| #![trigger children_before(rows, n, m)[i]] 0 <= i < now.len() implies n
            < now[i] && now[i] < m by {
            if i < shorter.len() {
                assert(now[i] == shorter[i]);
            }
        }
    }
}

impl SyntaxTree {
    /// Every tree is linked, and its nodes have the parts of their kinds.
    #[verifier::type_invariant]
    closed spec fn sound(self) -> bool {
        linked(views(self.nodes@)) && shaped(views(self.nodes@))
    }

    /// The tree that `rows` describe over `source`, if they describe one.
    #[verifier::rlimit(40)]
    pub fn from_rows(source: &str, rows: &Vec<Row>) -> (tree: Option<SyntaxTree>)
        ensures
            tree is Some <==> readable(source@, views(rows@)),
            tree matches Some(t) ==> t@ == tree_of(source@, views(rows@)),
    {
        let ghost rv = views(rows@);
        if rows.len() == 0 {
            return None;
        }
        let mut nodes: Vec<NodeData> = Vec::new();
        // The nodes that the next one can hang from: the nearest at each depth.
        let mut open: Vec<usize> = Vec::new();
        let mut i: usize = 0;
        while i < rows.len()
            invariant
                i <= rows@.len(),
                rv == views(rows@),
                rows@.len() > 0,
                rows@.len() <= usize::MAX,
                nodes@.len() == i,
                i > 0 ==> rv[0].depth == 0,
                forall|k: int| #![trigger rv[k].depth]
                    1 <= k < i ==> 1 <= rv[k].depth && rv[k].depth <= rv[k - 1].depth + 1,
                forall|k: int| #![trigger rv[k].start]
                    0 <= k < i ==> covers_text(source@, rv[k].start, rv[k].end),
                forall|k: int| #![trigger nodes@[k]]
                    0 <= k < i ==> nodes@[k]@ == node_before(source@, rv, k, i as int),
                open@.len() == (if i == 0 {
                    0
                } else {
                    rv[i - 1].depth + 1
                }),
                forall|d: int| #![trigger open@[d]]
                    0 <= d < open@.len() ==> last_at_depth(rv, i as int, d) == Some(open@[d]),
            decreases rows@.len() - i,
        {
            let row = &rows[i];
            assert(rv[i as int] == row@);
            if i == 0 {
                if row.depth != 0 {
                    return None;
                }
            } else if row.depth == 0 || row.depth > open.len() {
                assert(rv[i as int].depth == row.depth);
                return None;
            } else {
                assert(rv[i - 1].depth + 1 == open@.len());
            }
            if !source.is_char_boundary(row.end) {
                assert(rv[i as int].start == row.start);
                return None;
            }
            let (front, _) = source.split_at(row.end);
            if !front.is_char_boundary(row.start) {
                assert(rv[i as int].start == row.start);
                return None;
            }
            let (_, covered) = front.split_at(row.start);
            proof {
                vstd::utf8::encode_utf8_decode_utf8(covered@);
            }
            let ghost whole = encode_utf8(source@);
            assert(front.spec_bytes() == whole.subrange(0, row.end as int));
            assert(front.spec_bytes().len() == row.end) by {
                vstd::utf8::encode_utf8_valid_utf8(source@);
                vstd::utf8::valid_utf8_split(whole, row.end as int);
                lemma_boundary_in_range(whole, row.end as int);
            }
            assert(covered@ == text_between(source@, row.start, row.end));
            let text = trim(covered);
            let field = match &row.field {
                Some(f) => read_field(f.as_str()),
                None => Field::NoField,
            };
            let parent: Option<usize> = if i == 0 {
                None
            } else {
                Some(open[row.depth - 1])
            };
            assert(parent == parent_of(rv, i as int));
            let ghost before = nodes@;
            proof {
                lemma_children_before(rv, i, i as int);
                let own = children_before(rv, i, i as int);
                if own.len() > 0 {
                    assert(own[0] < i);
                }
                assert(own =~= Seq::empty());
            }
            match parent {
                Some(p) => {
                    proof {
                        lemma_last_at_depth(rv, i as int, rv[i as int].depth - 1);
                    }
                    nodes[p].children.push(i);
                },
                None => {},
            }
            assert(nodes@.len() == i);
            assert forall|k: int| #![trigger nodes@[k]] 0 <= k < i implies nodes@[k]@
                == node_before(source@, rv, k, i + 1) by {
                assert(before[k]@ == node_before(source@, rv, k, i as int));
                if parent == Some(k as usize) {
                    assert(nodes@[k].children@ == before[k].children@.push(i));
                } else {
                    assert(nodes@[k] == before[k]);
                }
            }
            let node = NodeData {
                kind: read_kind(row.kind.as_str()),
                kind_name: row.kind.clone(),
                text,
                field,
                named: row.named,
                error: row.error,
                has_error: row.has_error,
                start: row.start,
                end: row.end,
                line: row.line,
                parent,
                children: Vec::new(),
            };
            assert(node@.children =~= children_before(rv, i, i + 1));
            assert(node@ == node_before(source@, rv, i as int, i + 1));
            nodes.push(node);
            open.truncate(row.depth);
            open.push(i);
            i = i + 1;
        }
        assert(views(nodes@) =~= tree_of(source@, rv));
        let ghost t = views(nodes@);
        proof {
            assert forall|n: usize, k: int| #![trigger t[n as int].children[k]]
                n < t.len() && 0 <= k < t[n as int].children.len() implies inside(
                t,
                n,
                t[n as int].children[k],
            ) by {
                lemma_children_before(rv, n, rv.len() as int);
            }
            assert forall|n: usize| #![trigger t[n as int].parent] n < t.len() implies (
            t[n as int].parent matches Some(p) ==> p < n) by {
                if n > 0 {
                    lemma_last_at_depth(rv, n as int, rv[n as int].depth - 1);
                }
            }
        }
        let mut j: usize = 0;
        while j < nodes.len()
            invariant
                j <= nodes@.len(),
                t == views(nodes@),
                t == tree_of(source@, rv),
                rv == views(rows@),
                linked(t),
                forall|n: usize| n < j ==> #[trigger] shape_at(t, n),
            decreases nodes@.len() - j,
        {
            if !(Nodes { nodes: &nodes }).shaped_at(j) {
                assert(!shape_at(t, j));
                assert(t == tree_of(source@, rv));
                return None;
            }
            j = j + 1;
        }
        Some(SyntaxTree { nodes })
    }

    fn nodes(&self) -> (s: Nodes)
        ensures
            s@ == self@,
            linked(self@),
            shaped(self@),
    {
        proof {
            use_type_invariant(self);
        }
        Nodes { nodes: &self.nodes }
    }

    /// How many nodes there are.
    pub fn len(&self) -> (n: usize)
        ensures
            n == self@.len(),
            n > 0,
    {
        proof {
            use_type_invariant(self);
        }
        self.nodes.len()
    }

    /// What the node is.
    pub fn kind(&self, n: usize) -> (k: Kind)
        requires
            n < self@.len(),
        ensures
            k == self@[n as int].kind,
            self@.len() <= usize::MAX,
            shaped(self@),
    {
        proof {
            use_type_invariant(self);
        }
        self.nodes[n].kind
    }

    /// The grammar's word for what the node is.
    pub fn kind_name(&self, n: usize) -> (s: &str)
        requires
            n < self@.len(),
        ensures
            s@ == self@[n as int].kind_name,
    {
        self.nodes[n].kind_name.as_str()
    }

    /// The source text the node covers, without the white space at either end.
    pub fn text(&self, n: usize) -> (s: &str)
        requires
            n < self@.len(),
        ensures
            s@ == self@[n as int].text,
    {
        self.nodes[n].text.as_str()
    }

    /// Whether the node is named in the grammar, rather than a literal token of it.
    pub fn is_named(&self, n: usize) -> (b: bool)
        requires
            n < self@.len(),
        ensures
            b == self@[n as int].named,
    {
        self.nodes[n].named
    }

    /// Whether the node is text that could not be parsed.
    pub fn is_error(&self, n: usize) -> (b: bool)
        requires
            n < self@.len(),
        ensures
            b == self@[n as int].error,
    {
        self.nodes[n].error
    }

    /// Whether the node is, or holds, something that could not be parsed.
    pub fn has_error(&self, n: usize) -> (b: bool)
        requires
            n < self@.len(),
        ensures
            b == self@[n as int].has_error,
    {
        self.nodes[n].has_error
    }

    /// Where the node begins, in bytes.
    pub fn start_byte(&self, n: usize) -> (b: usize)
        requires
            n < self@.len(),
        ensures
            b == self@[n as int].start,
    {
        self.nodes[n].start
    }

    /// Where the node ends, in bytes.
    pub fn end_byte(&self, n: usize) -> (b: usize)
        requires
            n < self@.len(),
        ensures
            b == self@[n as int].end,
    {
        self.nodes[n].end
    }

    /// The line the node begins on, counted from zero.
    pub fn line(&self, n: usize) -> (l: usize)
        requires
            n < self@.len(),
        ensures
            l == self@[n as int].line,
    {
        self.nodes[n].line
    }

    /// The node this one hangs from.
    pub fn parent(&self, n: usize) -> (p: Option<usize>)
        requires
            n < self@.len(),
        ensures
            p == self@[n as int].parent,
            p matches Some(q) ==> q < n,
    {
        proof {
            use_type_invariant(self);
            assert(views(self.nodes@)[n as int].parent == self@[n as int].parent);
        }
        self.nodes[n].parent
    }

    /// The children of `n`, in order.
    pub fn children(&self, n: usize) -> (v: Vec<usize>)
        requires
            n < self@.len(),
        ensures
            v@ == kids(self@, n),
            forall|i: int| 0 <= i < v@.len() ==> inside(self@, n, #[trigger] v@[i]),
    {
        self.nodes().children(n)
    }

    /// Child number `i` of `n`.
    pub fn child(&self, n: usize, i: usize) -> (c: Option<usize>)
        requires
            n < self@.len(),
        ensures
            c == child_at(self@, n, i as int),
    {
        self.nodes().child(n, i)
    }

    /// The children of `n` in the role `f`, in order.
    pub fn field_children(&self, n: usize, f: Field) -> (v: Vec<usize>)
        requires
            n < self@.len(),
        ensures
            v@ == field_children(self@, n, f),
            forall|i: int| 0 <= i < v@.len() ==> inside(self@, n, #[trigger] v@[i]),
    {
        self.nodes().field_children(n, f)
    }

    /// The first child of `n` in the role `f`.
    pub fn field(&self, n: usize, f: Field) -> (c: Option<usize>)
        requires
            n < self@.len(),
        ensures
            c == field_child(self@, n, f),
    {
        self.nodes().field(n, f)
    }

    /// The child of `n` in a role that the grammar gives every node of its kind.
    pub fn part(&self, n: usize, f: Field) -> (c: usize)
        requires
            n < self@.len(),
            has_part(self@[n as int].kind, f),
        ensures
            c == part(self@, n, f),
            inside(self@, n, c),
    {
        let s = self.nodes();
        assert(shape_at(self@, n));
        s.field(n, f).unwrap()
    }

    /// What the parentheses of a parenthesized expression or declarator hold.
    pub fn paren_inner(&self, n: usize) -> (c: usize)
        requires
            n < self@.len(),
            self@[n as int].kind == Kind::ParenthesizedExpression || self@[n as int].kind
                == Kind::ParenthesizedDeclarator,
        ensures
            c == paren_inner(self@, n),
            inside(self@, n, c),
    {
        let s = self.nodes();
        assert(shape_at(self@, n));
        s.child(n, 1).unwrap()
    }

    /// The index of a subscript.
    pub fn subscript_index(&self, n: usize) -> (c: Option<usize>)
        requires
            n < self@.len(),
        ensures
            c == subscript_index(self@, n),
            c matches Some(i) ==> inside(self@, n, i),
    {
        self.nodes().subscript_index(n)
    }

    /// The expression an inline-assembly operand names.
    pub fn operand_value(&self, n: usize) -> (c: usize)
        requires
            n < self@.len(),
            self@[n as int].field == Field::Operand,
        ensures
            c == part(self@, n, Field::Value),
            inside(self@, n, c),
    {
        let s = self.nodes();
        assert(shape_at(self@, n));
        s.field(n, Field::Value).unwrap()
    }

    /// The named children of `n`, in order.
    pub fn named_children(&self, n: usize) -> (v: Vec<usize>)
        requires
            n < self@.len(),
        ensures
            v@ == named_children(self@, n),
            forall|i: int| 0 <= i < v@.len() ==> inside(self@, n, #[trigger] v@[i]),
    {
        self.nodes().named_children(n)
    }

    /// Named child number `i` of `n`.
    pub fn named_child(&self, n: usize, i: usize) -> (c: Option<usize>)
        requires
            n < self@.len(),
        ensures
            c == named_child(self@, n, i as int),
    {
        self.nodes().named_child(n, i)
    }

    /// The named children of `n` that are not comments, in order.
    pub fn plain_children(&self, n: usize) -> (v: Vec<usize>)
        requires
            n < self@.len(),
        ensures
            v@ == plain_children(self@, n),
            forall|i: int| 0 <= i < v@.len() ==> inside(self@, n, #[trigger] v@[i]),
    {
        self.nodes().plain_children(n)
    }

    /// The children of `n` of kind `k`, in order.
    pub fn kids_of_kind(&self, n: usize, k: Kind) -> (v: Vec<usize>)
        requires
            n < self@.len(),
        ensures
            v@ == kids_of_kind(self@, n, k),
            forall|i: int|
                0 <= i < v@.len() ==> inside(self@, n, #[trigger] v@[i])
                    && self@[v@[i] as int].kind == k,
    {
        proof {
            lemma_kids_where(self@, n, 0, |v: NodeView| v.kind == k);
        }
        self.nodes().kids_of_kind(n, k)
    }

    /// The first named child of `n` that is not a comment.
    pub fn first_named_child(&self, n: usize) -> (c: Option<usize>)
        requires
            n < self@.len(),
        ensures
            c == first_named_child(self@, n),
    {
        let v = self.nodes().plain_children(n);
        if v.len() > 0 {
            Some(v[0])
        } else {
            None
        }
    }
}

proof fn lemma_boundary_in_range(bytes: Seq<u8>, index: int)
    requires
        vstd::utf8::valid_utf8(bytes),
        is_char_boundary(bytes, index),
    ensures
        0 <= index <= bytes.len(),
    decreases bytes.len(),
{
}

/// The children picked by a predicate, with the facts the walks below need.
pub(crate) proof fn lemma_kids_where(t: TreeView, n: usize, i: int, p: spec_fn(NodeView) -> bool)
    requires
        0 <= i,
    ensures
        forall|k: int| #![trigger kids_where(t, n, i, p)[k]]
            0 <= k < kids_where(t, n, i, p).len() ==> inside(t, n, kids_where(t, n, i, p)[k])
                && p(t[kids_where(t, n, i, p)[k] as int]),
    decreases kids(t, n).len() - i,
{
    if i < kids(t, n).len() {
        lemma_kids_where(t, n, i + 1, p);
        let later = kids_where(t, n, i + 1, p);
        let now = kids_where(t, n, i, p);
        assert forall|k: int| #![trigger kids_where(t, n, i, p)[k]] 0 <= k < now.len() implies inside(
            t,
            n,
            now[k],
        ) && p(t[now[k] as int]) by {
            if now.len() == later.len() {
                assert(now[k] == later[k]);
            } else if k > 0 {
                assert(now[k] == later[k - 1]);
            }
        }
    }
}

/// Every child that [`field_children`] lists is a node below, in that role.
pub proof fn field_children_have_the_role(t: TreeView, n: usize, f: Field)
    ensures
        forall|k: int| #![trigger field_children(t, n, f)[k]]
            0 <= k < field_children(t, n, f).len() ==> inside(t, n, field_children(t, n, f)[k])
                && t[field_children(t, n, f)[k] as int].field == f,
{
    lemma_kids_where(t, n, 0, |v: NodeView| v.field == f);
}

/// The nodes of a tree that is linked, whether or not they have the parts of their kinds.
struct Nodes<'a> {
    nodes: &'a Vec<NodeData>,
}

impl<'a> View for Nodes<'a> {
    type V = TreeView;

    closed spec fn view(&self) -> TreeView {
        views(self.nodes@)
    }
}

impl<'a> Nodes<'a> {
    fn children(&self, n: usize) -> (v: Vec<usize>)
        requires
            linked(self@),
            n < self@.len(),
        ensures
            v@ == kids(self@, n),
            forall|i: int| 0 <= i < v@.len() ==> inside(self@, n, #[trigger] v@[i]),
    {
        let mut v: Vec<usize> = Vec::new();
        let mut i: usize = 0;
        while i < self.nodes[n].children.len()
            invariant
                n < self@.len(),
                i <= self.nodes@[n as int].children@.len(),
                v@ == self.nodes@[n as int].children@.take(i as int),
            decreases self.nodes@[n as int].children@.len() - i,
        {
            v.push(self.nodes[n].children[i]);
            i = i + 1;
            assert(v@ =~= self.nodes@[n as int].children@.take(i as int));
        }
        assert(v@ =~= kids(self@, n));
        assert forall|i: int| 0 <= i < v@.len() implies inside(self@, n, #[trigger] v@[i]) by {
            assert(inside(self@, n, self@[n as int].children[i]));
        }
        v
    }

    fn child(&self, n: usize, i: usize) -> (c: Option<usize>)
        requires
            linked(self@),
            n < self@.len(),
        ensures
            c == child_at(self@, n, i as int),
    {
        if i < self.nodes[n].children.len() {
            let c = self.nodes[n].children[i];
            assert(c == self@[n as int].children[i as int]);
            Some(c)
        } else {
            None
        }
    }

    fn field_children(&self, n: usize, f: Field) -> (v: Vec<usize>)
        requires
            linked(self@),
            n < self@.len(),
        ensures
            v@ == field_children(self@, n, f),
            forall|i: int| 0 <= i < v@.len() ==> inside(self@, n, #[trigger] v@[i]),
    {
        let ghost p = |v: NodeView| v.field == f;
        let ks = self.children(n);
        let mut v: Vec<usize> = Vec::new();
        let mut i: usize = 0;
        while i < ks.len()
            invariant
                ks@ == kids(self@, n),
                forall|k: int| 0 <= k < ks@.len() ==> inside(self@, n, #[trigger] ks@[k]),
                p == (|v: NodeView| v.field == f),
                i <= ks@.len(),
                kids_where(self@, n, 0, p) == v@ + kids_where(self@, n, i as int, p),
            decreases ks@.len() - i,
        {
            let c = ks[i];
            let ghost later = kids_where(self@, n, i + 1, p);
            if self.nodes[c].field == f {
                let ghost old_v = v@;
                v.push(c);
                assert(old_v + (seq![c] + later) =~= v@ + later);
            }
            i = i + 1;
        }
        assert(v@ =~= field_children(self@, n, f));
        proof {
            lemma_kids_where(self@, n, 0, p);
        }
        v
    }

    fn named_children(&self, n: usize) -> (v: Vec<usize>)
        requires
            linked(self@),
            n < self@.len(),
        ensures
            v@ == named_children(self@, n),
            forall|i: int| 0 <= i < v@.len() ==> inside(self@, n, #[trigger] v@[i]),
    {
        let ghost p = |v: NodeView| v.named;
        let ks = self.children(n);
        let mut v: Vec<usize> = Vec::new();
        let mut i: usize = 0;
        while i < ks.len()
            invariant
                ks@ == kids(self@, n),
                forall|k: int| 0 <= k < ks@.len() ==> inside(self@, n, #[trigger] ks@[k]),
                p == (|v: NodeView| v.named),
                i <= ks@.len(),
                kids_where(self@, n, 0, p) == v@ + kids_where(self@, n, i as int, p),
            decreases ks@.len() - i,
        {
            let c = ks[i];
            let ghost later = kids_where(self@, n, i + 1, p);
            if self.nodes[c].named {
                let ghost old_v = v@;
                v.push(c);
                assert(old_v + (seq![c] + later) =~= v@ + later);
            }
            i = i + 1;
        }
        assert(v@ =~= named_children(self@, n));
        proof {
            lemma_kids_where(self@, n, 0, p);
        }
        v
    }

    fn plain_children(&self, n: usize) -> (v: Vec<usize>)
        requires
            linked(self@),
            n < self@.len(),
        ensures
            v@ == plain_children(self@, n),
            forall|i: int| 0 <= i < v@.len() ==> inside(self@, n, #[trigger] v@[i]),
    {
        let ghost p = |v: NodeView| v.named && v.kind != Kind::Comment;
        let ks = self.children(n);
        let mut v: Vec<usize> = Vec::new();
        let mut i: usize = 0;
        while i < ks.len()
            invariant
                ks@ == kids(self@, n),
                forall|k: int| 0 <= k < ks@.len() ==> inside(self@, n, #[trigger] ks@[k]),
                p == (|v: NodeView| v.named && v.kind != Kind::Comment),
                i <= ks@.len(),
                kids_where(self@, n, 0, p) == v@ + kids_where(self@, n, i as int, p),
            decreases ks@.len() - i,
        {
            let c = ks[i];
            let ghost later = kids_where(self@, n, i + 1, p);
            if self.nodes[c].named && self.nodes[c].kind != Kind::Comment {
                let ghost old_v = v@;
                v.push(c);
                assert(old_v + (seq![c] + later) =~= v@ + later);
            }
            i = i + 1;
        }
        assert(v@ =~= plain_children(self@, n));
        proof {
            lemma_kids_where(self@, n, 0, p);
        }
        v
    }

    fn kids_of_kind(&self, n: usize, k: Kind) -> (v: Vec<usize>)
        requires
            linked(self@),
            n < self@.len(),
        ensures
            v@ == kids_of_kind(self@, n, k),
            forall|i: int| 0 <= i < v@.len() ==> inside(self@, n, #[trigger] v@[i]),
    {
        let ghost p = |v: NodeView| v.kind == k;
        let ks = self.children(n);
        let mut v: Vec<usize> = Vec::new();
        let mut i: usize = 0;
        while i < ks.len()
            invariant
                ks@ == kids(self@, n),
                forall|j: int| 0 <= j < ks@.len() ==> inside(self@, n, #[trigger] ks@[j]),
                p == (|v: NodeView| v.kind == k),
                i <= ks@.len(),
                kids_where(self@, n, 0, p) == v@ + kids_where(self@, n, i as int, p),
            decreases ks@.len() - i,
        {
            let c = ks[i];
            let ghost later = kids_where(self@, n, i + 1, p);
            if self.nodes[c].kind == k {
                let ghost old_v = v@;
                v.push(c);
                assert(old_v + (seq![c] + later) =~= v@ + later);
            }
            i = i + 1;
        }
        assert(v@ =~= kids_of_kind(self@, n, k));
        proof {
            lemma_kids_where(self@, n, 0, p);
        }
        v
    }

    fn named_child(&self, n: usize, i: usize) -> (c: Option<usize>)
        requires
            linked(self@),
            n < self@.len(),
        ensures
            c == named_child(self@, n, i as int),
    {
        let v = self.named_children(n);
        if i < v.len() {
            Some(v[i])
        } else {
            None
        }
    }

    fn field(&self, n: usize, f: Field) -> (c: Option<usize>)
        requires
            linked(self@),
            n < self@.len(),
        ensures
            c == field_child(self@, n, f),
    {
        let v = self.field_children(n, f);
        if v.len() > 0 {
            Some(v[0])
        } else {
            None
        }
    }

    fn subscript_index(&self, n: usize) -> (c: Option<usize>)
        requires
            linked(self@),
            n < self@.len(),
        ensures
            c == subscript_index(self@, n),
    {
        match self.field(n, Field::Indices) {
            Some(list) => match self.named_child(list, 0) {
                Some(c) => Some(c),
                None => self.field(n, Field::Index),
            },
            None => self.field(n, Field::Index),
        }
    }

    /// Whether the child of `n` in the role `f`, if there is one, is of a kind that shares its labels.
    fn plain(&self, n: usize, f: Field) -> (b: bool)
        requires
            linked(self@),
            n < self@.len(),
        ensures
            b == (field_child(self@, n, f) matches Some(c) ==> !unlabelled_kind(
                self@[c as int].kind,
            )),
    {
        match self.field(n, f) {
            Some(c) => !is_unlabelled(self.nodes[c].kind),
            None => true,
        }
    }

    fn has(&self, n: usize, f: Field) -> (b: bool)
        requires
            linked(self@),
            n < self@.len(),
        ensures
            b == field_child(self@, n, f) is Some,
    {
        self.field(n, f).is_some()
    }

    /// Whether node `n` has the parts that the grammar gives nodes of its kind.
    fn shaped_at(&self, n: usize) -> (b: bool)
        requires
            linked(self@),
            n < self@.len(),
        ensures
            b == shape_at(self@, n),
    {
        let kind = self.nodes[n].kind;
        let parts = match kind {
            Kind::InitializerPair => self.has(n, Field::Designator) && self.has(n, Field::Value),
            Kind::InitDeclarator => self.has(n, Field::Declarator),
            Kind::ForStatement => self.has(n, Field::Body),
            Kind::DoStatement => self.has(n, Field::Body) && self.has(n, Field::Condition),
            Kind::WhileStatement => self.has(n, Field::Condition) && self.has(n, Field::Body),
            Kind::SwitchStatement => self.has(n, Field::Condition) && self.has(n, Field::Body),
            Kind::GotoStatement => self.has(n, Field::Label),
            Kind::LabeledStatement => self.has(n, Field::Label),
            Kind::IfStatement => self.has(n, Field::Condition) && self.has(n, Field::Consequence),
            Kind::CommaExpression => self.has(n, Field::Left) && self.has(n, Field::Right),
            Kind::UnaryExpression => self.has(n, Field::Argument),
            Kind::BinaryExpression => self.has(n, Field::Operator) && self.has(n, Field::Left) && self.has(n, Field::Right),
            Kind::UpdateExpression => self.has(n, Field::Argument),
            Kind::FieldExpression => self.has(n, Field::Argument) && self.has(n, Field::Member),
            Kind::AssignmentExpression => self.has(n, Field::Left) && self.has(n, Field::Right),
            Kind::PointerExpression => self.has(n, Field::Argument),
            Kind::SubscriptExpression => self.has(n, Field::Argument),
            Kind::CastExpression => self.has(n, Field::Value),
            Kind::CompoundLiteralExpression => self.has(n, Field::Type) && self.has(n, Field::Value),
            Kind::ConditionalExpression => self.has(n, Field::Condition) && self.has(n, Field::Alternative),
            Kind::CallExpression => self.has(n, Field::Function) && self.has(n, Field::Arguments),
            Kind::ParameterDeclaration => self.has(n, Field::Type),
            _ => true,
        };
        proof {
            if !parts {
                if has_part(kind, Field::Designator) && field_child(self@, n, Field::Designator) is None {
                    assert(!shape_at(self@, n));
                }
                if has_part(kind, Field::Value) && field_child(self@, n, Field::Value) is None {
                    assert(!shape_at(self@, n));
                }
                if has_part(kind, Field::Declarator) && field_child(self@, n, Field::Declarator) is None {
                    assert(!shape_at(self@, n));
                }
                if has_part(kind, Field::Body) && field_child(self@, n, Field::Body) is None {
                    assert(!shape_at(self@, n));
                }
                if has_part(kind, Field::Condition) && field_child(self@, n, Field::Condition) is None {
                    assert(!shape_at(self@, n));
                }
                if has_part(kind, Field::Label) && field_child(self@, n, Field::Label) is None {
                    assert(!shape_at(self@, n));
                }
                if has_part(kind, Field::Consequence) && field_child(self@, n, Field::Consequence) is None {
                    assert(!shape_at(self@, n));
                }
                if has_part(kind, Field::Left) && field_child(self@, n, Field::Left) is None {
                    assert(!shape_at(self@, n));
                }
                if has_part(kind, Field::Right) && field_child(self@, n, Field::Right) is None {
                    assert(!shape_at(self@, n));
                }
                if has_part(kind, Field::Argument) && field_child(self@, n, Field::Argument) is None {
                    assert(!shape_at(self@, n));
                }
                if has_part(kind, Field::Operator) && field_child(self@, n, Field::Operator) is None {
                    assert(!shape_at(self@, n));
                }
                if has_part(kind, Field::Member) && field_child(self@, n, Field::Member) is None {
                    assert(!shape_at(self@, n));
                }
                if has_part(kind, Field::Type) && field_child(self@, n, Field::Type) is None {
                    assert(!shape_at(self@, n));
                }
                if has_part(kind, Field::Alternative) && field_child(self@, n, Field::Alternative) is None {
                    assert(!shape_at(self@, n));
                }
                if has_part(kind, Field::Function) && field_child(self@, n, Field::Function) is None {
                    assert(!shape_at(self@, n));
                }
                if has_part(kind, Field::Arguments) && field_child(self@, n, Field::Arguments) is None {
                    assert(!shape_at(self@, n));
                }
            }
        }
        if !parts {
            return false;
        }
        if kind == Kind::ParenthesizedExpression || kind == Kind::ParenthesizedDeclarator {
            if self.child(n, 1).is_none() {
                return false;
            }
        }
        let role = self.nodes[n].field;
        if role == Field::Operand && !self.has(n, Field::Value) {
            return false;
        }
        let clauses = match kind {
            Kind::IfStatement => self.plain(n, Field::Condition) && self.plain(n, Field::Alternative),
            Kind::WhileStatement => self.plain(n, Field::Condition),
            Kind::SwitchStatement => self.plain(n, Field::Condition) && self.plain(n, Field::Body),
            Kind::CompoundLiteralExpression => self.plain(n, Field::Value),
            _ => true,
        };
        if !clauses {
            proof {
                assert(clause_role(Kind::IfStatement, Field::Condition));
                assert(clause_role(Kind::IfStatement, Field::Alternative));
                assert(clause_role(Kind::WhileStatement, Field::Condition));
                assert(clause_role(Kind::SwitchStatement, Field::Condition));
                assert(clause_role(Kind::SwitchStatement, Field::Body));
                assert(clause_role(Kind::CompoundLiteralExpression, Field::Value));
            }
            return false;
        }
        let list = role == Field::Arguments || role == Field::Indices || role
            == Field::InputOperands || role == Field::OutputOperands || role == Field::Operand;
        !list || !is_unlabelled(kind)
    }
}

} // verus!
