//! When lowering is sure to succeed.
//!
//! Outside of strict mode a construct that cannot be lowered is reported and passed over. What is
//! left to go wrong is a label without a block, and every label of a body is given one before the
//! body is lowered.

use vstd::prelude::*;
use crate::kinds::{Field, Kind};
use crate::lowering::{clause, empty_clause};
use crate::shapes::{asm_operands, bare_callee, body_nodes, generic_parts, kind_at, labels_below, labels_in, without_types};
use crate::state::State;
use crate::syntax::{child_at, clause_role, field_child, field_children, first_named_child, inside, kids, kids_of_kind, kids_where, list_role, named_child, named_children, plain_children, rest, shape_at, shaped, subscript_index, unlabelled_kind, NodeView, TreeView};

verus! {

/// Whether every label in `n` that a jump from around it can mean is among `labels`.
#[verifier::opaque]
pub open spec fn labels_known(labels: Map<Seq<char>, usize>, t: TreeView, n: usize) -> bool {
    unlabelled_kind(kind_at(t, n)) || forall|l: Seq<char>| #[trigger]
        labels_in(t, n).contains(l) ==> labels.contains_key(l)
}

/// Whether lowering `n` cannot fail.
pub open spec fn settled(st: State, t: TreeView, n: usize) -> bool {
    !st.env.strict && labels_known(st.labels, t, n)
}

/// Whether lowering what is in `n` cannot fail.
pub open spec fn settled_within(st: State, t: TreeView, n: usize) -> bool {
    settled(st, t, n) && !unlabelled_kind(kind_at(t, n))
}

/// Whether lowering any of the nodes cannot fail.
pub open spec fn all_settled(st: State, t: TreeView, nodes: Seq<usize>) -> bool {
    !st.env.strict && forall|j: int|
        0 <= j < nodes.len() ==> #[trigger] labels_known(st.labels, t, nodes[j])
}

proof fn lemma_add_holds(a: Seq<Seq<char>>, b: Seq<Seq<char>>, x: Seq<char>)
    requires
        a.contains(x) || b.contains(x),
    ensures
        (a + b).contains(x),
{
    if a.contains(x) {
        let i = choose|i: int| 0 <= i < a.len() && a[i] == x;
        assert((a + b)[i] == x);
    } else {
        let i = choose|i: int| 0 <= i < b.len() && b[i] == x;
        assert((a + b)[a.len() + i] == x);
    }
}

proof fn lemma_child_labels(t: TreeView, n: usize, i: int, k: int, c: usize, l: Seq<char>)
    requires
        0 <= i <= k < kids(t, n).len(),
        child_at(t, n, k) == Some(c),
        !unlabelled_kind(kind_at(t, c)),
        labels_in(t, c).contains(l),
    ensures
        labels_below(t, n, i).contains(l),
    decreases k - i,
{
    let later = labels_below(t, n, i + 1);
    if i == k {
        lemma_add_holds(labels_in(t, c), later, l);
    } else {
        lemma_child_labels(t, n, i + 1, k, c, l);
        match child_at(t, n, i) {
            Some(d) => {
                lemma_add_holds(labels_in(t, d), later, l);
            },
            None => {},
        }
    }
}

/// The labels of a child are labels of the node.
pub proof fn a_child_is_known(
    labels: Map<Seq<char>, usize>,
    t: TreeView,
    n: usize,
    k: int,
    c: usize,
)
    requires
        labels_known(labels, t, n),
        !unlabelled_kind(kind_at(t, n)),
        0 <= k < kids(t, n).len(),
        child_at(t, n, k) == Some(c),
    ensures
        labels_known(labels, t, c),
{
    reveal(labels_known);
    if !unlabelled_kind(kind_at(t, c)) {
        assert forall|l: Seq<char>| #[trigger] labels_in(t, c).contains(
            l,
        ) implies labels.contains_key(l) by {
            lemma_child_labels(t, n, 0, k, c, l);
            let own = if kind_at(t, n) == Kind::LabeledStatement && field_child(
                t,
                n,
                Field::Label,
            ) is Some {
                seq![crate::shapes::text_at(t, field_child(t, n, Field::Label)->0)]
            } else {
                Seq::empty()
            };
            lemma_add_holds(own, labels_below(t, n, 0), l);
            assert(labels_in(t, n).contains(l));
        }
    }
}

proof fn lemma_picked(t: TreeView, n: usize, i: int, p: spec_fn(NodeView) -> bool, j: int) -> (k:
    int)
    requires
        0 <= i,
        0 <= j < kids_where(t, n, i, p).len(),
    ensures
        i <= k < kids(t, n).len(),
        child_at(t, n, k) == Some(kids_where(t, n, i, p)[j]),
    decreases kids(t, n).len() - i,
{
    let later = kids_where(t, n, i + 1, p);
    let now = kids_where(t, n, i, p);
    match child_at(t, n, i) {
        Some(c) => if p(t[c as int]) {
            if j == 0 {
                i
            } else {
                assert(now[j] == later[j - 1]);
                lemma_picked(t, n, i + 1, p, j - 1)
            }
        } else {
            lemma_picked(t, n, i + 1, p, j)
        },
        None => lemma_picked(t, n, i + 1, p, j),
    }
}

/// The labels of a picked child are labels of the node.
proof fn lemma_picked_known(
    labels: Map<Seq<char>, usize>,
    t: TreeView,
    n: usize,
    p: spec_fn(NodeView) -> bool,
    j: int,
)
    requires
        labels_known(labels, t, n),
        !unlabelled_kind(kind_at(t, n)),
        0 <= j < kids_where(t, n, 0, p).len(),
    ensures
        labels_known(labels, t, kids_where(t, n, 0, p)[j]),
{
    let k = lemma_picked(t, n, 0, p, j);
    a_child_is_known(labels, t, n, k, kids_where(t, n, 0, p)[j]);
}

/// The labels of child number `i` are labels of the node.
pub broadcast proof fn child_known(
    labels: Map<Seq<char>, usize>,
    t: TreeView,
    n: usize,
    i: int,
)
    requires
        #[trigger] labels_known(labels, t, n),
        !unlabelled_kind(kind_at(t, n)),
    ensures
        #[trigger] child_at(t, n, i) matches Some(c) ==> labels_known(labels, t, c),
{
    match child_at(t, n, i) {
        Some(c) => {
            a_child_is_known(labels, t, n, i, c);
        },
        None => {},
    }
}

/// The labels of a child are labels of the node.
pub broadcast proof fn kid_known(labels: Map<Seq<char>, usize>, t: TreeView, n: usize, j: int)
    requires
        #[trigger] labels_known(labels, t, n),
        !unlabelled_kind(kind_at(t, n)),
        0 <= j < kids(t, n).len(),
        child_at(t, n, j) is Some,
    ensures
        labels_known(labels, t, #[trigger] kids(t, n)[j]),
{
    a_child_is_known(labels, t, n, j, kids(t, n)[j]);
}

/// The labels of the child in a role are labels of the node.
pub broadcast proof fn field_known(
    labels: Map<Seq<char>, usize>,
    t: TreeView,
    n: usize,
    f: Field,
)
    requires
        #[trigger] labels_known(labels, t, n),
        !unlabelled_kind(kind_at(t, n)),
    ensures
        #[trigger] field_child(t, n, f) matches Some(c) ==> labels_known(labels, t, c),
{
    if field_child(t, n, f) is Some {
        lemma_picked_known(labels, t, n, |v: NodeView| v.field == f, 0);
    }
}

/// The labels of the children in a role are labels of the node.
pub broadcast proof fn fields_known(
    labels: Map<Seq<char>, usize>,
    t: TreeView,
    n: usize,
    f: Field,
    j: int,
)
    requires
        #[trigger] labels_known(labels, t, n),
        !unlabelled_kind(kind_at(t, n)),
        0 <= j < field_children(t, n, f).len(),
    ensures
        labels_known(labels, t, #[trigger] field_children(t, n, f)[j]),
{
    lemma_picked_known(labels, t, n, |v: NodeView| v.field == f, j);
}

/// The labels of a named child are labels of the node.
pub broadcast proof fn named_known(labels: Map<Seq<char>, usize>, t: TreeView, n: usize, j: int)
    requires
        #[trigger] labels_known(labels, t, n),
        !unlabelled_kind(kind_at(t, n)),
        0 <= j < named_children(t, n).len(),
    ensures
        labels_known(labels, t, #[trigger] named_children(t, n)[j]),
{
    lemma_picked_known(labels, t, n, |v: NodeView| v.named, j);
}

/// The labels of a named child are labels of the node.
pub broadcast proof fn named_child_known(
    labels: Map<Seq<char>, usize>,
    t: TreeView,
    n: usize,
    j: int,
)
    requires
        #[trigger] labels_known(labels, t, n),
        !unlabelled_kind(kind_at(t, n)),
    ensures
        #[trigger] named_child(t, n, j) matches Some(c) ==> labels_known(labels, t, c),
{
    if named_child(t, n, j) is Some {
        lemma_picked_known(labels, t, n, |v: NodeView| v.named, j);
    }
}

/// The labels of a child that is not a comment are labels of the node.
pub broadcast proof fn plain_known(labels: Map<Seq<char>, usize>, t: TreeView, n: usize, j: int)
    requires
        #[trigger] labels_known(labels, t, n),
        !unlabelled_kind(kind_at(t, n)),
        0 <= j < plain_children(t, n).len(),
    ensures
        labels_known(labels, t, #[trigger] plain_children(t, n)[j]),
{
    lemma_picked_known(
        labels,
        t,
        n,
        |v: NodeView| v.named && v.kind != Kind::Comment,
        j,
    );
}

/// The labels of the first child that is not a comment are labels of the node.
pub broadcast proof fn first_known(labels: Map<Seq<char>, usize>, t: TreeView, n: usize)
    requires
        #[trigger] labels_known(labels, t, n),
        !unlabelled_kind(kind_at(t, n)),
    ensures
        #[trigger] first_named_child(t, n) matches Some(c) ==> labels_known(labels, t, c),
{
    if first_named_child(t, n) is Some {
        lemma_picked_known(
            labels,
            t,
            n,
            |v: NodeView| v.named && v.kind != Kind::Comment,
            0,
        );
    }
}

/// The labels of a child of a kind are labels of the node.
pub broadcast proof fn kind_known(
    labels: Map<Seq<char>, usize>,
    t: TreeView,
    n: usize,
    k: Kind,
    j: int,
)
    requires
        #[trigger] labels_known(labels, t, n),
        !unlabelled_kind(kind_at(t, n)),
        0 <= j < kids_of_kind(t, n, k).len(),
    ensures
        labels_known(labels, t, #[trigger] kids_of_kind(t, n, k)[j]),
{
    lemma_picked_known(labels, t, n, |v: NodeView| v.kind == k, j);
}

/// The child in the role of a list is not one whose labels are its own.
pub broadcast proof fn list_known(t: TreeView, n: usize, f: Field)
    requires
        #[trigger] shaped(t),
        list_role(f),
    ensures
        #[trigger] field_child(t, n, f) matches Some(c) ==> !unlabelled_kind(kind_at(t, c)),
{
    if let Some(c) = field_child(t, n, f) {
        lemma_picked(t, n, 0, |v: NodeView| v.field == f, 0);
        crate::syntax::field_children_have_the_role(t, n, f);
        assert(field_children(t, n, f)[0] == c);
        assert(shape_at(t, c));
    }
}

/// The child in the role of a clause is not one whose labels are its own.
pub broadcast proof fn clause_shares(t: TreeView, n: usize, f: Field)
    requires
        #[trigger] shaped(t),
        n < t.len(),
        clause_role(kind_at(t, n), f),
    ensures
        #[trigger] field_child(t, n, f) matches Some(c) ==> !unlabelled_kind(kind_at(t, c)),
{
    assert(shape_at(t, n));
}

/// The labels of the statements of a body are labels of the body.
pub proof fn body_known(labels: Map<Seq<char>, usize>, t: TreeView, n: usize, j: int)
    requires
        labels_known(labels, t, n),
        0 <= j < body_nodes(t, n).len(),
        body_nodes(t, n)[j] == n || inside(t, n, body_nodes(t, n)[j]),
    ensures
        labels_known(labels, t, body_nodes(t, n)[j]),
{
    if kind_at(t, n) == Kind::CompoundStatement && kids(t, n)[j] != n {
        a_child_is_known(labels, t, n, j, kids(t, n)[j]);
    }
}

/// The labels of what stands for a clause of a `for` loop are labels of the loop.
proof fn lemma_empty_clause(labels: Map<Seq<char>, usize>, t: TreeView, n: usize, i: int)
    requires
        labels_known(labels, t, n),
        !unlabelled_kind(kind_at(t, n)),
        0 <= i,
    ensures
        empty_clause(t, n, i) matches Some(c) ==> labels_known(labels, t, c),
    decreases kids(t, n).len() - i,
{
    if i < kids(t, n).len() {
        child_known(labels, t, n, i);
        lemma_empty_clause(labels, t, n, i + 1);
    }
}

/// The labels of a clause of a `for` loop are labels of the loop.
pub broadcast proof fn for_clause_known(
    labels: Map<Seq<char>, usize>,
    t: TreeView,
    n: usize,
    f: Field,
)
    requires
        #[trigger] labels_known(labels, t, n),
        !unlabelled_kind(kind_at(t, n)),
    ensures
        #[trigger] clause(t, n, f) matches Some(c) ==> labels_known(labels, t, c),
{
    field_known(labels, t, n, f);
    lemma_empty_clause(labels, t, n, 0);
}

/// The labels of the index of a subscript are labels of the node.
pub broadcast proof fn index_known(labels: Map<Seq<char>, usize>, t: TreeView, n: usize)
    requires
        #[trigger] labels_known(labels, t, n),
        !unlabelled_kind(kind_at(t, n)),
        shaped(t),
    ensures
        #[trigger] subscript_index(t, n) matches Some(c) ==> labels_known(labels, t, c),
{
    field_known(labels, t, n, Field::Index);
    field_known(labels, t, n, Field::Indices);
    list_known(t, n, Field::Indices);
    if let Some(list) = field_child(t, n, Field::Indices) {
        named_child_known(labels, t, list, 0);
    }
}

/// The labels of an operand of an assembly are labels of the assembly.
pub broadcast proof fn operand_known(
    labels: Map<Seq<char>, usize>,
    t: TreeView,
    n: usize,
    f: Field,
    j: int,
)
    requires
        #[trigger] labels_known(labels, t, n),
        !unlabelled_kind(kind_at(t, n)),
        shaped(t),
        list_role(f),
        0 <= j < asm_operands(t, n, f).len(),
    ensures
        labels_known(labels, t, #[trigger] asm_operands(t, n, f)[j]),
        !unlabelled_kind(kind_at(t, asm_operands(t, n, f)[j])),
{
    field_known(labels, t, n, f);
    list_known(t, n, f);
    let list = field_child(t, n, f)->0;
    fields_known(labels, t, list, Field::Operand, j);
    crate::syntax::field_children_have_the_role(t, list, Field::Operand);
    assert(shape_at(t, field_children(t, list, Field::Operand)[j]));
}

proof fn lemma_without_types(t: TreeView, nodes: Seq<usize>, i: int, j: int) -> (k: int)
    requires
        0 <= i,
        0 <= j < without_types(t, nodes, i).len(),
    ensures
        i <= k < nodes.len(),
        without_types(t, nodes, i)[j] == nodes[k],
    decreases nodes.len() - i,
{
    if kind_at(t, nodes[i]) != Kind::TypeDescriptor {
        if j == 0 {
            i
        } else {
            lemma_without_types(t, nodes, i + 1, j - 1)
        }
    } else {
        lemma_without_types(t, nodes, i + 1, j)
    }
}

/// The labels of the parts of a generic selection are labels of the selection.
pub proof fn selection_known(labels: Map<Seq<char>, usize>, t: TreeView, n: usize)
    requires
        labels_known(labels, t, n),
        !unlabelled_kind(kind_at(t, n)),
    ensures
        generic_parts(t, n).0 matches Some(c) ==> labels_known(labels, t, c),
        forall|j: int|
            0 <= j < generic_parts(t, n).1.len() ==> #[trigger] labels_known(
                labels,
                t,
                generic_parts(t, n).1[j],
            ),
{
    let nodes = plain_children(t, n);
    if nodes.len() > 0 {
        plain_known(labels, t, n, 0);
    }
    assert forall|j: int| 0 <= j < generic_parts(t, n).1.len() implies #[trigger] labels_known(
        labels,
        t,
        generic_parts(t, n).1[j],
    ) by {
        let k = lemma_without_types(t, nodes, 1, j);
        plain_known(labels, t, n, k);
    }
}

/// The labels of a callee are labels of what is left of it without its parentheses.
pub broadcast proof fn callee_known(labels: Map<Seq<char>, usize>, t: TreeView, n: usize)
    requires
        #[trigger] labels_known(labels, t, n),
    ensures
        labels_known(labels, t, #[trigger] bare_callee(t, n)),
    decreases rest(t, n),
{
    if kind_at(t, n) == Kind::ParenthesizedExpression {
        match first_named_child(t, n) {
            Some(c) => if kind_at(t, c) != Kind::CompoundStatement {
                first_known(labels, t, n);
                callee_known(labels, t, c);
            },
            None => {},
        }
    }
}

/// Whether there is no label in `n` that a jump from around it can mean.
pub open spec fn unlabelled(t: TreeView, n: usize) -> bool {
    labels_known(Map::empty(), t, n)
}

/// Whether there is no label in what the members `inits` are initialized to.
pub open spec fn inits_unlabelled(t: TreeView, inits: Seq<(Seq<char>, usize)>) -> bool {
    forall|i: int| 0 <= i < inits.len() ==> unlabelled(t, (#[trigger] inits[i]).1)
}

/// Where there is no label, every label is known.
pub proof fn an_unlabelled_node_is_known(labels: Map<Seq<char>, usize>, t: TreeView, n: usize)
    requires
        unlabelled(t, n),
    ensures
        labels_known(labels, t, n),
{
    reveal(labels_known);
}

/// A labeled statement whose labels are known has a block.
pub proof fn a_known_label_has_a_block(labels: Map<Seq<char>, usize>, t: TreeView, n: usize)
    requires
        labels_known(labels, t, n),
        kind_at(t, n) == Kind::LabeledStatement,
        field_child(t, n, Field::Label) is Some,
    ensures
        labels.contains_key(crate::shapes::text_at(t, field_child(t, n, Field::Label)->0)),
{
    reveal(labels_known);
    let l = crate::shapes::text_at(t, field_child(t, n, Field::Label)->0);
    assert(seq![l][0] == l);
    lemma_add_holds(seq![l], labels_below(t, n, 0), l);
    assert(labels_in(t, n).contains(l));
}

/// A node is known where each of its labels has a block.
pub proof fn known_by_its_labels(labels: Map<Seq<char>, usize>, t: TreeView, n: usize)
    requires
        forall|l: Seq<char>| #[trigger] labels_in(t, n).contains(l) ==> labels.contains_key(l),
    ensures
        labels_known(labels, t, n),
{
    reveal(labels_known);
}

pub broadcast group group_known {
    child_known,
    kid_known,
    field_known,
    fields_known,
    named_known,
    named_child_known,
    plain_known,
    first_known,
    kind_known,
    list_known,
    index_known,
    operand_known,
    callee_known,
    clause_shares,
    for_clause_known,
}

} // verus!
