//! What the shape of a syntax tree says: what a declarator declares, what a record holds, which
//! labels a body has.

use vstd::prelude::*;
use crate::collections::{views, NameSet, Table};
use crate::kinds::{Field, Kind};
use crate::mir::ParameterType;
use crate::syntax::{child_at, field_child, field_children, first_named_child, inside, kids, kids_of_kind, named_child, no_node, only_inside, plain_children, rest, unlabelled_kind, SyntaxTree, TreeView};
use crate::text::{holds_char, same};

verus! {

broadcast use crate::collections::group_views;

/// What kind of node `n` is; `Other` for an index that is no node.
pub open spec fn kind_at(t: TreeView, n: usize) -> Kind {
    if n < t.len() && n != no_node() {
        t[n as int].kind
    } else {
        Kind::Other
    }
}

/// The text of node `n`.
pub open spec fn text_at(t: TreeView, n: usize) -> Seq<char> {
    t[n as int].text
}

// Statements

/// Whether a node is an empty statement, or the token of one.
pub open spec fn empty_kind(k: Kind) -> bool {
    k == Kind::Semicolon || k == Kind::EmptyStatement
}

/// Whether a node is an empty statement, or the token of one.
pub fn is_empty_kind(k: Kind) -> (b: bool)
    ensures
        b == empty_kind(k),
{
    k == Kind::Semicolon || k == Kind::EmptyStatement
}

/// The statements that a body consists of: what a block holds, nothing for an empty statement, and
/// any other statement by itself.
pub open spec fn body_nodes(t: TreeView, n: usize) -> Seq<usize> {
    if kind_at(t, n) == Kind::CompoundStatement {
        kids(t, n)
    } else if empty_kind(kind_at(t, n)) {
        Seq::empty()
    } else if kind_at(t, n) == Kind::ExpressionStatement && child_at(t, n, 0) is Some && empty_kind(
        kind_at(t, child_at(t, n, 0)->0),
    ) {
        Seq::empty()
    } else {
        seq![n]
    }
}

/// The statements that a body consists of, and whether it was a block.
#[derive(Debug)]
pub struct CompoundProxy {
    pub nodes: Vec<usize>,
    pub was_compound: bool,
}

impl CompoundProxy {
    /// The statements that the body `n` consists of.
    pub fn from_node(tree: &SyntaxTree, n: usize) -> (p: CompoundProxy)
        requires
            n < tree@.len(),
        ensures
            p.nodes@ == body_nodes(tree@, n),
            p.was_compound == (tree@[n as int].kind == Kind::CompoundStatement),
            forall|i: int|
                0 <= i < p.nodes@.len() ==> n <= #[trigger] p.nodes@[i] && p.nodes@[i]
                    < tree@.len(),
            p.was_compound ==> forall|i: int|
                0 <= i < p.nodes@.len() ==> inside(tree@, n, #[trigger] p.nodes@[i]),
    {
        let kind = tree.kind(n);
        if kind == Kind::CompoundStatement {
            return CompoundProxy { nodes: tree.children(n), was_compound: true };
        }
        let mut nodes: Vec<usize> = Vec::new();
        assert(nodes@ =~= Seq::<usize>::empty());
        if is_empty_kind(kind) {
            return CompoundProxy { nodes, was_compound: false };
        }
        if kind == Kind::ExpressionStatement {
            if let Some(c) = tree.child(n, 0) {
                if is_empty_kind(tree.kind(c)) {
                    return CompoundProxy { nodes, was_compound: false };
                }
            }
        }
        nodes.push(n);
        assert(nodes@ =~= seq![n]);
        CompoundProxy { nodes, was_compound: false }
    }
}

/// The labels below the children of `n` from number `i` on, in order.
pub open spec fn labels_below(t: TreeView, n: usize, i: int) -> Seq<Seq<char>>
    decreases rest(t, n), 0nat, kids(t, n).len() - i,
{
    if i < 0 || i >= kids(t, n).len() {
        Seq::empty()
    } else {
        let later = labels_below(t, n, i + 1);
        match child_at(t, n, i) {
            Some(c) => if unlabelled_kind(kind_at(t, c)) {
                later
            } else {
                labels_in(t, c) + later
            },
            None => later,
        }
    }
}

/// The labels of the function whose body is `n`, in order.
pub open spec fn labels_in(t: TreeView, n: usize) -> Seq<Seq<char>>
    decreases rest(t, n), 1nat, 0int,
{
    let own = if kind_at(t, n) == Kind::LabeledStatement && field_child(t, n, Field::Label) is Some {
        seq![text_at(t, field_child(t, n, Field::Label)->0)]
    } else {
        Seq::empty()
    };
    own + labels_below(t, n, 0)
}

/// Adds the labels of the function whose body is `n` to `out`, in order.
pub fn collect_labels(tree: &SyntaxTree, n: usize, out: &mut Vec<String>)
    requires
        n < tree@.len(),
    ensures
        views(final(out)@) == views(old(out)@) + labels_in(tree@, n),
    decreases rest(tree@, n),
{
    let ghost t = tree@;
    let ghost before = views(out@);
    let mut own: Ghost<Seq<Seq<char>>> = Ghost(Seq::empty());
    if tree.kind(n) == Kind::LabeledStatement {
        if let Some(label) = tree.field(n, Field::Label) {
            out.push(String::from_str(tree.text(label)));
            proof {
                own@ = seq![text_at(t, label)];
            }
        }
    }
    let ghost o = own@;
    assert(views(out@) =~= before + o);
    let children = tree.children(n);
    let mut i: usize = 0;
    assert(views(out@) + labels_below(t, n, 0) =~= before + (o + labels_below(t, n, 0)));
    while i < children.len()
        invariant
            i <= children@.len(),
            t == tree@,
            n < t.len(),
            children@ == kids(t, n),
            forall|j: int| 0 <= j < children@.len() ==> inside(t, n, #[trigger] children@[j]),
            views(out@) + labels_below(t, n, i as int) == before + (o + labels_below(t, n, 0)),
        decreases children@.len() - i,
    {
        let child = children[i];
        let kind = tree.kind(child);
        let ghost here = views(out@);
        if kind == Kind::FunctionDefinition || kind == Kind::SizeofExpression || kind
            == Kind::AlignofExpression {
            i = i + 1;
            continue;
        }
        collect_labels(tree, child, out);
        i = i + 1;
        assert(views(out@) + labels_below(t, n, i as int) =~= here + (labels_in(t, child)
            + labels_below(t, n, i as int)));
    }
    assert(views(out@) =~= before + labels_in(t, n));
}

// Declarators

/// The declarator inside any number of layers of parentheses; `None` if they hold nothing.
pub open spec fn unparenthesized(t: TreeView, n: usize) -> Option<usize>
    decreases rest(t, n),
{
    if kind_at(t, n) == Kind::ParenthesizedDeclarator {
        match first_named_child(t, n) {
            Some(c) => unparenthesized(t, c),
            None => None,
        }
    } else {
        Some(n)
    }
}

proof fn lemma_unparenthesized_inside(t: TreeView, n: usize)
    requires
        n < t.len(),
    ensures
        unparenthesized(t, n) matches Some(c) ==> n <= c && c < t.len(),
    decreases rest(t, n),
{
    if kind_at(t, n) == Kind::ParenthesizedDeclarator {
        match first_named_child(t, n) {
            Some(c) => {
                lemma_unparenthesized_inside(t, c);
            },
            None => {},
        }
    }
}

/// The declarator inside any number of layers of parentheses: `(d)` declares what `d` declares.
pub fn unparenthesize(tree: &SyntaxTree, n: usize) -> (c: Option<usize>)
    requires
        n < tree@.len(),
    ensures
        c == unparenthesized(tree@, n),
        c matches Some(m) ==> n <= m && m < tree@.len(),
{
    let mut node: usize = n;
    while tree.kind(node) == Kind::ParenthesizedDeclarator
        invariant
            n <= node < tree@.len(),
            unparenthesized(tree@, node) == unparenthesized(tree@, n),
        decreases rest(tree@, node),
    {
        match tree.first_named_child(node) {
            Some(inner) => {
                node = inner;
            },
            None => {
                return None;
            },
        }
    }
    Some(node)
}

/// What the declarator of a function says: the node that names it, its parameter list, and whether
/// it returns a pointer.
#[derive(Debug, Clone, Copy, PartialEq, Eq, Structural)]
pub struct FunctionHead {
    pub name: usize,
    pub params: usize,
    pub returns_pointer: bool,
}

/// What the declarator `n` says of a function, where it names a single one: a pointer return is
/// one pointer declarator per `*` around the function's own. `ptr` is whether there was one
/// around `n` already.
pub open spec fn head_under(t: TreeView, n: usize, ptr: bool) -> Option<FunctionHead>
    decreases rest(t, n),
    via head_under_decreases
{
    match unparenthesized(t, n) {
        None => None,
        Some(d) => if kind_at(t, d) == Kind::PointerDeclarator {
            match field_child(t, d, Field::Declarator) {
                Some(c) => head_under(t, c, true),
                None => None,
            }
        } else if kind_at(t, d) == Kind::FunctionDeclarator {
            match (field_child(t, d, Field::Declarator), field_child(t, d, Field::Parameters)) {
                (Some(c), Some(params)) => match unparenthesized(t, c) {
                    Some(name) => if kind_at(t, name) == Kind::Identifier {
                        Some(FunctionHead { name, params, returns_pointer: ptr })
                    } else {
                        None
                    },
                    None => None,
                },
                _ => None,
            }
        } else {
            None
        },
    }
}

#[via_fn]
proof fn head_under_decreases(t: TreeView, n: usize, ptr: bool) {
    if n < t.len() {
        lemma_unparenthesized_inside(t, n);
    } else {
        assert(kind_at(t, n) == Kind::Other);
    }
}

/// What a declarator says of the function it declares, where it names a single one.
pub open spec fn head_of(t: TreeView, n: usize) -> Option<FunctionHead> {
    head_under(t, n, false)
}

/// What a declarator says of the function it declares: `None` for one that names no single
/// function.
pub fn function_head(tree: &SyntaxTree, declarator: usize) -> (h: Option<FunctionHead>)
    requires
        declarator < tree@.len(),
    ensures
        h == head_of(tree@, declarator),
        h matches Some(h) ==> h.name < tree@.len() && h.params < tree@.len(),
{
    let mut node: usize = declarator;
    let mut returns_pointer = false;
    loop
        invariant
            node < tree@.len(),
            head_under(tree@, node, returns_pointer) == head_of(tree@, declarator),
        decreases rest(tree@, node),
    {
        let d = match unparenthesize(tree, node) {
            Some(d) => d,
            None => {
                return None;
            },
        };
        let kind = tree.kind(d);
        if kind == Kind::PointerDeclarator {
            match tree.field(d, Field::Declarator) {
                Some(c) => {
                    returns_pointer = true;
                    node = c;
                },
                None => {
                    return None;
                },
            }
        } else if kind == Kind::FunctionDeclarator {
            let c = match tree.field(d, Field::Declarator) {
                Some(c) => c,
                None => {
                    return None;
                },
            };
            let params = match tree.field(d, Field::Parameters) {
                Some(p) => p,
                None => {
                    return None;
                },
            };
            return match unparenthesize(tree, c) {
                Some(name) => if tree.kind(name) == Kind::Identifier {
                    Some(FunctionHead { name, params, returns_pointer })
                } else {
                    None
                },
                None => None,
            };
        } else {
            return None;
        }
    }
}

/// Whether a declarator makes what it declares a pointer or an array.
pub open spec fn indirect_kind(k: Kind) -> bool {
    k == Kind::PointerDeclarator || k == Kind::AbstractPointerDeclarator || k
        == Kind::ArrayDeclarator || k == Kind::AbstractArrayDeclarator
}

/// Whether a declarator makes what it declares a function.
pub open spec fn function_kind(k: Kind) -> bool {
    k == Kind::FunctionDeclarator || k == Kind::AbstractFunctionDeclarator
}

/// The declarators from `n` down to the name, outermost first, without parentheses; the last one
/// has none inside.
pub open spec fn declarator_chain(t: TreeView, n: usize) -> Seq<usize>
    decreases rest(t, n),
    via declarator_chain_decreases
{
    match unparenthesized(t, n) {
        None => Seq::empty(),
        Some(d) => if indirect_kind(kind_at(t, d)) || function_kind(kind_at(t, d)) {
            match field_child(t, d, Field::Declarator) {
                Some(c) => seq![d] + declarator_chain(t, c),
                None => seq![d],
            }
        } else {
            seq![d]
        },
    }
}

#[via_fn]
proof fn declarator_chain_decreases(t: TreeView, n: usize) {
    if n < t.len() {
        lemma_unparenthesized_inside(t, n);
    } else {
        assert(kind_at(t, n) == Kind::Other);
    }
}

/// The name a parameter's declarator declares, if it declares one, and how the parameter is
/// passed: a pointer or an array by reference, unless what it points at is code.
pub open spec fn param_of(t: TreeView, n: usize) -> (Option<usize>, ParameterType) {
    let chain = declarator_chain(t, n);
    let name = if chain.len() > 0 && kind_at(t, chain.last()) == Kind::Identifier {
        Some(chain.last())
    } else {
        None
    };
    let is_ref = exists|i: int|
        0 <= i < chain.len() && indirect_kind(kind_at(t, #[trigger] chain[i]));
    let is_function = exists|i: int|
        0 <= i < chain.len() && function_kind(kind_at(t, #[trigger] chain[i]));
    (
        name,
        if is_ref && !is_function {
            ParameterType::ByRef
        } else {
            ParameterType::ByVal
        },
    )
}

/// The name a parameter's declarator declares, and how the parameter is passed.
pub fn param_head(tree: &SyntaxTree, declarator: usize) -> (p: (Option<usize>, ParameterType))
    requires
        declarator < tree@.len(),
    ensures
        p == param_of(tree@, declarator),
        p.0 matches Some(n) ==> n < tree@.len(),
{
    let ghost t = tree@;
    let ghost chain = declarator_chain(t, declarator);
    let mut node: usize = declarator;
    let mut is_ref = false;
    let mut is_function = false;
    let mut name: Option<usize> = None;
    let ghost mut done: int = 0;
    assert(chain.take(0) + declarator_chain(t, node) =~= chain);
    loop
        invariant_except_break
            node < t.len(),
            name is None,
            chain == chain.take(done) + declarator_chain(t, node),
        invariant
            t == tree@,
            chain == declarator_chain(t, declarator),
            0 <= done <= chain.len(),
            is_ref == exists|i: int| 0 <= i < done && indirect_kind(kind_at(t, #[trigger] chain[i])),
            is_function == exists|i: int|
                0 <= i < done && function_kind(kind_at(t, #[trigger] chain[i])),
            done > 0 ==> name is None ==> kind_at(t, chain[done - 1]) != Kind::Identifier,
        ensures
            done == chain.len(),
            match name {
                Some(n) => n < t.len() && chain.len() > 0 && n == chain.last() && kind_at(t, n)
                    == Kind::Identifier,
                None => chain.len() > 0 ==> kind_at(t, chain.last()) != Kind::Identifier,
            },
        decreases rest(t, node),
    {
        let current = match unparenthesize(tree, node) {
            Some(d) => d,
            None => {
                assert(chain =~= chain.take(done));
                break;
            },
        };
        let kind = tree.kind(current);
        let ghost tail = declarator_chain(t, node);
        assert(tail.len() > 0 && tail[0] == current);
        assert(chain[done] == tail[0]);
        if kind == Kind::Identifier {
            name = Some(current);
            proof {
                assert(tail =~= seq![current]);
                assert forall|i: int| 0 <= i < done + 1 && indirect_kind(
                    kind_at(t, #[trigger] chain[i]),
                ) implies i < done by {}
                done = done + 1;
            }
            break;
        }
        let mut stop = false;
        if kind == Kind::PointerDeclarator || kind == Kind::AbstractPointerDeclarator || kind
            == Kind::ArrayDeclarator || kind == Kind::AbstractArrayDeclarator {
            is_ref = true;
            assert(indirect_kind(kind_at(t, chain[done])));
        } else if kind == Kind::FunctionDeclarator || kind == Kind::AbstractFunctionDeclarator {
            is_function = true;
            assert(function_kind(kind_at(t, chain[done])));
        } else {
            stop = true;
        }
        proof {
            done = done + 1;
        }
        if stop {
            assert(tail =~= seq![current]);
            assert(chain.len() == done);
            break;
        }
        match tree.field(current, Field::Declarator) {
            Some(inner) => {
                assert(chain =~= chain.take(done) + declarator_chain(t, inner));
                node = inner;
            },
            None => {
                assert(chain.len() == done);
                break;
            },
        }
    }
    if is_ref && !is_function {
        (name, ParameterType::ByRef)
    } else {
        (name, ParameterType::ByVal)
    }
}

/// How many array dimensions a declarator declares.
pub open spec fn array_rank(t: TreeView, n: usize) -> nat
    decreases rest(t, n),
{
    let k = kind_at(t, n);
    if k == Kind::ArrayDeclarator || k == Kind::AbstractArrayDeclarator {
        1 + match field_child(t, n, Field::Declarator) {
            Some(c) => array_rank(t, c),
            None => 0,
        }
    } else if k == Kind::ParenthesizedDeclarator || k == Kind::AbstractParenthesizedDeclarator {
        match named_child(t, n, 0) {
            Some(c) => array_rank(t, c),
            None => 0,
        }
    } else if k == Kind::PointerDeclarator || k == Kind::AbstractPointerDeclarator || k
        == Kind::InitDeclarator {
        match field_child(t, n, Field::Declarator) {
            Some(c) => array_rank(t, c),
            None => 0,
        }
    } else {
        0
    }
}

proof fn lemma_array_rank_bounded(t: TreeView, n: usize)
    ensures
        array_rank(t, n) <= rest(t, n),
    decreases rest(t, n),
{
    match field_child(t, n, Field::Declarator) {
        Some(c) => {
            lemma_array_rank_bounded(t, c);
        },
        None => {},
    }
    match named_child(t, n, 0) {
        Some(c) => {
            lemma_array_rank_bounded(t, c);
        },
        None => {},
    }
}

/// How many array dimensions a declarator declares: how many levels of braces an initializer
/// descends before the declared type applies.
pub fn array_declarator_rank(tree: &SyntaxTree, decl: usize) -> (r: usize)
    requires
        decl < tree@.len(),
    ensures
        r == array_rank(tree@, decl),
    decreases rest(tree@, decl),
{
    let k = tree.kind(decl);
    if k == Kind::ArrayDeclarator || k == Kind::AbstractArrayDeclarator {
        match tree.field(decl, Field::Declarator) {
            Some(c) => {
                proof {
                    lemma_array_rank_bounded(tree@, c);
                }
                1 + array_declarator_rank(tree, c)
            },
            None => 1,
        }
    } else if k == Kind::ParenthesizedDeclarator || k == Kind::AbstractParenthesizedDeclarator {
        match tree.named_child(decl, 0) {
            Some(c) => array_declarator_rank(tree, c),
            None => 0,
        }
    } else if k == Kind::PointerDeclarator || k == Kind::AbstractPointerDeclarator || k
        == Kind::InitDeclarator {
        match tree.field(decl, Field::Declarator) {
            Some(c) => array_declarator_rank(tree, c),
            None => 0,
        }
    } else {
        0
    }
}

// Records

/// Whether a node names or defines a record.
pub open spec fn record_kind(k: Kind) -> bool {
    k == Kind::StructSpecifier || k == Kind::UnionSpecifier || k == Kind::ClassSpecifier
}

/// The node that names the record type of a declaration, if its type names one.
pub open spec fn type_tag_node(t: TreeView, n: usize) -> Option<usize> {
    match field_child(t, n, Field::Type) {
        Some(ty) => if record_kind(kind_at(t, ty)) {
            field_child(t, ty, Field::Name)
        } else if kind_at(t, ty) == Kind::TypeIdentifier {
            Some(ty)
        } else {
            None
        },
        None => None,
    }
}

/// The record tag a declaration's type names: `struct P p` and, for a typedef, `P p` name `P`.
pub open spec fn type_tag(t: TreeView, n: usize) -> Option<Seq<char>> {
    match type_tag_node(t, n) {
        Some(c) => Some(text_at(t, c)),
        None => None,
    }
}

/// The record tag a declaration's type names, if it names one.
pub fn declaration_type_tag(tree: &SyntaxTree, decl_node: usize) -> (tag: Option<&str>)
    requires
        decl_node < tree@.len(),
    ensures
        match tag {
            Some(s) => type_tag(tree@, decl_node) == Some(s@),
            None => type_tag(tree@, decl_node) is None,
        },
{
    let ty = match tree.field(decl_node, Field::Type) {
        Some(ty) => ty,
        None => {
            return None;
        },
    };
    let k = tree.kind(ty);
    if k == Kind::StructSpecifier || k == Kind::UnionSpecifier || k == Kind::ClassSpecifier {
        match tree.field(ty, Field::Name) {
            Some(n) => Some(tree.text(n)),
            None => None,
        }
    } else if k == Kind::TypeIdentifier {
        Some(tree.text(ty))
    } else {
        None
    }
}

/// The identifier a member declarator introduces, and whether the declarator is that identifier
/// alone, so that the member is stored inline.
pub open spec fn member_name(t: TreeView, n: usize) -> Option<(usize, bool)>
    decreases rest(t, n),
{
    let k = kind_at(t, n);
    if k == Kind::FieldIdentifier {
        Some((n, true))
    } else {
        let inner = if k == Kind::PointerDeclarator || k == Kind::ArrayDeclarator || k
            == Kind::FunctionDeclarator {
            field_child(t, n, Field::Declarator)
        } else if k == Kind::ParenthesizedDeclarator {
            named_child(t, n, 0)
        } else {
            None
        };
        match only_inside(t, n, inner) {
            Some(c) => match member_name(t, c) {
                Some(m) => Some((m.0, false)),
                None => None,
            },
            None => None,
        }
    }
}

/// The name a member declarator introduces, and whether it is a plain one.
pub fn declarator_member_name(tree: &SyntaxTree, decl: usize) -> (m: Option<(usize, bool)>)
    requires
        decl < tree@.len(),
    ensures
        m == member_name(tree@, decl),
        m matches Some(m) ==> m.0 < tree@.len(),
    decreases rest(tree@, decl),
{
    let k = tree.kind(decl);
    if k == Kind::FieldIdentifier {
        return Some((decl, true));
    }
    let inner = if k == Kind::PointerDeclarator || k == Kind::ArrayDeclarator || k
        == Kind::FunctionDeclarator {
        tree.field(decl, Field::Declarator)
    } else if k == Kind::ParenthesizedDeclarator {
        tree.named_child(decl, 0)
    } else {
        None
    };
    match inner {
        Some(c) => match declarator_member_name(tree, c) {
            Some(m) => Some((m.0, false)),
            None => None,
        },
        None => None,
    }
}

/// A data member of a record.
#[derive(Debug)]
pub struct MemberSlot {
    pub name: String,
    /// The tag of the member's own record type, for a member that is a record stored inline.
    pub type_tag: Option<String>,
}

/// View of a [`MemberSlot`].
pub ghost struct SlotView {
    pub name: Seq<char>,
    pub type_tag: Option<Seq<char>>,
}

impl View for MemberSlot {
    type V = SlotView;

    open spec fn view(&self) -> SlotView {
        SlotView {
            name: self.name@,
            type_tag: match self.type_tag {
                Some(s) => Some(s@),
                None => None,
            },
        }
    }
}

/// The data members of a record, in order.
#[derive(Debug)]
pub struct Layout {
    pub slots: Vec<MemberSlot>,
}

impl View for Layout {
    type V = Seq<SlotView>;

    open spec fn view(&self) -> Seq<SlotView> {
        views(self.slots@)
    }
}

impl Layout {
    /// Another layout that says the same.
    pub fn copied(&self) -> (l: Layout)
        ensures
            l@ == self@,
    {
        let mut slots: Vec<MemberSlot> = Vec::new();
        let mut i: usize = 0;
        while i < self.slots.len()
            invariant
                i <= self.slots@.len(),
                views(slots@) == views(self.slots@).take(i as int),
            decreases self.slots@.len() - i,
        {
            let s = &self.slots[i];
            slots.push(
                MemberSlot {
                    name: s.name.clone(),
                    type_tag: match &s.type_tag {
                        Some(tag) => Some(tag.clone()),
                        None => None,
                    },
                },
            );
            i = i + 1;
            assert(views(slots@) =~= views(self.slots@).take(i as int));
        }
        assert(views(slots@) =~= views(self.slots@));
        Layout { slots }
    }
}

/// Whether a member declarator declares a method rather than storage.
pub open spec fn is_method(t: TreeView, n: usize) -> bool {
    &&& kind_at(t, n) == Kind::FunctionDeclarator
    &&& field_child(t, n, Field::Declarator) matches Some(c)
    &&& kind_at(t, c) == Kind::FieldIdentifier
}

/// Whether a declaration is `static`.
pub open spec fn is_static(t: TreeView, n: usize) -> bool {
    exists|i: int|
        0 <= i < kids(t, n).len() && is_static_word(t, #[trigger] kids(t, n)[i])
}

/// Whether node `n` is the word `static`.
pub open spec fn is_static_word(t: TreeView, n: usize) -> bool {
    kind_at(t, n) == Kind::StorageClassSpecifier && text_at(t, n) == "static"@
}

/// `acc`, and the members that the declarators from number `i` on declare; `None` if one of them
/// names no single member.
pub open spec fn declared_slots(
    t: TreeView,
    decls: Seq<usize>,
    i: int,
    tag: Option<Seq<char>>,
    acc: Seq<SlotView>,
) -> Option<Seq<SlotView>>
    decreases decls.len() - i,
{
    if i < 0 || i >= decls.len() {
        Some(acc)
    } else if is_method(t, decls[i]) {
        declared_slots(t, decls, i + 1, tag, acc)
    } else {
        match member_name(t, decls[i]) {
            Some(m) => declared_slots(
                t,
                decls,
                i + 1,
                tag,
                acc.push(
                    SlotView {
                        name: text_at(t, m.0),
                        type_tag: if m.1 {
                            tag
                        } else {
                            None
                        },
                    },
                ),
            ),
            None => None,
        }
    }
}

/// `acc`, and the members that the declarations from number `i` on declare.
pub open spec fn body_slots(t: TreeView, decls: Seq<usize>, i: int, acc: Seq<SlotView>) -> Option<
    Seq<SlotView>,
>
    decreases decls.len() - i,
{
    if i < 0 || i >= decls.len() {
        Some(acc)
    } else if is_static(t, decls[i]) {
        body_slots(t, decls, i + 1, acc)
    } else {
        match declared_slots(
            t,
            field_children(t, decls[i], Field::Declarator),
            0,
            type_tag(t, decls[i]),
            acc,
        ) {
            Some(acc) => body_slots(t, decls, i + 1, acc),
            None => None,
        }
    }
}

/// The data members of a record definition, in order: `None` for a node that defines no record,
/// and for a record whose members cannot all be named.
pub open spec fn record_slots(t: TreeView, n: usize) -> Option<Seq<SlotView>> {
    if !record_kind(kind_at(t, n)) {
        None
    } else {
        match field_child(t, n, Field::Body) {
            Some(body) => body_slots(
                t,
                kids_of_kind(t, body, Kind::FieldDeclaration),
                0,
                Seq::empty(),
            ),
            None => None,
        }
    }
}

/// Whether a declaration is `static`.
pub fn has_static_specifier(tree: &SyntaxTree, n: usize) -> (b: bool)
    requires
        n < tree@.len(),
    ensures
        b == is_static(tree@, n),
{
    let children = tree.children(n);
    let mut i: usize = 0;
    while i < children.len()
        invariant
            i <= children@.len(),
            children@ == kids(tree@, n),
            forall|j: int| 0 <= j < children@.len() ==> inside(tree@, n, #[trigger] children@[j]),
            forall|j: int| 0 <= j < i ==> !is_static_word(tree@, #[trigger] children@[j]),
        decreases children@.len() - i,
    {
        let c = children[i];
        if tree.kind(c) == Kind::StorageClassSpecifier && same(tree.text(c), "static") {
            assert(is_static_word(tree@, kids(tree@, n)[i as int]));
            return true;
        }
        i = i + 1;
    }
    false
}

#[verifier::loop_isolation(false)]
fn push_declared_slots(tree: &SyntaxTree, field_decl: usize, members: &mut Vec<MemberSlot>) -> (ok:
    bool)
    requires
        field_decl < tree@.len(),
    ensures
        match declared_slots(
            tree@,
            field_children(tree@, field_decl, Field::Declarator),
            0,
            type_tag(tree@, field_decl),
            views(old(members)@),
        ) {
            Some(acc) => ok && views(final(members)@) == acc,
            None => !ok,
        },
{
    let ghost t = tree@;
    let ghost start = views(members@);
    let tag = declaration_type_tag(tree, field_decl);
    let ghost tv = type_tag(t, field_decl);
    let decls = tree.field_children(field_decl, Field::Declarator);
    let mut i: usize = 0;
    while i < decls.len()
        invariant
            i <= decls@.len(),
            t == tree@,
            tv == (match tag {
                Some(s) => Some(s@),
                None => None,
            }),
            forall|j: int| 0 <= j < decls@.len() ==> inside(t, field_decl, #[trigger] decls@[j]),
            declared_slots(t, decls@, i as int, tv, views(members@)) == declared_slots(
                t,
                decls@,
                0,
                tv,
                start,
            ),
        decreases decls@.len() - i,
    {
        let d = decls[i];
        let mut method = false;
        if tree.kind(d) == Kind::FunctionDeclarator {
            if let Some(c) = tree.field(d, Field::Declarator) {
                method = tree.kind(c) == Kind::FieldIdentifier;
            }
        }
        assert(method == is_method(t, d));
        if !method {
            match declarator_member_name(tree, d) {
                Some(m) => {
                    let type_tag = if m.1 {
                        match tag {
                            Some(s) => Some(String::from_str(s)),
                            None => None,
                        }
                    } else {
                        None
                    };
                    members.push(MemberSlot { name: String::from_str(tree.text(m.0)), type_tag });
                },
                None => {
                    return false;
                },
            }
        }
        i = i + 1;
    }
    true
}

/// The data members of a record definition, in order, each with the tag of its own record type
/// where it has one. `None` for a node that defines no record, or whose body cannot be read
/// completely: a partial layout would mis-map every element after the gap.
#[verifier::loop_isolation(false)]
pub fn record_member_slots(tree: &SyntaxTree, node: usize) -> (l: Option<Layout>)
    requires
        node < tree@.len(),
    ensures
        match l {
            Some(l) => record_slots(tree@, node) == Some(l@),
            None => record_slots(tree@, node) is None,
        },
{
    let ghost t = tree@;
    let k = tree.kind(node);
    if !(k == Kind::StructSpecifier || k == Kind::UnionSpecifier || k == Kind::ClassSpecifier) {
        return None;
    }
    let body = match tree.field(node, Field::Body) {
        Some(b) => b,
        None => {
            return None;
        },
    };
    let mut members: Vec<MemberSlot> = Vec::new();
    assert(views(members@) =~= Seq::<SlotView>::empty());
    let decls = tree.kids_of_kind(body, Kind::FieldDeclaration);
    let mut i: usize = 0;
    while i < decls.len()
        invariant
            i <= decls@.len(),
            t == tree@,
            forall|j: int| 0 <= j < decls@.len() ==> inside(t, body, #[trigger] decls@[j]),
            body_slots(t, decls@, i as int, views(members@)) == body_slots(
                t,
                decls@,
                0,
                Seq::empty(),
            ),
        decreases decls@.len() - i,
    {
        let d = decls[i];
        if !has_static_specifier(tree, d) {
            if !push_declared_slots(tree, d, &mut members) {
                return None;
            }
        }
        i = i + 1;
    }
    Some(Layout { slots: members })
}

/// Whether node `n` is a name used as a type: every type identifier is, except the tag of a record
/// or an enumeration, which is only reachable through the keyword.
pub open spec fn names_a_type(t: TreeView, n: usize) -> bool {
    &&& kind_at(t, n) == Kind::TypeIdentifier
    &&& !(t[n as int].parent matches Some(p) && is_tag_of(t, p, n))
}

/// Whether node `n` is the tag of the record or enumeration `p`.
pub open spec fn is_tag_of(t: TreeView, p: usize, n: usize) -> bool {
    &&& kind_at(t, p) == Kind::StructSpecifier || kind_at(t, p) == Kind::UnionSpecifier || kind_at(
        t,
        p,
    ) == Kind::EnumSpecifier
    &&& field_child(t, p, Field::Name) == Some(n)
}

/// Whether node `n` is a name used as a type.
pub fn is_type_name(tree: &SyntaxTree, n: usize) -> (b: bool)
    requires
        n < tree@.len(),
    ensures
        b == names_a_type(tree@, n),
{
    if tree.kind(n) != Kind::TypeIdentifier {
        return false;
    }
    match tree.parent(n) {
        Some(p) => {
            let k = tree.kind(p);
            if k == Kind::StructSpecifier || k == Kind::UnionSpecifier || k
                == Kind::EnumSpecifier {
                match tree.field(p, Field::Name) {
                    Some(c) => c != n,
                    None => true,
                }
            } else {
                true
            }
        },
        None => true,
    }
}

/// What declarations say about names.
pub ghost struct RegistryView {
    /// The layouts of records, by tag and by typedef name.
    pub layouts: Map<Seq<char>, Seq<SlotView>>,
    /// Every name used as a type.
    pub types: Set<Seq<char>>,
    /// The functions that are declared.
    pub declared: Set<Seq<char>>,
}

/// `declared`, and the functions that the declarators from number `i` on declare.
pub open spec fn with_prototypes(
    t: TreeView,
    decls: Seq<usize>,
    i: int,
    declared: Set<Seq<char>>,
) -> Set<Seq<char>>
    decreases decls.len() - i,
{
    if i < 0 || i >= decls.len() {
        declared
    } else {
        with_prototypes(
            t,
            decls,
            i + 1,
            match head_of(t, decls[i]) {
                Some(h) => declared.insert(text_at(t, h.name)),
                None => declared,
            },
        )
    }
}

/// `layouts`, with `slots` also under the typedef names from number `i` on.
pub open spec fn with_typedefs(
    t: TreeView,
    decls: Seq<usize>,
    i: int,
    slots: Seq<SlotView>,
    layouts: Map<Seq<char>, Seq<SlotView>>,
) -> Map<Seq<char>, Seq<SlotView>>
    decreases decls.len() - i,
{
    if i < 0 || i >= decls.len() {
        layouts
    } else {
        with_typedefs(
            t,
            decls,
            i + 1,
            slots,
            if kind_at(t, decls[i]) == Kind::TypeIdentifier {
                layouts.insert(text_at(t, decls[i]), slots)
            } else {
                layouts
            },
        )
    }
}

/// The layouts with the record that node `n` defines: under its tag, and under the names that a
/// typedef around it gives.
pub open spec fn with_record(
    t: TreeView,
    n: usize,
    layouts: Map<Seq<char>, Seq<SlotView>>,
) -> Map<Seq<char>, Seq<SlotView>> {
    match record_slots(t, n) {
        Some(slots) => {
            let tagged = match field_child(t, n, Field::Name) {
                Some(name) => layouts.insert(text_at(t, name), slots),
                None => layouts,
            };
            match t[n as int].parent {
                Some(p) => if kind_at(t, p) == Kind::TypeDefinition {
                    with_typedefs(t, field_children(t, p, Field::Declarator), 0, slots, tagged)
                } else {
                    tagged
                },
                None => tagged,
            }
        },
        None => layouts,
    }
}

/// What `reg` is after node `n` has been taken into account.
pub open spec fn registered(t: TreeView, n: usize, reg: RegistryView) -> RegistryView {
    RegistryView {
        layouts: with_record(t, n, reg.layouts),
        types: if names_a_type(t, n) {
            reg.types.insert(text_at(t, n))
        } else {
            reg.types
        },
        declared: if kind_at(t, n) == Kind::Declaration {
            with_prototypes(t, field_children(t, n, Field::Declarator), 0, reg.declared)
        } else {
            reg.declared
        },
    }
}

/// What is known about names after the first `m` nodes of a tree, where `known` was before.
pub open spec fn registry(t: TreeView, m: nat, known: RegistryView) -> RegistryView
    decreases m,
{
    if m == 0 {
        known
    } else {
        registered(t, (m - 1) as usize, registry(t, (m - 1) as nat, known))
    }
}

/// What is known about names after a translation unit, where `types` and `declared` were before.
/// The layouts are those of the unit alone.
pub open spec fn unit_registry(
    t: TreeView,
    types: Set<Seq<char>>,
    declared: Set<Seq<char>>,
) -> RegistryView {
    registry(t, t.len(), RegistryView { layouts: Map::empty(), types, declared })
}

fn register_typedefs(tree: &SyntaxTree, p: usize, slots: &Layout, table: &mut Table<Layout>)
    requires
        p < tree@.len(),
        old(table).wf(),
    ensures
        final(table).wf(),
        final(table)@ == with_typedefs(
            tree@,
            field_children(tree@, p, Field::Declarator),
            0,
            slots@,
            old(table)@,
        ),
{
    let ghost t = tree@;
    let ghost start = table@;
    let decls = tree.field_children(p, Field::Declarator);
    let mut i: usize = 0;
    while i < decls.len()
        invariant
            i <= decls@.len(),
            t == tree@,
            table.wf(),
            forall|j: int| 0 <= j < decls@.len() ==> inside(t, p, #[trigger] decls@[j]),
            with_typedefs(t, decls@, i as int, slots@, table@) == with_typedefs(
                t,
                decls@,
                0,
                slots@,
                start,
            ),
        decreases decls@.len() - i,
    {
        let d = decls[i];
        if tree.kind(d) == Kind::TypeIdentifier {
            table.insert(String::from_str(tree.text(d)), slots.copied());
        }
        i = i + 1;
    }
}

fn register_prototypes(tree: &SyntaxTree, n: usize, declared: &mut NameSet)
    requires
        n < tree@.len(),
    ensures
        final(declared)@ == with_prototypes(
            tree@,
            field_children(tree@, n, Field::Declarator),
            0,
            old(declared)@,
        ),
{
    let ghost t = tree@;
    let ghost start = declared@;
    let decls = tree.field_children(n, Field::Declarator);
    let mut i: usize = 0;
    while i < decls.len()
        invariant
            i <= decls@.len(),
            t == tree@,
            forall|j: int| 0 <= j < decls@.len() ==> inside(t, n, #[trigger] decls@[j]),
            with_prototypes(t, decls@, i as int, declared@) == with_prototypes(
                t,
                decls@,
                0,
                start,
            ),
        decreases decls@.len() - i,
    {
        if let Some(head) = function_head(tree, decls[i]) {
            declared.insert(String::from_str(tree.text(head.name)));
        }
        i = i + 1;
    }
}

/// What the declarations of a unit say about names: the layouts of its records, a tagged
/// definition under its tag and a typedef's record under the typedef name; its type names and its
/// prototypes are added to those of other units.
pub fn collect_registry(tree: &SyntaxTree, types: &mut NameSet, declared: &mut NameSet) -> (layouts:
    Table<Layout>)
    ensures
        layouts.wf(),
        (RegistryView { layouts: layouts@, types: final(types)@, declared: final(declared)@ })
            == unit_registry(tree@, old(types)@, old(declared)@),
{
    let ghost t = tree@;
    let mut layouts: Table<Layout> = Table::new();
    let ghost known = RegistryView { layouts: layouts@, types: types@, declared: declared@ };
    let len = tree.len();
    let mut n: usize = 0;
    while n < len
        invariant
            n <= len,
            len == t.len(),
            t == tree@,
            layouts.wf(),
            (RegistryView { layouts: layouts@, types: types@, declared: declared@ }) == registry(
                t,
                n as nat,
                known,
            ),
        decreases len - n,
    {
        if is_type_name(tree, n) {
            types.insert(String::from_str(tree.text(n)));
        }
        if tree.kind(n) == Kind::Declaration {
            register_prototypes(tree, n, declared);
        }
        if let Some(slots) = record_member_slots(tree, n) {
            if let Some(name) = tree.field(n, Field::Name) {
                layouts.insert(String::from_str(tree.text(name)), slots.copied());
            }
            if let Some(p) = tree.parent(n) {
                if tree.kind(p) == Kind::TypeDefinition {
                    register_typedefs(tree, p, &slots, &mut layouts);
                }
            }
        }
        n = n + 1;
        assert(registry(t, n as nat, known) == registered(
            t,
            (n - 1) as usize,
            registry(t, (n - 1) as nat, known),
        ));
    }
    layouts
}

// Expressions

/// The callee of a call without its redundant parentheses. Those of a statement expression are
/// part of it.
pub open spec fn bare_callee(t: TreeView, n: usize) -> usize
    decreases rest(t, n),
{
    if kind_at(t, n) == Kind::ParenthesizedExpression {
        match first_named_child(t, n) {
            Some(c) => if kind_at(t, c) != Kind::CompoundStatement {
                bare_callee(t, c)
            } else {
                n
            },
            None => n,
        }
    } else {
        n
    }
}

/// The callee of a call without its redundant parentheses is inside the callee.
pub proof fn a_bare_callee_is_inside(t: TreeView, n: usize)
    requires
        n < t.len(),
    ensures
        n <= bare_callee(t, n),
        bare_callee(t, n) < t.len(),
    decreases rest(t, n),
{
    if kind_at(t, n) == Kind::ParenthesizedExpression {
        match first_named_child(t, n) {
            Some(c) => {
                if kind_at(t, c) != Kind::CompoundStatement {
                    a_bare_callee_is_inside(t, c);
                }
            },
            None => {},
        }
    }
}

/// The callee of a call without its redundant parentheses: `(f)(x)` calls `f`.
pub fn unparenthesized_callee(tree: &SyntaxTree, n: usize) -> (c: usize)
    requires
        n < tree@.len(),
    ensures
        c == bare_callee(tree@, n),
        n <= c < tree@.len(),
{
    let mut node: usize = n;
    while tree.kind(node) == Kind::ParenthesizedExpression
        invariant
            n <= node < tree@.len(),
            bare_callee(tree@, node) == bare_callee(tree@, n),
        decreases rest(tree@, node),
    {
        match tree.first_named_child(node) {
            Some(inner) => {
                if tree.kind(inner) != Kind::CompoundStatement {
                    node = inner;
                } else {
                    return node;
                }
            },
            None => {
                return node;
            },
        }
    }
    node
}

/// Whether `n` is a statement expression, `({ s; value; })`, with its parentheses or without.
pub open spec fn statement_expression(t: TreeView, n: usize) -> bool {
    ||| kind_at(t, n) == Kind::CompoundStatement
    ||| kind_at(t, n) == Kind::ParenthesizedExpression && (first_named_child(t, n) matches Some(c)
        && kind_at(t, c) == Kind::CompoundStatement)
}

/// Whether `n` is a statement expression.
pub fn is_statement_expression(tree: &SyntaxTree, n: usize) -> (b: bool)
    requires
        n < tree@.len(),
    ensures
        b == statement_expression(tree@, n),
{
    let k = tree.kind(n);
    if k == Kind::CompoundStatement {
        true
    } else if k == Kind::ParenthesizedExpression {
        match tree.first_named_child(n) {
            Some(c) => tree.kind(c) == Kind::CompoundStatement,
            None => false,
        }
    } else {
        false
    }
}

/// Of some nodes, those from number `i` on that are not type descriptors.
pub open spec fn without_types(t: TreeView, nodes: Seq<usize>, i: int) -> Seq<usize>
    decreases nodes.len() - i,
{
    if i < 0 || i >= nodes.len() {
        Seq::empty()
    } else if kind_at(t, nodes[i]) != Kind::TypeDescriptor {
        seq![nodes[i]] + without_types(t, nodes, i + 1)
    } else {
        without_types(t, nodes, i + 1)
    }
}

/// The controlling expression of a generic selection, and the values of its associations.
pub open spec fn generic_parts(t: TreeView, n: usize) -> (Option<usize>, Seq<usize>) {
    let nodes = plain_children(t, n);
    (
        only_inside(
            t,
            n,
            if nodes.len() > 0 {
                Some(nodes[0])
            } else {
                None
            },
        ),
        without_types(t, nodes, 1),
    )
}

/// The controlling expression of a generic selection, and the values of its associations: the
/// grammar lists them without roles, types and values alternating.
pub fn generic_selection_parts(tree: &SyntaxTree, n: usize) -> (p: (Option<usize>, Vec<usize>))
    requires
        n < tree@.len(),
    ensures
        (p.0, p.1@) == generic_parts(tree@, n),
        forall|i: int| 0 <= i < p.1@.len() ==> inside(tree@, n, #[trigger] p.1@[i]),
{
    let nodes = tree.plain_children(n);
    let mut values: Vec<usize> = Vec::new();
    let mut i: usize = 1;
    assert(values@ + without_types(tree@, nodes@, 1) =~= without_types(tree@, nodes@, 1));
    while i < nodes.len()
        invariant
            1 <= i,
            forall|j: int| 0 <= j < nodes@.len() ==> inside(tree@, n, #[trigger] nodes@[j]),
            forall|j: int| 0 <= j < values@.len() ==> inside(tree@, n, #[trigger] values@[j]),
            values@ + without_types(tree@, nodes@, i as int) == without_types(tree@, nodes@, 1),
        decreases nodes@.len() - i,
    {
        let ghost before = values@;
        if tree.kind(nodes[i]) != Kind::TypeDescriptor {
            values.push(nodes[i]);
        }
        assert(values@ + without_types(tree@, nodes@, i + 1) =~= before + without_types(
            tree@,
            nodes@,
            i as int,
        ));
        i = i + 1;
    }
    assert(values@ =~= without_types(tree@, nodes@, 1));
    let controlling = if nodes.len() > 0 {
        Some(nodes[0])
    } else {
        None
    };
    (controlling, values)
}

/// The operands in one of the lists of an inline-assembly expression.
pub open spec fn asm_operands(t: TreeView, n: usize, f: Field) -> Seq<usize> {
    match field_child(t, n, f) {
        Some(list) => field_children(t, list, Field::Operand),
        None => Seq::empty(),
    }
}

/// The operands in one of the lists of an inline-assembly expression.
pub fn gnu_asm_operands(tree: &SyntaxTree, n: usize, f: Field) -> (v: Vec<usize>)
    requires
        n < tree@.len(),
    ensures
        v@ == asm_operands(tree@, n, f),
        forall|i: int|
            0 <= i < v@.len() ==> inside(tree@, n, #[trigger] v@[i])
                && tree@[v@[i] as int].field == Field::Operand,
{
    match tree.field(n, f) {
        Some(list) => {
            let v = tree.field_children(list, Field::Operand);
            proof {
                crate::syntax::field_children_have_the_role(tree@, list, Field::Operand);
            }
            v
        },
        None => {
            let v: Vec<usize> = Vec::new();
            assert(v@ =~= Seq::<usize>::empty());
            v
        },
    }
}

/// Whether an output operand is also read: its constraint holds a `+`.
pub open spec fn asm_readwrite(t: TreeView, n: usize) -> bool {
    field_child(t, n, Field::Constraint) matches Some(c) && text_at(t, c).contains('+')
}

/// Whether an output operand is also read.
pub fn gnu_asm_operand_is_readwrite(tree: &SyntaxTree, n: usize) -> (b: bool)
    requires
        n < tree@.len(),
    ensures
        b == asm_readwrite(tree@, n),
{
    match tree.field(n, Field::Constraint) {
        Some(c) => holds_char(tree.text(c), '+'),
        None => false,
    }
}

// Parse recovery

/// The innermost unparsable node around `n`, or else the innermost block around it, if that one
/// did not parse.
pub open spec fn recovery_above(t: TreeView, n: usize) -> Option<usize>
    decreases n,
{
    if n >= t.len() {
        None
    } else {
        match t[n as int].parent {
            Some(p) => if p >= n || p >= t.len() {
                None
            } else if t[p as int].error {
                Some(p)
            } else if t[p as int].kind == Kind::CompoundStatement {
                if t[p as int].has_error {
                    Some(p)
                } else {
                    None
                }
            } else {
                recovery_above(t, p)
            },
            None => None,
        }
    }
}

/// The parse-recovery region `n` belongs to, or `None` if it was made of source that parsed
/// cleanly.
pub open spec fn recovery(t: TreeView, n: usize) -> Option<usize> {
    if t[n as int].error {
        Some(n)
    } else {
        recovery_above(t, n)
    }
}

/// The parse-recovery region `n` belongs to: a syntax error leaves an error node over text that
/// could not be parsed, and well-formed nodes in places where they do not belong.
#[verifier::loop_isolation(false)]
pub fn recovery_region(tree: &SyntaxTree, n: usize) -> (r: Option<usize>)
    requires
        n < tree@.len(),
    ensures
        r == recovery(tree@, n),
{
    if tree.is_error(n) {
        return Some(n);
    }
    let mut cur: usize = n;
    loop
        invariant
            cur < tree@.len(),
            recovery_above(tree@, cur) == recovery_above(tree@, n),
        decreases cur,
    {
        match tree.parent(cur) {
            Some(p) => {
                if tree.is_error(p) {
                    return Some(p);
                }
                if tree.kind(p) == Kind::CompoundStatement {
                    return if tree.has_error(p) {
                        Some(p)
                    } else {
                        None
                    };
                }
                cur = p;
            },
            None => {
                return None;
            },
        }
    }
}

} // verus!
