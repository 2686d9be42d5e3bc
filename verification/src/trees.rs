//! What a syntax tree holds.
//!
//! The laws below relate the nodes of a tree to the rows that they are read from, and the ways to pick
//! children of a node to the list of its children.

use vstd::prelude::*;
use crate::kinds::{field_of, kind_of, Field, Kind};
use crate::mir::{AddressView, ExpView, PathView, SegmentView, StatementKindView, TerminatorView};
use crate::state::{emit, fresh, intern, link, load_steps, loads, read, return_implicitly, State};
use crate::syntax::{child_at, children_before, field_child, field_children, first_named_child, inside, kids, kids_of_kind, kids_where, last_at_depth, named_child, named_children, paren_inner, parent_of, part, plain_children, subscript_index, text_between, tree_of, NodeView, RowView, TreeView};
use crate::text::{squeezed, trim_left, trim_right, trimmed, white_space};

verus! {

// Words

/// How the grammar spells a kind.
pub open spec fn kind_word(x: Kind) -> Option<Seq<char>> {
    match x {
        Kind::CompoundStatement => Some("compound_statement"@),
        Kind::EmptyStatement => Some("empty_statement"@),
        Kind::ExpressionStatement => Some("expression_statement"@),
        Kind::FunctionDefinition => Some("function_definition"@),
        Kind::Declaration => Some("declaration"@),
        Kind::Comment => Some("comment"@),
        Kind::AssignmentExpression => Some("assignment_expression"@),
        Kind::UpdateExpression => Some("update_expression"@),
        Kind::ParenthesizedExpression => Some("parenthesized_expression"@),
        Kind::IfStatement => Some("if_statement"@),
        Kind::WhileStatement => Some("while_statement"@),
        Kind::DoStatement => Some("do_statement"@),
        Kind::ForStatement => Some("for_statement"@),
        Kind::SwitchStatement => Some("switch_statement"@),
        Kind::ReturnStatement => Some("return_statement"@),
        Kind::BreakStatement => Some("break_statement"@),
        Kind::ContinueStatement => Some("continue_statement"@),
        Kind::GotoStatement => Some("goto_statement"@),
        Kind::LabeledStatement => Some("labeled_statement"@),
        Kind::CaseStatement => Some("case_statement"@),
        Kind::InitializerList => Some("initializer_list"@),
        Kind::InitializerPair => Some("initializer_pair"@),
        Kind::InitDeclarator => Some("init_declarator"@),
        Kind::Identifier => Some("identifier"@),
        Kind::FunctionDeclarator => Some("function_declarator"@),
        Kind::PointerDeclarator => Some("pointer_declarator"@),
        Kind::ParenthesizedDeclarator => Some("parenthesized_declarator"@),
        Kind::ArrayDeclarator => Some("array_declarator"@),
        Kind::GnuAsmExpression => Some("gnu_asm_expression"@),
        Kind::UnionSpecifier => Some("union_specifier"@),
        Kind::StructSpecifier => Some("struct_specifier"@),
        Kind::ClassSpecifier => Some("class_specifier"@),
        Kind::EnumSpecifier => Some("enum_specifier"@),
        Kind::TypeIdentifier => Some("type_identifier"@),
        Kind::FieldDeclaration => Some("field_declaration"@),
        Kind::StorageClassSpecifier => Some("storage_class_specifier"@),
        Kind::FieldIdentifier => Some("field_identifier"@),
        Kind::TypeDefinition => Some("type_definition"@),
        Kind::AbstractArrayDeclarator => Some("abstract_array_declarator"@),
        Kind::AbstractParenthesizedDeclarator => Some("abstract_parenthesized_declarator"@),
        Kind::AbstractPointerDeclarator => Some("abstract_pointer_declarator"@),
        Kind::AbstractFunctionDeclarator => Some("abstract_function_declarator"@),
        Kind::ParameterDeclaration => Some("parameter_declaration"@),
        Kind::CommaExpression => Some("comma_expression"@),
        Kind::NumberLiteral => Some("number_literal"@),
        Kind::StringLiteral => Some("string_literal"@),
        Kind::CharLiteral => Some("char_literal"@),
        Kind::ConcatenatedString => Some("concatenated_string"@),
        Kind::TrueLiteral => Some("true"@),
        Kind::FalseLiteral => Some("false"@),
        Kind::NullLiteral => Some("null"@),
        Kind::UnaryExpression => Some("unary_expression"@),
        Kind::BinaryExpression => Some("binary_expression"@),
        Kind::FieldExpression => Some("field_expression"@),
        Kind::PointerExpression => Some("pointer_expression"@),
        Kind::SubscriptExpression => Some("subscript_expression"@),
        Kind::CallExpression => Some("call_expression"@),
        Kind::CastExpression => Some("cast_expression"@),
        Kind::SizeofExpression => Some("sizeof_expression"@),
        Kind::AlignofExpression => Some("alignof_expression"@),
        Kind::CompoundLiteralExpression => Some("compound_literal_expression"@),
        Kind::ConditionalExpression => Some("conditional_expression"@),
        Kind::GenericExpression => Some("generic_expression"@),
        Kind::TypeDescriptor => Some("type_descriptor"@),
        Kind::ArgumentList => Some("argument_list"@),
        Kind::PrimitiveType => Some("primitive_type"@),
        Kind::QualifiedIdentifier => Some("qualified_identifier"@),
        Kind::DestructorName => Some("destructor_name"@),
        Kind::ReferenceDeclarator => Some("reference_declarator"@),
        Kind::BaseClassClause => Some("base_class_clause"@),
        Kind::FieldInitializerList => Some("field_initializer_list"@),
        Kind::FieldInitializer => Some("field_initializer"@),
        Kind::NamespaceDefinition => Some("namespace_definition"@),
        Kind::Virtual => Some("virtual"@),
        Kind::VirtualSpecifier => Some("virtual_specifier"@),
        Kind::DeclarationList => Some("declaration_list"@),
        Kind::FieldDeclarationList => Some("field_declaration_list"@),
        Kind::NamespaceIdentifier => Some("namespace_identifier"@),
        Kind::NewExpression => Some("new_expression"@),
        Kind::DeleteExpression => Some("delete_expression"@),
        Kind::TypeQualifier => Some("type_qualifier"@),
        Kind::This => Some("this"@),
        Kind::ParameterList => Some("parameter_list"@),
        Kind::Semicolon => Some(";"@),
        Kind::OpenParen => Some("("@),
        Kind::Assign => Some("="@),
        Kind::EqualEqual => Some("=="@),
        Kind::LessEqual => Some("<="@),
        Kind::GreaterEqual => Some(">="@),
        Kind::Error => Some("ERROR"@),
        Kind::Other => None,
    }
}

/// How the grammar spells a role.
pub open spec fn role_word(x: Field) -> Option<Seq<char>> {
    match x {
        Field::Declarator => Some("declarator"@),
        Field::Type => Some("type"@),
        Field::Name => Some("name"@),
        Field::Body => Some("body"@),
        Field::Parameters => Some("parameters"@),
        Field::Value => Some("value"@),
        Field::Designator => Some("designator"@),
        Field::Label => Some("label"@),
        Field::Condition => Some("condition"@),
        Field::Consequence => Some("consequence"@),
        Field::Alternative => Some("alternative"@),
        Field::Initializer => Some("initializer"@),
        Field::Update => Some("update"@),
        Field::Left => Some("left"@),
        Field::Right => Some("right"@),
        Field::Operator => Some("operator"@),
        Field::Argument => Some("argument"@),
        Field::Member => Some("field"@),
        Field::Index => Some("index"@),
        Field::Function => Some("function"@),
        Field::Arguments => Some("arguments"@),
        Field::OutputOperands => Some("output_operands"@),
        Field::InputOperands => Some("input_operands"@),
        Field::Operand => Some("operand"@),
        Field::Constraint => Some("constraint"@),
        Field::GotoLabels => Some("goto_labels"@),
        Field::Scope => Some("scope"@),
        Field::Indices => Some("indices"@),
        Field::Placement => Some("placement"@),
        Field::NoField => None,
    }
}

/// A node is of the kind that its word spells, and a word that spells a kind is never of no kind; so it
/// is with the roles.
pub proof fn a_word_spells_its_kind(name: Seq<char>, k: Kind, f: Field)
    ensures
        kind_of(name) != Kind::Other ==> kind_word(kind_of(name)) == Some(name),
        kind_word(k) == Some(name) ==> kind_of(name) != Kind::Other,
        field_of(name) != Field::NoField ==> role_word(field_of(name)) == Some(name),
        role_word(f) == Some(name) ==> field_of(name) != Field::NoField,
{
}

// Children

proof fn lemma_picked(t: TreeView, n: usize, i: int, p: spec_fn(NodeView) -> bool)
    requires
        0 <= i <= kids(t, n).len(),
    ensures
        kids_where(t, n, i, p) == kids(t, n).skip(i).filter(
            |c: usize| inside(t, n, c) && p(t[c as int]),
        ),
    decreases kids(t, n).len() - i,
{
    let q = |c: usize| inside(t, n, c) && p(t[c as int]);
    let all = kids(t, n);
    if i < all.len() {
        lemma_picked(t, n, i + 1, p);
        let one = seq![all[i]];
        assert(all.skip(i) =~= one + all.skip(i + 1));
        Seq::filter_distributes_over_add(one, all.skip(i + 1), q);
        reveal_with_fuel(Seq::filter, 2);
        assert(one.drop_last() =~= Seq::<usize>::empty());
        assert(one.drop_last().filter(q) =~= Seq::<usize>::empty());
        assert(one.last() == all[i]);
        let first = one.filter(q);
        assert(first =~= if q(all[i]) {
            one
        } else {
            Seq::empty()
        });
        assert(kids_where(t, n, i, p) =~= first + all.skip(i + 1).filter(q));
    } else {
        assert(all.skip(i) =~= Seq::<usize>::empty());
        reveal(Seq::filter);
    }
}

/// The children that are picked are those among all children that are below the node and are named,
/// are named and no comments, are of a kind, or have a role; in order.
pub proof fn children_are_picked_from_the_list(t: TreeView, n: usize, k: Kind, f: Field)
    requires
        n < t.len(),
    ensures
        named_children(t, n) == t[n as int].children.filter(
            |c: usize| inside(t, n, c) && t[c as int].named,
        ),
        plain_children(t, n) == t[n as int].children.filter(
            |c: usize|
                inside(t, n, c) && (t[c as int].named && t[c as int].kind != Kind::Comment),
        ),
        kids_of_kind(t, n, k) == t[n as int].children.filter(
            |c: usize| inside(t, n, c) && t[c as int].kind == k,
        ),
        field_children(t, n, f) == t[n as int].children.filter(
            |c: usize| inside(t, n, c) && t[c as int].field == f,
        ),
{
    let all = kids(t, n);
    assert(all.skip(0) =~= all);
    let a = |v: NodeView| v.named;
    let b = |v: NodeView| v.named && v.kind != Kind::Comment;
    let c = |v: NodeView| v.kind == k;
    let d = |v: NodeView| v.field == f;
    lemma_picked(t, n, 0, a);
    lemma_picked(t, n, 0, b);
    lemma_picked(t, n, 0, c);
    lemma_picked(t, n, 0, d);
    lemma_same_filter(
        all,
        |c: usize| inside(t, n, c) && a(t[c as int]),
        |c: usize| inside(t, n, c) && t[c as int].named,
    );
    lemma_same_filter(
        all,
        |c: usize| inside(t, n, c) && b(t[c as int]),
        |c: usize| inside(t, n, c) && (t[c as int].named && t[c as int].kind != Kind::Comment),
    );
    lemma_same_filter(
        all,
        |x: usize| inside(t, n, x) && c(t[x as int]),
        |c: usize| inside(t, n, c) && t[c as int].kind == k,
    );
    lemma_same_filter(
        all,
        |c: usize| inside(t, n, c) && d(t[c as int]),
        |c: usize| inside(t, n, c) && t[c as int].field == f,
    );
}

proof fn lemma_same_filter(s: Seq<usize>, p: spec_fn(usize) -> bool, q: spec_fn(usize) -> bool)
    requires
        forall|x: usize| #[trigger] p(x) == q(x),
    ensures
        s.filter(p) == s.filter(q),
    decreases s.len(),
{
    reveal(Seq::filter);
    if s.len() > 0 {
        lemma_same_filter(s.drop_last(), p, q);
        assert(p(s.last()) == q(s.last()));
    }
}

proof fn lemma_first_picked(t: TreeView, n: usize, i: int, k: int, p: spec_fn(NodeView) -> bool)
    requires
        0 <= i <= k < kids(t, n).len(),
        inside(t, n, kids(t, n)[k]),
        p(t[kids(t, n)[k] as int]),
        forall|j: int|
            i <= j < k ==> !(inside(t, n, #[trigger] kids(t, n)[j]) && p(t[kids(t, n)[j] as int])),
    ensures
        kids_where(t, n, i, p).len() > 0,
        kids_where(t, n, i, p)[0] == kids(t, n)[k],
    decreases kids(t, n).len() - i,
{
    if i < k {
        assert(!(inside(t, n, kids(t, n)[i]) && p(t[kids(t, n)[i] as int])));
        lemma_first_picked(t, n, i + 1, k, p);
    }
}

/// The child in a role is the first of the children below the node that has it.
pub proof fn the_child_in_a_role_is_the_first(t: TreeView, n: usize, f: Field, k: int)
    requires
        n < t.len(),
        0 <= k < t[n as int].children.len(),
        inside(t, n, t[n as int].children[k]),
        t[t[n as int].children[k] as int].field == f,
        forall|j: int|
            0 <= j < k ==> !(inside(t, n, #[trigger] t[n as int].children[j])
                && t[t[n as int].children[j] as int].field == f),
    ensures
        field_child(t, n, f) == Some(t[n as int].children[k]),
        part(t, n, f) == t[n as int].children[k],
{
    lemma_first_picked(t, n, 0, k, |v: NodeView| v.field == f);
}

/// A node has a child in a role only if one of its children has the role.
pub proof fn a_child_in_a_role_has_it(t: TreeView, n: usize, f: Field, c: usize)
    requires
        field_child(t, n, f) == Some(c),
    ensures
        n < t.len(),
        inside(t, n, c),
        t[c as int].field == f,
        t[n as int].children.contains(c),
{
    crate::syntax::field_children_have_the_role(t, n, f);
    let s = field_children(t, n, f);
    assert(s[0] == c);
    if n < t.len() {
        children_are_picked_from_the_list(t, n, Kind::Other, f);
        let q = |c: usize| inside(t, n, c) && t[c as int].field == f;
        lemma_filter_member(t[n as int].children, q, c);
    }
}

proof fn lemma_filter_member(s: Seq<usize>, p: spec_fn(usize) -> bool, c: usize)
    requires
        s.filter(p).contains(c),
    ensures
        s.contains(c),
    decreases s.len(),
{
    reveal(Seq::filter);
    if s.len() > 0 {
        let front = s.drop_last();
        if front.filter(p).contains(c) {
            lemma_filter_member(front, p, c);
            let i = choose|i: int| 0 <= i < front.len() && front[i] == c;
            assert(s[i] == c);
        } else {
            let i = choose|i: int| 0 <= i < s.filter(p).len() && s.filter(p)[i] == c;
            assert(p(s.last()));
            if i < front.filter(p).len() {
                assert(front.filter(p)[i] == c);
            }
            assert(s[s.len() - 1] == c);
        }
    }
}

/// The children that are looked up by number: the named ones, the first that is no comment, and what
/// stands between parentheses, which is the second of all.
pub proof fn children_are_numbered_in_order(t: TreeView, n: usize, i: int)
    requires
        n < t.len(),
    ensures
        0 <= i < t[n as int].children.len() && inside(t, n, t[n as int].children[i]) ==> child_at(
            t,
            n,
            i,
        ) == Some(t[n as int].children[i]),
        !(0 <= i < t[n as int].children.len()) ==> child_at(t, n, i) is None,
        0 <= i < named_children(t, n).len() ==> named_child(t, n, i) == Some(
            named_children(t, n)[i],
        ),
        plain_children(t, n).len() > 0 ==> first_named_child(t, n) == Some(
            plain_children(t, n)[0],
        ),
        plain_children(t, n).len() == 0 ==> first_named_child(t, n) is None,
        t[n as int].children.len() > 1 && inside(t, n, t[n as int].children[1]) ==> paren_inner(
            t,
            n,
        ) == t[n as int].children[1],
{
    crate::syntax::lemma_kids_where(t, n, 0, |v: NodeView| v.named);
    crate::syntax::lemma_kids_where(
        t,
        n,
        0,
        |v: NodeView| v.named && v.kind != Kind::Comment,
    );
}

/// The index of a subscript is what is in its list of indices, the first of them, or the part that is
/// its index.
pub proof fn an_index_is_the_first_of_its_list(t: TreeView, n: usize, list: usize, c: usize)
    ensures
        field_child(t, n, Field::Indices) == Some(list) && named_child(t, list, 0) == Some(c)
            ==> subscript_index(t, n) == Some(c),
        field_child(t, n, Field::Indices) is None && field_child(t, n, Field::Index) == Some(c)
            ==> subscript_index(t, n) == Some(c),
        field_child(t, n, Field::Indices) is None && field_child(t, n, Field::Index) is None
            ==> subscript_index(t, n) is None,
{
}

// Rows

/// A node says what its row says; its text is what the row covers of the source, trimmed.
pub proof fn a_node_says_what_its_row_says(source: Seq<char>, rows: Seq<RowView>, i: int)
    requires
        0 <= i < rows.len(),
    ensures
        ({
            let v = tree_of(source, rows)[i];
            let r = rows[i];
            &&& tree_of(source, rows).len() == rows.len()
            &&& v.kind == kind_of(r.kind)
            &&& v.kind_name == r.kind
            &&& v.text == trimmed(text_between(source, r.start, r.end))
            &&& v.named == r.named
            &&& v.error == r.error
            &&& v.has_error == r.has_error
            &&& v.start == r.start
            &&& v.end == r.end
            &&& v.line == r.line
            &&& r.field is None ==> v.field == Field::NoField
            &&& r.field matches Some(w) ==> v.field == field_of(w)
        }),
{
}

proof fn lemma_last_at_depth(rows: Seq<RowView>, i: int, d: int)
    requires
        0 <= i <= rows.len() <= usize::MAX,
    ensures
        last_at_depth(rows, i, d) matches Some(p) ==> p < i && rows[p as int].depth == d && forall|
            j: int,
        |
            p < j < i ==> (#[trigger] rows[j]).depth != d,
        last_at_depth(rows, i, d) is None ==> forall|j: int|
            0 <= j < i ==> (#[trigger] rows[j]).depth != d,
    decreases i,
{
    if i > 0 && rows[i - 1].depth != d {
        lemma_last_at_depth(rows, i - 1, d);
    }
}

/// The parent of a node is the nearest node before it that is one level up.
pub proof fn a_parent_is_the_nearest_one_level_up(
    source: Seq<char>,
    rows: Seq<RowView>,
    i: int,
    p: usize,
)
    requires
        0 < i < rows.len() <= usize::MAX,
    ensures
        tree_of(source, rows)[i].parent == Some(p) <==> p < i && rows[p as int].depth
            == rows[i].depth - 1 && forall|j: int|
            p < j < i ==> (#[trigger] rows[j]).depth != rows[i].depth - 1,
        tree_of(source, rows)[0].parent is None,
{
    let d = rows[i].depth - 1;
    lemma_last_at_depth(rows, i, d);
    if p < i && rows[p as int].depth == d && (forall|j: int|
        p < j < i ==> (#[trigger] rows[j]).depth != d) {
        match last_at_depth(rows, i, d) {
            Some(q) => {
                if q < p {
                    assert(rows[p as int].depth != d);
                }
                if p < q {
                    assert(rows[q as int].depth != d);
                }
            },
            None => {
                assert(rows[p as int].depth != d);
            },
        }
    }
}

proof fn lemma_children_before(rows: Seq<RowView>, n: usize, m: int)
    requires
        0 <= m <= rows.len() <= usize::MAX,
    ensures
        forall|c: usize|
            #[trigger] children_before(rows, n, m).contains(c) <==> c < m && parent_of(
                rows,
                c as int,
            ) == Some(n),
        forall|i: int, j: int|
            0 <= i < j < children_before(rows, n, m).len() ==> #[trigger] children_before(
                rows,
                n,
                m,
            )[i] < #[trigger] children_before(rows, n, m)[j],
    decreases m,
{
    if m > 0 {
        lemma_children_before(rows, n, m - 1);
        let earlier = children_before(rows, n, m - 1);
        let now = children_before(rows, n, m);
        let last = (m - 1) as usize;
        if parent_of(rows, m - 1) == Some(n) {
            assert(now == earlier.push(last));
            assert forall|c: usize| #[trigger] now.contains(c) <==> c < m && parent_of(
                rows,
                c as int,
            ) == Some(n) by {
                if now.contains(c) {
                    let i = choose|i: int| 0 <= i < now.len() && now[i] == c;
                    if i < earlier.len() {
                        assert(earlier[i] == c);
                        assert(earlier.contains(c));
                    }
                }
                if c < m && parent_of(rows, c as int) == Some(n) {
                    if c == last {
                        assert(now[earlier.len() as int] == c);
                    } else {
                        assert(earlier.contains(c));
                        let i = choose|i: int| 0 <= i < earlier.len() && earlier[i] == c;
                        assert(now[i] == c);
                    }
                }
            }
            assert forall|i: int, j: int| 0 <= i < j < now.len() implies #[trigger] now[i]
                < #[trigger] now[j] by {
                if j == earlier.len() {
                    assert(earlier[i] == now[i]);
                    assert(earlier.contains(now[i]));
                }
            }
        }
    }
}

/// The children of a node are the nodes whose parent it is, in the order of the source.
pub proof fn the_children_are_those_whose_parent_it_is(
    source: Seq<char>,
    rows: Seq<RowView>,
    n: usize,
    c: usize,
)
    requires
        n < rows.len() <= usize::MAX,
    ensures
        ({
            let t = tree_of(source, rows);
            &&& t[n as int].children.contains(c) <==> c < t.len() && t[c as int].parent == Some(n)
            &&& forall|i: int, j: int|
                0 <= i < j < t[n as int].children.len() ==> #[trigger] t[n as int].children[i]
                    < #[trigger] t[n as int].children[j]
        }),
{
    lemma_children_before(rows, n, rows.len() as int);
}

// Texts

/// Trimming takes the white space at either end away, and nothing else.
pub proof fn trimming_takes_only_white_space(a: Seq<char>, s: Seq<char>, b: Seq<char>)
    requires
        forall|i: int| 0 <= i < a.len() ==> white_space(#[trigger] a[i]),
        forall|i: int| 0 <= i < b.len() ==> white_space(#[trigger] b[i]),
        s.len() > 0,
        !white_space(s[0]),
        !white_space(s.last()),
    ensures
        trimmed(a + s + b) == s,
{
    lemma_trim_left(a, s + b);
    assert(a + s + b =~= a + (s + b));
    lemma_trim_right(s, b);
}

proof fn lemma_trim_left(a: Seq<char>, s: Seq<char>)
    requires
        forall|i: int| 0 <= i < a.len() ==> white_space(#[trigger] a[i]),
        s.len() > 0,
        !white_space(s[0]),
    ensures
        trim_left(a + s) == s,
    decreases a.len(),
{
    if a.len() == 0 {
        assert(a + s =~= s);
    } else {
        let later = a.drop_first();
        assert forall|i: int| 0 <= i < later.len() implies white_space(#[trigger] later[i]) by {
            assert(later[i] == a[i + 1]);
        }
        assert((a + s)[0] == a[0]);
        assert((a + s).drop_first() =~= later + s);
        lemma_trim_left(later, s);
    }
}

proof fn lemma_trim_right(s: Seq<char>, b: Seq<char>)
    requires
        forall|i: int| 0 <= i < b.len() ==> white_space(#[trigger] b[i]),
        s.len() > 0,
        !white_space(s.last()),
    ensures
        trim_right(s + b) == s,
    decreases b.len(),
{
    if b.len() == 0 {
        assert(s + b =~= s);
    } else {
        let front = b.drop_last();
        assert forall|i: int| 0 <= i < front.len() implies white_space(#[trigger] front[i]) by {
            assert(front[i] == b[i]);
        }
        assert((s + b).last() == b[b.len() - 1]);
        assert((s + b).drop_last() =~= s + front);
        lemma_trim_right(s, front);
    }
}

/// Squeezing keeps every character that is no white space, and leaves no white space but single spaces
/// between them.
pub proof fn squeezing_keeps_the_words(s: Seq<char>)
    ensures
        squeezed(s).filter(|c: char| !white_space(c)) == s.filter(|c: char| !white_space(c)),
        forall|i: int|
            0 <= i < squeezed(s).len() && white_space(#[trigger] squeezed(s)[i]) ==> squeezed(s)[i]
                == ' ' && 0 < i < squeezed(s).len() - 1 && !white_space(squeezed(s)[i - 1])
                && !white_space(squeezed(s)[i + 1]),
    decreases s.len(),
{
    let p = |c: char| !white_space(c);
    reveal(Seq::filter);
    if s.len() > 0 {
        squeezing_keeps_the_words(s.drop_last());
        let b = squeezed(s.drop_last());
        let c = s.last();
        let r = squeezed(s);
        if !white_space(c) {
            if b.len() > 0 && white_space(s[s.len() - 2]) {
                let m = b.push(' ');
                assert(white_space(' '));
                assert(r == m.push(c));
                assert(r.drop_last() =~= m);
                assert(m.drop_last() =~= b);
                assert(m.filter(p) == b.filter(p));
                assert(!white_space(b[b.len() - 1]));
                assert forall|i: int| 0 <= i < r.len() && white_space(#[trigger] r[i]) implies r[i]
                    == ' ' && 0 < i < r.len() - 1 && !white_space(r[i - 1]) && !white_space(
                    r[i + 1],
                ) by {
                    if i < b.len() {
                        assert(r[i] == b[i]);
                        assert(white_space(b[i]));
                        assert(r[i - 1] == b[i - 1]);
                        assert(r[i + 1] == b[i + 1]);
                    } else {
                        assert(i == b.len());
                        assert(r[i - 1] == b[b.len() - 1]);
                        assert(r[i + 1] == c);
                    }
                }
            } else {
                assert(r == b.push(c));
                assert(r.drop_last() =~= b);
                assert forall|i: int| 0 <= i < r.len() && white_space(#[trigger] r[i]) implies r[i]
                    == ' ' && 0 < i < r.len() - 1 && !white_space(r[i - 1]) && !white_space(
                    r[i + 1],
                ) by {
                    assert(r[i] == b[i]);
                    assert(white_space(b[i]));
                    assert(r[i - 1] == b[i - 1]);
                    assert(r[i + 1] == b[i + 1]);
                }
            }
        }
    }
}

// Paths

proof fn lemma_steps_pushed(
    st: State,
    base: crate::mir::VariableRef,
    offsets: Seq<i64>,
    q: Seq<SegmentView>,
    s: SegmentView,
    i: int,
)
    requires
        0 <= i <= q.len(),
    ensures
        ({
            let a = load_steps(st, base, offsets, q, i);
            let r = load_steps(st, base, offsets, q.push(s), i);
            match s {
                SegmentView::Offset(n) => r == (
                    a.0,
                    AddressView { base: a.1.base, offsets: a.1.offsets.push(n) },
                ),
                SegmentView::Symbol(f) => {
                    let v = fresh(a.0);
                    r == (
                        emit(
                            v.0,
                            StatementKindView::Load { dest: v.1, address: a.1, field: f },
                        ),
                        AddressView { base: v.1, offsets: Seq::empty() },
                    )
                },
            }
        }),
    decreases q.len() - i,
{
    let all = q.push(s);
    if i < q.len() {
        assert(all[i] == q[i]);
        match q[i] {
            SegmentView::Offset(n) => {
                lemma_steps_pushed(st, base, offsets.push(n), q, s, i + 1);
            },
            SegmentView::Symbol(f) => {
                let v = fresh(st);
                let next = emit(
                    v.0,
                    StatementKindView::Load {
                        dest: v.1,
                        address: AddressView { base, offsets },
                        field: f,
                    },
                );
                lemma_steps_pushed(next, v.1, Seq::empty(), q, s, i + 1);
            },
        }
    } else {
        assert(all[i] == s);
        reveal_with_fuel(load_steps, 2);
    }
}

/// A path is followed segment by segment: an offset moves the address, and a field is loaded from the
/// address so far into a new variable, which is the address from there on.
pub proof fn a_path_is_followed_segment_by_segment(st: State, p: PathView, s: SegmentView)
    ensures
        ({
            let a = loads(st, p);
            let q = PathView { base: p.base, fields: p.fields.push(s) };
            match s {
                SegmentView::Offset(n) => loads(st, q) == (
                    a.0,
                    AddressView { base: a.1.base, offsets: a.1.offsets.push(n) },
                ),
                SegmentView::Symbol(f) => {
                    let v = fresh(a.0);
                    loads(st, q) == (
                        emit(
                            v.0,
                            StatementKindView::Load { dest: v.1, address: a.1, field: f },
                        ),
                        AddressView { base: v.1, offsets: Seq::empty() },
                    )
                },
            }
        }),
        p.fields.len() == 0 ==> loads(st, p) == (
            st,
            AddressView { base: p.base, offsets: Seq::empty() },
        ),
{
    reveal(loads);
    lemma_steps_pushed(st, p.base, Seq::empty(), p.fields, s, 0);
}

/// The value of a path is what its address holds: a variable itself, or the place at the offsets of
/// one.
pub proof fn the_value_of_a_path_is_at_its_address(st: State, p: PathView)
    ensures
        ({
            let a = loads(st, p);
            &&& read(st, p).0 == a.0
            &&& a.1.offsets.len() == 0 ==> read(st, p).1 == ExpView::Variable(a.1.base)
            &&& a.1.offsets.len() > 0 ==> read(st, p).1 == ExpView::AccessPath(a.1)
        }),
{
}

// Ends

/// A return that the source does not spell out: of nothing, where the function returns nothing, and
/// else of as many values as it returns, all of which are a variable that nothing writes.
pub proof fn an_implicit_return_returns_what_is_due(st: State, b: usize)
    requires
        b < st.fun.blocks.len(),
    ensures
        ({
            let r = return_implicitly(st, b);
            let v = intern(st, "<implicit-return>"@).1;
            &&& r.fun.blocks.len() == st.fun.blocks.len()
            &&& r.fun.blocks[b as int].terminator matches Some(TerminatorView::Return(values))
            &&& values.len() == st.fun.return_arity
            &&& forall|i: int| 0 <= i < values.len() ==> #[trigger] values[i] == ExpView::Variable(v)
            &&& r.fun.blocks[b as int].statements == st.fun.blocks[b as int].statements
            &&& forall|i: int|
                0 <= i < st.fun.blocks.len() && i != b ==> #[trigger] r.fun.blocks[i]
                    == st.fun.blocks[i]
        }),
{
    reveal(return_implicitly);
    reveal(intern);
}

/// A link adds a way on to a block, after those that it has, and changes nothing else; a block that
/// returns keeps its return.
pub proof fn a_link_adds_a_way_on(st: State, from: usize, to: usize)
    requires
        from < st.fun.blocks.len(),
        !(st.fun.blocks[from as int].terminator matches Some(TerminatorView::Return(_))),
    ensures
        ({
            let r = link(st, from, to);
            let ways = match st.fun.blocks[from as int].terminator {
                Some(TerminatorView::Goto(targets)) => targets,
                _ => Seq::empty(),
            };
            &&& r.1 is Ok
            &&& r.0.fun.blocks[from as int].terminator == Some(TerminatorView::Goto(ways.push(to)))
            &&& r.0.fun.blocks[from as int].statements == st.fun.blocks[from as int].statements
            &&& forall|i: int|
                0 <= i < st.fun.blocks.len() && i != from ==> #[trigger] r.0.fun.blocks[i]
                    == st.fun.blocks[i]
            &&& r.0.fun.blocks.len() == st.fun.blocks.len()
        }),
{
    reveal(link);
    assert(Seq::<usize>::empty().push(to) =~= seq![to]);
}

} // verus!
