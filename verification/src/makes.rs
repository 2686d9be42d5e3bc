//! What expressions and declarations make.
//!
//! The laws below are about new objects, compound literals, calls that are casts, what is known of a
//! declared variable, and the operands of an inline assembly.

use vstd::prelude::*;
use crate::carries::{lemma_loads, lemma_named, placed};
use crate::classes::{class_at, mangled};
use crate::error::ErrorView;
use crate::kinds::{Field, Kind};
use crate::lives::{calls, lemma_run};
use crate::lowering::{allocated, asm_inputs, asm_outputs, braced, call, cast_operands, cast_shaped, class_named, compound_literal, constructor_arguments, ctor_call, declared, expr, exprs, heap_object, layout_of, leaf_name, location, member_from, object_declared, plain_call, vexing_argument, vexing_arguments};
use crate::mir::{ExpView, PathView};
use crate::scope::{meaning, with_variable, VarKind};
use crate::shapes::{array_rank, kind_at, text_at, type_tag, SlotView};
use crate::state::{declare, intern, named, read, temp_name, temp_named, State};
use crate::syntax::{field_child, first_named_child, inside, kids_of_kind, lemma_kids_where, named_children, part, plain_children, NodeView, TreeView};

verus! {

// Casts

/// A name in parentheses with an operand is a cast, if the name is used as a type and is not that of a
/// variable or a function: its value is that of the operand.
pub proof fn a_call_of_a_type_is_a_cast(
    t: TreeView,
    st: State,
    n: usize,
    callee: usize,
    inner: usize,
    list: usize,
    c: usize,
)
    requires
        kind_at(t, n) == Kind::CallExpression,
        field_child(t, n, Field::Function) == Some(callee),
        kind_at(t, callee) == Kind::ParenthesizedExpression,
        first_named_child(t, callee) == Some(inner),
        kind_at(t, inner) == Kind::Identifier || kind_at(t, inner) == Kind::TypeIdentifier,
        field_child(t, n, Field::Arguments) == Some(list),
        plain_children(t, list) == seq![c],
        meaning(st.scopes, st.at.sidx, text_at(t, inner)) is None,
        !st.env.functions.contains_key(text_at(t, inner)),
        !st.env.declared.contains(text_at(t, inner)),
        st.env.types.contains(text_at(t, inner)),
    ensures
        expr(t, st, n).1 is Ok <==> expr(t, st, c).1 is Ok,
        expr(t, st, n) == expr(t, st, c),
{
    reveal(expr);
    reveal(call);
    reveal(cast_shaped);
    reveal(cast_operands);
    lemma_kids_where(t, list, 0, |v: NodeView| v.named && v.kind != Kind::Comment);
    let nodes = plain_children(t, list);
    assert(nodes[0] == c);
    assert(inside(t, list, c));
    assert(inside(t, n, list));
    assert(inside(t, n, c));
    assert(first_named_child(t, list) == Some(c));
    reveal_with_fuel(crate::shapes::bare_callee, 2);
    assert(crate::shapes::bare_callee(t, callee) == inner);
    assert(crate::lowering::method_at(t, st, n) is None);
    assert(cast_shaped(t, st, n) == (st, Ok::<Option<usize>, ErrorView>(Some(list))));
    assert(expr(t, st, n) == call(t, st, n));
    let e = expr(t, st, c);
    assert(call(t, st, n) == cast_operands(t, st, n, nodes, 0, ExpView::Str(""@)));
    if let Ok(v) = e.1 {
        assert(cast_operands(t, e.0, n, nodes, 1, v) == (e.0, Ok::<ExpView, ErrorView>(v)));
        assert(cast_operands(t, st, n, nodes, 0, ExpView::Str(""@)) == cast_operands(
            t,
            e.0,
            n,
            nodes,
            1,
            v,
        ));
    }
}

/// A name in parentheses that is that of a variable or a function is called.
pub proof fn a_known_function_in_parentheses_is_called(
    t: TreeView,
    st: State,
    n: usize,
    callee: usize,
    inner: usize,
)
    requires
        kind_at(t, n) == Kind::CallExpression,
        field_child(t, n, Field::Function) == Some(callee),
        kind_at(t, callee) == Kind::ParenthesizedExpression,
        first_named_child(t, callee) == Some(inner),
        kind_at(t, inner) == Kind::Identifier || kind_at(t, inner) == Kind::TypeIdentifier,
        meaning(st.scopes, st.at.sidx, text_at(t, inner)) is Some || st.env.functions.contains_key(
            text_at(t, inner),
        ) || st.env.declared.contains(text_at(t, inner)),
    ensures
        expr(t, st, n) == plain_call(t, st, n),
{
    reveal(expr);
    reveal(call);
    reveal(cast_shaped);
    reveal_with_fuel(crate::shapes::bare_callee, 2);
    assert(crate::shapes::bare_callee(t, callee) == inner);
    assert(crate::lowering::method_at(t, st, n) is None);
    assert(expr(t, st, n) == call(t, st, n));
}

// Literals

/// A compound literal is a new variable, which its braces initialize as one of its type.
pub proof fn a_compound_literal_is_a_variable(
    t: TreeView,
    st: State,
    n: usize,
    ty: usize,
    value: usize,
    u: State,
)
    requires
        kind_at(t, n) == Kind::CompoundLiteralExpression,
        field_child(t, n, Field::Type) == Some(ty),
        field_child(t, n, Field::Value) == Some(value),
        ({
            let p = named(temp_named(st), temp_name(st.temps));
            let own = match type_tag(t, ty) {
                Some(tag) => if st.env.layouts.contains_key(tag) {
                    Some(st.env.layouts[tag])
                } else {
                    None
                },
                None => None,
            };
            let dims = match field_child(t, ty, Field::Declarator) {
                Some(d) => array_rank(t, d),
                None => 0,
            };
            braced(t, p.0, value, p.1, own, dims) == (u, Ok::<(), ErrorView>(()))
        }),
    ensures
        expr(t, st, n).0 == intern(u, temp_name(st.temps)).0,
        expr(t, st, n).1 == Ok::<ExpView, ErrorView>(
            ExpView::Variable(intern(u, temp_name(st.temps)).1),
        ),
{
    reveal(expr);
    reveal(compound_literal);
    assert(expr(t, st, n) == compound_literal(t, st, n));
}

// New objects

/// A `new` of an object of a class with a constructor makes a variable of its own, and calls the
/// constructor with as many parameters as there are arguments, on the object and with all of them.
pub proof fn a_new_object_is_constructed(
    t: TreeView,
    st: State,
    n: usize,
    ty: usize,
    list: usize,
    u: State,
    values: Seq<ExpView>,
)
    requires
        field_child(t, n, Field::Type) == Some(ty),
        field_child(t, n, Field::Declarator) is None,
        field_child(t, n, Field::Placement) is None,
        field_child(t, n, Field::Arguments) == Some(list),
        kind_at(t, list) == Kind::ArgumentList || kind_at(t, list) == Kind::InitializerList,
        exprs(t, st, n, named_children(t, list), 0, Seq::empty()) == (
            u,
            Ok::<Seq<ExpView>, ErrorView>(values),
        ),
        class_at(u.env.tables.classes, text_at(t, ty)) matches Some(info) && info.has_ctor,
        placed(u),
    ensures
        ({
            let class = text_at(t, ty);
            let obj = temp_name(u.temps);
            let s = State {
                scopes: with_variable(u.scopes, u.at.sidx, obj, VarKind::Local),
                objects: crate::objects::ObjectsView {
                    types: u.objects.types.insert(obj, class),
                    ..u.objects
                },
                ..temp_named(u)
            };
            let v = read(named(s, obj).0, named(s, obj).1);
            let r = allocated(t, st, n);
            exists|w: State|
                {
                    &&& #[trigger] calls(
                        v.0,
                        w,
                        seq![
                            mangled(
                                u.env.tables.overloads,
                                class + "::"@ + class,
                                values.len() as usize,
                            ),
                        ],
                        seq![v.1] + values,
                    )
                    &&& w.objects == s.objects
                    &&& r.0 == named(w, obj).0
                    &&& r.1 == Ok::<Option<PathView>, ErrorView>(Some(named(w, obj).1))
                }
        }),
{
    reveal(allocated);
    reveal(declare);
    reveal(ctor_call);
    reveal(temp_named);
    let class = text_at(t, ty);
    let obj = temp_name(u.temps);
    let d = declare(temp_named(u), obj, VarKind::Local);
    let s = State { objects: d.objects.typed(obj, class), ..d };
    lemma_named(s, obj);
    let p = named(s, obj);
    lemma_loads(p.0, p.1);
    let v = read(p.0, p.1);
    let targets = seq![mangled(u.env.tables.overloads, class + "::"@ + class, values.len() as usize)];
    lemma_run(v.0, targets, seq![v.1] + values);
    let w = ctor_call(s, class, obj, values);
    assert(calls(v.0, w, targets, seq![v.1] + values));
}

/// A declaration of a pointer to a new object has the name of the pointer stand for the object.
pub proof fn a_pointer_to_a_new_object_stands_for_it(
    t: TreeView,
    st: State,
    n: usize,
    class: Seq<char>,
    d: usize,
    inner: usize,
    leaf: usize,
    v: usize,
    u: State,
    p: PathView,
)
    requires
        field_child(t, n, Field::Declarator) == Some(d),
        kind_at(t, d) == Kind::InitDeclarator,
        field_child(t, d, Field::Declarator) == Some(inner),
        field_child(t, d, Field::Value) == Some(v),
        kind_at(t, v) == Kind::NewExpression,
        leaf_name(t, inner) == Some(leaf),
        allocated(t, st, v) == (u, Ok::<Option<PathView>, ErrorView>(Some(p))),
    ensures
        ({
            let r = heap_object(t, st, n, class);
            &&& r.1 == Ok::<bool, ErrorView>(true)
            &&& r.0.objects.refs == u.objects.refs.insert(text_at(t, leaf), p)
            &&& r.0.objects.types == u.objects.types.insert(text_at(t, leaf), class)
            &&& r.0.objects.frames == u.objects.frames
            &&& r.0 == State { objects: r.0.objects, ..u }
        }),
{
    reveal(heap_object);
    reveal(allocated);
    assert(inside(t, n, d));
    assert(inside(t, d, v));
    assert(inside(t, n, v));
}

/// The arguments of a constructor are those in the parentheses or the braces of the initializer, or in
/// the call of the class that it is; any other initializer is none.
pub proof fn a_constructor_takes_what_its_initializer_holds(
    t: TreeView,
    v: usize,
    f: usize,
    list: usize,
    class: Seq<char>,
)
    ensures
        kind_at(t, v) == Kind::ArgumentList || kind_at(t, v) == Kind::InitializerList
            ==> constructor_arguments(t, v, class) == Some(named_children(t, v)),
        kind_at(t, v) == Kind::CallExpression && field_child(t, v, Field::Function) == Some(f)
            && field_child(t, v, Field::Arguments) == Some(list) && kind_at(t, f)
            == Kind::Identifier && text_at(t, f) == class ==> constructor_arguments(t, v, class)
            == Some(named_children(t, list)),
        kind_at(t, v) == Kind::CallExpression && field_child(t, v, Field::Function) == Some(f) && (
        kind_at(t, f) != Kind::Identifier || text_at(t, f) != class) ==> constructor_arguments(
            t,
            v,
            class,
        ) is None,
        kind_at(t, v) == Kind::Identifier || kind_at(t, v) == Kind::NumberLiteral || kind_at(t, v)
            == Kind::BinaryExpression ==> constructor_arguments(t, v, class) is None,
{
}

/// An argument that was read as a parameter declaration: a type alone is a name, and has its value.
pub proof fn a_type_for_an_argument_is_a_name(t: TreeView, st: State, n: usize, ty: usize)
    requires
        field_child(t, n, Field::Type) == Some(ty),
        field_child(t, n, Field::Declarator) is None,
    ensures
        ({
            let p = named(st, text_at(t, ty));
            let v = read(p.0, p.1);
            vexing_argument(t, st, n) == (v.0, Ok::<ExpView, ErrorView>(v.1))
        }),
{
    reveal(vexing_argument);
}

/// An argument that was read as a declaration of a function is a call: of the name of the type, with
/// the values of what was read as the parameters.
pub proof fn a_function_type_for_an_argument_is_a_call(
    t: TreeView,
    st: State,
    n: usize,
    ty: usize,
    d: usize,
    list: usize,
    u: State,
    values: Seq<ExpView>,
)
    requires
        field_child(t, n, Field::Type) == Some(ty),
        field_child(t, n, Field::Declarator) == Some(d),
        kind_at(t, d) == Kind::AbstractFunctionDeclarator,
        field_child(t, d, Field::Parameters) == Some(list),
        vexing_arguments(
            t,
            st,
            n,
            kids_of_kind(t, list, Kind::ParameterDeclaration),
            0,
            Seq::empty(),
        ) == (u, Ok::<Seq<ExpView>, ErrorView>(values)),
        placed(u),
    ensures
        exists|w: State|
            {
                &&& #[trigger] calls(u, w, seq![text_at(t, ty)], values)
                &&& ({
                    let p = named(w, temp_name(u.temps));
                    let v = read(p.0, p.1);
                    vexing_argument(t, st, n) == (v.0, Ok::<ExpView, ErrorView>(v.1))
                })
            },
{
    reveal(vexing_argument);
    reveal(vexing_arguments);
    let targets = seq![text_at(t, ty)];
    lemma_run(u, targets, values);
    let w = crate::lowering::run(u, targets, values);
    assert(calls(u, w, targets, values));
}

/// The arguments that were read as declarations are lowered one after the other, and none is left out.
pub proof fn such_arguments_are_lowered_in_order(
    t: TreeView,
    st: State,
    n: usize,
    nodes: Seq<usize>,
    i: int,
    values: Seq<ExpView>,
    u: State,
    v: ExpView,
)
    requires
        0 <= i < nodes.len(),
        inside(t, n, nodes[i]),
        vexing_argument(t, st, nodes[i]) == (u, Ok::<ExpView, ErrorView>(v)),
    ensures
        vexing_arguments(t, st, n, nodes, i, values) == vexing_arguments(
            t,
            u,
            n,
            nodes,
            i + 1,
            values.push(v),
        ),
        vexing_arguments(t, st, n, nodes, nodes.len() as int, values) == (
            st,
            Ok::<Seq<ExpView>, ErrorView>(values),
        ),
{
    reveal(vexing_arguments);
    reveal(vexing_argument);
}

// Variables

/// A variable of a union type is known to be one; another leaves what is known as it is.
pub proof fn a_union_is_known_as_one(t: TreeView, st: State, n: usize, d: usize, ident: usize, ty: usize)
    requires
        field_child(t, d, Field::Value) is None,
        kind_at(t, ident) == Kind::Identifier,
        field_child(t, n, Field::Type) == Some(ty),
    ensures
        ({
            let name = text_at(t, ident);
            let s = State {
                scopes: with_variable(st.scopes, st.at.sidx, name, VarKind::Local),
                ..st
            };
            let r = declared(t, st, n, d, ident);
            &&& r.1 is Ok
            &&& r.0.scopes == s.scopes
            &&& kind_at(t, ty) == Kind::UnionSpecifier ==> r.0.unions == st.unions.insert(
                named(s, name).1.base,
            )
            &&& kind_at(t, ty) != Kind::UnionSpecifier ==> r.0 == s
        }),
{
    reveal(declared);
    reveal(declare);
    let s = declare(st, text_at(t, ident), VarKind::Local);
    lemma_named(s, text_at(t, ident));
}

/// The class of a declared variable is known by its name; only an object itself, and no pointer to one,
/// is one of the scope, to be destroyed with it.
pub proof fn a_declared_object_is_known(
    t: TreeView,
    st: State,
    n: usize,
    d: usize,
    leaf: usize,
    class: Seq<char>,
)
    requires
        class_named(t, st, n) == Some(class),
        leaf_name(t, d) == Some(leaf),
        st.objects.frames.len() > 0,
    ensures
        ({
            let r = object_declared(t, st, n, d);
            let name = text_at(t, leaf);
            &&& r.objects.types == st.objects.types.insert(name, class)
            &&& kind_at(t, d) == Kind::Identifier ==> r.objects.frames.last()
                == st.objects.frames.last().push((name, class))
            &&& kind_at(t, d) == Kind::PointerDeclarator || kind_at(t, d)
                == Kind::ReferenceDeclarator || kind_at(t, d) == Kind::ArrayDeclarator
                ==> r.objects.frames == st.objects.frames
            &&& r == State { objects: r.objects, ..st }
        }),
{
    reveal(object_declared);
}

/// The class of a declaration is the one that its type names, by its tag, by the name of a type or by a
/// qualified name, if there is such a class.
pub proof fn a_type_names_its_class(t: TreeView, st: State, n: usize, ty: usize)
    requires
        field_child(t, n, Field::Type) == Some(ty),
    ensures
        (kind_at(t, ty) == Kind::TypeIdentifier || kind_at(t, ty) == Kind::QualifiedIdentifier) && (
        class_at(st.env.tables.classes, text_at(t, ty)) is Some) ==> class_named(t, st, n) == Some(
            text_at(t, ty),
        ),
        (kind_at(t, ty) == Kind::StructSpecifier || kind_at(t, ty) == Kind::ClassSpecifier)
            && field_child(t, ty, Field::Name) is Some && class_at(
            st.env.tables.classes,
            text_at(t, field_child(t, ty, Field::Name)->0),
        ) is Some ==> class_named(t, st, n) == Some(
            text_at(t, field_child(t, ty, Field::Name)->0),
        ),
        class_named(t, st, n) matches Some(c) ==> class_at(st.env.tables.classes, c) is Some,
{
}

/// The layout that a tag names is the one that is known under it.
pub proof fn a_tag_names_its_layout(st: State, tag: Seq<char>)
    ensures
        st.env.layouts.contains_key(tag) ==> layout_of(st, Some(tag)) == Some(st.env.layouts[tag]),
        !st.env.layouts.contains_key(tag) ==> layout_of(st, Some(tag)) is None,
        layout_of(st, None) is None,
{
}

/// A member of a record is the first of that name.
pub proof fn a_member_is_the_first_of_its_name(members: Seq<SlotView>, i: int, k: int)
    requires
        0 <= i <= k < members.len(),
        forall|j: int| i <= j < k ==> (#[trigger] members[j]).name != members[k].name,
    ensures
        member_from(members, i, members[k].name) == Some(members[k]),
    decreases members.len() - i,
{
    if i < k {
        assert(members[i].name != members[k].name);
        a_member_is_the_first_of_its_name(members, i + 1, k);
    }
}

// Inline assembly

/// The inputs of an inline assembly are lowered one after the other; each is one of its sources.
pub proof fn every_input_is_a_source(
    t: TreeView,
    st: State,
    n: usize,
    nodes: Seq<usize>,
    i: int,
    sources: Seq<ExpView>,
    c: usize,
    u: State,
    v: ExpView,
)
    requires
        0 <= i < nodes.len(),
        inside(t, n, nodes[i]),
        field_child(t, nodes[i], Field::Value) == Some(c),
        expr(t, st, c) == (u, Ok::<ExpView, ErrorView>(v)),
    ensures
        asm_inputs(t, st, n, nodes, i, sources) == asm_inputs(
            t,
            u,
            n,
            nodes,
            i + 1,
            sources.push(v),
        ),
        asm_inputs(t, st, n, nodes, nodes.len() as int, sources) == (
            st,
            Ok::<Seq<ExpView>, ErrorView>(sources),
        ),
{
    reveal(asm_inputs);
    reveal(expr);
    assert(part(t, nodes[i], Field::Value) == c);
}

/// The outputs of an inline assembly are lowered one after the other; each is one of its targets, and
/// one that is also read is a source.
pub proof fn every_output_is_a_target(
    t: TreeView,
    st: State,
    n: usize,
    nodes: Seq<usize>,
    i: int,
    sources: Seq<ExpView>,
    targets: Seq<PathView>,
    c: usize,
    u: State,
    p: PathView,
)
    requires
        0 <= i < nodes.len(),
        inside(t, n, nodes[i]),
        field_child(t, nodes[i], Field::Value) == Some(c),
        location(t, st, c) == (u, Ok::<PathView, ErrorView>(p)),
    ensures
        ({
            let r = asm_outputs(t, st, n, nodes, i, sources, targets);
            let reads = field_child(t, nodes[i], Field::Constraint) matches Some(k) && text_at(
                t,
                k,
            ).contains('+');
            &&& !reads ==> r == asm_outputs(t, u, n, nodes, i + 1, sources, targets.push(p))
            &&& reads ==> r == asm_outputs(
                t,
                read(u, p).0,
                n,
                nodes,
                i + 1,
                sources.push(read(u, p).1),
                targets.push(p),
            )
            &&& asm_outputs(t, st, n, nodes, nodes.len() as int, sources, targets) == (
                st,
                Ok::<(Seq<ExpView>, Seq<PathView>), ErrorView>((sources, targets)),
            )
        }),
{
    reveal(asm_outputs);
}

} // verus!
