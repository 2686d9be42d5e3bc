//! What expressions reach.
//!
//! The laws below say which object a constant address, a statement expression or a parenthesized place
//! is, what an update of a field writes, on which object a method is called, and what parts of a
//! statement its clauses are.

use vstd::prelude::*;
use crate::carries::{here, last_made, lemma_called, lemma_emit, lemma_intern, lemma_loads, lemma_temp, one_more, placed, unclaimed};
use crate::classes::{class_at, method_class};
use crate::error::ErrorView;
use crate::kinds::{Field, Kind};
use crate::lowering::{address_of, asm_inputs, asm_jumps, asm_outputs, asm_transfer, assembly, block_effects, block_place, call, call_style, called, cast_shaped, clause, dereferenced, expr, exprs, incremented, location, method_at, method_of, nested_declarator, object_place, plain_call, pointer, receiver, receiver_class, through_call, update, value_of};
use crate::mir::{CallStyleView, ExpView, PathView, SegmentView, StatementKindView, VariableRef};
use crate::scope::{with_variable, VarKind};
use crate::shapes::{asm_operands, generic_parts, kind_at, text_at, without_types};
use crate::state::{assign, declare, emit, intern, loads, named, read, temp_name, temp_named, ScopeView, State};
use crate::syntax::{child_at, field_child, field_children, inside, named_children, plain_children, TreeView};

verus! {

// Places

/// A dereference of a constant that is cast to a pointer is the object at that address: the constant
/// names it, as a global.
pub proof fn a_constant_address_is_an_object(
    t: TreeView,
    st: State,
    n: usize,
    arg: usize,
    op: usize,
    s: State,
    c: Seq<char>,
)
    requires
        kind_at(t, n) == Kind::PointerExpression,
        field_child(t, n, Field::Argument) == Some(arg),
        field_child(t, n, Field::Operator) == Some(op),
        text_at(t, op) == "*"@,
        kind_at(t, arg) == Kind::CastExpression,
        expr(t, st, arg) == (s, Ok::<ExpView, ErrorView>(ExpView::Str(c))),
        c.len() > 0,
    ensures
        ({
            let p = PathView {
                base: VariableRef::Global,
                fields: seq![SegmentView::Symbol("<address "@ + c + ">"@)],
            };
            &&& location(t, st, arg) == (s, Ok::<PathView, ErrorView>(p))
            &&& location(t, st, n) == (s, Ok::<PathView, ErrorView>(p))
            &&& expr(t, st, n) == (read(s, p).0, Ok::<ExpView, ErrorView>(read(s, p).1))
        }),
{
    reveal(location);
    reveal(expr);
    reveal(pointer);
    reveal(dereferenced);
    reveal(address_of);
    assert(expr(t, st, n) == pointer(t, st, n));
    assert(crate::lowering::has_operator(t, n, "*"@));
    let p = crate::paths::literal_address(c);
    assert(location(t, st, arg) == (s, Ok::<PathView, ErrorView>(p)));
    assert(location(t, st, n) == (s, Ok::<PathView, ErrorView>(p)));
    let r = dereferenced(t, s, n, ExpView::Str(c));
    assert(r == read(s, p));
    assert(pointer(t, st, n) == (r.0, Ok::<ExpView, ErrorView>(r.1)));
}

/// Parentheses around a place are the place.
pub proof fn a_place_in_parentheses_is_the_place(t: TreeView, st: State, n: usize, c: usize)
    requires
        kind_at(t, n) == Kind::ParenthesizedExpression || kind_at(t, n)
            == Kind::ParenthesizedDeclarator,
        child_at(t, n, 1) == Some(c),
    ensures
        location(t, st, n) == location(t, st, c),
{
    reveal(location);
}

/// An expression that names no place itself, such as a call, is the place of the variable that its
/// value is.
pub proof fn a_value_in_a_variable_is_a_place(t: TreeView, st: State, n: usize, s: State, v: VariableRef)
    requires
        kind_at(t, n) == Kind::CallExpression || kind_at(t, n) == Kind::CastExpression || kind_at(
            t,
            n,
        ) == Kind::ConditionalExpression || kind_at(t, n) == Kind::BinaryExpression || kind_at(t, n)
            == Kind::AssignmentExpression,
        expr(t, st, n) == (s, Ok::<ExpView, ErrorView>(ExpView::Variable(v))),
    ensures
        location(t, st, n) == (
            s,
            Ok::<PathView, ErrorView>(PathView { base: v, fields: Seq::empty() }),
        ),
{
    reveal(location);
    reveal(expr);
}

/// A statement expression is the place of what it ends with, lowered after its statements; the scope of
/// these ends with it.
pub proof fn a_statement_expression_is_the_place_it_ends_with(
    t: TreeView,
    st: State,
    n: usize,
    l: usize,
    c: usize,
    s: State,
    u: State,
    p: PathView,
)
    requires
        kind_at(t, n) == Kind::CompoundStatement,
        plain_children(t, n).len() > 0,
        plain_children(t, n).last() == l,
        inside(t, n, l),
        kind_at(t, l) == Kind::ExpressionStatement,
        child_at(t, l, 0) == Some(c),
        !crate::shapes::empty_kind(kind_at(t, c)),
        block_effects(t, st, n) == (s, Ok::<(), ErrorView>(())),
        location(t, s, c) == (u, Ok::<PathView, ErrorView>(p)),
    ensures
        location(t, st, n).1 == Ok::<PathView, ErrorView>(p),
        location(t, st, n).0 == (State {
            at: ScopeView { sidx: st.at.sidx, ..u.at },
            span: st.span,
            ..u
        }),
{
    reveal(location);
    reveal(block_place);
    reveal(block_effects);
    assert(inside(t, n, c));
    assert(location(t, st, n) == block_place(t, st, n));
}

/// An increment or decrement of a field makes a temporary of what was read there, and stores it back.
pub proof fn an_update_of_a_field_stores_it_back(
    t: TreeView,
    st: State,
    n: usize,
    arg: usize,
    s: State,
    p: PathView,
    f: Seq<char>,
)
    requires
        kind_at(t, n) == Kind::UpdateExpression,
        field_child(t, n, Field::Argument) == Some(arg),
        location(t, st, arg) == (s, Ok::<PathView, ErrorView>(p)),
        p.fields.len() > 0,
        p.fields.last() == SegmentView::Symbol(f),
        placed(s),
        unclaimed(read(s, p).0, temp_name(read(s, p).0.temps)),
    ensures
        ({
            let cur = read(s, p);
            let e = expr(t, st, n);
            let d = intern(temp_named(cur.0), temp_name(cur.0.temps)).1;
            let k = here(cur.0).len() as int;
            &&& e.1 == Ok::<ExpView, ErrorView>(ExpView::Variable(d))
            &&& here(cur.0).is_prefix_of(here(e.0))
            &&& here(e.0).len() > k + 1
            &&& here(e.0)[k].kind == (StatementKindView::Assign {
                dest: d,
                args: seq![cur.1, ExpView::Str("1"@)],
            })
            &&& last_made(e.0) matches StatementKindView::Store { field, value, .. }
            &&& field == f
            &&& value == ExpView::Variable(d)
        }),
{
    reveal(expr);
    reveal(update);
    reveal(incremented);
    reveal(location);
    lemma_loads(s, p);
    let cur = read(s, p);
    let w = temp_named(cur.0);
    let name = temp_name(cur.0.temps);
    lemma_temp(w, cur.0.temps);
    lemma_intern(w, name);
    let temp = named(w, name);
    let a = StatementKindView::Assign {
        dest: temp.1.base,
        args: seq![cur.1, ExpView::Str("1"@)],
    };
    lemma_emit(temp.0, a);
    let m = assign(temp.0, temp.1, cur.1, Some(ExpView::Str("1"@)));
    assert(m == emit(temp.0, a)) by {
        reveal(assign);
    }
    let v = ExpView::Variable(temp.1.base);
    let q = PathView { base: p.base, fields: p.fields.drop_last() };
    lemma_loads(m, q);
    let l = loads(m, q);
    let b = StatementKindView::Store { address: l.1, field: f, value: v };
    lemma_emit(l.0, b);
    let z = assign(m, p, v, None);
    assert(z == emit(l.0, b)) by {
        reveal(assign);
        assert(crate::state::store_fields(p.fields) == p.fields);
    }
    assert(incremented(s, p) == (z, v));
    assert(expr(t, st, n) == update(t, st, n));
    assert(update(t, st, n) == (z, Ok::<ExpView, ErrorView>(v)));
    let k = here(cur.0).len() as int;
    assert(here(temp.0) == here(cur.0));
    assert(here(m)[k].kind == a);
    assert(here(m).len() == k + 1);
    assert(here(l.0).len() >= k + 1);
    assert(here(z).len() > k + 1);
    assert(here(z)[k] == here(l.0)[k]);
    assert(here(l.0)[k] == here(m)[k]);
    assert forall|j: int| 0 <= j < k implies #[trigger] here(z)[j] == here(cur.0)[j] by {
        assert(here(z)[j] == here(l.0)[j]);
        assert(here(l.0)[j] == here(m)[j]);
        assert(here(m)[j] == here(temp.0)[j]);
    }
    assert(here(z).take(k) =~= here(cur.0));
    assert(last_made(z) == b);
}

/// A declarator in an expression declares the name in it, and has its value.
pub proof fn a_declarator_in_an_expression_declares_its_name(
    t: TreeView,
    st: State,
    n: usize,
    c: usize,
)
    requires
        kind_at(t, n) == Kind::PointerDeclarator || kind_at(t, n) == Kind::FunctionDeclarator
            || kind_at(t, n) == Kind::ArrayDeclarator,
        field_child(t, n, Field::Declarator) == Some(c),
    ensures
        kind_at(t, c) != Kind::Identifier ==> expr(t, st, n) == expr(t, st, c),
        kind_at(t, c) == Kind::Identifier ==> {
            let s = State {
                scopes: with_variable(st.scopes, st.at.sidx, text_at(t, c), VarKind::Local),
                ..st
            };
            let p = named(s, text_at(t, c));
            expr(t, st, n) == (read(p.0, p.1).0, Ok::<ExpView, ErrorView>(read(p.0, p.1).1))
        },
{
    reveal(expr);
    reveal(nested_declarator);
    reveal(declare);
    assert(expr(t, st, n) == nested_declarator(t, st, n));
}

// Receivers

/// The object that a method is called on: the first parameter for `this`, the object inside parentheses
/// or pointed at, that of the call before in a chain of calls, and else the variable of the name.
pub proof fn a_receiver_is_the_object(t: TreeView, st: State, n: usize, c: usize)
    ensures
        kind_at(t, n) == Kind::This ==> object_place(t, st, n) == (
            st,
            PathView { base: VariableRef::Param(0), fields: Seq::empty() },
        ),
        kind_at(t, n) == Kind::PointerExpression && field_child(t, n, Field::Argument) == Some(c)
            ==> object_place(t, st, n) == object_place(t, st, c) && through_call(t, n)
            == through_call(t, c) && receiver_class(t, st, n) == receiver_class(t, st, c),
        kind_at(t, n) == Kind::ParenthesizedExpression && child_at(t, n, 1) == Some(c)
            ==> object_place(t, st, n) == object_place(t, st, c) && through_call(t, n)
            == through_call(t, c) && receiver_class(t, st, n) == receiver_class(t, st, c),
        kind_at(t, n) == Kind::CallExpression ==> through_call(t, n) && (method_of(
            t,
            n,
        ) matches Some(m) ==> object_place(t, st, n) == object_place(t, st, m.0)),
        kind_at(t, n) == Kind::Identifier ==> object_place(t, st, n) == named(st, text_at(t, n))
            && !through_call(t, n),
{
    reveal_with_fuel(object_place, 2);
    reveal_with_fuel(through_call, 2);
    reveal_with_fuel(receiver_class, 2);
}

/// A call in a chain is made before the method that is called on what it returns; the receiver is then
/// the value of the object.
pub proof fn a_chained_call_is_made_first(t: TreeView, st: State, n: usize, s: State, v: ExpView)
    requires
        expr(t, st, n) == (s, Ok::<ExpView, ErrorView>(v)),
    ensures
        ({
            let from = if through_call(t, n) {
                s
            } else {
                st
            };
            let p = object_place(t, from, n);
            receiver(t, st, n) == (read(p.0, p.1).0, Ok::<ExpView, ErrorView>(read(p.0, p.1).1))
        }),
{
    reveal(receiver);
    reveal(expr);
}

/// A call of a method that returns its receiver is of the class of the object.
pub proof fn a_method_that_returns_its_receiver_keeps_the_class(
    t: TreeView,
    st: State,
    n: usize,
    object: usize,
    name: Seq<char>,
    class: Seq<char>,
    c: Seq<char>,
)
    requires
        kind_at(t, n) == Kind::CallExpression,
        method_of(t, n) == Some((object, name)),
        receiver_class(t, st, object) == Some(class),
        method_class(st.env.tables.classes, class, name) == Some(c),
        class_at(st.env.tables.classes, c) is Some,
    ensures
        class_at(st.env.tables.classes, c)->0.returns_self.contains(name) ==> receiver_class(t, st, n)
            == Some(class),
        !class_at(st.env.tables.classes, c)->0.returns_self.contains(name) ==> receiver_class(
            t,
            st,
            n,
        ) is None,
{
    reveal_with_fuel(receiver_class, 2);
}

/// A call is one of a method if its callee is a member of an object: the object and the name of the
/// member say which.
pub proof fn a_member_that_is_called_is_a_method(
    t: TreeView,
    n: usize,
    callee: usize,
    object: usize,
    member: usize,
)
    requires
        field_child(t, n, Field::Function) == Some(callee),
        kind_at(t, callee) == Kind::FieldExpression,
        field_child(t, callee, Field::Argument) == Some(object),
        field_child(t, callee, Field::Member) == Some(member),
        kind_at(t, member) == Kind::FieldIdentifier,
    ensures
        method_of(t, n) == Some((object, text_at(t, member))),
{
    assert(crate::shapes::bare_callee(t, callee) == callee);
    assert(inside(t, n, callee));
    assert(inside(t, callee, object));
}

// Parts

/// A clause of a `for` loop is the part in its role.
pub proof fn a_clause_is_the_part_in_its_role(t: TreeView, n: usize, f: Field, c: usize)
    requires
        field_child(t, n, f) == Some(c),
    ensures
        clause(t, n, f) == Some(c),
{
}

/// The value of an element is the element itself, or what follows its designator.
pub proof fn a_designated_value_follows_its_designator(t: TreeView, e: usize, c: usize)
    ensures
        kind_at(t, e) != Kind::InitializerPair ==> value_of(t, e) == e,
        kind_at(t, e) == Kind::InitializerPair && field_child(t, e, Field::Value) == Some(c)
            ==> value_of(t, e) == c,
{
}

/// A generic selection is made of what controls it, its first part, and of every later part that is no
/// type.
pub proof fn a_selection_has_every_value(t: TreeView, n: usize, k: int)
    requires
        0 < k < plain_children(t, n).len(),
        kind_at(t, plain_children(t, n)[k]) != Kind::TypeDescriptor,
    ensures
        generic_parts(t, n).1.contains(plain_children(t, n)[k]),
        inside(t, n, plain_children(t, n)[0]) ==> generic_parts(t, n).0 == Some(
            plain_children(t, n)[0],
        ),
{
    lemma_without_types(t, plain_children(t, n), 1, k);
}

proof fn lemma_without_types(t: TreeView, nodes: Seq<usize>, i: int, k: int)
    requires
        0 <= i <= k < nodes.len(),
        kind_at(t, nodes[k]) != Kind::TypeDescriptor,
    ensures
        without_types(t, nodes, i).contains(nodes[k]),
    decreases nodes.len() - i,
{
    let all = without_types(t, nodes, i);
    if i == k {
        assert(all[0] == nodes[k]);
    } else {
        lemma_without_types(t, nodes, i + 1, k);
        let later = without_types(t, nodes, i + 1);
        let j = choose|j: int| 0 <= j < later.len() && later[j] == nodes[k];
        if kind_at(t, nodes[i]) != Kind::TypeDescriptor {
            assert(all[j + 1] == nodes[k]);
        }
    }
}

/// An inline assembly takes its inputs first and then its outputs, of which all are transferred; then
/// control may go to its labels.
pub proof fn an_assembly_takes_all_its_operands(
    t: TreeView,
    st: State,
    n: usize,
    ins: usize,
    outs: usize,
    s: State,
    sources: Seq<ExpView>,
    u: State,
    all: (Seq<ExpView>, Seq<PathView>),
)
    requires
        kind_at(t, n) == Kind::GnuAsmExpression,
        field_child(t, n, Field::InputOperands) == Some(ins),
        field_child(t, n, Field::OutputOperands) == Some(outs),
        asm_inputs(t, st, n, field_children(t, ins, Field::Operand), 0, Seq::empty()) == (
            s,
            Ok::<Seq<ExpView>, ErrorView>(sources),
        ),
        asm_outputs(
            t,
            s,
            n,
            field_children(t, outs, Field::Operand),
            0,
            sources,
            Seq::empty(),
        ) == (u, Ok::<(Seq<ExpView>, Seq<PathView>), ErrorView>(all)),
    ensures
        ({
            let v = asm_transfer(u, all.0, all.1);
            let r = expr(t, st, n);
            &&& field_child(t, n, Field::GotoLabels) is None ==> r == (
                v.0,
                Ok::<ExpView, ErrorView>(v.1),
            )
            &&& r.1 matches Ok(x) ==> x == v.1 && r.0 == asm_jumps(t, v.0, n).0
        }),
{
    reveal(expr);
    reveal(assembly);
    reveal(asm_jumps);
    reveal(asm_inputs);
    reveal(asm_outputs);
    assert(expr(t, st, n) == assembly(t, st, n));
    assert(asm_operands(t, n, Field::InputOperands) == field_children(t, ins, Field::Operand));
    assert(asm_operands(t, n, Field::OutputOperands) == field_children(t, outs, Field::Operand));
}

/// A call of a member that is not known as a method calls through the function pointer that is there,
/// and passes the values of its arguments.
pub proof fn a_call_through_a_member_passes_its_arguments(
    t: TreeView,
    st: State,
    n: usize,
    callee: usize,
    list: usize,
    u: State,
    values: Seq<ExpView>,
    w: State,
    p: PathView,
)
    requires
        kind_at(t, n) == Kind::CallExpression,
        field_child(t, n, Field::Function) == Some(callee),
        kind_at(t, callee) == Kind::FieldExpression,
        method_at(t, st, n) is None,
        field_child(t, n, Field::Arguments) == Some(list),
        exprs(t, temp_named(st), n, named_children(t, list), 0, Seq::empty()) == (
            u,
            Ok::<Seq<ExpView>, ErrorView>(values),
        ),
        location(t, u, callee) == (w, Ok::<PathView, ErrorView>(p)),
        p.base != VariableRef::Global || p.fields.len() > 1,
        placed(w),
        unclaimed(loads(w, p).0, temp_name(st.temps)),
    ensures
        ({
            let e = expr(t, st, n);
            let a = loads(w, p);
            &&& e.1 matches Ok(v)
            &&& v is Variable
            &&& one_more(
                a.0,
                e.0,
                StatementKindView::CallAssign {
                    style: CallStyleView::FuncPtrCall {
                        callee: a.1,
                        signature: Some("indirect-call"@),
                    },
                    rets: seq![v->Variable_0],
                    args: values,
                },
            )
        }),
{
    reveal(expr);
    reveal(call);
    reveal(plain_call);
    reveal(exprs);
    reveal(cast_shaped);
    reveal(location);
    reveal(call_style);
    lemma_loads(w, p);
    assert(crate::shapes::bare_callee(t, callee) == callee);
    assert(inside(t, n, callee));
    assert(cast_shaped(t, st, n) == (st, Ok::<Option<usize>, ErrorView>(None)));
    assert(expr(t, st, n) == call(t, st, n));
    assert(call(t, st, n) == plain_call(t, st, n));
    let target = crate::classes::mangled(
        w.env.tables.overloads,
        text_at(t, callee),
        values.len() as usize,
    );
    let style = call_style(w, p, target, crate::shapes::statement_expression(t, callee));
    lemma_called(style.0, style.1, values, st.temps);
    let v = called(style.0, style.1, values, temp_name(st.temps));
    assert(plain_call(t, st, n) == (v.0, Ok::<ExpView, ErrorView>(v.1)));
}

} // verus!
