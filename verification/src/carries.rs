//! What the values of expressions carry.
//!
//! The laws below say, of any expression, which statements its lowering ends with: an operand that is
//! computed is an argument of what is made of it, so that whatever it carries gets there.

use vstd::prelude::*;
use crate::classes::{class_at, dispatched, method_class, overloaded};
use crate::error::ErrorView;
use crate::kinds::{Field, Kind};
use crate::lowering::{alias_after, asm_fold, asm_transfer, asm_writes, assignment, binary, blend, blend_more, block_effects, block_value, call, called, cast_shaped, combined, conditional, expr, exprs, generic, identifier, incremented, location, method_at, method_call, plain_call, update, yielded};
use crate::mir::{AddressView, CallStyleView, ExpView, FunctionView, PathView, SegmentView, StatementKindView, StatementView, VariableRef};
use crate::scope::{ir_name, meaning, VarKind};
use crate::shapes::{generic_parts, kind_at, text_at};
use crate::state::{assign, emit, fresh, index_from, intern, load_steps, loads, named, read, temp_name, temp_named, temp_prefix, State};
use crate::syntax::{child_at, field_child, inside, named_children, plain_children, TreeView};

verus! {

// What the laws speak of

/// The statements of the block that lowering stands at.
pub open spec fn here(st: State) -> Seq<StatementView> {
    st.fun.blocks[st.at.blidx as int].statements
}

/// What the last of those statements does.
pub open spec fn last_made(st: State) -> StatementKindView {
    here(st).last().kind
}

/// Whether `b` has the statements of `a` and one more, which does `kind`.
pub open spec fn one_more(a: State, b: State, kind: StatementKindView) -> bool {
    &&& here(b) == here(a).push(StatementView { kind, span: a.span })
    &&& b.at == a.at
}

/// Whether lowering stands at a block.
pub open spec fn placed(st: State) -> bool {
    st.at.blidx < st.fun.blocks.len()
}

/// Whether a name means no variable of the source.
pub open spec fn unclaimed(st: State, name: Seq<char>) -> bool {
    !st.objects.refs.contains_key(name) && meaning(st.scopes, st.at.sidx, name) is None
}

/// Whether `b` is `a` but for statements, locals and temporaries.
pub open spec fn steady(a: State, b: State) -> bool {
    &&& b == (State {
        fun: FunctionView { locals: b.fun.locals, blocks: b.fun.blocks, ..a.fun },
        temps: b.temps,
        ..a
    })
    &&& b.fun.blocks.len() == a.fun.blocks.len()
}

// Steps

proof fn lemma_index_found(names: Seq<Seq<char>>, i: int, name: Seq<char>)
    requires
        0 <= i <= names.len(),
    ensures
        i <= index_from(names, i, name) <= names.len(),
        index_from(names, i, name) < names.len() ==> names[index_from(names, i, name)] == name,
        index_from(names, i, name) == names.len() ==> index_from(names.push(name), i, name)
            == names.len(),
    decreases names.len() - i,
{
    if i < names.len() {
        assert(names.push(name)[i] == names[i]);
        lemma_index_found(names, i + 1, name);
    } else {
        assert(names.push(name)[i] == name);
    }
}

/// A local stays the same when it is named again.
pub(crate) proof fn lemma_intern(st: State, name: Seq<char>)
    ensures
        steady(st, intern(st, name).0),
        intern(st, name).0.fun.blocks == st.fun.blocks,
        intern(st, name).0.temps == st.temps,
        forall|s: State|
            s.fun.locals == intern(st, name).0.fun.locals ==> #[trigger] intern(s, name) == (
                s,
                intern(st, name).1,
            ),
{
    reveal(intern);
    lemma_index_found(st.fun.locals, 0, name);
}

/// A temporary is a local of its own name.
pub(crate) proof fn lemma_temp(st: State, k: nat)
    requires
        unclaimed(st, temp_name(k)),
    ensures
        named(st, temp_name(k)) == (
            intern(st, temp_name(k)).0,
            PathView::of(intern(st, temp_name(k)).1),
        ),
{
    reveal(named);
    reveal_strlit("<t");
    reveal_strlit(">");
    let name = temp_name(k);
    assert(name[0] == '<' && name[1] == 't');
}

pub(crate) proof fn lemma_emit(st: State, kind: StatementKindView)
    requires
        placed(st),
    ensures
        one_more(st, emit(st, kind), kind),
        steady(st, emit(st, kind)),
        emit(st, kind).fun.locals == st.fun.locals,
        emit(st, kind).temps == st.temps,
{
    reveal(emit);
}

proof fn lemma_load_steps(
    st: State,
    base: VariableRef,
    offsets: Seq<i64>,
    fields: Seq<SegmentView>,
    i: int,
)
    requires
        placed(st),
    ensures
        steady(st, load_steps(st, base, offsets, fields, i).0),
        here(st).is_prefix_of(here(load_steps(st, base, offsets, fields, i).0)),
    decreases fields.len() - i,
{
    if 0 <= i && i < fields.len() {
        match fields[i] {
            SegmentView::Offset(n) => {
                lemma_load_steps(st, base, offsets.push(n), fields, i + 1);
            },
            SegmentView::Symbol(field) => {
                let v = fresh(st);
                lemma_intern(temp_named(st), temp_name(st.temps));
                let k = StatementKindView::Load {
                    dest: v.1,
                    address: AddressView { base, offsets },
                    field,
                };
                lemma_emit(v.0, k);
                lemma_load_steps(emit(v.0, k), v.1, Seq::empty(), fields, i + 1);
            },
        }
    }
}

pub(crate) proof fn lemma_loads(st: State, p: PathView)
    requires
        placed(st),
    ensures
        steady(st, loads(st, p).0),
        here(st).is_prefix_of(here(loads(st, p).0)),
        p.fields.len() == 0 ==> loads(st, p) == (
            st,
            AddressView { base: p.base, offsets: Seq::empty() },
        ),
{
    reveal(loads);
    lemma_load_steps(st, p.base, Seq::empty(), p.fields, 0);
}

/// Writing to a place: a variable takes its value from every operand, and a field is stored to. An
/// offset only moves an address, so what is written there goes to the memory at it.
pub proof fn a_write_goes_to_its_place(
    st: State,
    p: PathView,
    left: ExpView,
    right: Option<ExpView>,
)
    requires
        placed(st),
    ensures
        ({
            let r = assign(st, p, left, right);
            &&& steady(st, r)
            &&& here(st).len() < here(r).len()
            &&& here(st).is_prefix_of(here(r))
            &&& p.fields.len() == 0 ==> {
                &&& last_made(r) matches StatementKindView::Assign { dest, args }
                &&& dest == p.base
                &&& args.len() == (if right is Some { 2nat } else { 1 })
                &&& args[0] == left
                &&& right is Some ==> args[1] == right->0
            }
            &&& p.fields.len() > 0 ==> {
                &&& last_made(r) matches StatementKindView::Store { field, value, .. }
                &&& value == left
                &&& p.fields.last() matches SegmentView::Symbol(name) ==> field == name
                &&& p.fields.last() is Offset ==> field == "deref"@
            }
        }),
{
    reveal(assign);
    if p.fields.len() == 0 {
        lemma_emit(
            st,
            StatementKindView::Assign {
                dest: p.base,
                args: crate::state::operands(left, right),
            },
        );
    } else {
        let fields = crate::state::store_fields(p.fields);
        let q = PathView { base: p.base, fields: fields.drop_last() };
        lemma_loads(st, q);
        let r = loads(st, q);
        if let SegmentView::Symbol(field) = fields.last() {
            lemma_emit(r.0, StatementKindView::Store { address: r.1, field, value: left });
        }
    }
}

// Operators

/// The temporary that an operator makes of its operands.
proof fn lemma_combined(u: State, op: Kind, l: ExpView, r: ExpView)
    requires
        placed(u),
        unclaimed(u, temp_name(u.temps)),
    ensures
        ({
            let e = combined(u, op, l, r);
            let v = intern(u, temp_name(u.temps)).1;
            let compares = op == Kind::EqualEqual || op == Kind::LessEqual || op
                == Kind::GreaterEqual;
            &&& e.1 == ExpView::Variable(v)
            &&& compares ==> e.0.fun.blocks == u.fun.blocks
            &&& !compares ==> one_more(
                u,
                e.0,
                StatementKindView::Assign { dest: v, args: seq![l, r] },
            )
        }),
{
    reveal(combined);
    reveal(assign);
    let name = temp_name(u.temps);
    let w = temp_named(u);
    lemma_temp(w, u.temps);
    lemma_intern(w, name);
    let p = named(w, name);
    assert(intern(w, name).1 == intern(u, name).1) by {
        reveal(intern);
    }
    let k = StatementKindView::Assign { dest: p.1.base, args: seq![l, r] };
    lemma_emit(p.0, k);
    assert(intern(emit(p.0, k), name) == (emit(p.0, k), p.1.base));
    assert(intern(p.0, name) == (p.0, p.1.base));
}

/// A binary operator makes a temporary that takes its value from both operands, unless it only
/// compares: then the temporary takes no value.
pub proof fn an_operator_carries_both_operands(
    t: TreeView,
    st: State,
    n: usize,
    left: usize,
    right: usize,
    op: usize,
    s: State,
    l: ExpView,
    u: State,
    r: ExpView,
)
    requires
        kind_at(t, n) == Kind::BinaryExpression,
        field_child(t, n, Field::Left) == Some(left),
        field_child(t, n, Field::Right) == Some(right),
        field_child(t, n, Field::Operator) == Some(op),
        expr(t, st, left) == (s, Ok::<ExpView, ErrorView>(l)),
        expr(t, s, right) == (u, Ok::<ExpView, ErrorView>(r)),
        placed(u),
        unclaimed(u, temp_name(u.temps)),
    ensures
        ({
            let k = kind_at(t, op);
            let e = expr(t, st, n);
            let compares = k == Kind::EqualEqual || k == Kind::LessEqual || k
                == Kind::GreaterEqual;
            &&& e.1 matches Ok(v)
            &&& v == ExpView::Variable(intern(u, temp_name(u.temps)).1)
            &&& compares ==> e.0.fun.blocks == u.fun.blocks
            &&& !compares ==> exists|args: Seq<ExpView>|
                {
                    &&& #[trigger] one_more(
                        u,
                        e.0,
                        StatementKindView::Assign { dest: v->Variable_0, args },
                    )
                    &&& args.contains(l)
                    &&& args.contains(r)
                }
        }),
{
    reveal(expr);
    reveal(binary);
    let args = seq![l, r];
    lemma_combined(u, kind_at(t, op), l, r);
    assert(args[0] == l && args[1] == r);
    let e = combined(u, kind_at(t, op), l, r);
    assert(expr(t, st, n) == binary(t, st, n));
    assert(binary(t, st, n) == (e.0, Ok::<ExpView, ErrorView>(e.1)));
    let k = StatementKindView::Assign { dest: e.1->Variable_0, args };
    assert(one_more(u, e.0, k) || e.0.fun.blocks == u.fun.blocks);
}

// Pointers

/// What is known of the pointers after an assignment. A variable that is assigned an address formed by
/// `&` is known to point there, in the block of the assignment; of one that is assigned anything else
/// nothing is known any more. Nothing else that was known changes, and an assignment through a pointer
/// or to a field changes nothing of it.
pub proof fn an_assignment_settles_its_pointer(
    t: TreeView,
    st: State,
    n: usize,
    target: usize,
    value: usize,
    op: Option<usize>,
    s: State,
    p: PathView,
    u: State,
    v: ExpView,
)
    requires
        inside(t, n, target),
        inside(t, n, value),
        location(t, st, target) == (s, Ok::<PathView, ErrorView>(p)),
        expr(t, s, value) == (u, Ok::<ExpView, ErrorView>(v)),
        placed(u),
    ensures
        ({
            let after = assignment(t, st, n, target, value, op).0.aliases;
            let direct = p.fields.len() == 0 && kind_at(t, target) != Kind::PointerExpression;
            let formed = {
                &&& op is None || kind_at(t, op->0) == Kind::Assign
                &&& kind_at(t, value) == Kind::PointerExpression
                &&& field_child(t, value, Field::Operator) matches Some(c)
                &&& text_at(t, c) == "&"@
                &&& v is Variable || v is AccessPath
            };
            &&& assignment(t, st, n, target, value, op).1 is Ok
            &&& !direct ==> after == u.aliases
            &&& direct && !formed ==> !after.contains_key(p.base)
            &&& direct && formed ==> {
                &&& after.contains_key(p.base)
                &&& after[p.base].1 == u.at.blidx
                &&& v matches ExpView::Variable(x) ==> after[p.base].0 == (AddressView {
                    base: x,
                    offsets: Seq::empty(),
                })
                &&& v matches ExpView::AccessPath(a) ==> after[p.base].0 == a
            }
            &&& forall|w: VariableRef|
                w != p.base ==> (#[trigger] after.contains_key(w) <==> u.aliases.contains_key(w))
                    && (after.contains_key(w) ==> after[w] == u.aliases[w])
        }),
{
    reveal(assignment);
    reveal(expr);
    reveal(location);
    reveal(alias_after);
    lemma_loads(u, p);
    let old = read(u, p);
    a_write_goes_to_its_place(u, p, v, None);
    a_write_goes_to_its_place(old.0, p, v, Some(old.1));
}

// Values that pass through

/// A cast has the value of its operand.
pub proof fn a_cast_has_the_value_of_its_operand(t: TreeView, st: State, n: usize, c: usize)
    requires
        kind_at(t, n) == Kind::CastExpression,
        field_child(t, n, Field::Value) == Some(c),
    ensures
        expr(t, st, n) == expr(t, st, c),
{
    reveal(expr);
}

/// A unary operator has the value of its operand.
pub proof fn a_unary_operator_has_the_value_of_its_operand(
    t: TreeView,
    st: State,
    n: usize,
    c: usize,
)
    requires
        kind_at(t, n) == Kind::UnaryExpression,
        field_child(t, n, Field::Argument) == Some(c),
    ensures
        expr(t, st, n) == expr(t, st, c),
{
    reveal(expr);
}

/// Parentheses mean nothing, neither for a value nor for a place.
pub proof fn parentheses_mean_nothing(t: TreeView, st: State, n: usize, c: usize)
    requires
        kind_at(t, n) == Kind::ParenthesizedExpression || kind_at(t, n)
            == Kind::ParenthesizedDeclarator,
        t[n as int].children.len() > 1,
        t[n as int].children[1] == c,
        inside(t, n, c),
    ensures
        expr(t, st, n) == expr(t, st, c),
        location(t, st, n) == location(t, st, c),
{
    reveal(expr);
    reveal(location);
    assert(expr(t, st, n) == expr(t, st, c));
    assert(location(t, st, n) == location(t, st, c));
}

/// A comma makes its left operand and has the value of its right one.
pub proof fn a_comma_has_the_value_of_its_right_operand(
    t: TreeView,
    st: State,
    n: usize,
    left: usize,
    right: usize,
    s: State,
    l: ExpView,
)
    requires
        kind_at(t, n) == Kind::CommaExpression,
        field_child(t, n, Field::Left) == Some(left),
        field_child(t, n, Field::Right) == Some(right),
        expr(t, st, left) == (s, Ok::<ExpView, ErrorView>(l)),
    ensures
        expr(t, st, n) == expr(t, s, right),
{
    reveal(expr);
    assert(expr(t, st, n) == expr(t, s, right));
}

/// A constant is its source text, and makes no statement.
pub proof fn a_constant_is_its_text(t: TreeView, st: State, n: usize)
    requires
        ({
            let k = kind_at(t, n);
            ||| k == Kind::NumberLiteral
            ||| k == Kind::StringLiteral
            ||| k == Kind::CharLiteral
            ||| k == Kind::ConcatenatedString
            ||| k == Kind::TrueLiteral
            ||| k == Kind::FalseLiteral
            ||| k == Kind::NullLiteral
            ||| k == Kind::SizeofExpression
            ||| k == Kind::AlignofExpression
        }),
    ensures
        expr(t, st, n) == (st, Ok::<ExpView, ErrorView>(ExpView::Str(t[n as int].text))),
{
    reveal(expr);
}

// Names

/// The path of a field of a variable.
pub open spec fn field_of(base: VariableRef, name: Seq<char>) -> PathView {
    PathView { base, fields: seq![SegmentView::Symbol(name)] }
}

/// What a name means: what a reference of that name stands for; the parameter at its position; the
/// local of its IR name; and, where it is not declared, a member of the class that the function is
/// of, which is a field of the receiver, a static member, which is a global, or else a global.
pub proof fn a_name_means_what_is_declared(st: State, name: Seq<char>)
    requires
        !temp_prefix(name),
    ensures
        ({
            let p = named(st, name).1;
            let v = meaning(st.scopes, st.at.sidx, name);
            &&& st.objects.refs.contains_key(name) ==> p == st.objects.refs[name]
            &&& !st.objects.refs.contains_key(name) && v is Some ==> match v->0.kind {
                VarKind::Parameter(i) => p == PathView::of(VariableRef::Param(i)),
                VarKind::Local => {
                    &&& p.fields.len() == 0
                    &&& p.base == intern(st, ir_name(st.scopes, v->0)).1
                },
                VarKind::Global => p == field_of(VariableRef::Global, ir_name(st.scopes, v->0)),
            }
            &&& unclaimed(st, name) ==> {
                match st.objects.class {
                    Some(c) => match class_at(st.env.tables.classes, c.0) {
                        Some(info) => {
                            &&& info.static_members.contains(name) ==> p == field_of(
                                VariableRef::Global,
                                c.0 + "::"@ + name,
                            )
                            &&& !info.static_members.contains(name) && info.members.contains(
                                name,
                            ) && c.1 ==> p == field_of(VariableRef::Param(0), name)
                            &&& !info.static_members.contains(name) && !(info.members.contains(
                                name,
                            ) && c.1) ==> p == field_of(VariableRef::Global, name)
                        },
                        None => p == field_of(VariableRef::Global, name),
                    },
                    None => p == field_of(VariableRef::Global, name),
                }
            }
        }),
{
    reveal(named);
}

/// A name of a variable has the value of the variable; the name of a function that no variable hides
/// is the function. The value of a field is loaded from it.
pub proof fn a_name_is_read(t: TreeView, st: State, n: usize)
    requires
        kind_at(t, n) == Kind::Identifier || kind_at(t, n) == Kind::QualifiedIdentifier,
        t[n as int].text.len() > 0,
        placed(st),
    ensures
        ({
            let name = t[n as int].text;
            let p = named(st, name).1;
            let function = meaning(st.scopes, st.at.sidx, name) is None && (
            st.env.functions.contains_key(name) || st.env.declared.contains(name));
            let e = expr(t, st, n);
            &&& location(t, st, n) == (named(st, name).0, Ok::<PathView, ErrorView>(p))
            &&& function && st.env.local_names.contains_key(name) ==> e == (
                st,
                Ok::<ExpView, ErrorView>(ExpView::FunctionPtr(st.env.local_names[name])),
            )
            &&& function && !st.env.local_names.contains_key(name) ==> e == (
                st,
                Ok::<ExpView, ErrorView>(ExpView::FunctionPtr(name)),
            )
            &&& !function && p.fields.len() == 0 ==> {
                &&& e.1 == Ok::<ExpView, ErrorView>(ExpView::Variable(p.base))
                &&& here(e.0) == here(st)
            }
            &&& !function ==> (forall|f: Seq<char>|
                p == #[trigger] field_of(p.base, f) ==> exists|d: VariableRef|
                    {
                        &&& #[trigger] one_more(
                            st,
                            e.0,
                            StatementKindView::Load {
                                dest: d,
                                address: AddressView { base: p.base, offsets: Seq::empty() },
                                field: f,
                            },
                        )
                        &&& e.1 == Ok::<ExpView, ErrorView>(ExpView::Variable(d))
                    })
        }),
{
    reveal(expr);
    reveal(location);
    reveal(identifier);
    reveal(loads);
    let name = t[n as int].text;
    let p = named(st, name);
    lemma_named(st, name);
    lemma_loads(p.0, p.1);
    assert forall|f: Seq<char>| p.1 == #[trigger] field_of(p.1.base, f) implies exists|
        d: VariableRef,
    | #[trigger]
        one_more(
            st,
            read(p.0, p.1).0,
            StatementKindView::Load {
                dest: d,
                address: AddressView { base: p.1.base, offsets: Seq::empty() },
                field: f,
            },
        ) && read(p.0, p.1).1 == ExpView::Variable(d) by {
        lemma_field_read(p.0, p.1.base, f);
        let k = StatementKindView::Load {
            dest: fresh(p.0).1,
            address: AddressView { base: p.1.base, offsets: Seq::empty() },
            field: f,
        };
        assert(one_more(st, read(p.0, p.1).0, k));
    }
}

/// Naming a place makes no statement.
pub(crate) proof fn lemma_named(st: State, name: Seq<char>)
    ensures
        steady(st, named(st, name).0),
        named(st, name).0.fun.blocks == st.fun.blocks,
        named(st, name).0.temps == st.temps,
{
    reveal(named);
    lemma_intern(st, name);
    if let Some(v) = meaning(st.scopes, st.at.sidx, name) {
        lemma_intern(st, ir_name(st.scopes, v));
    }
}

/// The read of a field is a load from it.
pub(crate) proof fn lemma_field_read(st: State, base: VariableRef, f: Seq<char>)
    requires
        placed(st),
    ensures
        ({
            let r = read(st, field_of(base, f));
            let d = fresh(st).1;
            &&& one_more(
                st,
                r.0,
                StatementKindView::Load {
                    dest: d,
                    address: AddressView { base, offsets: Seq::empty() },
                    field: f,
                },
            )
            &&& steady(st, r.0)
            &&& r.1 == ExpView::Variable(d)
        }),
{
    reveal(loads);
    reveal_with_fuel(load_steps, 3);
    lemma_intern(temp_named(st), temp_name(st.temps));
    let v = fresh(st);
    lemma_emit(
        v.0,
        StatementKindView::Load {
            dest: v.1,
            address: AddressView { base, offsets: Seq::empty() },
            field: f,
        },
    );
}

// Assignments

/// An assignment writes its value to its place, and has that value: a variable takes it, with what
/// it held if the operator is not `=`; a field is stored to.
pub proof fn an_assignment_writes_its_value(
    t: TreeView,
    st: State,
    n: usize,
    target: usize,
    value: usize,
    op: Option<usize>,
    s: State,
    p: PathView,
    u: State,
    v: ExpView,
)
    requires
        inside(t, n, target),
        inside(t, n, value),
        location(t, st, target) == (s, Ok::<PathView, ErrorView>(p)),
        expr(t, s, value) == (u, Ok::<ExpView, ErrorView>(v)),
        placed(u),
    ensures
        ({
            let r = assignment(t, st, n, target, value, op);
            let plain = op is None || kind_at(t, op->0) == Kind::Assign;
            &&& here(u).len() < here(r.0).len()
            &&& here(u).is_prefix_of(here(r.0))
            &&& p.fields.len() == 0 ==> {
                &&& last_made(r.0) matches StatementKindView::Assign { dest, args }
                &&& dest == p.base
                &&& args[0] == v
                &&& plain ==> args.len() == 1
                &&& !plain ==> args.len() == 2 && args[1] == ExpView::Variable(p.base)
                &&& r.1 == Ok::<ExpView, ErrorView>(ExpView::Variable(p.base))
            }
            &&& p.fields.len() > 0 ==> {
                &&& last_made(r.0) matches StatementKindView::Store { field, value, .. }
                &&& value == v
                &&& p.fields.last() matches SegmentView::Symbol(name) ==> field == name
                &&& r.1 == Ok::<ExpView, ErrorView>(v)
            }
        }),
{
    reveal(assignment);
    reveal(expr);
    reveal(location);
    reveal(alias_after);
    lemma_loads(u, p);
    let old = read(u, p);
    a_write_goes_to_its_place(u, p, v, None);
    a_write_goes_to_its_place(old.0, p, v, Some(old.1));
}

/// An assignment expression assigns its right side to its left.
pub proof fn an_assignment_expression_assigns(
    t: TreeView,
    st: State,
    n: usize,
    left: usize,
    right: usize,
)
    requires
        kind_at(t, n) == Kind::AssignmentExpression,
        field_child(t, n, Field::Left) == Some(left),
        field_child(t, n, Field::Right) == Some(right),
    ensures
        expr(t, st, n) == assignment(
            t,
            st,
            n,
            left,
            right,
            field_child(t, n, Field::Operator),
        ),
{
    reveal(expr);
    reveal(assignment);
}

// Choices

/// Whether, from statement `k` on, every assignment to `v` takes what `v` held, so that nothing it
/// carries is lost.
pub open spec fn holds_on(made: Seq<StatementView>, k: int, v: VariableRef) -> bool {
    forall|j: int|
        #![trigger made[j]]
        k <= j < made.len() ==> (made[j].kind matches StatementKindView::Assign { dest, args }
            ==> dest == v ==> args.contains(ExpView::Variable(v)))
}

/// Whether among the statements there is one that `v` takes the value `e` in, and nothing that `v`
/// carries is lost after it.
pub open spec fn takes(made: Seq<StatementView>, v: VariableRef, e: ExpView) -> bool {
    exists|k: int|
        {
            &&& 0 <= k < made.len()
            &&& #[trigger] made[k].kind matches StatementKindView::Assign { dest, args }
            &&& dest == v
            &&& args.contains(e)
            &&& holds_on(made, k + 1, v)
        }
}

proof fn lemma_takes_more(made: Seq<StatementView>, v: VariableRef, e: ExpView, x: StatementView)
    requires
        takes(made, v, e),
        x.kind matches StatementKindView::Assign { dest, args } ==> dest == v ==> args.contains(
            ExpView::Variable(v),
        ),
    ensures
        takes(made.push(x), v, e),
{
    let k = choose|k: int|
        {
            &&& 0 <= k < made.len()
            &&& #[trigger] made[k].kind matches StatementKindView::Assign { dest, args }
            &&& dest == v
            &&& args.contains(e)
            &&& holds_on(made, k + 1, v)
        };
    let more = made.push(x);
    assert(more[k] == made[k]);
    assert forall|j: int| #![trigger more[j]] k + 1 <= j < more.len() implies (
    more[j].kind matches StatementKindView::Assign { dest, args } ==> dest == v ==> args.contains(
        ExpView::Variable(v),
    )) by {
        if j < made.len() {
            assert(more[j] == made[j]);
        }
    }
    assert(holds_on(more, k + 1, v));
}

proof fn lemma_blend_more(st: State, v: VariableRef, values: Seq<ExpView>, i: int)
    requires
        placed(st),
        0 <= i <= values.len(),
        forall|j: int| 0 <= j < i ==> takes(here(st), v, #[trigger] values[j]),
    ensures
        forall|j: int|
            0 <= j < values.len() ==> takes(
                here(blend_more(st, PathView::of(v), values, i)),
                v,
                #[trigger] values[j],
            ),
        steady(st, blend_more(st, PathView::of(v), values, i)),
        blend_more(st, PathView::of(v), values, i).fun.locals == st.fun.locals,
    decreases values.len() - i,
{
    if i < values.len() {
        let p = PathView::of(v);
        lemma_loads(st, p);
        reveal(assign);
        let so_far = read(st, p);
        let args = seq![values[i], ExpView::Variable(v)];
        let k = StatementKindView::Assign { dest: v, args };
        lemma_emit(st, k);
        let next = emit(st, k);
        let x = StatementView { kind: k, span: st.span };
        assert(args[0] == values[i] && args[1] == ExpView::Variable(v));
        assert forall|j: int| 0 <= j < i + 1 implies takes(here(next), v, #[trigger] values[j]) by {
            if j < i {
                lemma_takes_more(here(st), v, values[j], x);
            } else {
                let at = here(st).len() as int;
                assert(here(next)[at] == x);
                assert(holds_on(here(next), at + 1, v));
            }
        }
        assert(assign(so_far.0, p, values[i], Some(so_far.1)) == next);
        lemma_blend_more(next, v, values, i + 1);
    }
}

/// What may be any of some values is a temporary that takes every one of them and loses none.
proof fn lemma_blend(u: State, values: Seq<ExpView>)
    requires
        placed(u),
        unclaimed(u, temp_name(u.temps)),
    ensures
        ({
            let e = blend(u, values);
            let v = intern(u, temp_name(u.temps)).1;
            &&& e.1 == ExpView::Variable(v)
            &&& forall|j: int|
                0 <= j < values.len() ==> takes(here(e.0), v, #[trigger] values[j])
            &&& e.0.at == u.at
        }),
{
    reveal(blend);
    let name = temp_name(u.temps);
    let w = temp_named(u);
    lemma_temp(w, u.temps);
    lemma_intern(w, name);
    let p = named(w, name);
    let v = p.1.base;
    assert(intern(w, name).1 == intern(u, name).1) by {
        reveal(intern);
    }
    if values.len() > 0 {
        reveal(assign);
        let second = if values.len() > 1 {
            Some(values[1])
        } else {
            None
        };
        let args = crate::state::operands(values[0], second);
        let k = StatementKindView::Assign { dest: v, args };
        lemma_emit(p.0, k);
        let first = emit(p.0, k);
        let at = here(p.0).len() as int;
        assert(here(first)[at].kind == k);
        assert(holds_on(here(first), at + 1, v));
        assert(args[0] == values[0]);
        if values.len() > 1 {
            assert(args[1] == values[1]);
        }
        assert(assign(p.0, p.1, values[0], second) == first);
        if values.len() > 1 {
            assert forall|j: int| 0 <= j < 2 implies takes(here(first), v, #[trigger] values[j]) by {
                assert(args.contains(values[j]));
            }
            lemma_blend_more(first, v, values, 2);
        } else {
            assert(takes(here(first), v, values[0]));
        }
        let last = blend_more(first, p.1, values, 2);
        assert(intern(last, name) == (last, v));
    } else {
        assert(intern(p.0, name) == (p.0, v));
    }
}

/// A conditional expression makes a temporary that takes the values of both arms; where the first arm
/// is left out, that of the condition.
pub proof fn a_conditional_carries_both_arms(
    t: TreeView,
    st: State,
    n: usize,
    cond: usize,
    yes: Option<usize>,
    no: usize,
    s: State,
    c: ExpView,
    u: State,
    a: ExpView,
    w: State,
    b: ExpView,
)
    requires
        kind_at(t, n) == Kind::ConditionalExpression,
        field_child(t, n, Field::Condition) == Some(cond),
        field_child(t, n, Field::Consequence) == yes,
        field_child(t, n, Field::Alternative) == Some(no),
        expr(t, st, cond) == (s, Ok::<ExpView, ErrorView>(c)),
        match yes {
            Some(x) => expr(t, s, x) == (u, Ok::<ExpView, ErrorView>(a)),
            None => u == s && a == c,
        },
        expr(t, u, no) == (w, Ok::<ExpView, ErrorView>(b)),
        placed(w),
        unclaimed(w, temp_name(w.temps)),
    ensures
        ({
            let e = expr(t, st, n);
            &&& e.1 matches Ok(v)
            &&& v == ExpView::Variable(intern(w, temp_name(w.temps)).1)
            &&& takes(here(e.0), v->Variable_0, a)
            &&& takes(here(e.0), v->Variable_0, b)
        }),
{
    reveal(expr);
    reveal(conditional);
    let values = seq![a, b];
    lemma_blend(w, values);
    assert(values[0] == a && values[1] == b);
    let e = blend(w, values);
    assert(expr(t, st, n) == conditional(t, st, n));
    assert(conditional(t, st, n) == (e.0, Ok::<ExpView, ErrorView>(e.1)));
}

/// A generic selection makes a temporary that takes the value of every association.
pub proof fn a_selection_carries_every_association(
    t: TreeView,
    st: State,
    n: usize,
    values: Seq<ExpView>,
    s: State,
    u: State,
)
    requires
        kind_at(t, n) == Kind::GenericExpression,
        match generic_parts(t, n).0 {
            Some(c) => expr(t, st, c).1 is Ok && s == expr(t, st, c).0,
            None => s == st,
        },
        exprs(t, s, n, generic_parts(t, n).1, 0, Seq::empty()) == (
            u,
            Ok::<Seq<ExpView>, ErrorView>(values),
        ),
        placed(u),
        unclaimed(u, temp_name(u.temps)),
    ensures
        ({
            let e = expr(t, st, n);
            &&& e.1 matches Ok(v)
            &&& v == ExpView::Variable(intern(u, temp_name(u.temps)).1)
            &&& forall|j: int|
                0 <= j < values.len() ==> takes(here(e.0), v->Variable_0, #[trigger] values[j])
        }),
{
    reveal(expr);
    reveal(generic);
    reveal(exprs);
    lemma_blend(u, values);
    let e = blend(u, values);
    assert(expr(t, st, n) == generic(t, st, n));
    assert(generic(t, st, n) == (e.0, Ok::<ExpView, ErrorView>(e.1)));
}

// Calls

/// The state in which number `k` of some expressions is lowered, where the first is lowered in `st`.
pub open spec fn turn(t: TreeView, st: State, nodes: Seq<usize>, k: int) -> State
    decreases k,
{
    if k <= 0 {
        st
    } else {
        expr(t, turn(t, st, nodes, k - 1), nodes[k - 1]).0
    }
}

/// Whether `values` are the values of the expressions `nodes`, lowered one after the other.
pub open spec fn values_of(t: TreeView, st: State, nodes: Seq<usize>, values: Seq<ExpView>) -> bool {
    &&& values.len() == nodes.len()
    &&& forall|k: int|
        0 <= k < nodes.len() ==> expr(t, #[trigger] turn(t, st, nodes, k), nodes[k]).1 == Ok::<
            ExpView,
            ErrorView,
        >(values[k])
}

proof fn lemma_exprs(
    t: TreeView,
    st: State,
    n: usize,
    nodes: Seq<usize>,
    i: int,
    values: Seq<ExpView>,
)
    requires
        0 <= i <= nodes.len(),
        values.len() == i,
        forall|k: int| 0 <= k < nodes.len() ==> inside(t, n, #[trigger] nodes[k]),
        forall|k: int|
            0 <= k < i ==> expr(t, #[trigger] turn(t, st, nodes, k), nodes[k]).1 == Ok::<
                ExpView,
                ErrorView,
            >(values[k]),
    ensures
        ({
            let r = exprs(t, turn(t, st, nodes, i), n, nodes, i, values);
            r.1 matches Ok(all) ==> r.0 == turn(t, st, nodes, nodes.len() as int) && values_of(
                t,
                st,
                nodes,
                all,
            )
        }),
    decreases nodes.len() - i,
{
    reveal(exprs);
    reveal(expr);
    if i < nodes.len() {
        let e = expr(t, turn(t, st, nodes, i), nodes[i]);
        if let Ok(v) = e.1 {
            assert(turn(t, st, nodes, i + 1) == e.0);
            lemma_exprs(t, st, n, nodes, i + 1, values.push(v));
        }
    }
}

/// A list of expressions is lowered from first to last, and all of their values are taken.
pub proof fn expressions_are_lowered_in_order(
    t: TreeView,
    st: State,
    n: usize,
    nodes: Seq<usize>,
    u: State,
    values: Seq<ExpView>,
)
    requires
        forall|k: int| 0 <= k < nodes.len() ==> inside(t, n, #[trigger] nodes[k]),
        exprs(t, st, n, nodes, 0, Seq::empty()) == (u, Ok::<Seq<ExpView>, ErrorView>(values)),
    ensures
        values_of(t, st, nodes, values),
        u == turn(t, st, nodes, nodes.len() as int),
{
    assert(turn(t, st, nodes, 0) == st);
    lemma_exprs(t, st, n, nodes, 0, Seq::empty());
}

pub(crate) proof fn lemma_called(st: State, style: CallStyleView, args: Seq<ExpView>, k: nat)
    requires
        placed(st),
        unclaimed(st, temp_name(k)),
    ensures
        ({
            let r = called(st, style, args, temp_name(k));
            let v = intern(st, temp_name(k)).1;
            &&& r.1 == ExpView::Variable(v)
            &&& one_more(st, r.0, StatementKindView::CallAssign { style, rets: seq![v], args })
        }),
{
    reveal(called);
    let name = temp_name(k);
    lemma_intern(st, name);
    let ret = intern(st, name);
    let c = StatementKindView::CallAssign { style, rets: seq![ret.1], args };
    lemma_emit(ret.0, c);
    let next = emit(ret.0, c);
    lemma_temp(next, k);
    assert(intern(next, name) == (next, ret.1));
}

/// A call by name passes the values of its arguments, in order, and has what is returned. A variable
/// of that name is called through; any other name is called directly, as the function that the unit
/// means by it.
pub proof fn a_call_passes_its_arguments(
    t: TreeView,
    st: State,
    n: usize,
    callee: usize,
    list: usize,
    u: State,
    values: Seq<ExpView>,
)
    requires
        kind_at(t, n) == Kind::CallExpression,
        field_child(t, n, Field::Function) == Some(callee),
        field_child(t, n, Field::Arguments) == Some(list),
        kind_at(t, callee) == Kind::Identifier,
        exprs(t, temp_named(st), n, named_children(t, list), 0, Seq::empty()) == (
            u,
            Ok::<Seq<ExpView>, ErrorView>(values),
        ),
        placed(u),
        unclaimed(u, temp_name(st.temps)),
    ensures
        ({
            let e = expr(t, st, n);
            let name = text_at(t, callee);
            let p = named(u, name).1;
            &&& values_of(t, temp_named(st), named_children(t, list), values)
            &&& e.1 matches Ok(v)
            &&& v is Variable
            &&& last_made(e.0) matches StatementKindView::CallAssign { style, rets, args }
            &&& here(u).is_prefix_of(here(e.0))
            &&& args == values
            &&& rets == seq![v->Variable_0]
            &&& p.fields.len() == 0 && p.base != VariableRef::Global ==> style
                == (CallStyleView::FuncPtrCall {
                callee: AddressView { base: p.base, offsets: Seq::empty() },
                signature: Some("indirect-call"@),
            })
            &&& p == field_of(VariableRef::Global, name) && !overloaded(
                u.env.tables.overloads,
                name,
            ) ==> style == CallStyleView::DirectCall(
                seq![
                    if u.env.local_names.contains_key(name) {
                        u.env.local_names[name]
                    } else {
                        name
                    },
                ],
            )
            &&& p == field_of(VariableRef::Global, name) && overloaded(
                u.env.tables.overloads,
                name,
            ) && values.len() <= usize::MAX ==> {
                let target = name + "#"@ + crate::text::dec(values.len());
                style == CallStyleView::DirectCall(
                    seq![
                        if u.env.local_names.contains_key(target) {
                            u.env.local_names[target]
                        } else {
                            target
                        },
                    ],
                )
            }
        }),
{
    reveal(expr);
    reveal(call);
    reveal(plain_call);
    reveal(exprs);
    reveal(cast_shaped);
    reveal(location);
    reveal(crate::lowering::call_style);
    let nodes = named_children(t, list);
    lemma_list_inside(t, n, list);
    expressions_are_lowered_in_order(t, temp_named(st), n, nodes, u, values);
    let name = text_at(t, callee);
    lemma_named(u, name);
    let p = named(u, name);
    lemma_loads(p.0, p.1);
    assert(crate::shapes::bare_callee(t, callee) == callee);
    assert(method_at(t, st, n) is None);
    assert(cast_shaped(t, st, n) == (st, Ok::<Option<usize>, ErrorView>(None)));
    assert(expr(t, st, n) == call(t, st, n));
    assert(call(t, st, n) == plain_call(t, st, n));
    let target = crate::classes::mangled(u.env.tables.overloads, name, values.len() as usize);
    let style = crate::lowering::call_style(
        p.0,
        p.1,
        target,
        crate::shapes::statement_expression(t, callee),
    );
    lemma_called(style.0, style.1, values, st.temps);
    let v = called(style.0, style.1, values, temp_name(st.temps));
    assert(plain_call(t, st, n) == (v.0, Ok::<ExpView, ErrorView>(v.1)));
}

pub(crate) proof fn lemma_list_inside(t: TreeView, n: usize, list: usize)
    requires
        inside(t, n, list),
    ensures
        forall|k: int|
            0 <= k < named_children(t, list).len() ==> inside(
                t,
                n,
                #[trigger] named_children(t, list)[k],
            ),
{
    crate::syntax::lemma_kids_where(t, list, 0, |v: crate::syntax::NodeView| v.named);
    assert forall|k: int| 0 <= k < named_children(t, list).len() implies inside(
        t,
        n,
        #[trigger] named_children(t, list)[k],
    ) by {
        assert(inside(t, list, named_children(t, list)[k]));
    }
}

/// A call of a method on a variable of a known class passes the object first, and then the values of
/// the arguments, in order; it has what is returned. The functions that it may reach are those that
/// the class dispatches the method to.
pub proof fn a_method_call_passes_its_receiver(
    t: TreeView,
    st: State,
    n: usize,
    callee: usize,
    list: usize,
    object: usize,
    member: usize,
    class: Seq<char>,
    u: State,
    values: Seq<ExpView>,
)
    requires
        kind_at(t, n) == Kind::CallExpression,
        field_child(t, n, Field::Function) == Some(callee),
        field_child(t, n, Field::Arguments) == Some(list),
        kind_at(t, callee) == Kind::FieldExpression,
        field_child(t, callee, Field::Argument) == Some(object),
        field_child(t, callee, Field::Member) == Some(member),
        kind_at(t, object) == Kind::Identifier,
        kind_at(t, member) == Kind::FieldIdentifier,
        st.objects.types.contains_key(text_at(t, object)),
        st.objects.types[text_at(t, object)] == class,
        method_class(st.env.tables.classes, class, text_at(t, member)) is Some,
        named(temp_named(st), text_at(t, object)).1.fields.len() == 0,
        exprs(
            t,
            named(temp_named(st), text_at(t, object)).0,
            n,
            named_children(t, list),
            0,
            Seq::empty(),
        ) == (u, Ok::<Seq<ExpView>, ErrorView>(values)),
        placed(st),
        placed(u),
        unclaimed(u, temp_name(st.temps)),
        u.env == st.env,
    ensures
        ({
            let e = expr(t, st, n);
            let p = named(temp_named(st), text_at(t, object));
            &&& values_of(t, p.0, named_children(t, list), values)
            &&& e.1 matches Ok(v)
            &&& v is Variable
            &&& last_made(e.0) matches StatementKindView::CallAssign { style, rets, args }
            &&& args == seq![ExpView::Variable(p.1.base)] + values
            &&& rets == seq![v->Variable_0]
            &&& style matches CallStyleView::DirectCall(targets)
            &&& Some(targets) == dispatched(
                st.env.tables.classes,
                st.env.tables.subclasses,
                st.env.tables.overloads,
                class,
                text_at(t, member),
                values.len() as usize,
            )
        }),
{
    reveal(expr);
    reveal(call);
    reveal(method_call);
    reveal(exprs);
    reveal(crate::lowering::receiver);
    let nodes = named_children(t, list);
    lemma_list_inside(t, n, list);
    let p = named(temp_named(st), text_at(t, object));
    lemma_named(temp_named(st), text_at(t, object));
    lemma_loads(p.0, p.1);
    expressions_are_lowered_in_order(t, p.0, n, nodes, u, values);
    assert(crate::shapes::bare_callee(t, callee) == callee);
    assert(inside(t, n, object));
    let name = text_at(t, member);
    assert(method_at(t, st, n) == Some((object, class, name)));
    assert(expr(t, st, n) == call(t, st, n));
    assert(call(t, st, n) == method_call(t, st, n, object, class, name));
    let r = ExpView::Variable(p.1.base);
    assert(crate::lowering::receiver(t, temp_named(st), object) == (
        p.0,
        Ok::<ExpView, ErrorView>(r),
    ));
    let targets = dispatched(
        st.env.tables.classes,
        st.env.tables.subclasses,
        st.env.tables.overloads,
        class,
        name,
        values.len() as usize,
    )->0;
    let style = CallStyleView::DirectCall(targets);
    lemma_called(u, style, seq![r] + values, st.temps);
    let v = called(u, style, seq![r] + values, temp_name(st.temps));
    assert(method_call(t, st, n, object, class, name) == (v.0, Ok::<ExpView, ErrorView>(v.1)));
}

/// An increment or decrement makes a temporary of what is at the place, and writes it back there.
pub proof fn an_update_writes_back_what_was_there(
    t: TreeView,
    st: State,
    n: usize,
    arg: usize,
    s: State,
    x: VariableRef,
)
    requires
        kind_at(t, n) == Kind::UpdateExpression,
        field_child(t, n, Field::Argument) == Some(arg),
        location(t, st, arg) == (s, Ok::<PathView, ErrorView>(PathView::of(x))),
        placed(s),
        unclaimed(s, temp_name(s.temps)),
    ensures
        ({
            let e = expr(t, st, n);
            let d = intern(s, temp_name(s.temps)).1;
            let k = here(s).len() as int;
            &&& e.1 == Ok::<ExpView, ErrorView>(ExpView::Variable(d))
            &&& here(e.0).len() == k + 2
            &&& here(s).is_prefix_of(here(e.0))
            &&& here(e.0)[k].kind == (StatementKindView::Assign {
                dest: d,
                args: seq![ExpView::Variable(x), ExpView::Str("1"@)],
            })
            &&& here(e.0)[k + 1].kind == (StatementKindView::Assign {
                dest: x,
                args: seq![ExpView::Variable(d)],
            })
        }),
{
    reveal(expr);
    reveal(update);
    reveal(incremented);
    reveal(location);
    reveal(assign);
    let p = PathView::of(x);
    lemma_loads(s, p);
    let w = temp_named(s);
    let name = temp_name(s.temps);
    lemma_temp(w, s.temps);
    lemma_intern(w, name);
    assert(intern(w, name).1 == intern(s, name).1) by {
        reveal(intern);
    }
    let temp = named(w, name);
    let a = StatementKindView::Assign {
        dest: temp.1.base,
        args: seq![ExpView::Variable(x), ExpView::Str("1"@)],
    };
    lemma_emit(temp.0, a);
    let b = StatementKindView::Assign { dest: x, args: seq![ExpView::Variable(temp.1.base)] };
    lemma_emit(emit(temp.0, a), b);
    let r = incremented(s, p);
    assert(r.0 == emit(emit(temp.0, a), b));
    assert(expr(t, st, n) == update(t, st, n));
    assert(update(t, st, n) == (r.0, Ok::<ExpView, ErrorView>(r.1)));
}

// Statement expressions and assemblies

/// A statement expression has the value of the expression that it ends with, lowered where its other
/// statements have left off. The scope of its statements ends with it.
pub proof fn a_statement_expression_has_its_last_value(
    t: TreeView,
    st: State,
    n: usize,
    l: usize,
    c: usize,
    s: State,
    u: State,
    v: ExpView,
)
    requires
        kind_at(t, n) == Kind::CompoundStatement,
        plain_children(t, n).len() > 0,
        plain_children(t, n).last() == l,
        inside(t, n, l),
        kind_at(t, l) == Kind::ExpressionStatement,
        child_at(t, l, 0) == Some(c),
        kind_at(t, c) != Kind::Semicolon,
        kind_at(t, c) != Kind::EmptyStatement,
        block_effects(t, st, n) == (s, Ok::<(), ErrorView>(())),
        expr(t, s, c) == (u, Ok::<ExpView, ErrorView>(v)),
    ensures
        expr(t, st, n).1 == Ok::<ExpView, ErrorView>(v),
        expr(t, st, n).0.fun == u.fun,
        expr(t, st, n).0.at.sidx == st.at.sidx,
        expr(t, st, n).0.at.blidx == u.at.blidx,
{
    reveal(expr);
    reveal(block_value);
    reveal(block_effects);
    assert(yielded(t, n) == Some(c));
    assert(expr(t, st, n) == block_value(t, st, n));
    let r = State {
        at: crate::state::ScopeView { sidx: st.at.sidx, ..u.at },
        span: st.span,
        ..u
    };
    assert(block_value(t, st, n) == (r, Ok::<ExpView, ErrorView>(v)));
}

/// The statements before the last one of a statement expression are lowered in a new scope inside the
/// current one.
pub proof fn a_statement_expression_runs_its_statements(t: TreeView, st: State, n: usize, l: usize)
    requires
        plain_children(t, n).len() > 0,
        plain_children(t, n).last() == l,
        inside(t, n, l),
        kind_at(t, l) == Kind::ExpressionStatement,
    ensures
        ({
            let inner = State {
                scopes: crate::scope::with_scope(
                    st.scopes,
                    st.fun.name + ".cs"@,
                    Some(st.at.sidx),
                ),
                at: crate::state::ScopeView { sidx: st.scopes.len() as usize, ..st.at },
                ..st
            };
            let b = crate::lowering::body(
                t,
                inner,
                n,
                plain_children(t, n).drop_last(),
                0,
                false,
            );
            b.1 == Ok::<bool, ErrorView>(false) ==> {
                &&& block_effects(t, st, n).1 is Ok
                &&& block_effects(t, st, n).0.fun == b.0.fun
                &&& block_effects(t, st, n).0.at == b.0.at
            }
        }),
{
    reveal(block_effects);
    reveal(crate::lowering::block_walk);
    reveal(crate::state::open_scope);
    reveal(crate::lowering::body);
    let inner = State {
        scopes: crate::scope::with_scope(st.scopes, st.fun.name + ".cs"@, Some(st.at.sidx)),
        at: crate::state::ScopeView { sidx: st.scopes.len() as usize, ..st.at },
        ..st
    };
    let b = crate::lowering::body(t, inner, n, plain_children(t, n).drop_last(), 0, false);
    if b.1 == Ok::<bool, ErrorView>(false) {
        assert(crate::lowering::block_walk(t, st, n) == (
            crate::state::at_source(b.0, t, l),
            Ok::<(), ErrorView>(()),
        ));
    }
}

/// Every source of an inline assembly may reach every target: a temporary takes all of the sources and
/// loses none, and is written to each of the targets.
pub proof fn an_assembly_carries_every_source(st: State, sources: Seq<ExpView>)
    requires
        placed(st),
        unclaimed(st, temp_name(st.temps)),
    ensures
        ({
            let p = named(temp_named(st), temp_name(st.temps));
            let s = asm_fold(p.0, p.1, sources, 0);
            &&& p.1 == PathView::of(intern(st, temp_name(st.temps)).1)
            &&& forall|j: int|
                0 <= j < sources.len() ==> takes(here(s), p.1.base, #[trigger] sources[j])
        }),
{
    let name = temp_name(st.temps);
    let w = temp_named(st);
    lemma_temp(w, st.temps);
    lemma_intern(w, name);
    assert(intern(w, name).1 == intern(st, name).1) by {
        reveal(intern);
    }
    let p = named(w, name);
    lemma_asm_fold(p.0, p.1.base, sources, 0);
}

proof fn lemma_asm_fold(st: State, v: VariableRef, sources: Seq<ExpView>, i: int)
    requires
        placed(st),
        0 <= i <= sources.len(),
        forall|j: int| 0 <= j < i ==> takes(here(st), v, #[trigger] sources[j]),
    ensures
        forall|j: int|
            0 <= j < sources.len() ==> takes(
                here(asm_fold(st, PathView::of(v), sources, i)),
                v,
                #[trigger] sources[j],
            ),
        steady(st, asm_fold(st, PathView::of(v), sources, i)),
    decreases sources.len() - i,
{
    if i < sources.len() {
        let p = PathView::of(v);
        lemma_loads(st, p);
        reveal(assign);
        let args = if i == 0 {
            seq![sources[0]]
        } else {
            seq![sources[i], ExpView::Variable(v)]
        };
        let k = StatementKindView::Assign { dest: v, args };
        lemma_emit(st, k);
        let next = emit(st, k);
        let x = StatementView { kind: k, span: st.span };
        assert(args[0] == sources[i]);
        if i > 0 {
            assert(args[1] == ExpView::Variable(v));
        }
        assert forall|j: int| 0 <= j < i + 1 implies takes(here(next), v, #[trigger] sources[j]) by {
            if j < i {
                lemma_takes_more(here(st), v, sources[j], x);
            } else {
                let at = here(st).len() as int;
                assert(here(next)[at] == x);
                assert(holds_on(here(next), at + 1, v));
            }
        }
        lemma_asm_fold(next, v, sources, i + 1);
    }
}

/// The value of an inline assembly is written to each of its targets, in order.
pub proof fn an_assembly_writes_every_target(
    st: State,
    targets: Seq<PathView>,
    i: int,
    value: ExpView,
)
    requires
        0 <= i < targets.len(),
    ensures
        asm_writes(st, targets, i, value) == asm_writes(
            assign(st, targets[i], value, None),
            targets,
            i + 1,
            value,
        ),
{
}

/// What an inline assembly does: its sources are folded into a temporary, which is written to its
/// targets.
pub proof fn an_assembly_transfers_its_sources(
    st: State,
    sources: Seq<ExpView>,
    targets: Seq<PathView>,
)
    requires
        placed(st),
        unclaimed(st, temp_name(st.temps)),
    ensures
        ({
            let p = named(temp_named(st), temp_name(st.temps));
            let s = asm_fold(p.0, p.1, sources, 0);
            let w = asm_writes(s, targets, 0, ExpView::Variable(p.1.base));
            &&& targets.len() == 0 ==> asm_transfer(st, sources, targets) == (
                s,
                ExpView::Variable(p.1.base),
            )
            &&& targets.len() > 0 ==> asm_transfer(st, sources, targets) == read(w, targets[0])
        }),
{
    reveal(asm_transfer);
    an_assembly_carries_every_source(st, sources);
    let p = named(temp_named(st), temp_name(st.temps));
    lemma_temp(temp_named(st), st.temps);
    lemma_intern(temp_named(st), temp_name(st.temps));
    lemma_asm_fold(p.0, p.1.base, sources, 0);
    lemma_loads(asm_fold(p.0, p.1, sources, 0), p.1);
}

} // verus!
