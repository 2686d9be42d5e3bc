//! The lives of objects.
//!
//! The laws below say when the constructors and destructors of the objects of a C++ function are
//! called, and on which object.

use vstd::prelude::*;
use crate::carries::{lemma_emit, lemma_intern, lemma_loads, lemma_named, one_more, placed, steady, values_of};
use crate::classes::{class_at, defining_class, deleted, dtor_name, mangled};
use crate::error::ErrorView;
use crate::kinds::{Field, Kind};
use crate::lowering::{constructed, construction, ctor_call, delete, destroyed, expr, exprs, framed_body, heap_object, run, scope_exit, statement, vexing_arguments};
use crate::mir::{CallStyleView, ExpView, StatementKindView, VariableRef};
use crate::objects::FrameView;
use crate::scope::{with_variable, VarKind};
use crate::shapes::{kind_at, text_at};
use crate::state::{at_source, declare, fresh, named, read, temp_name, temp_named, State};
use crate::syntax::{field_child, kids_of_kind, named_child, named_children, TreeView};

verus! {

/// Whether from `a` to `b` a call is made directly to one of `targets` with the arguments `args`, of
/// which only the effects count.
pub open spec fn calls(a: State, b: State, targets: Seq<Seq<char>>, args: Seq<ExpView>) -> bool {
    exists|ret: VariableRef| #[trigger]
        one_more(
            a,
            b,
            StatementKindView::CallAssign {
                style: CallStyleView::DirectCall(targets),
                rets: seq![ret],
                args,
            },
        )
}

pub(crate) proof fn lemma_run(st: State, targets: Seq<Seq<char>>, args: Seq<ExpView>)
    requires
        placed(st),
    ensures
        calls(st, run(st, targets, args), targets, args),
        steady(st, run(st, targets, args)),
{
    lemma_intern(temp_named(st), temp_name(st.temps));
    let ret = fresh(st);
    let k = StatementKindView::CallAssign {
        style: CallStyleView::DirectCall(targets),
        rets: seq![ret.1],
        args,
    };
    lemma_emit(ret.0, k);
    assert(one_more(st, run(st, targets, args), k));
}

/// Constructing an object declares it as a local of the current scope, where it will be destroyed, and
/// calls the constructor of its class that has as many parameters as there are arguments, on the
/// object and with those arguments.
pub proof fn a_constructed_object_is_declared_and_constructed(
    st: State,
    class: Seq<char>,
    obj: Seq<char>,
    args: Seq<ExpView>,
)
    requires
        placed(st),
        st.objects.frames.len() > 0,
    ensures
        ({
            let r = constructed(st, class, obj, args);
            let s = State {
                scopes: with_variable(st.scopes, st.at.sidx, obj, VarKind::Local),
                objects: r.objects,
                ..st
            };
            let p = named(s, obj).1;
            let v = read(named(s, obj).0, p);
            &&& r.scopes == s.scopes
            &&& r.objects.types.contains_key(obj) && r.objects.types[obj] == class
            &&& r.objects.frames.last() == st.objects.frames.last().push((obj, class))
            &&& calls(
                v.0,
                r,
                seq![mangled(st.env.tables.overloads, class + "::"@ + class, args.len() as usize)],
                seq![v.1] + args,
            )
        }),
{
    reveal(constructed);
    reveal(ctor_call);
    reveal(declare);
    let a = declare(st, obj, VarKind::Local);
    let b = State { objects: a.objects.typed(obj, class).recorded(obj, class), ..a };
    let p = named(b, obj);
    lemma_named(b, obj);
    lemma_loads(p.0, p.1);
    let v = read(p.0, p.1);
    lemma_run(
        v.0,
        seq![mangled(st.env.tables.overloads, class + "::"@ + class, args.len() as usize)],
        seq![v.1] + args,
    );
    let r = constructed(st, class, obj, args);
    assert(r.objects == b.objects);
}

/// A declaration with arguments in parentheses or braces constructs its object, if the class has a
/// constructor: the arguments are lowered first, in order, and all of them are passed.
pub proof fn a_declaration_with_arguments_constructs_its_object(
    t: TreeView,
    st: State,
    n: usize,
    class: Seq<char>,
    d: usize,
    obj: usize,
    v: usize,
    u: State,
    values: Seq<ExpView>,
)
    requires
        kind_at(t, n) == Kind::Declaration,
        crate::lowering::class_named(t, at_source(st, t, n), n) == Some(class),
        class_at(st.env.tables.classes, class) matches Some(info) && info.has_ctor,
        field_child(t, n, Field::Declarator) == Some(d),
        kind_at(t, d) == Kind::InitDeclarator,
        field_child(t, d, Field::Declarator) == Some(obj),
        kind_at(t, obj) == Kind::Identifier,
        field_child(t, d, Field::Value) == Some(v),
        kind_at(t, v) == Kind::ArgumentList || kind_at(t, v) == Kind::InitializerList,
        exprs(t, at_source(st, t, n), n, named_children(t, v), 0, Seq::empty()) == (
            u,
            Ok::<Seq<ExpView>, ErrorView>(values),
        ),
    ensures
        values_of(t, at_source(st, t, n), named_children(t, v), values),
        statement(t, st, n) == (
            constructed(u, class, text_at(t, obj), values),
            Ok::<bool, ErrorView>(false),
        ),
{
    reveal(statement);
    reveal(construction);
    reveal(heap_object);
    reveal(exprs);
    let s = at_source(st, t, n);
    crate::carries::lemma_list_inside(t, n, v);
    crate::carries::expressions_are_lowered_in_order(
        t,
        s,
        n,
        named_children(t, v),
        u,
        values,
    );
    assert(heap_object(t, s, n, class) == (s, Ok::<bool, ErrorView>(false)));
    let r = constructed(u, class, text_at(t, obj), values);
    assert(construction(t, s, n, class) == (r, Ok::<bool, ErrorView>(true)));
    assert(statement(t, st, n) == (r, Ok::<bool, ErrorView>(false)));
}

/// A declaration that can be read as one of a function constructs its object too, if the class has a
/// constructor: what was read as its parameters are the arguments.
pub proof fn a_declaration_that_reads_as_a_function_constructs_its_object(
    t: TreeView,
    st: State,
    n: usize,
    class: Seq<char>,
    d: usize,
    obj: usize,
    params: usize,
    u: State,
    values: Seq<ExpView>,
)
    requires
        kind_at(t, n) == Kind::Declaration,
        crate::lowering::class_named(t, at_source(st, t, n), n) == Some(class),
        class_at(st.env.tables.classes, class) matches Some(info) && info.has_ctor,
        field_child(t, n, Field::Declarator) == Some(d),
        kind_at(t, d) == Kind::FunctionDeclarator,
        field_child(t, d, Field::Declarator) == Some(obj),
        kind_at(t, obj) == Kind::Identifier,
        field_child(t, d, Field::Parameters) == Some(params),
        kids_of_kind(t, params, Kind::ParameterDeclaration).len() > 0,
        vexing_arguments(
            t,
            at_source(st, t, n),
            n,
            kids_of_kind(t, params, Kind::ParameterDeclaration),
            0,
            Seq::empty(),
        ) == (u, Ok::<Seq<ExpView>, ErrorView>(values)),
    ensures
        statement(t, st, n) == (
            constructed(u, class, text_at(t, obj), values),
            Ok::<bool, ErrorView>(false),
        ),
{
    reveal(statement);
    reveal(construction);
    reveal(heap_object);
    reveal(vexing_arguments);
    let s = at_source(st, t, n);
    assert(heap_object(t, s, n, class) == (s, Ok::<bool, ErrorView>(false)));
    let r = constructed(u, class, text_at(t, obj), values);
    assert(construction(t, s, n, class) == (r, Ok::<bool, ErrorView>(true)));
    assert(statement(t, st, n) == (r, Ok::<bool, ErrorView>(false)));
}

/// A declaration whose initializer is a call of the class constructs its object with the arguments of
/// the call, if the class has a constructor.
pub proof fn an_initializer_that_calls_the_class_constructs_its_object(
    t: TreeView,
    st: State,
    n: usize,
    class: Seq<char>,
    d: usize,
    obj: usize,
    v: usize,
    f: usize,
    list: usize,
    u: State,
    values: Seq<ExpView>,
)
    requires
        kind_at(t, n) == Kind::Declaration,
        crate::lowering::class_named(t, at_source(st, t, n), n) == Some(class),
        class_at(st.env.tables.classes, class) matches Some(info) && info.has_ctor,
        field_child(t, n, Field::Declarator) == Some(d),
        kind_at(t, d) == Kind::InitDeclarator,
        field_child(t, d, Field::Declarator) == Some(obj),
        kind_at(t, obj) == Kind::Identifier,
        field_child(t, d, Field::Value) == Some(v),
        kind_at(t, v) == Kind::CallExpression,
        field_child(t, v, Field::Function) == Some(f),
        kind_at(t, f) == Kind::Identifier,
        text_at(t, f) == class,
        field_child(t, v, Field::Arguments) == Some(list),
        exprs(t, at_source(st, t, n), n, named_children(t, list), 0, Seq::empty()) == (
            u,
            Ok::<Seq<ExpView>, ErrorView>(values),
        ),
    ensures
        statement(t, st, n) == (
            constructed(u, class, text_at(t, obj), values),
            Ok::<bool, ErrorView>(false),
        ),
{
    reveal(statement);
    reveal(construction);
    reveal(heap_object);
    reveal(exprs);
    let s = at_source(st, t, n);
    assert(heap_object(t, s, n, class) == (s, Ok::<bool, ErrorView>(false)));
    let r = constructed(u, class, text_at(t, obj), values);
    assert(construction(t, s, n, class) == (r, Ok::<bool, ErrorView>(true)));
    assert(statement(t, st, n) == (r, Ok::<bool, ErrorView>(false)));
}

/// The objects of a scope are destroyed last first: the destructor that the last one has is called on
/// it, if it has one, and then the others are destroyed.
pub proof fn the_last_object_is_destroyed_first(st: State, frame: FrameView, k: int)
    requires
        0 < k <= frame.len(),
        placed(st),
    ensures
        ({
            let o = frame[k - 1];
            let p = named(st, o.0);
            let v = read(p.0, p.1);
            match defining_class(st.env.tables.classes, o.1) {
                Some(c) => exists|s: State|
                    calls(v.0, s, seq![dtor_name(c)], seq![v.1]) && #[trigger] destroyed(
                        s,
                        frame,
                        k - 1,
                    ) == destroyed(st, frame, k),
                None => destroyed(st, frame, k) == destroyed(st, frame, k - 1),
            }
        }),
{
    let o = frame[k - 1];
    let p = named(st, o.0);
    lemma_named(st, o.0);
    lemma_loads(p.0, p.1);
    let v = read(p.0, p.1);
    if let Some(c) = defining_class(st.env.tables.classes, o.1) {
        lemma_run(v.0, seq![dtor_name(c)], seq![v.1]);
        let s = run(v.0, seq![dtor_name(c)], seq![v.1]);
        assert(destroyed(s, frame, k - 1) == destroyed(st, frame, k));
    }
}

/// At the end of a scope that control gets to, all objects that were made in it are destroyed, and
/// they are not those of the scope around it any more. Where control does not get there, none is.
pub proof fn a_scope_destroys_its_objects(
    t: TreeView,
    st: State,
    n: usize,
    nodes: Seq<usize>,
    s: State,
    d: bool,
)
    requires
        crate::lowering::body(
            t,
            State {
                objects: crate::objects::ObjectsView {
                    frames: st.objects.frames.push(Seq::empty()),
                    ..st.objects
                },
                ..st
            },
            n,
            nodes,
            0,
            false,
        ) == (s, Ok::<bool, ErrorView>(d)),
        s.objects.frames.len() > 0,
    ensures
        ({
            let r = framed_body(t, st, n, nodes);
            let e = if d {
                s
            } else {
                destroyed(s, s.objects.frames.last(), s.objects.frames.last().len() as int)
            };
            &&& r.1 == Ok::<bool, ErrorView>(d)
            &&& r.0.fun == e.fun
            &&& e.objects.frames.len() > 0 ==> r.0.objects.frames == e.objects.frames.drop_last()
        }),
{
    reveal(framed_body);
    reveal(scope_exit);
    reveal(crate::lowering::body);
}

/// A `delete` of an object of a known class calls the destructors that it may run, on the object.
pub proof fn a_delete_calls_the_destructors(
    t: TreeView,
    st: State,
    n: usize,
    c: usize,
    targets: Seq<Seq<char>>,
)
    requires
        kind_at(t, n) == Kind::DeleteExpression,
        named_child(t, n, 0) == Some(c),
        kind_at(t, c) == Kind::Identifier,
        st.objects.types.contains_key(text_at(t, c)),
        deleted(
            st.env.tables.classes,
            st.env.tables.subclasses,
            st.objects.types[text_at(t, c)],
        ) == Some(targets),
        placed(st),
    ensures
        ({
            let p = named(st, text_at(t, c));
            let v = read(p.0, p.1);
            let e = expr(t, st, n);
            &&& e.1 is Ok
            &&& exists|s: State|
                #[trigger] calls(v.0, s, targets, seq![v.1]) && e.0.fun.blocks == s.fun.blocks
        }),
{
    reveal(expr);
    reveal(delete);
    reveal(crate::lowering::receiver);
    let p = named(st, text_at(t, c));
    lemma_named(st, text_at(t, c));
    lemma_loads(p.0, p.1);
    let v = read(p.0, p.1);
    lemma_run(v.0, targets, seq![v.1]);
    let s = run(v.0, targets, seq![v.1]);
    assert(expr(t, st, n) == delete(t, st, n));
    assert(crate::lowering::receiver(t, st, c) == (v.0, Ok::<ExpView, ErrorView>(v.1)));
    lemma_intern(temp_named(s), temp_name(s.temps));
    let o = fresh(s);
    assert(delete(t, st, n) == (o.0, Ok::<ExpView, ErrorView>(ExpView::Variable(o.1))));
}

} // verus!
