//! How a function begins.
//!
//! The laws below say what the parameters of a function are, what the names of its source mean in its
//! body, and what a constructor does before its body runs.

use vstd::prelude::*;
use crate::carries::{here, lemma_emit, lemma_loads, one_more, placed};
use crate::edges::{compound_keeps, expr_keeps, grown, kept, placed_at, statements_stay};
use crate::error::ErrorView;
use crate::function::{any_stranded, begun, body_opened, finalized, function, initialized, is_const, param_type, terminated, with_labels, with_params};
use crate::kinds::{Field, Kind};
use crate::lowering::{compound, expr, leaf_name, object_typed, unanalyzed};
use crate::mir::{AddressView, ExpView, FunctionView, ParameterType, PathView, StatementKindView, VariableRef};
use crate::report::Attribution;
use crate::scope::{declared_from, meaning, nested, VarKind, VarView};
use crate::shapes::{body_nodes, declarator_chain, function_kind, indirect_kind, kind_at, labels_in, param_of, text_at, unparenthesized};
use crate::state::{add_block, assign, declare, index_from, receiver_field, return_implicitly, State};
use crate::syntax::{field_child, first_named_child, kids_of_kind, named_children, TreeView};
use crate::units::DefView;

verus! {

// Constructors

/// Whether from `a` to `b` the member that `init` names takes the value of its expression: the
/// expression is lowered, and its value is stored to that field of the first parameter.
pub open spec fn stores_member(t: TreeView, a: State, b: State, init: (Seq<char>, usize)) -> bool {
    let e = expr(t, a, init.1);
    &&& e.1 matches Ok(v)
    &&& one_more(
        e.0,
        b,
        StatementKindView::Store {
            address: AddressView { base: VariableRef::Param(0), offsets: Seq::empty() },
            field: init.0,
            value: v,
        },
    )
}

proof fn lemma_receiver_store(st: State, name: Seq<char>, v: ExpView)
    requires
        placed(st),
    ensures
        ({
            let next = assign(st, receiver_field(name), v, None);
            &&& one_more(
                st,
                next,
                StatementKindView::Store {
                    address: AddressView { base: VariableRef::Param(0), offsets: Seq::empty() },
                    field: name,
                    value: v,
                },
            )
            &&& next.labels == st.labels
            &&& next.fun.blocks.len() == st.fun.blocks.len()
            &&& statements_stay(st.fun.blocks, next.fun.blocks)
        }),
{
    reveal(assign);
    let p = receiver_field(name);
    let q = PathView { base: p.base, fields: p.fields.drop_last() };
    lemma_loads(st, q);
    assert(crate::state::store_fields(p.fields) == p.fields);
    assert(p.fields.last() == crate::mir::SegmentView::Symbol(name));
    lemma_emit(
        st,
        StatementKindView::Store {
            address: AddressView { base: VariableRef::Param(0), offsets: Seq::empty() },
            field: name,
            value: v,
        },
    );
    reveal(crate::state::emit);
}

proof fn lemma_initialized(
    t: TreeView,
    st: State,
    inits: Seq<(Seq<char>, usize)>,
    i: int,
) -> (ss: Seq<State>)
    requires
        0 <= i <= inits.len(),
        initialized(t, st, inits, i).1 is Ok,
        placed_at(st.fun.blocks, st.labels, st.at.blidx),
    ensures
        ss.len() == inits.len() - i + 1,
        ss[0] == st,
        ss.last() == initialized(t, st, inits, i).0,
        forall|k: int|
            0 <= k < inits.len() - i ==> stores_member(t, #[trigger] ss[k], ss[k + 1], inits[i + k]),
        placed_at(ss.last().fun.blocks, ss.last().labels, ss.last().at.blidx),
        ss.last().labels == st.labels,
    decreases inits.len() - i,
{
    if i >= inits.len() {
        seq![st]
    } else {
        expr_keeps(t, st, inits[i].1);
        reveal(kept);
        let e = expr(t, st, inits[i].1);
        let v = e.1->Ok_0;
        lemma_receiver_store(e.0, inits[i].0, v);
        let next = assign(e.0, receiver_field(inits[i].0), v, None);
        let later = lemma_initialized(t, next, inits, i + 1);
        let ss = seq![st] + later;
        assert forall|k: int| 0 <= k < inits.len() - i implies stores_member(
            t,
            #[trigger] ss[k],
            ss[k + 1],
            inits[i + k],
        ) by {
            if k > 0 {
                assert(ss[k] == later[k - 1]);
                assert(ss[k + 1] == later[k]);
                assert(stores_member(t, later[k - 1], later[k - 1 + 1], inits[i + 1 + (k - 1)]));
            } else {
                assert(ss[1] == later[0]);
            }
        }
        assert(ss.last() == later.last());
        ss
    }
}

proof fn lemma_with_labels(st: State, labels: Seq<Seq<char>>, i: int)
    requires
        0 <= i,
        placed_at(st.fun.blocks, st.labels, st.at.blidx),
        with_labels(st, labels, i).1 is Ok,
    ensures
        ({
            let r = with_labels(st, labels, i).0;
            &&& r.at == st.at
            &&& here(r) == here(st)
            &&& placed_at(r.fun.blocks, r.labels, r.at.blidx)
            &&& r.scopes == st.scopes
            &&& r.fun.params == st.fun.params
            &&& r.fun.param_names == st.fun.param_names
            &&& r.objects == st.objects
            &&& forall|l: Seq<char>| st.labels.contains_key(l) ==> #[trigger] r.labels.contains_key(l)
            &&& forall|k: int|
                i <= k < labels.len() ==> r.labels.contains_key(#[trigger] labels[k])
        }),
    decreases labels.len() - i,
{
    if i < labels.len() {
        let e = "label:"@ + labels[i];
        let a = add_block(st, false, false, e);
        if let Ok(sv) = a.1 {
            assert(here(a.0) == here(st) && a.0.labels == st.labels && a.0.at == st.at
                && a.0.fun.blocks.len() == st.fun.blocks.len() + 1 && sv.blidx
                < a.0.fun.blocks.len() && a.0.scopes == st.scopes && a.0.fun.params == st.fun.params
                && a.0.fun.param_names == st.fun.param_names && a.0.objects == st.objects) by {
                reveal(add_block);
            }
            let next = State { labels: a.0.labels.insert(labels[i], sv.blidx), ..a.0 };
            lemma_with_labels(next, labels, i + 1);
            assert(next.labels.contains_key(labels[i]));
        }
    }
}

proof fn lemma_terminated(
    st: State,
    labels: Seq<Seq<char>>,
    recovery: bool,
    i: int,
    patched: Seq<usize>,
)
    requires
        0 <= i,
    ensures
        statements_stay(
            st.fun.blocks,
            terminated(st, labels, recovery, i, patched).0.fun.blocks,
        ),
        terminated(st, labels, recovery, i, patched).0.fun.params == st.fun.params,
    decreases st.fun.blocks.len() - i,
{
    if i < st.fun.blocks.len() && i <= usize::MAX {
        if st.fun.blocks[i].terminator is Some {
            lemma_terminated(st, labels, recovery, i + 1, patched);
        } else {
            let next = return_implicitly(st, i as usize);
            assert(statements_stay(st.fun.blocks, next.fun.blocks) && next.fun.blocks.len()
                == st.fun.blocks.len() && next.fun.params == st.fun.params) by {
                reveal(return_implicitly);
                reveal(crate::state::intern);
            }
            let more = if recovery && crate::function::stranded(st, labels, i as usize) {
                patched
            } else {
                patched.push(i as usize)
            };
            lemma_terminated(next, labels, recovery, i + 1, more);
        }
    }
}

/// A function begins with its parameters, and a constructor then by storing to its members: in the
/// first block, which has no other statement before, the members that it initializes take the values
/// of their expressions, one after the other. Its body follows, in which every label is known. None
/// of this is lost.
pub proof fn a_constructor_begins_with_its_members(
    t: TreeView,
    st: State,
    d: DefView,
    name: Seq<char>,
)
    requires
        st.fun.blocks.len() < usize::MAX,
        function(t, st, d, name).1 is Ok,
    ensures
        exists|ss: Seq<State>|
            {
                &&& #[trigger] ss.len() == d.inits.len() + 1
                &&& ss[0].at.blidx == st.fun.blocks.len()
                &&& here(ss[0]).len() == 0
                &&& forall|k: int|
                    0 <= k < d.inits.len() ==> stores_member(
                        t,
                        #[trigger] ss[k],
                        ss[k + 1],
                        d.inits[k],
                    )
                &&& statements_stay(
                    ss.last().fun.blocks,
                    function(t, st, d, name).0.fun.blocks,
                )
                &&& ss[0].scopes == body_opened(
                    with_params(t, begun(st, name, d.arity, d.class), named_children(t, d.params), 0),
                ).scopes
                &&& ss[0].fun.params == with_params(
                    t,
                    begun(st, name, d.arity, d.class),
                    named_children(t, d.params),
                    0,
                ).fun.params
                &&& forall|k: int|
                    0 <= k < labels_in(t, d.body).len() ==> ss.last().labels.contains_key(
                        #[trigger] labels_in(t, d.body)[k],
                    )
                &&& compound(t, ss.last(), d.node, ss.last().at, body_nodes(t, d.body)).1 is Ok
                &&& statements_stay(
                    compound(
                        t,
                        ss.last(),
                        d.node,
                        ss.last().at,
                        body_nodes(t, d.body),
                    ).0.fun.blocks,
                    function(t, st, d, name).0.fun.blocks,
                )
            },
{
    let a = begun(st, name, d.arity, d.class);
    let b = with_params(t, a, named_children(t, d.params), 0);
    lemma_with_params(t, a, named_children(t, d.params), 0);
    let c = body_opened(b);
    let labels = labels_in(t, d.body);
    assert(here(c).len() == 0);
    lemma_with_labels(c, labels, 0);
    let l = with_labels(c, labels, 0).0;
    let ss = lemma_initialized(t, l, d.inits, 0);
    let i = initialized(t, l, d.inits, 0).0;
    compound_keeps(t, i, d.node, i.at, body_nodes(t, d.body));
    reveal(grown);
    let k = compound(t, i, d.node, i.at, body_nodes(t, d.body)).0;
    let recovery = t[d.body as int].has_error;
    let u = if recovery && any_stranded(k, labels) {
        unanalyzed(k).0
    } else {
        k
    };
    assert(u.fun == k.fun) by {
        reveal(unanalyzed);
        reveal(crate::state::report);
    }
    lemma_terminated(u, labels, recovery, 0, Seq::empty());
    let r = terminated(u, labels, recovery, 0, Seq::empty()).0;
    assert(function(t, st, d, name).0.fun == r.fun) by {
        reveal(crate::state::report);
    }
    assert(statements_stay(i.fun.blocks, r.fun.blocks));
    assert(ss.len() == d.inits.len() + 1);
}

proof fn lemma_with_params(t: TreeView, st: State, nodes: Seq<usize>, i: int)
    ensures
        with_params(t, st, nodes, i).fun.blocks == st.fun.blocks,
        with_params(t, st, nodes, i).at == st.at,
        with_params(t, st, nodes, i).labels == st.labels,
    decreases nodes.len() - i,
{
    reveal(declare);
    if 0 <= i && i < nodes.len() {
        lemma_with_params(t, one_param(t, st, nodes[i]), nodes, i + 1);
    }
}

// Parameters

/// Whether an item of a parameter list is a parameter: a declaration with a declarator.
pub open spec fn is_parameter(t: TreeView, n: usize) -> bool {
    kind_at(t, n) == Kind::ParameterDeclaration && field_child(t, n, Field::Declarator) is Some
}

/// The name of a parameter and how it is passed.
pub open spec fn parameter(t: TreeView, n: usize) -> (Option<usize>, ParameterType) {
    param_type(t, n, field_child(t, n, Field::Declarator)->0)
}

/// The state after the item `n` of a parameter list has been taken in.
spec fn one_param(t: TreeView, st: State, n: usize) -> State {
    if !is_parameter(t, n) {
        st
    } else {
        let p = parameter(t, n);
        let called = match p.0 {
            Some(name) => text_at(t, name),
            None => "\0<unnamed>"@,
        };
        let names = st.fun.param_names.push(called);
        let position = index_from(names, 0, called) as usize;
        let st = State {
            fun: FunctionView { params: st.fun.params.push(p.1), param_names: names, ..st.fun },
            ..st
        };
        match p.0 {
            Some(name) => object_typed(
                t,
                declare(st, text_at(t, name), VarKind::Parameter(position)),
                n,
                text_at(t, name),
            ),
            None => st,
        }
    }
}

/// Whether number `p` is the first of some names that is `name`.
pub open spec fn first_called(names: Seq<Seq<char>>, p: int, name: Seq<char>) -> bool {
    &&& 0 <= p < names.len()
    &&& names[p] == name
    &&& forall|q: int| 0 <= q < p ==> #[trigger] names[q] != name
}

proof fn lemma_index(names: Seq<Seq<char>>, i: int, name: Seq<char>, k: int)
    requires
        0 <= i <= k < names.len(),
        names[k] == name,
        forall|q: int| 0 <= q < i ==> #[trigger] names[q] != name,
    ensures
        first_called(names, index_from(names, i, name), name),
    decreases names.len() - i,
{
    if names[i] != name {
        lemma_index(names, i + 1, name, k);
    }
}

proof fn lemma_pushed(vars: Seq<VarView>, i: int, v: VarView, name: Seq<char>)
    requires
        0 <= i <= vars.len(),
    ensures
        declared_from(vars.push(v), i, name) == (match declared_from(vars, i, name) {
            Some(w) => Some(w),
            None => if v.name == name {
                Some(v)
            } else {
                None
            },
        }),
    decreases vars.len() - i,
{
    if i < vars.len() {
        assert(vars.push(v)[i] == vars[i]);
        lemma_pushed(vars, i + 1, v, name);
    } else {
        assert(vars.push(v)[i] == v);
        assert(declared_from(vars.push(v), i + 1, name) is None);
    }
}

/// Whether `name`, where it is declared in the current scope, is the first parameter of that name.
spec fn well_named(st: State, name: Seq<char>) -> bool {
    declared_from(st.scopes[st.at.sidx as int].variables, 0, name) matches Some(v)
        ==> is_first_parameter(st.fun.param_names, v, name)
}

/// Whether `v` is the first parameter that is called `name`.
pub open spec fn is_first_parameter(names: Seq<Seq<char>>, v: VarView, name: Seq<char>) -> bool {
    v.name == name && (v.kind matches VarKind::Parameter(p) && first_called(names, p as int, name))
}

proof fn lemma_one_param(t: TreeView, st: State, n: usize, name: Seq<char>)
    requires
        st.at.sidx < st.scopes.len(),
        st.fun.param_names.len() < usize::MAX,
        well_named(st, name),
    ensures
        ({
            let r = one_param(t, st, n);
            &&& r.at == st.at
            &&& r.scopes.len() == st.scopes.len()
            &&& r.fun.param_names.len() <= st.fun.param_names.len() + 1
            &&& well_named(r, name)
            &&& declared_from(st.scopes[st.at.sidx as int].variables, 0, name) is Some
                ==> declared_from(r.scopes[st.at.sidx as int].variables, 0, name) is Some
            &&& is_parameter(t, n) && (parameter(t, n).0 matches Some(m) && text_at(t, m) == name)
                ==> declared_from(r.scopes[st.at.sidx as int].variables, 0, name) is Some
        }),
{
    reveal(declare);
    if is_parameter(t, n) {
        let r = one_param(t, st, n);
        let old_names = st.fun.param_names;
        let called = match parameter(t, n).0 {
            Some(m) => text_at(t, m),
            None => "\0<unnamed>"@,
        };
        let names = old_names.push(called);
        assert(names[old_names.len() as int] == called);
        lemma_index(names, 0, called, old_names.len() as int);
        let vars = st.scopes[st.at.sidx as int].variables;
        if let Some(v) = declared_from(vars, 0, name) {
            let p = v.kind->Parameter_0;
            assert(names[p as int] == old_names[p as int]);
            assert forall|q: int| 0 <= q < p implies #[trigger] names[q] != name by {
                assert(names[q] == old_names[q]);
            }
            assert(first_called(names, p as int, name));
        }
        if parameter(t, n).0 is Some {
            let position = index_from(names, 0, called) as usize;
            let w = VarView {
                name: called,
                kind: VarKind::Parameter(position),
                shadows: meaning(st.scopes, st.at.sidx, called) is Some,
                sidx: st.at.sidx,
            };
            lemma_pushed(vars, 0, w, name);
            assert(r.scopes[st.at.sidx as int].variables == vars.push(w));
        }
    }
}

proof fn lemma_params(t: TreeView, st: State, nodes: Seq<usize>, i: int, name: Seq<char>)
    requires
        0 <= i <= nodes.len(),
        st.at.sidx < st.scopes.len(),
        st.fun.param_names.len() + nodes.len() - i <= usize::MAX,
        well_named(st, name),
    ensures
        ({
            let r = with_params(t, st, nodes, i);
            &&& r.at == st.at
            &&& r.scopes.len() == st.scopes.len()
            &&& well_named(r, name)
            &&& declared_from(st.scopes[st.at.sidx as int].variables, 0, name) is Some
                ==> declared_from(r.scopes[st.at.sidx as int].variables, 0, name) is Some
            &&& forall|k: int|
                i <= k < nodes.len() && is_parameter(t, #[trigger] nodes[k]) && (parameter(
                    t,
                    nodes[k],
                ).0 matches Some(m) && text_at(t, m) == name) ==> declared_from(
                    r.scopes[st.at.sidx as int].variables,
                    0,
                    name,
                ) is Some
        }),
    decreases nodes.len() - i,
{
    if i < nodes.len() {
        lemma_one_param(t, st, nodes[i], name);
        let next = one_param(t, st, nodes[i]);
        lemma_params(t, next, nodes, i + 1, name);
    }
}

/// Where nothing is declared yet, the name of a parameter means the first parameter of the function
/// that has it.
pub proof fn a_name_means_its_parameter(
    t: TreeView,
    st: State,
    nodes: Seq<usize>,
    k: int,
    m: usize,
)
    requires
        st.at.sidx < st.scopes.len(),
        st.scopes[st.at.sidx as int].variables.len() == 0,
        st.fun.param_names.len() + nodes.len() <= usize::MAX,
        0 <= k < nodes.len(),
        is_parameter(t, nodes[k]),
        parameter(t, nodes[k]).0 == Some(m),
    ensures
        ({
            let r = with_params(t, st, nodes, 0);
            &&& meaning(r.scopes, r.at.sidx, text_at(t, m)) matches Some(v)
            &&& is_first_parameter(r.fun.param_names, v, text_at(t, m))
        }),
{
    lemma_params(t, st, nodes, 0, text_at(t, m));
}

proof fn lemma_params_listed(t: TreeView, st: State, nodes: Seq<usize>, i: int, ps: Seq<usize>)
    requires
        0 <= i <= nodes.len(),
        ps == nodes.skip(i).filter(|n: usize| is_parameter(t, n)),
    ensures
        ({
            let r = with_params(t, st, nodes, i).fun;
            let before = st.fun.params.len() as int;
            let named = st.fun.param_names.len() as int;
            &&& r.params.len() == before + ps.len()
            &&& r.param_names.len() == named + ps.len()
            &&& st.fun.params.is_prefix_of(r.params)
            &&& st.fun.param_names.is_prefix_of(r.param_names)
            &&& forall|j: int|
                0 <= j < ps.len() ==> r.params[before + j] == parameter(t, #[trigger] ps[j]).1
            &&& forall|j: int|
                0 <= j < ps.len() ==> (parameter(t, #[trigger] ps[j]).0 matches Some(m)
                    ==> r.param_names[named + j] == text_at(t, m))
        }),
    decreases nodes.len() - i,
{
    let p = |n: usize| is_parameter(t, n);
    reveal(declare);
    if i < nodes.len() {
        let later = nodes.skip(i + 1).filter(p);
        let next = one_param(t, st, nodes[i]);
        lemma_params_listed(t, next, nodes, i + 1, later);
        assert(nodes.skip(i) =~= seq![nodes[i]] + nodes.skip(i + 1));
        Seq::filter_distributes_over_add(seq![nodes[i]], nodes.skip(i + 1), p);
        reveal_with_fuel(Seq::filter, 2);
        let one = seq![nodes[i]];
        assert(one.drop_last() =~= Seq::<usize>::empty());
        assert(one.drop_last().filter(p) =~= Seq::<usize>::empty());
        assert(one.last() == nodes[i]);
        let first = one.filter(p);
        assert(first =~= if p(nodes[i]) {
            seq![nodes[i]]
        } else {
            Seq::empty()
        });
        assert(ps =~= first + later);
        if p(nodes[i]) {
            let r = with_params(t, st, nodes, i).fun;
            let before = st.fun.params.len() as int;
            let named = st.fun.param_names.len() as int;
            assert(r.params[before] == next.fun.params[before]);
            assert(r.param_names[named] == next.fun.param_names[named]);
            assert forall|j: int| 0 <= j < ps.len() implies r.params[before + j] == parameter(
                t,
                #[trigger] ps[j],
            ).1 by {
                if j > 0 {
                    assert(ps[j] == later[j - 1]);
                }
            }
            assert forall|j: int| 0 <= j < ps.len() implies (parameter(t, #[trigger] ps[j]).0 matches Some(
                m,
            ) ==> r.param_names[named + j] == text_at(t, m)) by {
                if j > 0 {
                    assert(ps[j] == later[j - 1]);
                }
            }
        }
    } else {
        assert(nodes.skip(i) =~= Seq::<usize>::empty());
        reveal(Seq::filter);
    }
}

/// A function has the parameters of its list, in order, after those that it had: each is passed as
/// its declarator says and goes by its name.
pub proof fn a_function_has_the_parameters_of_its_list(t: TreeView, st: State, nodes: Seq<usize>)
    ensures
        ({
            let r = with_params(t, st, nodes, 0).fun;
            let ps = nodes.filter(|n: usize| is_parameter(t, n));
            let before = st.fun.params.len() as int;
            let named = st.fun.param_names.len() as int;
            &&& r.params.len() == before + ps.len()
            &&& st.fun.params.is_prefix_of(r.params)
            &&& st.fun.param_names.is_prefix_of(r.param_names)
            &&& forall|j: int|
                0 <= j < ps.len() ==> r.params[before + j] == parameter(t, #[trigger] ps[j]).1
            &&& forall|j: int|
                0 <= j < ps.len() ==> (parameter(t, #[trigger] ps[j]).0 matches Some(m)
                    ==> r.param_names[named + j] == text_at(t, m))
        }),
{
    assert(nodes.skip(0) =~= nodes);
    lemma_params_listed(t, st, nodes, 0, nodes.filter(|n: usize| is_parameter(t, n)));
}

/// A parameter that is just a name is passed by value; one whose declarator is a pointer or an array is
/// passed by reference, unless there is a function inside; and one that is a function is passed by
/// value. The name is that of the declarator inside.
pub proof fn a_pointer_is_passed_by_reference(t: TreeView, d: usize, c: usize)
    ensures
        kind_at(t, d) == Kind::Identifier ==> param_of(t, d) == (Some(d), ParameterType::ByVal),
        (kind_at(t, d) == Kind::PointerDeclarator || kind_at(t, d) == Kind::ArrayDeclarator)
            && field_child(t, d, Field::Declarator) == Some(c) && declarator_chain(t, c).len() > 0
            ==> param_of(t, d).0 == param_of(t, c).0,
        (kind_at(t, d) == Kind::PointerDeclarator || kind_at(t, d) == Kind::ArrayDeclarator)
            && field_child(t, d, Field::Declarator) == Some(c) ==> (param_of(t, d).1
            == ParameterType::ByRef <==> forall|i: int|
            0 <= i < declarator_chain(t, c).len() ==> !function_kind(
                kind_at(t, #[trigger] declarator_chain(t, c)[i]),
            )),
        kind_at(t, d) == Kind::FunctionDeclarator ==> param_of(t, d).1 == ParameterType::ByVal,
        kind_at(t, d) == Kind::ParenthesizedDeclarator && first_named_child(t, d) == Some(c)
            ==> param_of(t, d) == param_of(t, c),
{
    let chain = declarator_chain(t, d);
    let k = kind_at(t, d);
    if k == Kind::Identifier {
        assert(chain =~= seq![d]);
        assert(chain[0] == d);
    }
    if k == Kind::FunctionDeclarator {
        assert(chain[0] == d);
        assert(function_kind(kind_at(t, chain[0])));
    }
    if k == Kind::PointerDeclarator || k == Kind::ArrayDeclarator {
        assert(chain[0] == d);
        assert(indirect_kind(kind_at(t, chain[0])));
        if field_child(t, d, Field::Declarator) == Some(c) {
            let inner = declarator_chain(t, c);
            assert(chain =~= seq![d] + inner);
            assert forall|i: int| 0 <= i < inner.len() implies #[trigger] inner[i] == chain[i + 1] by {
            }
            if inner.len() > 0 {
                assert(chain.last() == inner.last());
            }
            if forall|i: int| 0 <= i < inner.len() ==> !function_kind(kind_at(t, #[trigger] inner[i])) {
                assert forall|i: int| 0 <= i < chain.len() implies !function_kind(
                    kind_at(t, #[trigger] chain[i]),
                ) by {
                    if i > 0 {
                        assert(chain[i] == inner[i - 1]);
                    }
                }
            } else {
                let i = choose|i: int|
                    0 <= i < inner.len() && function_kind(kind_at(t, #[trigger] inner[i]));
                assert(function_kind(kind_at(t, chain[i + 1])));
            }
        }
    }
    if k == Kind::ParenthesizedDeclarator && first_named_child(t, d) == Some(c) {
        assert(unparenthesized(t, d) == unparenthesized(t, c));
        assert(chain =~= declarator_chain(t, c));
    }
}

/// A reference is passed by reference, unless its declaration says `const`, and goes by the name in it;
/// any other parameter is passed as its declarator says.
pub proof fn a_reference_is_passed_by_reference(t: TreeView, n: usize, d: usize, q: int)
    ensures
        kind_at(t, d) != Kind::ReferenceDeclarator ==> param_type(t, n, d) == param_of(t, d),
        kind_at(t, d) == Kind::ReferenceDeclarator ==> param_type(t, n, d).0 == leaf_name(t, d),
        kind_at(t, d) == Kind::ReferenceDeclarator && kids_of_kind(
            t,
            n,
            Kind::TypeQualifier,
        ).len() == 0 ==> param_type(t, n, d).1 == ParameterType::ByRef,
        kind_at(t, d) == Kind::ReferenceDeclarator && 0 <= q < kids_of_kind(
            t,
            n,
            Kind::TypeQualifier,
        ).len() && text_at(t, kids_of_kind(t, n, Kind::TypeQualifier)[q]) == "const"@
            ==> param_type(t, n, d).1 == ParameterType::ByVal,
{
    if 0 <= q < kids_of_kind(t, n, Kind::TypeQualifier).len() && text_at(
        t,
        kids_of_kind(t, n, Kind::TypeQualifier)[q],
    ) == "const"@ {
        assert(is_const(t, n));
    }
}

/// A function is begun with the parameters that it has, and with its receiver, by reference, if it has
/// one: in a scope and a block of its own, where only what is global is known.
pub proof fn a_function_is_begun_anew(
    st: State,
    name: Seq<char>,
    arity: usize,
    class: Option<(Seq<char>, bool)>,
    x: Seq<char>,
)
    requires
        0 < st.scopes.len() < usize::MAX,
        nested(st.scopes),
        st.fun.blocks.len() < usize::MAX,
    ensures
        ({
            let r = begun(st, name, arity, class);
            &&& r.fun.name == name
            &&& r.fun.return_arity == arity
            &&& r.at.blidx == st.fun.blocks.len()
            &&& r.fun.blocks.len() == st.fun.blocks.len() + 1
            &&& r.fun.blocks.last().statements.len() == 0
            &&& r.fun.blocks.last().terminator is None
            &&& st.fun.blocks.is_prefix_of(r.fun.blocks)
            &&& class matches Some((_, true)) ==> r.fun.params == st.fun.params.push(
                ParameterType::ByRef,
            ) && r.fun.param_names == st.fun.param_names.push("this"@)
            &&& !(class matches Some((_, true))) ==> r.fun.params == st.fun.params
                && r.fun.param_names == st.fun.param_names
            &&& r.scopes[r.at.sidx as int].variables.len() == 0
            &&& meaning(r.scopes, r.at.sidx, x) == meaning(st.scopes, 0, x)
            &&& meaning(body_opened(r).scopes, body_opened(r).at.sidx, x) == meaning(
                r.scopes,
                r.at.sidx,
                x,
            )
            &&& r.labels.dom().is_empty()
            &&& r.aliases.dom().is_empty()
            &&& r.unions.is_empty()
            &&& r.at.break_target is None
            &&& r.at.continue_target is None
            &&& r.at.continuation_blidx is None
        }),
{
    crate::scope::an_empty_scope_sees_what_is_around_it(st.scopes, name + ".params"@, 0, x);
    let r = begun(st, name, arity, class);
    assert(nested(r.scopes)) by {
        assert forall|i: int| #![trigger r.scopes[i]] 0 <= i < r.scopes.len() implies (
        r.scopes[i].parent matches Some(p) ==> p < i) by {
            if i < st.scopes.len() {
                assert(r.scopes[i] == st.scopes[i]);
            }
        }
    }
    crate::scope::an_empty_scope_sees_what_is_around_it(
        r.scopes,
        r.fun.name + ".body"@,
        r.at.sidx,
        x,
    );
}

// Ends

proof fn lemma_unfinished(
    st: State,
    labels: Seq<Seq<char>>,
    i: int,
    patched: Seq<usize>,
    k: int,
)
    requires
        0 <= i <= st.fun.blocks.len() <= usize::MAX,
        0 <= k < st.fun.blocks.len(),
    ensures
        ({
            let r = terminated(st, labels, false, i, patched);
            &&& r.1.len() >= patched.len()
            &&& r.0.reports == st.reports
            &&& r.0.fun.name == st.fun.name
            &&& r.0.env == st.env
            &&& k >= i && st.fun.blocks[k].terminator is None ==> r.1.len() > patched.len()
        }),
    decreases st.fun.blocks.len() - i,
{
    if i < st.fun.blocks.len() {
        if st.fun.blocks[i].terminator is Some {
            lemma_unfinished(st, labels, i + 1, patched, k);
        } else {
            crate::trees::an_implicit_return_returns_what_is_due(st, i as usize);
            let next = return_implicitly(st, i as usize);
            assert(next.reports == st.reports && next.fun.name == st.fun.name && next.env == st.env)
                by {
                reveal(return_implicitly);
                reveal(crate::state::intern);
            }
            lemma_unfinished(next, labels, i + 1, patched.push(i as usize), k);
        }
    }
}

proof fn lemma_finished(
    st: State,
    labels: Seq<Seq<char>>,
    recovery: bool,
    i: int,
    patched: Seq<usize>,
)
    requires
        0 <= i,
        forall|k: int|
            0 <= k < st.fun.blocks.len() ==> (#[trigger] st.fun.blocks[k]).terminator is Some,
    ensures
        terminated(st, labels, recovery, i, patched) == (st, patched),
    decreases st.fun.blocks.len() - i,
{
    if i < st.fun.blocks.len() && i <= usize::MAX {
        assert(st.fun.blocks[i].terminator is Some);
        lemma_finished(st, labels, recovery, i + 1, patched);
    }
}

/// A function whose blocks all have an end is left as it is. In a body that parsed, a block that was
/// left without one is reported, as the fault of the front end.
pub proof fn a_block_without_an_end_is_reported(
    st: State,
    labels: Seq<Seq<char>>,
    recovery: bool,
    k: int,
)
    requires
        st.fun.blocks.len() <= usize::MAX,
    ensures
        (forall|j: int|
            0 <= j < st.fun.blocks.len() ==> (#[trigger] st.fun.blocks[j]).terminator is Some)
            ==> finalized(st, labels, recovery) == (st, Ok::<(), ErrorView>(())),
        0 <= k < st.fun.blocks.len() && st.fun.blocks[k].terminator is None ==> {
            let r = finalized(st, labels, false);
            &&& r.0.reports.len() == st.reports.len() + 1
            &&& r.0.reports.last().attribution == Attribution::FrontendGap
            &&& r.1 is Err <==> st.env.strict
        },
{
    if forall|j: int|
        0 <= j < st.fun.blocks.len() ==> (#[trigger] st.fun.blocks[j]).terminator is Some {
        lemma_finished(st, labels, recovery, 0, Seq::empty());
    }
    if 0 <= k < st.fun.blocks.len() && st.fun.blocks[k].terminator is None {
        lemma_unfinished(st, labels, 0, Seq::empty(), k);
        reveal(crate::state::report);
    }
}

} // verus!
