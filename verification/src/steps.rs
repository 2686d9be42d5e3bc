//! What statements do.
//!
//! The laws below say what each kind of statement leaves: which values are returned, which variables
//! are declared and initialized, where jumps lead, and that no statement of a body is left out.

use vstd::prelude::*;
use crate::carries::{here, placed};
use crate::edges::{flows, leads, link_keeps};
use crate::error::ErrorView;
use crate::kinds::{Field, Kind};
use crate::lowering::{after_divergence, asm_jumps, assignment, body, declaration, declared, expr, framed_body, goto, initializer, jump, labeled, line_text, link_labels, location, reference, return_from, statement, statements};
use crate::mir::{ExpView, PathView, TerminatorView};
use crate::report::Attribution;
use crate::scope::{with_variable, VarKind};
use crate::shapes::{body_nodes, kind_at, text_at};
use crate::state::{add_block, at_source, declare, ended, link, moved, named, open_scope, report, return_implicitly, Outcome, ScopeView, State};
use crate::syntax::{child_at, field_child, field_children, inside, TreeView};

verus! {

// Bodies

/// A block consists of all that it holds; any other statement that is not empty is a body by itself.
pub proof fn a_body_leaves_nothing_out(t: TreeView, n: usize)
    requires
        n < t.len(),
        n != usize::MAX,
    ensures
        kind_at(t, n) == Kind::CompoundStatement ==> body_nodes(t, n) == t[n as int].children,
        kind_at(t, n) != Kind::CompoundStatement && kind_at(t, n) != Kind::Semicolon && kind_at(t, n)
            != Kind::EmptyStatement && kind_at(t, n) != Kind::ExpressionStatement ==> body_nodes(
            t,
            n,
        ) == seq![n],
        kind_at(t, n) == Kind::ExpressionStatement ==> (body_nodes(t, n) == seq![n] || (child_at(
            t,
            n,
            0,
        ) matches Some(c) && (kind_at(t, c) == Kind::Semicolon || kind_at(t, c)
            == Kind::EmptyStatement))),
{
}

/// Every statement of a body is lowered, in order, each where the one before it has left off.
/// Comments and tokens are no statements. After a statement that control does not get past, what
/// follows is lowered to a block that nothing leads to.
pub proof fn a_body_lowers_its_statements_in_order(
    t: TreeView,
    st: State,
    n: usize,
    nodes: Seq<usize>,
    i: int,
    diverged: bool,
    s: State,
    d: bool,
)
    requires
        0 <= i < nodes.len(),
        inside(t, n, nodes[i]),
    ensures
        !t[nodes[i] as int].named || kind_at(t, nodes[i]) == Kind::Comment ==> body(
            t,
            st,
            n,
            nodes,
            i,
            diverged,
        ) == body(t, st, n, nodes, i + 1, diverged),
        t[nodes[i] as int].named && kind_at(t, nodes[i]) != Kind::Comment && !diverged && statement(
            t,
            st,
            nodes[i],
        ) == (s, Ok::<bool, ErrorView>(d)) ==> body(t, st, n, nodes, i, diverged) == body(
            t,
            s,
            n,
            nodes,
            i + 1,
            d,
        ),
        t[nodes[i] as int].named && kind_at(t, nodes[i]) != Kind::Comment && diverged && placed(st)
            ==> exists|b: State|
            {
                &&& b.at.blidx == st.fun.blocks.len() as usize
                &&& b.fun.blocks.len() == st.fun.blocks.len() + 1
                &&& b.at.sidx == st.at.sidx
                &&& #[trigger] statement(t, b, nodes[i]).1 is Ok ==> body(
                    t,
                    st,
                    n,
                    nodes,
                    i,
                    diverged,
                ) == body(
                    t,
                    statement(t, b, nodes[i]).0,
                    n,
                    nodes,
                    i + 1,
                    statement(t, b, nodes[i]).1->Ok_0,
                )
            },
{
    reveal(body);
    reveal(statement);
    if t[nodes[i] as int].named && kind_at(t, nodes[i]) != Kind::Comment && diverged && placed(st) {
        reveal(after_divergence);
        reveal(add_block);
        let e = "after_diverge::"@ + crate::lowering::line_text(t, nodes[i]);
        let b = after_divergence(st, e).0;
        assert(after_divergence(st, e).1 is Ok);
        if statement(t, b, nodes[i]).1 is Ok {
            let r = statement(t, b, nodes[i]);
            assert(body(t, st, n, nodes, i, diverged) == body(t, r.0, n, nodes, i + 1, r.1->Ok_0));
        }
    }
}

/// A body without statements is passed.
pub proof fn an_empty_body_is_passed(
    t: TreeView,
    st: State,
    n: usize,
    nodes: Seq<usize>,
    diverged: bool,
)
    ensures
        body(t, st, n, nodes, nodes.len() as int, diverged) == (
            st,
            Ok::<bool, ErrorView>(diverged),
        ),
{
    reveal(body);
}

/// A block is lowered in a scope of its own: in the same block of the function, in a new scope inside
/// the current one. What it declares is gone after it.
pub proof fn a_block_has_a_scope_of_its_own(t: TreeView, st: State, n: usize, s: State, d: bool)
    requires
        kind_at(t, n) == Kind::CompoundStatement,
        framed_body(
            t,
            moved(
                open_scope(at_source(st, t, n), st.fun.name + ".cs"@).0,
                ScopeView { sidx: st.scopes.len() as usize, ..st.at },
            ),
            n,
            t[n as int].children,
        ) == (s, Ok::<bool, ErrorView>(d)),
    ensures
        statement(t, st, n).1 == Ok::<bool, ErrorView>(d),
        statement(t, st, n).0.at.sidx == st.at.sidx,
        statement(t, st, n).0.at.blidx == s.at.blidx,
        statement(t, st, n).0.fun == s.fun,
{
    reveal(statement);
    reveal(open_scope);
    reveal(framed_body);
}

// Simple statements

/// An expression statement does what its expression does, and control gets past it.
pub proof fn an_expression_statement_lowers_its_expression(t: TreeView, st: State, n: usize, c: usize)
    requires
        kind_at(t, n) == Kind::ExpressionStatement,
        child_at(t, n, 0) == Some(c),
        kind_at(t, c) != Kind::Semicolon,
        kind_at(t, c) != Kind::EmptyStatement,
    ensures
        statement(t, st, n).0 == expr(t, at_source(st, t, n), c).0,
        expr(t, at_source(st, t, n), c).1 is Ok ==> statement(t, st, n).1 == Ok::<bool, ErrorView>(
            false,
        ),
{
    reveal(statement);
    reveal(expr);
    let e = expr(t, at_source(st, t, n), c);
    match e {
        (s, Ok(_)) => {
            assert(statement(t, st, n) == (s, Ok::<bool, ErrorView>(false)));
        },
        (s, Err(x)) => {
            assert(statement(t, st, n) == (s, Err::<bool, ErrorView>(x)));
        },
    }
}

/// A return ends its block with the value of its expression, and control does not get past it.
pub proof fn a_return_returns_its_value(
    t: TreeView,
    st: State,
    n: usize,
    c: usize,
    s: State,
    v: ExpView,
)
    requires
        kind_at(t, n) == Kind::ReturnStatement,
        child_at(t, n, 1) == Some(c),
        kind_at(t, c) != Kind::Semicolon,
        expr(t, at_source(st, t, n), c) == (s, Ok::<ExpView, ErrorView>(v)),
        placed(s),
    ensures
        statement(t, st, n).1 == Ok::<bool, ErrorView>(true),
        statement(t, st, n).0.fun.blocks[s.at.blidx as int].terminator == Some(
            TerminatorView::Return(seq![v]),
        ),
        here(statement(t, st, n).0) == here(s),
{
    reveal(statement);
    reveal(return_from);
    reveal(expr);
    let r = ended(s, s.at.blidx, TerminatorView::Return(seq![v]));
    assert(return_from(t, at_source(st, t, n), n) == (r, Ok::<(), ErrorView>(())));
    assert(statement(t, st, n) == (r, Ok::<bool, ErrorView>(true)));
}

/// A return without a value returns nothing from a function that returns nothing, and otherwise as
/// many values as the function returns, of a local that no name of the source is.
pub proof fn a_bare_return_returns_what_the_function_returns(
    t: TreeView,
    st: State,
    n: usize,
)
    requires
        kind_at(t, n) == Kind::ReturnStatement,
        child_at(t, n, 1) matches Some(c) ==> kind_at(t, c) == Kind::Semicolon,
        placed(st),
    ensures
        ({
            let r = statement(t, st, n);
            &&& r.1 == Ok::<bool, ErrorView>(true)
            &&& r.0.fun.blocks[st.at.blidx as int].terminator matches Some(TerminatorView::Return(args))
            &&& args.len() == st.fun.return_arity
            &&& forall|k: int| 0 <= k < args.len() ==> #[trigger] args[k] is Variable
            &&& here(r.0) == here(st)
        }),
{
    reveal(statement);
    reveal(return_from);
    reveal(return_implicitly);
    reveal(crate::state::intern);
    let s = at_source(st, t, n);
    let r = return_implicitly(s, s.at.blidx);
    assert(return_from(t, s, n) == (r, Ok::<(), ErrorView>(())));
    assert(statement(t, st, n) == (r, Ok::<bool, ErrorView>(true)));
}

// Jumps

/// A `goto` leads from its block to that of its label, and lowering goes on in a new block.
pub proof fn a_goto_leads_to_its_label(t: TreeView, st: State, n: usize, l: usize)
    requires
        kind_at(t, n) == Kind::GotoStatement,
        field_child(t, n, Field::Label) == Some(l),
        st.labels.contains_key(text_at(t, l)),
        placed(st),
        statement(t, st, n).1 is Ok,
    ensures
        flows(statement(t, st, n).0.fun.blocks, st.at.blidx, st.labels[text_at(t, l)]),
        statement(t, st, n).0.at.blidx == st.fun.blocks.len() as usize,
        statement(t, st, n).0.fun.blocks.len() == st.fun.blocks.len() + 1,
{
    reveal(statement);
    reveal(goto);
    reveal(after_divergence);
    reveal(add_block);
    broadcast use link_keeps;

    let s = at_source(st, t, n);
    let to = st.labels[text_at(t, l)];
    let a = link(s, s.at.blidx, to);
    let g = goto(t, s, n);
    assert(g.1 is Ok);
    assert(statement(t, st, n).0 == g.0);
    assert(leads(a.0.fun.blocks[st.at.blidx as int], to));
}

/// A labeled statement is lowered to the block of its label, to which control goes from the block
/// before it.
pub proof fn a_label_is_entered(t: TreeView, st: State, n: usize, l: usize)
    requires
        kind_at(t, n) == Kind::LabeledStatement,
        field_child(t, n, Field::Label) == Some(l),
        st.labels.contains_key(text_at(t, l)),
        placed(st),
        statement(t, st, n).1 is Ok,
    ensures
        exists|s: State|
            {
                &&& flows(s.fun.blocks, st.at.blidx, st.labels[text_at(t, l)])
                &&& s.at.blidx == st.labels[text_at(t, l)]
                &&& s.at.sidx == st.at.sidx
                &&& s.walked == st.walked.insert(st.labels[text_at(t, l)])
                &&& #[trigger] statements(
                    t,
                    s,
                    n,
                    crate::lowering::except(crate::syntax::named_children(t, n), Some(l), 0),
                    0,
                ) == statement(t, st, n)
            },
{
    reveal(statement);
    reveal(labeled);
    reveal(statements);
    broadcast use link_keeps;

    let s = at_source(st, t, n);
    let b = st.labels[text_at(t, l)];
    let a = link(State { walked: s.walked.insert(b), ..s }, s.at.blidx, b);
    assert(statement(t, st, n) == labeled(t, s, n));
    let x = moved(a.0, ScopeView { blidx: b, ..a.0.at });
    assert(a.0.walked == st.walked.insert(b)) by {
        reveal(link);
        reveal(crate::state::report);
    }
    assert(statements(
        t,
        x,
        n,
        crate::lowering::except(crate::syntax::named_children(t, n), Some(l), 0),
        0,
    ) == labeled(t, s, n));
}

// Declarations

/// The declarators of a declaration are taken one after the other. One with an initializer declares
/// its variable and initializes it; a name alone is declared; a reference stands for the place that
/// its initializer names.
pub proof fn a_declaration_takes_every_declarator(
    t: TreeView,
    st: State,
    n: usize,
    nodes: Seq<usize>,
    i: int,
)
    requires
        0 <= i < nodes.len(),
        inside(t, n, nodes[i]),
    ensures
        ({
            let d = nodes[i];
            let k = kind_at(t, d);
            let s = crate::lowering::object_declared(t, st, n, d);
            let whole = declaration(t, st, n, nodes, i);
            &&& k == Kind::Identifier && declared(t, s, n, d, d).1 is Ok ==> whole == declaration(
                t,
                declared(t, s, n, d, d).0,
                n,
                nodes,
                i + 1,
            )
            &&& k == Kind::InitDeclarator ==> (field_child(t, d, Field::Declarator) matches Some(x)
                ==> {
                &&& kind_at(t, x) != Kind::ReferenceDeclarator && declared(t, s, n, d, x).1 is Ok
                    ==> whole == declaration(t, declared(t, s, n, d, x).0, n, nodes, i + 1)
                &&& kind_at(t, x) == Kind::ReferenceDeclarator && reference(t, s, n, d).1 is Ok
                    ==> whole == declaration(t, reference(t, s, n, d).0, n, nodes, i + 1)
            })
            &&& k == Kind::PointerDeclarator || k == Kind::ArrayDeclarator || k
                == Kind::ParenthesizedDeclarator || k == Kind::FunctionDeclarator ==> (expr(
                t,
                s,
                d,
            ).1 is Ok ==> whole == declaration(t, expr(t, s, d).0, n, nodes, i + 1))
        }),
{
    reveal(declaration);
    reveal(declared);
    reveal(reference);
    reveal(expr);
    let d = nodes[i];
    let s = crate::lowering::object_declared(t, st, n, d);
    let x = crate::syntax::part(t, d, Field::Declarator);
    let k = kind_at(t, d);
    if k == Kind::Identifier && declared(t, s, n, d, d).1 is Ok {
        assert(declaration(t, st, n, nodes, i) == declaration(
            t,
            declared(t, s, n, d, d).0,
            n,
            nodes,
            i + 1,
        ));
    }
    if k == Kind::InitDeclarator && kind_at(t, x) != Kind::ReferenceDeclarator && declared(
        t,
        s,
        n,
        d,
        x,
    ).1 is Ok {
        assert(declaration(t, st, n, nodes, i) == declaration(
            t,
            declared(t, s, n, d, x).0,
            n,
            nodes,
            i + 1,
        ));
    }
    if k == Kind::InitDeclarator && kind_at(t, x) == Kind::ReferenceDeclarator && reference(
        t,
        s,
        n,
        d,
    ).1 is Ok {
        assert(declaration(t, st, n, nodes, i) == declaration(
            t,
            reference(t, s, n, d).0,
            n,
            nodes,
            i + 1,
        ));
    }
    if k == Kind::PointerDeclarator || k == Kind::ArrayDeclarator || k
        == Kind::ParenthesizedDeclarator || k == Kind::FunctionDeclarator {
        if expr(t, s, d).1 is Ok {
            assert(declaration(t, st, n, nodes, i) == declaration(
                t,
                expr(t, s, d).0,
                n,
                nodes,
                i + 1,
            ));
        }
    }
}

/// A declared variable is a local of the current scope, and takes the value of its initializer: by an
/// assignment, or, if that is in braces, element by element.
pub proof fn a_declared_variable_takes_its_initializer(
    t: TreeView,
    st: State,
    n: usize,
    d: usize,
    ident: usize,
)
    requires
        !(field_child(t, n, Field::Type) matches Some(ty) && kind_at(t, ty)
            == Kind::UnionSpecifier),
    ensures
        ({
            let s = State {
                scopes: with_variable(
                    st.scopes,
                    st.at.sidx,
                    text_at(t, ident),
                    VarKind::Local,
                ),
                ..st
            };
            let r = declared(t, st, n, d, ident);
            match field_child(t, d, Field::Value) {
                None => r == (s, Ok::<(), ErrorView>(())),
                Some(v) => if kind_at(t, v) == Kind::InitializerList {
                    r == initializer(t, s, n, ident, v)
                } else {
                    r.0 == assignment(t, s, n, ident, v, None).0 && (r.1 is Ok <==> assignment(
                        t,
                        s,
                        n,
                        ident,
                        v,
                        None,
                    ).1 is Ok)
                },
            }
        }),
{
    reveal(declared);
    reveal(declare);
    reveal(initializer);
    reveal(assignment);
    let s = declare(st, text_at(t, ident), VarKind::Local);
    if let Some(v) = field_child(t, d, Field::Value) {
        if kind_at(t, v) == Kind::InitializerList {
            assert(declared(t, st, n, d, ident) == initializer(t, s, n, ident, v));
        } else {
            let a = assignment(t, s, n, ident, v, None);
            assert(declared(t, st, n, d, ident).0 == a.0);
        }
    }
}

/// The name of a reference means the place that its initializer names.
pub proof fn a_reference_stands_for_its_place(
    t: TreeView,
    st: State,
    n: usize,
    d: usize,
    leaf: usize,
    v: usize,
    s: State,
    p: PathView,
)
    requires
        crate::lowering::leaf_name(t, d) == Some(leaf),
        field_child(t, d, Field::Value) == Some(v),
        inside(t, n, v),
        location(t, st, v) == (s, Ok::<PathView, ErrorView>(p)),
    ensures
        reference(t, st, n, d).1 is Ok,
        named(reference(t, st, n, d).0, text_at(t, leaf)).1 == p,
        reference(t, st, n, d).0.fun == s.fun,
{
    reveal(reference);
    reveal(location);
    reveal(named);
    let r = State { objects: s.objects.bound(text_at(t, leaf), p), ..s };
    assert(reference(t, st, n, d) == (r, Ok::<(), ErrorView>(())));
}

// Which law is whose

/// A loop, a branch, a declaration and a label are lowered as what they are; control gets past all of
/// them but the last, of which the labeled statement decides.
pub proof fn a_statement_is_lowered_as_what_it_is(t: TreeView, st: State, n: usize)
    ensures
        ({
            let k = kind_at(t, n);
            let s = at_source(st, t, n);
            let r = statement(t, st, n);
            &&& k == Kind::IfStatement ==> passes(r, crate::lowering::if_else(t, s, n))
            &&& k == Kind::WhileStatement ==> passes(r, crate::lowering::while_loop(t, s, n))
            &&& k == Kind::DoStatement ==> passes(r, crate::lowering::do_loop(t, s, n))
            &&& k == Kind::ForStatement ==> passes(r, crate::lowering::for_loop(t, s, n))
            &&& k == Kind::SwitchStatement ==> passes(r, crate::lowering::switch(t, s, n))
            &&& k == Kind::Declaration && crate::lowering::class_named(t, s, n) is None ==> passes(
                r,
                declaration(t, s, n, field_children(t, n, Field::Declarator), 0),
            )
            &&& k == Kind::LabeledStatement ==> r == labeled(t, s, n)
            &&& k == Kind::Comment ==> r == (s, Ok::<bool, ErrorView>(false))
        }),
{
    reveal(statement);
    reveal(crate::lowering::if_else);
    reveal(crate::lowering::while_loop);
    reveal(crate::lowering::do_loop);
    reveal(crate::lowering::for_loop);
    reveal(crate::lowering::switch);
    reveal(declaration);
    reveal(labeled);
    let s = at_source(st, t, n);
    let k = kind_at(t, n);
    if k == Kind::IfStatement {
        lemma_passes(statement(t, st, n), crate::lowering::if_else(t, s, n));
    } else if k == Kind::WhileStatement {
        lemma_passes(statement(t, st, n), crate::lowering::while_loop(t, s, n));
    } else if k == Kind::DoStatement {
        lemma_passes(statement(t, st, n), crate::lowering::do_loop(t, s, n));
    } else if k == Kind::ForStatement {
        lemma_passes(statement(t, st, n), crate::lowering::for_loop(t, s, n));
    } else if k == Kind::SwitchStatement {
        lemma_passes(statement(t, st, n), crate::lowering::switch(t, s, n));
    } else if k == Kind::Declaration && crate::lowering::class_named(t, s, n) is None {
        lemma_passes(
            statement(t, st, n),
            declaration(t, s, n, field_children(t, n, Field::Declarator), 0),
        );
    } else if k == Kind::LabeledStatement {
        assert(statement(t, st, n) == labeled(t, s, n));
    }
}

/// Whether a statement leaves what `o` leaves, and is passed where `o` succeeds.
pub open spec fn passes(r: Outcome<bool>, o: Outcome<()>) -> bool {
    &&& r.0 == o.0
    &&& o.1 is Ok ==> r.1 == Ok::<bool, ErrorView>(false)
    &&& o.1 is Err ==> r.1 is Err
}

proof fn lemma_passes(r: Outcome<bool>, o: Outcome<()>)
    requires
        r == (match o {
            (s, Err(e)) => (s, Err::<bool, ErrorView>(e)),
            (s, Ok(_)) => (s, Ok::<bool, ErrorView>(false)),
        }),
    ensures
        passes(r, o),
{
}

/// A `switch` has a default if one of its arms has no value.
pub proof fn a_default_is_an_arm_without_a_value(t: TreeView, arms: Seq<usize>, i: int)
    requires
        0 <= i,
    ensures
        crate::lowering::has_default(t, arms, i) <==> exists|k: int|
            i <= k < arms.len() && field_child(t, #[trigger] arms[k], Field::Value) is None,
    decreases arms.len() - i,
{
    if i < arms.len() {
        a_default_is_an_arm_without_a_value(t, arms, i + 1);
        let any = exists|k: int|
            i <= k < arms.len() && field_child(t, #[trigger] arms[k], Field::Value) is None;
        let later = exists|k: int|
            i + 1 <= k < arms.len() && field_child(t, #[trigger] arms[k], Field::Value) is None;
        assert(any <==> field_child(t, arms[i], Field::Value) is None || later);
    }
}

/// An arm of a `switch` consists of all that it holds but for its value, in order.
pub proof fn an_arm_leaves_only_its_value_out(nodes: Seq<usize>, x: Option<usize>, i: int, c: usize)
    requires
        0 <= i <= nodes.len(),
    ensures
        crate::lowering::except(nodes, x, i).contains(c) <==> x != Some(c) && nodes.skip(
            i,
        ).contains(c),
        x is None ==> crate::lowering::except(nodes, x, i) == nodes.skip(i),
    decreases nodes.len() - i,
{
    let r = crate::lowering::except(nodes, x, i);
    let s = nodes.skip(i);
    if i < nodes.len() {
        an_arm_leaves_only_its_value_out(nodes, x, i + 1, c);
        let later = crate::lowering::except(nodes, x, i + 1);
        let rest = nodes.skip(i + 1);
        assert(s =~= seq![nodes[i]] + rest);
        lemma_first_or_later(nodes[i], rest, c);
        lemma_first_or_later(nodes[i], later, c);
    } else {
        assert(s =~= Seq::<usize>::empty());
    }
}

proof fn lemma_first_or_later(a: usize, s: Seq<usize>, c: usize)
    ensures
        (seq![a] + s).contains(c) <==> a == c || s.contains(c),
{
    let all = seq![a] + s;
    assert(all[0] == a);
    if s.contains(c) {
        let k = choose|k: int| 0 <= k < s.len() && s[k] == c;
        assert(all[k + 1] == c);
    }
    if all.contains(c) && a != c {
        let k = choose|k: int| 0 <= k < all.len() && all[k] == c;
        assert(s[k - 1] == c);
    }
}

/// The condition of a statement is what stands in its clause, or the condition itself where there is
/// no clause around it.
pub proof fn a_condition_is_what_its_clause_holds(t: TreeView, n: usize, c: usize)
    requires
        field_child(t, n, Field::Condition) == Some(c),
    ensures
        crate::lowering::condition(t, n) == match field_child(t, c, Field::Value) {
            Some(v) => v,
            None => c,
        },
{
}

// Strays

/// A `break` or a `continue` that leads nowhere, and a `goto` to a label that is not there, are
/// reported as the source's fault; control goes on behind them.
pub proof fn a_stray_jump_is_reported(t: TreeView, st: State, n: usize, l: usize)
    requires
        ({
            ||| kind_at(t, n) == Kind::BreakStatement && st.at.break_target is None
            ||| kind_at(t, n) == Kind::ContinueStatement && st.at.continue_target is None
            ||| {
                &&& kind_at(t, n) == Kind::GotoStatement
                &&& field_child(t, n, Field::Label) == Some(l)
                &&& !st.labels.contains_key(text_at(t, l))
            }
        }),
    ensures
        ({
            let r = statement(t, st, n);
            &&& r.0.reports.len() == st.reports.len() + 1
            &&& r.0.reports.last().attribution == Attribution::SourceProblem
            &&& r.0.fun == st.fun
            &&& r.0.at == st.at
            &&& !st.env.strict ==> r.1 == Ok::<bool, ErrorView>(false)
            &&& st.env.strict ==> r.1 is Err
        }),
{
    reveal(statement);
    reveal(jump);
    reveal(goto);
    reveal(report);
}

proof fn lemma_links(
    t: TreeView,
    st: State,
    labels: Seq<usize>,
    i: int,
    linked: Seq<usize>,
    k: int,
)
    requires
        0 <= i <= labels.len(),
        st.at.blidx < st.fun.blocks.len(),
        link_labels(t, st, labels, i, linked).1 is Ok,
        forall|j: int|
            0 <= j < linked.len() ==> leads(
                st.fun.blocks[st.at.blidx as int],
                #[trigger] linked[j],
            ),
        0 <= k < labels.len(),
        st.labels.contains_key(text_at(t, labels[k])),
    ensures
        ({
            let r = link_labels(t, st, labels, i, linked).0;
            &&& r.at == st.at
            &&& r.labels == st.labels
            &&& st.at.blidx < r.fun.blocks.len()
            &&& k >= i ==> leads(
                r.fun.blocks[st.at.blidx as int],
                st.labels[text_at(t, labels[k])],
            )
            &&& forall|b: usize|
                leads(st.fun.blocks[st.at.blidx as int], b) ==> #[trigger] leads(
                    r.fun.blocks[st.at.blidx as int],
                    b,
                )
        }),
    decreases labels.len() - i,
{
    if i < labels.len() {
        let label = text_at(t, labels[i]);
        if !st.labels.contains_key(label) {
            let m = "`asm goto` to undefined label `"@ + label + "`"@;
            let r = report(st, Attribution::SourceProblem, m);
            assert(r.0.fun == st.fun && r.0.at == st.at && r.0.labels == st.labels) by {
                reveal(report);
            }
            lemma_links(t, r.0, labels, i + 1, linked, k);
        } else if linked.contains(st.labels[label]) {
            let j = choose|j: int| 0 <= j < linked.len() && linked[j] == st.labels[label];
            assert(leads(st.fun.blocks[st.at.blidx as int], linked[j]));
            lemma_links(t, st, labels, i + 1, linked, k);
        } else {
            let b = st.labels[label];
            let r = link(st, st.at.blidx, b);
            let was = st.fun.blocks[st.at.blidx as int];
            let now = r.0.fun.blocks[st.at.blidx as int];
            assert(r.0.at == st.at && r.0.labels == st.labels && r.0.fun.blocks.len()
                == st.fun.blocks.len()) by {
                reveal(link);
                reveal(report);
            }
            assert(leads(now, b) && forall|x: usize| leads(was, x) ==> #[trigger] leads(now, x)) by {
                reveal(link);
                reveal(report);
                if let Some(TerminatorView::Goto(targets)) = was.terminator {
                    let more = targets.push(b);
                    assert(more[targets.len() as int] == b);
                    assert forall|x: usize| targets.contains(x) implies more.contains(x) by {
                        let j = choose|j: int| 0 <= j < targets.len() && targets[j] == x;
                        assert(more[j] == x);
                    }
                } else {
                    assert(seq![b][0] == b);
                }
            }
            let all = linked.push(b);
            assert forall|j: int| 0 <= j < all.len() implies leads(now, #[trigger] all[j]) by {
                if j < linked.len() {
                    assert(leads(was, linked[j]));
                }
            }
            lemma_links(t, r.0, labels, i + 1, all, k);
        }
    }
}

/// An inline assembly may go on at every label that it names, if there is such a label, and past it.
pub proof fn an_assembly_leads_to_its_labels(t: TreeView, st: State, n: usize, list: usize, k: int)
    requires
        field_child(t, n, Field::GotoLabels) == Some(list),
        0 <= k < field_children(t, list, Field::Label).len(),
        st.labels.contains_key(text_at(t, field_children(t, list, Field::Label)[k])),
        st.at.blidx < st.fun.blocks.len() < usize::MAX,
        asm_jumps(t, st, n).1 is Ok,
    ensures
        exists|s: State|
            {
                &&& leads(
                    s.fun.blocks[st.at.blidx as int],
                    st.labels[text_at(t, field_children(t, list, Field::Label)[k])],
                )
                &&& #[trigger] add_block(
                    s,
                    false,
                    true,
                    "after_asm_goto::"@ + line_text(t, n),
                ).1 is Ok
                &&& s.at == st.at
            },
{
    reveal(asm_jumps);
    let labels = field_children(t, list, Field::Label);
    lemma_links(t, st, labels, 0, Seq::empty(), k);
    let s = link_labels(t, st, labels, 0, Seq::empty()).0;
    assert(add_block(
        s,
        false,
        true,
        "after_asm_goto::"@ + line_text(t, n),
    ).1 is Ok);
}

} // verus!
