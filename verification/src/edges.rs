//! Where control goes.
//!
//! Lowering only adds blocks and edges: whatever a statement or an expression is, no edge that was
//! there is lost, and a `break`, a `continue` and the end of the body lead to where they led. So what
//! a loop or a branch has linked stays linked, whatever its parts are, and the laws at the end of this
//! file say which edges there are.

use vstd::prelude::*;
use crate::error::ErrorView;
use crate::kinds::{Field, Kind};
use crate::lowering::{address_of, after_divergence, alias_after, allocated, argument_nodes, arm_blocks, arm_nodes, arm_view, asm_fold, asm_inputs, asm_jumps, asm_labels, asm_outputs, asm_transfer, asm_writes, assembly, assignment, binary, blame, blend, blend_more, block_effects, block_place, block_value, block_walk, body, braced, call, call_style, called, cast_operands, cast_shaped, class_named, clause, combined, compound, compound_literal, condition, conditional, constant_kind, constructed, construction, constructor_arguments, ctor_call, declaration, declared, declares_union, delete, dereferenced, destroyed, do_loop, elements, else_branch, except, expr, exprs, for_loop, framed_body, generic, goto, has_ctor, has_default, has_operator, heap_object, identifier, if_else, incremented, initializer, is_block, jump, labeled, layout_of, leaf_name, line_text, link_arms, link_labels, location, method_at, method_call, method_of, nested_declarator, not_a_place, object_declared, object_place, place_rank, placed, plain_call, pointer, receiver, receiver_class, reference, return_from, run, scope_exit, statement, statements, switch, switch_arms, through_call, unanalyzed, unparsable, unsupported, update, value_of, vexing_argument, vexing_arguments, while_loop, yielded};
use crate::mir::{BlockView, CallStyleView, ExpView, FunctionView, PathView, SegmentView, StatementKindView, TerminatorView, VariableRef};
use crate::objects::FrameView;
use crate::report::Attribution;
use crate::scope::VarKind;
use crate::shapes::{array_rank, asm_operands, asm_readwrite, bare_callee, body_nodes, empty_kind, generic_parts, kind_at, text_at, type_tag, SlotView};
use crate::state::{add_block, assign, at_source, declare, emit, ended, fresh, inner_scope_name, intern, link, link_end, load_steps, loads, moved, named, open_scope, read, report, return_implicitly, temp_name, temp_named, with_block, ScopeView, State};
use crate::syntax::{child_at, field_child, field_children, first_named_child, inside, kids, kids_of_kind, lemma_kids_where, named_child, named_children, paren_inner, part, plain_children, rest, subscript_index, NodeView, TreeView};
use crate::classes::{defining_class, dtor_name};
use crate::text::dec;

verus! {

/// Whether control goes on from a block to block `to`. A block that returns has no way on, so nothing
/// is asked of it.
pub open spec fn leads(b: BlockView, to: usize) -> bool {
    match b.terminator {
        Some(TerminatorView::Goto(targets)) => targets.contains(to),
        Some(TerminatorView::Return(_)) => true,
        None => false,
    }
}

/// Whether no edge of `a` is lost in `b`.
pub open spec fn edges_stay(a: Seq<BlockView>, b: Seq<BlockView>) -> bool {
    &&& a.len() <= b.len()
    &&& forall|i: int, to: usize|
        0 <= i < a.len() && leads(a[i], to) ==> #[trigger] leads(b[i], to)
}

/// Whether no statement of `a` is lost or changed in `b`.
pub open spec fn statements_stay(a: Seq<BlockView>, b: Seq<BlockView>) -> bool {
    &&& a.len() <= b.len()
    &&& forall|i: int|
        0 <= i < a.len() ==> a[i].statements.len() <= (#[trigger] b[i].statements).len()
    &&& forall|i: int, j: int|
        0 <= i < a.len() && 0 <= j < a[i].statements.len() ==> #[trigger] b[i].statements[j]
            == a[i].statements[j]
}

/// The blocks of labels.
pub type Labels = Map<Seq<char>, usize>;

/// Whether there is a block `i`, and every label has one.
pub open spec fn placed_at(blocks: Seq<BlockView>, labels: Labels, i: usize) -> bool {
    &&& i < blocks.len()
    &&& forall|l: Seq<char>| #[trigger] labels.contains_key(l) ==> labels[l] < blocks.len()
}

/// A block, and where a `break`, a `continue` and the end of the body lead from there.
pub type Spot = (usize, Option<usize>, Option<usize>, Option<usize>);

/// The spot that lowering stands at.
#[verifier::inline]
pub open spec fn spot(at: ScopeView) -> Spot {
    (at.blidx, at.break_target, at.continue_target, at.continuation_blidx)
}

/// Whether `break`, `continue` and the end of the body lead to the same blocks.
pub open spec fn same_targets(a: ScopeView, b: ScopeView) -> bool {
    &&& a.break_target == b.break_target
    &&& a.continue_target == b.continue_target
    &&& a.continuation_blidx == b.continuation_blidx
}

/// What lowering from the spot `at` to the spot `end` leaves of a function: the labels, the edges, and
/// where `break`, `continue` and the end of the body lead.
#[verifier::opaque]
pub open spec fn kept(
    a: Seq<BlockView>,
    labels: Labels,
    at: Spot,
    b: Seq<BlockView>,
    after: Labels,
    end: Spot,
) -> bool {
    placed_at(a, labels, at.0) ==> {
        &&& after == labels
        &&& at.1 == end.1
        &&& at.2 == end.2
        &&& at.3 == end.3
        &&& placed_at(b, labels, end.0)
        &&& edges_stay(a, b)
        &&& statements_stay(a, b)
    }
}

/// What a step that leads from `a` to `b` leaves of a function.
#[verifier::inline]
pub open spec fn keeps(a: State, b: State) -> bool {
    kept(a.fun.blocks, a.labels, spot(a.at), b.fun.blocks, b.labels, spot(b.at))
}

/// What lowering that may have failed leaves of a function: the labels and the edges.
#[verifier::opaque]
pub open spec fn grown(
    a: Seq<BlockView>,
    labels: Labels,
    i: usize,
    b: Seq<BlockView>,
    after: Labels,
) -> bool {
    placed_at(a, labels, i) ==> {
        &&& after == labels
        &&& placed_at(b, labels, i)
        &&& edges_stay(a, b)
        &&& statements_stay(a, b)
    }
}

/// What a step that leads from `a` to `b`, and may have failed, leaves of a function.
#[verifier::inline]
pub open spec fn remains(a: State, b: State) -> bool {
    grown(a.fun.blocks, a.labels, a.at.blidx, b.fun.blocks, b.labels)
}

broadcast proof fn kept_reflexive(a: Seq<BlockView>, labels: Labels, at: Spot)
    ensures
        #[trigger] kept(a, labels, at, a, labels, at),
{
    reveal(kept);
}

broadcast proof fn kept_transitive(
    a: Seq<BlockView>,
    la: Labels,
    at: Spot,
    b: Seq<BlockView>,
    lb: Labels,
    mid: Spot,
    c: Seq<BlockView>,
    lc: Labels,
    end: Spot,
)
    requires
        #[trigger] kept(a, la, at, b, lb, mid),
        #[trigger] kept(b, lb, mid, c, lc, end),
    ensures
        kept(a, la, at, c, lc, end),
{
    reveal(kept);
    if placed_at(a, la, at.0) {
        assert forall|i: int, to: usize| 0 <= i < a.len() && leads(a[i], to) implies #[trigger] leads(
            c[i],
            to,
        ) by {
            assert(leads(b[i], to));
        }
    }
}

broadcast proof fn grown_reflexive(a: Seq<BlockView>, labels: Labels, i: usize)
    ensures
        #[trigger] grown(a, labels, i, a, labels),
{
    reveal(grown);
}

broadcast proof fn kept_is_grown(
    a: Seq<BlockView>,
    la: Labels,
    at: Spot,
    b: Seq<BlockView>,
    lb: Labels,
    end: Spot,
)
    requires
        #[trigger] kept(a, la, at, b, lb, end),
    ensures
        grown(a, la, at.0, b, lb),
{
    reveal(kept);
    reveal(grown);
}

broadcast proof fn grown_on(
    a: Seq<BlockView>,
    la: Labels,
    at: Spot,
    b: Seq<BlockView>,
    lb: Labels,
    mid: Spot,
    i: usize,
    c: Seq<BlockView>,
    lc: Labels,
)
    requires
        #[trigger] kept(a, la, at, b, lb, mid),
        #[trigger] grown(b, lb, i, c, lc),
        i == mid.0,
    ensures
        grown(a, la, at.0, c, lc),
{
    reveal(kept);
    reveal(grown);
    if placed_at(a, la, at.0) {
        assert forall|k: int, to: usize| 0 <= k < a.len() && leads(a[k], to) implies #[trigger] leads(
            c[k],
            to,
        ) by {
            assert(leads(b[k], to));
        }
    }
}

// Elementary steps

proof fn lemma_block_replaced(st: State, i: usize, b: BlockView)
    requires
        i == st.at.blidx || i < st.fun.blocks.len(),
        forall|to: usize|
            i < st.fun.blocks.len() && leads(st.fun.blocks[i as int], to) ==> #[trigger] leads(b, to),
        i < st.fun.blocks.len() ==> st.fun.blocks[i as int].statements.is_prefix_of(b.statements),
    ensures
        keeps(st, with_block(st, i, b)),
{
    reveal(kept);
    let next = with_block(st, i, b).fun.blocks;
    if i < st.fun.blocks.len() {
        assert forall|k: int, to: usize|
            0 <= k < st.fun.blocks.len() && leads(st.fun.blocks[k], to) implies #[trigger] leads(
            next[k],
            to,
        ) by {
            if k == i {
                assert(leads(b, to));
            }
        }
        assert forall|k: int, j: int|
            0 <= k < st.fun.blocks.len() && 0 <= j
                < st.fun.blocks[k].statements.len() implies #[trigger] next[k].statements[j]
            == st.fun.blocks[k].statements[j] by {
            if k == i {
                assert(b.statements.subrange(
                    0,
                    st.fun.blocks[k].statements.len() as int,
                )[j] == b.statements[j]);
            }
        }
    }
}

broadcast proof fn intern_keeps(st: State, name: Seq<char>)
    ensures
        keeps(st, (#[trigger] intern(st, name)).0),
        intern(st, name).0.fun.blocks == st.fun.blocks,
        intern(st, name).0.at == st.at,
        intern(st, name).0.labels == st.labels,
{
    reveal(intern);
    reveal(kept);
}

broadcast proof fn named_keeps(st: State, name: Seq<char>)
    ensures
        keeps(st, (#[trigger] named(st, name)).0),
{
    reveal(named);
    broadcast use {kept_reflexive, intern_keeps};
}

pub(crate) broadcast proof fn report_keeps(st: State, a: Attribution, m: Seq<char>)
    ensures
        keeps(st, (#[trigger] report(st, a, m)).0),
        report(st, a, m).0.fun == st.fun,
        report(st, a, m).0.at == st.at,
{
    reveal(report);
    reveal(kept);
}

broadcast proof fn emit_keeps(st: State, k: StatementKindView)
    ensures
        keeps(st, #[trigger] emit(st, k)),
{
    reveal(emit);
    let b = st.fun.blocks[st.at.blidx as int];
    lemma_block_replaced(
        st,
        st.at.blidx,
        BlockView {
            statements: b.statements.push(
                crate::mir::StatementView { kind: k, span: st.span },
            ),
            ..b
        },
    );
}

proof fn load_steps_keep(
    st: State,
    base: VariableRef,
    offsets: Seq<i64>,
    fields: Seq<SegmentView>,
    i: int,
)
    ensures
        keeps(st, load_steps(st, base, offsets, fields, i).0),
    decreases fields.len() - i,
{
    broadcast use {kept_reflexive, kept_transitive, intern_keeps, emit_keeps};

    if 0 <= i && i < fields.len() {
        match fields[i] {
            SegmentView::Offset(n) => load_steps_keep(st, base, offsets.push(n), fields, i + 1),
            SegmentView::Symbol(field) => {
                let v = fresh(st);
                let next = emit(
                    v.0,
                    StatementKindView::Load {
                        dest: v.1,
                        address: crate::mir::AddressView { base, offsets },
                        field,
                    },
                );
                assert(keeps(temp_named(st), v.0));
                assert(keeps(st, v.0));
                assert(keeps(st, next));
                load_steps_keep(next, v.1, Seq::empty(), fields, i + 1);
            },
        }
    }
}

broadcast proof fn loads_keep(st: State, p: PathView)
    ensures
        keeps(st, (#[trigger] loads(st, p)).0),
{
    reveal(loads);
    load_steps_keep(st, p.base, Seq::empty(), p.fields, 0);
}

broadcast proof fn assign_keeps(st: State, p: PathView, l: ExpView, r: Option<ExpView>)
    ensures
        keeps(st, #[trigger] assign(st, p, l, r)),
{
    reveal(assign);
    broadcast use {kept_reflexive, kept_transitive, loads_keep, emit_keeps};
}

broadcast proof fn declare_keeps(st: State, name: Seq<char>, kind: VarKind)
    ensures
        keeps(st, #[trigger] declare(st, name, kind)),
{
    reveal(declare);
    reveal(kept);
}

broadcast proof fn open_scope_keeps(st: State, name: Seq<char>)
    ensures
        keeps(st, (#[trigger] open_scope(st, name)).0),
        keeps(st, moved(open_scope(st, name).0, open_scope(st, name).1)),
        open_scope(st, name).0.fun == st.fun,
        open_scope(st, name).1.blidx == st.at.blidx,
        same_targets(open_scope(st, name).1, st.at),
        open_scope(st, name).0.at == st.at,
        open_scope(st, name).0.labels == st.labels,
{
    reveal(open_scope);
    reveal(kept);
}

pub(crate) broadcast proof fn link_keeps(st: State, from: usize, to: usize)
    requires
        from == st.at.blidx || from < st.fun.blocks.len(),
    ensures
        keeps(st, (#[trigger] link(st, from, to)).0),
        link(st, from, to).0.at == st.at,
        from < st.fun.blocks.len() ==> leads(link(st, from, to).0.fun.blocks[from as int], to),
        from < st.fun.blocks.len() ==> link(st, from, to).0.fun.blocks.len()
            == st.fun.blocks.len(),
{
    reveal(link);
    broadcast use report_keeps;

    let b = st.fun.blocks[from as int];
    match b.terminator {
        None => {
            let next = BlockView { terminator: Some(TerminatorView::Goto(seq![to])), ..b };
            lemma_block_replaced(st, from, next);
            assert(seq![to][0] == to);
            assert(leads(next, to));
        },
        Some(TerminatorView::Goto(targets)) => {
            let more = targets.push(to);
            let next = BlockView { terminator: Some(TerminatorView::Goto(more)), ..b };
            assert forall|x: usize| leads(b, x) implies #[trigger] leads(next, x) by {
                let k = targets.index_of(x);
                assert(more[k] == x);
            }
            lemma_block_replaced(st, from, next);
            assert(more[targets.len() as int] == to);
            assert(leads(next, to));
        },
        _ => {},
    }
}

broadcast proof fn ended_keeps(st: State, b: usize, values: Seq<ExpView>)
    requires
        b == st.at.blidx || b < st.fun.blocks.len(),
    ensures
        keeps(st, #[trigger] ended(st, b, TerminatorView::Return(values))),
{
    lemma_block_replaced(
        st,
        b,
        BlockView {
            terminator: Some(TerminatorView::Return(values)),
            ..st.fun.blocks[b as int]
        },
    );
}

pub(crate) broadcast proof fn return_keeps(st: State, b: usize)
    requires
        b == st.at.blidx || b < st.fun.blocks.len(),
    ensures
        keeps(st, #[trigger] return_implicitly(st, b)),
{
    reveal(return_implicitly);
    broadcast use {kept_reflexive, kept_transitive, intern_keeps, ended_keeps};
}

broadcast proof fn link_end_keeps(st: State, from: usize, to: Option<usize>)
    requires
        from == st.at.blidx || from < st.fun.blocks.len(),
    ensures
        keeps(st, (#[trigger] link_end(st, from, to)).0),
{
    reveal(link_end);
    broadcast use {kept_reflexive, link_keeps, return_keeps};
}

/// What adding a block leaves: it is the last one, and lowering has not moved.
pub(crate) broadcast proof fn add_block_keeps(st: State, scoped: bool, linked: bool, e: Seq<char>)
    ensures
        ({
            let r = #[trigger] add_block(st, scoped, linked, e);
            &&& keeps(st, r.0)
            &&& r.0.at == st.at
            &&& st.at.blidx < st.fun.blocks.len() ==> r.0.fun.blocks.len() == st.fun.blocks.len()
                + 1
            &&& r.1 matches Ok(sv) ==> {
                &&& same_targets(sv, st.at)
                &&& sv.blidx == st.fun.blocks.len() as usize
                &&& st.at.blidx < st.fun.blocks.len() ==> sv.blidx < r.0.fun.blocks.len()
                &&& linked && st.at.blidx < st.fun.blocks.len() ==> leads(
                    r.0.fun.blocks[st.at.blidx as int],
                    sv.blidx,
                )
            }
        }),
{
    broadcast use {kept_reflexive, kept_transitive, link_keeps, open_scope_keeps};

    let wide = State {
        fun: FunctionView { blocks: st.fun.blocks.push(BlockView::fresh()), ..st.fun },
        ..st
    };
    assert(keeps(st, wide)) by {
        reveal(kept);
    }
    reveal(add_block);
    let r = if scoped {
        open_scope(wide, inner_scope_name(wide))
    } else {
        (wide, wide.at)
    };
    assert(keeps(st, r.0));
    assert(r.0.fun == wide.fun && r.0.at == st.at);
}

// What the laws speak of

/// The block in which control gets to the end of a body that is lowered from the place `sv` on; none
/// if it does not get there.
pub open spec fn end_of(t: TreeView, s: State, n: usize, sv: ScopeView, nodes: Seq<usize>) -> Option<
    usize,
> {
    match framed_body(t, moved(s, sv), n, nodes) {
        (e, Ok(false)) => Some(e.at.blidx),
        _ => None,
    }
}

/// Whether a body was lowered from the place `sv` on, all its edges and statements are among `blocks`,
/// and control goes from its end to block `to`.
pub open spec fn runs_into(
    t: TreeView,
    s: State,
    n: usize,
    sv: ScopeView,
    nodes: Seq<usize>,
    to: usize,
    blocks: Seq<BlockView>,
) -> bool {
    &&& compound(t, s, n, sv, nodes).1 is Ok
    &&& edges_stay(compound(t, s, n, sv, nodes).0.fun.blocks, blocks)
    &&& statements_stay(compound(t, s, n, sv, nodes).0.fun.blocks, blocks)
    &&& end_of(t, s, n, sv, nodes) matches Some(i) ==> i < blocks.len() && leads(
        blocks[i as int],
        to,
    )
}

/// Whether block `from` is one of `blocks`, and control goes from it to block `to`.
pub open spec fn flows(blocks: Seq<BlockView>, from: usize, to: usize) -> bool {
    from < blocks.len() && leads(blocks[from as int], to)
}

/// The edges of a `while` loop: from the block before it to the condition, from the condition to the
/// body and to what follows, and from the body back to the condition. A `break` in the body leads to
/// what follows, a `continue` to the condition. Lowering goes on in what follows.
pub open spec fn while_edges(t: TreeView, st: State, n: usize) -> bool {
    let cond = condition(t, n);
    let inner = part(t, n, Field::Body);
    let a = add_block(st, is_block(t, cond), true, "while_condition"@);
    let s = add_block(a.0, false, false, "Continuation"@);
    let after = s.1->Ok_0.blidx;
    let test = ScopeView { continuation_blidx: Some(after), ..a.1->Ok_0 };
    let r = compound(t, s.0, n, test, body_nodes(t, cond));
    let c = add_block(moved(r.0, test), is_block(t, inner), true, "while_body"@);
    let b = ScopeView {
        continuation_blidx: Some(test.blidx),
        break_target: Some(after),
        continue_target: Some(test.blidx),
        ..c.1->Ok_0
    };
    let end = while_loop(t, st, n).0;
    let blocks = end.fun.blocks;
    &&& flows(blocks, st.at.blidx, test.blidx)
    &&& runs_into(t, s.0, n, test, body_nodes(t, cond), after, blocks)
    &&& flows(blocks, test.blidx, b.blidx)
    &&& runs_into(t, c.0, n, b, body_nodes(t, inner), test.blidx, blocks)
    &&& end.at.blidx == after
}

/// The edges of a `do` loop: from the block before it to the body, from the body to the condition,
/// and from the condition back to the body and to what follows. A `break` in the body leads to what
/// follows, a `continue` to the condition. Lowering goes on in what follows.
pub open spec fn do_edges(t: TreeView, st: State, n: usize) -> bool {
    let cond = part(t, n, Field::Condition);
    let inner = part(t, n, Field::Body);
    let a = add_block(st, is_block(t, inner), true, "do_while_body"@);
    let d = add_block(moved(a.0, a.1->Ok_0), is_block(t, cond), false, "while_condition"@);
    let s = add_block(moved(d.0, st.at), false, false, "Continuation"@);
    let after = s.1->Ok_0.blidx;
    let test = ScopeView { continuation_blidx: Some(after), ..d.1->Ok_0 };
    let b = ScopeView {
        continuation_blidx: Some(test.blidx),
        break_target: Some(after),
        continue_target: Some(test.blidx),
        ..a.1->Ok_0
    };
    let r = compound(t, s.0, n, test, body_nodes(t, cond));
    let c = link(r.0, test.blidx, b.blidx);
    let end = do_loop(t, st, n).0;
    let blocks = end.fun.blocks;
    &&& flows(blocks, st.at.blidx, b.blidx)
    &&& runs_into(t, c.0, n, b, body_nodes(t, inner), test.blidx, blocks)
    &&& runs_into(t, s.0, n, test, body_nodes(t, cond), after, blocks)
    &&& flows(blocks, test.blidx, b.blidx)
    &&& end.at.blidx == after
}

/// The initializer, condition and update of a `for` loop, if it has them all.
pub open spec fn for_clauses(t: TreeView, n: usize) -> Option<(usize, usize, usize)> {
    match (
        clause(t, n, Field::Initializer),
        clause(t, n, Field::Condition),
        clause(t, n, Field::Update),
    ) {
        (Some(init), Some(cond), Some(step)) => Some((init, cond, step)),
        _ => None,
    }
}

/// The edges of a `for` loop that has an initializer, a condition and an update: from the block before
/// it to the initializer, from there to the condition, from the condition to the body and to what
/// follows, from the body to the update, and from there back to the condition. A `break` in the body
/// leads to what follows, a `continue` to the update. Lowering goes on in what follows.
pub open spec fn for_edges(
    t: TreeView,
    st: State,
    n: usize,
    init: usize,
    cond: usize,
    step: usize,
) -> bool {
    let inner = part(t, n, Field::Body);
    let s = open_scope(st, "for_loop"@);
    let a = add_block(moved(s.0, s.1), false, true, "for_initializer_block"@);
    let d = add_block(moved(a.0, a.1->Ok_0), false, false, "for_body"@);
    let e = add_block(moved(d.0, d.1->Ok_0), false, false, "for_update"@);
    let f = add_block(moved(e.0, e.1->Ok_0), false, false, "for_condition"@);
    let g = add_block(moved(f.0, f.1->Ok_0), false, false, "for_Continuation"@);
    let after = g.1->Ok_0.blidx;
    let test = ScopeView { continuation_blidx: Some(d.1->Ok_0.blidx), ..f.1->Ok_0 };
    let first = ScopeView { continuation_blidx: Some(test.blidx), ..a.1->Ok_0 };
    let next = ScopeView { continuation_blidx: Some(test.blidx), ..e.1->Ok_0 };
    let b = ScopeView {
        continuation_blidx: Some(next.blidx),
        break_target: Some(after),
        continue_target: Some(next.blidx),
        ..d.1->Ok_0
    };
    let p = compound(t, g.0, n, first, body_nodes(t, init));
    let q = compound(t, p.0, n, test, body_nodes(t, cond));
    let l = link(q.0, test.blidx, after);
    let r = compound(t, l.0, n, b, body_nodes(t, inner));
    let end = for_loop(t, st, n).0;
    let blocks = end.fun.blocks;
    &&& flows(blocks, st.at.blidx, first.blidx)
    &&& runs_into(t, g.0, n, first, body_nodes(t, init), test.blidx, blocks)
    &&& runs_into(t, p.0, n, test, body_nodes(t, cond), b.blidx, blocks)
    &&& flows(blocks, test.blidx, after)
    &&& runs_into(t, l.0, n, b, body_nodes(t, inner), next.blidx, blocks)
    &&& runs_into(t, r.0, n, next, body_nodes(t, step), test.blidx, blocks)
    &&& end.at.blidx == after
}

/// The state in which arm `k` of a `switch` is lowered, if arm `i` is lowered in `st`.
pub open spec fn arm_state(
    t: TreeView,
    st: State,
    nodes: Seq<usize>,
    arms: Seq<ScopeView>,
    after: usize,
    i: int,
    k: int,
) -> State
    decreases k - i,
{
    if k <= i {
        st
    } else {
        compound(
            t,
            arm_state(t, st, nodes, arms, after, i, k - 1),
            nodes[k - 1],
            arm_view(arms, after, k - 1),
            arm_nodes(t, nodes[k - 1]),
        ).0
    }
}

/// The edges of arm `k` of a `switch`, which is lowered in the state `s`: control goes from its end to
/// the next arm, or from the last one to what follows. A `break` in it leads to what follows.
pub open spec fn arm_edges(
    t: TreeView,
    s: State,
    nodes: Seq<usize>,
    arms: Seq<ScopeView>,
    after: usize,
    k: int,
    blocks: Seq<BlockView>,
) -> bool {
    let sv = arm_view(arms, after, k);
    let to = if k + 1 < arms.len() {
        arms[k + 1].blidx
    } else {
        after
    };
    &&& runs_into(t, s, nodes[k], sv, arm_nodes(t, nodes[k]), to, blocks)
    &&& sv.break_target == Some(after)
    &&& sv.continue_target == arms[k].continue_target
}

/// The edges of a `switch`: from the block that its value is found in to each arm, and to what follows
/// if there is no default; and those of its arms, in which a `continue` leads to where it led outside.
/// Lowering goes on in what follows.
pub open spec fn switch_edges(t: TreeView, st: State, n: usize) -> bool {
    let nodes = kids_of_kind(t, part(t, n, Field::Body), Kind::CaseStatement);
    let v = expr(t, st, condition(t, n));
    let here = v.0.at.blidx;
    let a = add_block(v.0, false, false, "switch_continuation(of)::"@ + line_text(t, n));
    let after = a.1->Ok_0.blidx;
    let b = arm_blocks(t, a.0, n, nodes.len(), 0, Seq::empty());
    let arms = b.1->Ok_0;
    let c = link_arms(b.0, arms, 0);
    let d = if has_default(t, nodes, 0) {
        c.0
    } else {
        link(c.0, c.0.at.blidx, after).0
    };
    let end = switch(t, st, n).0;
    let blocks = end.fun.blocks;
    &&& statements_stay(v.0.fun.blocks, blocks)
    &&& arms.len() == nodes.len()
    &&& forall|k: int| 0 <= k < arms.len() ==> flows(blocks, here, (#[trigger] arms[k]).blidx)
    &&& !has_default(t, nodes, 0) ==> flows(blocks, here, after)
    &&& forall|k: int|
        0 <= k < arms.len() ==> arm_edges(
            t,
            #[trigger] arm_state(t, d, nodes, arms, after, 0, k),
            nodes,
            arms,
            after,
            k,
            blocks,
        )
    &&& forall|k: int|
        0 <= k < arms.len() ==> (#[trigger] arms[k]).continue_target == st.at.continue_target
    &&& end.at.blidx == after
}

/// The edges of what follows `else`, lowered in the state `st`: from the block of the condition to it,
/// and from its end to what follows the `if`.
pub open spec fn else_edges(
    t: TreeView,
    st: State,
    n: usize,
    no: usize,
    after: usize,
    blocks: Seq<BlockView>,
) -> bool {
    if kind_at(t, no) == Kind::IfStatement {
        let a = add_block(st, false, true, "if"@);
        let other = ScopeView { continuation_blidx: Some(after), ..a.1->Ok_0 };
        let inner = if_else(t, moved(a.0, other), no);
        &&& flows(blocks, st.at.blidx, other.blidx)
        &&& inner.1 is Ok
        &&& edges_stay(inner.0.fun.blocks, blocks)
        &&& statements_stay(inner.0.fun.blocks, blocks)
        &&& flows(blocks, inner.0.at.blidx, after)
    } else {
        let a = add_block(st, is_block(t, no), true, "alternative"@);
        let other = ScopeView { continuation_blidx: Some(after), ..a.1->Ok_0 };
        &&& flows(blocks, st.at.blidx, other.blidx)
        &&& runs_into(t, a.0, n, other, body_nodes(t, no), after, blocks)
    }
}

/// The edges of an `if`: from the block that its condition is found in to the consequence and to the
/// alternative, or to what follows if there is none, and from both to what follows. Lowering goes on
/// in what follows.
pub open spec fn if_edges(t: TreeView, st: State, n: usize) -> bool {
    let yes = part(t, n, Field::Consequence);
    let v = expr(t, st, condition(t, n)).0;
    let here = v.at.blidx;
    let a = add_block(v, is_block(t, yes), true, "if_consequence(of)::"@ + line_text(t, n));
    let s = add_block(a.0, false, false, "if_continuation(of)::"@ + line_text(t, n));
    let after = s.1->Ok_0.blidx;
    let sv = ScopeView { continuation_blidx: Some(after), ..a.1->Ok_0 };
    let c = compound(t, s.0, n, sv, body_nodes(t, yes));
    let end = if_else(t, st, n).0;
    let blocks = end.fun.blocks;
    &&& statements_stay(v.fun.blocks, blocks)
    &&& flows(blocks, here, sv.blidx)
    &&& runs_into(t, s.0, n, sv, body_nodes(t, yes), after, blocks)
    &&& match field_child(t, n, Field::Alternative) {
        None => flows(blocks, here, after),
        Some(alt) => match first_named_child(t, alt) {
            Some(no) => else_edges(t, moved(c.0, v.at), n, no, after, blocks),
            None => true,
        },
    }
    &&& end.at.blidx == after
}

broadcast group group_steps {
    kept_reflexive,
    kept_transitive,
    kept_is_grown,
    grown_reflexive,
    grown_on,
    intern_keeps,
    named_keeps,
    report_keeps,
    emit_keeps,
    loads_keep,
    assign_keeps,
    declare_keeps,
    open_scope_keeps,
    link_keeps,
    ended_keeps,
    return_keeps,
    link_end_keeps,
    add_block_keeps,
}

// Larger steps

pub(crate) broadcast proof fn unanalyzed_keeps(st: State)
    ensures
        keeps(st, (#[trigger] unanalyzed(st)).0),
{
    reveal(unanalyzed);
    broadcast use group_steps;
}

broadcast proof fn blame_keeps(t: TreeView, st: State, n: usize, m: Seq<char>)
    ensures
        keeps(st, (#[trigger] blame(t, st, n, m)).0),
{
    reveal(blame);
    broadcast use {group_steps, unanalyzed_keeps};
}

broadcast proof fn unsupported_keeps(t: TreeView, st: State, n: usize)
    ensures
        keeps(st, (#[trigger] unsupported(t, st, n)).0),
{
    reveal(unsupported);
    broadcast use {group_steps, blame_keeps};
}

broadcast proof fn not_a_place_keeps(t: TreeView, st: State, n: usize)
    ensures
        keeps(st, (#[trigger] not_a_place(t, st, n)).0),
{
    reveal(not_a_place);
    broadcast use {group_steps, blame_keeps};
}

broadcast proof fn unparsable_keeps(t: TreeView, st: State, n: usize)
    ensures
        keeps(st, (#[trigger] unparsable(t, st, n)).0),
{
    reveal(unparsable);
    broadcast use group_steps;
}

broadcast proof fn identifier_keeps(t: TreeView, st: State, n: usize)
    ensures
        keeps(st, (#[trigger] identifier(t, st, n)).0),
{
    reveal(identifier);
    broadcast use {group_steps, blame_keeps};
}

proof fn blend_more_keeps(st: State, target: PathView, values: Seq<ExpView>, i: int)
    ensures
        keeps(st, blend_more(st, target, values, i)),
    decreases values.len() - i,
{
    broadcast use group_steps;

    if 0 <= i && i < values.len() {
        let so_far = read(st, target);
        blend_more_keeps(
            assign(so_far.0, target, values[i], Some(so_far.1)),
            target,
            values,
            i + 1,
        );
    }
}

broadcast proof fn blend_keeps(st: State, values: Seq<ExpView>)
    ensures
        keeps(st, (#[trigger] blend(st, values)).0),
{
    reveal(blend);
    broadcast use group_steps;

    let p = named(temp_named(st), temp_name(st.temps));
    if values.len() > 0 {
        let second = if values.len() > 1 {
            Some(values[1])
        } else {
            None
        };
        blend_more_keeps(assign(p.0, p.1, values[0], second), p.1, values, 2);
    }
}

broadcast proof fn dereferenced_keeps(t: TreeView, st: State, n: usize, arg: ExpView)
    ensures
        keeps(st, (#[trigger] dereferenced(t, st, n, arg)).0),
{
    reveal(dereferenced);
    broadcast use group_steps;
}

broadcast proof fn cast_shaped_keeps(t: TreeView, st: State, n: usize)
    ensures
        keeps(st, (#[trigger] cast_shaped(t, st, n)).0),
{
    reveal(cast_shaped);
    broadcast use group_steps;
}

broadcast proof fn call_style_keeps(st: State, p: PathView, name: Seq<char>, v: bool)
    ensures
        keeps(st, (#[trigger] call_style(st, p, name, v)).0),
{
    reveal(call_style);
    broadcast use group_steps;
}

broadcast proof fn called_keeps(st: State, s: CallStyleView, args: Seq<ExpView>, temp: Seq<char>)
    ensures
        keeps(st, (#[trigger] called(st, s, args, temp)).0),
{
    reveal(called);
    broadcast use group_steps;
}

broadcast proof fn alias_after_keeps(
    t: TreeView,
    st: State,
    target: usize,
    value: usize,
    plain: bool,
    p: PathView,
    v: ExpView,
)
    ensures
        keeps(st, #[trigger] alias_after(t, st, target, value, plain, p, v)),
{
    reveal(alias_after);
    broadcast use group_steps;
}

/// Lowering may go on from any block, if jumps lead to where they led before.
proof fn lemma_moved(st: State, next: State, sv: ScopeView)
    requires
        keeps(st, next),
        same_targets(st.at, sv),
        placed_at(st.fun.blocks, st.labels, st.at.blidx) ==> sv.blidx < next.fun.blocks.len(),
    ensures
        keeps(st, moved(next, sv)),
{
    reveal(kept);
}

broadcast proof fn after_divergence_keeps(st: State, e: Seq<char>)
    ensures
        keeps(st, (#[trigger] after_divergence(st, e)).0),
{
    reveal(after_divergence);
    broadcast use group_steps;

    let r = add_block(st, false, false, e);
    if let Ok(sv) = r.1 {
        lemma_moved(st, r.0, sv);
    }
}

proof fn asm_fold_keeps(st: State, target: PathView, sources: Seq<ExpView>, i: int)
    ensures
        keeps(st, asm_fold(st, target, sources, i)),
    decreases sources.len() - i,
{
    broadcast use group_steps;

    if 0 <= i && i < sources.len() {
        if i == 0 {
            asm_fold_keeps(assign(st, target, sources[0], None), target, sources, 1);
        } else {
            let so_far = read(st, target);
            asm_fold_keeps(
                assign(so_far.0, target, sources[i], Some(so_far.1)),
                target,
                sources,
                i + 1,
            );
        }
    }
}

proof fn asm_writes_keep(st: State, targets: Seq<PathView>, i: int, value: ExpView)
    ensures
        keeps(st, asm_writes(st, targets, i, value)),
    decreases targets.len() - i,
{
    broadcast use group_steps;

    if 0 <= i && i < targets.len() {
        asm_writes_keep(assign(st, targets[i], value, None), targets, i + 1, value);
    }
}

broadcast proof fn asm_transfer_keeps(st: State, sources: Seq<ExpView>, targets: Seq<PathView>)
    ensures
        keeps(st, (#[trigger] asm_transfer(st, sources, targets)).0),
{
    reveal(asm_transfer);
    broadcast use group_steps;

    let p = named(temp_named(st), temp_name(st.temps));
    asm_fold_keeps(p.0, p.1, sources, 0);
    let v = read(asm_fold(p.0, p.1, sources, 0), p.1);
    asm_writes_keep(v.0, targets, 0, v.1);
}

proof fn link_labels_keep(
    t: TreeView,
    st: State,
    labels: Seq<usize>,
    i: int,
    linked: Seq<usize>,
)
    ensures
        keeps(st, link_labels(t, st, labels, i, linked).0),
    decreases labels.len() - i,
{
    broadcast use group_steps;

    if 0 <= i && i < labels.len() {
        let label = text_at(t, labels[i]);
        if !st.labels.contains_key(label) {
            let m = "`asm goto` to undefined label `"@ + label + "`"@;
            let r = report(st, Attribution::SourceProblem, m);
            if r.1 is Ok {
                link_labels_keep(t, r.0, labels, i + 1, linked);
            }
        } else if linked.contains(st.labels[label]) {
            link_labels_keep(t, st, labels, i + 1, linked);
        } else {
            let b = st.labels[label];
            let r = link(st, st.at.blidx, b);
            if r.1 is Ok {
                link_labels_keep(t, r.0, labels, i + 1, linked.push(b));
            }
        }
    }
}

broadcast proof fn asm_jumps_keep(t: TreeView, st: State, n: usize)
    ensures
        keeps(st, (#[trigger] asm_jumps(t, st, n)).0),
{
    reveal(asm_jumps);
    broadcast use group_steps;

    let labels = asm_labels(t, n);
    if labels.len() > 0 {
        link_labels_keep(t, st, labels, 0, Seq::empty());
        let r = link_labels(t, st, labels, 0, Seq::empty());
        if r.1 is Ok {
            let a = add_block(r.0, false, true, "after_asm_goto::"@ + line_text(t, n));
            if let Ok(sv) = a.1 {
                lemma_moved(r.0, a.0, sv);
            }
        }
    }
}

broadcast proof fn combined_keeps(st: State, op: Kind, l: ExpView, r: ExpView)
    ensures
        keeps(st, (#[trigger] combined(st, op, l, r)).0),
{
    reveal(combined);
    broadcast use group_steps;
}

broadcast proof fn incremented_keeps(st: State, p: PathView)
    ensures
        keeps(st, (#[trigger] incremented(st, p)).0),
{
    reveal(incremented);
    broadcast use group_steps;
}

broadcast proof fn object_declared_keeps(t: TreeView, st: State, n: usize, d: usize)
    ensures
        keeps(st, #[trigger] object_declared(t, st, n, d)),
{
    reveal(object_declared);
    broadcast use group_steps;
}

broadcast proof fn run_keeps(st: State, targets: Seq<Seq<char>>, args: Seq<ExpView>)
    ensures
        keeps(st, #[trigger] run(st, targets, args)),
{
    broadcast use group_steps;
}

broadcast proof fn ctor_call_keeps(
    st: State,
    class: Seq<char>,
    obj: Seq<char>,
    args: Seq<ExpView>,
)
    ensures
        keeps(st, #[trigger] ctor_call(st, class, obj, args)),
{
    reveal(ctor_call);
    broadcast use {group_steps, run_keeps};
}

broadcast proof fn constructed_keeps(
    st: State,
    class: Seq<char>,
    obj: Seq<char>,
    args: Seq<ExpView>,
)
    ensures
        keeps(st, #[trigger] constructed(st, class, obj, args)),
{
    reveal(constructed);
    broadcast use {group_steps, ctor_call_keeps};
}

proof fn destroyed_keeps(st: State, frame: FrameView, i: int)
    ensures
        keeps(st, destroyed(st, frame, i)),
    decreases i,
{
    broadcast use {group_steps, run_keeps};

    if i > 0 {
        let o = frame[i - 1];
        let next = match defining_class(st.env.tables.classes, o.1) {
            Some(c) => {
                let p = named(st, o.0);
                let v = read(p.0, p.1);
                run(v.0, seq![dtor_name(c)], seq![v.1])
            },
            None => st,
        };
        destroyed_keeps(next, frame, i - 1);
    }
}

broadcast proof fn scope_exit_keeps(st: State)
    ensures
        keeps(st, #[trigger] scope_exit(st)),
{
    reveal(scope_exit);
    destroyed_keeps(st, st.objects.here(), st.objects.here().len() as int);
}

broadcast proof fn object_place_keeps(t: TreeView, st: State, n: usize)
    ensures
        keeps(st, (#[trigger] object_place(t, st, n)).0),
    decreases rest(t, n),
{
    broadcast use group_steps;

    let k = kind_at(t, n);
    if k == Kind::ParenthesizedExpression {
        if rest(t, paren_inner(t, n)) < rest(t, n) {
            object_place_keeps(t, st, paren_inner(t, n));
        }
    } else if k == Kind::PointerExpression {
        if rest(t, part(t, n, Field::Argument)) < rest(t, n) {
            object_place_keeps(t, st, part(t, n, Field::Argument));
        }
    } else if k == Kind::CallExpression {
        if let Some(m) = method_of(t, n) {
            object_place_keeps(t, st, m.0);
        }
    }
}

broadcast proof fn jump_keeps(st: State, target: Option<usize>, stray: Seq<char>)
    ensures
        keeps(st, (#[trigger] jump(st, target, stray)).0),
{
    reveal(jump);
    broadcast use group_steps;
}

broadcast proof fn goto_keeps(t: TreeView, st: State, n: usize)
    ensures
        keeps(st, (#[trigger] goto(t, st, n)).0),
{
    reveal(goto);
    broadcast use {group_steps, after_divergence_keeps};
}

broadcast group group_helpers {
    group_steps,
    unanalyzed_keeps,
    blame_keeps,
    unsupported_keeps,
    not_a_place_keeps,
    unparsable_keeps,
    identifier_keeps,
    blend_keeps,
    dereferenced_keeps,
    cast_shaped_keeps,
    call_style_keeps,
    called_keeps,
    alias_after_keeps,
    after_divergence_keeps,
    asm_transfer_keeps,
    asm_jumps_keep,
    combined_keeps,
    incremented_keeps,
    object_declared_keeps,
    run_keeps,
    ctor_call_keeps,
    constructed_keeps,
    scope_exit_keeps,
    object_place_keeps,
    jump_keeps,
    goto_keeps,
}

// Statements and expressions, along their definitions

#[verifier::spinoff_prover]
proof fn vexing_argument_keeps(t: TreeView, st: State, n: usize)
    ensures
        keeps(st, vexing_argument(t, st, n).0),
    decreases rest(t, n), 1nat, 0int,
{
    reveal(vexing_argument);
    broadcast use group_helpers;

    match field_child(t, n, Field::Type) {
        None => {},
        Some(ty) => {
            match field_child(t, n, Field::Declarator) {
                Some(d) => {
                    if kind_at(t, d) == Kind::AbstractFunctionDeclarator {
                        let inner = match field_child(t, d, Field::Parameters) {
                            Some(list) => kids_of_kind(t, list, Kind::ParameterDeclaration),
                            None => Seq::empty(),
                        };
                        vexing_arguments_keeps(t, st, n, inner, 0, Seq::empty());
                    }
                },
                None => {},
            }
        },
    }
}

#[verifier::spinoff_prover]
proof fn vexing_arguments_keeps(
    t: TreeView,
    st: State,
    n: usize,
    nodes: Seq<usize>,
    i: int,
    values: Seq<ExpView>,
)
    ensures
        keeps(st, vexing_arguments(t, st, n, nodes, i, values).0),
    decreases rest(t, n), 0nat, nodes.len() - i,
{
    reveal(vexing_arguments);
    broadcast use group_helpers;

    if i < 0 || i >= nodes.len() || !inside(t, n, nodes[i]) {
    } else {
        vexing_argument_keeps(t, st, nodes[i]);
        match vexing_argument(t, st, nodes[i]) {
            (st, Err(_)) => {},
            (st, Ok(v)) => {
                vexing_arguments_keeps(t, st, n, nodes, i + 1, values.push(v));
            },
        }
    }
}

#[verifier::spinoff_prover]
pub(crate) proof fn expr_keeps(t: TreeView, st: State, n: usize)
    ensures
        keeps(st, expr(t, st, n).0),
    decreases rest(t, n), 50nat, 0int,
{
    reveal(expr);
    broadcast use group_helpers;

    let k = kind_at(t, n);
    if k == Kind::Identifier || k == Kind::QualifiedIdentifier {
    } else if k == Kind::This && st.objects.class is Some {
    } else if k == Kind::DeleteExpression {
        delete_keeps(t, st, n);
    } else if constant_kind(k) {
    } else if k == Kind::CommaExpression {
        expr_keeps(t, st, part(t, n, Field::Left));
        match expr(t, st, part(t, n, Field::Left)) {
            (st, Err(_)) => {},
            (st, Ok(_)) => {
                expr_keeps(t, st, part(t, n, Field::Right));
            },
        }
    } else if k == Kind::PointerDeclarator || k == Kind::FunctionDeclarator || k
    == Kind::ArrayDeclarator {
        nested_declarator_keeps(t, st, n);
    } else if k == Kind::UnaryExpression {
        expr_keeps(t, st, part(t, n, Field::Argument));
    } else if k == Kind::CastExpression {
        expr_keeps(t, st, part(t, n, Field::Value));
    } else if k == Kind::ParenthesizedExpression || k == Kind::ParenthesizedDeclarator {
        expr_keeps(t, st, paren_inner(t, n));
    } else if k == Kind::BinaryExpression {
        binary_keeps(t, st, n);
    } else if k == Kind::UpdateExpression {
        update_keeps(t, st, n);
    } else if k == Kind::FieldExpression || k == Kind::SubscriptExpression {
        location_keeps(t, st, n);
    } else if k == Kind::AssignmentExpression {
        assignment_keeps(
            t,
            st,
            n,
            part(t, n, Field::Left),
            part(t, n, Field::Right),
            field_child(t, n, Field::Operator),
        );
    } else if k == Kind::PointerExpression {
        pointer_keeps(t, st, n);
    } else if k == Kind::CallExpression {
        call_keeps(t, st, n);
    } else if k == Kind::CompoundLiteralExpression {
        compound_literal_keeps(t, st, n);
    } else if k == Kind::CompoundStatement {
        block_value_keeps(t, st, n);
    } else if k == Kind::ConditionalExpression {
        conditional_keeps(t, st, n);
    } else if k == Kind::GenericExpression {
        generic_keeps(t, st, n);
    } else if k == Kind::GnuAsmExpression {
        assembly_keeps(t, st, n);
    }
}

#[verifier::spinoff_prover]
pub(crate) proof fn exprs_keeps(
    t: TreeView,
    st: State,
    n: usize,
    nodes: Seq<usize>,
    i: int,
    values: Seq<ExpView>,
)
    ensures
        keeps(st, exprs(t, st, n, nodes, i, values).0),
    decreases rest(t, n), 5nat, nodes.len() - i,
{
    reveal(exprs);
    broadcast use group_helpers;

    if i < 0 || i >= nodes.len() || !inside(t, n, nodes[i]) {
    } else {
        expr_keeps(t, st, nodes[i]);
        match expr(t, st, nodes[i]) {
            (st, Err(_)) => {},
            (st, Ok(v)) => {
                exprs_keeps(t, st, n, nodes, i + 1, values.push(v));
            },
        }
    }
}

#[verifier::spinoff_prover]
proof fn nested_declarator_keeps(t: TreeView, st: State, n: usize)
    ensures
        keeps(st, nested_declarator(t, st, n).0),
    decreases rest(t, n), 40nat, 0int,
{
    reveal(nested_declarator);
    broadcast use group_helpers;

    match field_child(t, n, Field::Declarator) {
        Some(c) => {
            if kind_at(t, c) == Kind::Identifier {
            } else {
                expr_keeps(t, st, c);
            }
        },
        None => {},
    }
}

#[verifier::spinoff_prover]
proof fn binary_keeps(t: TreeView, st: State, n: usize)
    ensures
        keeps(st, binary(t, st, n).0),
    decreases rest(t, n), 40nat, 0int,
{
    reveal(binary);
    broadcast use group_helpers;

    if rest(t, n) == 0 {
    } else {
        expr_keeps(t, st, part(t, n, Field::Left));
        match expr(t, st, part(t, n, Field::Left)) {
            (st, Err(_)) => {},
            (st, Ok(l)) => {
                expr_keeps(t, st, part(t, n, Field::Right));
            },
        }
    }
}

#[verifier::spinoff_prover]
proof fn update_keeps(t: TreeView, st: State, n: usize)
    ensures
        keeps(st, update(t, st, n).0),
    decreases rest(t, n), 40nat, 0int,
{
    reveal(update);
    broadcast use group_helpers;

    if rest(t, n) == 0 {
    } else {
        location_keeps(t, st, part(t, n, Field::Argument));
    }
}

#[verifier::spinoff_prover]
proof fn assignment_keeps(
    t: TreeView,
    st: State,
    n: usize,
    target: usize,
    value: usize,
    op: Option<usize>,
)
    ensures
        keeps(st, assignment(t, st, n, target, value, op).0),
    decreases rest(t, n), 40nat, 0int,
{
    reveal(assignment);
    broadcast use group_helpers;

    if !inside(t, n, target) || !inside(t, n, value) {
    } else {
        location_keeps(t, st, target);
        match location(t, st, target) {
            (st, Err(_)) => {},
            (st, Ok(p)) => {
                expr_keeps(t, st, value);
            },
        }
    }
}

#[verifier::spinoff_prover]
proof fn pointer_keeps(t: TreeView, st: State, n: usize)
    ensures
        keeps(st, pointer(t, st, n).0),
    decreases rest(t, n), 40nat, 0int,
{
    reveal(pointer);
    broadcast use group_helpers;

    if rest(t, n) == 0 {
    } else {
        let arg = part(t, n, Field::Argument);
        if has_operator(t, n, "*"@) {
        } else {
            address_of_keeps(t, st, arg);
        }
        match if has_operator(t, n, "*"@) {
            (st, Ok(None))
        } else {
            address_of(t, st, arg)
        } {
            (st, Err(_)) => {},
            (st, Ok(a)) => {
                match a {
                    Some(a) => {},
                    None => {
                        expr_keeps(t, st, arg);
                    },
                }
            },
        }
    }
}

#[verifier::spinoff_prover]
proof fn address_of_keeps(t: TreeView, st: State, n: usize)
    ensures
        keeps(st, address_of(t, st, n).0),
    decreases rest(t, n), 30nat, 0int,
{
    reveal(address_of);
    broadcast use group_helpers;

    if kind_at(t, n) == Kind::ParenthesizedExpression {
        address_of_keeps(t, st, paren_inner(t, n));
    } else if kind_at(t, n) == Kind::SubscriptExpression && subscript_index(t, n) is Some {
        location_keeps(t, st, n);
    }
}

#[verifier::spinoff_prover]
proof fn call_keeps(t: TreeView, st: State, n: usize)
    ensures
        keeps(st, call(t, st, n).0),
    decreases rest(t, n), 45nat, 0int,
{
    reveal(call);
    broadcast use group_helpers;

    match method_at(t, st, n) {
        Some(m) => {
            method_call_keeps(t, st, n, m.0, m.1, m.2);
        },
        None => {
            match cast_shaped(t, st, n) {
                (st, Err(_)) => {},
                (st, Ok(cast)) => {
                    match cast {
                        Some(list) => {
                            cast_operands_keeps(
                                t,
                                st,
                                n,
                                plain_children(t, list),
                                0,
                                ExpView::Str(""@),
                            );
                        },
                        None => {
                            plain_call_keeps(t, st, n);
                        },
                    }
                },
            }
        },
    }
}

#[verifier::spinoff_prover]
proof fn method_call_keeps(
    t: TreeView,
    st: State,
    n: usize,
    object: usize,
    class: Seq<char>,
    name: Seq<char>,
)
    ensures
        keeps(st, method_call(t, st, n, object, class, name).0),
    decreases rest(t, n), 40nat, 0int,
{
    reveal(method_call);
    broadcast use group_helpers;

    if !inside(t, n, object) {
    } else {
        receiver_keeps(t, temp_named(st), object);
        match receiver(t, temp_named(st), object) {
            (st, Err(_)) => {},
            (st, Ok(r)) => {
                exprs_keeps(
                    t,
                    st,
                    n,
                    named_children(t, part(t, n, Field::Arguments)),
                    0,
                    Seq::empty(),
                );
            },
        }
    }
}

#[verifier::spinoff_prover]
proof fn receiver_keeps(t: TreeView, st: State, n: usize)
    ensures
        keeps(st, receiver(t, st, n).0),
    decreases rest(t, n), 60nat, 0int,
{
    reveal(receiver);
    broadcast use group_helpers;

    if through_call(t, n) {
        expr_keeps(t, st, n);
    }
}

#[verifier::spinoff_prover]
proof fn delete_keeps(t: TreeView, st: State, n: usize)
    ensures
        keeps(st, delete(t, st, n).0),
    decreases rest(t, n), 40nat, 0int,
{
    reveal(delete);
    broadcast use group_helpers;

    match named_child(t, n, 0) {
        None => {},
        Some(c) => {
            match receiver_class(t, st, c) {
                None => {},
                Some(class) => {
                    receiver_keeps(t, st, c);
                },
            }
        },
    }
}

#[verifier::spinoff_prover]
proof fn cast_operands_keeps(
    t: TreeView,
    st: State,
    n: usize,
    nodes: Seq<usize>,
    i: int,
    value: ExpView,
)
    ensures
        keeps(st, cast_operands(t, st, n, nodes, i, value).0),
    decreases rest(t, n), 5nat, nodes.len() - i,
{
    reveal(cast_operands);
    broadcast use group_helpers;

    if i < 0 || i >= nodes.len() || !inside(t, n, nodes[i]) {
    } else {
        expr_keeps(t, st, nodes[i]);
        match expr(t, st, nodes[i]) {
            (st, Err(_)) => {},
            (st, Ok(v)) => {
                cast_operands_keeps(t, st, n, nodes, i + 1, v);
            },
        }
    }
}

#[verifier::spinoff_prover]
proof fn plain_call_keeps(t: TreeView, st: State, n: usize)
    ensures
        keeps(st, plain_call(t, st, n).0),
    decreases rest(t, n), 40nat, 0int,
{
    reveal(plain_call);
    broadcast use group_helpers;

    let callee = bare_callee(t, part(t, n, Field::Function));
    exprs_keeps(
        t,
        temp_named(st),
        n,
        named_children(t, part(t, n, Field::Arguments)),
        0,
        Seq::empty(),
    );
    match exprs(
        t,
        temp_named(st),
        n,
        named_children(t, part(t, n, Field::Arguments)),
        0,
        Seq::empty(),
    ) {
        (st, Err(_)) => {},
        (st, Ok(args)) => {
            if kind_at(t, callee) == Kind::Identifier || kind_at(t, callee)
            == Kind::QualifiedIdentifier || !inside(t, n, callee) {
            } else {
                location_keeps(t, st, callee);
            }
        },
    }
}

#[verifier::spinoff_prover]
proof fn compound_literal_keeps(t: TreeView, st: State, n: usize)
    ensures
        keeps(st, compound_literal(t, st, n).0),
    decreases rest(t, n), 40nat, 0int,
{
    reveal(compound_literal);
    broadcast use group_helpers;

    let ty = part(t, n, Field::Type);
    let temp = temp_name(st.temps);
    let dims = match field_child(t, ty, Field::Declarator) {
        Some(d) => array_rank(t, d),
        None => 0,
    };
    let own = layout_of(st, type_tag(t, ty));
    let p = named(temp_named(st), temp);
    braced_keeps(t, p.0, part(t, n, Field::Value), p.1, own, dims);
}

#[verifier::spinoff_prover]
proof fn initializer_keeps(t: TreeView, st: State, n: usize, ident: usize, list: usize)
    ensures
        keeps(st, initializer(t, st, n, ident, list).0),
    decreases rest(t, n), 40nat, 0int,
{
    reveal(initializer);
    broadcast use group_helpers;

    if !inside(t, n, ident) || !inside(t, n, list) {
    } else {
        let own = layout_of(st, type_tag(t, n));
        location_keeps(t, st, ident);
        match location(t, st, ident) {
            (st, Err(_)) => {},
            (st, Ok(p)) => {
                braced_keeps(t, st, list, p, own, array_rank(t, ident));
            },
        }
    }
}

#[verifier::spinoff_prover]
proof fn braced_keeps(
    t: TreeView,
    st: State,
    n: usize,
    base: PathView,
    own: Option<Seq<SlotView>>,
    dims: nat,
)
    ensures
        keeps(st, braced(t, st, n, base, own, dims).0),
    decreases rest(t, n), 30nat, 0int,
{
    reveal(braced);
    broadcast use group_helpers;

    let elems = named_children(t, n);
    if dims == 0 && own is None && elems.len() == 1 && inside(t, n, elems[0]) && kind_at(
        t,
        elems[0],
    ) != Kind::InitializerList && kind_at(t, elems[0]) != Kind::InitializerPair {
        expr_keeps(t, st, elems[0]);
    } else if dims == 0 {
        elements_keeps(t, st, n, base, own, None, 0, 0, 0);
    } else {
        elements_keeps(t, st, n, base, None, own, dims, 0, 0);
    }
}

#[verifier::spinoff_prover]
proof fn elements_keeps(
    t: TreeView,
    st: State,
    n: usize,
    base: PathView,
    members: Option<Seq<SlotView>>,
    elem: Option<Seq<SlotView>>,
    depth: nat,
    i: int,
    idx: usize,
)
    ensures
        keeps(st, elements(t, st, n, base, members, elem, depth, i, idx).0),
    decreases rest(t, n), 20nat, named_children(t, n).len() - i,
{
    reveal(elements);
    broadcast use group_helpers;

    let elems = named_children(t, n);
    if i < 0 || i >= elems.len() || !inside(t, n, elems[i]) {
    } else {
        let e = elems[i];
        let place = placed(t, st, e, members, elem, depth, idx);
        let p = PathView { base: base.base, fields: base.fields + place.0 };
        let value = value_of(t, e);
        let next = if kind_at(t, e) == Kind::InitializerPair {
            idx
        } else {
            (idx + 1) as usize
        };
        if kind_at(t, value) == Kind::InitializerList {
            let inner = if depth > 0 {
                (depth - 1) as nat
            } else {
                0
            };
            elements_keeps(t, st, value, p, place.1, elem, inner, 0, 0);
            match elements(t, st, value, p, place.1, elem, inner, 0, 0) {
                (st, Err(_)) => {},
                (st, Ok(_)) => {
                    elements_keeps(t, st, n, base, members, elem, depth, i + 1, next);
                },
            }
        } else {
            expr_keeps(t, st, value);
            match expr(t, st, value) {
                (st, Err(_)) => {},
                (st, Ok(v)) => {
                    elements_keeps(t, assign(st, p, v, None), n, base, members, elem, depth, i + 1, next);
                },
            }
        }
    }
}

#[verifier::spinoff_prover]
proof fn block_value_keeps(t: TreeView, st: State, n: usize)
    ensures
        keeps(st, block_value(t, st, n).0),
    decreases rest(t, n), 40nat, 0int,
{
    reveal(block_value);
    broadcast use group_helpers;

    block_effects_keeps(t, st, n);
    match block_effects(t, st, n) {
        (st, Err(_)) => {},
        (st, Ok(_)) => {
            match yielded(t, n) {
                Some(c) => {
                    if inside(t, n, c) {
                        expr_keeps(t, st, c);
                    }
                },
                None => {},
            }
        },
    }
}

#[verifier::spinoff_prover]
proof fn block_place_keeps(t: TreeView, st: State, n: usize)
    ensures
        keeps(st, block_place(t, st, n).0),
    decreases rest(t, n), 9nat, 0int,
{
    reveal(block_place);
    broadcast use group_helpers;

    block_effects_keeps(t, st, n);
    match block_effects(t, st, n) {
        (st, Err(_)) => {},
        (st, Ok(_)) => {
            match yielded(t, n) {
                Some(c) => {
                    if inside(t, n, c) {
                        location_keeps(t, st, c);
                    }
                },
                None => {},
            }
        },
    }
}

#[verifier::spinoff_prover]
proof fn block_walk_keeps(t: TreeView, st: State, n: usize)
    ensures
        remains(st, block_walk(t, st, n).0),
        block_walk(t, st, n).1 is Ok ==> keeps(st, block_walk(t, st, n).0),
    decreases rest(t, n), 7nat, 0int,
{
    reveal(block_walk);
    broadcast use group_helpers;

    let nodes = plain_children(t, n);
    let diverged_text = "after_stmt_expr_diverge::"@ + line_text(t, n);
    let s = open_scope(st, inner_scope_name(st));
    if nodes.len() == 0 {
    } else {
        let last = nodes.last();
        body_keeps(t, moved(s.0, s.1), n, nodes.drop_last(), 0, false);
        match body(t, moved(s.0, s.1), n, nodes.drop_last(), 0, false) {
            (st, Err(_)) => {},
            (st, Ok(d)) => {
                match if d {
                    after_divergence(st, diverged_text)
                } else {
                    (st, Ok(()))
                } {
                    (st, Err(_)) => {},
                    (st, Ok(_)) => {
                        if !inside(t, n, last) {
                        } else if kind_at(t, last) == Kind::ExpressionStatement {
                        } else {
                            statement_keeps(t, st, last);
                        }
                    },
                }
            },
        }
    }
}

#[verifier::spinoff_prover]
proof fn conditional_keeps(t: TreeView, st: State, n: usize)
    ensures
        keeps(st, conditional(t, st, n).0),
    decreases rest(t, n), 40nat, 0int,
{
    reveal(conditional);
    broadcast use group_helpers;

    if rest(t, n) == 0 {
    } else {
        expr_keeps(t, st, part(t, n, Field::Condition));
        match expr(t, st, part(t, n, Field::Condition)) {
            (st, Err(_)) => {},
            (st, Ok(c)) => {
                match field_child(t, n, Field::Consequence) {
                    Some(x) => {
                        expr_keeps(t, st, x);
                    },
                    None => {},
                }
                match match field_child(t, n, Field::Consequence) {
                    Some(x) => expr(t, st, x),
                    None => (st, Ok(c)),
                } {
                    (st, Err(_)) => {},
                    (st, Ok(a)) => {
                        expr_keeps(t, st, part(t, n, Field::Alternative));
                    },
                }
            },
        }
    }
}

#[verifier::spinoff_prover]
proof fn generic_keeps(t: TreeView, st: State, n: usize)
    ensures
        keeps(st, generic(t, st, n).0),
    decreases rest(t, n), 40nat, 0int,
{
    reveal(generic);
    broadcast use group_helpers;

    let parts = generic_parts(t, n);
    match parts.0 {
        Some(c) => {
            expr_keeps(t, st, c);
        },
        None => {},
    }
    match match parts.0 {
        Some(c) => expr(t, st, c),
        None => (st, Ok(ExpView::Str(""@))),
    } {
        (st, Err(_)) => {},
        (st, Ok(_ignored)) => {
            exprs_keeps(t, st, n, parts.1, 0, Seq::empty());
        },
    }
}

#[verifier::spinoff_prover]
proof fn assembly_keeps(t: TreeView, st: State, n: usize)
    ensures
        keeps(st, assembly(t, st, n).0),
    decreases rest(t, n), 40nat, 0int,
{
    reveal(assembly);
    broadcast use group_helpers;

    asm_inputs_keeps(
        t,
        st,
        n,
        asm_operands(t, n, Field::InputOperands),
        0,
        Seq::empty(),
    );
    match asm_inputs(
        t,
        st,
        n,
        asm_operands(t, n, Field::InputOperands),
        0,
        Seq::empty(),
    ) {
        (st, Err(_)) => {},
        (st, Ok(sources)) => {
            asm_outputs_keeps(
                t,
                st,
                n,
                asm_operands(t, n, Field::OutputOperands),
                0,
                sources,
                Seq::empty(),
            );
        },
    }
}

#[verifier::spinoff_prover]
proof fn asm_inputs_keeps(
    t: TreeView,
    st: State,
    n: usize,
    nodes: Seq<usize>,
    i: int,
    sources: Seq<ExpView>,
)
    ensures
        keeps(st, asm_inputs(t, st, n, nodes, i, sources).0),
    decreases rest(t, n), 5nat, nodes.len() - i,
{
    reveal(asm_inputs);
    broadcast use group_helpers;

    if i < 0 || i >= nodes.len() || !inside(t, n, nodes[i]) {
    } else {
        expr_keeps(t, st, part(t, nodes[i], Field::Value));
        match expr(t, st, part(t, nodes[i], Field::Value)) {
            (st, Err(_)) => {},
            (st, Ok(v)) => {
                asm_inputs_keeps(t, st, n, nodes, i + 1, sources.push(v));
            },
        }
    }
}

#[verifier::spinoff_prover]
proof fn asm_outputs_keeps(
    t: TreeView,
    st: State,
    n: usize,
    nodes: Seq<usize>,
    i: int,
    sources: Seq<ExpView>,
    targets: Seq<PathView>,
)
    ensures
        keeps(st, asm_outputs(t, st, n, nodes, i, sources, targets).0),
    decreases rest(t, n), 5nat, nodes.len() - i,
{
    reveal(asm_outputs);
    broadcast use group_helpers;

    if i < 0 || i >= nodes.len() || !inside(t, n, nodes[i]) {
    } else {
        location_keeps(t, st, part(t, nodes[i], Field::Value));
        match location(t, st, part(t, nodes[i], Field::Value)) {
            (st, Err(_)) => {},
            (st, Ok(p)) => {
                if asm_readwrite(t, nodes[i]) {
                    let v = read(st, p);
                    asm_outputs_keeps(t, v.0, n, nodes, i + 1, sources.push(v.1), targets.push(p));
                } else {
                    asm_outputs_keeps(t, st, n, nodes, i + 1, sources, targets.push(p));
                }
            },
        }
    }
}

#[verifier::spinoff_prover]
pub(crate) proof fn location_keeps(t: TreeView, st: State, n: usize)
    ensures
        keeps(st, location(t, st, n).0),
    decreases rest(t, n), place_rank(kind_at(t, n)), 0int,
{
    reveal(location);
    broadcast use group_helpers;

    let k = kind_at(t, n);
    if k == Kind::Identifier || k == Kind::QualifiedIdentifier {
    } else if k == Kind::FieldExpression {
        location_keeps(t, st, part(t, n, Field::Argument));
    } else if k == Kind::SubscriptExpression {
        match subscript_index(t, n) {
            Some(index) => {
                location_keeps(t, st, part(t, n, Field::Argument));
                match location(t, st, part(t, n, Field::Argument)) {
                    (st, Err(_)) => {},
                    (st, Ok(base)) => {
                        expr_keeps(t, st, index);
                    },
                }
            },
            None => {},
        }
    } else if k == Kind::CompoundStatement {
        block_place_keeps(t, st, n);
    } else if k == Kind::StringLiteral || k == Kind::ConcatenatedString {
    } else if k == Kind::ParenthesizedExpression || k == Kind::ParenthesizedDeclarator {
        location_keeps(t, st, paren_inner(t, n));
    } else if k == Kind::PointerExpression {
        location_keeps(t, st, part(t, n, Field::Argument));
    } else {
        expr_keeps(t, st, n);
    }
}

#[verifier::spinoff_prover]
proof fn statement_keeps(t: TreeView, st: State, n: usize)
    ensures
        remains(st, statement(t, st, n).0),
        statement(t, st, n).1 is Ok ==> keeps(st, statement(t, st, n).0),
    decreases rest(t, n), 90nat, 0int,
{
    reveal(statement);
    broadcast use group_helpers;

    let k = kind_at(t, n);
    let st = at_source(st, t, n);
    if k == Kind::Comment {
    } else if k == Kind::CompoundStatement {
        let s = open_scope(st, inner_scope_name(st));
        framed_body_keeps(t, moved(s.0, s.1), n, kids(t, n));
    } else if k == Kind::Declaration {
        match class_named(t, st, n) {
            Some(class) => {
                construction_keeps(t, st, n, class);
            },
            None => {},
        }
        match match class_named(t, st, n) {
            Some(class) => construction(t, st, n, class),
            None => (st, Ok(false)),
        } {
            (st, Err(_)) => {},
            (st, Ok(made)) => {
                if made {
                } else {
                    declaration_keeps(t, st, n, field_children(t, n, Field::Declarator), 0);
                }
            },
        }
    } else if k == Kind::ExpressionStatement {
        match child_at(t, n, 0) {
            Some(c) => {
                if empty_kind(kind_at(t, c)) {
                } else {
                    expr_keeps(t, st, c);
                }
            },
            None => {},
        }
    } else if k == Kind::ParenthesizedExpression {
        expr_keeps(t, st, paren_inner(t, n));
    } else if k == Kind::IfStatement {
        if_else_keeps(t, st, n);
    } else if k == Kind::WhileStatement {
        while_loop_keeps(t, st, n);
    } else if k == Kind::DoStatement {
        do_loop_keeps(t, st, n);
    } else if k == Kind::ForStatement {
        for_loop_keeps(t, st, n);
    } else if k == Kind::SwitchStatement {
        switch_keeps(t, st, n);
    } else if k == Kind::ReturnStatement {
        return_from_keeps(t, st, n);
    } else if k == Kind::BreakStatement {
    } else if k == Kind::ContinueStatement {
    } else if k == Kind::GotoStatement {
    } else if k == Kind::LabeledStatement {
        labeled_keeps(t, st, n);
    } else if k == Kind::Error {
    } else {
        expr_keeps(t, st, n);
    }
}

#[verifier::spinoff_prover]
proof fn body_keeps(t: TreeView, st: State, n: usize, nodes: Seq<usize>, i: int, diverged: bool)
    ensures
        remains(st, body(t, st, n, nodes, i, diverged).0),
        body(t, st, n, nodes, i, diverged).1 is Ok ==> keeps(st, body(t, st, n, nodes, i, diverged).0),
    decreases rest(t, n), 5nat, nodes.len() - i,
{
    reveal(body);
    broadcast use group_helpers;

    if i < 0 || i >= nodes.len() || !inside(t, n, nodes[i]) {
    } else if !t[nodes[i] as int].named || kind_at(t, nodes[i]) == Kind::Comment {
        body_keeps(t, st, n, nodes, i + 1, diverged);
    } else {
        match if diverged {
            after_divergence(st, "after_diverge::"@ + line_text(t, nodes[i]))
        } else {
            (st, Ok(()))
        } {
            (st, Err(_)) => {},
            (st, Ok(_)) => {
                statement_keeps(t, st, nodes[i]);
                match statement(t, st, nodes[i]) {
                    (st, Err(_)) => {},
                    (st, Ok(d)) => {
                        body_keeps(t, st, n, nodes, i + 1, d);
                    },
                }
            },
        }
    }
}

#[verifier::spinoff_prover]
proof fn framed_body_keeps(t: TreeView, st: State, n: usize, nodes: Seq<usize>)
    ensures
        remains(st, framed_body(t, st, n, nodes).0),
        framed_body(t, st, n, nodes).1 is Ok ==> keeps(st, framed_body(t, st, n, nodes).0),
    decreases rest(t, n), 6nat, 0int,
{
    reveal(framed_body);
    broadcast use group_helpers;

    body_keeps(t, State { objects: st.objects.framed(), ..st }, n, nodes, 0, false);
}

#[verifier::spinoff_prover]
proof fn declaration_keeps(t: TreeView, st: State, n: usize, nodes: Seq<usize>, i: int)
    ensures
        keeps(st, declaration(t, st, n, nodes, i).0),
    decreases rest(t, n), 80nat, nodes.len() - i,
{
    reveal(declaration);
    broadcast use group_helpers;

    if i < 0 || i >= nodes.len() || !inside(t, n, nodes[i]) {
    } else {
        let d = nodes[i];
        let k = kind_at(t, d);
        let st = object_declared(t, st, n, d);
        if k == Kind::InitDeclarator && kind_at(t, part(t, d, Field::Declarator))
        == Kind::ReferenceDeclarator {
            reference_keeps(t, st, n, d);
            match reference(t, st, n, d) {
                (st, Err(_)) => {},
                (st, Ok(_)) => {
                    declaration_keeps(t, st, n, nodes, i + 1);
                },
            }
        } else if k == Kind::InitDeclarator {
            declared_keeps(t, st, n, d, part(t, d, Field::Declarator));
            match declared(t, st, n, d, part(t, d, Field::Declarator)) {
                (st, Err(_)) => {},
                (st, Ok(_)) => {
                    declaration_keeps(t, st, n, nodes, i + 1);
                },
            }
        } else if k == Kind::Identifier {
            declared_keeps(t, st, n, d, d);
            match declared(t, st, n, d, d) {
                (st, Err(_)) => {},
                (st, Ok(_)) => {
                    declaration_keeps(t, st, n, nodes, i + 1);
                },
            }
        } else if k == Kind::FunctionDeclarator || k == Kind::PointerDeclarator || k
        == Kind::ParenthesizedDeclarator || k == Kind::ArrayDeclarator {
            expr_keeps(t, st, d);
            match expr(t, st, d) {
                (st, Err(_)) => {},
                (st, Ok(_)) => {
                    declaration_keeps(t, st, n, nodes, i + 1);
                },
            }
        } else if k == Kind::GnuAsmExpression {
            declaration_keeps(t, st, n, nodes, i + 1);
        } else {
            match report(
                st,
                Attribution::FrontendGap,
                "Declaration declarator had an unexpected kind "@ + t[d as int].kind_name,
            ) {
                (st, Err(_)) => {},
                (st, Ok(_)) => {
                    declaration_keeps(t, st, n, nodes, i + 1);
                },
            }
        }
    }
}

#[verifier::spinoff_prover]
proof fn reference_keeps(t: TreeView, st: State, n: usize, d: usize)
    ensures
        keeps(st, reference(t, st, n, d).0),
    decreases rest(t, n), 70nat, 0int,
{
    reveal(reference);
    broadcast use group_helpers;

    match (leaf_name(t, d), field_child(t, d, Field::Value)) {
        (Some(leaf), Some(v)) => {
            if inside(t, n, v) {
                location_keeps(t, st, v);
            }
        },
        _ => {},
    }
}

#[verifier::spinoff_prover]
proof fn allocated_keeps(t: TreeView, st: State, n: usize)
    ensures
        keeps(st, allocated(t, st, n).0),
    decreases rest(t, n), 30nat, 0int,
{
    reveal(allocated);
    broadcast use group_helpers;

    match field_child(t, n, Field::Type) {
        None => {},
        Some(ty) => {
            if field_child(t, n, Field::Declarator) is Some || field_child(
                t,
                n,
                Field::Placement,
            ) is Some {
            } else {
                let nodes = match field_child(t, n, Field::Arguments) {
                    Some(list) => argument_nodes(t, list),
                    None => Seq::empty(),
                };
                exprs_keeps(t, st, n, nodes, 0, Seq::empty());
            }
        },
    }
}

#[verifier::spinoff_prover]
proof fn heap_object_keeps(t: TreeView, st: State, n: usize, class: Seq<char>)
    ensures
        keeps(st, heap_object(t, st, n, class).0),
    decreases rest(t, n), 35nat, 0int,
{
    reveal(heap_object);
    broadcast use group_helpers;

    match field_child(t, n, Field::Declarator) {
        Some(d) => {
            match (field_child(t, d, Field::Value), field_child(t, d, Field::Declarator)) {
                (Some(v), Some(inner)) => {
                    if kind_at(t, d) == Kind::InitDeclarator && kind_at(t, v)
                    == Kind::NewExpression && inside(t, n, v) {
                        match leaf_name(t, inner) {
                            Some(leaf) => {
                                allocated_keeps(t, st, v);
                            },
                            None => {},
                        }
                    }
                },
                _ => {},
            }
        },
        None => {},
    }
}

#[verifier::spinoff_prover]
proof fn construction_keeps(t: TreeView, st: State, n: usize, class: Seq<char>)
    ensures
        keeps(st, construction(t, st, n, class).0),
    decreases rest(t, n), 36nat, 0int,
{
    reveal(construction);
    broadcast use group_helpers;

    heap_object_keeps(t, st, n, class);
    match heap_object(t, st, n, class) {
        (st, Err(_)) => {},
        (st, Ok(made)) => {
            if made {
            } else if !has_ctor(st, class) {
            } else {
                match field_child(t, n, Field::Declarator) {
                    None => {},
                    Some(d) => {
                        match field_child(t, d, Field::Declarator) {
                            None => {},
                            Some(obj) => {
                                if kind_at(t, obj) != Kind::Identifier {
                                } else if kind_at(t, d) == Kind::FunctionDeclarator {
                                    match field_child(t, d, Field::Parameters) {
                                        None => {},
                                        Some(params) => {
                                            let nodes = kids_of_kind(t, params, Kind::ParameterDeclaration);
                                            if nodes.len() == 0 {
                                            } else {
                                                vexing_arguments_keeps(t, st, n, nodes, 0, Seq::empty());
                                            }
                                        },
                                    }
                                } else if kind_at(t, d) == Kind::InitDeclarator {
                                    match field_child(t, d, Field::Value) {
                                        None => {},
                                        Some(v) => {
                                            match constructor_arguments(t, v, class) {
                                                None => {},
                                                Some(nodes) => {
                                                    exprs_keeps(t, st, n, nodes, 0, Seq::empty());
                                                },
                                            }
                                        },
                                    }
                                }
                            },
                        }
                    },
                }
            }
        },
    }
}

#[verifier::spinoff_prover]
proof fn declared_keeps(t: TreeView, st: State, n: usize, d: usize, ident: usize)
    ensures
        keeps(st, declared(t, st, n, d, ident).0),
    decreases rest(t, n), 70nat, 0int,
{
    reveal(declared);
    broadcast use group_helpers;

    let name = text_at(t, ident);
    let st = declare(st, name, VarKind::Local);
    let st = if declares_union(t, n) && kind_at(t, ident) == Kind::Identifier {
        let p = named(st, name);
        State { unions: p.0.unions.insert(p.1.base), ..p.0 }
    } else {
        st
    };
    match field_child(t, d, Field::Value) {
        Some(v) => {
            if kind_at(t, v) == Kind::InitializerList {
                initializer_keeps(t, st, n, ident, v);
            } else {
                assignment_keeps(t, st, n, ident, v, None);
            }
        },
        None => {},
    }
}

#[verifier::spinoff_prover]
proof fn return_from_keeps(t: TreeView, st: State, n: usize)
    ensures
        keeps(st, return_from(t, st, n).0),
    decreases rest(t, n), 80nat, 0int,
{
    reveal(return_from);
    broadcast use group_helpers;

    match child_at(t, n, 1) {
        Some(c) => {
            if kind_at(t, c) != Kind::Semicolon {
                expr_keeps(t, st, c);
            }
        },
        None => {},
    }
}

#[verifier::spinoff_prover]
proof fn statements_keeps(t: TreeView, st: State, n: usize, nodes: Seq<usize>, i: int)
    ensures
        remains(st, statements(t, st, n, nodes, i).0),
        statements(t, st, n, nodes, i).1 is Ok ==> keeps(st, statements(t, st, n, nodes, i).0),
    decreases rest(t, n), 5nat, nodes.len() - i,
{
    reveal(statements);
    broadcast use group_helpers;

    if i < 0 || i >= nodes.len() || !inside(t, n, nodes[i]) {
    } else {
        statement_keeps(t, st, nodes[i]);
        match statement(t, st, nodes[i]) {
            (st, Err(_)) => {},
            (st, Ok(d)) => {
                if d {
                } else {
                    statements_keeps(t, st, n, nodes, i + 1);
                }
            },
        }
    }
}

/// What is left of a function by a body, and where its end leads.
#[verifier::spinoff_prover]
pub(crate) proof fn compound_keeps(t: TreeView, st: State, n: usize, sv: ScopeView, nodes: Seq<usize>)
    ensures
        remains(moved(st, sv), compound(t, st, n, sv, nodes).0),
        compound(t, st, n, sv, nodes).1 is Ok ==> {
            &&& keeps(moved(st, sv), compound(t, st, n, sv, nodes).0)
            &&& placed_at(st.fun.blocks, st.labels, sv.blidx)
                && sv.continuation_blidx is Some ==> runs_into(
                t,
                st,
                n,
                sv,
                nodes,
                sv.continuation_blidx->0,
                compound(t, st, n, sv, nodes).0.fun.blocks,
            )
        },
    decreases rest(t, n), 7nat, 0int,
{
    reveal(compound);
    broadcast use group_helpers;

    framed_body_keeps(t, moved(st, sv), n, nodes);
    let r = framed_body(t, moved(st, sv), n, nodes);
    reveal(kept);
    reveal(link_end);
}

#[verifier::spinoff_prover]
proof fn while_loop_keeps(t: TreeView, st: State, n: usize)
    ensures
        remains(st, while_loop(t, st, n).0),
        while_loop(t, st, n).1 is Ok ==> {
            &&& keeps(st, while_loop(t, st, n).0)
            &&& placed_at(st.fun.blocks, st.labels, st.at.blidx) ==> while_edges(t, st, n)
        },
    decreases rest(t, n), 80nat, 0int,
{
    reveal(while_loop);
    reveal(kept);
    reveal(grown);
    broadcast use add_block_keeps;

    let cond = condition(t, n);
    let inner = part(t, n, Field::Body);
    let a = add_block(st, is_block(t, cond), true, "while_condition"@);
    if let Ok(test) = a.1 {
        let s = add_block(a.0, false, false, "Continuation"@);
        if let Ok(after) = s.1 {
            let test = ScopeView { continuation_blidx: Some(after.blidx), ..test };
            compound_keeps(t, s.0, n, test, body_nodes(t, cond));
            let r = compound(t, s.0, n, test, body_nodes(t, cond));
            if r.1 is Ok {
                let c = add_block(moved(r.0, test), is_block(t, inner), true, "while_body"@);
                if let Ok(b) = c.1 {
                    let b = ScopeView {
                        continuation_blidx: Some(test.blidx),
                        break_target: Some(after.blidx),
                        continue_target: Some(test.blidx),
                        ..b
                    };
                    compound_keeps(t, c.0, n, b, body_nodes(t, inner));
                    if compound(t, c.0, n, b, body_nodes(t, inner)).1 is Ok && placed_at(
                        st.fun.blocks,
                        st.labels,
                        st.at.blidx,
                    ) {
                        assert(while_edges(t, st, n));
                    }
                }
            }
        }
    }
}

#[verifier::spinoff_prover]
proof fn do_loop_keeps(t: TreeView, st: State, n: usize)
    ensures
        remains(st, do_loop(t, st, n).0),
        do_loop(t, st, n).1 is Ok ==> {
            &&& keeps(st, do_loop(t, st, n).0)
            &&& placed_at(st.fun.blocks, st.labels, st.at.blidx) ==> do_edges(t, st, n)
        },
    decreases rest(t, n), 80nat, 0int,
{
    reveal(do_loop);
    reveal(kept);
    reveal(grown);
    broadcast use {add_block_keeps, link_keeps};

    let cond = part(t, n, Field::Condition);
    let inner = part(t, n, Field::Body);
    let a = add_block(st, is_block(t, inner), true, "do_while_body"@);
    if let Ok(b) = a.1 {
        let d = add_block(moved(a.0, b), is_block(t, cond), false, "while_condition"@);
        if let Ok(test) = d.1 {
            let s = add_block(moved(d.0, st.at), false, false, "Continuation"@);
            if let Ok(after) = s.1 {
                let test = ScopeView { continuation_blidx: Some(after.blidx), ..test };
                compound_keeps(t, s.0, n, test, body_nodes(t, cond));
                let r = compound(t, s.0, n, test, body_nodes(t, cond));
                let c = link(r.0, test.blidx, b.blidx);
                if r.1 is Ok && c.1 is Ok {
                    let b = ScopeView {
                        continuation_blidx: Some(test.blidx),
                        break_target: Some(after.blidx),
                        continue_target: Some(test.blidx),
                        ..b
                    };
                    compound_keeps(t, c.0, n, b, body_nodes(t, inner));
                    if compound(t, c.0, n, b, body_nodes(t, inner)).1 is Ok && placed_at(
                        st.fun.blocks,
                        st.labels,
                        st.at.blidx,
                    ) {
                        assert(do_edges(t, st, n));
                    }
                }
            }
        }
    }
}

#[verifier::spinoff_prover]
#[verifier::rlimit(60)]
proof fn for_loop_keeps(t: TreeView, st: State, n: usize)
    ensures
        remains(st, for_loop(t, st, n).0),
        for_loop(t, st, n).1 is Ok ==> {
            &&& keeps(st, for_loop(t, st, n).0)
            &&& placed_at(st.fun.blocks, st.labels, st.at.blidx) ==> (for_clauses(t, n) matches Some(c) ==> for_edges(t, st, n, c.0, c.1, c.2))
        },
    decreases rest(t, n), 80nat, 0int,
{
    reveal(for_loop);
    reveal(kept);
    reveal(grown);
    broadcast use {add_block_keeps, link_keeps, open_scope_keeps, report_keeps};

    if let Some((init, cond, step)) = for_clauses(t, n) {
        let inner = part(t, n, Field::Body);
        let s = open_scope(st, "for_loop"@);
        let a = add_block(moved(s.0, s.1), false, true, "for_initializer_block"@);
        if let Ok(first) = a.1 {
            let d = add_block(moved(a.0, first), false, false, "for_body"@);
            if let Ok(b) = d.1 {
                let e = add_block(moved(d.0, b), false, false, "for_update"@);
                if let Ok(next) = e.1 {
                    let f = add_block(moved(e.0, next), false, false, "for_condition"@);
                    if let Ok(test) = f.1 {
                        let g = add_block(moved(f.0, test), false, false, "for_Continuation"@);
                        if let Ok(after) = g.1 {
                            let test = ScopeView { continuation_blidx: Some(b.blidx), ..test };
                            let first = ScopeView { continuation_blidx: Some(test.blidx), ..first };
                            let next = ScopeView { continuation_blidx: Some(test.blidx), ..next };
                            let b = ScopeView {
                                continuation_blidx: Some(next.blidx),
                                break_target: Some(after.blidx),
                                continue_target: Some(next.blidx),
                                ..b
                            };
                            compound_keeps(t, g.0, n, first, body_nodes(t, init));
                            let p = compound(t, g.0, n, first, body_nodes(t, init));
                            if p.1 is Ok {
                                compound_keeps(t, p.0, n, test, body_nodes(t, cond));
                                let q = compound(t, p.0, n, test, body_nodes(t, cond));
                                let l = link(q.0, test.blidx, after.blidx);
                                if q.1 is Ok && l.1 is Ok {
                                    compound_keeps(t, l.0, n, b, body_nodes(t, inner));
                                    let r = compound(t, l.0, n, b, body_nodes(t, inner));
                                    if r.1 is Ok {
                                        compound_keeps(t, r.0, n, next, body_nodes(t, step));
                                        let u = compound(t, r.0, n, next, body_nodes(t, step));
                                        if u.1 is Ok && placed_at(
                                            st.fun.blocks,
                                            st.labels,
                                            st.at.blidx,
                                        ) {
                                            assert(for_edges(t, st, n, init, cond, step));
                                        }
                                    }
                                }
                            }
                        }
                    }
                }
            }
        }
    }
}

proof fn arm_blocks_keep(
    t: TreeView,
    st: State,
    n: usize,
    count: nat,
    i: nat,
    arms: Seq<ScopeView>,
)
    requires
        i <= count,
        placed_at(st.fun.blocks, st.labels, st.at.blidx),
        forall|k: int|
            0 <= k < arms.len() ==> (#[trigger] arms[k]).blidx < st.fun.blocks.len()
                && same_targets(st.at, arms[k]),
    ensures
        ({
            let r = arm_blocks(t, st, n, count, i, arms);
            &&& keeps(st, r.0)
            &&& r.0.at == st.at
            &&& r.1 matches Ok(all) ==> {
                &&& all.len() == arms.len() + count - i
                &&& forall|k: int|
                    0 <= k < all.len() ==> (#[trigger] all[k]).blidx < r.0.fun.blocks.len()
                        && same_targets(st.at, all[k])
            }
        }),
    decreases count - i,
{
    broadcast use {kept_reflexive, kept_transitive, add_block_keeps};

    if i < count {
        let a = add_block(
            st,
            false,
            false,
            "switch_case"@ + dec(i) + "(of)::"@ + line_text(t, n),
        );
        if let Ok(sv) = a.1 {
            reveal(kept);
            arm_blocks_keep(t, a.0, n, count, i + 1, arms.push(sv));
        }
    }
}

proof fn link_arms_keep(st: State, arms: Seq<ScopeView>, i: int)
    requires
        0 <= i <= arms.len(),
        placed_at(st.fun.blocks, st.labels, st.at.blidx),
        forall|k: int|
            0 <= k < i ==> leads(st.fun.blocks[st.at.blidx as int], (#[trigger] arms[k]).blidx),
    ensures
        ({
            let r = link_arms(st, arms, i);
            &&& keeps(st, r.0)
            &&& r.0.at == st.at
            &&& r.1 is Ok ==> forall|k: int|
                0 <= k < arms.len() ==> leads(
                    r.0.fun.blocks[st.at.blidx as int],
                    (#[trigger] arms[k]).blidx,
                )
        }),
    decreases arms.len() - i,
{
    reveal(kept);
    broadcast use link_keeps;

    if i < arms.len() {
        let a = link(st, st.at.blidx, arms[i].blidx);
        if a.1 is Ok {
            link_arms_keep(a.0, arms, i + 1);
        }
    }
}

/// The state in which a later arm is lowered, told from that of the next one.
proof fn lemma_arm_state(
    t: TreeView,
    st: State,
    nodes: Seq<usize>,
    arms: Seq<ScopeView>,
    after: usize,
    i: int,
    k: int,
)
    requires
        i < k,
    ensures
        arm_state(t, st, nodes, arms, after, i, k) == arm_state(
            t,
            compound(t, st, nodes[i], arm_view(arms, after, i), arm_nodes(t, nodes[i])).0,
            nodes,
            arms,
            after,
            i + 1,
            k,
        ),
    decreases k - i,
{
    if i + 1 < k {
        lemma_arm_state(t, st, nodes, arms, after, i, k - 1);
    } else {
        assert(arm_state(t, st, nodes, arms, after, i, i) == st);
    }
}

#[verifier::spinoff_prover]
proof fn switch_arms_keeps(
    t: TreeView,
    st: State,
    n: usize,
    nodes: Seq<usize>,
    arms: Seq<ScopeView>,
    after: usize,
    i: int,
)
    requires
        0 <= i,
        arms.len() == nodes.len(),
        placed_at(st.fun.blocks, st.labels, after),
        forall|k: int|
            0 <= k < arms.len() ==> (#[trigger] arms[k]).blidx < st.fun.blocks.len(),
    ensures
        ({
            let r = switch_arms(t, st, n, nodes, arms, after, i);
            &&& grown(st.fun.blocks, st.labels, after, r.0.fun.blocks, r.0.labels)
            &&& r.1 is Ok && (forall|k: int|
                i <= k < nodes.len() ==> inside(t, n, #[trigger] nodes[k])) ==> forall|k: int|
                i <= k < nodes.len() ==> arm_edges(
                    t,
                    #[trigger] arm_state(t, st, nodes, arms, after, i, k),
                    nodes,
                    arms,
                    after,
                    k,
                    r.0.fun.blocks,
                )
        }),
    decreases rest(t, n), 70nat, nodes.len() - i,
{
    reveal(switch_arms);
    reveal(kept);
    reveal(grown);

    if i < nodes.len() && inside(t, n, nodes[i]) {
        let sv = arm_view(arms, after, i);
        compound_keeps(t, st, nodes[i], sv, arm_nodes(t, nodes[i]));
        let r = compound(t, st, nodes[i], sv, arm_nodes(t, nodes[i]));
        if r.1 is Ok {
            switch_arms_keeps(t, r.0, n, nodes, arms, after, i + 1);
            let e = switch_arms(t, r.0, n, nodes, arms, after, i + 1);
            if e.1 is Ok {
                assert(arm_edges(t, st, nodes, arms, after, i, e.0.fun.blocks));
                assert forall|k: int| i < k implies #[trigger] arm_state(
                    t,
                    st,
                    nodes,
                    arms,
                    after,
                    i,
                    k,
                ) == arm_state(t, r.0, nodes, arms, after, i + 1, k) by {
                    lemma_arm_state(t, st, nodes, arms, after, i, k);
                }
            }
        }
    }
}

#[verifier::spinoff_prover]
proof fn switch_keeps(t: TreeView, st: State, n: usize)
    ensures
        remains(st, switch(t, st, n).0),
        switch(t, st, n).1 is Ok ==> {
            &&& keeps(st, switch(t, st, n).0)
            &&& placed_at(st.fun.blocks, st.labels, st.at.blidx) ==> switch_edges(t, st, n)
        },
    decreases rest(t, n), 80nat, 0int,
{
    reveal(switch);
    reveal(kept);
    reveal(grown);
    broadcast use {add_block_keeps, link_keeps};

    let inner = part(t, n, Field::Body);
    let nodes = kids_of_kind(t, inner, Kind::CaseStatement);
    lemma_kids_where(t, inner, 0, |v: NodeView| v.kind == Kind::CaseStatement);
    assert forall|k: int| 0 <= k < nodes.len() implies inside(t, n, #[trigger] nodes[k]) by {
        assert(inside(t, inner, nodes[k]));
    }
    expr_keeps(t, st, condition(t, n));
    let v = expr(t, st, condition(t, n));
    if placed_at(st.fun.blocks, st.labels, st.at.blidx) && v.1 is Ok {
        let a = add_block(
            v.0,
            false,
            false,
            "switch_continuation(of)::"@ + line_text(t, n),
        );
        if let Ok(after) = a.1 {
            arm_blocks_keep(t, a.0, n, nodes.len(), 0, Seq::empty());
            let b = arm_blocks(t, a.0, n, nodes.len(), 0, Seq::empty());
            if let Ok(arms) = b.1 {
                link_arms_keep(b.0, arms, 0);
                let c = link_arms(b.0, arms, 0);
                let d = if has_default(t, nodes, 0) {
                    (c.0, Ok(()))
                } else {
                    link(c.0, c.0.at.blidx, after.blidx)
                };
                if c.1 is Ok && d.1 is Ok {
                    switch_arms_keeps(t, d.0, n, nodes, arms, after.blidx, 0);
                    let e = switch_arms(t, d.0, n, nodes, arms, after.blidx, 0);
                    if e.1 is Ok {
                        assert(switch_edges(t, st, n));
                    }
                }
            }
        }
    }
}

#[verifier::spinoff_prover]
proof fn if_else_keeps(t: TreeView, st: State, n: usize)
    ensures
        remains(st, if_else(t, st, n).0),
        if_else(t, st, n).1 is Ok ==> {
            &&& keeps(st, if_else(t, st, n).0)
            &&& placed_at(st.fun.blocks, st.labels, st.at.blidx) ==> if_edges(t, st, n)
        },
    decreases rest(t, n), 80nat, 0int,
{
    reveal(if_else);
    reveal(kept);
    reveal(grown);
    broadcast use {add_block_keeps, link_keeps};

    let yes = part(t, n, Field::Consequence);
    expr_keeps(t, st, condition(t, n));
    let v = expr(t, st, condition(t, n));
    if placed_at(st.fun.blocks, st.labels, st.at.blidx) && v.1 is Ok {
        let here = v.0.at;
        let a = add_block(
            v.0,
            is_block(t, yes),
            true,
            "if_consequence(of)::"@ + line_text(t, n),
        );
        if let Ok(sv) = a.1 {
            let s = add_block(a.0, false, false, "if_continuation(of)::"@ + line_text(t, n));
            if let Ok(after) = s.1 {
                let sv = ScopeView { continuation_blidx: Some(after.blidx), ..sv };
                compound_keeps(t, s.0, n, sv, body_nodes(t, yes));
                let c = compound(t, s.0, n, sv, body_nodes(t, yes));
                if c.1 is Ok {
                    if let Some(alt) = field_child(t, n, Field::Alternative) {
                        if let Some(no) = first_named_child(t, alt) {
                            else_branch_keeps(t, moved(c.0, here), n, no, after.blidx);
                        }
                    }
                    if if_else(t, st, n).1 is Ok {
                        assert(if_edges(t, st, n));
                    }
                }
            }
        }
    }
}

#[verifier::spinoff_prover]
proof fn else_branch_keeps(t: TreeView, st: State, n: usize, no: usize, after: usize)
    requires
        placed_at(st.fun.blocks, st.labels, st.at.blidx),
    ensures
        remains(st, else_branch(t, st, n, no, after).0),
        else_branch(t, st, n, no, after).1 is Ok && inside(t, n, no) ==> else_edges(
            t,
            st,
            n,
            no,
            after,
            else_branch(t, st, n, no, after).0.fun.blocks,
        ),
    decreases rest(t, n), 70nat, 0int,
{
    reveal(else_branch);
    reveal(kept);
    reveal(grown);
    reveal(link_end);
    broadcast use {add_block_keeps, link_keeps, link_end_keeps};

    let r = else_branch(t, st, n, no, after);
    if inside(t, n, no) {
        if kind_at(t, no) == Kind::IfStatement {
            let a = add_block(st, false, true, "if"@);
            if let Ok(sv) = a.1 {
                let other = ScopeView { continuation_blidx: Some(after), ..sv };
                if_else_keeps(t, moved(a.0, other), no);
                if r.1 is Ok {
                    assert(else_edges(t, st, n, no, after, r.0.fun.blocks));
                }
            }
        } else {
            let a = add_block(st, is_block(t, no), true, "alternative"@);
            if let Ok(sv) = a.1 {
                let other = ScopeView { continuation_blidx: Some(after), ..sv };
                compound_keeps(t, a.0, n, other, body_nodes(t, no));
                if r.1 is Ok {
                    assert(else_edges(t, st, n, no, after, r.0.fun.blocks));
                }
            }
        }
    }
}

#[verifier::spinoff_prover]
proof fn block_effects_keeps(t: TreeView, st: State, n: usize)
    ensures
        keeps(st, block_effects(t, st, n).0),
    decreases rest(t, n), 8nat, 0int,
{
    reveal(block_effects);
    reveal(kept);
    reveal(grown);

    block_walk_keeps(t, st, n);
}

#[verifier::spinoff_prover]
proof fn labeled_keeps(t: TreeView, st: State, n: usize)
    ensures
        remains(st, labeled(t, st, n).0),
        labeled(t, st, n).1 is Ok ==> keeps(st, labeled(t, st, n).0),
    decreases rest(t, n), 80nat, 0int,
{
    reveal(labeled);
    reveal(kept);
    reveal(grown);
    broadcast use link_keeps;

    let node = part(t, n, Field::Label);
    let label = text_at(t, node);
    if st.labels.contains_key(label) {
        let b = st.labels[label];
        let r = link(State { walked: st.walked.insert(b), ..st }, st.at.blidx, b);
        if r.1 is Ok {
            statements_keeps(
                t,
                moved(r.0, ScopeView { blidx: b, ..r.0.at }),
                n,
                except(named_children(t, n), Some(node), 0),
                0,
            );
        }
    }
}

// Laws

/// Lowering a statement loses no edge, no label and no statement that was made, even where it fails.
pub proof fn a_statement_loses_no_edge(t: TreeView, st: State, n: usize)
    requires
        placed_at(st.fun.blocks, st.labels, st.at.blidx),
    ensures
        edges_stay(st.fun.blocks, statement(t, st, n).0.fun.blocks),
        statements_stay(st.fun.blocks, statement(t, st, n).0.fun.blocks),
        statement(t, st, n).0.labels == st.labels,
{
    statement_keeps(t, st, n);
    reveal(grown);
}

/// After a statement, a `break`, a `continue` and the end of the body lead to where they led before
/// it.
pub proof fn a_statement_moves_no_target(t: TreeView, st: State, n: usize)
    requires
        placed_at(st.fun.blocks, st.labels, st.at.blidx),
        statement(t, st, n).1 is Ok,
    ensures
        same_targets(st.at, statement(t, st, n).0.at),
        statement(t, st, n).0.at.blidx < statement(t, st, n).0.fun.blocks.len(),
{
    statement_keeps(t, st, n);
    reveal(kept);
}

/// After the statements of a body, a `break`, a `continue` and the end of the body lead to where they
/// led before them.
pub proof fn a_body_moves_no_target(
    t: TreeView,
    st: State,
    n: usize,
    nodes: Seq<usize>,
    i: int,
    diverged: bool,
)
    requires
        placed_at(st.fun.blocks, st.labels, st.at.blidx),
        body(t, st, n, nodes, i, diverged).1 is Ok,
    ensures
        same_targets(st.at, body(t, st, n, nodes, i, diverged).0.at),
        edges_stay(st.fun.blocks, body(t, st, n, nodes, i, diverged).0.fun.blocks),
{
    body_keeps(t, st, n, nodes, i, diverged);
    reveal(kept);
}

/// From the end of a body that control gets to, it goes on to where the body is followed.
pub proof fn a_body_runs_into_what_follows(
    t: TreeView,
    st: State,
    n: usize,
    sv: ScopeView,
    nodes: Seq<usize>,
    to: usize,
)
    requires
        placed_at(st.fun.blocks, st.labels, sv.blidx),
        sv.continuation_blidx == Some(to),
        compound(t, st, n, sv, nodes).1 is Ok,
    ensures
        edges_stay(st.fun.blocks, compound(t, st, n, sv, nodes).0.fun.blocks),
        runs_into(t, st, n, sv, nodes, to, compound(t, st, n, sv, nodes).0.fun.blocks),
{
    compound_keeps(t, st, n, sv, nodes);
    reveal(kept);
}

/// A `break` ends its block, from where control goes on to what follows the loop or `switch`.
pub proof fn a_break_leads_to_its_target(t: TreeView, st: State, n: usize, to: usize)
    requires
        kind_at(t, n) == Kind::BreakStatement,
        st.at.blidx < st.fun.blocks.len(),
        st.at.break_target == Some(to),
        statement(t, st, n).1 is Ok,
    ensures
        statement(t, st, n).1 == Ok::<bool, ErrorView>(true),
        flows(statement(t, st, n).0.fun.blocks, st.at.blidx, to),
{
    reveal(statement);
    reveal(jump);
    broadcast use link_keeps;
}

/// A `continue` ends its block, from where control goes on to the next round of the loop.
pub proof fn a_continue_leads_to_its_target(t: TreeView, st: State, n: usize, to: usize)
    requires
        kind_at(t, n) == Kind::ContinueStatement,
        st.at.blidx < st.fun.blocks.len(),
        st.at.continue_target == Some(to),
        statement(t, st, n).1 is Ok,
    ensures
        statement(t, st, n).1 == Ok::<bool, ErrorView>(true),
        flows(statement(t, st, n).0.fun.blocks, st.at.blidx, to),
{
    reveal(statement);
    reveal(jump);
    broadcast use link_keeps;
}

/// A `while` loop is entered at its condition. From there control goes to the body and to what follows
/// the loop, and from the end of the body back to the condition. In the body a `break` leads to what
/// follows and a `continue` to the condition. Lowering goes on in what follows.
pub proof fn a_while_loop_has_its_edges(t: TreeView, st: State, n: usize)
    requires
        placed_at(st.fun.blocks, st.labels, st.at.blidx),
        while_loop(t, st, n).1 is Ok,
    ensures
        while_edges(t, st, n),
{
    while_loop_keeps(t, st, n);
}

/// A `do` loop is entered at its body, from whose end control goes to the condition, and from there
/// back to the body and to what follows the loop. In the body a `break` leads to what follows and a
/// `continue` to the condition. Lowering goes on in what follows.
pub proof fn a_do_loop_has_its_edges(t: TreeView, st: State, n: usize)
    requires
        placed_at(st.fun.blocks, st.labels, st.at.blidx),
        do_loop(t, st, n).1 is Ok,
    ensures
        do_edges(t, st, n),
{
    do_loop_keeps(t, st, n);
}

/// A `for` loop is entered at its initializer, from where control goes to the condition. From there it
/// goes to the body and to what follows the loop, from the body to the update, and from the update
/// back to the condition. In the body a `break` leads to what follows and a `continue` to the update.
/// Lowering goes on in what follows.
pub proof fn a_for_loop_has_its_edges(
    t: TreeView,
    st: State,
    n: usize,
    init: usize,
    cond: usize,
    step: usize,
)
    requires
        placed_at(st.fun.blocks, st.labels, st.at.blidx),
        for_clauses(t, n) == Some((init, cond, step)),
        for_loop(t, st, n).1 is Ok,
    ensures
        for_edges(t, st, n, init, cond, step),
{
    for_loop_keeps(t, st, n);
}

/// From the block that the value of a `switch` is found in, control goes to each of its arms, and to
/// what follows if there is no default. From the end of an arm it falls through to the next one, and
/// from the last one to what follows. In an arm a `break` leads to what follows, and a `continue` to
/// where it led outside. Lowering goes on in what follows.
pub proof fn a_switch_has_its_edges(t: TreeView, st: State, n: usize)
    requires
        placed_at(st.fun.blocks, st.labels, st.at.blidx),
        switch(t, st, n).1 is Ok,
    ensures
        switch_edges(t, st, n),
{
    switch_keeps(t, st, n);
}

/// From the block that the condition of an `if` is found in, control goes to the consequence, and to
/// the alternative, or to what follows if there is none; and from the ends of both to what follows.
/// Lowering goes on in what follows.
pub proof fn an_if_has_its_edges(t: TreeView, st: State, n: usize)
    requires
        placed_at(st.fun.blocks, st.labels, st.at.blidx),
        if_else(t, st, n).1 is Ok,
    ensures
        if_edges(t, st, n),
{
    if_else_keeps(t, st, n);
}

} // verus!
