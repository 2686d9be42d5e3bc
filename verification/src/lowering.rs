//! What each construct is lowered to.
//!
//! `expr` and `location` say what an expression is lowered to as a value and as a place,
//! `statement` what a statement is lowered to. Each maps the state before to the state after and
//! the result; a construct that cannot be lowered leaves a report, and something harmless in its
//! place.

use vstd::prelude::*;
use crate::classes::{class_at, defining_class, deleted, dispatched, dtor_name, mangled, method_class, qualified};
use crate::error::ErrorView;
use crate::kinds::{Field, Kind};
use crate::mir::{AddressView, CallStyleView, ExpView, PathView, SegmentView, StatementKindView, TerminatorView, VariableRef};
use crate::objects::FrameView;
use crate::paths::{constant_text_index, deref_segment, element, index_value, literal_address, pointee_location, union_segment};
use crate::report::{elision, quoted, Attribution};
use crate::scope::{meaning, VarKind};
use crate::shapes::{array_rank, asm_operands, asm_readwrite, bare_callee, body_nodes, empty_kind, generic_parts, kind_at, recovery, statement_expression, text_at, type_tag, SlotView};
use crate::state::{add_block, assign, at_source, declare, ended, fresh, inner_scope_name, intern, link, link_end, loads, moved, named, open_scope, read, report, resolved, return_implicitly, temp_name, temp_named, Outcome, ScopeView, State};
use crate::syntax::{child_at, field_child, field_children, first_named_child, inside, kids, kids_of_kind, named_child, named_children, paren_inner, part, plain_children, rest, subscript_index, SyntaxTree, TreeView};
use crate::text::{dec, trimmed};

verus! {

/// What is made of an index that is no node, which does not come up.
pub open spec fn no_such_node<T>(st: State) -> Outcome<T> {
    (st, Err(ErrorView::TreeSitterParse(""@)))
}

// Recovery

/// Says, once per function, that its body holds parse-recovery output.
#[verifier::opaque]
pub open spec fn unanalyzed(st: State) -> Outcome<()> {
    if st.recovered.contains(st.fun.name) {
        (st, Ok(()))
    } else {
        report(
            State { recovered: st.recovered.insert(st.fun.name), ..st },
            Attribution::SourceProblem,
            "function `"@ + st.fun.name
            + "`: tree-sitter parse-recovery output in this body is not analyzed (the code it displaced is not in the parse tree)"@,
        )
    }
}

/// Says that node `n` was not lowered: parse recovery is the source's fault, anything else is a
/// gap in the front end.
#[verifier::opaque]
pub open spec fn blame(t: TreeView, st: State, n: usize, message: Seq<char>) -> Outcome<()> {
    if recovery(t, n) is Some {
        unanalyzed(st)
    } else {
        report(st, Attribution::FrontendGap, message)
    }
}

/// Says that the name `n` is empty: the parser put it there to repair the source.
pub open spec fn missing_name(t: TreeView, st: State, n: usize) -> Outcome<()> {
    blame(
        t,
        st,
        n,
        t[n as int].kind_name + " with no name (a zero-width node names no object)"@,
    )
}

/// A value that nothing else reads or writes.
pub open spec fn opaque_value(st: State) -> Outcome<ExpView> {
    let v = fresh(st);
    (v.0, Ok(ExpView::Variable(v.1)))
}

/// A place that nothing else reads or writes.
pub open spec fn dead_place(st: State) -> Outcome<PathView> {
    let v = fresh(st);
    (v.0, Ok(PathView::of(v.1)))
}

/// An expression of a kind that is not lowered: its value is opaque.
#[verifier::opaque]
pub open spec fn unsupported(t: TreeView, st: State, n: usize) -> Outcome<ExpView> {
    match blame(t, st, n, "ERR 78: Unsupported expression type: "@ + t[n as int].kind_name) {
        (st, Err(e)) => (st, Err(e)),
        (st, Ok(_)) => {
            opaque_value(st)
        },
    }
}

/// A node that names no place: what is written to it is dropped.
#[verifier::opaque]
pub open spec fn not_a_place(t: TreeView, st: State, n: usize) -> Outcome<PathView> {
    match blame(t, st, n, "not an lvalue: "@ + t[n as int].kind_name) {
        (st, Err(e)) => (st, Err(e)),
        (st, Ok(_)) => {
            dead_place(st)
        },
    }
}

/// Says, once, that a statement could not be parsed.
#[verifier::opaque]
pub open spec fn unparsable(t: TreeView, st: State, n: usize) -> Outcome<()> {
    if st.errors.contains(n) {
        (st, Ok(()))
    } else {
        report(
            State { errors: st.errors.insert(n), ..st },
            Attribution::SourceProblem,
            "parse error"@ + elision(text_at(t, n)) + "; construct not parsed -- ERROR: "@
            + quoted(text_at(t, n)),
        )
    }
}

// Values

/// Whether a node of kind `k` is a constant, lowered to its source text.
pub open spec fn constant_kind(k: Kind) -> bool {
    ||| k == Kind::NumberLiteral
    ||| k == Kind::StringLiteral
    ||| k == Kind::CharLiteral
    ||| k == Kind::ConcatenatedString
    ||| k == Kind::TrueLiteral
    ||| k == Kind::FalseLiteral
    ||| k == Kind::NullLiteral
    ||| k == Kind::SizeofExpression
    ||| k == Kind::AlignofExpression
}

/// Whether `name` means a function here rather than a variable.
pub open spec fn names_function(st: State, name: Seq<char>) -> bool {
    &&& meaning(st.scopes, st.at.sidx, name) is None
    &&& st.env.functions.contains_key(name) || st.env.declared.contains(name)
}

/// A name used as a value: a function, or a variable that is read.
#[verifier::opaque]
pub open spec fn identifier(t: TreeView, st: State, n: usize) -> Outcome<ExpView> {
    let name = text_at(t, n);
    if name.len() == 0 {
        match missing_name(t, st, n) {
            (st, Err(e)) => (st, Err(e)),
            (st, Ok(_)) => {
                opaque_value(st)
            },
        }
    } else if names_function(st, name) {
        (st, Ok(ExpView::FunctionPtr(resolved(st.env, name))))
    } else {
        let p = named(st, name);
        let v = read(p.0, p.1);
        (v.0, Ok(v.1))
    }
}

/// Folds the values from number `i` on into the running value of `target`.
pub open spec fn blend_more(
    st: State,
    target: PathView,
    values: Seq<ExpView>,
    i: int,
) -> State
decreases values.len() - i,
{
    if i < 0 || i >= values.len() {
        st
    } else {
        let so_far = read(st, target);
        blend_more(assign(so_far.0, target, values[i], Some(so_far.1)), target, values, i + 1)
    }
}

/// A temporary that may hold any of `values`.
#[verifier::opaque]
pub open spec fn blend(st: State, values: Seq<ExpView>) -> (State, ExpView) {
    let name = temp_name(st.temps);
    let p = named(temp_named(st), name);
    let st = if values.len() == 0 {
        p.0
    } else {
        let second = if values.len() > 1 {
            Some(values[1])
        } else {
            None
        };
        blend_more(assign(p.0, p.1, values[0], second), p.1, values, 2)
    };
    let v = intern(st, name);
    (v.0, ExpView::Variable(v.1))
}

/// The variable that a value is, if it is one.
pub open spec fn bare_variable(e: ExpView) -> Option<VariableRef> {
    match e {
        ExpView::Variable(v) => Some(v),
        ExpView::AccessPath(a) => if a.offsets.len() == 0 {
            Some(a.base)
        } else {
            None
        },
        _ => None,
    }
}

/// What `v` is known to point at in the current block.
pub open spec fn pointee(st: State, v: VariableRef) -> Option<AddressView> {
    if st.aliases.contains_key(v) && st.aliases[v].1 == st.at.blidx {
        Some(st.aliases[v].0)
    } else {
        None
    }
}

/// Whether `n` has the operator `op`.
pub open spec fn has_operator(t: TreeView, n: usize, op: Seq<char>) -> bool {
    field_child(t, n, Field::Operator) matches Some(c) && text_at(t, c) == op
}

/// What a pointer expression is worth once its operand is: a dereference of a constant address
/// reads the object there, one of a pointer with a known pointee reads that, and otherwise the
/// value is the operand's.
#[verifier::opaque]
pub open spec fn dereferenced(
    t: TreeView,
    st: State,
    n: usize,
    arg: ExpView,
) -> (State, ExpView) {
    let deref = has_operator(t, n, "*"@);
    let known = match bare_variable(arg) {
        Some(v) => pointee(st, v),
        None => None,
    };
    if deref && kind_at(t, part(t, n, Field::Argument)) == Kind::CastExpression && arg is Str
    && arg->Str_0.len() > 0 {
        read(st, literal_address(arg->Str_0))
    } else if deref && known is Some {
        match pointee_location(known->0) {
            Some(p) => read(st, p),
            None => (st, ExpView::address(known->0)),
        }
    } else {
        (st, arg)
    }
}

/// The list of operands of a cast that the grammar could only read as a call, as in `(T)(x)`, or
/// `None` for a call. What the import knows of the name decides: a variable, a function that is
/// defined or declared is called; a name used as a type is cast to. Where nothing is known of it,
/// the doubt is reported, and it is taken for a call.
#[verifier::opaque]
pub open spec fn cast_shaped(t: TreeView, st: State, n: usize) -> Outcome<Option<usize>> {
    match cast_name(t, n) {
        None => (st, Ok(None)),
        Some(inner) => {
            let name = text_at(t, inner);
            let operands = field_child(t, n, Field::Arguments);
            let has_operand = operands is Some && first_named_child(t, operands->0) is Some;
            if meaning(st.scopes, st.at.sidx, name) is Some || st.env.functions.contains_key(name)
            || st.env.declared.contains(name) {
                (st, Ok(None))
            } else if !has_operand {
                if st.env.types.contains(name) {
                    match report(
                        st,
                        Attribution::SourceProblem,
                        "`"@ + quoted(text_at(t, n)) + "` casts nothing: `"@ + name
                        + "` is a type here and a cast needs an operand; lowered as a call to `"@
                        + name + "`"@,
                    ) {
                        (st, Err(e)) => (st, Err(e)),
                        (st, Ok(_)) => {
                            (st, Ok(None))
                        },
                    }
                } else {
                    (st, Ok(None))
                }
            } else if !st.env.types.contains(name) {
                match report(
                    st,
                    Attribution::FrontendGap,
                    "cast-shaped call `"@ + quoted(text_at(t, n))
                    + "`: this unit neither defines, declares, nor uses `"@ + name
                    + "` as a type, so it cannot be told from a cast; lowered as a call -- if `"@
                    + name + "` is a type, the operand's taint stops here"@,
                ) {
                    (st, Err(e)) => (st, Err(e)),
                    (st, Ok(_)) => {
                        (st, Ok(None))
                    },
                }
            } else {
                (st, Ok(operands))
            }
        },
    }
}

/// The name in the parentheses that a call has for a callee.
pub open spec fn cast_name(t: TreeView, n: usize) -> Option<usize> {
    match field_child(t, n, Field::Function) {
        Some(callee) => if kind_at(t, callee) == Kind::ParenthesizedExpression {
            match first_named_child(t, callee) {
                Some(inner) => if kind_at(t, inner) == Kind::Identifier || kind_at(t, inner)
                == Kind::TypeIdentifier {
                    Some(inner)
                } else {
                    None
                },
                None => None,
            }
        } else {
            None
        },
        None => None,
    }
}

/// How the callee at `p` is called: a name directly, a place through the function pointer there.
/// A global is a name where its path is the name alone, unless the callee is a value.
#[verifier::opaque]
pub open spec fn call_style(
    st: State,
    p: PathView,
    name: Seq<char>,
    is_value: bool,
) -> (State, CallStyleView) {
    if p.base == VariableRef::Global && p.fields.len() <= 1 && !is_value {
        (st, CallStyleView::DirectCall(seq![resolved(st.env, name)]))
    } else {
        let a = loads(st, p);
        (
            a.0,
            CallStyleView::FuncPtrCall { callee: a.1, signature: Some("indirect-call"@) },
        )
    }
}

/// Makes the call, into the temporary `temp`.
#[verifier::opaque]
pub open spec fn called(
    st: State,
    style: CallStyleView,
    args: Seq<ExpView>,
    temp: Seq<char>,
) -> (State, ExpView) {
    let ret = intern(st, temp);
    let st = crate::state::emit(
        ret.0,
        StatementKindView::CallAssign { style, rets: seq![ret.1], args },
    );
    let p = named(st, temp);
    (p.0, ExpView::Variable(p.1.base))
}

/// What an assignment makes known of the pointer it assigns to: the address that `&` forms, and
/// nothing otherwise. Assigning through a pointer leaves what is known as it is.
#[verifier::opaque]
pub open spec fn alias_after(
    t: TreeView,
    st: State,
    target: usize,
    value: usize,
    plain: bool,
    p: PathView,
    v: ExpView,
) -> State {
    if kind_at(t, target) == Kind::PointerExpression || p.fields.len() > 0 {
        st
    } else if plain && kind_at(t, value) == Kind::PointerExpression && has_operator(t, value, "&"@)
    && (v is Variable || v is AccessPath) {
        let a = match v {
            ExpView::AccessPath(a) => a,
            _ => AddressView { base: v->Variable_0, offsets: Seq::empty() },
        };
        State { aliases: st.aliases.insert(p.base, (a, st.at.blidx)), ..st }
    } else {
        State { aliases: st.aliases.remove(p.base), ..st }
    }
}

/// The layout that a tag names.
pub open spec fn layout_of(st: State, tag: Option<Seq<char>>) -> Option<Seq<SlotView>> {
    match tag {
        Some(tag) => if st.env.layouts.contains_key(tag) {
            Some(st.env.layouts[tag])
        } else {
            None
        },
        None => None,
    }
}

/// The first member named `name`, from number `i` on.
pub open spec fn member_from(members: Seq<SlotView>, i: int, name: Seq<char>) -> Option<SlotView>
decreases members.len() - i,
{
    if i < 0 || i >= members.len() {
        None
    } else if members[i].name == name {
        Some(members[i])
    } else {
        member_from(members, i + 1, name)
    }
}

/// The layout of the record that the member `name` is.
pub open spec fn member_layout(
    st: State,
    members: Option<Seq<SlotView>>,
    name: Seq<char>,
) -> Option<Seq<SlotView>> {
    match members {
        Some(m) => match member_from(m, 0, name) {
            Some(slot) => layout_of(st, slot.type_tag),
            None => None,
        },
        None => None,
    }
}

/// The layout of an array's elements, at the level where the elements are.
pub open spec fn layout_at_depth(elem: Option<Seq<SlotView>>, depth: nat) -> Option<Seq<SlotView>> {
    if depth == 1 {
        elem
    } else {
        None
    }
}

/// `s` without the `[` it begins with.
pub open spec fn without_open(s: Seq<char>) -> Seq<char>
decreases s.len(),
{
    if s.len() > 0 && s[0] == '[' {
        without_open(s.skip(1))
    } else {
        s
    }
}

/// `s` without the `]` it ends with.
pub open spec fn without_close(s: Seq<char>) -> Seq<char>
decreases s.len(),
{
    if s.len() > 0 && s.last() == ']' {
        without_close(s.drop_last())
    } else {
        s
    }
}

/// Where an element of a braced initializer goes, relative to what the braces initialize, and the
/// layout that braces inside it have: at a designated member or index, at the member that its
/// position names, or at the index that its position is.
#[verifier::opaque]
pub open spec fn placed(
    t: TreeView,
    st: State,
    e: usize,
    members: Option<Seq<SlotView>>,
    elem: Option<Seq<SlotView>>,
    depth: nat,
    idx: usize,
) -> (Seq<SegmentView>, Option<Seq<SlotView>>) {
    if kind_at(t, e) == Kind::InitializerPair {
        let d = text_at(t, part(t, e, Field::Designator));
        if d.len() > 0 && d[0] == '.' {
            let member = trimmed(d.skip(1));
            (seq![SegmentView::Symbol(member)], member_layout(st, members, member))
        } else {
            (
                element(constant_text_index(without_close(without_open(trimmed(d))))),
                layout_at_depth(elem, depth),
            )
        }
    } else if members is Some && idx < members->0.len() {
        (
            seq![SegmentView::Symbol(members->0[idx as int].name)],
            layout_of(st, members->0[idx as int].type_tag),
        )
    } else {
        (element(Some(idx as i64)), layout_at_depth(elem, depth))
    }
}

/// The node that an element of a braced initializer takes its value from.
pub open spec fn value_of(t: TreeView, e: usize) -> usize {
    if kind_at(t, e) == Kind::InitializerPair {
        part(t, e, Field::Value)
    } else {
        e
    }
}

/// The last of some nodes.
pub open spec fn last_of(s: Seq<usize>) -> Option<usize> {
    if s.len() > 0 {
        Some(s.last())
    } else {
        None
    }
}

/// The expression whose value a statement expression has, where its last statement is one.
pub open spec fn yielded(t: TreeView, n: usize) -> Option<usize> {
    match last_of(plain_children(t, n)) {
        Some(l) => if inside(t, n, l) && kind_at(t, l) == Kind::ExpressionStatement {
            match child_at(t, l, 0) {
                Some(c) => if empty_kind(kind_at(t, c)) {
                    None
                } else {
                    Some(c)
                },
                None => None,
            }
        } else {
            None
        },
        None => None,
    }
}

/// The line that node `n` begins on, as it is written in the notes.
pub open spec fn line_text(t: TreeView, n: usize) -> Seq<char> {
    dec(t[n as int].line as nat)
}

/// Goes on in a block that control does not reach, after a statement that control does not leave.
#[verifier::opaque]
pub open spec fn after_divergence(st: State, explainer: Seq<char>) -> Outcome<()> {
    match add_block(st, false, false, explainer) {
        (st, Err(e)) => (st, Err(e)),
        (st, Ok(sv)) => {
            (moved(st, sv), Ok(()))
        },
    }
}

/// Folds the operands of an inline assembly from number `i` on into `target`.
pub open spec fn asm_fold(st: State, target: PathView, sources: Seq<ExpView>, i: int) -> State
decreases sources.len() - i,
{
    if i < 0 || i >= sources.len() {
        st
    } else if i == 0 {
        asm_fold(assign(st, target, sources[0], None), target, sources, 1)
    } else {
        let so_far = read(st, target);
        asm_fold(
            assign(so_far.0, target, sources[i], Some(so_far.1)),
            target,
            sources,
            i + 1,
        )
    }
}

/// Writes `value` to the places from number `i` on.
pub open spec fn asm_writes(st: State, targets: Seq<PathView>, i: int, value: ExpView) -> State
decreases targets.len() - i,
{
    if i < 0 || i >= targets.len() {
        st
    } else {
        asm_writes(assign(st, targets[i], value, None), targets, i + 1, value)
    }
}

/// Transfers the sources of an inline assembly to its targets: every source may reach every
/// target. The value is that of the first target.
#[verifier::opaque]
pub open spec fn asm_transfer(
    st: State,
    sources: Seq<ExpView>,
    targets: Seq<PathView>,
) -> (State, ExpView) {
    let p = named(temp_named(st), temp_name(st.temps));
    let v = read(asm_fold(p.0, p.1, sources, 0), p.1);
    let st = asm_writes(v.0, targets, 0, v.1);
    if targets.len() > 0 {
        read(st, targets[0])
    } else {
        (st, v.1)
    }
}

/// Lets control go to the labels from number `i` on, to each block once.
pub open spec fn link_labels(
    t: TreeView,
    st: State,
    labels: Seq<usize>,
    i: int,
    linked: Seq<usize>,
) -> Outcome<()>
decreases labels.len() - i,
{
    if i < 0 || i >= labels.len() {
        (st, Ok(()))
    } else {
        let label = text_at(t, labels[i]);
        if !st.labels.contains_key(label) {
            match report(
                st,
                Attribution::SourceProblem,
                "`asm goto` to undefined label `"@ + label + "`"@,
            ) {
                (st, Err(e)) => (st, Err(e)),
                (st, Ok(_)) => {
                    link_labels(t, st, labels, i + 1, linked)
                },
            }
        } else if linked.contains(st.labels[label]) {
            link_labels(t, st, labels, i + 1, linked)
        } else {
            let b = st.labels[label];
            match link(st, st.at.blidx, b) {
                (st, Err(e)) => (st, Err(e)),
                (st, Ok(_)) => {
                    link_labels(t, st, labels, i + 1, linked.push(b))
                },
            }
        }
    }
}

/// The labels that an inline assembly may jump to.
pub open spec fn asm_labels(t: TreeView, n: usize) -> Seq<usize> {
    match field_child(t, n, Field::GotoLabels) {
        Some(list) => field_children(t, list, Field::Label),
        None => Seq::empty(),
    }
}

/// Lets control go to the labels of an inline assembly, and past it.
#[verifier::opaque]
pub open spec fn asm_jumps(t: TreeView, st: State, n: usize) -> Outcome<()> {
    let labels = asm_labels(t, n);
    if labels.len() == 0 {
        (st, Ok(()))
    } else {
        match link_labels(t, st, labels, 0, Seq::empty()) {
            (st, Err(e)) => (st, Err(e)),
            (st, Ok(_)) => {
                match add_block(st, false, true, "after_asm_goto::"@ + line_text(t, n)) {
                    (st, Err(e)) => (st, Err(e)),
                    (st, Ok(sv)) => {
                        (moved(st, sv), Ok(()))
                    },
                }
            },
        }
    }
}

/// Whether `location` resolves a node of kind `k` itself, rather than by its value.
pub open spec fn place_kind(k: Kind) -> bool {
    ||| k == Kind::Identifier
    ||| k == Kind::QualifiedIdentifier
    ||| k == Kind::FieldExpression
    ||| k == Kind::SubscriptExpression
    ||| k == Kind::CompoundStatement
    ||| k == Kind::StringLiteral
    ||| k == Kind::ConcatenatedString
    ||| k == Kind::ParenthesizedExpression
    ||| k == Kind::ParenthesizedDeclarator
    ||| k == Kind::PointerExpression
}

/// Where `location` comes among the functions on one node.
pub open spec fn place_rank(k: Kind) -> nat {
    if place_kind(k) {
        10
    } else {
        60
    }
}

/// The place that a dereference names, given the place that its operand names.
pub open spec fn pointed_place(t: TreeView, st: State, n: usize, p: PathView) -> PathView {
    if has_operator(t, n, "*"@) && p.fields.len() == 0 && pointee(st, p.base) is Some {
        let a = pointee(st, p.base)->0;
        match pointee_location(a) {
            Some(q) => q,
            None => PathView::of(a.base),
        }
    } else {
        p
    }
}

/// Whether an operator only compares, so that its result carries nothing.
pub open spec fn comparing_kind(k: Kind) -> bool {
    k == Kind::EqualEqual || k == Kind::LessEqual || k == Kind::GreaterEqual
}

/// The result of a binary operator: a temporary that takes its value from both operands.
#[verifier::opaque]
pub open spec fn combined(
    st: State,
    op: Kind,
    left: ExpView,
    right: ExpView,
) -> (State, ExpView) {
    let name = temp_name(st.temps);
    let p = named(temp_named(st), name);
    let st = if comparing_kind(op) {
        p.0
    } else {
        assign(p.0, p.1, left, Some(right))
    };
    let v = intern(st, name);
    (v.0, ExpView::Variable(v.1))
}

/// Adds one to what is at `p`.
#[verifier::opaque]
pub open spec fn incremented(st: State, p: PathView) -> (State, ExpView) {
    let cur = read(st, p);
    let temp = named(temp_named(cur.0), temp_name(cur.0.temps));
    let st = assign(temp.0, temp.1, cur.1, Some(ExpView::Str("1"@)));
    let v = ExpView::Variable(temp.1.base);
    (assign(st, p, v, None), v)
}

// Objects

/// The name that a declarator declares.
pub open spec fn leaf_name(t: TreeView, n: usize) -> Option<usize>
decreases rest(t, n),
{
    let k = kind_at(t, n);
    if k == Kind::Identifier {
        Some(n)
    } else if k == Kind::PointerDeclarator || k == Kind::ArrayDeclarator || k
    == Kind::FunctionDeclarator || k == Kind::InitDeclarator {
        match field_child(t, n, Field::Declarator) {
            Some(c) => leaf_name(t, c),
            None => None,
        }
    } else if k == Kind::ReferenceDeclarator || k == Kind::ParenthesizedDeclarator {
        match first_named_child(t, n) {
            Some(c) => leaf_name(t, c),
            None => None,
        }
    } else {
        None
    }
}

/// The name that a declarator declares.
pub fn declarator_leaf(tree: &SyntaxTree, n: usize) -> (c: Option<usize>)
requires
n < tree@.len(),
ensures
c == leaf_name(tree@, n),
c matches Some(m) ==> m < tree@.len(),
decreases rest(tree@, n),
{
    let k = tree.kind(n);
    if k == Kind::Identifier {
        Some(n)
    } else if k == Kind::PointerDeclarator || k == Kind::ArrayDeclarator || k
    == Kind::FunctionDeclarator || k == Kind::InitDeclarator {
        match tree.field(n, Field::Declarator) {
            Some(c) => declarator_leaf(tree, c),
            None => None,
        }
    } else if k == Kind::ReferenceDeclarator || k == Kind::ParenthesizedDeclarator {
        match tree.first_named_child(n) {
            Some(c) => declarator_leaf(tree, c),
            None => None,
        }
    } else {
        None
    }
}

/// The name of the type of a declaration, where it may be that of a class.
pub open spec fn type_text(t: TreeView, n: usize) -> Option<Seq<char>> {
    match type_tag(t, n) {
        Some(tag) => Some(tag),
        None => match field_child(t, n, Field::Type) {
            Some(ty) => if kind_at(t, ty) == Kind::QualifiedIdentifier {
                Some(text_at(t, ty))
            } else {
                None
            },
            None => None,
        },
    }
}

/// The class that the type of a declaration names, if it names one that is known.
pub open spec fn class_named(t: TreeView, st: State, n: usize) -> Option<Seq<char>> {
    match type_text(t, n) {
        Some(name) => if class_at(st.env.tables.classes, name) is Some {
            Some(name)
        } else {
            None
        },
        None => None,
    }
}

/// Records the class of the variable `name` that declaration `n` declares, if it has one.
pub open spec fn object_typed(t: TreeView, st: State, n: usize, name: Seq<char>) -> State {
    match class_named(t, st, n) {
        Some(class) => State { objects: st.objects.typed(name, class), ..st },
        None => st,
    }
}

/// Records what the declarator `d` of declaration `n` declares, if it is an object of a class or
/// points at one. An object is made in the current scope.
#[verifier::opaque]
pub open spec fn object_declared(t: TreeView, st: State, n: usize, d: usize) -> State {
    match (class_named(t, st, n), leaf_name(t, d)) {
        (Some(class), Some(leaf)) => {
            let name = text_at(t, leaf);
            let direct = kind_at(t, d) == Kind::Identifier || (kind_at(t, d) == Kind::InitDeclarator
                && kind_at(t, part(t, d, Field::Declarator)) == Kind::Identifier);
            let typed = st.objects.typed(name, class);
            State {
                objects: if direct {
                    typed.recorded(name, class)
                } else {
                    typed
                },
                ..st
            }
        },
        _ => st,
    }
}

/// Makes a call of which only the effects count.
pub open spec fn run(st: State, targets: Seq<Seq<char>>, args: Seq<ExpView>) -> State {
    let ret = fresh(st);
    crate::state::emit(
        ret.0,
        StatementKindView::CallAssign {
            style: CallStyleView::DirectCall(targets),
            rets: seq![ret.1],
            args,
        },
    )
}

/// Calls the constructor of `class` with as many parameters as there are arguments, for the object
/// `obj`.
#[verifier::opaque]
pub open spec fn ctor_call(
    st: State,
    class: Seq<char>,
    obj: Seq<char>,
    args: Seq<ExpView>,
) -> State {
    let p = named(st, obj);
    let v = read(p.0, p.1);
    run(
        v.0,
        seq![mangled(st.env.tables.overloads, qualified(class, class), args.len() as usize)],
        seq![v.1] + args,
    )
}

/// Declares the object `obj` of the class `class` in the current scope, and constructs it.
#[verifier::opaque]
pub open spec fn constructed(
    st: State,
    class: Seq<char>,
    obj: Seq<char>,
    args: Seq<ExpView>,
) -> State {
    let st = declare(st, obj, VarKind::Local);
    let st = State { objects: st.objects.typed(obj, class).recorded(obj, class), ..st };
    ctor_call(st, class, obj, args)
}

/// Whether `class` is a class with a constructor.
pub open spec fn has_ctor(st: State, class: Seq<char>) -> bool {
    class_at(st.env.tables.classes, class) matches Some(info) && info.has_ctor
}

/// Destroys the first `i` objects of a scope, last first. Which class an object on the stack is of is
/// known, so it has one destructor at most.
pub open spec fn destroyed(st: State, frame: FrameView, i: int) -> State
decreases i,
{
    if i <= 0 {
        st
    } else {
        let o = frame[i - 1];
        let st = match defining_class(st.env.tables.classes, o.1) {
            Some(c) => {
                let p = named(st, o.0);
                let v = read(p.0, p.1);
                run(v.0, seq![dtor_name(c)], seq![v.1])
            },
            None => st,
        };
        destroyed(st, frame, i - 1)
    }
}

/// Destroys the objects that were made in the current scope, last first.
#[verifier::opaque]
pub open spec fn scope_exit(st: State) -> State {
    destroyed(st, st.objects.here(), st.objects.here().len() as int)
}

/// What is said of an argument that has no type to name it.
pub open spec fn untyped_argument() -> ErrorView {
    ErrorView::TreeSitterParse("constructor argument parameter_declaration has no type"@)
}

/// The value of a constructor argument that the grammar could only read as the declaration of a
/// parameter: a type with a function declarator is a call, a type alone is a name.
#[verifier::opaque]
pub open spec fn vexing_argument(t: TreeView, st: State, n: usize) -> Outcome<ExpView>
decreases rest(t, n), 1nat, 0int,
{
    match field_child(t, n, Field::Type) {
        None => (st, Err(untyped_argument())),
        Some(ty) => {
            let name = text_at(t, ty);
            match field_child(t, n, Field::Declarator) {
                Some(d) => if kind_at(t, d) == Kind::AbstractFunctionDeclarator {
                    let inner = match field_child(t, d, Field::Parameters) {
                        Some(list) => kids_of_kind(t, list, Kind::ParameterDeclaration),
                        None => Seq::empty(),
                    };
                    match vexing_arguments(t, st, n, inner, 0, Seq::empty()) {
                        (st, Err(e)) => (st, Err(e)),
                        (st, Ok(args)) => {
                            let temp = temp_name(st.temps);
                            let ret = fresh(st);
                            let st = crate::state::emit(
                                ret.0,
                                StatementKindView::CallAssign {
                                    style: CallStyleView::DirectCall(seq![name]),
                                    rets: seq![ret.1],
                                    args,
                                },
                            );
                            let p = named(st, temp);
                            let v = read(p.0, p.1);
                            (v.0, Ok(v.1))
                        },
                    }
                } else {
                    let p = named(st, name);
                    let v = read(p.0, p.1);
                    (v.0, Ok(v.1))
                },
                None => {
                    let p = named(st, name);
                    let v = read(p.0, p.1);
                    (v.0, Ok(v.1))
                },
            }
        },
    }
}

/// The values of the arguments from number `i` on, after those in `values`.
#[verifier::opaque]
pub open spec fn vexing_arguments(
    t: TreeView,
    st: State,
    n: usize,
    nodes: Seq<usize>,
    i: int,
    values: Seq<ExpView>,
) -> Outcome<Seq<ExpView>>
decreases rest(t, n), 0nat, nodes.len() - i,
{
    if i < 0 || i >= nodes.len() || !inside(t, n, nodes[i]) {
        (st, Ok(values))
    } else {
        match vexing_argument(t, st, nodes[i]) {
            (st, Err(e)) => (st, Err(e)),
            (st, Ok(v)) => {
                vexing_arguments(t, st, n, nodes, i + 1, values.push(v))
            },
        }
    }
}

/// The object and the name of the method that a call of the form `object.method(..)` has.
pub open spec fn method_of(t: TreeView, n: usize) -> Option<(usize, Seq<char>)> {
    let callee = bare_callee(t, part(t, n, Field::Function));
    if kind_at(t, callee) == Kind::FieldExpression && kind_at(t, part(t, callee, Field::Member))
    == Kind::FieldIdentifier && inside(t, n, part(t, callee, Field::Argument)) {
        Some(
            (
                part(t, callee, Field::Argument),
                text_at(t, part(t, callee, Field::Member)),
            ),
        )
    } else {
        None
    }
}

/// The class of the object that `n` is or points at, where it is known. A call of a method whose
/// result is its receiver is the receiver.
pub open spec fn receiver_class(t: TreeView, st: State, n: usize) -> Option<Seq<char>>
decreases rest(t, n),
{
    let k = kind_at(t, n);
    if k == Kind::Identifier {
        if st.objects.types.contains_key(text_at(t, n)) {
            Some(st.objects.types[text_at(t, n)])
        } else {
            None
        }
    } else if k == Kind::This {
        match st.objects.class {
            Some(c) => if c.1 {
                Some(c.0)
            } else {
                None
            },
            None => None,
        }
    } else if k == Kind::ParenthesizedExpression {
        receiver_class(t, st, paren_inner(t, n))
    } else if k == Kind::PointerExpression {
        receiver_class(t, st, part(t, n, Field::Argument))
    } else if k == Kind::CallExpression {
        match method_of(t, n) {
            Some(m) => match receiver_class(t, st, m.0) {
                Some(class) => if returns_receiver(st, class, m.1) {
                    Some(class)
                } else {
                    None
                },
                None => None,
            },
            None => None,
        }
    } else {
        None
    }
}

/// Whether the result of the method `name` of a `class` is its receiver.
pub open spec fn returns_receiver(st: State, class: Seq<char>, name: Seq<char>) -> bool {
    match method_class(st.env.tables.classes, class, name) {
        Some(c) => class_at(st.env.tables.classes, c) matches Some(info)
        && info.returns_self.contains(name),
        None => false,
    }
}

/// Whether the object that `n` is has to be computed by a call.
pub open spec fn through_call(t: TreeView, n: usize) -> bool
decreases rest(t, n),
{
    let k = kind_at(t, n);
    if k == Kind::CallExpression {
        true
    } else if k == Kind::ParenthesizedExpression {
        through_call(t, paren_inner(t, n))
    } else if k == Kind::PointerExpression {
        through_call(t, part(t, n, Field::Argument))
    } else {
        false
    }
}

/// The place of the object that `n` is or points at.
pub open spec fn object_place(t: TreeView, st: State, n: usize) -> (State, PathView)
decreases rest(t, n),
{
    let k = kind_at(t, n);
    if k == Kind::This {
        (st, PathView::of(VariableRef::Param(0)))
    } else if k == Kind::ParenthesizedExpression {
        object_place(t, st, paren_inner(t, n))
    } else if k == Kind::PointerExpression {
        object_place(t, st, part(t, n, Field::Argument))
    } else if k == Kind::CallExpression {
        match method_of(t, n) {
            Some(m) => object_place(t, st, m.0),
            None => named(st, text_at(t, n)),
        }
    } else {
        named(st, text_at(t, n))
    }
}

/// The object, its class and the name of the method that a call calls, where they are known.
pub open spec fn method_at(t: TreeView, st: State, n: usize) -> Option<
(usize, Seq<char>, Seq<char>),
> {
    match method_of(t, n) {
        Some(m) => match receiver_class(t, st, m.0) {
            Some(class) => if method_class(st.env.tables.classes, class, m.1) is Some {
                Some((m.0, class, m.1))
            } else {
                None
            },
            None => None,
        },
        None => None,
    }
}

/// What a condition is in its statement: the expression itself, without a clause around it.
pub open spec fn condition(t: TreeView, n: usize) -> usize {
    let c = part(t, n, Field::Condition);
    match field_child(t, c, Field::Value) {
        Some(v) => v,
        None => c,
    }
}

/// The value of an expression, and the statements that compute it.
#[verifier::opaque]
pub open spec fn expr(t: TreeView, st: State, n: usize) -> Outcome<ExpView>
decreases rest(t, n), 50nat, 0int,
{
    let k = kind_at(t, n);
    if k == Kind::Identifier || k == Kind::QualifiedIdentifier {
        identifier(t, st, n)
    } else if k == Kind::This && st.objects.class is Some {
        (st, Ok(ExpView::Variable(VariableRef::Param(0))))
    } else if k == Kind::DeleteExpression {
        delete(t, st, n)
    } else if constant_kind(k) {
        (st, Ok(ExpView::Str(text_at(t, n))))
    } else if k == Kind::CommaExpression {
        match expr(t, st, part(t, n, Field::Left)) {
            (st, Err(e)) => (st, Err(e)),
            (st, Ok(_)) => {
                expr(t, st, part(t, n, Field::Right))
            },
        }
    } else if k == Kind::PointerDeclarator || k == Kind::FunctionDeclarator || k
    == Kind::ArrayDeclarator {
        nested_declarator(t, st, n)
    } else if k == Kind::UnaryExpression {
        expr(t, st, part(t, n, Field::Argument))
    } else if k == Kind::CastExpression {
        expr(t, st, part(t, n, Field::Value))
    } else if k == Kind::ParenthesizedExpression || k == Kind::ParenthesizedDeclarator {
        expr(t, st, paren_inner(t, n))
    } else if k == Kind::BinaryExpression {
        binary(t, st, n)
    } else if k == Kind::UpdateExpression {
        update(t, st, n)
    } else if k == Kind::FieldExpression || k == Kind::SubscriptExpression {
        match location(t, st, n) {
            (st, Err(e)) => (st, Err(e)),
            (st, Ok(p)) => {
                let v = read(st, p);
                (v.0, Ok(v.1))
            },
        }
    } else if k == Kind::AssignmentExpression {
        assignment(
            t,
            st,
            n,
            part(t, n, Field::Left),
            part(t, n, Field::Right),
            field_child(t, n, Field::Operator),
        )
    } else if k == Kind::PointerExpression {
        pointer(t, st, n)
    } else if k == Kind::CallExpression {
        call(t, st, n)
    } else if k == Kind::CompoundLiteralExpression {
        compound_literal(t, st, n)
    } else if k == Kind::CompoundStatement {
        block_value(t, st, n)
    } else if k == Kind::ConditionalExpression {
        conditional(t, st, n)
    } else if k == Kind::GenericExpression {
        generic(t, st, n)
    } else if k == Kind::GnuAsmExpression {
        assembly(t, st, n)
    } else {
        unsupported(t, st, n)
    }
}

/// The values of the expressions from number `i` on, after those in `values`.
#[verifier::opaque]
pub open spec fn exprs(
    t: TreeView,
    st: State,
    n: usize,
    nodes: Seq<usize>,
    i: int,
    values: Seq<ExpView>,
) -> Outcome<Seq<ExpView>>
decreases rest(t, n), 5nat, nodes.len() - i,
{
    if i < 0 || i >= nodes.len() || !inside(t, n, nodes[i]) {
        (st, Ok(values))
    } else {
        match expr(t, st, nodes[i]) {
            (st, Err(e)) => (st, Err(e)),
            (st, Ok(v)) => {
                exprs(t, st, n, nodes, i + 1, values.push(v))
            },
        }
    }
}

/// A declarator without an initializer: the name in it is declared, and its value is read.
#[verifier::opaque]
pub open spec fn nested_declarator(t: TreeView, st: State, n: usize) -> Outcome<ExpView>
decreases rest(t, n), 40nat, 0int,
{
    match field_child(t, n, Field::Declarator) {
        Some(c) => if kind_at(t, c) == Kind::Identifier {
            let p = named(declare(st, text_at(t, c), VarKind::Local), text_at(t, c));
            let v = read(p.0, p.1);
            (v.0, Ok(v.1))
        } else {
            expr(t, st, c)
        },
        None => {
            match report(
                st,
                Attribution::FrontendGap,
                "Surprised, Pointer Declarators dont always have a declarators"@,
            ) {
                (st, Err(e)) => (st, Err(e)),
                (st, Ok(_)) => {
                    opaque_value(st)
                },
            }
        },
    }
}

/// A binary operator.
#[verifier::opaque]
pub open spec fn binary(t: TreeView, st: State, n: usize) -> Outcome<ExpView>
decreases rest(t, n), 40nat, 0int,
{
    if rest(t, n) == 0 {
        no_such_node(st)
    } else {
        match expr(t, st, part(t, n, Field::Left)) {
            (st, Err(e)) => (st, Err(e)),
            (st, Ok(l)) => {
                match expr(t, st, part(t, n, Field::Right)) {
                    (st, Err(e)) => (st, Err(e)),
                    (st, Ok(r)) => {
                        let v = combined(st, kind_at(t, part(t, n, Field::Operator)), l, r);
                        (v.0, Ok(v.1))
                    },
                }
            },
        }
    }
}

/// An increment or a decrement.
#[verifier::opaque]
pub open spec fn update(t: TreeView, st: State, n: usize) -> Outcome<ExpView>
decreases rest(t, n), 40nat, 0int,
{
    if rest(t, n) == 0 {
        no_such_node(st)
    } else {
        match location(t, st, part(t, n, Field::Argument)) {
            (st, Err(e)) => (st, Err(e)),
            (st, Ok(p)) => {
                let v = incremented(st, p);
                (v.0, Ok(v.1))
            },
        }
    }
}

/// An assignment of the expression `value` to the place `target`, both inside `n`. An operator
/// other than `=` makes the old value an operand too. The value is that of the variable assigned
/// to, where it is one.
#[verifier::opaque]
pub open spec fn assignment(
    t: TreeView,
    st: State,
    n: usize,
    target: usize,
    value: usize,
    op: Option<usize>,
) -> Outcome<ExpView>
decreases rest(t, n), 40nat, 0int,
{
    if !inside(t, n, target) || !inside(t, n, value) {
        no_such_node(st)
    } else {
        let plain = op is None || kind_at(t, op->0) == Kind::Assign;
        match location(t, st, target) {
            (st, Err(e)) => (st, Err(e)),
            (st, Ok(p)) => {
                match expr(t, st, value) {
                    (st, Err(e)) => (st, Err(e)),
                    (st, Ok(v)) => {
                        let old = read(st, p);
                        let st = if plain {
                            assign(st, p, v, None)
                        } else {
                            assign(old.0, p, v, Some(old.1))
                        };
                        let st = alias_after(t, st, target, value, plain, p, v);
                        (
                            st,
                            Ok(
                                if p.fields.len() == 0 {
                                    ExpView::Variable(p.base)
                                } else {
                                    v
                                },
                            ),
                        )
                    },
                }
            },
        }
    }
}

/// A dereference, or an address. The address of an element can be formed; any other operand is
/// passed through.
#[verifier::opaque]
pub open spec fn pointer(t: TreeView, st: State, n: usize) -> Outcome<ExpView>
decreases rest(t, n), 40nat, 0int,
{
    if rest(t, n) == 0 {
        no_such_node(st)
    } else {
        let arg = part(t, n, Field::Argument);
        match if has_operator(t, n, "*"@) {
            (st, Ok(None))
        } else {
            address_of(t, st, arg)
        } {
            (st, Err(e)) => (st, Err(e)),
            (st, Ok(a)) => {
                match a {
                    Some(a) => (st, Ok(ExpView::address(a))),
                    None => {
                        match expr(t, st, arg) {
                            (st, Err(e)) => (st, Err(e)),
                            (st, Ok(v)) => {
                                let r = dereferenced(t, st, n, v);
                                (r.0, Ok(r.1))
                            },
                        }
                    },
                }
            },
        }
    }
}

/// The address of the place that `n` names, where it is the address of an element.
#[verifier::opaque]
pub open spec fn address_of(t: TreeView, st: State, n: usize) -> Outcome<Option<AddressView>>
decreases rest(t, n), 30nat, 0int,
{
    if kind_at(t, n) == Kind::ParenthesizedExpression {
        address_of(t, st, paren_inner(t, n))
    } else if kind_at(t, n) == Kind::SubscriptExpression && subscript_index(t, n) is Some {
        match location(t, st, n) {
            (st, Err(e)) => (st, Err(e)),
            (st, Ok(p)) => {
                if p.fields.len() > 0 && p.fields.last() == deref_segment() {
                    let a = loads(st, PathView { base: p.base, fields: p.fields.drop_last() });
                    (a.0, Ok(Some(a.1)))
                } else {
                    (st, Ok(None))
                }
            },
        }
    } else {
        (st, Ok(None))
    }
}

/// A call, or a cast that looks like one.
#[verifier::opaque]
pub open spec fn call(t: TreeView, st: State, n: usize) -> Outcome<ExpView>
decreases rest(t, n), 45nat, 0int,
{
    match method_at(t, st, n) {
        Some(m) => method_call(t, st, n, m.0, m.1, m.2),
        None => {
            match cast_shaped(t, st, n) {
                (st, Err(e)) => (st, Err(e)),
                (st, Ok(cast)) => {
                    match cast {
                        Some(list) => cast_operands(
                            t,
                            st,
                            n,
                            plain_children(t, list),
                            0,
                            ExpView::Str(""@),
                        ),
                        None => plain_call(t, st, n),
                    }
                },
            }
        },
    }
}

/// A call of a method whose receiver is an object of a known class: the receiver is the first
/// argument.
#[verifier::opaque]
pub open spec fn method_call(
    t: TreeView,
    st: State,
    n: usize,
    object: usize,
    class: Seq<char>,
    name: Seq<char>,
) -> Outcome<ExpView>
decreases rest(t, n), 40nat, 0int,
{
    if !inside(t, n, object) {
        no_such_node(st)
    } else {
        let temp = temp_name(st.temps);
        match receiver(t, temp_named(st), object) {
            (st, Err(e)) => (st, Err(e)),
            (st, Ok(r)) => {
                match exprs(
                    t,
                    st,
                    n,
                    named_children(t, part(t, n, Field::Arguments)),
                    0,
                    Seq::empty(),
                ) {
                    (st, Err(e)) => (st, Err(e)),
                    (st, Ok(args)) => {
                        let targets = match dispatched(
                            st.env.tables.classes,
                            st.env.tables.subclasses,
                            st.env.tables.overloads,
                            class,
                            name,
                            args.len() as usize,
                        ) {
                            Some(targets) => targets,
                            None => Seq::empty(),
                        };
                        let v = called(st, CallStyleView::DirectCall(targets), seq![r] + args, temp);
                        (v.0, Ok(v.1))
                    },
                }
            },
        }
    }
}

/// The object that `n` is or points at, as an operand; the call that yields it is made.
#[verifier::opaque]
pub open spec fn receiver(t: TreeView, st: State, n: usize) -> Outcome<ExpView>
decreases rest(t, n), 60nat, 0int,
{
    match if through_call(t, n) {
        match expr(t, st, n) {
            (st, Ok(_)) => (st, Ok(())),
            (st, Err(e)) => (st, Err(e)),
        }
    } else {
        (st, Ok(()))
    } {
        (st, Err(e)) => (st, Err(e)),
        (st, Ok(_)) => {
            let p = object_place(t, st, n);
            let v = read(p.0, p.1);
            (v.0, Ok(v.1))
        },
    }
}

/// A `delete`: the destructors that it may run are called on the object. Nothing is done for an
/// object whose class is not known or has no destructor.
#[verifier::opaque]
pub open spec fn delete(t: TreeView, st: State, n: usize) -> Outcome<ExpView>
decreases rest(t, n), 40nat, 0int,
{
    match named_child(t, n, 0) {
        None => opaque_value(st),
        Some(c) => match receiver_class(t, st, c) {
            None => opaque_value(st),
            Some(class) => {
                match receiver(t, st, c) {
                    (st, Err(e)) => (st, Err(e)),
                    (st, Ok(r)) => {
                        match deleted(st.env.tables.classes, st.env.tables.subclasses, class) {
                            Some(targets) => opaque_value(run(st, targets, seq![r])),
                            None => opaque_value(st),
                        }
                    },
                }
            },
        },
    }
}

/// The value of the last of the operands from number `i` on, all of which are evaluated; `value`
/// if there is none.
#[verifier::opaque]
pub open spec fn cast_operands(
    t: TreeView,
    st: State,
    n: usize,
    nodes: Seq<usize>,
    i: int,
    value: ExpView,
) -> Outcome<ExpView>
decreases rest(t, n), 5nat, nodes.len() - i,
{
    if i < 0 || i >= nodes.len() || !inside(t, n, nodes[i]) {
        (st, Ok(value))
    } else {
        match expr(t, st, nodes[i]) {
            (st, Err(e)) => (st, Err(e)),
            (st, Ok(v)) => {
                cast_operands(t, st, n, nodes, i + 1, v)
            },
        }
    }
}

/// A call: its arguments are evaluated, then its callee is resolved. A callee that is no place is
/// taken by its source text.
#[verifier::opaque]
pub open spec fn plain_call(t: TreeView, st: State, n: usize) -> Outcome<ExpView>
decreases rest(t, n), 40nat, 0int,
{
    let temp = temp_name(st.temps);
    let callee = bare_callee(t, part(t, n, Field::Function));
    let name = text_at(t, callee);
    match exprs(
        t,
        temp_named(st),
        n,
        named_children(t, part(t, n, Field::Arguments)),
        0,
        Seq::empty(),
    ) {
        (st, Err(e)) => (st, Err(e)),
        (st, Ok(args)) => {
            let p = if kind_at(t, callee) == Kind::Identifier || kind_at(t, callee)
            == Kind::QualifiedIdentifier || !inside(t, n, callee) {
                named(st, name)
            } else {
                match location(t, st, callee) {
                    (st, Ok(p)) => (st, p),
                    (st, Err(_)) => named(st, name),
                }
            };
            let target = mangled(st.env.tables.overloads, name, args.len() as usize);
            let style = call_style(p.0, p.1, target, statement_expression(t, callee));
            let v = called(style.0, style.1, args, temp);
            (v.0, Ok(v.1))
        },
    }
}

/// A compound literal: a temporary that its braces initialize.
#[verifier::opaque]
pub open spec fn compound_literal(t: TreeView, st: State, n: usize) -> Outcome<ExpView>
decreases rest(t, n), 40nat, 0int,
{
    let ty = part(t, n, Field::Type);
    let temp = temp_name(st.temps);
    let dims = match field_child(t, ty, Field::Declarator) {
        Some(d) => array_rank(t, d),
        None => 0,
    };
    let own = layout_of(st, type_tag(t, ty));
    let p = named(temp_named(st), temp);
    match braced(t, p.0, part(t, n, Field::Value), p.1, own, dims) {
        (st, Err(e)) => (st, Err(e)),
        (st, Ok(_)) => {
            let v = intern(st, temp);
            (v.0, Ok(ExpView::Variable(v.1)))
        },
    }
}

/// The initializer `list` of the variable that `ident` declares, with the type of declaration `n`.
#[verifier::opaque]
pub open spec fn initializer(
    t: TreeView,
    st: State,
    n: usize,
    ident: usize,
    list: usize,
) -> Outcome<()>
decreases rest(t, n), 40nat, 0int,
{
    if !inside(t, n, ident) || !inside(t, n, list) {
        no_such_node(st)
    } else {
        let own = layout_of(st, type_tag(t, n));
        match location(t, st, ident) {
            (st, Err(e)) => (st, Err(e)),
            (st, Ok(p)) => {
                braced(t, st, list, p, own, array_rank(t, ident))
            },
        }
    }
}

/// Stores the values in the braces `n` to `base`, whose type has the layout `own` and `dims`
/// dimensions. Braces around the value of a scalar mean nothing.
#[verifier::opaque]
pub open spec fn braced(
    t: TreeView,
    st: State,
    n: usize,
    base: PathView,
    own: Option<Seq<SlotView>>,
    dims: nat,
) -> Outcome<()>
decreases rest(t, n), 30nat, 0int,
{
    let elems = named_children(t, n);
    if dims == 0 && own is None && elems.len() == 1 && inside(t, n, elems[0]) && kind_at(
        t,
        elems[0],
    ) != Kind::InitializerList && kind_at(t, elems[0]) != Kind::InitializerPair {
        match expr(t, st, elems[0]) {
            (st, Err(e)) => (st, Err(e)),
            (st, Ok(v)) => {
                (assign(st, base, v, None), Ok(()))
            },
        }
    } else if dims == 0 {
        elements(t, st, n, base, own, None, 0, 0, 0)
    } else {
        elements(t, st, n, base, None, own, dims, 0, 0)
    }
}

/// Stores the elements in the braces `n`, from number `i` on, each to its place in `base`. `idx` is
/// the position of the next element without a designator.
#[verifier::opaque]
pub open spec fn elements(
    t: TreeView,
    st: State,
    n: usize,
    base: PathView,
    members: Option<Seq<SlotView>>,
    elem: Option<Seq<SlotView>>,
    depth: nat,
    i: int,
    idx: usize,
) -> Outcome<()>
decreases rest(t, n), 20nat, named_children(t, n).len() - i,
{
    let elems = named_children(t, n);
    if i < 0 || i >= elems.len() || !inside(t, n, elems[i]) {
        (st, Ok(()))
    } else {
        let e = elems[i];
        let place = placed(t, st, e, members, elem, depth, idx);
        let p = PathView { base: base.base, fields: base.fields + place.0 };
        let value = value_of(t, e);
        let next = if kind_at(t, e) == Kind::InitializerPair {
            idx
        } else {
            (idx + 1) as usize
        };
        if kind_at(t, value) == Kind::InitializerList {
            let inner = if depth > 0 {
                (depth - 1) as nat
            } else {
                0
            };
            match elements(t, st, value, p, place.1, elem, inner, 0, 0) {
                (st, Err(e)) => (st, Err(e)),
                (st, Ok(_)) => {
                    elements(t, st, n, base, members, elem, depth, i + 1, next)
                },
            }
        } else {
            match expr(t, st, value) {
                (st, Err(e)) => (st, Err(e)),
                (st, Ok(v)) => {
                    elements(t, assign(st, p, v, None), n, base, members, elem, depth, i + 1, next)
                },
            }
        }
    }
}

/// The value of a statement expression: its statements are run in a scope of their own.
#[verifier::opaque]
pub open spec fn block_value(t: TreeView, st: State, n: usize) -> Outcome<ExpView>
decreases rest(t, n), 40nat, 0int,
{
    let sidx = st.at.sidx;
    let span = st.span;
    match block_effects(t, st, n) {
        (st, Err(e)) => (st, Err(e)),
        (st, Ok(_)) => {
            match match yielded(t, n) {
                Some(c) => if inside(t, n, c) {
                    expr(t, st, c)
                } else {
                    opaque_value(st)
                },
                None => opaque_value(st),
            } {
                (st, Err(e)) => (st, Err(e)),
                (st, Ok(v)) => {
                    (State { at: ScopeView { sidx, ..st.at }, span, ..st }, Ok(v))
                },
            }
        },
    }
}

/// The place that a statement expression names.
#[verifier::opaque]
pub open spec fn block_place(t: TreeView, st: State, n: usize) -> Outcome<PathView>
decreases rest(t, n), 9nat, 0int,
{
    let sidx = st.at.sidx;
    let span = st.span;
    match block_effects(t, st, n) {
        (st, Err(e)) => (st, Err(e)),
        (st, Ok(_)) => {
            match match yielded(t, n) {
                Some(c) => if inside(t, n, c) {
                    location(t, st, c)
                } else {
                    dead_place(st)
                },
                None => dead_place(st),
            } {
                (st, Err(e)) => (st, Err(e)),
                (st, Ok(p)) => {
                    (State { at: ScopeView { sidx, ..st.at }, span, ..st }, Ok(p))
                },
            }
        },
    }
}

/// Everything in a statement expression but the expression whose value it has. Lowering is left in
/// the inner scope, or, on an error, where it was.
#[verifier::opaque]
pub open spec fn block_effects(t: TreeView, st: State, n: usize) -> Outcome<()>
decreases rest(t, n), 8nat, 0int,
{
    let r = block_walk(t, st, n);
    match r.1 {
        Ok(()) => r,
        Err(e) => (moved(r.0, st.at), Err(e)),
    }
}

/// The statements of a statement expression, but for the one whose value it has.
#[verifier::opaque]
pub open spec fn block_walk(t: TreeView, st: State, n: usize) -> Outcome<()>
decreases rest(t, n), 7nat, 0int,
{
    let nodes = plain_children(t, n);
    let diverged_text = "after_stmt_expr_diverge::"@ + line_text(t, n);
    let s = open_scope(st, inner_scope_name(st));
    if nodes.len() == 0 {
        (moved(s.0, s.1), Ok(()))
    } else {
        let last = nodes.last();
        match body(t, moved(s.0, s.1), n, nodes.drop_last(), 0, false) {
            (st, Err(e)) => (st, Err(e)),
            (st, Ok(d)) => {
                match if d {
                    after_divergence(st, diverged_text)
                } else {
                    (st, Ok(()))
                } {
                    (st, Err(e)) => (st, Err(e)),
                    (st, Ok(_)) => {
                        if !inside(t, n, last) {
                            (st, Ok(()))
                        } else if kind_at(t, last) == Kind::ExpressionStatement {
                            (at_source(st, t, last), Ok(()))
                        } else {
                            match statement(t, st, last) {
                                (st, Err(e)) => (st, Err(e)),
                                (st, Ok(d)) => {
                                    if d {
                                        after_divergence(st, diverged_text)
                                    } else {
                                        (st, Ok(()))
                                    }
                                },
                            }
                        }
                    },
                }
            },
        }
    }
}

/// A conditional expression: either arm may be the value. Where the first arm is left out, the
/// condition takes its place.
#[verifier::opaque]
pub open spec fn conditional(t: TreeView, st: State, n: usize) -> Outcome<ExpView>
decreases rest(t, n), 40nat, 0int,
{
    if rest(t, n) == 0 {
        no_such_node(st)
    } else {
        match expr(t, st, part(t, n, Field::Condition)) {
            (st, Err(e)) => (st, Err(e)),
            (st, Ok(c)) => {
                match match field_child(t, n, Field::Consequence) {
                    Some(x) => expr(t, st, x),
                    None => (st, Ok(c)),
                } {
                    (st, Err(e)) => (st, Err(e)),
                    (st, Ok(a)) => {
                        match expr(t, st, part(t, n, Field::Alternative)) {
                            (st, Err(e)) => (st, Err(e)),
                            (st, Ok(b)) => {
                                let v = blend(st, seq![a, b]);
                                (v.0, Ok(v.1))
                            },
                        }
                    },
                }
            },
        }
    }
}

/// A generic selection: any of its arms may be the value.
#[verifier::opaque]
pub open spec fn generic(t: TreeView, st: State, n: usize) -> Outcome<ExpView>
decreases rest(t, n), 40nat, 0int,
{
    let parts = generic_parts(t, n);
    match match parts.0 {
        Some(c) => expr(t, st, c),
        None => (st, Ok(ExpView::Str(""@))),
    } {
        (st, Err(e)) => (st, Err(e)),
        (st, Ok(_ignored)) => {
            match exprs(t, st, n, parts.1, 0, Seq::empty()) {
                (st, Err(e)) => (st, Err(e)),
                (st, Ok(values)) => {
                    let v = blend(st, values);
                    (v.0, Ok(v.1))
                },
            }
        },
    }
}

/// An inline assembly: its inputs, and those outputs that are also read, may reach any output.
#[verifier::opaque]
pub open spec fn assembly(t: TreeView, st: State, n: usize) -> Outcome<ExpView>
decreases rest(t, n), 40nat, 0int,
{
    match asm_inputs(
        t,
        st,
        n,
        asm_operands(t, n, Field::InputOperands),
        0,
        Seq::empty(),
    ) {
        (st, Err(e)) => (st, Err(e)),
        (st, Ok(sources)) => {
            match asm_outputs(
                t,
                st,
                n,
                asm_operands(t, n, Field::OutputOperands),
                0,
                sources,
                Seq::empty(),
            ) {
                (st, Err(e)) => (st, Err(e)),
                (st, Ok(all)) => {
                    let v = asm_transfer(st, all.0, all.1);
                    match asm_jumps(t, v.0, n) {
                        (st, Err(e)) => (st, Err(e)),
                        (st, Ok(_)) => {
                            (st, Ok(v.1))
                        },
                    }
                },
            }
        },
    }
}

/// The values of the input operands from number `i` on, after `sources`.
#[verifier::opaque]
pub open spec fn asm_inputs(
    t: TreeView,
    st: State,
    n: usize,
    nodes: Seq<usize>,
    i: int,
    sources: Seq<ExpView>,
) -> Outcome<Seq<ExpView>>
decreases rest(t, n), 5nat, nodes.len() - i,
{
    if i < 0 || i >= nodes.len() || !inside(t, n, nodes[i]) {
        (st, Ok(sources))
    } else {
        match expr(t, st, part(t, nodes[i], Field::Value)) {
            (st, Err(e)) => (st, Err(e)),
            (st, Ok(v)) => {
                asm_inputs(t, st, n, nodes, i + 1, sources.push(v))
            },
        }
    }
}

/// The places of the output operands from number `i` on, after `targets`, and the values of those
/// that are also read, after `sources`.
#[verifier::opaque]
pub open spec fn asm_outputs(
    t: TreeView,
    st: State,
    n: usize,
    nodes: Seq<usize>,
    i: int,
    sources: Seq<ExpView>,
    targets: Seq<PathView>,
) -> Outcome<(Seq<ExpView>, Seq<PathView>)>
decreases rest(t, n), 5nat, nodes.len() - i,
{
    if i < 0 || i >= nodes.len() || !inside(t, n, nodes[i]) {
        (st, Ok((sources, targets)))
    } else {
        match location(t, st, part(t, nodes[i], Field::Value)) {
            (st, Err(e)) => (st, Err(e)),
            (st, Ok(p)) => {
                if asm_readwrite(t, nodes[i]) {
                    let v = read(st, p);
                    asm_outputs(t, v.0, n, nodes, i + 1, sources.push(v.1), targets.push(p))
                } else {
                    asm_outputs(t, st, n, nodes, i + 1, sources, targets.push(p))
                }
            },
        }
    }
}

// Places

/// The place that an expression names. A field of any place is a place; so is an element, where there
/// is an index; a cast of a constant names the object at that address; any other expression names
/// the variable that its value is, if it is one.
#[verifier::opaque]
pub open spec fn location(t: TreeView, st: State, n: usize) -> Outcome<PathView>
decreases rest(t, n), place_rank(kind_at(t, n)), 0int,
{
    let k = kind_at(t, n);
    if k == Kind::Identifier || k == Kind::QualifiedIdentifier {
        if text_at(t, n).len() == 0 {
            match missing_name(t, st, n) {
                (st, Err(e)) => (st, Err(e)),
                (st, Ok(_)) => {
                    dead_place(st)
                },
            }
        } else {
            let p = named(st, text_at(t, n));
            (p.0, Ok(p.1))
        }
    } else if k == Kind::FieldExpression {
        let field = part(t, n, Field::Member);
        match location(t, st, part(t, n, Field::Argument)) {
            (st, Err(e)) => (st, Err(e)),
            (st, Ok(base)) => {
                if text_at(t, field).len() == 0 {
                    match missing_name(t, st, field) {
                        (st, Err(e)) => (st, Err(e)),
                        (st, Ok(_)) => {
                            dead_place(st)
                        },
                    }
                } else if base.fields.len() == 0 && st.unions.contains(base.base) {
                    (st, Ok(base.step(union_segment())))
                } else {
                    (st, Ok(base.step(SegmentView::Symbol(text_at(t, field)))))
                }
            },
        }
    } else if k == Kind::SubscriptExpression {
        match subscript_index(t, n) {
            Some(index) => {
                match location(t, st, part(t, n, Field::Argument)) {
                    (st, Err(e)) => (st, Err(e)),
                    (st, Ok(base)) => {
                        match expr(t, st, index) {
                            (st, Err(e)) => (st, Err(e)),
                            (st, Ok(i)) => {
                                (st, Ok(PathView { base: base.base, fields: base.fields + element(index_value(i)) }))
                            },
                        }
                    },
                }
            },
            None => {
                match blame(t, st, n, "ERR 78: Unsupported expression type: "@ + t[n as int].kind_name) {
                    (st, Err(e)) => (st, Err(e)),
                    (st, Ok(_)) => {
                        dead_place(st)
                    },
                }
            },
        }
    } else if k == Kind::CompoundStatement {
        block_place(t, st, n)
    } else if k == Kind::StringLiteral || k == Kind::ConcatenatedString {
        dead_place(st)
    } else if k == Kind::ParenthesizedExpression || k == Kind::ParenthesizedDeclarator {
        location(t, st, paren_inner(t, n))
    } else if k == Kind::PointerExpression {
        match location(t, st, part(t, n, Field::Argument)) {
            (st, Err(e)) => (st, Err(e)),
            (st, Ok(p)) => {
                (st, Ok(pointed_place(t, st, n, p)))
            },
        }
    } else {
        match expr(t, st, n) {
            (st, Err(e)) => (st, Err(e)),
            (st, Ok(v)) => {
                match v {
                    ExpView::Variable(v) => (st, Ok(PathView::of(v))),
                    ExpView::Str(c) => if k == Kind::CastExpression && c.len() > 0 {
                        (st, Ok(literal_address(c)))
                    } else {
                        not_a_place(t, st, n)
                    },
                    _ => not_a_place(t, st, n),
                }
            },
        }
    }
}

// Statements

/// A statement; the answer is whether control does not get past it.
#[verifier::opaque]
pub open spec fn statement(t: TreeView, st: State, n: usize) -> Outcome<bool>
decreases rest(t, n), 90nat, 0int,
{
    let k = kind_at(t, n);
    let st = at_source(st, t, n);
    if k == Kind::Comment {
        (st, Ok(false))
    } else if k == Kind::CompoundStatement {
        let sidx = st.at.sidx;
        let s = open_scope(st, inner_scope_name(st));
        match framed_body(t, moved(s.0, s.1), n, kids(t, n)) {
            (st, Err(e)) => (st, Err(e)),
            (st, Ok(d)) => {
                (moved(st, ScopeView { sidx, ..st.at }), Ok(d))
            },
        }
    } else if k == Kind::Declaration {
        match match class_named(t, st, n) {
            Some(class) => construction(t, st, n, class),
            None => (st, Ok(false)),
        } {
            (st, Err(e)) => (st, Err(e)),
            (st, Ok(made)) => {
                match if made {
                    (st, Ok(()))
                } else {
                    declaration(t, st, n, field_children(t, n, Field::Declarator), 0)
                } {
                    (st, Err(e)) => (st, Err(e)),
                    (st, Ok(_)) => {
                        (st, Ok(false))
                    },
                }
            },
        }
    } else if k == Kind::ExpressionStatement {
        match child_at(t, n, 0) {
            Some(c) => if empty_kind(kind_at(t, c)) {
                (st, Ok(false))
            } else {
                match expr(t, st, c) {
                    (st, Err(e)) => (st, Err(e)),
                    (st, Ok(_)) => {
                        (st, Ok(false))
                    },
                }
            },
            None => (st, Ok(false)),
        }
    } else if k == Kind::ParenthesizedExpression {
        match expr(t, st, paren_inner(t, n)) {
            (st, Err(e)) => (st, Err(e)),
            (st, Ok(_)) => {
                (st, Ok(false))
            },
        }
    } else if k == Kind::IfStatement {
        match if_else(t, st, n) {
            (st, Err(e)) => (st, Err(e)),
            (st, Ok(_)) => {
                (st, Ok(false))
            },
        }
    } else if k == Kind::WhileStatement {
        match while_loop(t, st, n) {
            (st, Err(e)) => (st, Err(e)),
            (st, Ok(_)) => {
                (st, Ok(false))
            },
        }
    } else if k == Kind::DoStatement {
        match do_loop(t, st, n) {
            (st, Err(e)) => (st, Err(e)),
            (st, Ok(_)) => {
                (st, Ok(false))
            },
        }
    } else if k == Kind::ForStatement {
        match for_loop(t, st, n) {
            (st, Err(e)) => (st, Err(e)),
            (st, Ok(_)) => {
                (st, Ok(false))
            },
        }
    } else if k == Kind::SwitchStatement {
        match switch(t, st, n) {
            (st, Err(e)) => (st, Err(e)),
            (st, Ok(_)) => {
                (st, Ok(false))
            },
        }
    } else if k == Kind::ReturnStatement {
        match return_from(t, st, n) {
            (st, Err(e)) => (st, Err(e)),
            (st, Ok(_)) => {
                (st, Ok(true))
            },
        }
    } else if k == Kind::BreakStatement {
        jump(st, st.at.break_target, "`break` outside of a switch or loop"@)
    } else if k == Kind::ContinueStatement {
        jump(st, st.at.continue_target, "`continue` outside of a loop"@)
    } else if k == Kind::GotoStatement {
        match goto(t, st, n) {
            (st, Err(e)) => (st, Err(e)),
            (st, Ok(_)) => {
                (st, Ok(false))
            },
        }
    } else if k == Kind::LabeledStatement {
        labeled(t, st, n)
    } else if k == Kind::Error {
        match unparsable(t, st, n) {
            (st, Err(e)) => (st, Err(e)),
            (st, Ok(_)) => {
                (st, Ok(false))
            },
        }
    } else {
        match expr(t, st, n) {
            (st, Err(e)) => (st, Err(e)),
            (st, Ok(_)) => {
                (st, Ok(false))
            },
        }
    }
}

/// The statements of a body from number `i` on; the answer is whether control does not get past the
/// last. What follows a statement that control does not get past is lowered to a block of its
/// own, because a label in it can still be reached.
#[verifier::opaque]
pub open spec fn body(
    t: TreeView,
    st: State,
    n: usize,
    nodes: Seq<usize>,
    i: int,
    diverged: bool,
) -> Outcome<bool>
decreases rest(t, n), 5nat, nodes.len() - i,
{
    if i < 0 || i >= nodes.len() || !inside(t, n, nodes[i]) {
        (st, Ok(diverged))
    } else if !t[nodes[i] as int].named || kind_at(t, nodes[i]) == Kind::Comment {
        body(t, st, n, nodes, i + 1, diverged)
    } else {
        match if diverged {
            after_divergence(st, "after_diverge::"@ + line_text(t, nodes[i]))
        } else {
            (st, Ok(()))
        } {
            (st, Err(e)) => (st, Err(e)),
            (st, Ok(_)) => {
                match statement(t, st, nodes[i]) {
                    (st, Err(e)) => (st, Err(e)),
                    (st, Ok(d)) => {
                        body(t, st, n, nodes, i + 1, d)
                    },
                }
            },
        }
    }
}

/// The statements of a scope. Where control gets past the last, the objects made in the scope are
/// destroyed.
#[verifier::opaque]
pub open spec fn framed_body(
    t: TreeView,
    st: State,
    n: usize,
    nodes: Seq<usize>,
) -> Outcome<bool>
decreases rest(t, n), 6nat, 0int,
{
    match body(t, State { objects: st.objects.framed(), ..st }, n, nodes, 0, false) {
        (st, Err(e)) => (st, Err(e)),
        (st, Ok(d)) => {
            let st = if d {
                st
            } else {
                scope_exit(st)
            };
            (State { objects: st.objects.unframed(), ..st }, Ok(d))
        },
    }
}

/// A body that begins at `sv`, from which control goes on to where `sv` continues.
#[verifier::opaque]
pub open spec fn compound(
    t: TreeView,
    st: State,
    n: usize,
    sv: ScopeView,
    nodes: Seq<usize>,
) -> Outcome<()>
decreases rest(t, n), 7nat, 0int,
{
    match framed_body(t, moved(st, sv), n, nodes) {
        (st, Err(e)) => (st, Err(e)),
        (st, Ok(d)) => {
            if d {
                (st, Ok(()))
            } else {
                link_end(st, st.at.blidx, sv.continuation_blidx)
            }
        },
    }
}

/// Jumps to `target`, if there is one.
#[verifier::opaque]
pub open spec fn jump(st: State, target: Option<usize>, stray: Seq<char>) -> Outcome<bool> {
    match target {
        Some(b) => {
            match link(st, st.at.blidx, b) {
                (st, Err(e)) => (st, Err(e)),
                (st, Ok(_)) => {
                    (st, Ok(true))
                },
            }
        },
        None => {
            match report(st, Attribution::SourceProblem, stray) {
                (st, Err(e)) => (st, Err(e)),
                (st, Ok(_)) => {
                    (st, Ok(false))
                },
            }
        },
    }
}

/// A declaration: its declarators from number `i` on.
#[verifier::opaque]
pub open spec fn declaration(
    t: TreeView,
    st: State,
    n: usize,
    nodes: Seq<usize>,
    i: int,
) -> Outcome<()>
decreases rest(t, n), 80nat, nodes.len() - i,
{
    if i < 0 || i >= nodes.len() || !inside(t, n, nodes[i]) {
        (st, Ok(()))
    } else {
        let d = nodes[i];
        let k = kind_at(t, d);
        let st = object_declared(t, st, n, d);
        if k == Kind::InitDeclarator && kind_at(t, part(t, d, Field::Declarator))
        == Kind::ReferenceDeclarator {
            match reference(t, st, n, d) {
                (st, Err(e)) => (st, Err(e)),
                (st, Ok(_)) => {
                    declaration(t, st, n, nodes, i + 1)
                },
            }
        } else if k == Kind::InitDeclarator {
            match declared(t, st, n, d, part(t, d, Field::Declarator)) {
                (st, Err(e)) => (st, Err(e)),
                (st, Ok(_)) => {
                    declaration(t, st, n, nodes, i + 1)
                },
            }
        } else if k == Kind::Identifier {
            match declared(t, st, n, d, d) {
                (st, Err(e)) => (st, Err(e)),
                (st, Ok(_)) => {
                    declaration(t, st, n, nodes, i + 1)
                },
            }
        } else if k == Kind::FunctionDeclarator || k == Kind::PointerDeclarator || k
        == Kind::ParenthesizedDeclarator || k == Kind::ArrayDeclarator {
            match expr(t, st, d) {
                (st, Err(e)) => (st, Err(e)),
                (st, Ok(_)) => {
                    declaration(t, st, n, nodes, i + 1)
                },
            }
        } else if k == Kind::GnuAsmExpression {
            declaration(t, st, n, nodes, i + 1)
        } else {
            match report(
                st,
                Attribution::FrontendGap,
                "Declaration declarator had an unexpected kind "@ + t[d as int].kind_name,
            ) {
                (st, Err(e)) => (st, Err(e)),
                (st, Ok(_)) => {
                    declaration(t, st, n, nodes, i + 1)
                },
            }
        }
    }
}

/// A reference: its name stands for the place that its initializer names.
#[verifier::opaque]
pub open spec fn reference(t: TreeView, st: State, n: usize, d: usize) -> Outcome<()>
decreases rest(t, n), 70nat, 0int,
{
    match (leaf_name(t, d), field_child(t, d, Field::Value)) {
        (Some(leaf), Some(v)) => if inside(t, n, v) {
            match location(t, st, v) {
                (st, Err(e)) => (st, Err(e)),
                (st, Ok(p)) => {
                    (State { objects: st.objects.bound(text_at(t, leaf), p), ..st }, Ok(()))
                },
            }
        } else {
            (st, Ok(()))
        },
        _ => (st, Ok(())),
    }
}

/// The arguments of a constructor in parentheses or in braces.
pub open spec fn argument_nodes(t: TreeView, n: usize) -> Seq<usize> {
    if kind_at(t, n) == Kind::ArgumentList || kind_at(t, n) == Kind::InitializerList {
        named_children(t, n)
    } else {
        Seq::empty()
    }
}

/// A `new` of a single object: the object is a new variable, which is constructed if its class has a
/// constructor. The answer is the place of the object; `None` for an array, or a place that is
/// given.
#[verifier::opaque]
pub open spec fn allocated(t: TreeView, st: State, n: usize) -> Outcome<Option<PathView>>
decreases rest(t, n), 30nat, 0int,
{
    match field_child(t, n, Field::Type) {
        None => (st, Ok(None)),
        Some(ty) => if field_child(t, n, Field::Declarator) is Some || field_child(
            t,
            n,
            Field::Placement,
        ) is Some {
            (st, Ok(None))
        } else {
            let class = text_at(t, ty);
            let nodes = match field_child(t, n, Field::Arguments) {
                Some(list) => argument_nodes(t, list),
                None => Seq::empty(),
            };
            match exprs(t, st, n, nodes, 0, Seq::empty()) {
                (st, Err(e)) => (st, Err(e)),
                (st, Ok(args)) => {
                    let obj = temp_name(st.temps);
                    let st = declare(temp_named(st), obj, VarKind::Local);
                    let st = if class_at(st.env.tables.classes, class) is Some {
                        State { objects: st.objects.typed(obj, class), ..st }
                    } else {
                        st
                    };
                    let st = if has_ctor(st, class) {
                        ctor_call(st, class, obj, args)
                    } else {
                        st
                    };
                    let p = named(st, obj);
                    (p.0, Ok(Some(p.1)))
                },
            }
        },
    }
}

/// A declaration of a pointer to a new object: its name stands for the object. The answer is whether
/// it is one.
#[verifier::opaque]
pub open spec fn heap_object(t: TreeView, st: State, n: usize, class: Seq<char>) -> Outcome<bool>
decreases rest(t, n), 35nat, 0int,
{
    match field_child(t, n, Field::Declarator) {
        Some(d) => match (field_child(t, d, Field::Value), field_child(t, d, Field::Declarator)) {
            (Some(v), Some(inner)) => if kind_at(t, d) == Kind::InitDeclarator && kind_at(t, v)
            == Kind::NewExpression && inside(t, n, v) {
                match leaf_name(t, inner) {
                    Some(leaf) => {
                        match allocated(t, st, v) {
                            (st, Err(e)) => (st, Err(e)),
                            (st, Ok(p)) => {
                                match p {
                                    Some(p) => (
                                        State {
                                            objects: st.objects.bound(text_at(t, leaf), p).typed(
                                                text_at(t, leaf),
                                                class,
                                            ),
                                            ..st
                                        },
                                        Ok(true),
                                    ),
                                    None => (st, Ok(false)),
                                }
                            },
                        }
                    },
                    None => (st, Ok(false)),
                }
            } else {
                (st, Ok(false))
            },
            _ => (st, Ok(false)),
        },
        None => (st, Ok(false)),
    }
}

/// The arguments that the initializer `v` of an object of the class `class` gives its constructor:
/// those of a call of the class, or those in parentheses or braces. `None` for any other
/// initializer.
pub open spec fn constructor_arguments(t: TreeView, v: usize, class: Seq<char>) -> Option<Seq<usize>> {
    let k = kind_at(t, v);
    if k == Kind::CallExpression {
        let f = part(t, v, Field::Function);
        if kind_at(t, f) == Kind::Identifier && text_at(t, f) == class {
            Some(named_children(t, part(t, v, Field::Arguments)))
        } else {
            None
        }
    } else if k == Kind::InitializerList || k == Kind::ArgumentList {
        Some(named_children(t, v))
    } else {
        None
    }
}

/// A declaration of an object of the class `class` that constructs it. The answer is whether it is
/// one: `Box b(x)`, which the grammar may read as the declaration of a function, `Box b = Box(x)`,
/// `Box b{x}`, and a pointer to a new object are.
#[verifier::opaque]
pub open spec fn construction(t: TreeView, st: State, n: usize, class: Seq<char>) -> Outcome<bool>
decreases rest(t, n), 36nat, 0int,
{
    match heap_object(t, st, n, class) {
        (st, Err(e)) => (st, Err(e)),
        (st, Ok(made)) => {
            if made {
                (st, Ok(true))
            } else if !has_ctor(st, class) {
                (st, Ok(false))
            } else {
                match field_child(t, n, Field::Declarator) {
                    None => (st, Ok(false)),
                    Some(d) => match field_child(t, d, Field::Declarator) {
                        None => (st, Ok(false)),
                        Some(obj) => if kind_at(t, obj) != Kind::Identifier {
                            (st, Ok(false))
                        } else if kind_at(t, d) == Kind::FunctionDeclarator {
                            match field_child(t, d, Field::Parameters) {
                                None => (st, Ok(false)),
                                Some(params) => {
                                    let nodes = kids_of_kind(t, params, Kind::ParameterDeclaration);
                                    if nodes.len() == 0 {
                                        (st, Ok(false))
                                    } else {
                                        match vexing_arguments(t, st, n, nodes, 0, Seq::empty()) {
                                            (st, Err(e)) => (st, Err(e)),
                                            (st, Ok(args)) => {
                                                (constructed(st, class, text_at(t, obj), args), Ok(true))
                                            },
                                        }
                                    }
                                },
                            }
                        } else if kind_at(t, d) == Kind::InitDeclarator {
                            match field_child(t, d, Field::Value) {
                                None => (st, Ok(false)),
                                Some(v) => match constructor_arguments(t, v, class) {
                                    None => (st, Ok(false)),
                                    Some(nodes) => {
                                        match exprs(t, st, n, nodes, 0, Seq::empty()) {
                                            (st, Err(e)) => (st, Err(e)),
                                            (st, Ok(args)) => {
                                                (constructed(st, class, text_at(t, obj), args), Ok(true))
                                            },
                                        }
                                    },
                                },
                            }
                        } else {
                            (st, Ok(false))
                        },
                    },
                }
            }
        },
    }
}

/// Whether the type of a declaration is a union.
pub open spec fn declares_union(t: TreeView, n: usize) -> bool {
    field_child(t, n, Field::Type) matches Some(ty) && kind_at(t, ty) == Kind::UnionSpecifier
}

/// The variable that `ident` names, declared by the declarator `d` of declaration `n`, and its
/// initializer.
#[verifier::opaque]
pub open spec fn declared(t: TreeView, st: State, n: usize, d: usize, ident: usize) -> Outcome<()>
decreases rest(t, n), 70nat, 0int,
{
    let name = text_at(t, ident);
    let st = declare(st, name, VarKind::Local);
    let st = if declares_union(t, n) && kind_at(t, ident) == Kind::Identifier {
        let p = named(st, name);
        State { unions: p.0.unions.insert(p.1.base), ..p.0 }
    } else {
        st
    };
    match field_child(t, d, Field::Value) {
        Some(v) => if kind_at(t, v) == Kind::InitializerList {
            initializer(t, st, n, ident, v)
        } else {
            match assignment(t, st, n, ident, v, None) {
                (st, Err(e)) => (st, Err(e)),
                (st, Ok(_)) => {
                    (st, Ok(()))
                },
            }
        },
        None => (st, Ok(())),
    }
}

/// A return. Without a value, what is returned is left to the kind of function.
#[verifier::opaque]
pub open spec fn return_from(t: TreeView, st: State, n: usize) -> Outcome<()>
decreases rest(t, n), 80nat, 0int,
{
    match child_at(t, n, 1) {
        Some(c) => if kind_at(t, c) != Kind::Semicolon {
            match expr(t, st, c) {
                (st, Err(e)) => (st, Err(e)),
                (st, Ok(v)) => {
                    (ended(st, st.at.blidx, TerminatorView::Return(seq![v])), Ok(()))
                },
            }
        } else {
            (return_implicitly(st, st.at.blidx), Ok(()))
        },
        None => (return_implicitly(st, st.at.blidx), Ok(())),
    }
}

/// Whether node `n` is a block.
pub open spec fn is_block(t: TreeView, n: usize) -> bool {
    kind_at(t, n) == Kind::CompoundStatement
}

/// A `while` loop.
#[verifier::opaque]
pub open spec fn while_loop(t: TreeView, st: State, n: usize) -> Outcome<()>
decreases rest(t, n), 80nat, 0int,
{
    let cond = condition(t, n);
    let inner = part(t, n, Field::Body);
    match add_block(st, is_block(t, cond), true, "while_condition"@) {
        (st, Err(e)) => (st, Err(e)),
        (st, Ok(test)) => {
            match add_block(st, false, false, "Continuation"@) {
                (st, Err(e)) => (st, Err(e)),
                (st, Ok(after)) => {
                    let test = ScopeView { continuation_blidx: Some(after.blidx), ..test };
                    match compound(t, st, n, test, body_nodes(t, cond)) {
                        (st, Err(e)) => (st, Err(e)),
                        (st, Ok(_)) => {
                            match add_block(moved(st, test), is_block(t, inner), true, "while_body"@) {
                                (st, Err(e)) => (st, Err(e)),
                                (st, Ok(b)) => {
                                    let b = ScopeView {
                                        continuation_blidx: Some(test.blidx),
                                        break_target: Some(after.blidx),
                                        continue_target: Some(test.blidx),
                                        ..b
                                    };
                                    match compound(t, st, n, b, body_nodes(t, inner)) {
                                        (st, Err(e)) => (st, Err(e)),
                                        (st, Ok(_)) => {
                                            (moved(st, after), Ok(()))
                                        },
                                    }
                                },
                            }
                        },
                    }
                },
            }
        },
    }
}

/// A `do` loop: the test comes after the body.
#[verifier::opaque]
pub open spec fn do_loop(t: TreeView, st: State, n: usize) -> Outcome<()>
decreases rest(t, n), 80nat, 0int,
{
    let cond = part(t, n, Field::Condition);
    let inner = part(t, n, Field::Body);
    let here = st.at;
    match add_block(st, is_block(t, inner), true, "do_while_body"@) {
        (st, Err(e)) => (st, Err(e)),
        (st, Ok(b)) => {
            match add_block(moved(st, b), is_block(t, cond), false, "while_condition"@) {
                (st, Err(e)) => (st, Err(e)),
                (st, Ok(test)) => {
                    match add_block(moved(st, here), false, false, "Continuation"@) {
                        (st, Err(e)) => (st, Err(e)),
                        (st, Ok(after)) => {
                            let test = ScopeView { continuation_blidx: Some(after.blidx), ..test };
                            match compound(t, st, n, test, body_nodes(t, cond)) {
                                (st, Err(e)) => (st, Err(e)),
                                (st, Ok(_)) => {
                                    match link(st, test.blidx, b.blidx) {
                                        (st, Err(e)) => (st, Err(e)),
                                        (st, Ok(_)) => {
                                            let b = ScopeView {
                                                continuation_blidx: Some(test.blidx),
                                                break_target: Some(after.blidx),
                                                continue_target: Some(test.blidx),
                                                ..b
                                            };
                                            match compound(t, st, n, b, body_nodes(t, inner)) {
                                                (st, Err(e)) => (st, Err(e)),
                                                (st, Ok(_)) => {
                                                    (moved(st, after), Ok(()))
                                                },
                                            }
                                        },
                                    }
                                },
                            }
                        },
                    }
                },
            }
        },
    }
}

/// Whether a token can stand for a clause that a `for` loop leaves out.
pub open spec fn clause_token(k: Kind) -> bool {
    k == Kind::Semicolon || k == Kind::OpenParen
}

/// The first child of `n` from number `i` on that can stand for a clause.
pub open spec fn empty_clause(t: TreeView, n: usize, i: int) -> Option<usize>
decreases kids(t, n).len() - i,
{
    if i < 0 || i >= kids(t, n).len() {
        None
    } else {
        match child_at(t, n, i) {
            Some(c) => if clause_token(kind_at(t, c)) {
                Some(c)
            } else {
                empty_clause(t, n, i + 1)
            },
            None => empty_clause(t, n, i + 1),
        }
    }
}

/// A clause of a `for` loop.
pub open spec fn clause(t: TreeView, n: usize, f: Field) -> Option<usize> {
    match field_child(t, n, f) {
        Some(c) => Some(c),
        None => empty_clause(t, n, 0),
    }
}

/// A `for` loop.
#[verifier::opaque]
pub open spec fn for_loop(t: TreeView, st: State, n: usize) -> Outcome<()>
decreases rest(t, n), 80nat, 0int,
{
    match (clause(t, n, Field::Initializer), clause(t, n, Field::Condition), clause(t, n, Field::Update)) {
        (Some(init), Some(cond), Some(step)) => {
            let inner = part(t, n, Field::Body);
            let s = open_scope(st, "for_loop"@);
            match add_block(moved(s.0, s.1), false, true, "for_initializer_block"@) {
                (st, Err(e)) => (st, Err(e)),
                (st, Ok(first)) => {
                    match add_block(moved(st, first), false, false, "for_body"@) {
                        (st, Err(e)) => (st, Err(e)),
                        (st, Ok(b)) => {
                            match add_block(moved(st, b), false, false, "for_update"@) {
                                (st, Err(e)) => (st, Err(e)),
                                (st, Ok(next)) => {
                                    match add_block(moved(st, next), false, false, "for_condition"@) {
                                        (st, Err(e)) => (st, Err(e)),
                                        (st, Ok(test)) => {
                                            match add_block(moved(st, test), false, false, "for_Continuation"@) {
                                                (st, Err(e)) => (st, Err(e)),
                                                (st, Ok(after)) => {
                                                    let test = ScopeView { continuation_blidx: Some(b.blidx), ..test };
                                                    let first = ScopeView { continuation_blidx: Some(test.blidx), ..first };
                                                    let next = ScopeView { continuation_blidx: Some(test.blidx), ..next };
                                                    let b = ScopeView {
                                                        continuation_blidx: Some(next.blidx),
                                                        break_target: Some(after.blidx),
                                                        continue_target: Some(next.blidx),
                                                        ..b
                                                    };
                                                    match compound(t, st, n, first, body_nodes(t, init)) {
                                                        (st, Err(e)) => (st, Err(e)),
                                                        (st, Ok(_)) => {
                                                            match compound(t, st, n, test, body_nodes(t, cond)) {
                                                                (st, Err(e)) => (st, Err(e)),
                                                                (st, Ok(_)) => {
                                                                    match link(st, test.blidx, after.blidx) {
                                                                        (st, Err(e)) => (st, Err(e)),
                                                                        (st, Ok(_)) => {
                                                                            match compound(t, st, n, b, body_nodes(t, inner)) {
                                                                                (st, Err(e)) => (st, Err(e)),
                                                                                (st, Ok(_)) => {
                                                                                    match compound(t, st, n, next, body_nodes(t, step)) {
                                                                                        (st, Err(e)) => (st, Err(e)),
                                                                                        (st, Ok(_)) => {
                                                                                            (moved(st, after), Ok(()))
                                                                                        },
                                                                                    }
                                                                                },
                                                                            }
                                                                        },
                                                                    }
                                                                },
                                                            }
                                                        },
                                                    }
                                                },
                                            }
                                        },
                                    }
                                },
                            }
                        },
                    }
                },
            }
        },
        _ => report(
            st,
            Attribution::SourceProblem,
            "for statement at line "@ + dec((t[n as int].line + 1) as nat)
            + " has no parsable clauses"@,
        ),
    }
}

/// Adds one block per arm of a `switch`, from number `i` on.
pub open spec fn arm_blocks(
    t: TreeView,
    st: State,
    n: usize,
    count: nat,
    i: nat,
    arms: Seq<ScopeView>,
) -> Outcome<Seq<ScopeView>>
decreases count - i,
{
    if i >= count {
        (st, Ok(arms))
    } else {
        match add_block(
            st,
            false,
            false,
            "switch_case"@ + dec(i) + "(of)::"@ + line_text(t, n),
        ) {
            (st, Err(e)) => (st, Err(e)),
            (st, Ok(sv)) => {
                arm_blocks(t, st, n, count, i + 1, arms.push(sv))
            },
        }
    }
}

/// Lets control go from the current block to the arms from number `i` on.
pub open spec fn link_arms(st: State, arms: Seq<ScopeView>, i: int) -> Outcome<()>
decreases arms.len() - i,
{
    if i < 0 || i >= arms.len() {
        (st, Ok(()))
    } else {
        match link(st, st.at.blidx, arms[i].blidx) {
            (st, Err(e)) => (st, Err(e)),
            (st, Ok(_)) => {
                link_arms(st, arms, i + 1)
            },
        }
    }
}

/// Whether one of the arms from number `i` on is the default.
pub open spec fn has_default(t: TreeView, arms: Seq<usize>, i: int) -> bool
decreases arms.len() - i,
{
    if i < 0 || i >= arms.len() {
        false
    } else {
        field_child(t, arms[i], Field::Value) is None || has_default(t, arms, i + 1)
    }
}

/// Of some nodes, those from number `i` on that are not `x`.
pub open spec fn except(nodes: Seq<usize>, x: Option<usize>, i: int) -> Seq<usize>
decreases nodes.len() - i,
{
    if i < 0 || i >= nodes.len() {
        Seq::empty()
    } else if x == Some(nodes[i]) {
        except(nodes, x, i + 1)
    } else {
        seq![nodes[i]] + except(nodes, x, i + 1)
    }
}

/// The statements of an arm of a `switch`.
pub open spec fn arm_nodes(t: TreeView, n: usize) -> Seq<usize> {
    except(named_children(t, n), field_child(t, n, Field::Value), 0)
}

/// A `switch`: control may go to any arm, and past it if there is no default. An arm falls through
/// to the next.
#[verifier::opaque]
pub open spec fn switch(t: TreeView, st: State, n: usize) -> Outcome<()>
decreases rest(t, n), 80nat, 0int,
{
    let inner = part(t, n, Field::Body);
    let nodes = kids_of_kind(t, inner, Kind::CaseStatement);
    match expr(t, st, condition(t, n)) {
        (st, Err(e)) => (st, Err(e)),
        (st, Ok(_)) => {
            match add_block(
                st,
                false,
                false,
                "switch_continuation(of)::"@ + line_text(t, n),
            ) {
                (st, Err(e)) => (st, Err(e)),
                (st, Ok(after)) => {
                    match arm_blocks(t, st, n, nodes.len(), 0, Seq::empty()) {
                        (st, Err(e)) => (st, Err(e)),
                        (st, Ok(arms)) => {
                            match link_arms(st, arms, 0) {
                                (st, Err(e)) => (st, Err(e)),
                                (st, Ok(_)) => {
                                    match if has_default(t, nodes, 0) {
                                        (st, Ok(()))
                                    } else {
                                        link(st, st.at.blidx, after.blidx)
                                    } {
                                        (st, Err(e)) => (st, Err(e)),
                                        (st, Ok(_)) => {
                                            match switch_arms(t, st, n, nodes, arms, after.blidx, 0) {
                                                (st, Err(e)) => (st, Err(e)),
                                                (st, Ok(_)) => {
                                                    (moved(st, after), Ok(()))
                                                },
                                            }
                                        },
                                    }
                                },
                            }
                        },
                    }
                },
            }
        },
    }
}

/// Where an arm of a `switch` begins, and where it goes on to.
pub open spec fn arm_view(arms: Seq<ScopeView>, after: usize, i: int) -> ScopeView {
    ScopeView {
        continuation_blidx: Some(
            if i + 1 < arms.len() {
                arms[i + 1].blidx
            } else {
                after
            },
        ),
        break_target: Some(after),
        ..arms[i]
    }
}

/// The arms of a `switch` from number `i` on.
#[verifier::opaque]
pub open spec fn switch_arms(
    t: TreeView,
    st: State,
    n: usize,
    nodes: Seq<usize>,
    arms: Seq<ScopeView>,
    after: usize,
    i: int,
) -> Outcome<()>
decreases rest(t, n), 70nat, nodes.len() - i,
{
    if i < 0 || i >= nodes.len() || i >= arms.len() || !inside(t, n, nodes[i]) {
        (st, Ok(()))
    } else {
        match compound(t, st, nodes[i], arm_view(arms, after, i), arm_nodes(t, nodes[i])) {
            (st, Err(e)) => (st, Err(e)),
            (st, Ok(_)) => {
                switch_arms(t, st, n, nodes, arms, after, i + 1)
            },
        }
    }
}

/// A `goto`: what follows it is lowered to a block of its own.
#[verifier::opaque]
pub open spec fn goto(t: TreeView, st: State, n: usize) -> Outcome<()> {
    let label = text_at(t, part(t, n, Field::Label));
    if st.labels.contains_key(label) {
        match link(st, st.at.blidx, st.labels[label]) {
            (st, Err(e)) => (st, Err(e)),
            (st, Ok(_)) => {
                after_divergence(st, "after_goto::"@ + line_text(t, n))
            },
        }
    } else {
        report(
            st,
            Attribution::SourceProblem,
            "`goto` to undefined label `"@ + label + "`"@,
        )
    }
}

/// A labeled statement: control goes into the block of the label, and on from there.
#[verifier::opaque]
pub open spec fn labeled(t: TreeView, st: State, n: usize) -> Outcome<bool>
decreases rest(t, n), 80nat, 0int,
{
    let node = part(t, n, Field::Label);
    let label = text_at(t, node);
    if st.labels.contains_key(label) {
        let b = st.labels[label];
        match link(State { walked: st.walked.insert(b), ..st }, st.at.blidx, b) {
            (st, Err(e)) => (st, Err(e)),
            (st, Ok(_)) => {
                statements(
                    t,
                    moved(st, ScopeView { blidx: b, ..st.at }),
                    n,
                    except(named_children(t, n), Some(node), 0),
                    0,
                )
            },
        }
    } else {
        (st, Err(ErrorView::TreeSitterParse("label without a block: "@ + label)))
    }
}

/// The statements from number `i` on, up to the first that control does not get past.
#[verifier::opaque]
pub open spec fn statements(
    t: TreeView,
    st: State,
    n: usize,
    nodes: Seq<usize>,
    i: int,
) -> Outcome<bool>
decreases rest(t, n), 5nat, nodes.len() - i,
{
    if i < 0 || i >= nodes.len() || !inside(t, n, nodes[i]) {
        (st, Ok(false))
    } else {
        match statement(t, st, nodes[i]) {
            (st, Err(e)) => (st, Err(e)),
            (st, Ok(d)) => {
                if d {
                    (st, Ok(true))
                } else {
                    statements(t, st, n, nodes, i + 1)
                }
            },
        }
    }
}

/// An `if`. The condition is lowered for its effects; control may go either way.
#[verifier::opaque]
pub open spec fn if_else(t: TreeView, st: State, n: usize) -> Outcome<()>
decreases rest(t, n), 80nat, 0int,
{
    let yes = part(t, n, Field::Consequence);
    match expr(t, st, condition(t, n)) {
        (st, Err(e)) => (st, Err(e)),
        (st, Ok(_)) => {
            let here = st.at;
            match add_block(
                st,
                is_block(t, yes),
                true,
                "if_consequence(of)::"@ + line_text(t, n),
            ) {
                (st, Err(e)) => (st, Err(e)),
                (st, Ok(sv)) => {
                    match add_block(st, false, false, "if_continuation(of)::"@ + line_text(t, n)) {
                        (st, Err(e)) => (st, Err(e)),
                        (st, Ok(after)) => {
                            let sv = ScopeView { continuation_blidx: Some(after.blidx), ..sv };
                            match compound(t, st, n, sv, body_nodes(t, yes)) {
                                (st, Err(e)) => (st, Err(e)),
                                (st, Ok(_)) => {
                                    match match field_child(t, n, Field::Alternative) {
                                        Some(alt) => match first_named_child(t, alt) {
                                            Some(no) => else_branch(t, moved(st, here), n, no, after.blidx),
                                            None => (st, Ok(())),
                                        },
                                        None => link(st, here.blidx, after.blidx),
                                    } {
                                        (st, Err(e)) => (st, Err(e)),
                                        (st, Ok(_)) => {
                                            (moved(st, after), Ok(()))
                                        },
                                    }
                                },
                            }
                        },
                    }
                },
            }
        },
    }
}

/// What follows an `else`, from which control goes on to the block `after`.
#[verifier::opaque]
pub open spec fn else_branch(
    t: TreeView,
    st: State,
    n: usize,
    no: usize,
    after: usize,
) -> Outcome<()>
decreases rest(t, n), 70nat, 0int,
{
    if !inside(t, n, no) {
        (st, Ok(()))
    } else if kind_at(t, no) == Kind::IfStatement {
        match add_block(st, false, true, "if"@) {
            (st, Err(e)) => (st, Err(e)),
            (st, Ok(sv)) => {
                match if_else(
                    t,
                    moved(st, ScopeView { continuation_blidx: Some(after), ..sv }),
                    no,
                ) {
                    (st, Err(e)) => (st, Err(e)),
                    (st, Ok(_)) => {
                        link_end(st, st.at.blidx, st.at.continuation_blidx)
                    },
                }
            },
        }
    } else {
        match add_block(st, is_block(t, no), true, "alternative"@) {
            (st, Err(e)) => (st, Err(e)),
            (st, Ok(sv)) => {
                compound(
                    t,
                    st,
                    n,
                    ScopeView { continuation_blidx: Some(after), ..sv },
                    body_nodes(t, no),
                )
            },
        }
    }
}

} // verus!
