//! Lowering a function definition.

use vstd::prelude::*;
use crate::collections::views;
use crate::discovery::MemberInit;
use crate::error::Error;
use crate::kinds::{Field, Kind};
use crate::labels::{an_unlabelled_node_is_known, body_known, inits_unlabelled, known_by_its_labels, labels_known};
use crate::lowering::{compound, declarator_leaf, expr, leaf_name, object_typed, unanalyzed};
use crate::mir::{BlockView, FunctionData, FunctionView, ParameterType, PathSegment, RawPath, VariableRef};
use crate::objects::ObjectsView;
use crate::report::Attribution;
use crate::scope::{with_scope, VarKind};
use crate::shapes::{body_nodes, collect_labels, kind_at, labels_in, param_head, param_of, text_at, CompoundProxy, FunctionHead};
use crate::state::{add_block, assign, declare, done, grows, jumps_inside, locals_distinct, noted, receiver_field, report, return_implicitly, returns_fit, index_from, Context, Outcome, ScopeView, State};
use crate::syntax::{field_child, inside, kids_of_kind, named_children, SyntaxTree, TreeView};
use crate::text::{chars_of, dec, decimal, joined, same};
use crate::units::{class_view, has_receiver, lowerable, DefView, Definition};

verus! {

broadcast use crate::collections::group_views;

/// Where lowering stands at the start of block `blidx`, with nowhere to go on to.
pub open spec fn outset(blidx: usize, sidx: usize) -> ScopeView {
    ScopeView {
        blidx,
        sidx,
        continuation_blidx: None,
        break_target: None,
        continue_target: None,
    }
}

/// The state in which a definition is begun: it has a block, its parameters follow those that its
/// function has from an earlier definition of the same name, and nothing is known of its variables.
/// The receiver of a member function is its first parameter.
pub open spec fn begun(
    st: State,
    name: Seq<char>,
    arity: usize,
    class: Option<(Seq<char>, bool)>,
) -> State {
    State {
        fun: FunctionView {
            name,
            params: if has_receiver(class) {
                st.fun.params.push(ParameterType::ByRef)
            } else {
                st.fun.params
            },
            param_names: if has_receiver(class) {
                st.fun.param_names.push("this"@)
            } else {
                st.fun.param_names
            },
            return_arity: arity,
            locals: st.fun.locals,
            blocks: st.fun.blocks.push(BlockView::fresh()),
        },
        fits: returns_fit(FunctionView { return_arity: arity, ..st.fun }),
        temps: 0,
        scopes: with_scope(st.scopes, name + ".params"@, Some(0)),
        labels: Map::empty(),
        walked: Set::empty(),
        aliases: Map::empty(),
        unions: Set::empty(),
        objects: ObjectsView::in_class(class),
        at: outset(st.fun.blocks.len() as usize, st.scopes.len() as usize),
        ..st
    }
}

/// Whether a declaration is `const`.
pub open spec fn is_const(t: TreeView, n: usize) -> bool {
    exists|i: int|
        0 <= i < kids_of_kind(t, n, Kind::TypeQualifier).len() && text_at(
            t,
            #[trigger] kids_of_kind(t, n, Kind::TypeQualifier)[i],
        ) == "const"@
}

fn has_const(tree: &SyntaxTree, n: usize) -> (b: bool)
    requires
        n < tree@.len(),
    ensures
        b == is_const(tree@, n),
{
    let v = tree.kids_of_kind(n, Kind::TypeQualifier);
    let mut i: usize = 0;
    while i < v.len()
        invariant
            i <= v@.len(),
            v@ == kids_of_kind(tree@, n, Kind::TypeQualifier),
            forall|j: int| 0 <= j < v@.len() ==> inside(tree@, n, #[trigger] v@[j]),
            forall|j: int| 0 <= j < i ==> text_at(tree@, #[trigger] v@[j]) != "const"@,
        decreases v@.len() - i,
    {
        if same(tree.text(v[i]), "const") {
            assert(text_at(tree@, kids_of_kind(tree@, n, Kind::TypeQualifier)[i as int])
                == "const"@);
            return true;
        }
        i = i + 1;
    }
    false
}

/// The name that the declarator `d` of parameter `n` declares, and how the parameter is passed. A
/// reference is passed by reference, unless it is to something `const`.
pub open spec fn param_type(t: TreeView, n: usize, d: usize) -> (Option<usize>, ParameterType) {
    if kind_at(t, d) == Kind::ReferenceDeclarator {
        (
            leaf_name(t, d),
            if is_const(t, n) {
                ParameterType::ByVal
            } else {
                ParameterType::ByRef
            },
        )
    } else {
        param_of(t, d)
    }
}

/// Takes in the parameters from number `i` of the list on. A parameter is a declaration with a
/// declarator; its position counts, whether it has a name or not. A name means the first parameter
/// of the function that has it.
pub open spec fn with_params(t: TreeView, st: State, nodes: Seq<usize>, i: int) -> State
    decreases nodes.len() - i,
{
    if i < 0 || i >= nodes.len() {
        st
    } else if kind_at(t, nodes[i]) != Kind::ParameterDeclaration {
        with_params(t, st, nodes, i + 1)
    } else {
        match field_child(t, nodes[i], Field::Declarator) {
            Some(d) => {
                let p = param_type(t, nodes[i], d);
                let called = match p.0 {
                    Some(name) => text_at(t, name),
                    None => "\0<unnamed>"@,
                };
                let names = st.fun.param_names.push(called);
                let position = index_from(names, 0, called) as usize;
                let st = State {
                    fun: FunctionView {
                        params: st.fun.params.push(p.1),
                        param_names: names,
                        ..st.fun
                    },
                    ..st
                };
                let st = match p.0 {
                    Some(name) => object_typed(
                        t,
                        declare(st, text_at(t, name), VarKind::Parameter(position)),
                        nodes[i],
                        text_at(t, name),
                    ),
                    None => st,
                };
                with_params(t, st, nodes, i + 1)
            },
            None => with_params(t, st, nodes, i + 1),
        }
    }
}

/// Opens the scope of the body that has been begun, in its first block.
pub open spec fn body_opened(st: State) -> State {
    let st = State {
        scopes: with_scope(st.scopes, st.fun.name + ".body"@, Some(st.at.sidx)),
        at: outset(st.at.blidx, st.scopes.len() as usize),
        ..st
    };
    noted(st, st.at.blidx, "initial_block"@)
}

/// Gives every label from number `i` on a block, so that a jump can come before its label.
pub open spec fn with_labels(st: State, labels: Seq<Seq<char>>, i: int) -> Outcome<()>
    decreases labels.len() - i,
{
    if i < 0 || i >= labels.len() {
        (st, Ok(()))
    } else {
        match add_block(st, false, false, "label:"@ + labels[i]) {
            (st, Err(e)) => (st, Err(e)),
            (st, Ok(sv)) => with_labels(
                State { labels: st.labels.insert(labels[i], sv.blidx), ..st },
                labels,
                i + 1,
            ),
        }
    }
}

/// Whether block `b` is that of a label that lowering did not come to.
pub open spec fn stranded(st: State, labels: Seq<Seq<char>>, b: usize) -> bool {
    &&& !st.walked.contains(b)
    &&& exists|i: int| 0 <= i < labels.len() && st.labels[#[trigger] labels[i]] == b
}

/// Whether there is a label that lowering did not come to.
pub open spec fn any_stranded(st: State, labels: Seq<Seq<char>>) -> bool {
    exists|i: int| 0 <= i < labels.len() && !st.walked.contains(st.labels[#[trigger] labels[i]])
}

/// Ends the blocks from number `i` on that have no end with an implicit return. `patched` are those
/// that are the front end's fault: a stranded label is not, where the body did not parse.
pub open spec fn terminated(
    st: State,
    labels: Seq<Seq<char>>,
    recovery: bool,
    i: int,
    patched: Seq<usize>,
) -> (State, Seq<usize>)
    decreases st.fun.blocks.len() - i,
    via terminated_decreases
{
    if i < 0 || i >= st.fun.blocks.len() || i > usize::MAX {
        (st, patched)
    } else if st.fun.blocks[i].terminator is Some {
        terminated(st, labels, recovery, i + 1, patched)
    } else {
        terminated(
            return_implicitly(st, i as usize),
            labels,
            recovery,
            i + 1,
            if recovery && stranded(st, labels, i as usize) {
                patched
            } else {
                patched.push(i as usize)
            },
        )
    }
}

#[via_fn]
proof fn terminated_decreases(
    st: State,
    labels: Seq<Seq<char>>,
    recovery: bool,
    i: int,
    patched: Seq<usize>,
) {
    if 0 <= i && i < st.fun.blocks.len() && i <= usize::MAX {
        lemma_return_keeps_blocks(st, i as usize);
    }
}

proof fn lemma_return_keeps_blocks(st: State, b: usize)
    requires
        b < st.fun.blocks.len(),
    ensures
        return_implicitly(st, b).fun.blocks.len() == st.fun.blocks.len(),
        return_implicitly(st, b).walked == st.walked,
        return_implicitly(st, b).labels == st.labels,
{
    reveal(return_implicitly);
    reveal(crate::state::intern);
}

/// Some numbers, as a list.
pub open spec fn number_list(v: Seq<usize>, i: int) -> Seq<char>
    decreases v.len() - i,
{
    if i < 0 || i >= v.len() {
        Seq::empty()
    } else if i == v.len() - 1 {
        dec(v[i] as nat)
    } else {
        dec(v[i] as nat) + ", "@ + number_list(v, i + 1)
    }
}

/// What is said of blocks that were left without an end.
pub open spec fn unterminated_message(name: Seq<char>, patched: Seq<usize>) -> Seq<char> {
    "function `"@ + name + "`: "@ + dec(patched.len()) + " block(s) left without a terminator by the walk (["@
        + number_list(patched, 0)
        + "]); their statements (e.g. code under a label after a `return`) were dropped. Gave them an implicit empty `return`."@
}

/// Ends every block that has no end, and says so where that is the front end's fault.
pub open spec fn finalized(st: State, labels: Seq<Seq<char>>, recovery: bool) -> Outcome<()> {
    let r = terminated(st, labels, recovery, 0, Seq::empty());
    if r.1.len() > 0 {
        report(r.0, Attribution::FrontendGap, unterminated_message(r.0.fun.name, r.1))
    } else {
        (r.0, Ok(()))
    }
}

/// Whether `s` spells `void`, in any case.
pub open spec fn is_void(s: Seq<char>) -> bool {
    &&& s.len() == 4
    &&& s[0] == 'v' || s[0] == 'V'
    &&& s[1] == 'o' || s[1] == 'O'
    &&& s[2] == 'i' || s[2] == 'I'
    &&& s[3] == 'd' || s[3] == 'D'
}

/// How many values the function that definition `n` defines returns. A pointer to `void` is a
/// value; a definition without a type returns an `int`.
pub open spec fn arity_of(t: TreeView, n: usize, head: FunctionHead) -> usize {
    if head.returns_pointer {
        1
    } else {
        match field_child(t, n, Field::Type) {
            Some(ty) => if kind_at(t, ty) == Kind::PrimitiveType && is_void(text_at(t, ty)) {
                0
            } else {
                1
            },
            None => 1,
        }
    }
}

/// Initializes the members from number `i` on, as the initializer list of a constructor says: each
/// field of the receiver takes the value of its expression.
pub open spec fn initialized(
    t: TreeView,
    st: State,
    inits: Seq<(Seq<char>, usize)>,
    i: int,
) -> Outcome<()>
    decreases inits.len() - i,
{
    if i < 0 || i >= inits.len() {
        (st, Ok(()))
    } else {
        match expr(t, st, inits[i].1) {
            (st, Err(e)) => (st, Err(e)),
            (st, Ok(v)) => initialized(
                t,
                assign(st, receiver_field(inits[i].0), v, None),
                inits,
                i + 1,
            ),
        }
    }
}

/// The function that `d` defines, under the name `name`, added to what `st` has of it: its
/// parameters, a block per label, the members that it initializes, its body, and an end for every
/// block.
pub open spec fn function(t: TreeView, st: State, d: DefView, name: Seq<char>) -> Outcome<()> {
    let body = d.body;
    let st = begun(st, name, d.arity, d.class);
    let st = with_params(t, st, named_children(t, d.params), 0);
    let st = body_opened(st);
    let labels = labels_in(t, body);
    match with_labels(st, labels, 0) {
        (st, Err(e)) => (st, Err(e)),
        (st, Ok(_)) => match initialized(t, st, d.inits, 0) {
            (st, Err(e)) => (st, Err(e)),
            (st, Ok(_)) => match compound(t, st, d.node, st.at, body_nodes(t, body)) {
                (st, Err(e)) => (st, Err(e)),
                (st, Ok(_)) => {
                    let recovery = t[body as int].has_error;
                    match if recovery && any_stranded(st, labels) {
                        unanalyzed(st)
                    } else {
                        (st, Ok(()))
                    } {
                        (st, Err(e)) => (st, Err(e)),
                        (st, Ok(_)) => finalized(st, labels, recovery),
                    }
                },
            },
        },
    }
}

/// Whether two functions have the same name, parameters and number of values returned.
pub open spec fn same_signature(a: FunctionView, b: FunctionView) -> bool {
    a.name == b.name && a.params == b.params && a.return_arity == b.return_arity
}

/// A function as lowering leaves it: every block has an end, every jump leads to a block, every
/// return fits, and no two locals share a name.
pub open spec fn complete(f: FunctionView) -> bool {
    closed_up(f) && returns_fit(f)
}

/// Whether every block of a function has an end, every jump leads to a block, and no two locals share
/// a name.
pub open spec fn closed_up(f: FunctionView) -> bool {
    &&& f.blocks.len() > 0
    &&& forall|b: int| 0 <= b < f.blocks.len() ==> (#[trigger] f.blocks[b]).terminator is Some
    &&& jumps_inside(f.blocks)
    &&& locals_distinct(f)
}

/// Whether `s` spells `void`, in any case.
pub fn spells_void(s: &str) -> (b: bool)
    ensures
        b == is_void(s@),
{
    let c = chars_of(s);
    c.len() == 4 && (c[0] == 'v' || c[0] == 'V') && (c[1] == 'o' || c[1] == 'O') && (c[2] == 'i'
        || c[2] == 'I') && (c[3] == 'd' || c[3] == 'D')
}

/// How many values the function that definition `n` defines returns.
pub fn return_arity(tree: &SyntaxTree, n: usize, head: &FunctionHead) -> (a: usize)
    requires
        n < tree@.len(),
    ensures
        a == arity_of(tree@, n, *head),
{
    if head.returns_pointer {
        return 1;
    }
    match tree.field(n, Field::Type) {
        Some(ty) => if tree.kind(ty) == Kind::PrimitiveType && spells_void(tree.text(ty)) {
            0
        } else {
            1
        },
        None => 1,
    }
}

fn listed_numbers(v: &Vec<usize>) -> (s: String)
    ensures
        s@ == number_list(v@, 0),
{
    let mut s = String::new();
    let mut i: usize = 0;
    assert(s@ + number_list(v@, 0) =~= number_list(v@, 0));
    while i < v.len()
        invariant
            i <= v@.len(),
            s@ + number_list(v@, i as int) == number_list(v@, 0),
        decreases v@.len() - i,
    {
        let ghost before = s@;
        s.append(decimal(v[i]).as_str());
        if i + 1 < v.len() {
            s.append(", ");
        }
        assert(s@ + number_list(v@, i + 1) =~= before + number_list(v@, i as int));
        i = i + 1;
    }
    assert(s@ =~= number_list(v@, 0));
    s
}

impl<'a> Context<'a> {
    /// Takes in the parameters in the list `params`.
    fn collect_params(&mut self, tree: &SyntaxTree, params: usize)
        requires
            old(self).ready(),
            params < tree@.len(),
        ensures
            final(self).ready(),
            final(self)@ == with_params(
                tree@,
                old(self)@,
                named_children(tree@, params),
                0,
            ),
            final(self)@.at == old(self)@.at,
            final(self)@.fun.blocks == old(self)@.fun.blocks,
            final(self)@.env == old(self)@.env,
            final(self)@.fun.name == old(self)@.fun.name,
            final(self)@.fun.return_arity == old(self)@.fun.return_arity,
            final(self)@.fits == old(self)@.fits,
            old(self)@.fun.params.is_prefix_of(final(self)@.fun.params),
    {
        let nodes = tree.named_children(params);
        let mut i: usize = 0;
        while i < nodes.len()
            invariant
                self.ready(),
                i <= nodes@.len(),
                self@.at == old(self)@.at,
                self@.fun.blocks == old(self)@.fun.blocks,
                self@.env == old(self)@.env,
                self@.fun.name == old(self)@.fun.name,
                self@.fun.return_arity == old(self)@.fun.return_arity,
                self@.fits == old(self)@.fits,
                old(self)@.fun.params.is_prefix_of(self@.fun.params),
                forall|j: int|
                    0 <= j < nodes@.len() ==> inside(tree@, params, #[trigger] nodes@[j]),
                with_params(tree@, self@, nodes@, i as int) == with_params(
                    tree@,
                    old(self)@,
                    nodes@,
                    0,
                ),
            decreases nodes@.len() - i,
        {
            let d = nodes[i];
            if tree.kind(d) == Kind::ParameterDeclaration {
                if let Some(c) = tree.field(d, Field::Declarator) {
                    let (name, ty) = if tree.kind(c) == Kind::ReferenceDeclarator {
                        let ty = if has_const(tree, d) {
                            ParameterType::ByVal
                        } else {
                            ParameterType::ByRef
                        };
                        (declarator_leaf(tree, c), ty)
                    } else {
                        param_head(tree, c)
                    };
                    match name {
                        Some(name) => {
                            let position = self.add_param(ty, tree.text(name));
                            self.declare(tree.text(name), VarKind::Parameter(position));
                            self.type_object(tree, d, tree.text(name));
                        },
                        None => {
                            self.add_param(ty, "\0<unnamed>");
                        },
                    }
                }
            }
            i = i + 1;
        }
    }

    /// Gives every label a block.
    fn add_labels(&mut self, labels: &Vec<String>) -> (r: Result<(), Error>)
        requires
            old(self).ready(),
        ensures
            final(self).ready(),
            (final(self)@, done(r)) == with_labels(old(self)@, views(labels@), 0),
            final(self)@.at == old(self)@.at,
            old(self)@.fun.blocks.len() <= final(self)@.fun.blocks.len(),
            same_signature(final(self)@.fun, old(self)@.fun),
            final(self)@.fits == old(self)@.fits,
            final(self)@.env == old(self)@.env,
            !old(self)@.env.strict ==> r is Ok,
            r is Ok ==> forall|l: Seq<char>|
                old(self)@.labels.contains_key(l) || views(labels@).contains(l) ==> #[trigger]
                final(self)@.labels.contains_key(l),
    {
        let ghost ls = views(labels@);
        let mut i: usize = 0;
        while i < labels.len()
            invariant
                self.ready(),
                i <= labels@.len(),
                ls == views(labels@),
                self@.at == old(self)@.at,
                old(self)@.fun.blocks.len() <= self@.fun.blocks.len(),
                same_signature(self@.fun, old(self)@.fun),
                self@.fits == old(self)@.fits,
                self@.env == old(self)@.env,
                with_labels(self@, ls, i as int) == with_labels(old(self)@, ls, 0),
                forall|l: Seq<char>|
                    old(self)@.labels.contains_key(l) || ls.take(i as int).contains(l)
                        ==> #[trigger] self@.labels.contains_key(l),
            decreases labels@.len() - i,
        {
            let explainer = joined("label:", labels[i].as_str());
            let sv = self.add_block(false, false, explainer.as_str())?;
            let ghost before = self@.labels;
            self.set_label(labels[i].clone(), sv.blidx);
            i = i + 1;
            assert forall|l: Seq<char>|
                old(self)@.labels.contains_key(l) || ls.take(i as int).contains(
                    l,
                ) implies #[trigger] self@.labels.contains_key(l) by {
                if ls.take(i as int).contains(l) && l != ls[i - 1] {
                    let j = choose|j: int|
                        0 <= j < ls.take(i as int).len() && ls.take(i as int)[j] == l;
                    assert(ls.take(i - 1)[j] == l);
                    assert(ls.take(i - 1).contains(l));
                    assert(before.contains_key(l));
                } else if !ls.take(i as int).contains(l) {
                    assert(before.contains_key(l));
                }
            }
        }
        assert(ls.take(i as int) =~= ls);
        Ok(())
    }

    fn is_stranded(&self, labels: &Vec<String>, b: usize) -> (r: bool)
        requires
            self.ready(),
            forall|i: int|
                0 <= i < labels@.len() ==> self@.labels.contains_key(#[trigger] labels@[i]@),
        ensures
            r == stranded(self@, views(labels@), b),
    {
        if self.is_entered(b) {
            return false;
        }
        let ghost ls = views(labels@);
        let mut i: usize = 0;
        while i < labels.len()
            invariant
                self.ready(),
                ls == views(labels@),
                i <= labels@.len(),
                !self@.walked.contains(b),
                forall|j: int|
                    0 <= j < labels@.len() ==> self@.labels.contains_key(#[trigger] labels@[j]@),
                forall|j: int| 0 <= j < i ==> self@.labels[#[trigger] ls[j]] != b,
            decreases labels@.len() - i,
        {
            assert(self@.labels.contains_key(labels@[i as int]@));
            if let Some(c) = self.label_block(labels[i].as_str()) {
                if c == b {
                    assert(self@.labels[ls[i as int]] == b);
                    return true;
                }
            }
            i = i + 1;
        }
        false
    }

    fn has_stranded(&self, labels: &Vec<String>) -> (r: bool)
        requires
            self.ready(),
            forall|i: int|
                0 <= i < labels@.len() ==> self@.labels.contains_key(#[trigger] labels@[i]@),
        ensures
            r == any_stranded(self@, views(labels@)),
    {
        let ghost ls = views(labels@);
        let mut i: usize = 0;
        while i < labels.len()
            invariant
                self.ready(),
                ls == views(labels@),
                i <= labels@.len(),
                forall|j: int|
                    0 <= j < labels@.len() ==> self@.labels.contains_key(#[trigger] labels@[j]@),
                forall|j: int|
                    0 <= j < i ==> self@.walked.contains(self@.labels[#[trigger] ls[j]]),
            decreases labels@.len() - i,
        {
            assert(self@.labels.contains_key(labels@[i as int]@));
            if let Some(c) = self.label_block(labels[i].as_str()) {
                if !self.is_entered(c) {
                    assert(!self@.walked.contains(self@.labels[ls[i as int]]));
                    return true;
                }
            }
            i = i + 1;
        }
        false
    }

    /// Ends every block that has no end, and says so where that is the front end's fault.
    ///
    /// # Errors
    ///
    /// The report itself, in strict mode.
    fn finalize_terminators(&mut self, labels: &Vec<String>, recovery: bool) -> (r: Result<
        (),
        Error,
    >)
        requires
            old(self).ready(),
            forall|i: int|
                0 <= i < labels@.len() ==> old(self)@.labels.contains_key(#[trigger] labels@[i]@),
        ensures
            final(self).ready(),
            !old(self)@.env.strict ==> r is Ok,
            (final(self)@, done(r)) == finalized(old(self)@, views(labels@), recovery),
            forall|b: int|
                0 <= b < final(self)@.fun.blocks.len() ==> (
                #[trigger] final(self)@.fun.blocks[b]).terminator is Some,
            final(self)@.fun.blocks.len() == old(self)@.fun.blocks.len(),
            same_signature(final(self)@.fun, old(self)@.fun),
            final(self)@.fits == old(self)@.fits,
            final(self)@.env == old(self)@.env,
    {
        let ghost ls = views(labels@);
        let mut patched: Vec<usize> = Vec::new();
        assert(patched@ =~= Seq::<usize>::empty());
        let mut i: usize = 0;
        let count = self.block_count();
        while i < count
            invariant
                self.ready(),
                ls == views(labels@),
                i <= count,
                count == self@.fun.blocks.len(),
                count == old(self)@.fun.blocks.len(),
                same_signature(self@.fun, old(self)@.fun),
                self@.fits == old(self)@.fits,
                self@.labels == old(self)@.labels,
                self@.env == old(self)@.env,
                forall|j: int|
                    0 <= j < labels@.len() ==> old(self)@.labels.contains_key(
                        #[trigger] labels@[j]@,
                    ),
                forall|b: int| 0 <= b < i ==> (#[trigger] self@.fun.blocks[b]).terminator is Some,
                terminated(self@, ls, recovery, i as int, patched@) == terminated(
                    old(self)@,
                    ls,
                    recovery,
                    0,
                    Seq::empty(),
                ),
            decreases count - i,
        {
            if !self.is_terminated(i) {
                let ghost before = self@;
                let excused = recovery && self.is_stranded(labels, i);
                self.implicit_return(i);
                proof {
                    lemma_return_keeps_blocks(before, i);
                    lemma_return_ends(before, i);
                }
                if !excused {
                    patched.push(i);
                }
            }
            i = i + 1;
        }
        if patched.len() > 0 {
            let mut message = joined("function `", self.func_name());
            message.append("`: ");
            message.append(decimal(patched.len()).as_str());
            message.append(" block(s) left without a terminator by the walk ([");
            message.append(listed_numbers(&patched).as_str());
            message.append(
                "]); their statements (e.g. code under a label after a `return`) were dropped. Gave them an implicit empty `return`.",
            );
            proof {
                reveal(report);
            }
            return self.recoverable_report(Attribution::FrontendGap, message);
        }
        Ok(())
    }

    /// Initializes members as the initializer list of a constructor says. A parameter of the same name
    /// does not hide the member that is initialized.
    ///
    /// # Errors
    ///
    /// In strict mode, the first report.
    fn emit_member_inits(&mut self, tree: &SyntaxTree, inits: &Vec<MemberInit>) -> (r: Result<
        (),
        Error,
    >)
        requires
            old(self).ready(),
            forall|i: int| 0 <= i < inits@.len() ==> (#[trigger] inits@[i]).value < tree@.len(),
        ensures
            final(self).ready(),
            grows(old(self)@, final(self)@),
            !old(self)@.env.strict && inits_unlabelled(tree@, views(inits@)) ==> r is Ok,
            (final(self)@, done(r)) == initialized(tree@, old(self)@, views(inits@), 0),
    {
        let ghost iv = views(inits@);
        let mut i: usize = 0;
        while i < inits.len()
            invariant
                self.ready(),
                grows(old(self)@, self@),
                i <= inits@.len(),
                iv == views(inits@),
                forall|j: int| 0 <= j < inits@.len() ==> (#[trigger] inits@[j]).value < tree@.len(),
                initialized(tree@, self@, iv, i as int) == initialized(
                    tree@,
                    old(self)@,
                    iv,
                    0,
                ),
            decreases inits@.len() - i,
        {
            let init = &inits[i];
            assert(iv[i as int] == init@);
            proof {
                if inits_unlabelled(tree@, iv) {
                    an_unlabelled_node_is_known(self@.labels, tree@, iv[i as int].1);
                }
            }
            let value = self.flatten_expr(tree, init.value)?;
            let mut target = RawPath::of(VariableRef::Param(0));
            target.push(PathSegment::symbol(init.member.as_str()));
            assert(target@.fields =~= receiver_field(init.member@).fields);
            self.add_assign_to_program(&target, &value, None);
            i = i + 1;
        }
        Ok(())
    }

    /// Lowers the function that `d` defines, under the name `name`, into what there is of it from
    /// earlier definitions of the same name.
    ///
    /// # Errors
    ///
    /// In strict mode, the first report.
    pub fn lower_function(
        &mut self,
        tree: &SyntaxTree,
        d: &Definition,
        name: &str,
        prior: FunctionData,
    ) -> (r: Result<FunctionData, Error>)
        requires
            old(self).idle(),
            lowerable(tree@, d@),
            jumps_inside(prior@.blocks),
            locals_distinct(prior@),
        ensures
            match r {
                Ok(f) => {
                    let out = function(
                        tree@,
                        State { fun: prior@, ..old(self)@ },
                        d@,
                        name@,
                    );
                    &&& out.1 is Ok
                    &&& f@ == out.0.fun
                    &&& final(self)@ == (State { fun: FunctionView::fresh(), ..out.0 })
                    &&& closed_up(f@)
                    &&& returns_fit(FunctionView { return_arity: d.arity, ..prior@ }) ==> complete(
                        f@,
                    )
                    &&& f@.name == name@
                    &&& f@.return_arity == d.arity
                    &&& prior@.params.is_prefix_of(f@.params)
                    &&& has_receiver(d@.class) ==> prior@.params.len() < f@.params.len()
                        && f@.params[prior@.params.len() as int] == ParameterType::ByRef
                    &&& final(self).idle()
                    &&& final(self)@.env == old(self)@.env
                },
                Err(e) => {
                    &&& function(
                        tree@,
                        State { fun: prior@, ..old(self)@ },
                        d@,
                        name@,
                    ).1 == Err::<(), _>(e@)
                    &&& old(self)@.env.strict || !inits_unlabelled(tree@, d@.inits)
                },
            },
    {
        let body = d.body;
        let class = match &d.class {
            Some(c) => Some((c.0.clone(), c.1)),
            None => None,
        };
        assert(class_view(class) == d@.class);
        let ghost held = prior@;
        self.begin(prior, name, d.arity, class);
        let ghost first = self@.fun.params;
        let ghost fits = self@.fits;
        self.collect_params(tree, d.params);
        assert(held.params.is_prefix_of(self@.fun.params)) by {
            assert(self@.fun.params.subrange(0, held.params.len() as int) =~= self@.fun.params.subrange(
                0,
                first.len() as int,
            ).subrange(0, held.params.len() as int));
            assert(first.subrange(0, held.params.len() as int) =~= held.params);
        }
        assert(has_receiver(d@.class) ==> held.params.len() < self@.fun.params.len()
            && self@.fun.params[held.params.len() as int] == ParameterType::ByRef) by {
            if has_receiver(d@.class) {
                assert(self@.fun.params.subrange(0, first.len() as int)[held.params.len() as int]
                    == first[held.params.len() as int]);
            }
        }
        let ghost head = self@.fun;
        self.open_body();
        let mut labels: Vec<String> = Vec::new();
        assert(views(labels@) =~= Seq::<Seq<char>>::empty());
        collect_labels(tree, body, &mut labels);
        assert(views(labels@) =~= labels_in(tree@, body));
        self.add_labels(&labels)?;
        let nodes = CompoundProxy::from_node(tree, body).nodes;
        proof {
            known_by_its_labels(self@.labels, tree@, body);
        }
        assert forall|i: int| 0 <= i < nodes@.len() implies #[trigger] labels_known(
            self@.labels,
            tree@,
            nodes@[i],
        ) by {
            body_known(self@.labels, tree@, body, i);
        }
        assert forall|i: int| 0 <= i < labels@.len() implies self@.labels.contains_key(
            #[trigger] labels@[i]@,
        ) by {
            assert(views(labels@)[i] == labels@[i]@);
            assert(views(labels@).contains(views(labels@)[i]));
        }
        assert forall|i: int| 0 <= i < d.inits@.len() implies (#[trigger] d.inits@[i]).value
            < tree@.len() by {
            assert(d@.inits[i] == d.inits@[i]@);
        }
        self.emit_member_inits(tree, &d.inits)?;
        let sv = self.here();
        self.walk_compound_statement(tree, d.node, sv, &nodes)?;
        let recovery = tree.has_error(body);
        if recovery && self.has_stranded(&labels) {
            self.report_unanalyzed_recovery()?;
        }
        self.finalize_terminators(&labels, recovery)?;
        assert(same_signature(self@.fun, head));
        assert(self@.fits == fits);
        Ok(self.take_function())
    }
}

proof fn lemma_return_ends(st: State, b: usize)
    requires
        b < st.fun.blocks.len(),
    ensures
        return_implicitly(st, b).fun.blocks[b as int].terminator is Some,
        forall|i: int|
            0 <= i < st.fun.blocks.len() && i != b ==> (#[trigger] return_implicitly(
                st,
                b,
            ).fun.blocks[i]) == st.fun.blocks[i],
{
    reveal(return_implicitly);
    reveal(crate::state::intern);
}

} // verus!
