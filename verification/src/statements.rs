//! Lowering statements: the methods that do what [`crate::lowering`] says.

use vstd::prelude::*;
use crate::labels::{a_known_label_has_a_block, all_settled, body_known, group_known, labels_known, settled, settled_within};
use crate::construction::condition_expr;
use crate::error::Error;
use crate::kinds::{Field, Kind};
use crate::lowering::{after_divergence, arm_blocks, assignment, body, clause, compound, construction, declaration, declared, do_loop, else_branch, empty_clause, except, expr, for_loop, framed_body, goto, has_default, if_else, initializer, is_block, jump, labeled, line_text, link_arms, reference, return_from, statement, statements, switch, switch_arms, while_loop};
use crate::mir::{Exp, Terminator};
use crate::report::Attribution;
use crate::scope::VarKind;
use crate::shapes::{body_nodes, is_empty_kind, CompoundProxy};
use crate::state::{add_block, declare, done, grows, link, link_end, named, open_scope, target_in, within, Context, ScopeView};
use crate::syntax::{field_child, field_children, first_named_child, inside, kids, kids_of_kind, named_children, part, rest, SyntaxTree, TreeView};
use crate::text::{decimal, joined};

verus! {

broadcast use {crate::collections::group_views, group_known};

/// What a note on node `n` is called.
fn noted_at(tree: &SyntaxTree, n: usize, what: &str) -> (s: String)
    requires
        n < tree@.len(),
    ensures
        s@ == what@ + line_text(tree@, n),
{
    joined(what, decimal(tree.line(n)).as_str())
}

/// Of some nodes, those that are not `x`.
fn without(nodes: &Vec<usize>, x: Option<usize>) -> (v: Vec<usize>)
    ensures
        v@ == except(nodes@, x, 0),
        forall|j: int| 0 <= j < v@.len() ==> nodes@.contains(#[trigger] v@[j]),
{
    let mut v: Vec<usize> = Vec::new();
    let mut i: usize = 0;
    assert(v@ + except(nodes@, x, 0) =~= except(nodes@, x, 0));
    while i < nodes.len()
        invariant
            i <= nodes@.len(),
            v@ + except(nodes@, x, i as int) == except(nodes@, x, 0),
            forall|j: int| 0 <= j < v@.len() ==> nodes@.contains(#[trigger] v@[j]),
        decreases nodes@.len() - i,
    {
        let ghost before = v@;
        let skip = match x {
            Some(y) => y == nodes[i],
            None => false,
        };
        if !skip {
            v.push(nodes[i]);
            assert(nodes@.contains(nodes@[i as int]));
        }
        assert(v@ + except(nodes@, x, i + 1) =~= before + except(nodes@, x, i as int));
        i = i + 1;
    }
    assert(v@ =~= except(nodes@, x, 0));
    v
}

/// Whether the labels of `nodes` are labels of `c`.
spec fn shares(t: TreeView, c: usize, nodes: Seq<usize>) -> bool {
    forall|labels: Map<Seq<char>, usize>, j: int|
        #![trigger labels_known(labels, t, c), nodes[j]]
        0 <= j < nodes.len() && labels_known(labels, t, c) ==> labels_known(labels, t, nodes[j])
}

/// The statements that the body `c` of statement `n` consists of.
fn body_of(tree: &SyntaxTree, n: usize, c: usize) -> (v: Vec<usize>)
    requires
        n < tree@.len(),
        inside(tree@, n, c),
    ensures
        v@ == body_nodes(tree@, c),
        forall|j: int|
            0 <= j < v@.len() ==> inside(tree@, n, #[trigger] v@[j]) && (v@[j] == c || inside(
                tree@,
                c,
                v@[j],
            )),
        shares(tree@, c, v@),
{
    let v = CompoundProxy::from_node(tree, c).nodes;
    assert forall|labels: Map<Seq<char>, usize>, j: int|
        #![trigger labels_known(labels, tree@, c), v@[j]]
        0 <= j < v@.len() && labels_known(labels, tree@, c) implies labels_known(
        labels,
        tree@,
        v@[j],
    ) by {
        body_known(labels, tree@, c, j);
    }
    v
}

/// Whether node `n` is a block.
fn block_node(tree: &SyntaxTree, n: usize) -> (b: bool)
    requires
        n < tree@.len(),
    ensures
        b == is_block(tree@, n),
{
    tree.kind(n) == Kind::CompoundStatement
}

/// A clause of a `for` loop.
fn for_clause(tree: &SyntaxTree, n: usize, f: Field) -> (c: Option<usize>)
    requires
        n < tree@.len(),
    ensures
        c == clause(tree@, n, f),
        c matches Some(c) ==> inside(tree@, n, c),
{
    if let Some(c) = tree.field(n, f) {
        return Some(c);
    }
    let children = tree.children(n);
    let mut i: usize = 0;
    while i < children.len()
        invariant
            i <= children@.len(),
            field_child(tree@, n, f) is None,
            children@ == kids(tree@, n),
            forall|j: int| 0 <= j < children@.len() ==> inside(tree@, n, #[trigger] children@[j]),
            empty_clause(tree@, n, i as int) == empty_clause(tree@, n, 0),
        decreases children@.len() - i,
    {
        let k = tree.kind(children[i]);
        if k == Kind::Semicolon || k == Kind::OpenParen {
            return Some(children[i]);
        }
        i = i + 1;
    }
    None
}

impl<'a> Context<'a> {
    /// Lowers a statement; the answer is whether control does not get past it.
    ///
    /// # Errors
    ///
    /// In strict mode, the first report.
    pub fn walk_statement(&mut self, tree: &SyntaxTree, n: usize) -> (r: Result<bool, Error>)
        requires
            old(self).ready(),
            n < tree@.len(),
        ensures
            final(self).ready(),
            grows(old(self)@, final(self)@),
            settled(old(self)@, tree@, n) ==> r is Ok,
            (final(self)@, done(r)) == statement(tree@, old(self)@, n),
        decreases rest(tree@, n), 90nat, 0int,
    {
        proof {
            reveal(statement);
            reveal(framed_body);
            reveal(construction);
            reveal(declaration);
            reveal(expr);
            reveal(if_else);
            reveal(while_loop);
            reveal(do_loop);
            reveal(for_loop);
            reveal(switch);
            reveal(return_from);
            reveal(labeled);
        }
        let k = tree.kind(n);
        self.set_span(tree, n);
        if k == Kind::Comment {
        } else if k == Kind::CompoundStatement {
            let sidx = self.here().sidx;
            let nodes = tree.children(n);
            let sv = self.add_scope();
            self.move_to(sv);
            let d = self.walk_framed_body(tree, n, &nodes)?;
            let sv = ScopeView { sidx, ..self.here() };
            self.move_to(sv);
            return Ok(d);
        } else if k == Kind::Declaration {
            let made = match self.class_named(tree, n) {
                Some(class) => self.try_construct(tree, n, class.as_str())?,
                None => false,
            };
            if !made {
                self.walk_declaration(tree, n)?;
            }
        } else if k == Kind::ExpressionStatement {
            if let Some(c) = tree.child(n, 0) {
                if !is_empty_kind(tree.kind(c)) {
                    self.flatten_expr(tree, c)?;
                }
            }
        } else if k == Kind::ParenthesizedExpression {
            self.flatten_expr(tree, tree.paren_inner(n))?;
        } else if k == Kind::IfStatement {
            self.walk_if(tree, n)?;
        } else if k == Kind::WhileStatement {
            self.walk_while(tree, n)?;
        } else if k == Kind::DoStatement {
            self.walk_do_while(tree, n)?;
        } else if k == Kind::ForStatement {
            self.walk_for(tree, n)?;
        } else if k == Kind::SwitchStatement {
            self.walk_switch(tree, n)?;
        } else if k == Kind::ReturnStatement {
            self.walk_return(tree, n)?;
            return Ok(true);
        } else if k == Kind::BreakStatement {
            return self.jump(self.here().break_target, "`break` outside of a switch or loop");
        } else if k == Kind::ContinueStatement {
            return self.jump(self.here().continue_target, "`continue` outside of a loop");
        } else if k == Kind::GotoStatement {
            self.walk_goto(tree, n)?;
        } else if k == Kind::LabeledStatement {
            return self.walk_labeled_statement(tree, n);
        } else if k == Kind::Error {
            self.report_unparsable_construct(tree, n)?;
        } else {
            self.flatten_expr(tree, n)?;
        }
        Ok(false)
    }

    /// Lowers the statements `nodes`, all inside `n`; the answer is whether control does not get
    /// past the last.
    ///
    /// # Errors
    ///
    /// In strict mode, the first report.
    pub fn walk_compound_body(&mut self, tree: &SyntaxTree, n: usize, nodes: &Vec<usize>) -> (r:
        Result<bool, Error>)
        requires
            old(self).ready(),
            n < tree@.len(),
            forall|j: int| 0 <= j < nodes@.len() ==> inside(tree@, n, #[trigger] nodes@[j]),
        ensures
            final(self).ready(),
            grows(old(self)@, final(self)@),
            all_settled(old(self)@, tree@, nodes@) ==> r is Ok,
            (final(self)@, done(r)) == body(tree@, old(self)@, n, nodes@, 0, false),
        decreases rest(tree@, n), 5nat, 0int,
    {
        proof {
            reveal(body);
        }
        let _k = tree.kind(n);
        let mut diverged = false;
        let mut i: usize = 0;
        while i < nodes.len()
            invariant
                self.ready(),
                grows(old(self)@, self@),
                i <= nodes@.len(),
                n < tree@.len() <= usize::MAX,
                forall|j: int| 0 <= j < nodes@.len() ==> inside(tree@, n, #[trigger] nodes@[j]),
                body(tree@, self@, n, nodes@, i as int, diverged) == body(
                    tree@,
                    old(self)@,
                    n,
                    nodes@,
                    0,
                    false,
                ),
            decreases nodes@.len() - i,
        {
            proof {
                reveal(body);
                reveal(statement);
            }
            let c = nodes[i];
            if tree.is_named(c) && tree.kind(c) != Kind::Comment {
                if diverged {
                    let explainer = noted_at(tree, c, "after_diverge::");
                    self.after_divergence(explainer.as_str())?;
                }
                diverged = self.walk_statement(tree, c)?;
            }
            i = i + 1;
        }
        Ok(diverged)
    }

    /// Lowers a body that begins at `sv`, and lets control go on to where `sv` continues.
    ///
    /// # Errors
    ///
    /// In strict mode, the first report.
    pub fn walk_compound_statement(
        &mut self,
        tree: &SyntaxTree,
        n: usize,
        sv: ScopeView,
        nodes: &Vec<usize>,
    ) -> (r: Result<(), Error>)
        requires
            old(self).ready(),
            n < tree@.len(),
            within(old(self)@, sv),
            forall|j: int| 0 <= j < nodes@.len() ==> inside(tree@, n, #[trigger] nodes@[j]),
        ensures
            final(self).ready(),
            grows(old(self)@, final(self)@),
            all_settled(old(self)@, tree@, nodes@) ==> r is Ok,
            (final(self)@, done(r)) == compound(tree@, old(self)@, n, sv, nodes@),
        decreases rest(tree@, n), 7nat, 0int,
    {
        proof {
            reveal(compound);
            reveal(framed_body);
        }
        self.move_to(sv);
        if self.walk_framed_body(tree, n, nodes)? {
            return Ok(());
        }
        self.link_end(self.here().blidx, sv.continuation_blidx)
    }

    /// Jumps to `target`, if there is one; the answer is whether there was.
    ///
    /// # Errors
    ///
    /// In strict mode, the report that there is none.
    fn jump(&mut self, target: Option<usize>, stray: &str) -> (r: Result<bool, Error>)
        requires
            old(self).ready(),
            target_in(old(self)@, target),
        ensures
            final(self).ready(),
            grows(old(self)@, final(self)@),
            !old(self)@.env.strict ==> r is Ok,
            (final(self)@, done(r)) == jump(old(self)@, target, stray@),
    {
        proof {
            reveal(jump);
        }
        match target {
            Some(b) => {
                self.link(self.here().blidx, b)?;
                Ok(true)
            },
            None => {
                self.recoverable_report(Attribution::SourceProblem, String::from_str(stray))?;
                Ok(false)
            },
        }
    }

    fn walk_declaration(&mut self, tree: &SyntaxTree, n: usize) -> (r: Result<(), Error>)
        requires
            old(self).ready(),
            n < tree@.len(),
        ensures
            final(self).ready(),
            grows(old(self)@, final(self)@),
            settled_within(old(self)@, tree@, n) ==> r is Ok,
            (final(self)@, done(r)) == declaration(
                tree@,
                old(self)@,
                n,
                field_children(tree@, n, Field::Declarator),
                0,
            ),
        decreases rest(tree@, n), 80nat, 0int,
    {
        proof {
            reveal(declaration);
        }
        let _k = tree.kind(n);
        let nodes = tree.field_children(n, Field::Declarator);
        let mut i: usize = 0;
        while i < nodes.len()
            invariant
                self.ready(),
                grows(old(self)@, self@),
                i <= nodes@.len(),
                n < tree@.len() <= usize::MAX,
                nodes@ == field_children(tree@, n, Field::Declarator),
                forall|j: int| 0 <= j < nodes@.len() ==> inside(tree@, n, #[trigger] nodes@[j]),
                declaration(tree@, self@, n, nodes@, i as int) == declaration(
                    tree@,
                    old(self)@,
                    n,
                    nodes@,
                    0,
                ),
            decreases nodes@.len() - i,
        {
            proof {
                reveal(declaration);
                reveal(declared);
                reveal(reference);
                reveal(expr);
            }
            let d = nodes[i];
            let k = tree.kind(d);
            self.declare_object(tree, n, d);
            if k == Kind::InitDeclarator && tree.kind(tree.part(d, Field::Declarator))
                == Kind::ReferenceDeclarator {
                self.bind_reference(tree, n, d)?;
            } else if k == Kind::InitDeclarator {
                self.declare_variable(tree, n, d, tree.part(d, Field::Declarator))?;
            } else if k == Kind::Identifier {
                self.declare_variable(tree, n, d, d)?;
            } else if k == Kind::FunctionDeclarator || k == Kind::PointerDeclarator || k
                == Kind::ParenthesizedDeclarator || k == Kind::ArrayDeclarator {
                self.flatten_expr(tree, d)?;
            } else if k != Kind::GnuAsmExpression {
                let message = joined(
                    "Declaration declarator had an unexpected kind ",
                    tree.kind_name(d),
                );
                self.recoverable_report(Attribution::FrontendGap, message)?;
            }
            i = i + 1;
        }
        Ok(())
    }

    fn declare_variable(&mut self, tree: &SyntaxTree, n: usize, d: usize, ident: usize) -> (r:
        Result<(), Error>)
        requires
            old(self).ready(),
            n < tree@.len(),
            inside(tree@, n, d),
            inside(tree@, n, ident),
        ensures
            final(self).ready(),
            grows(old(self)@, final(self)@),
            !old(self)@.env.strict && labels_known(old(self)@.labels, tree@, ident)
                && settled_within(old(self)@, tree@, d) ==> r is Ok,
            (final(self)@, done(r)) == declared(tree@, old(self)@, n, d, ident),
        decreases rest(tree@, n), 70nat, 0int,
    {
        proof {
            reveal(declared);
            reveal(initializer);
            reveal(assignment);
        }
        let name = tree.text(ident);
        self.declare(name, VarKind::Local);
        let is_union = match tree.field(n, Field::Type) {
            Some(ty) => tree.kind(ty) == Kind::UnionSpecifier,
            None => false,
        };
        if is_union && tree.kind(ident) == Kind::Identifier {
            let p = self.build_access_path(name);
            self.add_union(p.base);
        }
        match tree.field(d, Field::Value) {
            Some(v) => {
                if tree.kind(v) == Kind::InitializerList {
                    self.collect_initializer_list(tree, n, ident, v)
                } else {
                    self.collect_assignment(tree, n, ident, v, None)?;
                    Ok(())
                }
            },
            None => Ok(()),
        }
    }

    fn walk_return(&mut self, tree: &SyntaxTree, n: usize) -> (r: Result<(), Error>)
        requires
            old(self).ready(),
            n < tree@.len(),
        ensures
            final(self).ready(),
            grows(old(self)@, final(self)@),
            settled_within(old(self)@, tree@, n) ==> r is Ok,
            (final(self)@, done(r)) == return_from(tree@, old(self)@, n),
        decreases rest(tree@, n), 80nat, 0int,
    {
        proof {
            reveal(return_from);
            reveal(expr);
        }
        if let Some(c) = tree.child(n, 1) {
            if tree.kind(c) != Kind::Semicolon {
                let v = self.flatten_expr(tree, c)?;
                let ghost ev = v@;
                let mut args: Vec<Exp> = Vec::new();
                args.push(v);
                assert(crate::collections::views(args@) =~= seq![ev]);
                self.terminate(self.here().blidx, Terminator::Return(args));
                return Ok(());
            }
        }
        self.implicit_return(self.here().blidx);
        Ok(())
    }

    fn walk_while(&mut self, tree: &SyntaxTree, n: usize) -> (r: Result<(), Error>)
        requires
            old(self).ready(),
            n < tree@.len(),
            tree@[n as int].kind == Kind::WhileStatement,
        ensures
            final(self).ready(),
            grows(old(self)@, final(self)@),
            settled_within(old(self)@, tree@, n) ==> r is Ok,
            (final(self)@, done(r)) == while_loop(tree@, old(self)@, n),
        decreases rest(tree@, n), 80nat, 0int,
    {
        proof {
            reveal(while_loop);
            reveal(compound);
        }
        let _k = tree.kind(n);
        let cond = condition_expr(tree, n);
        let inner = tree.part(n, Field::Body);
        let test = self.add_block(block_node(tree, cond), true, "while_condition")?;
        let after = self.add_block(false, false, "Continuation")?;
        let test = ScopeView { continuation_blidx: Some(after.blidx), ..test };
        self.walk_compound_statement(tree, n, test, &body_of(tree, n, cond))?;
        self.move_to(test);
        let b = self.add_block(block_node(tree, inner), true, "while_body")?;
        let b = ScopeView {
            continuation_blidx: Some(test.blidx),
            break_target: Some(after.blidx),
            continue_target: Some(test.blidx),
            ..b
        };
        self.walk_compound_statement(tree, n, b, &body_of(tree, n, inner))?;
        self.move_to(after);
        Ok(())
    }

    fn walk_do_while(&mut self, tree: &SyntaxTree, n: usize) -> (r: Result<(), Error>)
        requires
            old(self).ready(),
            n < tree@.len(),
            tree@[n as int].kind == Kind::DoStatement,
        ensures
            final(self).ready(),
            grows(old(self)@, final(self)@),
            settled_within(old(self)@, tree@, n) ==> r is Ok,
            (final(self)@, done(r)) == do_loop(tree@, old(self)@, n),
        decreases rest(tree@, n), 80nat, 0int,
    {
        proof {
            reveal(do_loop);
            reveal(compound);
        }
        let _k = tree.kind(n);
        let cond = tree.part(n, Field::Condition);
        let inner = tree.part(n, Field::Body);
        let here = self.here();
        let b = self.add_block(block_node(tree, inner), true, "do_while_body")?;
        self.move_to(b);
        let test = self.add_block(block_node(tree, cond), false, "while_condition")?;
        self.move_to(here);
        let after = self.add_block(false, false, "Continuation")?;
        let test = ScopeView { continuation_blidx: Some(after.blidx), ..test };
        self.walk_compound_statement(tree, n, test, &body_of(tree, n, cond))?;
        self.link(test.blidx, b.blidx)?;
        let b = ScopeView {
            continuation_blidx: Some(test.blidx),
            break_target: Some(after.blidx),
            continue_target: Some(test.blidx),
            ..b
        };
        self.walk_compound_statement(tree, n, b, &body_of(tree, n, inner))?;
        self.move_to(after);
        Ok(())
    }

    fn walk_for(&mut self, tree: &SyntaxTree, n: usize) -> (r: Result<(), Error>)
        requires
            old(self).ready(),
            n < tree@.len(),
            tree@[n as int].kind == Kind::ForStatement,
        ensures
            final(self).ready(),
            grows(old(self)@, final(self)@),
            settled_within(old(self)@, tree@, n) ==> r is Ok,
            (final(self)@, done(r)) == for_loop(tree@, old(self)@, n),
        decreases rest(tree@, n), 80nat, 0int,
    {
        proof {
            reveal(for_loop);
            reveal(compound);
        }
        let _k = tree.kind(n);
        let init = for_clause(tree, n, Field::Initializer);
        let cond = for_clause(tree, n, Field::Condition);
        let step = for_clause(tree, n, Field::Update);
        if init.is_none() || cond.is_none() || step.is_none() {
            let mut message = String::from_str("for statement at line ");
            message.append(crate::text::successor(tree.line(n)).as_str());
            message.append(" has no parsable clauses");
            return self.recoverable_report(Attribution::SourceProblem, message);
        }
        let init = init.unwrap();
        let cond = cond.unwrap();
        let step = step.unwrap();
        let inner = tree.part(n, Field::Body);
        let s = self.open_scope(String::from_str("for_loop"));
        self.move_to(s);
        let first = self.add_block(false, true, "for_initializer_block")?;
        self.move_to(first);
        let b = self.add_block(false, false, "for_body")?;
        self.move_to(b);
        let next = self.add_block(false, false, "for_update")?;
        self.move_to(next);
        let test = self.add_block(false, false, "for_condition")?;
        self.move_to(test);
        let after = self.add_block(false, false, "for_Continuation")?;
        let test = ScopeView { continuation_blidx: Some(b.blidx), ..test };
        let first = ScopeView { continuation_blidx: Some(test.blidx), ..first };
        let next = ScopeView { continuation_blidx: Some(test.blidx), ..next };
        let b = ScopeView {
            continuation_blidx: Some(next.blidx),
            break_target: Some(after.blidx),
            continue_target: Some(next.blidx),
            ..b
        };
        self.walk_compound_statement(tree, n, first, &body_of(tree, n, init))?;
        self.walk_compound_statement(tree, n, test, &body_of(tree, n, cond))?;
        self.link(test.blidx, after.blidx)?;
        self.walk_compound_statement(tree, n, b, &body_of(tree, n, inner))?;
        self.walk_compound_statement(tree, n, next, &body_of(tree, n, step))?;
        self.move_to(after);
        Ok(())
    }

    fn walk_switch(&mut self, tree: &SyntaxTree, n: usize) -> (r: Result<(), Error>)
        requires
            old(self).ready(),
            n < tree@.len(),
            tree@[n as int].kind == Kind::SwitchStatement,
        ensures
            final(self).ready(),
            grows(old(self)@, final(self)@),
            settled_within(old(self)@, tree@, n) ==> r is Ok,
            (final(self)@, done(r)) == switch(tree@, old(self)@, n),
        decreases rest(tree@, n), 80nat, 0int,
    {
        proof {
            reveal(switch);
            reveal(expr);
            reveal(switch_arms);
        }
        let _k = tree.kind(n);
        let inner = tree.part(n, Field::Body);
        let nodes = tree.kids_of_kind(inner, Kind::CaseStatement);
        assert forall|j: int| 0 <= j < nodes@.len() implies inside(
            tree@,
            n,
            #[trigger] nodes@[j],
        ) by {
            assert(inside(tree@, inner, nodes@[j]));
        }
        self.flatten_expr(tree, condition_expr(tree, n))?;
        let explainer = noted_at(tree, n, "switch_continuation(of)::");
        let after = self.add_block(false, false, explainer.as_str())?;
        let arms = self.add_arms(tree, n, nodes.len())?;
        self.link_arms(&arms)?;
        if !any_default(tree, n, &nodes) {
            self.link(self.here().blidx, after.blidx)?;
        }
        self.walk_switch_arms(tree, n, &nodes, &arms, after.blidx)?;
        self.move_to(after);
        Ok(())
    }

    /// Adds one block per arm of a `switch`.
    fn add_arms(&mut self, tree: &SyntaxTree, n: usize, count: usize) -> (r: Result<
        Vec<ScopeView>,
        Error,
    >)
        requires
            old(self).ready(),
            n < tree@.len(),
        ensures
            final(self).ready(),
            grows(old(self)@, final(self)@),
            !old(self)@.env.strict ==> r is Ok,
            final(self)@.at == old(self)@.at,
            (final(self)@, match r {
                Ok(arms) => Ok(arms@),
                Err(e) => Err(e@),
            }) == arm_blocks(tree@, old(self)@, n, count as nat, 0, Seq::empty()),
            r matches Ok(arms) ==> arms@.len() == count && forall|j: int|
                0 <= j < arms@.len() ==> within(final(self)@, #[trigger] arms@[j]),
    {
        let mut arms: Vec<ScopeView> = Vec::new();
        assert(arms@ =~= Seq::<ScopeView>::empty());
        let mut i: usize = 0;
        while i < count
            invariant
                self.ready(),
                grows(old(self)@, self@),
                self@.at == old(self)@.at,
                n < tree@.len(),
                i <= count,
                arms@.len() == i,
                forall|j: int| 0 <= j < arms@.len() ==> within(self@, #[trigger] arms@[j]),
                arm_blocks(tree@, self@, n, count as nat, i as nat, arms@) == arm_blocks(
                    tree@,
                    old(self)@,
                    n,
                    count as nat,
                    0,
                    Seq::empty(),
                ),
            decreases count - i,
        {
            let mut explainer = joined("switch_case", decimal(i).as_str());
            explainer.append("(of)::");
            explainer.append(decimal(tree.line(n)).as_str());
            let sv = self.add_block(false, false, explainer.as_str())?;
            arms.push(sv);
            i = i + 1;
        }
        Ok(arms)
    }

    /// Lets control go from the current block to every arm.
    fn link_arms(&mut self, arms: &Vec<ScopeView>) -> (r: Result<(), Error>)
        requires
            old(self).ready(),
            forall|j: int| 0 <= j < arms@.len() ==> within(old(self)@, #[trigger] arms@[j]),
        ensures
            final(self).ready(),
            grows(old(self)@, final(self)@),
            !old(self)@.env.strict ==> r is Ok,
            final(self)@.at == old(self)@.at,
            (final(self)@, done(r)) == link_arms(old(self)@, arms@, 0),
    {
        let mut i: usize = 0;
        while i < arms.len()
            invariant
                self.ready(),
                grows(old(self)@, self@),
                self@.at == old(self)@.at,
                i <= arms@.len(),
                forall|j: int| 0 <= j < arms@.len() ==> within(old(self)@, #[trigger] arms@[j]),
                link_arms(self@, arms@, i as int) == link_arms(old(self)@, arms@, 0),
            decreases arms@.len() - i,
        {
            assert(within(old(self)@, arms@[i as int]));
            self.link(self.here().blidx, arms[i].blidx)?;
            i = i + 1;
        }
        Ok(())
    }

    fn walk_switch_arms(
        &mut self,
        tree: &SyntaxTree,
        n: usize,
        nodes: &Vec<usize>,
        arms: &Vec<ScopeView>,
        after: usize,
    ) -> (r: Result<(), Error>)
        requires
            old(self).ready(),
            n < tree@.len(),
            forall|j: int|
                0 <= j < nodes@.len() ==> inside(tree@, n, #[trigger] nodes@[j])
                    && tree@[nodes@[j] as int].kind == Kind::CaseStatement,
            arms@.len() == nodes@.len(),
            forall|j: int| 0 <= j < arms@.len() ==> within(old(self)@, #[trigger] arms@[j]),
            after < old(self)@.fun.blocks.len(),
        ensures
            final(self).ready(),
            grows(old(self)@, final(self)@),
            all_settled(old(self)@, tree@, nodes@) ==> r is Ok,
            (final(self)@, done(r)) == switch_arms(
                tree@,
                old(self)@,
                n,
                nodes@,
                arms@,
                after,
                0,
            ),
        decreases rest(tree@, n), 70nat, 0int,
    {
        proof {
            reveal(switch_arms);
        }
        let _k = tree.kind(n);
        let mut i: usize = 0;
        while i < nodes.len()
            invariant
                self.ready(),
                grows(old(self)@, self@),
                i <= nodes@.len(),
                n < tree@.len() <= usize::MAX,
                forall|j: int|
                    0 <= j < nodes@.len() ==> inside(tree@, n, #[trigger] nodes@[j])
                        && tree@[nodes@[j] as int].kind == Kind::CaseStatement,
                arms@.len() == nodes@.len(),
                forall|j: int| 0 <= j < arms@.len() ==> within(old(self)@, #[trigger] arms@[j]),
                after < old(self)@.fun.blocks.len(),
                switch_arms(tree@, self@, n, nodes@, arms@, after, i as int) == switch_arms(
                    tree@,
                    old(self)@,
                    n,
                    nodes@,
                    arms@,
                    after,
                    0,
                ),
            decreases nodes@.len() - i,
        {
            proof {
                reveal(switch_arms);
                reveal(compound);
            }
            let arm = nodes[i];
            let target: usize = if i + 1 < arms.len() {
                assert(within(old(self)@, arms@[i + 1]));
                arms[i + 1].blidx
            } else {
                after
            };
            assert(within(old(self)@, arms@[i as int]));
            let sv = ScopeView {
                continuation_blidx: Some(target),
                break_target: Some(after),
                ..arms[i]
            };
            let named = tree.named_children(arm);
            let list = without(&named, tree.field(arm, Field::Value));
            assert forall|j: int| 0 <= j < list@.len() implies inside(
                tree@,
                arm,
                #[trigger] list@[j],
            ) by {
                assert(named@.contains(list@[j]));
                let m = choose|m: int| 0 <= m < named@.len() && named@[m] == list@[j];
                assert(inside(tree@, arm, named@[m]));
            }
            assert(shares(tree@, arm, list@)) by {
                assert forall|labels: Map<Seq<char>, usize>, j: int|
                    #![trigger labels_known(labels, tree@, arm), list@[j]]
                    0 <= j < list@.len() && labels_known(labels, tree@, arm) implies labels_known(
                    labels,
                    tree@,
                    list@[j],
                ) by {
                    assert(named@.contains(list@[j]));
                }
            }
            assert(all_settled(old(self)@, tree@, nodes@) ==> labels_known(
                self@.labels,
                tree@,
                arm,
            ));
            self.walk_compound_statement(tree, arm, sv, &list)?;
            i = i + 1;
        }
        Ok(())
    }

    fn walk_goto(&mut self, tree: &SyntaxTree, n: usize) -> (r: Result<(), Error>)
        requires
            old(self).ready(),
            n < tree@.len(),
            tree@[n as int].kind == Kind::GotoStatement,
        ensures
            final(self).ready(),
            grows(old(self)@, final(self)@),
            !old(self)@.env.strict ==> r is Ok,
            (final(self)@, done(r)) == goto(tree@, old(self)@, n),
    {
        proof {
            reveal(goto);
        }
        let label = tree.text(tree.part(n, Field::Label));
        match self.label_block(label) {
            Some(b) => {
                self.link(self.here().blidx, b)?;
                let explainer = noted_at(tree, n, "after_goto::");
                self.after_divergence(explainer.as_str())
            },
            None => {
                let mut message = joined("`goto` to undefined label `", label);
                message.append("`");
                self.recoverable_report(Attribution::SourceProblem, message)
            },
        }
    }

    fn walk_labeled_statement(&mut self, tree: &SyntaxTree, n: usize) -> (r: Result<bool, Error>)
        requires
            old(self).ready(),
            n < tree@.len(),
            tree@[n as int].kind == Kind::LabeledStatement,
        ensures
            final(self).ready(),
            grows(old(self)@, final(self)@),
            settled_within(old(self)@, tree@, n) ==> r is Ok,
            (final(self)@, done(r)) == labeled(tree@, old(self)@, n),
        decreases rest(tree@, n), 80nat, 0int,
    {
        proof {
            reveal(labeled);
            reveal(statements);
        }
        let _k = tree.kind(n);
        let node = tree.part(n, Field::Label);
        let label = tree.text(node);
        let b = match self.label_block(label) {
            Some(b) => b,
            None => {
                proof {
                    if settled_within(old(self)@, tree@, n) {
                        a_known_label_has_a_block(old(self)@.labels, tree@, n);
                    }
                }
                return Err(Error::TreeSitterParse(joined("label without a block: ", label)));
            },
        };
        self.enter_label(b);
        self.link(self.here().blidx, b)?;
        let sv = ScopeView { blidx: b, ..self.here() };
        self.move_to(sv);
        let named = tree.named_children(n);
        let list = without(&named, Some(node));
        assert forall|j: int| 0 <= j < list@.len() implies inside(
            tree@,
            n,
            #[trigger] list@[j],
        ) by {
            assert(named@.contains(list@[j]));
            let m = choose|m: int| 0 <= m < named@.len() && named@[m] == list@[j];
            assert(inside(tree@, n, named@[m]));
        }
        assert forall|j: int|
            0 <= j < list@.len() && settled_within(old(self)@, tree@, n) implies #[trigger] labels_known(
            old(self)@.labels,
            tree@,
            list@[j],
        ) by {
            assert(named@.contains(list@[j]));
        }
        self.walk_statements(tree, n, &list)
    }

    fn walk_statements(&mut self, tree: &SyntaxTree, n: usize, nodes: &Vec<usize>) -> (r: Result<
        bool,
        Error,
    >)
        requires
            old(self).ready(),
            n < tree@.len(),
            forall|j: int| 0 <= j < nodes@.len() ==> inside(tree@, n, #[trigger] nodes@[j]),
        ensures
            final(self).ready(),
            grows(old(self)@, final(self)@),
            all_settled(old(self)@, tree@, nodes@) ==> r is Ok,
            (final(self)@, done(r)) == statements(tree@, old(self)@, n, nodes@, 0),
        decreases rest(tree@, n), 5nat, 0int,
    {
        proof {
            reveal(statements);
        }
        let _k = tree.kind(n);
        let mut i: usize = 0;
        while i < nodes.len()
            invariant
                self.ready(),
                grows(old(self)@, self@),
                i <= nodes@.len(),
                n < tree@.len() <= usize::MAX,
                forall|j: int| 0 <= j < nodes@.len() ==> inside(tree@, n, #[trigger] nodes@[j]),
                statements(tree@, self@, n, nodes@, i as int) == statements(
                    tree@,
                    old(self)@,
                    n,
                    nodes@,
                    0,
                ),
            decreases nodes@.len() - i,
        {
            proof {
                reveal(statements);
                reveal(statement);
            }
            if self.walk_statement(tree, nodes[i])? {
                return Ok(true);
            }
            i = i + 1;
        }
        Ok(false)
    }

    fn walk_if(&mut self, tree: &SyntaxTree, n: usize) -> (r: Result<(), Error>)
        requires
            old(self).ready(),
            n < tree@.len(),
            tree@[n as int].kind == Kind::IfStatement,
        ensures
            final(self).ready(),
            grows(old(self)@, final(self)@),
            settled_within(old(self)@, tree@, n) ==> r is Ok,
            (final(self)@, done(r)) == if_else(tree@, old(self)@, n),
        decreases rest(tree@, n), 80nat, 0int,
    {
        proof {
            reveal(if_else);
            reveal(expr);
            reveal(compound);
            reveal(else_branch);
        }
        let _k = tree.kind(n);
        let yes = tree.part(n, Field::Consequence);
        self.flatten_expr(tree, condition_expr(tree, n))?;
        let here = self.here();
        let explainer = noted_at(tree, n, "if_consequence(of)::");
        let sv = self.add_block(block_node(tree, yes), true, explainer.as_str())?;
        let explainer = noted_at(tree, n, "if_continuation(of)::");
        let after = self.add_block(false, false, explainer.as_str())?;
        let sv = ScopeView { continuation_blidx: Some(after.blidx), ..sv };
        self.walk_compound_statement(tree, n, sv, &body_of(tree, n, yes))?;
        match tree.field(n, Field::Alternative) {
            Some(alt) => {
                if let Some(no) = tree.first_named_child(alt) {
                    self.move_to(here);
                    self.walk_else(tree, n, no, after.blidx)?;
                }
            },
            None => {
                self.link(here.blidx, after.blidx)?;
            },
        }
        self.move_to(after);
        Ok(())
    }

    fn walk_else(&mut self, tree: &SyntaxTree, n: usize, no: usize, after: usize) -> (r: Result<
        (),
        Error,
    >)
        requires
            old(self).ready(),
            n < tree@.len(),
            inside(tree@, n, no),
            after < old(self)@.fun.blocks.len(),
        ensures
            final(self).ready(),
            grows(old(self)@, final(self)@),
            !old(self)@.env.strict && labels_known(old(self)@.labels, tree@, no) ==> r is Ok,
            (final(self)@, done(r)) == else_branch(tree@, old(self)@, n, no, after),
        decreases rest(tree@, n), 70nat, 0int,
    {
        proof {
            reveal(else_branch);
            reveal(if_else);
            reveal(compound);
        }
        if tree.kind(no) == Kind::IfStatement {
            let sv = self.add_block(false, true, "if")?;
            self.move_to(ScopeView { continuation_blidx: Some(after), ..sv });
            self.walk_if(tree, no)?;
            self.link_end(self.here().blidx, self.here().continuation_blidx)
        } else {
            let sv = self.add_block(block_node(tree, no), true, "alternative")?;
            let sv = ScopeView { continuation_blidx: Some(after), ..sv };
            self.walk_compound_statement(tree, n, sv, &body_of(tree, n, no))
        }
    }
}

/// Whether one of the arms is the default.
fn any_default(tree: &SyntaxTree, n: usize, nodes: &Vec<usize>) -> (b: bool)
    requires
        forall|j: int| 0 <= j < nodes@.len() ==> inside(tree@, n, #[trigger] nodes@[j]),
    ensures
        b == has_default(tree@, nodes@, 0),
{
    let mut i: usize = 0;
    while i < nodes.len()
        invariant
            i <= nodes@.len(),
            forall|j: int| 0 <= j < nodes@.len() ==> inside(tree@, n, #[trigger] nodes@[j]),
            has_default(tree@, nodes@, i as int) == has_default(tree@, nodes@, 0),
        decreases nodes@.len() - i,
    {
        if tree.field(nodes[i], Field::Value).is_none() {
            return true;
        }
        i = i + 1;
    }
    false
}

} // verus!
