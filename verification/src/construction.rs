//! Lowering what C++ does with objects: constructing and destroying them, and calling their methods.

use vstd::prelude::*;
use crate::labels::{all_settled, group_known, labels_known, settled_within};
use crate::classes::{delete_targets, exact_destructor, method_targets, overload_name, qualified_name, resolve_method_class};
use crate::collections::views;
use crate::error::Error;
use crate::kinds::{Field, Kind};
use crate::lowering::{allocated, called, class_named, condition, construction, constructed, ctor_call, declarator_leaf, delete, destroyed, expr, exprs, framed_body, has_ctor, heap_object, location, method_at, method_call, method_of, object_declared, object_place, object_typed, opaque_value, receiver, receiver_class, reference, returns_receiver, run, scope_exit, through_call, type_text, vexing_argument, vexing_arguments};
use crate::mir::{CallStyle, Exp, ExpView, RawPath, StatementKind, VariableRef};
use crate::scope::VarKind;
use crate::shapes::{declaration_type_tag, unparenthesized_callee};
use crate::state::{declare, done, emit, fresh, grows, listed, maybe, read, seen, Context};
use crate::syntax::{inside, kids_of_kind, named_children, paren_inner, part, rest, SyntaxTree};
use crate::text::same;

verus! {

broadcast use {crate::collections::group_views, group_known};

/// The expression that the condition of an `if`, a `while` or a `switch` is: without the clause that
/// the C++ grammar puts around it.
pub fn condition_expr(tree: &SyntaxTree, n: usize) -> (c: usize)
    requires
        n < tree@.len(),
        crate::syntax::has_part(tree@[n as int].kind, Field::Condition),
    ensures
        c == condition(tree@, n),
        inside(tree@, n, c),
{
    let c = tree.part(n, Field::Condition);
    match tree.field(c, Field::Value) {
        Some(v) => v,
        None => c,
    }
}

fn declared_type(tree: &SyntaxTree, n: usize) -> (s: Option<String>)
    requires
        n < tree@.len(),
    ensures
        match s {
            Some(s) => type_text(tree@, n) == Some(s@),
            None => type_text(tree@, n) is None,
        },
{
    if let Some(tag) = declaration_type_tag(tree, n) {
        return Some(String::from_str(tag));
    }
    match tree.field(n, Field::Type) {
        Some(ty) => if tree.kind(ty) == Kind::QualifiedIdentifier {
            Some(String::from_str(tree.text(ty)))
        } else {
            None
        },
        None => None,
    }
}

/// The object and the name of the method that a call of the form `object.method(..)` has.
fn called_method(tree: &SyntaxTree, n: usize) -> (m: Option<(usize, String)>)
    requires
        n < tree@.len(),
        tree@[n as int].kind == Kind::CallExpression,
    ensures
        match m {
            Some(m) => method_of(tree@, n) == Some((m.0, m.1@)) && inside(tree@, n, m.0),
            None => method_of(tree@, n) is None,
        },
{
    let callee = unparenthesized_callee(tree, tree.part(n, Field::Function));
    if tree.kind(callee) != Kind::FieldExpression {
        return None;
    }
    let member = tree.part(callee, Field::Member);
    if tree.kind(member) != Kind::FieldIdentifier {
        return None;
    }
    Some((tree.part(callee, Field::Argument), String::from_str(tree.text(member))))
}

/// Whether the object that `n` is has to be computed by a call.
fn needs_call(tree: &SyntaxTree, n: usize) -> (b: bool)
    requires
        n < tree@.len(),
    ensures
        b == through_call(tree@, n),
    decreases rest(tree@, n),
{
    let k = tree.kind(n);
    if k == Kind::CallExpression {
        true
    } else if k == Kind::ParenthesizedExpression {
        needs_call(tree, tree.paren_inner(n))
    } else if k == Kind::PointerExpression {
        needs_call(tree, tree.part(n, Field::Argument))
    } else {
        false
    }
}

/// `first` before the rest.
fn with_first(first: Exp, others: Vec<Exp>) -> (v: Vec<Exp>)
    ensures
        views(v@) == seq![first@] + views(others@),
{
    let mut others = others;
    let ghost ov = others@;
    let mut v: Vec<Exp> = Vec::new();
    v.push(first);
    v.append(&mut others);
    assert(v@ =~= seq![first] + ov);
    assert(views(v@) =~= seq![first@] + views(ov));
    v
}

impl<'a> Context<'a> {
    /// The class that the type of a declaration names, if it names one that is known.
    pub fn class_named(&self, tree: &SyntaxTree, n: usize) -> (c: Option<String>)
        requires
            n < tree@.len(),
        ensures
            match c {
                Some(c) => class_named(tree@, self@, n) == Some(c@),
                None => class_named(tree@, self@, n) is None,
            },
    {
        match declared_type(tree, n) {
            Some(name) => if self.tables().classes.get(name.as_str()).is_some() {
                Some(name)
            } else {
                None
            },
            None => None,
        }
    }

    /// Records the class of the variable `name` that declaration `n` declares, if it has one.
    pub fn type_object(&mut self, tree: &SyntaxTree, n: usize, name: &str)
        requires
            old(self).ready(),
            n < tree@.len(),
        ensures
            final(self).ready(),
            grows(old(self)@, final(self)@),
            final(self)@ == object_typed(tree@, old(self)@, n, name@),
            final(self)@.at == old(self)@.at,
            final(self)@.fun == old(self)@.fun,
    {
        if let Some(class) = self.class_named(tree, n) {
            self.set_type(name, class.as_str());
        }
    }

    /// Records what the declarator `d` of declaration `n` declares, if it is an object of a class or
    /// points at one.
    pub fn declare_object(&mut self, tree: &SyntaxTree, n: usize, d: usize)
        requires
            old(self).ready(),
            n < tree@.len(),
            d < tree@.len(),
        ensures
            final(self).ready(),
            grows(old(self)@, final(self)@),
            final(self)@ == object_declared(tree@, old(self)@, n, d),
    {
        proof {
            reveal(object_declared);
        }
        if let Some(class) = self.class_named(tree, n) {
            if let Some(leaf) = declarator_leaf(tree, d) {
                let name = tree.text(leaf);
                let k = tree.kind(d);
                let direct = k == Kind::Identifier || (k == Kind::InitDeclarator && tree.kind(
                    tree.part(d, Field::Declarator),
                ) == Kind::Identifier);
                self.set_type(name, class.as_str());
                if direct {
                    self.record(name, class.as_str());
                }
            }
        }
    }

    /// Makes a call of which only the effects count.
    fn run(&mut self, targets: Vec<String>, args: Vec<Exp>)
        requires
            old(self).ready(),
        ensures
            final(self).ready(),
            grows(old(self)@, final(self)@),
            final(self)@ == run(old(self)@, views(targets@), views(args@)),
    {
        let v = self.fresh();
        let mut rets: Vec<VariableRef> = Vec::new();
        rets.push(v);
        assert(rets@ =~= seq![v]);
        self.emit(
            StatementKind::CallAssign { style: CallStyle::DirectCall(targets), rets, args },
        );
    }

    /// Calls the constructor of `class` with as many parameters as there are arguments, for the
    /// object `obj`, which is the first argument.
    fn emit_ctor_call(&mut self, class: &str, obj: &str, args: Vec<Exp>)
        requires
            old(self).ready(),
        ensures
            final(self).ready(),
            grows(old(self)@, final(self)@),
            final(self)@ == ctor_call(old(self)@, class@, obj@, views(args@)),
    {
        proof {
            reveal(ctor_call);
        }
        let p = self.build_access_path(obj);
        let recv = self.read(&p);
        let full = qualified_name(class, class);
        let target = overload_name(&self.tables().overloads, full.as_str(), args.len());
        let mut targets: Vec<String> = Vec::new();
        targets.push(target);
        assert(views(targets@) =~= seq![target@]);
        self.run(targets, with_first(recv, args));
    }

    /// Declares the object `obj` of the class `class` in the current scope, and constructs it.
    fn emit_construction(&mut self, class: &str, obj: &str, args: Vec<Exp>)
        requires
            old(self).ready(),
        ensures
            final(self).ready(),
            grows(old(self)@, final(self)@),
            final(self)@ == constructed(old(self)@, class@, obj@, views(args@)),
    {
        proof {
            reveal(constructed);
        }
        self.declare(obj, VarKind::Local);
        self.set_type(obj, class);
        self.record(obj, class);
        self.emit_ctor_call(class, obj, args);
    }

    /// Destroys the objects that were made in the current scope, last first.
    fn scope_exit(&mut self)
        requires
            old(self).ready(),
        ensures
            final(self).ready(),
            grows(old(self)@, final(self)@),
            final(self)@ == scope_exit(old(self)@),
    {
        proof {
            reveal(scope_exit);
        }
        let frame = self.objects().here();
        let ghost fv = views(frame@);
        let mut i: usize = frame.len();
        while i > 0
            invariant
                self.ready(),
                grows(old(self)@, self@),
                i <= frame@.len(),
                fv == views(frame@),
                destroyed(self@, fv, i as int) == destroyed(old(self)@, fv, fv.len() as int),
            decreases i,
        {
            let o = &frame[i - 1];
            assert(fv[i - 1] == o@);
            if let Some(target) = exact_destructor(&self.tables().classes, o.class.as_str()) {
                let p = self.build_access_path(o.name.as_str());
                let recv = self.read(&p);
                let ghost rv = recv@;
                let mut targets: Vec<String> = Vec::new();
                targets.push(target);
                assert(views(targets@) =~= seq![target@]);
                let mut args: Vec<Exp> = Vec::new();
                args.push(recv);
                assert(views(args@) =~= seq![rv]);
                self.run(targets, args);
            }
            i = i - 1;
        }
    }

    /// Lowers the statements `nodes`, all inside `n`, of a scope. Where control gets past the last,
    /// the objects made in the scope are destroyed.
    ///
    /// # Errors
    ///
    /// In strict mode, the first report.
    pub fn walk_framed_body(&mut self, tree: &SyntaxTree, n: usize, nodes: &Vec<usize>) -> (r:
        Result<bool, Error>)
        requires
            old(self).ready(),
            n < tree@.len(),
            forall|j: int| 0 <= j < nodes@.len() ==> inside(tree@, n, #[trigger] nodes@[j]),
        ensures
            final(self).ready(),
            grows(old(self)@, final(self)@),
            all_settled(old(self)@, tree@, nodes@) ==> r is Ok,
            (final(self)@, done(r)) == framed_body(tree@, old(self)@, n, nodes@),
        decreases rest(tree@, n), 6nat, 0int,
    {
        proof {
            reveal(framed_body);
            reveal(crate::lowering::body);
        }
        self.push_frame();
        let d = self.walk_compound_body(tree, n, nodes)?;
        if !d {
            self.scope_exit();
        }
        self.pop_frame();
        Ok(d)
    }

    /// The value of a constructor argument that the grammar could only read as the declaration of a
    /// parameter: `Box b(f(), y)` declares a function whose parameters are of the types `f` and `y`.
    ///
    /// # Errors
    ///
    /// If the parameter has no type.
    fn reconstruct_mvp_arg(&mut self, tree: &SyntaxTree, n: usize) -> (r: Result<Exp, Error>)
        requires
            old(self).ready(),
            n < tree@.len(),
            tree@[n as int].kind == Kind::ParameterDeclaration,
        ensures
            final(self).ready(),
            grows(old(self)@, final(self)@),
            r is Ok,
            (final(self)@, seen(r)) == vexing_argument(tree@, old(self)@, n),
        decreases rest(tree@, n), 1nat, 0int,
    {
        proof {
            reveal(vexing_argument);
            reveal(vexing_arguments);
        }
        let _k = tree.kind(n);
        assert(crate::syntax::shape_at(tree@, n));
        assert(crate::syntax::has_part(Kind::ParameterDeclaration, Field::Type));
        let ty = match tree.field(n, Field::Type) {
            Some(ty) => ty,
            None => {
                return Err(
                    Error::TreeSitterParse(
                        String::from_str(
                            "constructor argument parameter_declaration has no type",
                        ),
                    ),
                );
            },
        };
        let name = tree.text(ty);
        if let Some(d) = tree.field(n, Field::Declarator) {
            if tree.kind(d) == Kind::AbstractFunctionDeclarator {
                let inner: Vec<usize> = match tree.field(d, Field::Parameters) {
                    Some(list) => {
                        let v = tree.kids_of_kind(list, Kind::ParameterDeclaration);
                        assert forall|j: int| 0 <= j < v@.len() implies inside(
                            tree@,
                            n,
                            #[trigger] v@[j],
                        ) by {
                            assert(inside(tree@, list, v@[j]));
                        }
                        v
                    },
                    None => {
                        let v: Vec<usize> = Vec::new();
                        assert(v@ =~= Seq::<usize>::empty());
                        v
                    },
                };
                let args = self.reconstruct_mvp_args(tree, n, &inner)?;
                let temp = self.next_temp();
                let ret = self.intern(temp.clone());
                let mut names: Vec<String> = Vec::new();
                names.push(String::from_str(name));
                assert(views(names@) =~= seq![name@]);
                let mut rets: Vec<VariableRef> = Vec::new();
                rets.push(ret);
                assert(rets@ =~= seq![ret]);
                self.emit(
                    StatementKind::CallAssign { style: CallStyle::DirectCall(names), rets, args },
                );
                let p = self.build_access_path(temp.as_str());
                return Ok(self.read(&p));
            }
        }
        let p = self.build_access_path(name);
        Ok(self.read(&p))
    }

    fn reconstruct_mvp_args(&mut self, tree: &SyntaxTree, n: usize, nodes: &Vec<usize>) -> (r:
        Result<Vec<Exp>, Error>)
        requires
            old(self).ready(),
            n < tree@.len(),
            forall|j: int|
                0 <= j < nodes@.len() ==> inside(tree@, n, #[trigger] nodes@[j])
                    && tree@[nodes@[j] as int].kind == Kind::ParameterDeclaration,
        ensures
            final(self).ready(),
            grows(old(self)@, final(self)@),
            r is Ok,
            (final(self)@, listed(r)) == vexing_arguments(
                tree@,
                old(self)@,
                n,
                nodes@,
                0,
                Seq::empty(),
            ),
        decreases rest(tree@, n), 0nat, 0int,
    {
        proof {
            reveal(vexing_arguments);
            reveal(vexing_argument);
        }
        let _k = tree.kind(n);
        let mut values: Vec<Exp> = Vec::new();
        assert(views(values@) =~= Seq::<ExpView>::empty());
        let mut i: usize = 0;
        while i < nodes.len()
            invariant
                self.ready(),
                grows(old(self)@, self@),
                i <= nodes@.len(),
                n < tree@.len() <= usize::MAX,
                forall|j: int|
                    0 <= j < nodes@.len() ==> inside(tree@, n, #[trigger] nodes@[j])
                        && tree@[nodes@[j] as int].kind == Kind::ParameterDeclaration,
                vexing_arguments(tree@, self@, n, nodes@, i as int, views(values@))
                    == vexing_arguments(tree@, old(self)@, n, nodes@, 0, Seq::empty()),
            decreases nodes@.len() - i,
        {
            proof {
                reveal(vexing_arguments);
                reveal(vexing_argument);
            }
            let v = self.reconstruct_mvp_arg(tree, nodes[i])?;
            values.push(v);
            i = i + 1;
        }
        Ok(values)
    }

    /// The class of the object that `n` is or points at, where it is known.
    fn receiver_class(&self, tree: &SyntaxTree, n: usize) -> (c: Option<String>)
        requires
            self.ready(),
            n < tree@.len(),
        ensures
            match c {
                Some(c) => receiver_class(tree@, self@, n) == Some(c@),
                None => receiver_class(tree@, self@, n) is None,
            },
        decreases rest(tree@, n),
    {
        let k = tree.kind(n);
        if k == Kind::Identifier {
            match self.objects().type_of(tree.text(n)) {
                Some(c) => Some(c.clone()),
                None => None,
            }
        } else if k == Kind::This {
            match self.objects().class() {
                Some((class, receiver)) => if receiver {
                    Some(String::from_str(class))
                } else {
                    None
                },
                None => None,
            }
        } else if k == Kind::ParenthesizedExpression {
            self.receiver_class(tree, tree.paren_inner(n))
        } else if k == Kind::PointerExpression {
            self.receiver_class(tree, tree.part(n, Field::Argument))
        } else if k == Kind::CallExpression {
            match called_method(tree, n) {
                Some((object, name)) => match self.receiver_class(tree, object) {
                    Some(class) => if self.returns_receiver(class.as_str(), name.as_str()) {
                        Some(class)
                    } else {
                        None
                    },
                    None => None,
                },
                None => None,
            }
        } else {
            None
        }
    }

    fn returns_receiver(&self, class: &str, name: &str) -> (b: bool)
        ensures
            b == returns_receiver(self@, class@, name@),
    {
        let classes = &self.tables().classes;
        match resolve_method_class(classes, class, name) {
            Some(c) => match classes.get(c.as_str()) {
                Some(info) => info.returns_self.contains(name),
                None => false,
            },
            None => false,
        }
    }

    /// The place of the object that `n` is or points at.
    fn object_place(&mut self, tree: &SyntaxTree, n: usize) -> (p: RawPath)
        requires
            old(self).ready(),
            n < tree@.len(),
        ensures
            final(self).ready(),
            grows(old(self)@, final(self)@),
            (final(self)@, p@) == object_place(tree@, old(self)@, n),
        decreases rest(tree@, n),
    {
        let k = tree.kind(n);
        if k == Kind::This {
            RawPath::of(VariableRef::Param(0))
        } else if k == Kind::ParenthesizedExpression {
            self.object_place(tree, tree.paren_inner(n))
        } else if k == Kind::PointerExpression {
            self.object_place(tree, tree.part(n, Field::Argument))
        } else if k == Kind::CallExpression {
            match called_method(tree, n) {
                Some((object, _)) => self.object_place(tree, object),
                None => self.build_access_path(tree.text(n)),
            }
        } else {
            self.build_access_path(tree.text(n))
        }
    }

    /// The object, its class and the name of the method that a call calls, where they are known.
    pub fn method_at(&self, tree: &SyntaxTree, n: usize) -> (m: Option<(usize, String, String)>)
        requires
            self.ready(),
            n < tree@.len(),
            tree@[n as int].kind == Kind::CallExpression,
        ensures
            match m {
                Some(m) => method_at(tree@, self@, n) == Some((m.0, m.1@, m.2@)) && inside(
                    tree@,
                    n,
                    m.0,
                ),
                None => method_at(tree@, self@, n) is None,
            },
    {
        match called_method(tree, n) {
            Some((object, name)) => match self.receiver_class(tree, object) {
                Some(class) => if resolve_method_class(
                    &self.tables().classes,
                    class.as_str(),
                    name.as_str(),
                ).is_some() {
                    Some((object, class, name))
                } else {
                    None
                },
                None => None,
            },
            None => None,
        }
    }

    /// The object that `n` is or points at, as an operand; the call that yields it is made.
    ///
    /// # Errors
    ///
    /// In strict mode, the first report.
    fn resolve_receiver(&mut self, tree: &SyntaxTree, n: usize) -> (r: Result<Exp, Error>)
        requires
            old(self).ready(),
            n < tree@.len(),
        ensures
            final(self).ready(),
            grows(old(self)@, final(self)@),
            settled_within(old(self)@, tree@, n) ==> r is Ok,
            (final(self)@, seen(r)) == receiver(tree@, old(self)@, n),
        decreases rest(tree@, n), 60nat, 0int,
    {
        proof {
            reveal(receiver);
            reveal(expr);
        }
        if needs_call(tree, n) {
            self.flatten_expr(tree, n)?;
        }
        let p = self.object_place(tree, n);
        Ok(self.read(&p))
    }

    /// Lowers a call of the method `name` on `object`, which is of the class `class`.
    ///
    /// # Errors
    ///
    /// In strict mode, the first report.
    pub fn collect_method_call(
        &mut self,
        tree: &SyntaxTree,
        n: usize,
        object: usize,
        class: &str,
        name: &str,
    ) -> (r: Result<Exp, Error>)
        requires
            old(self).ready(),
            n < tree@.len(),
            tree@[n as int].kind == Kind::CallExpression,
            inside(tree@, n, object),
        ensures
            final(self).ready(),
            grows(old(self)@, final(self)@),
            settled_within(old(self)@, tree@, n) && labels_known(old(self)@.labels, tree@, object) ==> r is Ok,
            (final(self)@, seen(r)) == method_call(
                tree@,
                old(self)@,
                n,
                object,
                class@,
                name@,
            ),
        decreases rest(tree@, n), 40nat, 0int,
    {
        proof {
            reveal(method_call);
            reveal(receiver);
            reveal(exprs);
        }
        let _k = tree.kind(n);
        let temp = self.next_temp();
        let recv = self.resolve_receiver(tree, object)?;
        let list = tree.part(n, Field::Arguments);
        let nodes = tree.named_children(list);
        assert forall|j: int| 0 <= j < nodes@.len() implies inside(
            tree@,
            n,
            #[trigger] nodes@[j],
        ) by {
            assert(inside(tree@, list, nodes@[j]));
        }
        let args = self.flatten_exprs(tree, n, &nodes)?;
        let tables = self.tables();
        let targets: Vec<String> = match method_targets(
            &tables.classes,
            &tables.subclasses,
            &tables.overloads,
            class,
            name,
            args.len(),
        ) {
            Some(v) => v,
            None => {
                let v: Vec<String> = Vec::new();
                assert(views(v@) =~= Seq::<Seq<char>>::empty());
                v
            },
        };
        Ok(self.called(CallStyle::DirectCall(targets), with_first(recv, args), temp))
    }

    /// Lowers a `delete`: the destructors that it may run are called on the object.
    ///
    /// # Errors
    ///
    /// In strict mode, the first report.
    pub fn lower_delete(&mut self, tree: &SyntaxTree, n: usize) -> (r: Result<Exp, Error>)
        requires
            old(self).ready(),
            n < tree@.len(),
        ensures
            final(self).ready(),
            grows(old(self)@, final(self)@),
            settled_within(old(self)@, tree@, n) ==> r is Ok,
            (final(self)@, seen(r)) == delete(tree@, old(self)@, n),
        decreases rest(tree@, n), 40nat, 0int,
    {
        proof {
            reveal(delete);
            reveal(receiver);
        }
        let _k = tree.kind(n);
        if let Some(c) = tree.named_child(n, 0) {
            if let Some(class) = self.receiver_class(tree, c) {
                let recv = self.resolve_receiver(tree, c)?;
                let ghost rv = recv@;
                let tables = self.tables();
                if let Some(targets) = delete_targets(
                    &tables.classes,
                    &tables.subclasses,
                    class.as_str(),
                ) {
                    let mut args: Vec<Exp> = Vec::new();
                    args.push(recv);
                    assert(views(args@) =~= seq![rv]);
                    self.run(targets, args);
                }
            }
        }
        self.opaque_value()
    }

    /// Binds a reference to the place that its initializer names.
    ///
    /// # Errors
    ///
    /// In strict mode, the first report.
    pub fn bind_reference(&mut self, tree: &SyntaxTree, n: usize, d: usize) -> (r: Result<
        (),
        Error,
    >)
        requires
            old(self).ready(),
            n < tree@.len(),
            inside(tree@, n, d),
        ensures
            final(self).ready(),
            grows(old(self)@, final(self)@),
            !old(self)@.env.strict && labels_known(old(self)@.labels, tree@, d) ==> r is Ok,
            (final(self)@, done(r)) == reference(tree@, old(self)@, n, d),
        decreases rest(tree@, n), 70nat, 0int,
    {
        proof {
            reveal(reference);
            reveal(location);
        }
        let _k = tree.kind(n);
        if let Some(leaf) = declarator_leaf(tree, d) {
            if let Some(v) = tree.field(d, Field::Value) {
                let p = self.flatten_lvalue(tree, v)?;
                self.bind(tree.text(leaf), p);
            }
        }
        Ok(())
    }

    /// Lowers a `new` of a single object. The answer is the place of the object; `None` for an array,
    /// or a place that is given.
    ///
    /// # Errors
    ///
    /// In strict mode, the first report.
    fn lower_new_expression(&mut self, tree: &SyntaxTree, n: usize) -> (r: Result<
        Option<RawPath>,
        Error,
    >)
        requires
            old(self).ready(),
            n < tree@.len(),
        ensures
            final(self).ready(),
            grows(old(self)@, final(self)@),
            settled_within(old(self)@, tree@, n) ==> r is Ok,
            (final(self)@, maybe(r)) == allocated(tree@, old(self)@, n),
        decreases rest(tree@, n), 30nat, 0int,
    {
        proof {
            reveal(allocated);
            reveal(exprs);
        }
        let _k = tree.kind(n);
        let ty = match tree.field(n, Field::Type) {
            Some(ty) => ty,
            None => {
                return Ok(None);
            },
        };
        if tree.field(n, Field::Declarator).is_some() || tree.field(n, Field::Placement).is_some() {
            return Ok(None);
        }
        let class = tree.text(ty);
        let none: Vec<usize> = Vec::new();
        assert(none@ =~= Seq::<usize>::empty());
        let nodes: Vec<usize> = match tree.field(n, Field::Arguments) {
            Some(list) => if tree.kind(list) == Kind::ArgumentList || tree.kind(list)
                == Kind::InitializerList {
                let v = tree.named_children(list);
                assert forall|j: int| 0 <= j < v@.len() implies inside(
                    tree@,
                    n,
                    #[trigger] v@[j],
                ) by {
                    assert(inside(tree@, list, v@[j]));
                }
                v
            } else {
                none
            },
            None => none,
        };
        let args = self.flatten_exprs(tree, n, &nodes)?;
        let obj = self.next_temp();
        self.declare(obj.as_str(), VarKind::Local);
        let (known, ctor) = match self.tables().classes.get(class) {
            Some(info) => (true, info.has_ctor),
            None => (false, false),
        };
        if known {
            self.set_type(obj.as_str(), class);
        }
        if ctor {
            self.emit_ctor_call(class, obj.as_str(), args);
        }
        Ok(Some(self.build_access_path(obj.as_str())))
    }

    /// Lowers the declaration of a pointer to a new object, if declaration `n` is one; the answer is
    /// whether it is. The pointer is known by the class that it is declared with, which may be a base
    /// of the object's.
    ///
    /// # Errors
    ///
    /// In strict mode, the first report.
    fn try_new(&mut self, tree: &SyntaxTree, n: usize, class: &str) -> (r: Result<bool, Error>)
        requires
            old(self).ready(),
            n < tree@.len(),
        ensures
            final(self).ready(),
            grows(old(self)@, final(self)@),
            settled_within(old(self)@, tree@, n) ==> r is Ok,
            (final(self)@, done(r)) == heap_object(tree@, old(self)@, n, class@),
        decreases rest(tree@, n), 35nat, 0int,
    {
        proof {
            reveal(heap_object);
            reveal(allocated);
        }
        let _k = tree.kind(n);
        let d = match tree.field(n, Field::Declarator) {
            Some(d) => d,
            None => {
                return Ok(false);
            },
        };
        if tree.kind(d) != Kind::InitDeclarator {
            return Ok(false);
        }
        let v = match tree.field(d, Field::Value) {
            Some(v) => v,
            None => {
                return Ok(false);
            },
        };
        if tree.kind(v) != Kind::NewExpression {
            return Ok(false);
        }
        match declarator_leaf(tree, tree.part(d, Field::Declarator)) {
            Some(leaf) => match self.lower_new_expression(tree, v)? {
                Some(p) => {
                    self.bind(tree.text(leaf), p);
                    self.set_type(tree.text(leaf), class);
                    Ok(true)
                },
                None => Ok(false),
            },
            None => Ok(false),
        }
    }

    /// Lowers the declaration of an object of the class `class` that constructs it, if declaration
    /// `n` is one; the answer is whether it is.
    ///
    /// # Errors
    ///
    /// In strict mode, the first report.
    pub fn try_construct(&mut self, tree: &SyntaxTree, n: usize, class: &str) -> (r: Result<
        bool,
        Error,
    >)
        requires
            old(self).ready(),
            n < tree@.len(),
        ensures
            final(self).ready(),
            grows(old(self)@, final(self)@),
            settled_within(old(self)@, tree@, n) ==> r is Ok,
            (final(self)@, done(r)) == construction(tree@, old(self)@, n, class@),
        decreases rest(tree@, n), 36nat, 0int,
    {
        proof {
            reveal(construction);
            reveal(heap_object);
            reveal(exprs);
        }
        let _k = tree.kind(n);
        if self.try_new(tree, n, class)? {
            return Ok(true);
        }
        let ctor = match self.tables().classes.get(class) {
            Some(info) => info.has_ctor,
            None => false,
        };
        if !ctor {
            return Ok(false);
        }
        let d = match tree.field(n, Field::Declarator) {
            Some(d) => d,
            None => {
                return Ok(false);
            },
        };
        let obj = match tree.field(d, Field::Declarator) {
            Some(o) => o,
            None => {
                return Ok(false);
            },
        };
        if tree.kind(obj) != Kind::Identifier {
            return Ok(false);
        }
        let k = tree.kind(d);
        if k == Kind::FunctionDeclarator {
            let params = match tree.field(d, Field::Parameters) {
                Some(p) => p,
                None => {
                    return Ok(false);
                },
            };
            let nodes = tree.kids_of_kind(params, Kind::ParameterDeclaration);
            if nodes.len() == 0 {
                return Ok(false);
            }
            assert forall|j: int| 0 <= j < nodes@.len() implies inside(
                tree@,
                n,
                #[trigger] nodes@[j],
            ) by {
                assert(inside(tree@, params, nodes@[j]));
            }
            let args = self.reconstruct_mvp_args(tree, n, &nodes)?;
            self.emit_construction(class, tree.text(obj), args);
            Ok(true)
        } else if k == Kind::InitDeclarator {
            let v = match tree.field(d, Field::Value) {
                Some(v) => v,
                None => {
                    return Ok(false);
                },
            };
            let vk = tree.kind(v);
            let list = if vk == Kind::CallExpression {
                let f = tree.part(v, Field::Function);
                if tree.kind(f) != Kind::Identifier || !same(tree.text(f), class) {
                    return Ok(false);
                }
                tree.part(v, Field::Arguments)
            } else if vk == Kind::InitializerList || vk == Kind::ArgumentList {
                v
            } else {
                return Ok(false);
            };
            let nodes = tree.named_children(list);
            assert forall|j: int| 0 <= j < nodes@.len() implies inside(
                tree@,
                n,
                #[trigger] nodes@[j],
            ) by {
                assert(inside(tree@, list, nodes@[j]));
            }
            let args = self.flatten_exprs(tree, n, &nodes)?;
            self.emit_construction(class, tree.text(obj), args);
            Ok(true)
        } else {
            Ok(false)
        }
    }
}

} // verus!
