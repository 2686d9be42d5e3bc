//! Lowering expressions: the methods that do what [`crate::lowering`] says.

use vstd::prelude::*;
use crate::labels::{selection_known, all_settled, group_known, labels_known, settled, settled_within};
use crate::collections::views;
use crate::error::Error;
use crate::kinds::{Field, Kind};
use crate::classes::overload_name;
use crate::lowering::{delete, method_call, address_of, after_divergence, alias_after, asm_fold, asm_inputs, asm_jumps, asm_outputs, asm_transfer, asm_writes, assembly, assignment, bare_variable, binary, blame, blend, blend_more, block_effects, block_place, block_value, block_walk, body, braced, call, call_style, called, cast_operands, cast_shaped, combined, compound_literal, conditional, constant_kind, dead_place, dereferenced, elements, expr, exprs, generic, has_operator, identifier, incremented, initializer, layout_at_depth, layout_of, link_labels, location, member_from, member_layout, missing_name, nested_declarator, not_a_place, opaque_value, place_rank, placed, plain_call, pointer, statement, unanalyzed, unparsable, unsupported, update, without_close, without_open, yielded};
use crate::mir::{AccessPath, CallStyle, Exp, ExpView, PathSegment, PathView, RawPath, SegmentView, StatementKind, VariableRef};
use crate::paths::{constant_index, constant_index_text, deref_of_pointee, is_deref_field, literal_address_path, push_element, union_field};
use crate::report::{elision_note, quote_construct, Attribution};
use crate::scope::VarKind;
use crate::shapes::{Layout, SlotView, array_declarator_rank, asm_operands, bare_callee, declaration_type_tag, generic_parts, generic_selection_parts, gnu_asm_operand_is_readwrite, gnu_asm_operands, is_empty_kind, is_statement_expression, kind_at, recovery, recovery_region, type_tag, unparenthesized_callee};
use crate::state::{add_block, declare, done, fresh, grows, intern, link, listed, maybe, read, resolved, seen, Context, ScopeView};
use crate::syntax::{field_child, field_children, first_named_child, inside, named_children, paren_inner, part, plain_children, rest, shape_at, shaped, subscript_index, SyntaxTree};
use crate::text::{chars_of, decimal, joined, same, text_of, trim, trimmed};

verus! {

broadcast use {crate::collections::group_views, group_known};

/// `s` without the characters that open and close an index.
fn bare_index(s: &str) -> (r: String)
    ensures
        r@ == without_close(without_open(s@)),
{
    let chars = chars_of(s);
    let mut from: usize = 0;
    assert(chars@.skip(0) =~= chars@);
    while from < chars.len() && chars[from] == '['
        invariant
            from <= chars@.len(),
            without_open(chars@.skip(from as int)) == without_open(s@),
        decreases chars@.len() - from,
    {
        assert(chars@.skip(from as int).skip(1) =~= chars@.skip(from + 1));
        from = from + 1;
    }
    let ghost opened = chars@.skip(from as int);
    assert(opened == without_open(s@));
    let mut to: usize = chars.len();
    assert(chars@.subrange(from as int, to as int) =~= opened);
    while to > from && chars[to - 1] == ']'
        invariant
            from <= to <= chars@.len(),
            without_close(chars@.subrange(from as int, to as int)) == without_close(opened),
        decreases to,
    {
        assert(chars@.subrange(from as int, to as int).drop_last() =~= chars@.subrange(
            from as int,
            to - 1,
        ));
        to = to - 1;
    }
    text_of(&chars, from, to)
}

/// The member that a designator names, if it names one.
fn designated_member(s: &str) -> (m: Option<String>)
    ensures
        match m {
            Some(m) => s@.len() > 0 && s@[0] == '.' && m@ == trimmed(s@.skip(1)),
            None => !(s@.len() > 0 && s@[0] == '.'),
        },
{
    let chars = chars_of(s);
    if chars.len() > 0 && chars[0] == '.' {
        let rest = text_of(&chars, 1, chars.len());
        assert(rest@ =~= s@.skip(1));
        Some(trim(rest.as_str()))
    } else {
        None
    }
}

/// The view of a layout that may be absent.
pub open spec fn layout_view(l: Option<&Layout>) -> Option<Seq<SlotView>> {
    match l {
        Some(l) => Some(l@),
        None => None,
    }
}

/// The view of an owned layout that may be absent.
pub open spec fn owned_layout_view(l: Option<Layout>) -> Option<Seq<SlotView>> {
    match l {
        Some(l) => Some(l@),
        None => None,
    }
}

fn borrowed(l: &Option<Layout>) -> (r: Option<&Layout>)
    ensures
        layout_view(r) == owned_layout_view(*l),
{
    match l {
        Some(l) => Some(l),
        None => None,
    }
}

fn is_constant_kind(k: Kind) -> (b: bool)
    ensures
        b == constant_kind(k),
{
    k == Kind::NumberLiteral || k == Kind::StringLiteral || k == Kind::CharLiteral || k
        == Kind::ConcatenatedString || k == Kind::TrueLiteral || k == Kind::FalseLiteral || k
        == Kind::NullLiteral || k == Kind::SizeofExpression || k == Kind::AlignofExpression
}

fn is_operator(tree: &SyntaxTree, n: usize, op: &str) -> (b: bool)
    requires
        n < tree@.len(),
    ensures
        b == has_operator(tree@, n, op@),
{
    match tree.field(n, Field::Operator) {
        Some(c) => same(tree.text(c), op),
        None => false,
    }
}

fn variable_of(e: &Exp) -> (v: Option<VariableRef>)
    ensures
        v == bare_variable(e@),
{
    match e {
        Exp::Variable(v) => Some(*v),
        Exp::AccessPath(a) => if a.offsets.len() == 0 {
            Some(a.variable_ref)
        } else {
            None
        },
        _ => None,
    }
}

impl<'a> Context<'a> {
    /// Says, once per function, that its body holds parse-recovery output.
    ///
    /// # Errors
    ///
    /// The report itself, in strict mode.
    pub fn report_unanalyzed_recovery(&mut self) -> (r: Result<(), Error>)
        requires
            old(self).ready(),
        ensures
            final(self).ready(),
            grows(old(self)@, final(self)@),
            !old(self)@.env.strict ==> r is Ok,
            (final(self)@, done(r)) == unanalyzed(old(self)@),
    {
        proof {
            reveal(unanalyzed);
        }
        if !self.mark_recovered() {
            assert(old(self)@.recovered.insert(old(self)@.fun.name) =~= old(self)@.recovered);
            return Ok(());
        }
        let mut message = joined("function `", self.func_name());
        message.append(
            "`: tree-sitter parse-recovery output in this body is not analyzed (the code it displaced is not in the parse tree)",
        );
        self.recoverable_report(Attribution::SourceProblem, message)
    }

    /// Says that node `n` was not lowered, and whose fault that is.
    ///
    /// # Errors
    ///
    /// The report itself, in strict mode.
    pub fn blame(&mut self, tree: &SyntaxTree, n: usize, message: String) -> (r: Result<(), Error>)
        requires
            old(self).ready(),
            n < tree@.len(),
        ensures
            final(self).ready(),
            grows(old(self)@, final(self)@),
            !old(self)@.env.strict ==> r is Ok,
            (final(self)@, done(r)) == blame(tree@, old(self)@, n, message@),
    {
        proof {
            reveal(blame);
        }
        if recovery_region(tree, n).is_some() {
            self.report_unanalyzed_recovery()
        } else {
            self.recoverable_report(Attribution::FrontendGap, message)
        }
    }

    /// Says that the name `n` is empty.
    ///
    /// # Errors
    ///
    /// The report itself, in strict mode.
    pub fn report_missing_name(&mut self, tree: &SyntaxTree, n: usize) -> (r: Result<(), Error>)
        requires
            old(self).ready(),
            n < tree@.len(),
        ensures
            final(self).ready(),
            grows(old(self)@, final(self)@),
            !old(self)@.env.strict ==> r is Ok,
            (final(self)@, done(r)) == missing_name(tree@, old(self)@, n),
    {
        let message = joined(
            tree.kind_name(n),
            " with no name (a zero-width node names no object)",
        );
        self.blame(tree, n, message)
    }

    /// A value that nothing else reads or writes.
    pub(crate) fn opaque_value(&mut self) -> (r: Result<Exp, Error>)
        requires
            old(self).ready(),
        ensures
            final(self).ready(),
            grows(old(self)@, final(self)@),
            !old(self)@.env.strict ==> r is Ok,
            (final(self)@, seen(r)) == opaque_value(old(self)@),
    {
        let v = self.fresh();
        Ok(Exp::Variable(v))
    }

    /// A place that nothing else reads or writes.
    fn dead_temp_path(&mut self) -> (r: Result<RawPath, Error>)
        requires
            old(self).ready(),
        ensures
            final(self).ready(),
            grows(old(self)@, final(self)@),
            !old(self)@.env.strict ==> r is Ok,
            (final(self)@, seen(r)) == dead_place(old(self)@),
    {
        let v = self.fresh();
        Ok(RawPath::of(v))
    }

    fn unsupported(&mut self, tree: &SyntaxTree, n: usize) -> (r: Result<Exp, Error>)
        requires
            old(self).ready(),
            n < tree@.len(),
        ensures
            final(self).ready(),
            grows(old(self)@, final(self)@),
            !old(self)@.env.strict ==> r is Ok,
            (final(self)@, seen(r)) == unsupported(tree@, old(self)@, n),
    {
        proof {
            reveal(unsupported);
        }
        let message = joined("ERR 78: Unsupported expression type: ", tree.kind_name(n));
        self.blame(tree, n, message)?;
        self.opaque_value()
    }

    /// The recovery for a node that names no place: say whose fault that is, and let the access go
    /// to a place that nothing else names.
    fn not_a_location(&mut self, tree: &SyntaxTree, n: usize) -> (r: Result<RawPath, Error>)
        requires
            old(self).ready(),
            n < tree@.len(),
        ensures
            final(self).ready(),
            grows(old(self)@, final(self)@),
            !old(self)@.env.strict ==> r is Ok,
            (final(self)@, seen(r)) == not_a_place(tree@, old(self)@, n),
    {
        proof {
            reveal(not_a_place);
        }
        let message = joined("not an lvalue: ", tree.kind_name(n));
        self.blame(tree, n, message)?;
        self.dead_temp_path()
    }

    /// Says, once, that a statement could not be parsed.
    ///
    /// # Errors
    ///
    /// The report itself, in strict mode.
    pub fn report_unparsable_construct(&mut self, tree: &SyntaxTree, n: usize) -> (r: Result<
        (),
        Error,
    >)
        requires
            old(self).ready(),
            n < tree@.len(),
        ensures
            final(self).ready(),
            grows(old(self)@, final(self)@),
            !old(self)@.env.strict ==> r is Ok,
            (final(self)@, done(r)) == unparsable(tree@, old(self)@, n),
    {
        proof {
            reveal(unparsable);
        }
        if !self.mark_error(n) {
            assert(old(self)@.errors.insert(n) =~= old(self)@.errors);
            return Ok(());
        }
        let quote = quote_construct(tree.text(n));
        let mut message = joined("parse error", elision_note(tree.text(n)).as_str());
        message.append("; construct not parsed -- ERROR: ");
        message.append(quote.0.as_str());
        self.recoverable_report(Attribution::SourceProblem, message)
    }

    fn identifier(&mut self, tree: &SyntaxTree, n: usize) -> (r: Result<Exp, Error>)
        requires
            old(self).ready(),
            n < tree@.len(),
        ensures
            final(self).ready(),
            grows(old(self)@, final(self)@),
            !old(self)@.env.strict ==> r is Ok,
            (final(self)@, seen(r)) == identifier(tree@, old(self)@, n),
    {
        proof {
            reveal(identifier);
        }
        let name = tree.text(n);
        if name.is_empty() {
            self.report_missing_name(tree, n)?;
            return self.opaque_value();
        }
        if !self.is_variable(name) && (self.is_function(name) || self.is_declared(name)) {
            return Ok(Exp::FunctionPtr(self.resolve_reference(name)));
        }
        let p = self.build_access_path(name);
        Ok(self.read(&p))
    }

    /// A temporary that may hold any of `values`: an assignment carries at most two, so that
    /// further ones fold in with the running value.
    fn blend_into_temp(&mut self, values: &Vec<Exp>) -> (e: Exp)
        requires
            old(self).ready(),
        ensures
            final(self).ready(),
            grows(old(self)@, final(self)@),
            (final(self)@, e@) == blend(old(self)@, views(values@)),
    {
        proof {
            reveal(blend);
        }
        let ghost vs = views(values@);
        let name = self.next_temp();
        let target = self.build_access_path(name.as_str());
        if values.len() > 0 {
            let second = if values.len() > 1 {
                Some(&values[1])
            } else {
                None
            };
            self.add_assign_to_program(&target, &values[0], second);
            let ghost start = self@;
            let mut i: usize = 2;
            while i < values.len()
                invariant
                    self.ready(),
                    grows(old(self)@, self@),
                    2 <= i,
                    vs == views(values@),
                    blend_more(self@, target@, vs, i as int) == blend_more(start, target@, vs, 2),
                decreases values@.len() - i,
            {
                let so_far = self.read(&target);
                self.add_assign_to_program(&target, &values[i], Some(&so_far));
                i = i + 1;
            }
        }
        let v = self.intern(name);
        Exp::Variable(v)
    }

    fn dereferenced(&mut self, tree: &SyntaxTree, n: usize, arg: Exp) -> (e: Exp)
        requires
            old(self).ready(),
            n < tree@.len(),
            tree@[n as int].kind == Kind::PointerExpression,
        ensures
            final(self).ready(),
            grows(old(self)@, final(self)@),
            (final(self)@, e@) == dereferenced(tree@, old(self)@, n, arg@),
    {
        proof {
            reveal(dereferenced);
        }
        if !is_operator(tree, n, "*") {
            return arg;
        }
        let inner = tree.part(n, Field::Argument);
        if tree.kind(inner) == Kind::CastExpression {
            if let Exp::Str(constant) = &arg {
                if !constant.as_str().is_empty() {
                    let p = literal_address_path(constant.as_str());
                    return self.read(&p);
                }
            }
        }
        if let Some(v) = variable_of(&arg) {
            if let Some((a, block)) = self.alias(v) {
                if block == self.here().blidx {
                    return match deref_of_pointee(&a) {
                        Some(p) => self.read(&p),
                        None => Exp::access_path(a),
                    };
                }
            }
        }
        arg
    }

    /// The operands of a cast that the grammar could only read as a call, or `None` for a call.
    ///
    /// # Errors
    ///
    /// The report of a doubtful case, in strict mode.
    fn cast_shaped_call(&mut self, tree: &SyntaxTree, n: usize) -> (r: Result<Option<usize>, Error>)
        requires
            old(self).ready(),
            n < tree@.len(),
        ensures
            final(self).ready(),
            grows(old(self)@, final(self)@),
            !old(self)@.env.strict ==> r is Ok,
            (final(self)@, done(r)) == cast_shaped(tree@, old(self)@, n),
            r matches Ok(Some(list)) ==> inside(tree@, n, list) && field_child(
                tree@,
                n,
                Field::Arguments,
            ) == Some(list),
    {
        proof {
            reveal(cast_shaped);
        }
        let _kind = tree.kind(n);
        let callee = match tree.field(n, Field::Function) {
            Some(c) => c,
            None => {
                return Ok(None);
            },
        };
        if tree.kind(callee) != Kind::ParenthesizedExpression {
            return Ok(None);
        }
        let inner = match tree.first_named_child(callee) {
            Some(c) => c,
            None => {
                return Ok(None);
            },
        };
        let k = tree.kind(inner);
        if k != Kind::Identifier && k != Kind::TypeIdentifier {
            return Ok(None);
        }
        let name = tree.text(inner);
        if self.is_variable(name) || self.is_function(name) || self.is_declared(name) {
            return Ok(None);
        }
        let operands = tree.field(n, Field::Arguments);
        let has_operand = match operands {
            Some(list) => tree.first_named_child(list).is_some(),
            None => false,
        };
        let is_type = self.is_type(name);
        let quote = quote_construct(tree.text(n)).0;
        if !has_operand {
            if is_type {
                let mut message = joined("`", quote.as_str());
                message.append("` casts nothing: `");
                message.append(name);
                message.append(
                    "` is a type here and a cast needs an operand; lowered as a call to `",
                );
                message.append(name);
                message.append("`");
                self.recoverable_report(Attribution::SourceProblem, message)?;
            }
            return Ok(None);
        }
        if !is_type {
            let mut message = joined("cast-shaped call `", quote.as_str());
            message.append("`: this unit neither defines, declares, nor uses `");
            message.append(name);
            message.append(
                "` as a type, so it cannot be told from a cast; lowered as a call -- if `",
            );
            message.append(name);
            message.append("` is a type, the operand's taint stops here");
            self.recoverable_report(Attribution::FrontendGap, message)?;
            return Ok(None);
        }
        Ok(operands)
    }

    fn call_style(&mut self, p: &RawPath, name: &str, is_value: bool) -> (s: CallStyle)
        requires
            old(self).ready(),
        ensures
            final(self).ready(),
            grows(old(self)@, final(self)@),
            (final(self)@, s@) == call_style(old(self)@, p@, name@, is_value),
    {
        proof {
            reveal(call_style);
        }
        if p.base == VariableRef::Global && p.fields.len() <= 1 && !is_value {
            let mut names: Vec<String> = Vec::new();
            names.push(self.resolve_reference(name));
            assert(views(names@) =~= seq![resolved(self@.env, name@)]);
            CallStyle::DirectCall(names)
        } else {
            let callee = self.emit_loads(p);
            CallStyle::FuncPtrCall { callee, signature: Some(String::from_str("indirect-call")) }
        }
    }

    pub(crate) fn called(&mut self, style: CallStyle, args: Vec<Exp>, temp: String) -> (e: Exp)
        requires
            old(self).ready(),
        ensures
            final(self).ready(),
            grows(old(self)@, final(self)@),
            (final(self)@, e@) == called(old(self)@, style@, views(args@), temp@),
    {
        proof {
            reveal(called);
        }
        let ret = self.intern(temp.clone());
        let mut rets: Vec<VariableRef> = Vec::new();
        rets.push(ret);
        assert(rets@ =~= seq![ret]);
        self.emit(StatementKind::CallAssign { style, rets, args });
        let p = self.build_access_path(temp.as_str());
        Exp::Variable(p.base)
    }

    fn update_alias(
        &mut self,
        tree: &SyntaxTree,
        target: usize,
        value: usize,
        plain: bool,
        p: &RawPath,
        v: &Exp,
    )
        requires
            old(self).ready(),
            target < tree@.len(),
            value < tree@.len(),
        ensures
            final(self).ready(),
            grows(old(self)@, final(self)@),
            final(self)@ == alias_after(tree@, old(self)@, target, value, plain, p@, v@),
    {
        proof {
            reveal(alias_after);
        }
        if tree.kind(target) == Kind::PointerExpression || !p.is_pathless() {
            return;
        }
        if plain && tree.kind(value) == Kind::PointerExpression && is_operator(tree, value, "&") {
            match v {
                Exp::Variable(x) => {
                    self.set_alias(p.base, AccessPath::without_fields(*x));
                    return;
                },
                Exp::AccessPath(a) => {
                    self.set_alias(p.base, a.copied());
                    return;
                },
                _ => {},
            }
        }
        self.drop_alias(p.base);
    }

    fn layout_of(&self, tag: Option<&str>) -> (l: Option<Layout>)
        requires
            self.ready(),
        ensures
            owned_layout_view(l) == layout_of(
                self@,
                match tag {
                    Some(s) => Some(s@),
                    None => None,
                },
            ),
    {
        match tag {
            Some(tag) => self.layout(tag),
            None => None,
        }
    }

    /// The layout of the record that the member `name` is.
    #[verifier::loop_isolation(false)]
    fn member_layout(&self, members: Option<&Layout>, name: &str) -> (l: Option<Layout>)
        requires
            self.ready(),
        ensures
            owned_layout_view(l) == member_layout(self@, layout_view(members), name@),
    {
        let members = match members {
            Some(m) => m,
            None => {
                return None;
            },
        };
        let mut i: usize = 0;
        while i < members.slots.len()
            invariant
                i <= members.slots@.len(),
                self.ready(),
                member_from(members@, i as int, name@) == member_from(members@, 0, name@),
            decreases members.slots@.len() - i,
        {
            assert(members@[i as int] == members.slots@[i as int]@);
            if same(members.slots[i].name.as_str(), name) {
                return match &members.slots[i].type_tag {
                    Some(tag) => self.layout(tag.as_str()),
                    None => None,
                };
            }
            i = i + 1;
        }
        None
    }

    fn layout_at_depth(&self, elem: Option<&Layout>, depth: usize) -> (l: Option<Layout>)
        ensures
            owned_layout_view(l) == layout_at_depth(layout_view(elem), depth as nat),
    {
        if depth == 1 {
            match elem {
                Some(l) => Some(l.copied()),
                None => None,
            }
        } else {
            None
        }
    }

    /// The place of the element `e` in `base`, and the layout that braces inside it have.
    fn place_element(
        &mut self,
        tree: &SyntaxTree,
        e: usize,
        base: &RawPath,
        members: Option<&Layout>,
        elem: Option<&Layout>,
        depth: usize,
        idx: usize,
    ) -> (r: (RawPath, Option<Layout>))
        requires
            old(self).ready(),
            e < tree@.len(),
        ensures
            *final(self) == *old(self),
            ({
                let place = placed(
                    tree@,
                    old(self)@,
                    e,
                    layout_view(members),
                    layout_view(elem),
                    depth as nat,
                    idx,
                );
                &&& r.0@ == (PathView { base: base@.base, fields: base@.fields + place.0 })
                &&& owned_layout_view(r.1) == place.1
            }),
    {
        proof {
            reveal(placed);
        }
        let mut p = base.copied();
        if tree.kind(e) == Kind::InitializerPair {
            let d = tree.text(tree.part(e, Field::Designator));
            match designated_member(d) {
                Some(member) => {
                    let nested = self.member_layout(members, member.as_str());
                    p.push(PathSegment::Symbol(member));
                    assert(p@.fields =~= base@.fields + seq![SegmentView::Symbol(member@)]);
                    (p, nested)
                },
                None => {
                    let index = bare_index(trim(d).as_str());
                    push_element(&mut p, constant_index_text(index.as_str()));
                    (p, self.layout_at_depth(elem, depth))
                },
            }
        } else {
            if let Some(m) = members {
                if idx < m.slots.len() {
                    assert(m@[idx as int] == m.slots@[idx as int]@);
                    let slot = &m.slots[idx];
                    p.push(PathSegment::Symbol(slot.name.clone()));
                    assert(p@.fields =~= base@.fields + seq![SegmentView::Symbol(slot.name@)]);
                    let nested = match &slot.type_tag {
                        Some(tag) => self.layout(tag.as_str()),
                        None => None,
                    };
                    return (p, nested);
                }
            }
            push_element(&mut p, Some(#[verifier::truncate] (idx as i64)));
            (p, self.layout_at_depth(elem, depth))
        }
    }

    /// Goes on in a block that control does not reach.
    pub(crate) fn after_divergence(&mut self, explainer: &str) -> (r: Result<(), Error>)
        requires
            old(self).ready(),
        ensures
            final(self).ready(),
            grows(old(self)@, final(self)@),
            !old(self)@.env.strict ==> r is Ok,
            (final(self)@, done(r)) == after_divergence(old(self)@, explainer@),
    {
        proof {
            reveal(after_divergence);
        }
        let sv = self.add_block(false, false, explainer)?;
        self.move_to(sv);
        Ok(())
    }

    /// Transfers the sources of an inline assembly to its targets.
    fn asm_transfer(&mut self, sources: &Vec<Exp>, targets: &Vec<RawPath>) -> (e: Exp)
        requires
            old(self).ready(),
        ensures
            final(self).ready(),
            grows(old(self)@, final(self)@),
            (final(self)@, e@) == asm_transfer(old(self)@, views(sources@), views(targets@)),
    {
        proof {
            reveal(asm_transfer);
        }
        let ghost ss = views(sources@);
        let ghost ts = views(targets@);
        let name = self.next_temp();
        let p = self.build_access_path(name.as_str());
        let ghost start = self@;
        let mut i: usize = 0;
        while i < sources.len()
            invariant
                self.ready(),
                grows(old(self)@, self@),
                i <= sources@.len(),
                ss == views(sources@),
                asm_fold(self@, p@, ss, i as int) == asm_fold(start, p@, ss, 0),
            decreases sources@.len() - i,
        {
            if i == 0 {
                self.add_assign_to_program(&p, &sources[0], None);
            } else {
                let so_far = self.read(&p);
                self.add_assign_to_program(&p, &sources[i], Some(&so_far));
            }
            i = i + 1;
        }
        let v = self.read(&p);
        let ghost written = self@;
        let mut j: usize = 0;
        while j < targets.len()
            invariant
                self.ready(),
                grows(old(self)@, self@),
                j <= targets@.len(),
                ts == views(targets@),
                asm_writes(self@, ts, j as int, v@) == asm_writes(written, ts, 0, v@),
            decreases targets@.len() - j,
        {
            self.add_assign_to_program(&targets[j], &v, None);
            j = j + 1;
        }
        if targets.len() > 0 {
            self.read(&targets[0])
        } else {
            v
        }
    }

    /// Lets control go to the labels of an inline assembly, and past it.
    ///
    /// # Errors
    ///
    /// The report of an undefined label, in strict mode.
    #[verifier::loop_isolation(false)]
    fn link_asm_goto_labels(&mut self, tree: &SyntaxTree, n: usize) -> (r: Result<(), Error>)
        requires
            old(self).ready(),
            n < tree@.len(),
        ensures
            final(self).ready(),
            grows(old(self)@, final(self)@),
            !old(self)@.env.strict ==> r is Ok,
            (final(self)@, done(r)) == asm_jumps(tree@, old(self)@, n),
    {
        proof {
            reveal(asm_jumps);
        }
        let list = match tree.field(n, Field::GotoLabels) {
            Some(list) => list,
            None => {
                return Ok(());
            },
        };
        let labels = tree.field_children(list, Field::Label);
        if labels.len() == 0 {
            return Ok(());
        }
        let mut linked: Vec<usize> = Vec::new();
        assert(linked@ =~= Seq::<usize>::empty());
        let mut i: usize = 0;
        while i < labels.len()
            invariant
                self.ready(),
                grows(old(self)@, self@),
                i <= labels@.len(),
                link_labels(tree@, self@, labels@, i as int, linked@) == link_labels(
                    tree@,
                    old(self)@,
                    labels@,
                    0,
                    Seq::empty(),
                ),
            decreases labels@.len() - i,
        {
            assert(inside(tree@, list, labels@[i as int]));
            let label = tree.text(labels[i]);
            match self.label_block(label) {
                None => {
                    let mut message = joined("`asm goto` to undefined label `", label);
                    message.append("`");
                    self.recoverable_report(Attribution::SourceProblem, message)?;
                },
                Some(b) => {
                    if !holds(&linked, b) {
                        self.link(self.here().blidx, b)?;
                        linked.push(b);
                    }
                },
            }
            i = i + 1;
        }
        let explainer = joined("after_asm_goto::", decimal(tree.line(n)).as_str());
        let sv = self.add_block(false, true, explainer.as_str())?;
        self.move_to(sv);
        Ok(())
    }

    fn combined(&mut self, op: Kind, left: &Exp, right: &Exp) -> (e: Exp)
        requires
            old(self).ready(),
        ensures
            final(self).ready(),
            grows(old(self)@, final(self)@),
            (final(self)@, e@) == combined(old(self)@, op, left@, right@),
    {
        proof {
            reveal(combined);
        }
        let name = self.next_temp();
        let target = self.build_access_path(name.as_str());
        if !(op == Kind::EqualEqual || op == Kind::LessEqual || op == Kind::GreaterEqual) {
            self.add_assign_to_program(&target, left, Some(right));
        }
        let v = self.intern(name);
        Exp::Variable(v)
    }

    fn incremented(&mut self, p: &RawPath) -> (e: Exp)
        requires
            old(self).ready(),
        ensures
            final(self).ready(),
            grows(old(self)@, final(self)@),
            (final(self)@, e@) == incremented(old(self)@, p@),
    {
        proof {
            reveal(incremented);
        }
        let cur = self.read(p);
        let name = self.next_temp();
        let target = self.build_access_path(name.as_str());
        let one = Exp::Str(String::from_str("1"));
        self.add_assign_to_program(&target, &cur, Some(&one));
        let v = Exp::Variable(target.base);
        self.add_assign_to_program(p, &v, None);
        v
    }
}

fn holds(v: &Vec<usize>, x: usize) -> (b: bool)
    ensures
        b == v@.contains(x),
{
    let mut i: usize = 0;
    while i < v.len()
        invariant
            i <= v@.len(),
            forall|j: int| 0 <= j < i ==> v@[j] != x,
        decreases v@.len() - i,
    {
        if v[i] == x {
            return true;
        }
        i = i + 1;
    }
    false
}

impl<'a> Context<'a> {
    /// Lowers an expression to statements that compute it, and yields what holds its value.
    ///
    /// # Errors
    ///
    /// In strict mode, the first report.
    pub fn flatten_expr(&mut self, tree: &SyntaxTree, n: usize) -> (r: Result<Exp, Error>)
        requires
            old(self).ready(),
            n < tree@.len(),
        ensures
            final(self).ready(),
            grows(old(self)@, final(self)@),
            settled(old(self)@, tree@, n) ==> r is Ok,
            (final(self)@, seen(r)) == expr(tree@, old(self)@, n),
        decreases rest(tree@, n), 50nat, 0int,
    {
        proof {
            reveal(expr);
            reveal(nested_declarator);
            reveal(binary);
            reveal(update);
            reveal(location);
            reveal(assignment);
            reveal(pointer);
            reveal(call);
            reveal(compound_literal);
            reveal(block_value);
            reveal(conditional);
            reveal(generic);
            reveal(assembly);
            reveal(delete);
        }
        let k = tree.kind(n);
        if k == Kind::Identifier || k == Kind::QualifiedIdentifier {
            self.identifier(tree, n)
        } else if k == Kind::This && self.objects().class().is_some() {
            Ok(Exp::Variable(VariableRef::Param(0)))
        } else if k == Kind::DeleteExpression {
            self.lower_delete(tree, n)
        } else if is_constant_kind(k) {
            Ok(Exp::Str(String::from_str(tree.text(n))))
        } else if k == Kind::CommaExpression {
            self.flatten_expr(tree, tree.part(n, Field::Left))?;
            self.flatten_expr(tree, tree.part(n, Field::Right))
        } else if k == Kind::PointerDeclarator || k == Kind::FunctionDeclarator || k
            == Kind::ArrayDeclarator {
            self.flatten_nested_decl(tree, n)
        } else if k == Kind::UnaryExpression {
            self.flatten_expr(tree, tree.part(n, Field::Argument))
        } else if k == Kind::CastExpression {
            self.flatten_expr(tree, tree.part(n, Field::Value))
        } else if k == Kind::ParenthesizedExpression || k == Kind::ParenthesizedDeclarator {
            self.flatten_expr(tree, tree.paren_inner(n))
        } else if k == Kind::BinaryExpression {
            self.flatten_binary(tree, n)
        } else if k == Kind::UpdateExpression {
            self.flatten_update_expression(tree, n)
        } else if k == Kind::FieldExpression || k == Kind::SubscriptExpression {
            let p = self.flatten_lvalue(tree, n)?;
            Ok(self.read(&p))
        } else if k == Kind::AssignmentExpression {
            let target = tree.part(n, Field::Left);
            let value = tree.part(n, Field::Right);
            let op = tree.field(n, Field::Operator);
            self.collect_assignment(tree, n, target, value, op)
        } else if k == Kind::PointerExpression {
            self.flatten_pointer(tree, n)
        } else if k == Kind::CallExpression {
            self.flatten_call(tree, n)
        } else if k == Kind::CompoundLiteralExpression {
            self.flatten_compound_literal(tree, n)
        } else if k == Kind::CompoundStatement {
            self.flatten_statement_expression(tree, n)
        } else if k == Kind::ConditionalExpression {
            self.flatten_conditional(tree, n)
        } else if k == Kind::GenericExpression {
            self.flatten_generic(tree, n)
        } else if k == Kind::GnuAsmExpression {
            self.flatten_gnu_asm(tree, n)
        } else {
            self.unsupported(tree, n)
        }
    }

    /// The values of the expressions `nodes`, all inside `n`, in order.
    ///
    /// # Errors
    ///
    /// In strict mode, the first report.
    pub(crate) fn flatten_exprs(&mut self, tree: &SyntaxTree, n: usize, nodes: &Vec<usize>) -> (r: Result<
        Vec<Exp>,
        Error,
    >)
        requires
            old(self).ready(),
            n < tree@.len(),
            forall|j: int| 0 <= j < nodes@.len() ==> inside(tree@, n, #[trigger] nodes@[j]),
        ensures
            final(self).ready(),
            grows(old(self)@, final(self)@),
            all_settled(old(self)@, tree@, nodes@) ==> r is Ok,
            (final(self)@, listed(r)) == exprs(tree@, old(self)@, n, nodes@, 0, Seq::empty()),
        decreases rest(tree@, n), 5nat, 0int,
    {
        proof {
            reveal(exprs);
            reveal(expr);
        }
        let _k = tree.kind(n);
        let mut values: Vec<Exp> = Vec::new();
        assert(views(values@) =~= Seq::<ExpView>::empty());
        let mut i: usize = 0;
        while i < nodes.len()
            invariant
                self.ready(),
                grows(old(self)@, self@),
                i <= nodes@.len(),
                n < tree@.len() <= usize::MAX,
                forall|j: int| 0 <= j < nodes@.len() ==> inside(tree@, n, #[trigger] nodes@[j]),
                exprs(tree@, self@, n, nodes@, i as int, views(values@)) == exprs(
                    tree@,
                    old(self)@,
                    n,
                    nodes@,
                    0,
                    Seq::empty(),
                ),
            decreases nodes@.len() - i,
        {
            proof {
                reveal(exprs);
                reveal(expr);
            }
            let v = self.flatten_expr(tree, nodes[i])?;
            values.push(v);
            i = i + 1;
        }
        Ok(values)
    }

    fn flatten_nested_decl(&mut self, tree: &SyntaxTree, n: usize) -> (r: Result<Exp, Error>)
        requires
            old(self).ready(),
            n < tree@.len(),
        ensures
            final(self).ready(),
            grows(old(self)@, final(self)@),
            settled_within(old(self)@, tree@, n) ==> r is Ok,
            (final(self)@, seen(r)) == nested_declarator(tree@, old(self)@, n),
        decreases rest(tree@, n), 40nat, 0int,
    {
        proof {
            reveal(nested_declarator);
            reveal(expr);
        }
        let _k = tree.kind(n);
        match tree.field(n, Field::Declarator) {
            Some(c) => {
                if tree.kind(c) == Kind::Identifier {
                    let name = tree.text(c);
                    self.declare(name, VarKind::Local);
                    let p = self.build_access_path(name);
                    Ok(self.read(&p))
                } else {
                    self.flatten_expr(tree, c)
                }
            },
            None => {
                let message = String::from_str(
                    "Surprised, Pointer Declarators dont always have a declarators",
                );
                self.recoverable_report(Attribution::FrontendGap, message)?;
                self.opaque_value()
            },
        }
    }

    fn flatten_binary(&mut self, tree: &SyntaxTree, n: usize) -> (r: Result<Exp, Error>)
        requires
            old(self).ready(),
            n < tree@.len(),
            tree@[n as int].kind == Kind::BinaryExpression,
        ensures
            final(self).ready(),
            grows(old(self)@, final(self)@),
            settled_within(old(self)@, tree@, n) ==> r is Ok,
            (final(self)@, seen(r)) == binary(tree@, old(self)@, n),
        decreases rest(tree@, n), 40nat, 0int,
    {
        proof {
            reveal(binary);
            reveal(expr);
        }
        let _k = tree.kind(n);
        let left = self.flatten_expr(tree, tree.part(n, Field::Left))?;
        let right = self.flatten_expr(tree, tree.part(n, Field::Right))?;
        let op = tree.kind(tree.part(n, Field::Operator));
        Ok(self.combined(op, &left, &right))
    }

    fn flatten_update_expression(&mut self, tree: &SyntaxTree, n: usize) -> (r: Result<Exp, Error>)
        requires
            old(self).ready(),
            n < tree@.len(),
            tree@[n as int].kind == Kind::UpdateExpression,
        ensures
            final(self).ready(),
            grows(old(self)@, final(self)@),
            settled_within(old(self)@, tree@, n) ==> r is Ok,
            (final(self)@, seen(r)) == update(tree@, old(self)@, n),
        decreases rest(tree@, n), 40nat, 0int,
    {
        proof {
            reveal(update);
            reveal(location);
        }
        let _k = tree.kind(n);
        let p = self.flatten_lvalue(tree, tree.part(n, Field::Argument))?;
        Ok(self.incremented(&p))
    }

    /// Assigns the expression `value` to the place `target`, both inside `n`.
    ///
    /// # Errors
    ///
    /// In strict mode, the first report.
    pub fn collect_assignment(
        &mut self,
        tree: &SyntaxTree,
        n: usize,
        target: usize,
        value: usize,
        op: Option<usize>,
    ) -> (r: Result<Exp, Error>)
        requires
            old(self).ready(),
            n < tree@.len(),
            inside(tree@, n, target),
            inside(tree@, n, value),
            op matches Some(o) ==> o < tree@.len(),
        ensures
            final(self).ready(),
            grows(old(self)@, final(self)@),
            !old(self)@.env.strict && labels_known(old(self)@.labels, tree@, target) && labels_known(old(self)@.labels, tree@, value) ==> r is Ok,
            (final(self)@, seen(r)) == assignment(tree@, old(self)@, n, target, value, op),
        decreases rest(tree@, n), 40nat, 0int,
    {
        proof {
            reveal(assignment);
            reveal(location);
            reveal(expr);
        }
        let _k = tree.kind(n);
        let p = self.flatten_lvalue(tree, target)?;
        let v = self.flatten_expr(tree, value)?;
        let plain = match op {
            Some(o) => tree.kind(o) == Kind::Assign,
            None => true,
        };
        if plain {
            self.add_assign_to_program(&p, &v, None);
        } else {
            let old_value = self.read(&p);
            self.add_assign_to_program(&p, &v, Some(&old_value));
        }
        self.update_alias(tree, target, value, plain, &p, &v);
        if p.is_pathless() {
            Ok(Exp::Variable(p.base))
        } else {
            Ok(v)
        }
    }

    fn flatten_pointer(&mut self, tree: &SyntaxTree, n: usize) -> (r: Result<Exp, Error>)
        requires
            old(self).ready(),
            n < tree@.len(),
            tree@[n as int].kind == Kind::PointerExpression,
        ensures
            final(self).ready(),
            grows(old(self)@, final(self)@),
            settled_within(old(self)@, tree@, n) ==> r is Ok,
            (final(self)@, seen(r)) == pointer(tree@, old(self)@, n),
        decreases rest(tree@, n), 40nat, 0int,
    {
        proof {
            reveal(pointer);
            reveal(address_of);
            reveal(expr);
        }
        let _k = tree.kind(n);
        let arg = tree.part(n, Field::Argument);
        if !is_operator(tree, n, "*") {
            if let Some(a) = self.flatten_address_of(tree, arg)? {
                return Ok(Exp::access_path(a));
            }
        }
        let v = self.flatten_expr(tree, arg)?;
        Ok(self.dereferenced(tree, n, v))
    }

    /// The address of the place that `n` names, where it is the address of an element. Any other
    /// address cannot be named.
    ///
    /// # Errors
    ///
    /// In strict mode, the first report.
    fn flatten_address_of(&mut self, tree: &SyntaxTree, n: usize) -> (r: Result<
        Option<AccessPath>,
        Error,
    >)
        requires
            old(self).ready(),
            n < tree@.len(),
        ensures
            final(self).ready(),
            grows(old(self)@, final(self)@),
            settled_within(old(self)@, tree@, n) ==> r is Ok,
            (final(self)@, maybe(r)) == address_of(tree@, old(self)@, n),
        decreases rest(tree@, n), 30nat, 0int,
    {
        proof {
            reveal(address_of);
            reveal(location);
        }
        let k = tree.kind(n);
        if k == Kind::ParenthesizedExpression {
            self.flatten_address_of(tree, tree.paren_inner(n))
        } else if k == Kind::SubscriptExpression && tree.subscript_index(n).is_some() {
            let mut p = self.flatten_lvalue(tree, n)?;
            let ghost before = p@;
            match p.fields.pop() {
                Some(seg) => {
                    assert(before.fields.last() == seg@);
                    if is_deref_field(&seg) {
                        assert(p@.fields =~= before.fields.drop_last());
                        Ok(Some(self.emit_loads(&p)))
                    } else {
                        Ok(None)
                    }
                },
                None => Ok(None),
            }
        } else {
            Ok(None)
        }
    }

    fn flatten_call(&mut self, tree: &SyntaxTree, n: usize) -> (r: Result<Exp, Error>)
        requires
            old(self).ready(),
            n < tree@.len(),
            tree@[n as int].kind == Kind::CallExpression,
        ensures
            final(self).ready(),
            grows(old(self)@, final(self)@),
            settled_within(old(self)@, tree@, n) ==> r is Ok,
            (final(self)@, seen(r)) == call(tree@, old(self)@, n),
        decreases rest(tree@, n), 45nat, 0int,
    {
        proof {
            reveal(call);
            reveal(cast_operands);
            reveal(plain_call);
            reveal(method_call);
        }
        let _k = tree.kind(n);
        if let Some((object, class, name)) = self.method_at(tree, n) {
            assert(object == part(
                tree@,
                bare_callee(tree@, part(tree@, n, Field::Function)),
                Field::Argument,
            ));
            return self.collect_method_call(tree, n, object, class.as_str(), name.as_str());
        }
        match self.cast_shaped_call(tree, n)? {
            Some(list) => self.flatten_cast_operands(tree, n, list),
            None => self.collect_call(tree, n),
        }
    }

    /// Evaluates the operands of a cast, and yields the value of the last.
    ///
    /// # Errors
    ///
    /// In strict mode, the first report.
    fn flatten_cast_operands(&mut self, tree: &SyntaxTree, n: usize, list: usize) -> (r: Result<
        Exp,
        Error,
    >)
        requires
            old(self).ready(),
            n < tree@.len(),
            inside(tree@, n, list),
        ensures
            final(self).ready(),
            grows(old(self)@, final(self)@),
            settled_within(old(self)@, tree@, list) ==> r is Ok,
            (final(self)@, seen(r)) == cast_operands(
                tree@,
                old(self)@,
                n,
                plain_children(tree@, list),
                0,
                ExpView::Str(""@),
            ),
        decreases rest(tree@, n), 5nat, 0int,
    {
        proof {
            reveal(cast_operands);
            reveal(expr);
        }
        let _k = tree.kind(n);
        let nodes = tree.plain_children(list);
        let mut value = Exp::Str(String::from_str(""));
        let mut i: usize = 0;
        while i < nodes.len()
            invariant
                self.ready(),
                grows(old(self)@, self@),
                i <= nodes@.len(),
                n < tree@.len() <= usize::MAX,
                inside(tree@, n, list),
                nodes@ == plain_children(tree@, list),
                forall|j: int| 0 <= j < nodes@.len() ==> inside(tree@, list, #[trigger] nodes@[j]),
                cast_operands(tree@, self@, n, nodes@, i as int, value@) == cast_operands(
                    tree@,
                    old(self)@,
                    n,
                    nodes@,
                    0,
                    ExpView::Str(""@),
                ),
            decreases nodes@.len() - i,
        {
            proof {
                reveal(cast_operands);
                reveal(expr);
            }
            assert(inside(tree@, n, nodes@[i as int]));
            value = self.flatten_expr(tree, nodes[i])?;
            i = i + 1;
        }
        Ok(value)
    }

    /// Lowers a call. Whether it is a direct one is decided by what the callee resolves to, not by
    /// how it is spelled.
    ///
    /// # Errors
    ///
    /// In strict mode, the first report.
    fn collect_call(&mut self, tree: &SyntaxTree, n: usize) -> (r: Result<Exp, Error>)
        requires
            old(self).ready(),
            n < tree@.len(),
            tree@[n as int].kind == Kind::CallExpression,
        ensures
            final(self).ready(),
            grows(old(self)@, final(self)@),
            settled_within(old(self)@, tree@, n) ==> r is Ok,
            (final(self)@, seen(r)) == plain_call(tree@, old(self)@, n),
        decreases rest(tree@, n), 40nat, 0int,
    {
        proof {
            reveal(plain_call);
            reveal(exprs);
            reveal(location);
        }
        let _k = tree.kind(n);
        let temp = self.next_temp();
        let callee = unparenthesized_callee(tree, tree.part(n, Field::Function));
        let name = tree.text(callee);
        let list = tree.part(n, Field::Arguments);
        let nodes = tree.named_children(list);
        assert forall|j: int| 0 <= j < nodes@.len() implies inside(
            tree@,
            n,
            #[trigger] nodes@[j],
        ) by {
            assert(inside(tree@, list, nodes@[j]));
        }
        let args = self.flatten_exprs(tree, n, &nodes)?;
        let k = tree.kind(callee);
        let p = if k == Kind::Identifier || k == Kind::QualifiedIdentifier {
            self.build_access_path(name)
        } else {
            match self.flatten_lvalue(tree, callee) {
                Ok(p) => p,
                Err(_) => self.build_access_path(name),
            }
        };
        let is_value = is_statement_expression(tree, callee);
        let target = overload_name(&self.tables().overloads, name, args.len());
        let style = self.call_style(&p, target.as_str(), is_value);
        Ok(self.called(style, args, temp))
    }

    fn flatten_compound_literal(&mut self, tree: &SyntaxTree, n: usize) -> (r: Result<Exp, Error>)
        requires
            old(self).ready(),
            n < tree@.len(),
            tree@[n as int].kind == Kind::CompoundLiteralExpression,
        ensures
            final(self).ready(),
            grows(old(self)@, final(self)@),
            settled_within(old(self)@, tree@, n) ==> r is Ok,
            (final(self)@, seen(r)) == compound_literal(tree@, old(self)@, n),
        decreases rest(tree@, n), 40nat, 0int,
    {
        proof {
            reveal(compound_literal);
            reveal(braced);
        }
        let _k = tree.kind(n);
        let ty = tree.part(n, Field::Type);
        let value = tree.part(n, Field::Value);
        assert(shape_at(tree@, n));
        let own = self.layout_of(declaration_type_tag(tree, ty));
        let dims: usize = match tree.field(ty, Field::Declarator) {
            Some(d) => array_declarator_rank(tree, d),
            None => 0,
        };
        let temp = self.next_temp();
        let p = self.build_access_path(temp.as_str());
        self.lower_braced_value(tree, value, &p, borrowed(&own), dims)?;
        let v = self.intern(temp);
        Ok(Exp::Variable(v))
    }

    /// Lowers the initializer `list` of the variable that `ident` declares, with the type of
    /// declaration `n`.
    ///
    /// # Errors
    ///
    /// In strict mode, the first report.
    pub fn collect_initializer_list(
        &mut self,
        tree: &SyntaxTree,
        n: usize,
        ident: usize,
        list: usize,
    ) -> (r: Result<(), Error>)
        requires
            old(self).ready(),
            n < tree@.len(),
            inside(tree@, n, ident),
            inside(tree@, n, list),
        ensures
            final(self).ready(),
            grows(old(self)@, final(self)@),
            !old(self)@.env.strict && labels_known(old(self)@.labels, tree@, ident)
                && settled_within(old(self)@, tree@, list) ==> r is Ok,
            (final(self)@, done(r)) == initializer(tree@, old(self)@, n, ident, list),
        decreases rest(tree@, n), 40nat, 0int,
    {
        proof {
            reveal(initializer);
            reveal(location);
            reveal(braced);
        }
        let _k = tree.kind(n);
        let own = self.layout_of(declaration_type_tag(tree, n));
        let dims = array_declarator_rank(tree, ident);
        let p = self.flatten_lvalue(tree, ident)?;
        self.lower_braced_value(tree, list, &p, borrowed(&own), dims)
    }

    /// Stores the values in the braces `n` to `base`, whose type has the layout `own` and `dims`
    /// dimensions.
    ///
    /// # Errors
    ///
    /// In strict mode, the first report.
    fn lower_braced_value(
        &mut self,
        tree: &SyntaxTree,
        n: usize,
        base: &RawPath,
        own: Option<&Layout>,
        dims: usize,
    ) -> (r: Result<(), Error>)
        requires
            old(self).ready(),
            n < tree@.len(),
        ensures
            final(self).ready(),
            grows(old(self)@, final(self)@),
            settled_within(old(self)@, tree@, n) ==> r is Ok,
            (final(self)@, done(r)) == braced(
                tree@,
                old(self)@,
                n,
                base@,
                layout_view(own),
                dims as nat,
            ),
        decreases rest(tree@, n), 30nat, 0int,
    {
        proof {
            reveal(braced);
            reveal(elements);
            reveal(expr);
        }
        let _k = tree.kind(n);
        let elems = tree.named_children(n);
        if dims == 0 && own.is_none() && elems.len() == 1 {
            let e = elems[0];
            assert(inside(tree@, n, elems@[0]));
            let k = tree.kind(e);
            if k != Kind::InitializerList && k != Kind::InitializerPair {
                let v = self.flatten_expr(tree, e)?;
                self.add_assign_to_program(base, &v, None);
                return Ok(());
            }
        }
        if dims == 0 {
            self.lower_initializer_list(tree, n, base, own, None, 0)
        } else {
            self.lower_initializer_list(tree, n, base, None, own, dims)
        }
    }

    /// Stores the elements in the braces `n`, each to the place in `base` that its position or its
    /// designator names. `elem` is the layout of what is `depth` levels of braces down.
    ///
    /// # Errors
    ///
    /// In strict mode, the first report.
    fn lower_initializer_list(
        &mut self,
        tree: &SyntaxTree,
        n: usize,
        base: &RawPath,
        members: Option<&Layout>,
        elem: Option<&Layout>,
        depth: usize,
    ) -> (r: Result<(), Error>)
        requires
            old(self).ready(),
            n < tree@.len(),
        ensures
            final(self).ready(),
            grows(old(self)@, final(self)@),
            settled_within(old(self)@, tree@, n) ==> r is Ok,
            (final(self)@, done(r)) == elements(
                tree@,
                old(self)@,
                n,
                base@,
                layout_view(members),
                layout_view(elem),
                depth as nat,
                0,
                0,
            ),
        decreases rest(tree@, n), 20nat, 0int,
    {
        let ghost mv = layout_view(members);
        let ghost ev = layout_view(elem);
        proof {
            reveal(elements);
            reveal(expr);
        }
        let _k = tree.kind(n);
        let elems = tree.named_children(n);
        let mut i: usize = 0;
        let mut idx: usize = 0;
        while i < elems.len()
            invariant
                self.ready(),
                grows(old(self)@, self@),
                idx <= i <= elems@.len(),
                n < tree@.len() <= usize::MAX,
                mv == layout_view(members),
                ev == layout_view(elem),
                elems@ == named_children(tree@, n),
                forall|j: int| 0 <= j < elems@.len() ==> inside(tree@, n, #[trigger] elems@[j]),
                elements(tree@, self@, n, base@, mv, ev, depth as nat, i as int, idx) == elements(
                    tree@,
                    old(self)@,
                    n,
                    base@,
                    mv,
                    ev,
                    depth as nat,
                    0,
                    0,
                ),
            decreases elems@.len() - i,
        {
            proof {
                reveal(elements);
                reveal(expr);
            }
            let e = elems[i];
            let placed = self.place_element(tree, e, base, members, elem, depth, idx);
            let pair = tree.kind(e) == Kind::InitializerPair;
            let value = if pair {
                tree.part(e, Field::Value)
            } else {
                e
            };
            if tree.kind(value) == Kind::InitializerList {
                let inner: usize = if depth > 0 {
                    depth - 1
                } else {
                    0
                };
                self.lower_initializer_list(
                    tree,
                    value,
                    &placed.0,
                    borrowed(&placed.1),
                    elem,
                    inner,
                )?;
            } else {
                let v = self.flatten_expr(tree, value)?;
                self.add_assign_to_program(&placed.0, &v, None);
            }
            if !pair {
                idx = idx + 1;
            }
            i = i + 1;
        }
        Ok(())
    }

    fn flatten_statement_expression(&mut self, tree: &SyntaxTree, n: usize) -> (r: Result<
        Exp,
        Error,
    >)
        requires
            old(self).ready(),
            n < tree@.len(),
        ensures
            final(self).ready(),
            grows(old(self)@, final(self)@),
            settled_within(old(self)@, tree@, n) ==> r is Ok,
            (final(self)@, seen(r)) == block_value(tree@, old(self)@, n),
        decreases rest(tree@, n), 40nat, 0int,
    {
        proof {
            reveal(block_value);
            reveal(block_effects);
            reveal(expr);
        }
        let _k = tree.kind(n);
        let sidx = self.here().sidx;
        let span = self.span();
        self.lower_statement_expression_effects(tree, n)?;
        let v = match yielded_node(tree, n) {
            Some(c) => self.flatten_expr(tree, c)?,
            None => self.opaque_value()?,
        };
        let sv = ScopeView { sidx, ..self.here() };
        self.move_to(sv);
        self.restore_span(span);
        Ok(v)
    }

    fn statement_expression_place(&mut self, tree: &SyntaxTree, n: usize) -> (r: Result<
        RawPath,
        Error,
    >)
        requires
            old(self).ready(),
            n < tree@.len(),
        ensures
            final(self).ready(),
            grows(old(self)@, final(self)@),
            settled_within(old(self)@, tree@, n) ==> r is Ok,
            (final(self)@, seen(r)) == block_place(tree@, old(self)@, n),
        decreases rest(tree@, n), 9nat, 0int,
    {
        proof {
            reveal(block_place);
            reveal(block_effects);
            reveal(location);
        }
        let _k = tree.kind(n);
        let sidx = self.here().sidx;
        let span = self.span();
        self.lower_statement_expression_effects(tree, n)?;
        let p = match yielded_node(tree, n) {
            Some(c) => self.flatten_lvalue(tree, c)?,
            None => self.dead_temp_path()?,
        };
        let sv = ScopeView { sidx, ..self.here() };
        self.move_to(sv);
        self.restore_span(span);
        Ok(p)
    }

    /// Lowers everything in a statement expression but the expression whose value it has. Lowering
    /// is left in the inner scope, or, on an error, where it was.
    ///
    /// # Errors
    ///
    /// In strict mode, the first report.
    fn lower_statement_expression_effects(&mut self, tree: &SyntaxTree, n: usize) -> (r: Result<
        (),
        Error,
    >)
        requires
            old(self).ready(),
            n < tree@.len(),
        ensures
            final(self).ready(),
            grows(old(self)@, final(self)@),
            settled_within(old(self)@, tree@, n) ==> r is Ok,
            (final(self)@, done(r)) == block_effects(tree@, old(self)@, n),
        decreases rest(tree@, n), 8nat, 0int,
    {
        proof {
            reveal(block_effects);
            reveal(block_walk);
        }
        let here = self.here();
        match self.walk_statement_expression(tree, n) {
            Ok(()) => Ok(()),
            Err(e) => {
                self.move_to(here);
                Err(e)
            },
        }
    }

    /// Lowers the statements of a statement expression, but for the one whose value it has.
    ///
    /// # Errors
    ///
    /// In strict mode, the first report.
    fn walk_statement_expression(&mut self, tree: &SyntaxTree, n: usize) -> (r: Result<(), Error>)
        requires
            old(self).ready(),
            n < tree@.len(),
        ensures
            final(self).ready(),
            grows(old(self)@, final(self)@),
            settled_within(old(self)@, tree@, n) ==> r is Ok,
            (final(self)@, done(r)) == block_walk(tree@, old(self)@, n),
        decreases rest(tree@, n), 7nat, 0int,
    {
        proof {
            reveal(block_walk);
            reveal(body);
            reveal(statement);
        }
        let _k = tree.kind(n);
        let mut nodes = tree.plain_children(n);
        let ghost all = nodes@;
        let explainer = joined("after_stmt_expr_diverge::", decimal(tree.line(n)).as_str());
        let sv = self.add_scope();
        self.move_to(sv);
        match nodes.pop() {
            None => Ok(()),
            Some(last) => {
                assert(inside(tree@, n, all[all.len() - 1]));
                assert(nodes@ == all.drop_last());
                assert forall|j: int| 0 <= j < nodes@.len() implies inside(
                    tree@,
                    n,
                    #[trigger] nodes@[j],
                ) by {
                    assert(all[j] == nodes@[j]);
                }
                if self.walk_compound_body(tree, n, &nodes)? {
                    self.after_divergence(explainer.as_str())?;
                }
                if tree.kind(last) == Kind::ExpressionStatement {
                    self.set_span(tree, last);
                    Ok(())
                } else if self.walk_statement(tree, last)? {
                    self.after_divergence(explainer.as_str())
                } else {
                    Ok(())
                }
            },
        }
    }

    fn flatten_conditional(&mut self, tree: &SyntaxTree, n: usize) -> (r: Result<Exp, Error>)
        requires
            old(self).ready(),
            n < tree@.len(),
            tree@[n as int].kind == Kind::ConditionalExpression,
        ensures
            final(self).ready(),
            grows(old(self)@, final(self)@),
            settled_within(old(self)@, tree@, n) ==> r is Ok,
            (final(self)@, seen(r)) == conditional(tree@, old(self)@, n),
        decreases rest(tree@, n), 40nat, 0int,
    {
        proof {
            reveal(conditional);
            reveal(expr);
        }
        let _k = tree.kind(n);
        let cond = self.flatten_expr(tree, tree.part(n, Field::Condition))?;
        let yes = match tree.field(n, Field::Consequence) {
            Some(x) => self.flatten_expr(tree, x)?,
            None => cond,
        };
        let no = self.flatten_expr(tree, tree.part(n, Field::Alternative))?;
        let ghost vs = seq![yes@, no@];
        let mut values: Vec<Exp> = Vec::new();
        values.push(yes);
        values.push(no);
        assert(views(values@) =~= vs);
        Ok(self.blend_into_temp(&values))
    }

    fn flatten_generic(&mut self, tree: &SyntaxTree, n: usize) -> (r: Result<Exp, Error>)
        requires
            old(self).ready(),
            n < tree@.len(),
        ensures
            final(self).ready(),
            grows(old(self)@, final(self)@),
            settled_within(old(self)@, tree@, n) ==> r is Ok,
            (final(self)@, seen(r)) == generic(tree@, old(self)@, n),
        decreases rest(tree@, n), 40nat, 0int,
    {
        proof {
            reveal(generic);
            reveal(expr);
            reveal(exprs);
        }
        let _k = tree.kind(n);
        let (controlling, arms) = generic_selection_parts(tree, n);
        assert(generic_parts(tree@, n) == (controlling, arms@));
        proof {
            if settled_within(old(self)@, tree@, n) {
                selection_known(old(self)@.labels, tree@, n);
                assert forall|j: int| 0 <= j < arms@.len() implies #[trigger] labels_known(
                    old(self)@.labels,
                    tree@,
                    arms@[j],
                ) by {
                    assert(arms@[j] == generic_parts(tree@, n).1[j]);
                }
            }
        }
        if let Some(c) = controlling {
            self.flatten_expr(tree, c)?;
        }
        let values = self.flatten_exprs(tree, n, &arms)?;
        Ok(self.blend_into_temp(&values))
    }

    /// Lowers an inline assembly as an opaque transfer of its operands. Every input is read before
    /// any output is written.
    ///
    /// # Errors
    ///
    /// In strict mode, the first report.
    fn flatten_gnu_asm(&mut self, tree: &SyntaxTree, n: usize) -> (r: Result<Exp, Error>)
        requires
            old(self).ready(),
            n < tree@.len(),
        ensures
            final(self).ready(),
            grows(old(self)@, final(self)@),
            settled_within(old(self)@, tree@, n) ==> r is Ok,
            (final(self)@, seen(r)) == assembly(tree@, old(self)@, n),
        decreases rest(tree@, n), 40nat, 0int,
    {
        proof {
            reveal(assembly);
            reveal(asm_inputs);
            reveal(asm_outputs);
        }
        let _k = tree.kind(n);
        let mut sources = self.asm_inputs(tree, n)?;
        let targets = self.asm_outputs(tree, n, &mut sources)?;
        let v = self.asm_transfer(&sources, &targets);
        self.link_asm_goto_labels(tree, n)?;
        Ok(v)
    }

    fn asm_inputs(&mut self, tree: &SyntaxTree, n: usize) -> (r: Result<Vec<Exp>, Error>)
        requires
            old(self).ready(),
            n < tree@.len(),
        ensures
            final(self).ready(),
            grows(old(self)@, final(self)@),
            settled_within(old(self)@, tree@, n) ==> r is Ok,
            (final(self)@, listed(r)) == asm_inputs(
                tree@,
                old(self)@,
                n,
                asm_operands(tree@, n, Field::InputOperands),
                0,
                Seq::empty(),
            ),
        decreases rest(tree@, n), 5nat, 0int,
    {
        proof {
            reveal(asm_inputs);
            reveal(expr);
        }
        let _k = tree.kind(n);
        let nodes = gnu_asm_operands(tree, n, Field::InputOperands);
        let mut values: Vec<Exp> = Vec::new();
        assert(views(values@) =~= Seq::<ExpView>::empty());
        let mut i: usize = 0;
        while i < nodes.len()
            invariant
                self.ready(),
                grows(old(self)@, self@),
                i <= nodes@.len(),
                n < tree@.len() <= usize::MAX,
                shaped(tree@),
                nodes@ == asm_operands(tree@, n, Field::InputOperands),
                forall|j: int|
                    0 <= j < nodes@.len() ==> inside(tree@, n, #[trigger] nodes@[j])
                        && tree@[nodes@[j] as int].field == Field::Operand,
                asm_inputs(tree@, self@, n, nodes@, i as int, views(values@)) == asm_inputs(
                    tree@,
                    old(self)@,
                    n,
                    nodes@,
                    0,
                    Seq::empty(),
                ),
            decreases nodes@.len() - i,
        {
            proof {
                reveal(asm_inputs);
                reveal(expr);
            }
            let v = self.flatten_expr(tree, tree.operand_value(nodes[i]))?;
            values.push(v);
            i = i + 1;
        }
        Ok(values)
    }

    /// The places of the output operands. The values of those that are also read are added to
    /// `sources`.
    fn asm_outputs(&mut self, tree: &SyntaxTree, n: usize, sources: &mut Vec<Exp>) -> (r: Result<
        Vec<RawPath>,
        Error,
    >)
        requires
            old(self).ready(),
            n < tree@.len(),
        ensures
            final(self).ready(),
            grows(old(self)@, final(self)@),
            settled_within(old(self)@, tree@, n) ==> r is Ok,
            (final(self)@, match r {
                Ok(targets) => Ok((views(final(sources)@), views(targets@))),
                Err(e) => Err(e@),
            }) == asm_outputs(
                tree@,
                old(self)@,
                n,
                asm_operands(tree@, n, Field::OutputOperands),
                0,
                views(old(sources)@),
                Seq::empty(),
            ),
        decreases rest(tree@, n), 5nat, 0int,
    {
        proof {
            reveal(asm_outputs);
            reveal(location);
        }
        let _k = tree.kind(n);
        let nodes = gnu_asm_operands(tree, n, Field::OutputOperands);
        let mut targets: Vec<RawPath> = Vec::new();
        assert(views(targets@) =~= Seq::<PathView>::empty());
        let mut i: usize = 0;
        while i < nodes.len()
            invariant
                self.ready(),
                grows(old(self)@, self@),
                i <= nodes@.len(),
                n < tree@.len() <= usize::MAX,
                shaped(tree@),
                nodes@ == asm_operands(tree@, n, Field::OutputOperands),
                forall|j: int|
                    0 <= j < nodes@.len() ==> inside(tree@, n, #[trigger] nodes@[j])
                        && tree@[nodes@[j] as int].field == Field::Operand,
                asm_outputs(
                    tree@,
                    self@,
                    n,
                    nodes@,
                    i as int,
                    views(sources@),
                    views(targets@),
                ) == asm_outputs(
                    tree@,
                    old(self)@,
                    n,
                    nodes@,
                    0,
                    views(old(sources)@),
                    Seq::empty(),
                ),
            decreases nodes@.len() - i,
        {
            proof {
                reveal(asm_outputs);
                reveal(location);
            }
            let p = self.flatten_lvalue(tree, tree.operand_value(nodes[i]))?;
            if gnu_asm_operand_is_readwrite(tree, nodes[i]) {
                let v = self.read(&p);
                sources.push(v);
            }
            targets.push(p);
            i = i + 1;
        }
        Ok(targets)
    }

    /// Resolves an expression to the place it names, without reading it.
    ///
    /// # Errors
    ///
    /// In strict mode, the first report.
    pub fn flatten_lvalue(&mut self, tree: &SyntaxTree, n: usize) -> (r: Result<RawPath, Error>)
        requires
            old(self).ready(),
            n < tree@.len(),
        ensures
            final(self).ready(),
            grows(old(self)@, final(self)@),
            settled(old(self)@, tree@, n) ==> r is Ok,
            (final(self)@, seen(r)) == location(tree@, old(self)@, n),
        decreases rest(tree@, n), place_rank(kind_at(tree@, n)), 0int,
    {
        proof {
            reveal(location);
            reveal(expr);
            reveal(block_place);
        }
        let k = tree.kind(n);
        if k == Kind::Identifier || k == Kind::QualifiedIdentifier {
            let name = tree.text(n);
            if name.is_empty() {
                self.report_missing_name(tree, n)?;
                self.dead_temp_path()
            } else {
                Ok(self.build_access_path(name))
            }
        } else if k == Kind::FieldExpression {
            let field = tree.part(n, Field::Member);
            let mut base = self.flatten_lvalue(tree, tree.part(n, Field::Argument))?;
            let name = tree.text(field);
            if name.is_empty() {
                self.report_missing_name(tree, field)?;
                return self.dead_temp_path();
            }
            if base.is_pathless() && self.is_union(base.base) {
                base.push(union_field());
            } else {
                base.push(PathSegment::symbol(name));
            }
            Ok(base)
        } else if k == Kind::SubscriptExpression {
            match tree.subscript_index(n) {
                Some(i) => {
                    let mut base = self.flatten_lvalue(tree, tree.part(n, Field::Argument))?;
                    let index = self.flatten_expr(tree, i)?;
                    push_element(&mut base, constant_index(&index));
                    Ok(base)
                },
                None => {
                    self.blame(
                        tree,
                        n,
                        joined("ERR 78: Unsupported expression type: ", tree.kind_name(n)),
                    )?;
                    self.dead_temp_path()
                },
            }
        } else if k == Kind::CompoundStatement {
            self.statement_expression_place(tree, n)
        } else if k == Kind::StringLiteral || k == Kind::ConcatenatedString {
            self.dead_temp_path()
        } else if k == Kind::ParenthesizedExpression || k == Kind::ParenthesizedDeclarator {
            self.flatten_lvalue(tree, tree.paren_inner(n))
        } else if k == Kind::PointerExpression {
            let p = self.flatten_lvalue(tree, tree.part(n, Field::Argument))?;
            if is_operator(tree, n, "*") && p.is_pathless() {
                if let Some((a, block)) = self.alias(p.base) {
                    if block == self.here().blidx {
                        return match deref_of_pointee(&a) {
                            Some(q) => Ok(q),
                            None => Ok(RawPath::of(a.variable_ref)),
                        };
                    }
                }
            }
            Ok(p)
        } else {
            match self.flatten_expr(tree, n)? {
                Exp::Variable(v) => Ok(RawPath::of(v)),
                Exp::Str(constant) => {
                    if k == Kind::CastExpression && !constant.as_str().is_empty() {
                        Ok(literal_address_path(constant.as_str()))
                    } else {
                        self.not_a_location(tree, n)
                    }
                },
                _ => self.not_a_location(tree, n),
            }
        }
    }
}

/// The expression whose value a statement expression has.
fn yielded_node(tree: &SyntaxTree, n: usize) -> (c: Option<usize>)
    requires
        n < tree@.len(),
    ensures
        c == yielded(tree@, n),
        c matches Some(c) ==> inside(tree@, n, c),
{
    let nodes = tree.plain_children(n);
    if nodes.len() == 0 {
        return None;
    }
    let l = nodes[nodes.len() - 1];
    assert(inside(tree@, n, nodes@[nodes@.len() - 1]));
    if tree.kind(l) != Kind::ExpressionStatement {
        return None;
    }
    match tree.child(l, 0) {
        Some(c) => if is_empty_kind(tree.kind(c)) {
            None
        } else {
            Some(c)
        },
        None => None,
    }
}

} // verus!
