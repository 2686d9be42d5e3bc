//! The intermediate representation functions are lowered to: variables, access paths, statements,
//! basic blocks, functions.
//!
//! Every type that holds text has a view in which the text is the sequence of its characters;
//! contracts speak of the views.

use vstd::prelude::*;
use crate::collections::views;

verus! {

broadcast use crate::collections::group_views;

/// A variable of the function it occurs in, or the object all globals are fields of.
#[derive(Debug, Clone, Copy, PartialEq, Eq, Structural)]
pub enum VariableRef {
    /// A local, by its index in [`FunctionData::locals`].
    Local(usize),
    /// A formal parameter, by position.
    Param(usize),
    /// The globals object: a global `g` is its field `g`.
    Global,
}

/// How a parameter is passed.
#[derive(Debug, Clone, Copy, PartialEq, Eq, Structural)]
pub enum ParameterType {
    /// By value.
    ByVal,
    /// A handle on storage the caller can see written.
    ByRef,
}

/// One step of a path: pointer arithmetic, or a named field.
#[derive(Debug)]
pub enum PathSegment {
    /// Moves an address by this many elements.
    Offset(i64),
    /// Reads the field of that name.
    Symbol(String),
}

/// View of a [`PathSegment`].
pub ghost enum SegmentView {
    Offset(i64),
    Symbol(Seq<char>),
}

impl View for PathSegment {
    type V = SegmentView;

    open spec fn view(&self) -> SegmentView {
        match self {
            PathSegment::Offset(n) => SegmentView::Offset(*n),
            PathSegment::Symbol(s) => SegmentView::Symbol(s@),
        }
    }
}

impl PathSegment {
    /// The field named `name`.
    pub fn symbol(name: &str) -> (s: PathSegment)
        ensures
            s@ == SegmentView::Symbol(name@),
    {
        PathSegment::Symbol(String::from_str(name))
    }

    /// Another segment that says the same.
    pub fn copied(&self) -> (s: PathSegment)
        ensures
            s@ == self@,
    {
        match self {
            PathSegment::Offset(n) => PathSegment::Offset(*n),
            PathSegment::Symbol(s) => PathSegment::Symbol(s.clone()),
        }
    }
}

/// An address: a variable and the pointer arithmetic on it.
#[derive(Debug)]
pub struct AccessPath {
    pub variable_ref: VariableRef,
    pub offsets: Vec<i64>,
}

/// View of an [`AccessPath`].
pub ghost struct AddressView {
    pub base: VariableRef,
    pub offsets: Seq<i64>,
}

impl View for AccessPath {
    type V = AddressView;

    open spec fn view(&self) -> AddressView {
        AddressView { base: self.variable_ref, offsets: self.offsets@ }
    }
}

impl AccessPath {
    /// The variable itself.
    pub fn without_fields(v: VariableRef) -> (a: AccessPath)
        ensures
            a@ == (AddressView { base: v, offsets: Seq::empty() }),
    {
        AccessPath { variable_ref: v, offsets: Vec::new() }
    }

    /// Another path to the same address.
    pub fn copied(&self) -> (a: AccessPath)
        ensures
            a@ == self@,
    {
        let mut offsets: Vec<i64> = Vec::new();
        let mut i: usize = 0;
        while i < self.offsets.len()
            invariant
                i <= self.offsets@.len(),
                offsets@ == self.offsets@.take(i as int),
            decreases self.offsets@.len() - i,
        {
            offsets.push(self.offsets[i]);
            i = i + 1;
            assert(offsets@ =~= self.offsets@.take(i as int));
        }
        assert(offsets@ =~= self.offsets@);
        AccessPath { variable_ref: self.variable_ref, offsets }
    }
}

/// A base variable and the steps taken from it, before the reads are made into loads.
#[derive(Debug)]
pub struct RawPath {
    pub base: VariableRef,
    pub fields: Vec<PathSegment>,
}

/// View of a [`RawPath`].
pub ghost struct PathView {
    pub base: VariableRef,
    pub fields: Seq<SegmentView>,
}

impl View for RawPath {
    type V = PathView;

    open spec fn view(&self) -> PathView {
        PathView { base: self.base, fields: views(self.fields@) }
    }
}

impl PathView {
    /// The path that is `self` and one more step.
    pub open spec fn step(self, s: SegmentView) -> PathView {
        PathView { base: self.base, fields: self.fields.push(s) }
    }

    /// The path that is the variable `v`.
    pub open spec fn of(v: VariableRef) -> PathView {
        PathView { base: v, fields: Seq::empty() }
    }
}

impl RawPath {
    /// The path from `base` along `fields`.
    pub fn new(base: VariableRef, fields: Vec<PathSegment>) -> (p: RawPath)
        ensures
            p@ == (PathView { base, fields: views(fields@) }),
    {
        RawPath { base, fields }
    }

    /// The path that is the variable `v`.
    pub fn of(v: VariableRef) -> (p: RawPath)
        ensures
            p@ == PathView::of(v),
    {
        let p = RawPath { base: v, fields: Vec::new() };
        assert(p@.fields =~= PathView::of(v).fields);
        p
    }

    /// Whether the path is a bare variable.
    pub fn is_pathless(&self) -> (b: bool)
        ensures
            b == (self@.fields.len() == 0),
    {
        self.fields.len() == 0
    }

    /// Adds one step.
    pub fn push(&mut self, s: PathSegment)
        ensures
            final(self)@ == old(self)@.step(s@),
    {
        self.fields.push(s);
    }

    /// Another path that says the same.
    pub fn copied(&self) -> (p: RawPath)
        ensures
            p@ == self@,
    {
        let mut fields: Vec<PathSegment> = Vec::new();
        let mut i: usize = 0;
        while i < self.fields.len()
            invariant
                i <= self.fields@.len(),
                views(fields@) == views(self.fields@).take(i as int),
            decreases self.fields@.len() - i,
        {
            fields.push(self.fields[i].copied());
            i = i + 1;
            assert(views(fields@) =~= views(self.fields@).take(i as int));
        }
        assert(views(fields@) =~= views(self.fields@));
        RawPath { base: self.base, fields }
    }
}

/// An operand.
#[derive(Debug)]
pub enum Exp {
    /// The value of a variable.
    Variable(VariableRef),
    /// An address that is not a bare variable.
    AccessPath(AccessPath),
    /// A constant, as written in the source.
    Str(String),
    /// A function used as a value.
    FunctionPtr(String),
}

/// View of an [`Exp`].
pub ghost enum ExpView {
    Variable(VariableRef),
    AccessPath(AddressView),
    Str(Seq<char>),
    FunctionPtr(Seq<char>),
}

impl View for Exp {
    type V = ExpView;

    open spec fn view(&self) -> ExpView {
        match self {
            Exp::Variable(v) => ExpView::Variable(*v),
            Exp::AccessPath(a) => ExpView::AccessPath(a@),
            Exp::Str(s) => ExpView::Str(s@),
            Exp::FunctionPtr(s) => ExpView::FunctionPtr(s@),
        }
    }
}

impl ExpView {
    /// The operand that is the address `a`: the variable itself when there is no arithmetic.
    pub open spec fn address(a: AddressView) -> ExpView {
        if a.offsets.len() == 0 {
            ExpView::Variable(a.base)
        } else {
            ExpView::AccessPath(a)
        }
    }
}

impl Exp {
    /// The operand that is the address `a`: the variable itself when there is no arithmetic.
    pub fn access_path(a: AccessPath) -> (e: Exp)
        ensures
            e@ == ExpView::address(a@),
    {
        if a.offsets.len() == 0 {
            Exp::Variable(a.variable_ref)
        } else {
            Exp::AccessPath(a)
        }
    }

    /// Another operand that says the same.
    pub fn copied(&self) -> (e: Exp)
        ensures
            e@ == self@,
    {
        match self {
            Exp::Variable(v) => Exp::Variable(*v),
            Exp::AccessPath(a) => Exp::AccessPath(a.copied()),
            Exp::Str(s) => Exp::Str(s.clone()),
            Exp::FunctionPtr(s) => Exp::FunctionPtr(s.clone()),
        }
    }
}

/// How a call finds its callee.
#[derive(Debug)]
pub enum CallStyle {
    /// By name: one of these functions.
    DirectCall(Vec<String>),
    /// Through the function pointer at an address.
    FuncPtrCall {
        callee: AccessPath,
        signature: Option<String>,
    },
}

/// View of a [`CallStyle`].
pub ghost enum CallStyleView {
    DirectCall(Seq<Seq<char>>),
    FuncPtrCall {
        callee: AddressView,
        signature: Option<Seq<char>>,
    },
}

impl View for CallStyle {
    type V = CallStyleView;

    open spec fn view(&self) -> CallStyleView {
        match self {
            CallStyle::DirectCall(names) => CallStyleView::DirectCall(views(names@)),
            CallStyle::FuncPtrCall { callee, signature } => CallStyleView::FuncPtrCall {
                callee: callee@,
                signature: match signature {
                    Some(s) => Some(s@),
                    None => None,
                },
            },
        }
    }
}

/// What a statement does.
#[derive(Debug)]
pub enum StatementKind {
    /// `dest` takes its value from all of `args`.
    Assign { dest: VariableRef, args: Vec<Exp> },
    /// `dest` takes the value of `field` at `address`.
    Load { dest: VariableRef, address: AccessPath, field: String },
    /// `field` at `address` takes `value`.
    Store { address: AccessPath, field: String, value: Exp },
    /// `rets` take what the call returns.
    CallAssign { style: CallStyle, rets: Vec<VariableRef>, args: Vec<Exp> },
}

/// View of a [`StatementKind`].
pub ghost enum StatementKindView {
    Assign { dest: VariableRef, args: Seq<ExpView> },
    Load { dest: VariableRef, address: AddressView, field: Seq<char> },
    Store { address: AddressView, field: Seq<char>, value: ExpView },
    CallAssign { style: CallStyleView, rets: Seq<VariableRef>, args: Seq<ExpView> },
}

impl View for StatementKind {
    type V = StatementKindView;

    open spec fn view(&self) -> StatementKindView {
        match self {
            StatementKind::Assign { dest, args } => StatementKindView::Assign {
                dest: *dest,
                args: views(args@),
            },
            StatementKind::Load { dest, address, field } => StatementKindView::Load {
                dest: *dest,
                address: address@,
                field: field@,
            },
            StatementKind::Store { address, field, value } => StatementKindView::Store {
                address: address@,
                field: field@,
                value: value@,
            },
            StatementKind::CallAssign { style, rets, args } => StatementKindView::CallAssign {
                style: style@,
                rets: rets@,
                args: views(args@),
            },
        }
    }
}

/// A stretch of a translation unit's source, in bytes.
#[derive(Debug, Clone, Copy, PartialEq, Eq, Structural)]
pub struct Span {
    /// Index of the unit among those lowered together.
    pub unit: usize,
    pub start: u32,
    pub len: u32,
}

/// A statement and the source it came from, where that is recorded.
#[derive(Debug)]
pub struct Statement {
    pub kind: StatementKind,
    pub span: Option<Span>,
}

/// View of a [`Statement`].
pub ghost struct StatementView {
    pub kind: StatementKindView,
    pub span: Option<Span>,
}

impl View for Statement {
    type V = StatementView;

    open spec fn view(&self) -> StatementView {
        StatementView { kind: self.kind@, span: self.span }
    }
}

/// How a block ends.
#[derive(Debug)]
pub enum Terminator {
    /// Control goes to one of these blocks.
    Goto(Vec<usize>),
    /// The function returns these values.
    Return(Vec<Exp>),
}

/// View of a [`Terminator`].
pub ghost enum TerminatorView {
    Goto(Seq<usize>),
    Return(Seq<ExpView>),
}

impl View for Terminator {
    type V = TerminatorView;

    open spec fn view(&self) -> TerminatorView {
        match self {
            Terminator::Goto(targets) => TerminatorView::Goto(targets@),
            Terminator::Return(args) => TerminatorView::Return(views(args@)),
        }
    }
}

/// A basic block; one still being built has no terminator.
#[derive(Debug)]
pub struct BasicBlockData {
    pub statements: Vec<Statement>,
    pub terminator: Option<Terminator>,
}

/// View of a [`BasicBlockData`].
pub ghost struct BlockView {
    pub statements: Seq<StatementView>,
    pub terminator: Option<TerminatorView>,
}

impl View for BasicBlockData {
    type V = BlockView;

    open spec fn view(&self) -> BlockView {
        BlockView {
            statements: views(self.statements@),
            terminator: match self.terminator {
                Some(t) => Some(t@),
                None => None,
            },
        }
    }
}

impl BlockView {
    /// A block with nothing in it.
    pub open spec fn fresh() -> BlockView {
        BlockView { statements: Seq::empty(), terminator: None }
    }
}

impl BasicBlockData {
    /// A block with nothing in it.
    pub fn new() -> (b: BasicBlockData)
        ensures
            b@ == BlockView::fresh(),
    {
        let b = BasicBlockData { statements: Vec::new(), terminator: None };
        assert(b@.statements =~= BlockView::fresh().statements);
        b
    }
}

/// A function: without blocks, one that is only declared.
#[derive(Debug)]
pub struct FunctionData {
    pub name: String,
    pub params: Vec<ParameterType>,
    /// The names of its parameters, where they are known.
    pub param_names: Vec<String>,
    /// How many values it returns.
    pub return_arity: usize,
    /// The names of its locals; a local is an index in here.
    pub locals: Vec<String>,
    pub blocks: Vec<BasicBlockData>,
}

/// View of a [`FunctionData`].
pub ghost struct FunctionView {
    pub name: Seq<char>,
    pub params: Seq<ParameterType>,
    pub param_names: Seq<Seq<char>>,
    pub return_arity: usize,
    pub locals: Seq<Seq<char>>,
    pub blocks: Seq<BlockView>,
}

impl View for FunctionData {
    type V = FunctionView;

    open spec fn view(&self) -> FunctionView {
        FunctionView {
            name: self.name@,
            params: self.params@,
            param_names: views(self.param_names@),
            return_arity: self.return_arity,
            locals: views(self.locals@),
            blocks: views(self.blocks@),
        }
    }
}

impl FunctionView {
    /// A function nothing is known of yet.
    pub open spec fn fresh() -> FunctionView {
        FunctionView {
            name: Seq::empty(),
            params: Seq::empty(),
            param_names: Seq::empty(),
            return_arity: 0,
            locals: Seq::empty(),
            blocks: Seq::empty(),
        }
    }
}

impl FunctionData {
    /// A function nothing is known of yet.
    pub fn new() -> (f: FunctionData)
        ensures
            f@ == FunctionView::fresh(),
    {
        let f = FunctionData {
            name: String::new(),
            params: Vec::new(),
            param_names: Vec::new(),
            return_arity: 0,
            locals: Vec::new(),
            blocks: Vec::new(),
        };
        assert(f@.param_names =~= FunctionView::fresh().param_names);
        assert(f@.locals =~= FunctionView::fresh().locals);
        assert(f@.blocks =~= FunctionView::fresh().blocks);
        f
    }
}

/// A program: its functions.
#[derive(Debug)]
pub struct Program {
    pub functions: Vec<FunctionData>,
}

impl View for Program {
    type V = Seq<FunctionView>;

    open spec fn view(&self) -> Seq<FunctionView> {
        views(self.functions@)
    }
}

} // verus!
