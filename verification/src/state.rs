//! What lowering keeps track of, and the steps it is made of.
//!
//! [`State`] is the view of a [`Context`]: the function as far as it has been lowered, the scopes,
//! and where lowering stands. Every step is a function on states; a method of the context does to
//! the context what the step does to its view.

use vstd::prelude::*;
use crate::classes::{class_at, qualified, qualified_name, ClassTables, TablesView};
use crate::collections::{views, IdSet, NameMap, NameSet, PairMap, PairSet, Table};
use crate::error::{Error, ErrorView};
use crate::mir::{AccessPath, AddressView, BasicBlockData, BlockView, Exp, ExpView, FunctionData, FunctionView, ParameterType, PathSegment, PathView, RawPath, SegmentView, Span, Statement, StatementKind, StatementKindView, StatementView, Terminator, TerminatorView, VariableRef};
use crate::objects::{Objects, ObjectsView};
use crate::paths::deref_segment;
use crate::report::{Attribution, Report, ReportView};
use crate::scope::{ir_name, meaning, nested, with_scope, with_variable, ScopeTree, ScopesView, VarKind};
use crate::shapes::{Layout, SlotView};
use crate::syntax::{SyntaxTree, TreeView};
use crate::text::{dec, decimal, joined, same};

verus! {

broadcast use crate::collections::group_views;

/// Where lowering stands: the current block and scope, and where control goes from here.
#[derive(Debug, Clone, Copy)]
pub struct ScopeView {
    /// The block that statements are added to.
    pub blidx: usize,
    /// The scope that names are looked up in.
    pub sidx: usize,
    /// Where control goes at the end of the enclosing body; `None` at the end of the function.
    pub continuation_blidx: Option<usize>,
    /// Where a `break` jumps to; `None` outside of any `switch` or loop.
    pub break_target: Option<usize>,
    /// Where a `continue` jumps to; `None` outside of any loop.
    pub continue_target: Option<usize>,
}

/// What a block is for, for a reader of the IR.
#[derive(Debug)]
pub struct Note {
    pub func_name: String,
    pub blidx: usize,
    pub explainer: String,
}

/// View of a [`Note`].
pub ghost struct NoteView {
    pub func_name: Seq<char>,
    pub blidx: usize,
    pub explainer: Seq<char>,
}

impl View for Note {
    type V = NoteView;

    open spec fn view(&self) -> NoteView {
        NoteView { func_name: self.func_name@, blidx: self.blidx, explainer: self.explainer@ }
    }
}

/// What lowering a translation unit is told and does not change.
#[derive(Debug)]
pub struct Env<'a> {
    /// Every function of the import, by IR name.
    pub functions: &'a NameMap,
    /// Names that some unit declares as functions.
    pub declared_functions: &'a NameSet,
    /// Names that some unit uses as types.
    pub type_names: &'a NameSet,
    /// The layouts of this unit's records.
    pub struct_layouts: &'a Table<Layout>,
    /// For a name that several definitions claim, the IR name that a reference from this unit
    /// means.
    pub local_names: &'a Table<String>,
    /// Whether a report is an error.
    pub strict: bool,
    /// The number and length of this unit, where spans are recorded.
    pub unit: Option<(usize, usize)>,
    /// The classes of the unit.
    pub tables: &'a ClassTables,
}

/// View of an [`Env`].
pub ghost struct EnvView {
    pub functions: Map<Seq<char>, usize>,
    pub declared: Set<Seq<char>>,
    pub types: Set<Seq<char>>,
    pub layouts: Map<Seq<char>, Seq<SlotView>>,
    pub local_names: Map<Seq<char>, Seq<char>>,
    pub strict: bool,
    pub unit: Option<(usize, usize)>,
    pub tables: TablesView,
}

impl<'a> View for Env<'a> {
    type V = EnvView;

    open spec fn view(&self) -> EnvView {
        EnvView {
            functions: self.functions@,
            declared: self.declared_functions@,
            types: self.type_names@,
            layouts: self.struct_layouts@,
            local_names: self.local_names@,
            strict: self.strict,
            unit: self.unit,
            tables: self.tables@,
        }
    }
}

impl<'a> Env<'a> {
    /// Whether the tables are sound.
    pub open spec fn wf(&self) -> bool {
        self.struct_layouts.wf() && self.local_names.wf()
    }
}

/// The state of lowering a translation unit.
pub ghost struct State {
    pub env: EnvView,
    /// The function being lowered.
    pub fun: FunctionView,
    /// Whether what the function held before returns as many values as it is to return now.
    pub fits: bool,
    /// How many temporaries the function has been given.
    pub temps: nat,
    pub scopes: ScopesView,
    pub notes: Seq<NoteView>,
    /// The block of each label of the function.
    pub labels: Map<Seq<char>, usize>,
    /// The label blocks that have been entered.
    pub walked: Set<usize>,
    /// What a pointer is known to point at, and the block that this was found in.
    pub aliases: Map<VariableRef, (AddressView, usize)>,
    /// The variables whose type is a union.
    pub unions: Set<VariableRef>,
    /// The source of the statement being lowered.
    pub span: Option<Span>,
    /// The unparsable nodes that have been reported.
    pub errors: Set<usize>,
    /// The functions reported to hold parse-recovery output.
    pub recovered: Set<Seq<char>>,
    pub reports: Seq<ReportView>,
    /// What is known of the objects of the function.
    pub objects: ObjectsView,
    /// Where lowering stands.
    pub at: ScopeView,
}

/// What a step leaves: the state, and its result.
pub type Outcome<T> = (State, Result<T, ErrorView>);

/// The view of what a method returns.
pub open spec fn seen<T: View>(r: Result<T, Error>) -> Result<T::V, ErrorView> {
    match r {
        Ok(v) => Ok(v@),
        Err(e) => Err(e@),
    }
}

/// The view of what a method returns that only succeeds or fails.
pub open spec fn done<T>(r: Result<T, Error>) -> Result<T, ErrorView> {
    match r {
        Ok(v) => Ok(v),
        Err(e) => Err(e@),
    }
}

/// The view of what a method returns that may find nothing.
pub open spec fn maybe<T: View>(r: Result<Option<T>, Error>) -> Result<Option<T::V>, ErrorView> {
    match r {
        Ok(Some(v)) => Ok(Some(v@)),
        Ok(None) => Ok(None),
        Err(e) => Err(e@),
    }
}

/// The view of what a method returns that yields several items.
pub open spec fn listed<T: View>(r: Result<Vec<T>, Error>) -> Result<Seq<T::V>, ErrorView> {
    match r {
        Ok(v) => Ok(views(v@)),
        Err(e) => Err(e@),
    }
}

// Validity

/// Whether a place in the function may be `b`.
pub open spec fn target_in(st: State, b: Option<usize>) -> bool {
    b matches Some(i) ==> i < st.fun.blocks.len()
}

/// Whether lowering can stand at `sv`.
pub open spec fn within(st: State, sv: ScopeView) -> bool {
    &&& sv.blidx < st.fun.blocks.len()
    &&& sv.sidx < st.scopes.len()
    &&& target_in(st, sv.continuation_blidx)
    &&& target_in(st, sv.break_target)
    &&& target_in(st, sv.continue_target)
}

/// Whether every jump leads to a block of the function.
pub open spec fn jumps_inside(blocks: Seq<BlockView>) -> bool {
    forall|b: int, k: int| #![trigger blocks[b].terminator->0->Goto_0[k]]
        0 <= b < blocks.len() && blocks[b].terminator is Some && blocks[b].terminator->0 is Goto
            && 0 <= k < blocks[b].terminator->0->Goto_0.len()
            ==> blocks[b].terminator->0->Goto_0[k] < blocks.len()
}

/// Whether every return carries one value or as many as the function returns.
pub open spec fn returns_fit(f: FunctionView) -> bool {
    forall|b: int| #![trigger f.blocks[b]]
        0 <= b < f.blocks.len() ==> (f.blocks[b].terminator matches Some(TerminatorView::Return(args))
            ==> args.len() == 1 || args.len() == f.return_arity)
}

/// Whether no two locals have one name.
pub open spec fn locals_distinct(f: FunctionView) -> bool {
    forall|i: int, j: int| 0 <= i < j < f.locals.len() ==> #[trigger] f.locals[i]
        != #[trigger] f.locals[j]
}

/// Whether every label has a block.
pub open spec fn labels_inside(st: State) -> bool {
    forall|l: Seq<char>| #[trigger]
        st.labels.contains_key(l) ==> st.labels[l] < st.fun.blocks.len()
}

/// Whether a state is sound.
#[verifier::opaque]
pub open spec fn sound(st: State) -> bool {
    &&& nested(st.scopes)
    &&& labels_inside(st)
    &&& jumps_inside(st.fun.blocks)
    &&& st.fits ==> returns_fit(st.fun)
    &&& locals_distinct(st.fun)
}

/// Whether a state is sound, and lowering stands at a place in it.
pub open spec fn ok(st: State) -> bool {
    sound(st) && within(st, st.at)
}

/// What never changes or shrinks while a function is lowered.
pub open spec fn grows(a: State, b: State) -> bool {
    &&& b.env == a.env
    &&& b.fits == a.fits
    &&& b.fun.name == a.fun.name
    &&& b.fun.params == a.fun.params
    &&& b.fun.return_arity == a.fun.return_arity
    &&& b.labels == a.labels
    &&& a.fun.blocks.len() <= b.fun.blocks.len()
    &&& a.scopes.len() <= b.scopes.len()
}

// Steps

/// Says what was not lowered as written. In strict mode this is an error.
#[verifier::opaque]
pub open spec fn report(st: State, attribution: Attribution, message: Seq<char>) -> Outcome<()> {
    let st = State { reports: st.reports.push(ReportView { attribution, message }), ..st };
    if st.env.strict {
        (st, Err(ErrorView::TreeSitterParse(message)))
    } else {
        (st, Ok(()))
    }
}

/// The number of the first string that is `name`, from number `i` on; the number of strings if
/// there is none.
pub open spec fn index_from(names: Seq<Seq<char>>, i: int, name: Seq<char>) -> int
    decreases names.len() - i,
{
    if i < 0 || i >= names.len() {
        names.len() as int
    } else if names[i] == name {
        i
    } else {
        index_from(names, i + 1, name)
    }
}

/// The local named `name`, which is added to the function if it is not there.
#[verifier::opaque]
pub open spec fn intern(st: State, name: Seq<char>) -> (State, VariableRef) {
    let i = index_from(st.fun.locals, 0, name);
    if i < st.fun.locals.len() {
        (st, VariableRef::Local(i as usize))
    } else {
        (
            State {
                fun: FunctionView { locals: st.fun.locals.push(name), ..st.fun },
                ..st
            },
            VariableRef::Local(st.fun.locals.len() as usize),
        )
    }
}

/// The name of temporary number `k`. No identifier has angle brackets in it.
pub open spec fn temp_name(k: nat) -> Seq<char> {
    "<t"@ + dec(k) + ">"@
}

/// The state after a temporary has been named.
pub open spec fn temp_named(st: State) -> State {
    State { temps: st.temps + 1, ..st }
}

/// A temporary that nothing else names.
pub open spec fn fresh(st: State) -> (State, VariableRef) {
    intern(temp_named(st), temp_name(st.temps))
}

/// Whether a name is that of a temporary.
pub open spec fn temp_prefix(name: Seq<char>) -> bool {
    name.len() >= 2 && name[0] == '<' && name[1] == 't'
}

/// Temporaries have names of their own: no two of them share one, and no name of the source is one of
/// them.
pub proof fn temporaries_have_names_of_their_own(j: nat, k: nat, name: Seq<char>)
    requires
        j != k,
        !temp_prefix(name),
    ensures
        temp_name(j) != temp_name(k),
        temp_name(j) != name,
{
    reveal_strlit("<t");
    reveal_strlit(">");
    let a = temp_name(j);
    let b = temp_name(k);
    if a == b {
        assert(a.subrange(2, a.len() - 1) =~= dec(j));
        assert(b.subrange(2, b.len() - 1) =~= dec(k));
        crate::text::dec_is_injective(j, k);
    }
    assert(a[0] == '<' && a[1] == 't');
}

/// A local is the variable of one name: different names are different variables, and a name stays the
/// same variable whatever is named in between.
pub proof fn a_local_has_one_name(st: State, a: Seq<char>, b: Seq<char>)
    requires
        locals_distinct(st.fun),
        st.fun.locals.len() < usize::MAX,
    ensures
        a != b ==> intern(intern(st, a).0, b).1 != intern(st, a).1,
        intern(intern(intern(st, a).0, b).0, a).1 == intern(st, a).1,
        locals_distinct(intern(st, a).0.fun),
{
    reveal(intern);
    let one = intern(st, a).0;
    let two = intern(one, b).0;
    lemma_index_from(st.fun.locals, 0, a);
    lemma_index_from(one.fun.locals, 0, a);
    lemma_index_from(one.fun.locals, 0, b);
    lemma_index_from(two.fun.locals, 0, a);
    let i = index_from(st.fun.locals, 0, a);
    let k = index_from(two.fun.locals, 0, a);
    assert(one.fun.locals[i] == a);
    assert(two.fun.locals[i] == a);
    if k < i {
        assert(st.fun.locals[k] == two.fun.locals[k]);
    }
    assert(k == i);
}

/// The path of the member that `name` is in the class whose member function is lowered: a field of
/// the receiver, or, for a static member, a global of the class.
pub open spec fn member_path(st: State, name: Seq<char>) -> Option<PathView> {
    match st.objects.class {
        Some(c) => match class_at(st.env.tables.classes, c.0) {
            Some(info) => if info.static_members.contains(name) {
                Some(global_path(qualified(c.0, name)))
            } else if c.1 && info.members.contains(name) {
                Some(receiver_field(name))
            } else {
                None
            },
            None => None,
        },
        None => None,
    }
}

/// The path of a field of the receiver, which is the first parameter.
pub open spec fn receiver_field(name: Seq<char>) -> PathView {
    PathView { base: VariableRef::Param(0), fields: seq![SegmentView::Symbol(name)] }
}

/// The path of what `name` means here: what a reference of that name stands for, or the variable; a
/// name that is not declared is a member of the class, or else a global.
#[verifier::opaque]
pub open spec fn named(st: State, name: Seq<char>) -> (State, PathView) {
    if st.objects.refs.contains_key(name) {
        (st, st.objects.refs[name])
    } else {
    match meaning(st.scopes, st.at.sidx, name) {
        Some(v) => match v.kind {
            VarKind::Global => (st, global_path(ir_name(st.scopes, v))),
            VarKind::Local => {
                let r = intern(st, ir_name(st.scopes, v));
                (r.0, PathView::of(r.1))
            },
            VarKind::Parameter(i) => (st, PathView::of(VariableRef::Param(i))),
        },
        None => if temp_prefix(name) {
            let r = intern(st, name);
            (r.0, PathView::of(r.1))
        } else {
            match member_path(st, name) {
                Some(p) => (st, p),
                None => (st, global_path(name)),
            }
        },
    }
    }
}

/// The path of the global `name`: a field of the globals object.
pub open spec fn global_path(name: Seq<char>) -> PathView {
    PathView { base: VariableRef::Global, fields: seq![SegmentView::Symbol(name)] }
}

/// Adds a statement to the current block.
#[verifier::opaque]
pub open spec fn emit(st: State, kind: StatementKindView) -> State {
    let b = st.fun.blocks[st.at.blidx as int];
    let s = StatementView { kind, span: st.span };
    with_block(st, st.at.blidx, BlockView { statements: b.statements.push(s), ..b })
}

/// Replaces block `i`.
pub open spec fn with_block(st: State, i: usize, b: BlockView) -> State {
    State { fun: FunctionView { blocks: st.fun.blocks.update(i as int, b), ..st.fun }, ..st }
}

/// Makes the field reads of a path, from segment `i` on, into loads; what is left is an address.
pub open spec fn load_steps(
    st: State,
    base: VariableRef,
    offsets: Seq<i64>,
    fields: Seq<SegmentView>,
    i: int,
) -> (State, AddressView)
    decreases fields.len() - i,
{
    if i < 0 || i >= fields.len() {
        (st, AddressView { base, offsets })
    } else {
        match fields[i] {
            SegmentView::Offset(n) => load_steps(st, base, offsets.push(n), fields, i + 1),
            SegmentView::Symbol(field) => {
                let v = fresh(st);
                let st = emit(
                    v.0,
                    StatementKindView::Load {
                        dest: v.1,
                        address: AddressView { base, offsets },
                        field,
                    },
                );
                load_steps(st, v.1, Seq::empty(), fields, i + 1)
            },
        }
    }
}

/// Makes the field reads of a path into loads; what is left is an address.
#[verifier::opaque]
pub open spec fn loads(st: State, p: PathView) -> (State, AddressView) {
    load_steps(st, p.base, Seq::empty(), p.fields, 0)
}

/// The value that a read of the path `p` yields.
pub open spec fn read(st: State, p: PathView) -> (State, ExpView) {
    let r = loads(st, p);
    (r.0, ExpView::address(r.1))
}

/// The operands of an assignment.
pub open spec fn operands(left: ExpView, right: Option<ExpView>) -> Seq<ExpView> {
    match right {
        Some(r) => seq![left, r],
        None => seq![left],
    }
}

/// The segments that a store goes along: one to an address goes to the memory there.
pub open spec fn store_fields(fields: Seq<SegmentView>) -> Seq<SegmentView> {
    if fields.len() > 0 && fields.last() is Offset {
        fields.push(deref_segment())
    } else {
        fields
    }
}

/// Writes to a path. A variable takes its value from both operands. A store writes one value: the
/// reads on the way to the field are loads, and the second operand is dropped.
#[verifier::opaque]
pub open spec fn assign(
    st: State,
    target: PathView,
    left: ExpView,
    right: Option<ExpView>,
) -> State {
    if target.fields.len() == 0 {
        emit(st, StatementKindView::Assign { dest: target.base, args: operands(left, right) })
    } else {
        let fields = store_fields(target.fields);
        let r = loads(st, PathView { base: target.base, fields: fields.drop_last() });
        match fields.last() {
            SegmentView::Symbol(field) => emit(
                r.0,
                StatementKindView::Store { address: r.1, field, value: left },
            ),
            SegmentView::Offset(_) => r.0,
        }
    }
}

/// The message for an edge out of a block that returns.
pub open spec fn dropped_edge(from: usize, to: usize) -> Seq<char> {
    "continuation edge into a block that already returns, dropped: "@ + dec(from as nat) + " -> "@
        + dec(to as nat)
}

/// Lets control go from one block to another. A block that returns has no way on, and keeps its
/// return.
#[verifier::opaque]
pub open spec fn link(st: State, from: usize, to: usize) -> Outcome<()> {
    let b = st.fun.blocks[from as int];
    match b.terminator {
        None => (
            with_block(
                st,
                from,
                BlockView { terminator: Some(TerminatorView::Goto(seq![to])), ..b },
            ),
            Ok(()),
        ),
        Some(TerminatorView::Goto(targets)) => (
            with_block(
                st,
                from,
                BlockView { terminator: Some(TerminatorView::Goto(targets.push(to))), ..b },
            ),
            Ok(()),
        ),
        Some(TerminatorView::Return(_)) => report(
            st,
            Attribution::FrontendGap,
            dropped_edge(from, to),
        ),
    }
}

/// The local that every return without a value reads. It is never written, so it carries nothing.
pub open spec fn implicit_return_local() -> Seq<char> {
    "<implicit-return>"@
}

/// Ends a block with the return that the source does not spell out: of nothing, or of a value
/// that is indeterminate.
#[verifier::opaque]
pub open spec fn return_implicitly(st: State, b: usize) -> State {
    if st.fun.return_arity == 0 {
        ended(st, b, TerminatorView::Return(Seq::empty()))
    } else {
        let r = intern(st, implicit_return_local());
        ended(
            r.0,
            b,
            TerminatorView::Return(
                Seq::new(st.fun.return_arity as nat, |i: int| ExpView::Variable(r.1)),
            ),
        )
    }
}

/// Ends a block, whatever it ended with before.
pub open spec fn ended(st: State, b: usize, t: TerminatorView) -> State {
    with_block(st, b, BlockView { terminator: Some(t), ..st.fun.blocks[b as int] })
}

/// Lets control go from a block to where it goes at the end of a body. At the end of the function
/// it returns.
#[verifier::opaque]
pub open spec fn link_end(st: State, from: usize, to: Option<usize>) -> Outcome<()> {
    match to {
        Some(b) => link(st, from, b),
        None => if st.fun.blocks[from as int].terminator is Some {
            (st, Ok(()))
        } else {
            (return_implicitly(st, from), Ok(()))
        },
    }
}

/// The name of a scope inside a function.
pub open spec fn inner_scope_name(st: State) -> Seq<char> {
    st.fun.name + ".cs"@
}

/// Opens a scope inside the current one.
#[verifier::opaque]
pub open spec fn open_scope(st: State, name: Seq<char>) -> (State, ScopeView) {
    (
        State { scopes: with_scope(st.scopes, name, Some(st.at.sidx)), ..st },
        ScopeView { sidx: st.scopes.len() as usize, ..st.at },
    )
}

/// Notes what a block is for.
pub open spec fn noted(st: State, blidx: usize, explainer: Seq<char>) -> State {
    State {
        notes: st.notes.push(NoteView { func_name: st.fun.name, blidx, explainer }),
        ..st
    }
}

/// Adds a block, with a scope of its own if `scoped`, and lets control go to it from the current
/// block if `linked`.
#[verifier::opaque]
pub open spec fn add_block(
    st: State,
    scoped: bool,
    linked: bool,
    explainer: Seq<char>,
) -> Outcome<ScopeView> {
    let blidx = st.fun.blocks.len() as usize;
    let from = st.at.blidx;
    let st = State {
        fun: FunctionView { blocks: st.fun.blocks.push(BlockView::fresh()), ..st.fun },
        ..st
    };
    let r = if scoped {
        open_scope(st, inner_scope_name(st))
    } else {
        (st, st.at)
    };
    let sv = ScopeView { blidx, ..r.1 };
    let l = if linked {
        link(r.0, from, blidx)
    } else {
        (r.0, Ok(()))
    };
    match l.1 {
        Ok(()) => (noted(l.0, blidx, dec(blidx as nat) + "."@ + explainer), Ok(sv)),
        Err(e) => (l.0, Err(e)),
    }
}

/// Declares a variable in the current scope.
#[verifier::opaque]
pub open spec fn declare(st: State, name: Seq<char>, kind: VarKind) -> State {
    State { scopes: with_variable(st.scopes, st.at.sidx, name, kind), ..st }
}

/// Moves to another place.
pub open spec fn moved(st: State, sv: ScopeView) -> State {
    State { at: sv, ..st }
}

/// The source that node `n` covers, where spans are recorded.
pub open spec fn span_of(st: State, t: TreeView, n: usize) -> Option<Span> {
    match st.env.unit {
        None => None,
        Some(u) => {
            let start = t[n as int].start as int;
            let end = t[n as int].end as int;
            let own = if end > start {
                end - start
            } else {
                0
            };
            let left = if u.1 > start {
                u.1 - start
            } else {
                0
            };
            Some(
                Span {
                    unit: u.0,
                    start: t[n as int].start as u32,
                    len: (if own < left {
                        own
                    } else {
                        left
                    }) as u32,
                },
            )
        },
    }
}

/// The number of the unit that spans are recorded for, and its length.
pub open spec fn unit_number(st: State) -> usize {
    match st.env.unit {
        Some(u) => u.0,
        None => 0,
    }
}

pub open spec fn unit_len(st: State) -> usize {
    match st.env.unit {
        Some(u) => u.1,
        None => 0,
    }
}

/// A span stays inside its unit, even where a node claims more than the unit holds.
pub proof fn a_span_ends_inside_its_unit(st: State, t: TreeView, n: usize)
    requires
        st.env.unit is Some,
        unit_len(st) <= u32::MAX,
        t[n as int].start <= unit_len(st),
    ensures
        span_of(st, t, n) matches Some(s) && s.unit == unit_number(st) && s.start
            == t[n as int].start && s.start + s.len <= unit_len(st),
{
}

/// Attributes what follows to the source that node `n` covers.
pub open spec fn at_source(st: State, t: TreeView, n: usize) -> State {
    State { span: span_of(st, t, n), ..st }
}

// Tables keyed by variables

/// A pair that stands for a variable.
pub open spec fn code(v: VariableRef) -> (usize, usize) {
    match v {
        VariableRef::Local(i) => (0, i),
        VariableRef::Param(i) => (1, i),
        VariableRef::Global => (2, 0),
    }
}

fn encode(v: VariableRef) -> (c: (usize, usize))
    ensures
        c == code(v),
{
    match v {
        VariableRef::Local(i) => (0, i),
        VariableRef::Param(i) => (1, i),
        VariableRef::Global => (2, 0),
    }
}

/// A set of variables.
#[derive(Debug)]
pub struct VarSet {
    codes: PairSet,
}

impl View for VarSet {
    type V = Set<VariableRef>;

    closed spec fn view(&self) -> Set<VariableRef> {
        Set::new(|v: VariableRef| self.codes@.contains(code(v)))
    }
}

impl VarSet {
    fn new() -> (s: VarSet)
        ensures
            s@ == Set::<VariableRef>::empty(),
    {
        let s = VarSet { codes: PairSet::new() };
        assert(s@ =~= Set::<VariableRef>::empty());
        s
    }

    fn insert(&mut self, v: VariableRef)
        ensures
            final(self)@ == old(self)@.insert(v),
    {
        self.codes.insert(encode(v));
        assert(self@ =~= old(self)@.insert(v));
    }

    fn contains(&self, v: VariableRef) -> (b: bool)
        ensures
            b == self@.contains(v),
    {
        self.codes.contains(encode(v))
    }
}

/// What pointers point at: for each an address, and the block that this was found in.
#[derive(Debug)]
pub struct AliasMap {
    index: PairMap,
    entries: Vec<(AccessPath, usize)>,
}

impl View for AliasMap {
    type V = Map<VariableRef, (AddressView, usize)>;

    closed spec fn view(&self) -> Map<VariableRef, (AddressView, usize)> {
        Map::new(
            |v: VariableRef| self.index@.contains_key(code(v)),
            |v: VariableRef|
                {
                    let e = self.entries@[self.index@[code(v)] as int];
                    (e.0@, e.1)
                },
        )
    }
}

impl AliasMap {
    spec fn wf(&self) -> bool {
        forall|c: (usize, usize)| #[trigger]
            self.index@.contains_key(c) ==> self.index@[c] < self.entries@.len()
    }

    fn new() -> (m: AliasMap)
        ensures
            m.wf(),
            m@ == Map::<VariableRef, (AddressView, usize)>::empty(),
    {
        let m = AliasMap { index: PairMap::new(), entries: Vec::new() };
        assert(m@ =~= Map::<VariableRef, (AddressView, usize)>::empty());
        m
    }

    fn insert(&mut self, v: VariableRef, pointee: AccessPath, block: usize)
        requires
            old(self).wf(),
        ensures
            final(self).wf(),
            final(self)@ == old(self)@.insert(v, (pointee@, block)),
    {
        let i: usize = self.entries.len();
        self.entries.push((pointee, block));
        self.index.insert(encode(v), i);
        assert(self@ =~= old(self)@.insert(v, (pointee@, block)));
    }

    fn remove(&mut self, v: VariableRef)
        requires
            old(self).wf(),
        ensures
            final(self).wf(),
            final(self)@ == old(self)@.remove(v),
    {
        self.index.remove(encode(v));
        assert(self@ =~= old(self)@.remove(v));
    }

    fn get(&self, v: VariableRef) -> (found: Option<(AccessPath, usize)>)
        requires
            self.wf(),
        ensures
            match found {
                Some(e) => self@.contains_key(v) && self@[v] == (e.0@, e.1),
                None => !self@.contains_key(v),
            },
    {
        match self.index.get(encode(v)) {
            Some(i) => {
                assert(self.index@.contains_key(code(v)));
                let e = &self.entries[i];
                Some((e.0.copied(), e.1))
            },
            None => None,
        }
    }
}

// The context

/// A translation unit being lowered.
pub struct Context<'a> {
    env: Env<'a>,
    fun: FunctionData,
    fits: Ghost<bool>,
    /// The temporaries of the function, by number.
    temps: Vec<()>,
    scope_tree: ScopeTree,
    notes: Vec<Note>,
    label_blocks: NameMap,
    walked_label_blocks: IdSet,
    addr_alias: AliasMap,
    union_vars: VarSet,
    cur_span: Option<Span>,
    reported_parse_errors: IdSet,
    functions_with_recovery: NameSet,
    reports: Vec<Report>,
    objects: Objects,
    at: ScopeView,
}

impl<'a> View for Context<'a> {
    type V = State;

    closed spec fn view(&self) -> State {
        State {
            env: self.env@,
            fun: self.fun@,
            fits: self.fits@,
            temps: self.temps@.len(),
            scopes: self.scope_tree@,
            notes: views(self.notes@),
            labels: self.label_blocks@,
            walked: self.walked_label_blocks@,
            aliases: self.addr_alias@,
            unions: self.union_vars@,
            span: self.cur_span,
            errors: self.reported_parse_errors@,
            recovered: self.functions_with_recovery@,
            reports: views(self.reports@),
            objects: self.objects@,
            at: self.at,
        }
    }
}

proof fn lemma_index_from(names: Seq<Seq<char>>, i: int, name: Seq<char>)
    requires
        0 <= i <= names.len(),
    ensures
        i <= index_from(names, i, name) <= names.len(),
        index_from(names, i, name) < names.len() ==> names[index_from(names, i, name)] == name,
        forall|j: int|
            i <= j < index_from(names, i, name) ==> #[trigger] names[j] != name,
    decreases names.len() - i,
{
    if i < names.len() && names[i] != name {
        lemma_index_from(names, i + 1, name);
    }
}

impl<'a> Context<'a> {
    /// Whether the tables are sound.
    pub closed spec fn tables_wf(&self) -> bool {
        self.env.wf() && self.addr_alias.wf() && self.objects.wf()
    }

    /// Whether lowering can go on from here.
    pub open spec fn ready(&self) -> bool {
        self.tables_wf() && ok(self@)
    }

    /// Where lowering stands.
    pub fn here(&self) -> (sv: ScopeView)
        ensures
            sv == self@.at,
    {
        self.at
    }

    /// Moves to another place.
    pub fn move_to(&mut self, sv: ScopeView)
        requires
            old(self).ready(),
            within(old(self)@, sv),
        ensures
            final(self).ready(),
            final(self)@ == moved(old(self)@, sv),
            grows(old(self)@, final(self)@),
    {
        self.at = sv;
        proof {
            reveal(sound);
        }
    }

    /// Says what was not lowered as written.
    ///
    /// # Errors
    ///
    /// The report itself, in strict mode.
    pub fn recoverable_report(&mut self, attribution: Attribution, message: String) -> (r: Result<
        (),
        Error,
    >)
        requires
            old(self).ready(),
        ensures
            final(self).ready(),
            grows(old(self)@, final(self)@),
            !old(self)@.env.strict ==> r is Ok,
            (final(self)@, done(r)) == report(old(self)@, attribution, message@),
    {
        proof {
            reveal(report);
        }
        let copy = message.clone();
        self.reports.push(Report { attribution, message });
        proof {
            lemma_terminators_kept(old(self)@, self@);
        }
        if self.env.strict {
            Err(Error::TreeSitterParse(copy))
        } else {
            Ok(())
        }
    }

    /// The local named `name`, which is added to the function if it is not there.
    pub fn intern(&mut self, name: String) -> (v: VariableRef)
        requires
            old(self).ready(),
        ensures
            final(self).ready(),
            grows(old(self)@, final(self)@),
            (final(self)@, v) == intern(old(self)@, name@),
    {
        let ghost names = self@.fun.locals;
        let mut i: usize = 0;
        while i < self.fun.locals.len()
            invariant
                *self == *old(self),
                self.ready(),
                names == self@.fun.locals,
                i <= names.len(),
                index_from(names, i as int, name@) == index_from(names, 0, name@),
            decreases names.len() - i,
        {
            if same(self.fun.locals[i].as_str(), name.as_str()) {
                proof {
                    reveal(intern);
                }
                return VariableRef::Local(i);
            }
            i = i + 1;
        }
        let v: usize = self.fun.locals.len();
        self.fun.locals.push(name);
        proof {
            reveal(intern);
            lemma_index_from(names, 0, name@);
            lemma_local_added(old(self)@, self@, name@);
        }
        VariableRef::Local(v)
    }

    /// The name of the next temporary.
    pub fn next_temp(&mut self) -> (name: String)
        requires
            old(self).ready(),
        ensures
            final(self).ready(),
            grows(old(self)@, final(self)@),
            final(self)@ == temp_named(old(self)@),
            name@ == temp_name(old(self)@.temps),
    {
        proof {
            reveal(sound);
        }
        let n: usize = self.temps.len();
        self.temps.push(());
        let mut name = joined("<t", decimal(n).as_str());
        name.append(">");
        name
    }

    /// A temporary that nothing else names.
    pub fn fresh(&mut self) -> (v: VariableRef)
        requires
            old(self).ready(),
        ensures
            final(self).ready(),
            grows(old(self)@, final(self)@),
            (final(self)@, v) == fresh(old(self)@),
    {
        let name = self.next_temp();
        self.intern(name)
    }

    /// The path of the variable that `name` means here.
    pub fn build_access_path(&mut self, name: &str) -> (p: RawPath)
        requires
            old(self).ready(),
        ensures
            final(self).ready(),
            grows(old(self)@, final(self)@),
            (final(self)@, p@) == named(old(self)@, name@),
    {
        proof {
            reveal(named);
            reveal(sound);
        }
        if let Some(p) = self.objects.referent(name) {
            return p;
        }
        match self.scope_tree.find_variable(self.at.sidx, name) {
            Some(decl) => {
                let kind = decl.kind;
                let full = self.scope_tree.to_string(decl);
                match kind {
                    VarKind::Global => global(full),
                    VarKind::Local => {
                        let v = self.intern(full);
                        RawPath::of(v)
                    },
                    VarKind::Parameter(i) => RawPath::of(VariableRef::Param(i)),
                }
            },
            None => {
                if starts_as_temp(name) {
                    let v = self.intern(String::from_str(name));
                    RawPath::of(v)
                } else {
                    match self.member(name) {
                        Some(p) => p,
                        None => global(String::from_str(name)),
                    }
                }
            },
        }
    }

    /// The path of the member that `name` is in the class whose member function is lowered.
    fn member(&self, name: &str) -> (p: Option<RawPath>)
        requires
            self.tables_wf(),
        ensures
            match p {
                Some(p) => member_path(self@, name@) == Some(p@),
                None => member_path(self@, name@) is None,
            },
    {
        match self.objects.class() {
            Some((class, receiver)) => match self.env.tables.classes.get(class) {
                Some(info) => if info.static_members.contains(name) {
                    Some(global(qualified_name(class, name)))
                } else if receiver && info.members.contains(name) {
                    let mut p = RawPath::of(VariableRef::Param(0));
                    p.push(PathSegment::symbol(name));
                    assert(p@.fields =~= receiver_field(name@).fields);
                    Some(p)
                } else {
                    None
                },
                None => None,
            },
            None => None,
        }
    }

    /// What is known of the objects of the function.
    pub fn objects(&self) -> (o: &Objects)
        requires
            self.ready(),
        ensures
            o@ == self@.objects,
            o.wf(),
    {
        &self.objects
    }

    /// The classes of the unit.
    pub fn tables(&self) -> (t: &'a ClassTables)
        ensures
            t@ == self@.env.tables,
    {
        self.env.tables
    }

    /// Records that the variable `name` is, or points at, a `class`.
    pub fn set_type(&mut self, name: &str, class: &str)
        requires
            old(self).ready(),
        ensures
            final(self).ready(),
            grows(old(self)@, final(self)@),
            final(self)@ == (State { objects: old(self)@.objects.typed(name@, class@), ..old(self)@ }),
    {
        proof {
            reveal(sound);
        }
        self.objects.set_type(name, class);
    }

    /// Records that the name `name` stands for `path`.
    pub fn bind(&mut self, name: &str, path: RawPath)
        requires
            old(self).ready(),
        ensures
            final(self).ready(),
            grows(old(self)@, final(self)@),
            final(self)@ == (State { objects: old(self)@.objects.bound(name@, path@), ..old(self)@ }),
    {
        proof {
            reveal(sound);
        }
        self.objects.bind(name, path);
    }

    /// Records that an object is made in the current scope.
    pub fn record(&mut self, name: &str, class: &str)
        requires
            old(self).ready(),
        ensures
            final(self).ready(),
            grows(old(self)@, final(self)@),
            final(self)@ == (State {
                objects: old(self)@.objects.recorded(name@, class@),
                ..old(self)@
            }),
    {
        proof {
            reveal(sound);
        }
        self.objects.record(name, class);
    }

    /// Enters a scope that objects are made in.
    pub fn push_frame(&mut self)
        requires
            old(self).ready(),
        ensures
            final(self).ready(),
            grows(old(self)@, final(self)@),
            final(self)@ == (State { objects: old(self)@.objects.framed(), ..old(self)@ }),
    {
        proof {
            reveal(sound);
        }
        self.objects.push_frame();
    }

    /// Leaves a scope that objects are made in.
    pub fn pop_frame(&mut self)
        requires
            old(self).ready(),
        ensures
            final(self).ready(),
            grows(old(self)@, final(self)@),
            final(self)@ == (State { objects: old(self)@.objects.unframed(), ..old(self)@ }),
    {
        proof {
            reveal(sound);
        }
        self.objects.pop_frame();
    }

    /// Whether `name` means a declared variable here.
    pub fn is_variable(&self, name: &str) -> (b: bool)
        requires
            self.ready(),
        ensures
            b == meaning(self@.scopes, self@.at.sidx, name@) is Some,
    {
        proof {
            reveal(sound);
        }
        self.scope_tree.find_variable(self.at.sidx, name).is_some()
    }

    /// Adds a statement to the current block.
    pub fn emit(&mut self, kind: StatementKind)
        requires
            old(self).ready(),
        ensures
            final(self).ready(),
            grows(old(self)@, final(self)@),
            final(self)@ == emit(old(self)@, kind@),
    {
        let b = self.at.blidx;
        self.fun.blocks[b].statements.push(Statement { kind, span: self.cur_span });
        proof {
            reveal(emit);
            assert(self@.fun.blocks =~= emit(old(self)@, kind@).fun.blocks);
            lemma_terminators_kept(old(self)@, self@);
        }
    }

    /// Makes the field reads of a path into loads; what is left is an address.
    pub fn emit_loads(&mut self, p: &RawPath) -> (a: AccessPath)
        requires
            old(self).ready(),
        ensures
            final(self).ready(),
            grows(old(self)@, final(self)@),
            (final(self)@, a@) == loads(old(self)@, p@),
    {
        proof {
            reveal(loads);
            assert(p@.fields.take(p@.fields.len() as int) =~= p@.fields);
        }
        self.load_prefix(p, p.fields.len())
    }

    /// Makes the field reads in the first `count` segments of a path into loads.
    fn load_prefix(&mut self, p: &RawPath, count: usize) -> (a: AccessPath)
        requires
            old(self).ready(),
            count <= p@.fields.len(),
        ensures
            final(self).ready(),
            grows(old(self)@, final(self)@),
            (final(self)@, a@) == load_steps(
                old(self)@,
                p@.base,
                Seq::empty(),
                p@.fields.take(count as int),
                0,
            ),
    {
        let ghost fields = p@.fields.take(count as int);
        let mut base = p.base;
        let mut offsets: Vec<i64> = Vec::new();
        let mut i: usize = 0;
        assert(offsets@ =~= Seq::<i64>::empty());
        while i < count
            invariant
                self.ready(),
                grows(old(self)@, self@),
                i <= count <= p@.fields.len(),
                fields == p@.fields.take(count as int),
                load_steps(self@, base, offsets@, fields, i as int) == load_steps(
                    old(self)@,
                    p@.base,
                    Seq::empty(),
                    fields,
                    0,
                ),
            decreases count - i,
        {
            assert(fields[i as int] == p.fields@[i as int]@);
            match &p.fields[i] {
                PathSegment::Offset(n) => {
                    offsets.push(*n);
                },
                PathSegment::Symbol(field) => {
                    let v = self.fresh();
                    self.emit(
                        StatementKind::Load {
                            dest: v,
                            address: AccessPath { variable_ref: base, offsets },
                            field: field.clone(),
                        },
                    );
                    base = v;
                    offsets = Vec::new();
                    assert(offsets@ =~= Seq::<i64>::empty());
                },
            }
            i = i + 1;
        }
        AccessPath { variable_ref: base, offsets }
    }

    /// The value that a read of the path `p` yields.
    pub fn read(&mut self, p: &RawPath) -> (e: Exp)
        requires
            old(self).ready(),
        ensures
            final(self).ready(),
            grows(old(self)@, final(self)@),
            (final(self)@, e@) == read(old(self)@, p@),
    {
        let a = self.emit_loads(p);
        Exp::access_path(a)
    }

    /// Writes to a path.
    pub fn add_assign_to_program(&mut self, target: &RawPath, left: &Exp, right: Option<&Exp>)
        requires
            old(self).ready(),
        ensures
            final(self).ready(),
            grows(old(self)@, final(self)@),
            final(self)@ == assign(
                old(self)@,
                target@,
                left@,
                match right {
                    Some(e) => Some(e@),
                    None => None,
                },
            ),
    {
        proof {
            reveal(assign);
            reveal(loads);
        }
        if target.is_pathless() {
            let mut args: Vec<Exp> = Vec::new();
            args.push(left.copied());
            if let Some(r) = right {
                args.push(r.copied());
            }
            assert(views(args@) =~= operands(
                left@,
                match right {
                    Some(e) => Some(e@),
                    None => None,
                },
            ));
            self.emit(StatementKind::Assign { dest: target.base, args });
        } else {
            let last: usize = target.fields.len() - 1;
            match &target.fields[last] {
                PathSegment::Offset(_) => {
                    assert(store_fields(target@.fields).drop_last() =~= target@.fields);
                    assert(target@.fields.take(last + 1) =~= target@.fields);
                    let address = self.load_prefix(target, last + 1);
                    self.emit(
                        StatementKind::Store {
                            address,
                            field: String::from_str("deref"),
                            value: left.copied(),
                        },
                    );
                },
                PathSegment::Symbol(field) => {
                    assert(store_fields(target@.fields).drop_last() =~= target@.fields.take(
                        last as int,
                    ));
                    let address = self.load_prefix(target, last);
                    self.emit(
                        StatementKind::Store {
                            address,
                            field: field.clone(),
                            value: left.copied(),
                        },
                    );
                },
            }
        }
    }

    /// Lets control go from one block to another.
    ///
    /// # Errors
    ///
    /// In strict mode, if the block returns.
    pub fn link(&mut self, from: usize, to: usize) -> (r: Result<(), Error>)
        requires
            old(self).ready(),
            from < old(self)@.fun.blocks.len(),
            to < old(self)@.fun.blocks.len(),
        ensures
            final(self).ready(),
            grows(old(self)@, final(self)@),
            !old(self)@.env.strict ==> r is Ok,
            final(self)@.fun.blocks.len() == old(self)@.fun.blocks.len(),
            (final(self)@, done(r)) == link(old(self)@, from, to),
            final(self)@.at == old(self)@.at,
            final(self)@.scopes == old(self)@.scopes,
    {
        proof {
            reveal(link);
            reveal(report);
        }
        let ghost b = self@.fun.blocks[from as int];
        assert(b == self.fun.blocks@[from as int]@);
        let is_return = matches!(self.fun.blocks[from].terminator, Some(Terminator::Return(_)));
        if is_return {
            let mut message = String::from_str(
                "continuation edge into a block that already returns, dropped: ",
            );
            message.append(decimal(from).as_str());
            message.append(" -> ");
            message.append(decimal(to).as_str());
            return self.recoverable_report(Attribution::FrontendGap, message);
        }
        let mut targets: Vec<usize> = Vec::new();
        assert(targets@ =~= Seq::<usize>::empty());
        if let Some(Terminator::Goto(known)) = self.fun.blocks[from].terminator.take() {
            targets = known;
        }
        targets.push(to);
        self.fun.blocks[from].terminator = Some(Terminator::Goto(targets));
        proof {
            let after = link(old(self)@, from, to).0;
            assert(seq![to] =~= Seq::<usize>::empty().push(to));
            assert(self@.fun.blocks =~= after.fun.blocks);
            if b.terminator is Some {
                assert(targets@.drop_last() =~= b.terminator->0->Goto_0);
            }
            lemma_goto_added(old(self)@, self@, from, targets@);
        }
        Ok(())
    }

    /// Ends a block with the return that the source does not spell out.
    pub fn implicit_return(&mut self, b: usize)
        requires
            old(self).ready(),
            b < old(self)@.fun.blocks.len(),
        ensures
            final(self).ready(),
            grows(old(self)@, final(self)@),
            final(self)@ == return_implicitly(old(self)@, b),
            final(self)@.fun.blocks.len() == old(self)@.fun.blocks.len(),
            final(self)@.at == old(self)@.at,
            final(self)@.scopes == old(self)@.scopes,
    {
        proof {
            reveal(return_implicitly);
        }
        let arity = self.fun.return_arity;
        let mut args: Vec<Exp> = Vec::new();
        if arity > 0 {
            proof {
                reveal(intern);
            }
            let v = self.intern(String::from_str("<implicit-return>"));
            let mut i: usize = 0;
            let ghost mid = *self;
            while i < arity
                invariant
                    i <= arity,
                    *self == mid,
                    views(args@) == Seq::new(i as nat, |k: int| ExpView::Variable(v)),
                decreases arity - i,
            {
                args.push(Exp::Variable(v));
                i = i + 1;
                assert(views(args@) =~= Seq::new(i as nat, |k: int| ExpView::Variable(v)));
            }
        }
        assert(arity == 0 ==> views(args@) =~= Seq::<ExpView>::empty());
        self.terminate(b, Terminator::Return(args));
    }

    /// Ends a block with a return, whatever it ended with before.
    pub fn terminate(&mut self, b: usize, t: Terminator)
        requires
            old(self).ready(),
            b < old(self)@.fun.blocks.len(),
            t@ is Return,
            t@->Return_0.len() == 1 || t@->Return_0.len() == old(self)@.fun.return_arity,
        ensures
            final(self).ready(),
            grows(old(self)@, final(self)@),
            final(self)@ == ended(old(self)@, b, t@),
    {
        self.fun.blocks[b].terminator = Some(t);
        proof {
            assert(self@.fun.blocks =~= ended(old(self)@, b, t@).fun.blocks);
            lemma_return_added(old(self)@, self@, b, t@);
        }
    }

    /// Lets control go from a block to where it goes at the end of a body.
    ///
    /// # Errors
    ///
    /// In strict mode, if the block returns.
    pub fn link_end(&mut self, from: usize, to: Option<usize>) -> (r: Result<(), Error>)
        requires
            old(self).ready(),
            from < old(self)@.fun.blocks.len(),
            target_in(old(self)@, to),
        ensures
            final(self).ready(),
            grows(old(self)@, final(self)@),
            !old(self)@.env.strict ==> r is Ok,
            (final(self)@, done(r)) == link_end(old(self)@, from, to),
    {
        proof {
            reveal(link_end);
        }
        match to {
            Some(b) => self.link(from, b),
            None => {
                assert(self@.fun.blocks[from as int] == self.fun.blocks@[from as int]@);
                if self.fun.blocks[from].terminator.is_some() {
                    Ok(())
                } else {
                    self.implicit_return(from);
                    Ok(())
                }
            },
        }
    }

    /// Opens a scope inside the current one.
    pub fn open_scope(&mut self, name: String) -> (sv: ScopeView)
        requires
            old(self).ready(),
        ensures
            final(self).ready(),
            grows(old(self)@, final(self)@),
            (final(self)@, sv) == open_scope(old(self)@, name@),
            within(final(self)@, sv),
            final(self)@.fun == old(self)@.fun,
            final(self)@.at == old(self)@.at,
            sv == (ScopeView { sidx: sv.sidx, ..old(self)@.at }),
    {
        proof {
            reveal(open_scope);
            reveal(sound);
            assert(nested(self@.scopes));
        }
        let sidx = self.scope_tree.add_scope(name, Some(self.at.sidx));
        proof {
            lemma_scope_added(old(self)@, self@);
        }
        ScopeView { sidx, ..self.at }
    }

    /// Opens a scope inside the current one, that shares the current block.
    pub fn add_scope(&mut self) -> (sv: ScopeView)
        requires
            old(self).ready(),
        ensures
            final(self).ready(),
            grows(old(self)@, final(self)@),
            (final(self)@, sv) == open_scope(old(self)@, inner_scope_name(old(self)@)),
            within(final(self)@, sv),
            final(self)@.fun == old(self)@.fun,
            final(self)@.at == old(self)@.at,
    {
        let name = joined(self.fun.name.as_str(), ".cs");
        self.open_scope(name)
    }

    /// Adds a block, with a scope of its own if `scoped`, and lets control go to it from the
    /// current block if `linked`.
    ///
    /// # Errors
    ///
    /// In strict mode, if the current block returns.
    pub fn add_block(&mut self, scoped: bool, linked: bool, explainer: &str) -> (r: Result<
        ScopeView,
        Error,
    >)
        requires
            old(self).ready(),
        ensures
            final(self).ready(),
            grows(old(self)@, final(self)@),
            !old(self)@.env.strict ==> r is Ok,
            (final(self)@, done(r)) == add_block(old(self)@, scoped, linked, explainer@),
            r matches Ok(sv) ==> within(final(self)@, sv),
            final(self)@.at == old(self)@.at,
    {
        proof {
            reveal(add_block);
        }
        let from = self.at.blidx;
        let blidx: usize = self.fun.blocks.len();
        self.fun.blocks.push(BasicBlockData::new());
        proof {
            assert(self@.fun.blocks =~= old(self)@.fun.blocks.push(BlockView::fresh()));
            lemma_block_added(old(self)@, self@);
        }
        let inner = if scoped {
            self.add_scope()
        } else {
            self.at
        };
        let sv = ScopeView { blidx, ..inner };
        if linked {
            self.link(from, blidx)?;
        }
        let mut text = decimal(blidx);
        text.append(".");
        text.append(explainer);
        self.note(blidx, text);
        Ok(sv)
    }

    /// Notes what a block is for.
    pub fn note(&mut self, blidx: usize, explainer: String)
        requires
            old(self).ready(),
        ensures
            final(self).ready(),
            grows(old(self)@, final(self)@),
            final(self)@ == noted(old(self)@, blidx, explainer@),
    {
        proof {
            reveal(sound);
        }
        self.notes.push(Note { func_name: self.fun.name.clone(), blidx, explainer });
    }

    /// Declares a variable in the current scope.
    pub fn declare(&mut self, name: &str, kind: VarKind)
        requires
            old(self).ready(),
        ensures
            final(self).ready(),
            grows(old(self)@, final(self)@),
            final(self)@ == declare(old(self)@, name@, kind),
            final(self)@.scopes.len() == old(self)@.scopes.len(),
            final(self)@.at == old(self)@.at,
            final(self)@.fun == old(self)@.fun,
    {
        proof {
            reveal(declare);
            reveal(sound);
        }
        self.scope_tree.add_variable(self.at.sidx, String::from_str(name), kind);
    }

    /// Attributes what follows to the source that node `n` covers.
    pub fn set_span(&mut self, tree: &SyntaxTree, n: usize)
        requires
            old(self).ready(),
            n < tree@.len(),
        ensures
            final(self).ready(),
            grows(old(self)@, final(self)@),
            final(self)@ == at_source(old(self)@, tree@, n),
    {
        let span = self.span_for_node(tree, n);
        self.restore_span(span);
    }

    /// The source that node `n` covers, where spans are recorded.
    pub fn span_for_node(&self, tree: &SyntaxTree, n: usize) -> (s: Option<Span>)
        requires
            n < tree@.len(),
        ensures
            s == span_of(self@, tree@, n),
    {
        match self.env.unit {
            None => None,
            Some(u) => {
                let start = tree.start_byte(n);
                let end = tree.end_byte(n);
                let own: usize = if end > start {
                    end - start
                } else {
                    0
                };
                let left: usize = if u.1 > start {
                    u.1 - start
                } else {
                    0
                };
                let len: usize = if own < left {
                    own
                } else {
                    left
                };
                Some(
                    Span {
                        unit: u.0,
                        start: #[verifier::truncate]
                        (start as u32),
                        len: #[verifier::truncate]
                        (len as u32),
                    },
                )
            },
        }
    }

    /// The source that statements are attributed to.
    pub fn span(&self) -> (s: Option<Span>)
        ensures
            s == self@.span,
    {
        self.cur_span
    }

    /// Attributes what follows to `span`.
    pub fn restore_span(&mut self, span: Option<Span>)
        requires
            old(self).ready(),
        ensures
            final(self).ready(),
            grows(old(self)@, final(self)@),
            final(self)@ == (State { span, ..old(self)@ }),
    {
        proof {
            reveal(sound);
        }
        self.cur_span = span;
    }

    /// What the pointer `v` is known to point at, and the block that this was found in.
    pub fn alias(&self, v: VariableRef) -> (found: Option<(AccessPath, usize)>)
        requires
            self.ready(),
        ensures
            match found {
                Some(e) => self@.aliases.contains_key(v) && self@.aliases[v] == (e.0@, e.1),
                None => !self@.aliases.contains_key(v),
            },
    {
        self.addr_alias.get(v)
    }

    /// Records that `v` points at `pointee` in the current block.
    pub fn set_alias(&mut self, v: VariableRef, pointee: AccessPath)
        requires
            old(self).ready(),
        ensures
            final(self).ready(),
            grows(old(self)@, final(self)@),
            final(self)@ == (State {
                aliases: old(self)@.aliases.insert(v, (pointee@, old(self)@.at.blidx)),
                ..old(self)@
            }),
    {
        proof {
            reveal(sound);
        }
        self.addr_alias.insert(v, pointee, self.at.blidx);
    }

    /// Forgets what `v` points at.
    pub fn drop_alias(&mut self, v: VariableRef)
        requires
            old(self).ready(),
        ensures
            final(self).ready(),
            grows(old(self)@, final(self)@),
            final(self)@ == (State { aliases: old(self)@.aliases.remove(v), ..old(self)@ }),
    {
        proof {
            reveal(sound);
        }
        self.addr_alias.remove(v);
    }

    /// Whether the type of `v` is a union.
    pub fn is_union(&self, v: VariableRef) -> (b: bool)
        ensures
            b == self@.unions.contains(v),
    {
        self.union_vars.contains(v)
    }

    /// Records that the type of `v` is a union.
    pub fn add_union(&mut self, v: VariableRef)
        requires
            old(self).ready(),
        ensures
            final(self).ready(),
            grows(old(self)@, final(self)@),
            final(self)@ == (State { unions: old(self)@.unions.insert(v), ..old(self)@ }),
    {
        proof {
            reveal(sound);
        }
        self.union_vars.insert(v);
    }

    /// The block of a label.
    pub fn label_block(&self, label: &str) -> (b: Option<usize>)
        requires
            self.ready(),
        ensures
            b == (if self@.labels.contains_key(label@) {
                Some(self@.labels[label@])
            } else {
                None
            }),
            target_in(self@, b),
    {
        let b = self.label_blocks.get(label);
        proof {
            reveal(sound);
            assert(labels_inside(self@));
            if self@.labels.contains_key(label@) {
                assert(self@.labels[label@] < self@.fun.blocks.len());
            }
        }
        b
    }

    /// Records that a label block has been entered.
    pub fn enter_label(&mut self, b: usize)
        requires
            old(self).ready(),
        ensures
            final(self).ready(),
            grows(old(self)@, final(self)@),
            final(self)@ == (State { walked: old(self)@.walked.insert(b), ..old(self)@ }),
    {
        proof {
            reveal(sound);
        }
        self.walked_label_blocks.insert(b);
    }

    /// Whether a label block has been entered.
    pub fn is_entered(&self, b: usize) -> (e: bool)
        ensures
            e == self@.walked.contains(b),
    {
        self.walked_label_blocks.contains(b)
    }

    /// Records that an unparsable node has been reported; the answer is whether it was not before.
    pub fn mark_error(&mut self, n: usize) -> (new: bool)
        requires
            old(self).ready(),
        ensures
            final(self).ready(),
            grows(old(self)@, final(self)@),
            final(self)@ == (State { errors: old(self)@.errors.insert(n), ..old(self)@ }),
            new == !old(self)@.errors.contains(n),
    {
        proof {
            reveal(sound);
        }
        self.reported_parse_errors.insert(n)
    }

    /// Records that the function has been reported to hold parse-recovery output; the answer is
    /// whether it was not before.
    pub fn mark_recovered(&mut self) -> (new: bool)
        requires
            old(self).ready(),
        ensures
            final(self).ready(),
            grows(old(self)@, final(self)@),
            final(self)@ == (State {
                recovered: old(self)@.recovered.insert(old(self)@.fun.name),
                ..old(self)@
            }),
            new == !old(self)@.recovered.contains(old(self)@.fun.name),
    {
        proof {
            reveal(sound);
        }
        self.functions_with_recovery.insert(self.fun.name.clone())
    }

    /// The name of the function.
    pub fn func_name(&self) -> (s: &str)
        ensures
            s@ == self@.fun.name,
    {
        self.fun.name.as_str()
    }

    /// Whether some unit defines a function of that name.
    pub fn is_function(&self, name: &str) -> (b: bool)
        ensures
            b == self@.env.functions.contains_key(name@),
    {
        self.env.functions.get(name).is_some()
    }

    /// Whether some unit declares a function of that name.
    pub fn is_declared(&self, name: &str) -> (b: bool)
        ensures
            b == self@.env.declared.contains(name@),
    {
        self.env.declared_functions.contains(name)
    }

    /// Whether some unit uses that name as a type.
    pub fn is_type(&self, name: &str) -> (b: bool)
        ensures
            b == self@.env.types.contains(name@),
    {
        self.env.type_names.contains(name)
    }

    /// The layout of the record that a tag names.
    pub fn layout(&self, tag: &str) -> (l: Option<Layout>)
        requires
            self.ready(),
        ensures
            match l {
                Some(l) => self@.env.layouts.contains_key(tag@) && self@.env.layouts[tag@] == l@,
                None => !self@.env.layouts.contains_key(tag@),
            },
    {
        match self.env.struct_layouts.get(tag) {
            Some(l) => Some(l.copied()),
            None => None,
        }
    }

    /// The IR name that a reference to the function `name` from this unit means.
    pub fn resolve_reference(&self, name: &str) -> (s: String)
        requires
            self.ready(),
        ensures
            s@ == resolved(self@.env, name@),
    {
        match self.env.local_names.get(name) {
            Some(n) => n.clone(),
            None => String::from_str(name),
        }
    }
}

/// The state before any function of a unit has been lowered: there is one scope, for globals.
pub open spec fn initial(env: EnvView) -> State {
    State {
        env,
        fun: FunctionView::fresh(),
        fits: true,
        temps: 0,
        scopes: with_scope(Seq::empty(), "%GLOBAL"@, None),
        notes: Seq::empty(),
        labels: Map::empty(),
        walked: Set::empty(),
        aliases: Map::empty(),
        unions: Set::empty(),
        span: None,
        errors: Set::empty(),
        recovered: Set::empty(),
        reports: Seq::empty(),
        objects: ObjectsView::in_class(None),
        at: crate::function::outset(0, 0),
    }
}

impl<'a> Context<'a> {
    /// Whether a function can be begun.
    pub open spec fn idle(&self) -> bool {
        &&& self.tables_wf()
        &&& nested(self@.scopes)
        &&& self@.scopes.len() > 0
    }

    /// A unit of which nothing has been lowered.
    pub fn new(env: Env<'a>) -> (c: Context<'a>)
        requires
            env.wf(),
        ensures
            c.idle(),
            c@ == initial(env@),
    {
        let mut scope_tree = ScopeTree::new();
        scope_tree.add_scope(String::from_str("%GLOBAL"), None);
        let c = Context {
            env,
            fun: FunctionData::new(),
            fits: Ghost(true),
            temps: Vec::new(),
            scope_tree,
            notes: Vec::new(),
            label_blocks: NameMap::new(),
            walked_label_blocks: IdSet::new(),
            addr_alias: AliasMap::new(),
            union_vars: VarSet::new(),
            cur_span: None,
            reported_parse_errors: IdSet::new(),
            functions_with_recovery: NameSet::new(),
            reports: Vec::new(),
            objects: Objects::in_class(None),
            at: ScopeView {
                blidx: 0,
                sidx: 0,
                continuation_blidx: None,
                break_target: None,
                continue_target: None,
            },
        };
        assert(c@.notes =~= Seq::<NoteView>::empty());
        assert(c@.reports =~= Seq::<ReportView>::empty());
        c
    }

    /// Begins a definition of the class `class`, if it has one, in what there is of its function.
    pub fn begin(
        &mut self,
        prior: FunctionData,
        name: &str,
        arity: usize,
        class: Option<(String, bool)>,
    )
        requires
            old(self).idle(),
            jumps_inside(prior@.blocks),
            locals_distinct(prior@),
        ensures
            final(self).ready(),
            final(self)@ == crate::function::begun(
                State { fun: prior@, ..old(self)@ },
                name@,
                arity,
                crate::units::class_view(class),
            ),
            final(self)@.env == old(self)@.env,
    {
        let mut fun = prior;
        let first: usize = fun.blocks.len();
        fun.name = String::from_str(name);
        fun.return_arity = arity;
        let receiver = match &class {
            Some(c) => c.1,
            None => false,
        };
        if receiver {
            fun.params.push(ParameterType::ByRef);
            fun.param_names.push(String::from_str("this"));
        }
        fun.blocks.push(BasicBlockData::new());
        self.fun = fun;
        self.fits = Ghost(returns_fit(FunctionView { return_arity: arity, ..prior@ }));
        self.temps = Vec::new();
        let sidx = self.scope_tree.add_scope(joined(name, ".params"), Some(0));
        self.label_blocks = NameMap::new();
        self.walked_label_blocks = IdSet::new();
        self.addr_alias = AliasMap::new();
        self.union_vars = VarSet::new();
        let ghost cv = crate::units::class_view(class);
        self.objects = Objects::in_class(class);
        self.at = ScopeView {
            blidx: first,
            sidx,
            continuation_blidx: None,
            break_target: None,
            continue_target: None,
        };
        proof {
            reveal(sound);
            let before = State { fun: prior@, ..old(self)@ };
            let after = crate::function::begun(before, name@, arity, cv);
            assert(self@.fun.blocks =~= after.fun.blocks);
            assert(self@.fun.locals =~= after.fun.locals);
            assert(self@.fun.params =~= after.fun.params);
            assert(self@.fun.param_names =~= after.fun.param_names);
            let held = State {
                fun: FunctionView { blocks: prior@.blocks, ..after.fun },
                ..after
            };
            assert(sound(held)) by {
                assert(held.fits ==> returns_fit(held.fun));
            }
            lemma_block_added(held, after);
        }
    }

    /// Adds a parameter; the answer is the position of the first parameter of that name.
    pub fn add_param(&mut self, ty: ParameterType, name: &str) -> (position: usize)
        requires
            old(self).ready(),
        ensures
            final(self).ready(),
            final(self)@ == (State {
                fun: FunctionView {
                    params: old(self)@.fun.params.push(ty),
                    param_names: old(self)@.fun.param_names.push(name@),
                    ..old(self)@.fun
                },
                ..old(self)@
            }),
            position == index_from(final(self)@.fun.param_names, 0, name@),
    {
        self.fun.params.push(ty);
        self.fun.param_names.push(String::from_str(name));
        proof {
            lemma_terminators_kept(old(self)@, self@);
        }
        let ghost names = self@.fun.param_names;
        let mut position: usize = 0;
        while position < self.fun.param_names.len() && !same(
            self.fun.param_names[position].as_str(),
            name,
        )
            invariant
                names == views(self.fun.param_names@),
                position <= names.len(),
                index_from(names, position as int, name@) == index_from(names, 0, name@),
            decreases names.len() - position,
        {
            position = position + 1;
        }
        position
    }

    /// Opens the scope of the body that has been begun, in its first block.
    pub fn open_body(&mut self)
        requires
            old(self).ready(),
        ensures
            final(self).ready(),
            final(self)@ == crate::function::body_opened(old(self)@),
            final(self)@.fun == old(self)@.fun,
            final(self)@.fits == old(self)@.fits,
            final(self)@.labels == old(self)@.labels,
            final(self)@.env == old(self)@.env,
    {
        let name = joined(self.fun.name.as_str(), ".body");
        proof {
            reveal(sound);
            assert(nested(self@.scopes));
        }
        let sidx = self.scope_tree.add_scope(name, Some(self.at.sidx));
        let first = self.at.blidx;
        self.at = ScopeView {
            blidx: first,
            sidx,
            continuation_blidx: None,
            break_target: None,
            continue_target: None,
        };
        proof {
            lemma_scope_added(old(self)@, self@);
        }
        self.note(first, String::from_str("initial_block"));
    }

    /// Gives a label a block.
    pub fn set_label(&mut self, label: String, b: usize)
        requires
            old(self).ready(),
            b < old(self)@.fun.blocks.len(),
        ensures
            final(self).ready(),
            final(self)@ == (State { labels: old(self)@.labels.insert(label@, b), ..old(self)@ }),
    {
        proof {
            reveal(sound);
            assert(labels_inside(self@));
        }
        self.label_blocks.insert(label, b);
        assert(labels_inside(self@));
    }

    /// How many blocks the function has.
    pub fn block_count(&self) -> (n: usize)
        ensures
            n == self@.fun.blocks.len(),
    {
        self.fun.blocks.len()
    }

    /// Whether a block has an end.
    pub fn is_terminated(&self, b: usize) -> (r: bool)
        requires
            b < self@.fun.blocks.len(),
        ensures
            r == self@.fun.blocks[b as int].terminator is Some,
    {
        assert(self@.fun.blocks[b as int] == self.fun.blocks@[b as int]@);
        self.fun.blocks[b].terminator.is_some()
    }

    /// Hands out the function that has been lowered.
    pub fn take_function(&mut self) -> (f: FunctionData)
        requires
            old(self).ready(),
        ensures
            final(self).idle(),
            f@ == old(self)@.fun,
            final(self)@ == (State { fun: FunctionView::fresh(), ..old(self)@ }),
            jumps_inside(f@.blocks),
            old(self)@.fits ==> returns_fit(f@),
            locals_distinct(f@),
    {
        proof {
            reveal(sound);
        }
        let mut f = FunctionData::new();
        std::mem::swap(&mut f, &mut self.fun);
        f
    }

    /// Hands out the notes and the reports, and the environment.
    pub fn finish(self) -> (r: (Vec<Note>, Vec<Report>))
        ensures
            views(r.0@) == self@.notes,
            views(r.1@) == self@.reports,
    {
        (self.notes, self.reports)
    }
}

/// The IR name that a reference to the function `name` means: the definition that the unit itself
/// holds, where several claim the name, and else the name as written.
pub open spec fn resolved(env: EnvView, name: Seq<char>) -> Seq<char> {
    if env.local_names.contains_key(name) {
        env.local_names[name]
    } else {
        name
    }
}

fn global(name: String) -> (p: RawPath)
    ensures
        p@ == global_path(name@),
{
    let mut p = RawPath::of(VariableRef::Global);
    p.push(PathSegment::Symbol(name));
    assert(p@.fields =~= global_path(name@).fields);
    p
}

fn starts_as_temp(name: &str) -> (b: bool)
    ensures
        b == temp_prefix(name@),
{
    let chars = crate::text::chars_of(name);
    chars.len() >= 2 && chars[0] == '<' && chars[1] == 't'
}

proof fn lemma_local_added(a: State, b: State, name: Seq<char>)
    requires
        sound(a),
        b == (State { fun: FunctionView { locals: a.fun.locals.push(name), ..a.fun }, ..a }),
        forall|i: int| 0 <= i < a.fun.locals.len() ==> #[trigger] a.fun.locals[i] != name,
    ensures
        sound(b),
{
    reveal(sound);
    assert forall|i: int, j: int| 0 <= i < j < b.fun.locals.len() implies #[trigger] b.fun.locals[i]
        != #[trigger] b.fun.locals[j] by {
        assert(b.fun.locals[i] == a.fun.locals[i]);
        if j < a.fun.locals.len() {
            assert(b.fun.locals[j] == a.fun.locals[j]);
        }
    }
    assert(labels_inside(b));
    assert forall|i: int| #![trigger b.fun.blocks[i]]
        b.fits && 0 <= i < b.fun.blocks.len() implies (b.fun.blocks[i].terminator matches Some(
        TerminatorView::Return(args),
    ) ==> args.len() == 1 || args.len() == b.fun.return_arity) by {
        assert(a.fun.blocks[i] == b.fun.blocks[i]);
    }
}

proof fn lemma_scope_added(a: State, b: State)
    requires
        sound(a),
        nested(b.scopes),
        b.fun == a.fun,
        b.fits == a.fits,
        b.labels == a.labels,
    ensures
        sound(b),
{
    reveal(sound);
    assert(labels_inside(b));
}

proof fn lemma_terminators_kept(a: State, b: State)
    requires
        sound(a),
        b.scopes == a.scopes,
        b.labels == a.labels,
        b.fits == a.fits,
        b.fun.return_arity == a.fun.return_arity,
        b.fun.locals == a.fun.locals,
        b.fun.blocks.len() == a.fun.blocks.len(),
        forall|i: int| 0 <= i < a.fun.blocks.len() ==> (#[trigger] b.fun.blocks[i]).terminator
            == a.fun.blocks[i].terminator,
    ensures
        sound(b),
{
    reveal(sound);
    assert forall|i: int, k: int| #![trigger b.fun.blocks[i].terminator->0->Goto_0[k]]
        0 <= i < b.fun.blocks.len() && b.fun.blocks[i].terminator is Some
            && b.fun.blocks[i].terminator->0 is Goto && 0 <= k
            < b.fun.blocks[i].terminator->0->Goto_0.len() implies b.fun.blocks[i].terminator->0->Goto_0[k]
        < b.fun.blocks.len() by {
        assert(a.fun.blocks[i].terminator->0->Goto_0[k] < a.fun.blocks.len());
    }
    assert forall|i: int| #![trigger b.fun.blocks[i]]
        b.fits && 0 <= i < b.fun.blocks.len() implies (b.fun.blocks[i].terminator matches Some(
        TerminatorView::Return(args),
    ) ==> args.len() == 1 || args.len() == b.fun.return_arity) by {
        assert(a.fun.blocks[i].terminator == b.fun.blocks[i].terminator);
    }
}

proof fn lemma_block_added(a: State, b: State)
    requires
        sound(a),
        b == (State {
            fun: FunctionView { blocks: a.fun.blocks.push(BlockView::fresh()), ..a.fun },
            ..a
        }),
    ensures
        sound(b),
{
    reveal(sound);
    assert forall|i: int, k: int| #![trigger b.fun.blocks[i].terminator->0->Goto_0[k]]
        0 <= i < b.fun.blocks.len() && b.fun.blocks[i].terminator is Some
            && b.fun.blocks[i].terminator->0 is Goto && 0 <= k
            < b.fun.blocks[i].terminator->0->Goto_0.len() implies b.fun.blocks[i].terminator->0->Goto_0[k]
        < b.fun.blocks.len() by {
        assert(i < a.fun.blocks.len());
        assert(a.fun.blocks[i].terminator->0->Goto_0[k] < a.fun.blocks.len());
    }
    assert forall|i: int| #![trigger b.fun.blocks[i]]
        b.fits && 0 <= i < b.fun.blocks.len() implies (b.fun.blocks[i].terminator matches Some(
        TerminatorView::Return(args),
    ) ==> args.len() == 1 || args.len() == b.fun.return_arity) by {
        if i < a.fun.blocks.len() {
            assert(a.fun.blocks[i] == b.fun.blocks[i]);
        }
    }
}

proof fn lemma_goto_added(a: State, b: State, from: usize, targets: Seq<usize>)
    requires
        sound(a),
        from < a.fun.blocks.len(),
        b == with_block(
            a,
            from,
            BlockView {
                terminator: Some(TerminatorView::Goto(targets)),
                ..a.fun.blocks[from as int]
            },
        ),
        targets.len() > 0,
        targets.last() < a.fun.blocks.len(),
        a.fun.blocks[from as int].terminator is None ==> targets.len() == 1,
        a.fun.blocks[from as int].terminator matches Some(t) ==> t is Goto && targets.drop_last()
            == t->Goto_0,
    ensures
        sound(b),
{
    reveal(sound);
    assert forall|i: int, k: int| #![trigger b.fun.blocks[i].terminator->0->Goto_0[k]]
        0 <= i < b.fun.blocks.len() && b.fun.blocks[i].terminator is Some
            && b.fun.blocks[i].terminator->0 is Goto && 0 <= k
            < b.fun.blocks[i].terminator->0->Goto_0.len() implies b.fun.blocks[i].terminator->0->Goto_0[k]
        < b.fun.blocks.len() by {
        if i == from && k < targets.len() - 1 {
            assert(targets.drop_last()[k] == targets[k]);
            assert(a.fun.blocks[i].terminator->0->Goto_0[k] < a.fun.blocks.len());
        } else if i != from {
            assert(a.fun.blocks[i].terminator->0->Goto_0[k] < a.fun.blocks.len());
        }
    }
    assert forall|i: int| #![trigger b.fun.blocks[i]]
        b.fits && 0 <= i < b.fun.blocks.len() implies (b.fun.blocks[i].terminator matches Some(
        TerminatorView::Return(args),
    ) ==> args.len() == 1 || args.len() == b.fun.return_arity) by {
        if i != from {
            assert(a.fun.blocks[i] == b.fun.blocks[i]);
        }
    }
}

proof fn lemma_return_added(a: State, b: State, from: usize, t: TerminatorView)
    requires
        sound(a),
        from < a.fun.blocks.len(),
        b == ended(a, from, t),
        t is Return,
        t->Return_0.len() == 1 || t->Return_0.len() == a.fun.return_arity,
    ensures
        sound(b),
{
    reveal(sound);
    assert forall|i: int, k: int| #![trigger b.fun.blocks[i].terminator->0->Goto_0[k]]
        0 <= i < b.fun.blocks.len() && b.fun.blocks[i].terminator is Some
            && b.fun.blocks[i].terminator->0 is Goto && 0 <= k
            < b.fun.blocks[i].terminator->0->Goto_0.len() implies b.fun.blocks[i].terminator->0->Goto_0[k]
        < b.fun.blocks.len() by {
        if i != from {
            assert(a.fun.blocks[i].terminator->0->Goto_0[k] < a.fun.blocks.len());
        }
    }
    assert forall|i: int| #![trigger b.fun.blocks[i]]
        b.fits && 0 <= i < b.fun.blocks.len() implies (b.fun.blocks[i].terminator matches Some(
        TerminatorView::Return(args),
    ) ==> args.len() == 1 || args.len() == b.fun.return_arity) by {
        if i != from {
            assert(a.fun.blocks[i] == b.fun.blocks[i]);
        }
    }
}

} // verus!
