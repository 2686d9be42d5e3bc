//! Lowering an import: several translation units into one program.
//!
//! Each unit is parsed and lowered by itself: its layouts and scopes are its own, and a syntax
//! error in one cannot change what follows in another. The units share the program, whose functions
//! are all known before any body is lowered, so that a reference from one unit to another resolves
//! the way a linker would resolve it.

use vstd::prelude::*;
use vstd::string::StringSliceAdditionalSpecFns;
use vstd::utf8::encode_utf8;
use crate::classes::{ClassTables, TablesView};
use crate::collections::{views, NameMap, NameSet, Table};
use crate::error::{Error, ErrorView};
use crate::function::{closed_up, complete, function};
use crate::labels::inits_unlabelled;
use crate::mir::{FunctionData, FunctionView, Program};
use crate::plan::{different_functions_have_different_names, ir_name, minted_names, plan_definitions, planned, Plan, PlanView};
use crate::report::{Report, ReportView};
use crate::shapes::{collect_registry, unit_registry, Layout, SlotView};
use crate::state::{initial, returns_fit, seen, Context, Env, EnvView, Note, NoteView, State};
use crate::syntax::{c_rows, c_syntax, readable, tree_of, SyntaxTree, TreeView};
use crate::units::{an_owner_is_its_own, collect_definitions, copies_have_one_owner, definitions, lowerable, owner, same_function, DefView, Definition, Log, LogView, TranslationUnit, UnitView};

verus! {

broadcast use crate::collections::group_views;

/// The definitions in the units from number `u` on, after `defs`.
pub open spec fn all_definitions(
    trees: Seq<TreeView>,
    u: int,
    defs: Seq<DefView>,
    log: LogView,
) -> (LogView, Result<Seq<DefView>, ErrorView>)
    decreases trees.len() - u,
{
    if u < 0 || u >= trees.len() {
        (log, Ok(defs))
    } else {
        match definitions(trees[u], u as usize, 0, defs, log) {
            (log, Ok(defs)) => all_definitions(trees, u + 1, defs, log),
            (log, Err(e)) => (log, Err(e)),
        }
    }
}

/// What the declarations of all units say about names.
pub ghost struct NamesView {
    /// The layouts of the records of each unit.
    pub layouts: Seq<Map<Seq<char>, Seq<SlotView>>>,
    pub types: Set<Seq<char>>,
    pub declared: Set<Seq<char>>,
}

/// What the declarations of the units from number `u` on say about names, after `known`. Type names
/// and prototypes hold in all units, because units share the headers that were not expanded.
pub open spec fn all_names(trees: Seq<TreeView>, u: int, known: NamesView) -> NamesView
    decreases trees.len() - u,
{
    if u < 0 || u >= trees.len() {
        known
    } else {
        let r = unit_registry(trees[u], known.types, known.declared);
        all_names(
            trees,
            u + 1,
            NamesView {
                layouts: known.layouts.push(r.layouts),
                types: r.types,
                declared: r.declared,
            },
        )
    }
}

/// Where the functions from definition `i` on go in the program, after `functions`, of which there
/// are `count`.
pub open spec fn function_table(
    plan: PlanView,
    i: int,
    functions: Map<Seq<char>, usize>,
    count: nat,
) -> (Map<Seq<char>, usize>, nat)
    decreases plan.names.len() - i,
{
    if i < 0 || i >= plan.names.len() {
        (functions, count)
    } else if plan.duplicates[i] || functions.contains_key(plan.names[i]) {
        function_table(plan, i + 1, functions, count)
    } else {
        function_table(
            plan,
            i + 1,
            functions.insert(plan.names[i], count as usize),
            count + 1,
        )
    }
}

/// What lowering unit `u` is told.
pub open spec fn env_of(
    units: Seq<UnitView>,
    u: int,
    functions: Map<Seq<char>, usize>,
    names: NamesView,
    plan: PlanView,
    tables: TablesView,
    strict: bool,
    record_spans: bool,
) -> EnvView {
    EnvView {
        functions,
        declared: names.declared,
        types: names.types,
        layouts: names.layouts[u],
        local_names: plan.local_names[u],
        strict,
        unit: if record_spans && units[u].path is Some {
            Some((u as usize, encode_utf8(units[u].source).len() as usize))
        } else {
            None
        },
        tables,
    }
}

/// What the program holds of the function `name`.
pub open spec fn held(
    functions: Map<Seq<char>, usize>,
    program: Seq<FunctionView>,
    name: Seq<char>,
) -> FunctionView {
    if functions.contains_key(name) {
        program[functions[name] as int]
    } else {
        FunctionView::fresh()
    }
}

/// Lowers the definitions of unit `u` from number `i` on, each to its place in `program`. Copies of
/// an earlier definition are left out; definitions that share a name are one function, and each is
/// added to it.
pub open spec fn lower_definitions(
    t: TreeView,
    st: State,
    u: usize,
    defs: Seq<DefView>,
    plan: PlanView,
    i: int,
    program: Seq<FunctionView>,
) -> (State, Result<Seq<FunctionView>, ErrorView>)
    decreases defs.len() - i,
{
    if i < 0 || i >= defs.len() {
        (st, Ok(program))
    } else if defs[i].unit != u || plan.duplicates[i] {
        lower_definitions(t, st, u, defs, plan, i + 1, program)
    } else {
        let prior = held(st.env.functions, program, plan.names[i]);
        match function(t, State { fun: prior, ..st }, defs[i], plan.names[i]) {
            (st, Err(e)) => (st, Err(e)),
            (st, Ok(_)) => lower_definitions(
                t,
                State { fun: FunctionView::fresh(), ..st },
                u,
                defs,
                plan,
                i + 1,
                if st.env.functions.contains_key(plan.names[i]) {
                    program.update(st.env.functions[plan.names[i]] as int, st.fun)
                } else {
                    program
                },
            ),
        }
    }
}

/// What lowering produces.
pub ghost struct LoweredView {
    pub program: Seq<FunctionView>,
    /// Whether there was a syntax error in any unit.
    pub has_error: bool,
    pub notes: Seq<NoteView>,
    pub reports: Seq<ReportView>,
}

/// Lowers the units from number `u` on into `out`.
pub open spec fn lower_from(
    units: Seq<UnitView>,
    trees: Seq<TreeView>,
    defs: Seq<DefView>,
    plan: PlanView,
    names: NamesView,
    functions: Map<Seq<char>, usize>,
    tables: TablesView,
    strict: bool,
    record_spans: bool,
    u: int,
    out: LoweredView,
) -> Result<LoweredView, ErrorView>
    decreases trees.len() - u,
{
    if u < 0 || u >= trees.len() {
        Ok(out)
    } else {
        let env = env_of(units, u, functions, names, plan, tables, strict, record_spans);
        match lower_definitions(trees[u], initial(env), u as usize, defs, plan, 0, out.program) {
            (st, Err(e)) => Err(e),
            (st, Ok(program)) => lower_from(
                units,
                trees,
                defs,
                plan,
                names,
                functions,
                tables,
                strict,
                record_spans,
                u + 1,
                LoweredView {
                    program,
                    notes: out.notes + st.notes,
                    reports: out.reports + st.reports,
                    ..out
                },
            ),
        }
    }
}

/// Whether one of the trees from number `u` on holds a syntax error.
pub open spec fn any_error(trees: Seq<TreeView>) -> bool {
    exists|u: int| 0 <= u < trees.len() && (#[trigger] trees[u])[0].has_error
}

/// The program that the definitions `defs` of the units are lowered to under `plan`, where `reports`
/// are what was reported before.
pub open spec fn lowered_by(
    units: Seq<UnitView>,
    trees: Seq<TreeView>,
    defs: Seq<DefView>,
    plan: PlanView,
    tables: TablesView,
    strict: bool,
    reports: Seq<ReportView>,
    record_spans: bool,
) -> Result<LoweredView, ErrorView> {
    let names = all_names(
        trees,
        0,
        NamesView { layouts: Seq::empty(), types: Set::empty(), declared: Set::empty() },
    );
    let table = function_table(plan, 0, Map::empty(), 0);
    lower_from(
        units,
        trees,
        defs,
        plan,
        names,
        table.0,
        tables,
        strict,
        record_spans,
        0,
        LoweredView {
            program: Seq::new(table.1, |i: int| FunctionView::fresh()),
            has_error: any_error(trees),
            notes: Seq::empty(),
            reports,
        },
    )
}

/// The program that the definitions `defs` of the units are lowered to, where `log` has what was
/// reported before.
pub open spec fn linked(
    units: Seq<UnitView>,
    trees: Seq<TreeView>,
    defs: Seq<DefView>,
    tables: TablesView,
    log: LogView,
    record_spans: bool,
) -> Result<LoweredView, ErrorView> {
    match planned(units, defs, log) {
        (_, Err(e)) => Err(e),
        (after, Ok(plan)) => lowered_by(
            units,
            trees,
            defs,
            plan,
            tables,
            log.strict,
            after.reports,
            record_spans,
        ),
    }
}

/// The program that the units are lowered to.
pub open spec fn lowered(
    units: Seq<UnitView>,
    trees: Seq<TreeView>,
    strict: bool,
    record_spans: bool,
) -> Result<LoweredView, ErrorView> {
    match all_definitions(
        trees,
        0,
        Seq::empty(),
        LogView { strict, reports: Seq::empty() },
    ) {
        (_, Err(e)) => Err(e),
        (log, Ok(defs)) => linked(units, trees, defs, TablesView::none(), log, record_spans),
    }
}

/// What lowering produces.
#[derive(Debug)]
pub struct Lowered {
    pub program: Program,
    /// Whether there was a syntax error in any unit.
    pub has_error: bool,
    /// What each block is for.
    pub notes: Vec<Note>,
    /// What was not lowered as written.
    pub reports: Vec<Report>,
}

impl View for Lowered {
    type V = LoweredView;

    open spec fn view(&self) -> LoweredView {
        LoweredView {
            program: self.program@,
            has_error: self.has_error,
            notes: views(self.notes@),
            reports: views(self.reports@),
        }
    }
}

/// Whether every definition can be lowered from the tree of its unit.
pub open spec fn all_lowerable(trees: Seq<TreeView>, defs: Seq<DefView>) -> bool {
    forall|i: int|
        0 <= i < defs.len() ==> (#[trigger] defs[i]).unit < trees.len() && lowerable(
            trees[defs[i].unit as int],
            defs[i],
        )
}

/// Whether there is no label in what a definition initializes members to.
pub open spec fn all_inits_unlabelled(trees: Seq<TreeView>, defs: Seq<DefView>) -> bool {
    forall|i: int|
        0 <= i < defs.len() ==> inits_unlabelled(
            trees[(#[trigger] defs[i]).unit as int],
            defs[i].inits,
        )
}

/// Whether every function has a place in a program of `count` functions.
pub open spec fn places_inside(functions: Map<Seq<char>, usize>, count: nat) -> bool {
    forall|name: Seq<char>| #[trigger]
        functions.contains_key(name) ==> functions[name] < count
}

fn collect_all(trees: &Vec<SyntaxTree>, log: &mut Log) -> (r: Result<Vec<Definition>, Error>)
    ensures
        (final(log)@, crate::state::listed(r)) == all_definitions(
            views(trees@),
            0,
            Seq::empty(),
            old(log)@,
        ),
        r matches Ok(defs) ==> all_lowerable(views(trees@), views(defs@)) && all_inits_unlabelled(
            views(trees@),
            views(defs@),
        ),
        final(log)@.strict == old(log)@.strict,
        !old(log)@.strict ==> r is Ok,
{
    let ghost tv = views(trees@);
    let mut defs: Vec<Definition> = Vec::new();
    assert(views(defs@) =~= Seq::<DefView>::empty());
    let mut u: usize = 0;
    while u < trees.len()
        invariant
            u <= trees@.len(),
            tv == views(trees@),
            all_lowerable(tv, views(defs@)),
            all_inits_unlabelled(tv, views(defs@)),
            log@.strict == old(log)@.strict,
            all_definitions(tv, u as int, views(defs@), log@) == all_definitions(
                tv,
                0,
                Seq::empty(),
                old(log)@,
            ),
        decreases trees@.len() - u,
    {
        let ghost before = defs@;
        collect_definitions(u, &trees[u], &mut defs, log)?;
        assert forall|i: int| 0 <= i < defs@.len() implies (#[trigger] views(defs@)[i]).unit
            < tv.len() && lowerable(tv[views(defs@)[i].unit as int], views(defs@)[i]) by {
            if i < before.len() {
                assert(defs@[i] == before[i]);
                assert(views(before)[i] == before[i]@);
            } else {
                assert(defs@[i].unit == u);
            }
        }
        assert forall|i: int| 0 <= i < defs@.len() implies inits_unlabelled(
            tv[(#[trigger] views(defs@)[i]).unit as int],
            views(defs@)[i].inits,
        ) by {
            if i < before.len() {
                assert(views(before)[i] == before[i]@);
            } else {
                assert(defs@[i].unit == u);
            }
        }
        u = u + 1;
    }
    Ok(defs)
}

fn collect_names(trees: &Vec<SyntaxTree>, types: &mut NameSet, declared: &mut NameSet) -> (layouts:
    Vec<Table<Layout>>)
    requires
        old(types)@ == Set::<Seq<char>>::empty(),
        old(declared)@ == Set::<Seq<char>>::empty(),
    ensures
        (NamesView { layouts: views(layouts@), types: final(types)@, declared: final(declared)@ })
            == all_names(
            views(trees@),
            0,
            NamesView { layouts: Seq::empty(), types: Set::empty(), declared: Set::empty() },
        ),
        layouts@.len() == trees@.len(),
        forall|u: int| 0 <= u < layouts@.len() ==> (#[trigger] layouts@[u]).wf(),
{
    let ghost tv = views(trees@);
    let mut layouts: Vec<Table<Layout>> = Vec::new();
    assert(views(layouts@) =~= Seq::<Map<Seq<char>, Seq<SlotView>>>::empty());
    let ghost start = NamesView {
        layouts: Seq::empty(),
        types: Set::empty(),
        declared: Set::empty(),
    };
    let mut u: usize = 0;
    while u < trees.len()
        invariant
            u <= trees@.len(),
            tv == views(trees@),
            layouts@.len() == u,
            forall|v: int| 0 <= v < layouts@.len() ==> (#[trigger] layouts@[v]).wf(),
            all_names(
                tv,
                u as int,
                (NamesView { layouts: views(layouts@), types: types@, declared: declared@ }),
            ) == all_names(tv, 0, start),
        decreases trees@.len() - u,
    {
        let table = collect_registry(&trees[u], types, declared);
        layouts.push(table);
        u = u + 1;
    }
    layouts
}

fn place_functions(plan: &Plan, functions: &mut NameMap) -> (program: Program)
    requires
        old(functions)@ == Map::<Seq<char>, usize>::empty(),
        plan.duplicates@.len() == plan.names@.len(),
    ensures
        function_table(plan@, 0, Map::empty(), 0) == (final(functions)@, program@.len()),
        program@ == Seq::new(program@.len(), |i: int| FunctionView::fresh()),
        places_inside(final(functions)@, program@.len()),
        all_placed(plan@, plan@.names.len() as int, final(functions)@, program@.len()),
{
    let mut program = Program { functions: Vec::new() };
    let mut i: usize = 0;
    while i < plan.names.len()
        invariant
            i <= plan.names@.len(),
            plan.duplicates@.len() == plan.names@.len(),
            function_table(plan@, i as int, functions@, program@.len()) == function_table(
                plan@,
                0,
                Map::empty(),
                0,
            ),
            forall|j: int|
                0 <= j < program@.len() ==> #[trigger] program@[j] == FunctionView::fresh(),
            places_inside(functions@, program@.len()),
            all_placed(plan@, i as int, functions@, program@.len()),
        decreases plan.names@.len() - i,
    {
        let ghost before = functions@;
        let ghost placed = program@.len();
        assert(plan@.names[i as int] == plan.names@[i as int]@);
        if !plan.duplicates[i] && functions.get(plan.names[i].as_str()).is_none() {
            let count: usize = program.functions.len();
            functions.insert(plan.names[i].clone(), count);
            program.functions.push(FunctionData::new());
        }
        assert(all_placed(plan@, i + 1, functions@, program@.len())) by {
            assert forall|p: int| 0 <= p < program@.len() implies #[trigger] place_taken(
                plan@,
                i + 1,
                functions@,
                p,
            ) by {
                if p < placed {
                    assert(place_taken(plan@, i as int, before, p));
                    let k = choose|k: int|
                        0 <= k < i && !plan@.duplicates[k] && before[#[trigger] plan@.names[k]]
                            == p;
                    assert(before.contains_key(plan@.names[k]));
                    assert(functions@[plan@.names[k]] == p);
                } else {
                    assert(functions@[plan@.names[i as int]] == p);
                }
            }
        }
        i = i + 1;
    }
    assert(program@ =~= Seq::new(program@.len(), |k: int| FunctionView::fresh()));
    program
}

/// Whether no two functions share a name.
pub open spec fn names_apart(program: Seq<FunctionView>) -> bool {
    forall|i: int, j: int|
        0 <= i < j < program.len() ==> (#[trigger] program[i]).name != (#[trigger] program[j]).name
}

/// Whether every function has a body that is closed up, and no two share a name.
pub open spec fn made(program: Seq<FunctionView>) -> bool {
    &&& forall|i: int| 0 <= i < program.len() ==> closed_up(#[trigger] program[i])
    &&& names_apart(program)
}

/// A program as lowering leaves it: every function has a body and is complete, and no two share a
/// name.
pub open spec fn whole(program: Seq<FunctionView>) -> bool {
    &&& forall|i: int| 0 <= i < program.len() ==> complete(#[trigger] program[i])
    &&& names_apart(program)
}

/// Whether some function of the program is named `name`.
pub open spec fn holds_function(program: Seq<FunctionView>, name: Seq<char>) -> bool {
    exists|p: int| 0 <= p < program.len() && (#[trigger] program[p]).name == name
}

/// Whether every definition that is no copy is in the program, under the name that the plan gives it.
pub open spec fn holds_planned(program: Seq<FunctionView>, plan: PlanView) -> bool {
    forall|k: int|
        0 <= k < plan.names.len() && !plan.duplicates[k] ==> holds_function(
            program,
            #[trigger] plan.names[k],
        )
}

/// Whether every definition is in the program, under its IR name.
pub open spec fn holds_definitions(
    program: Seq<FunctionView>,
    units: Seq<UnitView>,
    defs: Seq<DefView>,
) -> bool {
    forall|i: usize|
        i < defs.len() ==> holds_function(
            program,
            #[trigger] ir_name(defs, minted_names(units, defs), i),
        )
}

/// Whether every definition of the units is in the program, under its IR name.
pub open spec fn holds_units(
    program: Seq<FunctionView>,
    units: Seq<UnitView>,
    trees: Seq<TreeView>,
    strict: bool,
) -> bool {
    let found = all_definitions(
        trees,
        0,
        Seq::empty(),
        LogView { strict, reports: Seq::empty() },
    ).1;
    found is Ok && holds_definitions(program, units, found->Ok_0)
}

/// Whether definitions that share a name return as many values.
pub open spec fn arities_agree(defs: Seq<DefView>, plan: PlanView) -> bool {
    forall|i: int, j: int|
        0 <= i < defs.len() && 0 <= j < defs.len() && !plan.duplicates[i] && !plan.duplicates[j]
            && (#[trigger] plan.names[i]) == (#[trigger] plan.names[j]) ==> defs[i].arity
            == defs[j].arity
}

/// Whether the first `n` definitions, copies left out, have the `count` places there are, each name
/// one of its own.
spec fn all_placed(plan: PlanView, n: int, functions: Map<Seq<char>, usize>, count: nat) -> bool {
    &&& forall|x: Seq<char>, y: Seq<char>|
        #![trigger functions[x], functions[y]]
        functions.contains_key(x) && functions.contains_key(y) && functions[x] == functions[y]
            ==> x == y
    &&& forall|k: int|
        0 <= k < n && !plan.duplicates[k] ==> functions.contains_key(#[trigger] plan.names[k])
    &&& forall|p: int| 0 <= p < count ==> #[trigger] place_taken(plan, n, functions, p)
}

/// Whether one of the first `n` definitions has the place `p`.
spec fn place_taken(plan: PlanView, n: int, functions: Map<Seq<char>, usize>, p: int) -> bool {
    exists|k: int|
        0 <= k < n && !plan.duplicates[k] && functions[#[trigger] plan.names[k]] == p
}

/// Whether every function that has been lowered is closed up, and is in the place of its name.
spec fn in_place(program: Seq<FunctionView>, functions: Map<Seq<char>, usize>) -> bool {
    forall|p: int|
        0 <= p < program.len() ==> (#[trigger] program[p]) == FunctionView::fresh() || (closed_up(
            program[p],
        ) && functions.contains_key(program[p].name) && functions[program[p].name] == p)
}

/// Whether every function that has been lowered is complete, and returns what its definitions do.
spec fn all_fit(program: Seq<FunctionView>, defs: Seq<DefView>, plan: PlanView) -> bool {
    forall|p: int|
        0 <= p < program.len() && (#[trigger] program[p]).blocks.len() > 0 ==> returns_fit(
            program[p],
        ) && exists|k: int|
            0 <= k < defs.len() && !plan.duplicates[k] && #[trigger] plan.names[k]
                == program[p].name && defs[k].arity == program[p].return_arity
}

/// Whether the definitions of the units before `u`, and the first `i` of unit `u`, have been lowered.
spec fn lowered_before(
    defs: Seq<DefView>,
    plan: PlanView,
    functions: Map<Seq<char>, usize>,
    program: Seq<FunctionView>,
    u: int,
    i: int,
) -> bool {
    forall|k: int|
        0 <= k < defs.len() && !plan.duplicates[k] && (defs[k].unit < u || (defs[k].unit == u && k
            < i)) ==> {
            let f = program[functions[#[trigger] plan.names[k]] as int];
            f.blocks.len() > 0 && f.name == plan.names[k]
        }
}

/// Once all units are lowered, the program holds every definition, and nothing else.
proof fn lemma_made(
    defs: Seq<DefView>,
    plan: PlanView,
    functions: Map<Seq<char>, usize>,
    program: Seq<FunctionView>,
    u: int,
)
    requires
        plan.names.len() == defs.len(),
        forall|k: int| 0 <= k < defs.len() ==> (#[trigger] defs[k]).unit < u,
        in_place(program, functions),
        all_placed(plan, defs.len() as int, functions, program.len()),
        lowered_before(defs, plan, functions, program, u, 0),
        places_inside(functions, program.len()),
    ensures
        made(program),
        holds_planned(program, plan),
        all_fit(program, defs, plan) ==> whole(program),
{
    assert forall|k: int| 0 <= k < plan.names.len() && !plan.duplicates[k] implies holds_function(
        program,
        #[trigger] plan.names[k],
    ) by {
        assert(defs[k].unit < u);
        let p = functions[plan.names[k]] as int;
        assert(program[p].name == plan.names[k]);
    }
    assert forall|p: int| 0 <= p < program.len() implies closed_up(#[trigger] program[p])
        && functions[program[p].name] == p by {
        assert(place_taken(plan, defs.len() as int, functions, p));
        let k = choose|k: int|
            0 <= k < defs.len() && !plan.duplicates[k] && functions[#[trigger] plan.names[k]] == p;
        assert(defs[k].unit < u);
        assert(program[functions[plan.names[k]] as int].blocks.len() > 0);
    }
}

/// What the place of a definition holds returns as many values as the definition, where definitions
/// that share a name do.
proof fn lemma_fits_on(
    program: Seq<FunctionView>,
    defs: Seq<DefView>,
    plan: PlanView,
    functions: Map<Seq<char>, usize>,
    p: int,
    i: int,
)
    requires
        0 <= p < program.len(),
        0 <= i < defs.len(),
        !plan.duplicates[i],
        functions.contains_key(plan.names[i]),
        functions[plan.names[i]] == p,
        all_placed(plan, defs.len() as int, functions, program.len()),
        in_place(program, functions),
        arities_agree(defs, plan),
        all_fit(program, defs, plan),
    ensures
        returns_fit(FunctionView { return_arity: defs[i].arity, ..program[p] }),
{
    if program[p].blocks.len() > 0 {
        assert(program[p] != FunctionView::fresh());
        assert(functions[program[p].name] == functions[plan.names[i]]);
        let k = choose|k: int|
            0 <= k < defs.len() && !plan.duplicates[k] && #[trigger] plan.names[k]
                == program[p].name && defs[k].arity == program[p].return_arity;
        assert(plan.names[k] == plan.names[i]);
        let f = FunctionView { return_arity: defs[i].arity, ..program[p] };
        assert(f == program[p]);
    }
}

impl<'a> Context<'a> {
    /// Lowers the definitions of unit `u`, each to its place in `program`.
    ///
    /// # Errors
    ///
    /// In strict mode, the first report.
    fn lower_definitions(
        &mut self,
        tree: &SyntaxTree,
        u: usize,
        defs: &Vec<Definition>,
        plan: &Plan,
        functions: &NameMap,
        program: &mut Program,
    ) -> (r: Result<(), Error>)
        requires
            old(self).idle(),
            old(self)@.env.functions == functions@,
            plan.duplicates@.len() == defs@.len(),
            plan.names@.len() == defs@.len(),
            forall|i: int|
                0 <= i < defs@.len() && (#[trigger] defs@[i]).unit == u ==> lowerable(
                    tree@,
                    defs@[i]@,
                ),
            places_inside(functions@, old(program)@.len()),
            all_placed(plan@, defs@.len() as int, functions@, old(program)@.len()),
            in_place(old(program)@, functions@),
            arities_agree(views(defs@), plan@) ==> all_fit(old(program)@, views(defs@), plan@),
            lowered_before(views(defs@), plan@, functions@, old(program)@, u as int, 0),
        ensures
            ({
                let out = lower_definitions(
                    tree@,
                    old(self)@,
                    u,
                    views(defs@),
                    plan@,
                    0,
                    old(program)@,
                );
                match r {
                    Ok(_) => out == (final(self)@, Ok::<Seq<FunctionView>, ErrorView>(
                        final(program)@,
                    )),
                    Err(e) => out.1 == Err::<Seq<FunctionView>, ErrorView>(e@),
                }
            }),
            r is Ok ==> final(program)@.len() == old(program)@.len() && in_place(
                final(program)@,
                functions@,
            ) && lowered_before(views(defs@), plan@, functions@, final(program)@, u + 1, 0) && (
            arities_agree(views(defs@), plan@) ==> all_fit(final(program)@, views(defs@), plan@)),
            !old(self)@.env.strict && (forall|i: int|
                0 <= i < defs@.len() && (#[trigger] defs@[i]).unit == u ==> inits_unlabelled(
                    tree@,
                    defs@[i]@.inits,
                )) ==> r is Ok,
    {
        let ghost dv = views(defs@);
        let ghost pv = plan@;
        let mut i: usize = 0;
        while i < defs.len()
            invariant
                i <= defs@.len(),
                dv == views(defs@),
                pv == plan@,
                self.idle(),
                self@.env.functions == functions@,
                self@.env.strict == old(self)@.env.strict,
                plan.duplicates@.len() == defs@.len(),
                plan.names@.len() == defs@.len(),
                forall|j: int|
                    0 <= j < defs@.len() && (#[trigger] defs@[j]).unit == u ==> lowerable(
                        tree@,
                        defs@[j]@,
                    ),
                places_inside(functions@, program@.len()),
                program@.len() == old(program)@.len(),
                all_placed(pv, defs@.len() as int, functions@, program@.len()),
                in_place(program@, functions@),
                arities_agree(dv, pv) ==> all_fit(program@, dv, pv),
                lowered_before(dv, pv, functions@, program@, u as int, i as int),
                lower_definitions(tree@, self@, u, dv, pv, i as int, program@)
                    == lower_definitions(tree@, old(self)@, u, dv, pv, 0, old(program)@),
            decreases defs@.len() - i,
        {
            let d = &defs[i];
            assert(dv[i as int] == defs@[i as int]@);
            if d.unit == u && !plan.duplicates[i] {
                let name = plan.names[i].as_str();
                assert(pv.names[i as int] == plan.names@[i as int]@);
                assert(functions@.contains_key(pv.names[i as int]));
                if let Some(place) = functions.get(name) {
                    let ghost before = program@;
                    let mut prior = FunctionData::new();
                    std::mem::swap(&mut prior, &mut program.functions[place]);
                    let ghost was = prior@;
                    assert(was == before[place as int]);
                    let f = self.lower_function(tree, d, name, prior)?;
                    program.functions[place] = f;
                    assert(program@ =~= before.update(place as int, f@));
                    proof {
                        assert(lowered_before(dv, pv, functions@, program@, u as int, i + 1)) by {
                            assert forall|k: int|
                                0 <= k < dv.len() && !pv.duplicates[k] && (dv[k].unit < u || (
                                dv[k].unit == u && k < i + 1)) implies ({
                                let g = program@[functions@[#[trigger] pv.names[k]] as int];
                                g.blocks.len() > 0 && g.name == pv.names[k]
                            }) by {
                                assert(functions@.contains_key(pv.names[k]));
                                if functions@[pv.names[k]] == place {
                                    assert(pv.names[k] == pv.names[i as int]);
                                } else {
                                    let g = before[functions@[pv.names[k]] as int];
                                    assert(g.blocks.len() > 0);
                                }
                            }
                        }
                        if arities_agree(dv, pv) {
                            lemma_fits_on(before, dv, pv, functions@, place as int, i as int);
                            assert forall|p: int|
                                0 <= p < program@.len() && (
                                #[trigger] program@[p]).blocks.len() > 0 implies returns_fit(
                                program@[p],
                            ) && exists|k: int|
                                0 <= k < dv.len() && !pv.duplicates[k] && #[trigger] pv.names[k]
                                    == program@[p].name && dv[k].arity
                                    == program@[p].return_arity by {
                                if p != place {
                                    assert(before[p].blocks.len() > 0);
                                } else {
                                    assert(pv.names[i as int] == program@[p].name);
                                }
                            }
                        }
                    }
                }
            }
            i = i + 1;
        }
        Ok(())
    }
}

/// Lowers the definitions `defs` of `units`, whose syntax trees are `trees`, into one program, under
/// the names that `plan` gives them; `reports` are those made before. With `record_spans`,
/// statements carry the source they came from.
///
/// # Errors
///
/// In strict mode, the first report.
#[verifier::loop_isolation(false)]
pub fn link_planned(
    units: &Vec<TranslationUnit>,
    trees: &Vec<SyntaxTree>,
    defs: &Vec<Definition>,
    plan: &Plan,
    tables: &ClassTables,
    strict: bool,
    reports: Vec<Report>,
    record_spans: bool,
) -> (r: Result<Lowered, Error>)
    requires
        units@.len() == trees@.len(),
        all_lowerable(views(trees@), views(defs@)),
        plan.fits(units@.len(), defs@.len()),
    ensures
        seen(r) == lowered_by(
            views(units@),
            views(trees@),
            views(defs@),
            plan@,
            tables@,
            strict,
            views(reports@),
            record_spans,
        ),
        r matches Ok(l) ==> made(l@.program) && holds_planned(l@.program, plan@) && (arities_agree(
            views(defs@),
            plan@,
        ) ==> whole(l@.program)),
        !strict && all_inits_unlabelled(views(trees@), views(defs@)) ==> r is Ok,
{
    let ghost uv = views(units@);
    let ghost tv = views(trees@);
    let ghost dv = views(defs@);
    let ghost cv = tables@;
    let ghost pv = plan@;
    assert forall|i: int| 0 <= i < defs@.len() implies (#[trigger] defs@[i]).unit < units@.len() by {
        assert(dv[i] == defs@[i]@);
    }
    let mut types = NameSet::new();
    let mut declared = NameSet::new();
    let layouts = collect_names(trees, &mut types, &mut declared);
    let ghost nv = NamesView {
        layouts: views(layouts@),
        types: types@,
        declared: declared@,
    };
    let mut functions = NameMap::new();
    let mut program = place_functions(&plan, &mut functions);
    let ghost count = program@.len();
    let has_error = holds_error(trees);
    let mut notes: Vec<Note> = Vec::new();
    let mut reports = reports;
    assert(views(notes@) =~= Seq::<NoteView>::empty());
    let ghost start = LoweredView {
        program: program@,
        has_error,
        notes: Seq::empty(),
        reports: views(reports@),
    };
    let mut u: usize = 0;
    while u < trees.len()
        invariant
            u <= trees@.len(),
            places_inside(functions@, program@.len()),
            program@.len() == count,
            in_place(program@, functions@),
            arities_agree(dv, pv) ==> all_fit(program@, dv, pv),
            lowered_before(dv, pv, functions@, program@, u as int, 0),
            lower_from(
                uv,
                tv,
                dv,
                pv,
                nv,
                functions@,
                cv,
                strict,
                record_spans,
                u as int,
                (LoweredView {
                    program: program@,
                    has_error,
                    notes: views(notes@),
                    reports: views(reports@),
                }),
            ) == lower_from(uv, tv, dv, pv, nv, functions@, cv, strict, record_spans, 0, start),
        decreases trees@.len() - u,
    {
        let unit = if record_spans && units[u].path.is_some() {
            Some((u, units[u].source.as_str().len()))
        } else {
            None
        };
        let env = Env {
            functions: &functions,
            declared_functions: &declared,
            type_names: &types,
            struct_layouts: &layouts[u],
            local_names: &plan.local_names[u],
            strict,
            unit,
            tables,
        };
        assert(env@ == env_of(uv, u as int, functions@, nv, pv, cv, strict, record_spans));
        let mut ctx = Context::new(env);
        assert forall|i: int| 0 <= i < defs@.len() && (#[trigger] defs@[i]).unit
            == u implies lowerable(tv[u as int], defs@[i]@) by {
            assert(dv[i] == defs@[i]@);
        }
        assert(forall|i: int|
            0 <= i < defs@.len() && (#[trigger] defs@[i]).unit == u ==> dv[i] == defs@[i]@);
        ctx.lower_definitions(&trees[u], u, defs, plan, &functions, &mut program)?;
        let ghost st = ctx@;
        let (mut unit_notes, mut unit_reports) = ctx.finish();
        let ghost n0 = notes@;
        let ghost r0 = reports@;
        let ghost n1 = unit_notes@;
        let ghost r1 = unit_reports@;
        notes.append(&mut unit_notes);
        reports.append(&mut unit_reports);
        assert(views(notes@) =~= views(n0) + views(n1));
        assert(views(reports@) =~= views(r0) + views(r1));
        u = u + 1;
    }
    proof {
        lemma_made(dv, pv, functions@, program@, u as int);
    }
    Ok(Lowered { program, has_error, notes, reports })
}

/// Under a plan for C, every name is that of one function: definitions that are no copies of each
/// other differ in their names, and a copy has the name of what it is a copy of.
proof fn lemma_names_planned(units: Seq<UnitView>, defs: Seq<DefView>, plan: PlanView)
    requires
        defs.len() <= usize::MAX,
        exists|log: LogView| #[trigger] planned(units, defs, log).1 == Ok::<PlanView, ErrorView>(plan),
    ensures
        plan.names.len() == defs.len(),
        arities_agree(defs, plan),
        forall|program: Seq<FunctionView>|
            holds_planned(program, plan) ==> #[trigger] holds_definitions(program, units, defs),
{
    let names = minted_names(units, defs);
    assert forall|i: int, j: int|
        0 <= i < defs.len() && 0 <= j < defs.len() && !plan.duplicates[i] && !plan.duplicates[j] && (
        #[trigger] plan.names[i]) == (#[trigger] plan.names[j]) implies defs[i].arity
        == defs[j].arity by {
        if same_function(defs[i], defs[j]) {
            copies_have_one_owner(defs, i as usize, j as usize);
            assert(i == j);
        } else {
            different_functions_have_different_names(units, defs, i as usize, j as usize);
        }
    }
    assert forall|program: Seq<FunctionView>| holds_planned(program, plan) implies #[trigger]
    holds_definitions(program, units, defs) by {
        assert forall|i: usize| i < defs.len() implies holds_function(
            program,
            #[trigger] ir_name(defs, names, i),
        ) by {
            an_owner_is_its_own(defs, i);
            let o = owner(defs, i);
            assert(!plan.duplicates[o as int]);
            assert(plan.names[o as int] == ir_name(defs, names, o));
        }
    }
}

/// Lowers the definitions `defs` of `units`, whose syntax trees are `trees`, into one program. With
/// `record_spans`, statements carry the source they came from.
///
/// # Errors
///
/// In strict mode, the first report.
pub fn link_units(
    units: &Vec<TranslationUnit>,
    trees: &Vec<SyntaxTree>,
    defs: &Vec<Definition>,
    tables: &ClassTables,
    log: Log,
    record_spans: bool,
) -> (r: Result<Lowered, Error>)
    requires
        units@.len() == trees@.len(),
        all_lowerable(views(trees@), views(defs@)),
    ensures
        seen(r) == linked(
            views(units@),
            views(trees@),
            views(defs@),
            tables@,
            log@,
            record_spans,
        ),
        r matches Ok(l) ==> whole(l@.program) && holds_definitions(
            l@.program,
            views(units@),
            views(defs@),
        ),
        !log@.strict && all_inits_unlabelled(views(trees@), views(defs@)) ==> r is Ok,
{
    let strict = log.strict;
    let mut log = log;
    assert forall|i: int| 0 <= i < defs@.len() implies (#[trigger] defs@[i]).unit < units@.len() by {
        assert(views(defs@)[i] == defs@[i]@);
    }
    let plan = plan_definitions(units, defs, &mut log)?;
    proof {
        lemma_names_planned(views(units@), views(defs@), plan@);
    }
    link_planned(units, trees, defs, &plan, tables, strict, log.reports, record_spans)
}

/// Lowers `units`, whose syntax trees are `trees`, into one program. With `strict`, whatever is not
/// lowered as written is an error; with `record_spans`, statements carry the source they came from.
///
/// # Errors
///
/// In strict mode, the first report.
pub fn lower_trees(
    units: &Vec<TranslationUnit>,
    trees: &Vec<SyntaxTree>,
    strict: bool,
    record_spans: bool,
) -> (r: Result<Lowered, Error>)
    requires
        units@.len() == trees@.len(),
    ensures
        seen(r) == lowered(views(units@), views(trees@), strict, record_spans),
        r matches Ok(l) ==> whole(l@.program) && holds_units(
            l@.program,
            views(units@),
            views(trees@),
            strict,
        ),
        !strict ==> r is Ok,
{
    let mut log = Log { strict, reports: Vec::new() };
    assert(log@.reports =~= Seq::<ReportView>::empty());
    let defs = collect_all(trees, &mut log)?;
    let tables = ClassTables::none();
    link_units(units, trees, &defs, &tables, log, record_spans)
}

/// Whether one of the trees holds a syntax error.
fn holds_error(trees: &Vec<SyntaxTree>) -> (b: bool)
    ensures
        b == any_error(views(trees@)),
{
    let ghost tv = views(trees@);
    let mut u: usize = 0;
    while u < trees.len()
        invariant
            u <= trees@.len(),
            tv == views(trees@),
            forall|v: int| 0 <= v < u ==> !(#[trigger] tv[v])[0].has_error,
        decreases trees@.len() - u,
    {
        let _n = trees[u].len();
        if trees[u].has_error(0) {
            assert(tv[u as int][0].has_error);
            return true;
        }
        u = u + 1;
    }
    false
}

/// The trees that the C grammar reads the units as, from number `u` on, after `trees`; an error if
/// what the parser hands over is no tree of that grammar.
pub open spec fn c_trees(units: Seq<UnitView>, u: int, trees: Seq<TreeView>) -> Result<
    Seq<TreeView>,
    ErrorView,
>
    decreases units.len() - u,
{
    if u < 0 || u >= units.len() {
        Ok(trees)
    } else {
        let rows = c_rows(units[u].source);
        if readable(units[u].source, rows) {
            c_trees(units, u + 1, trees.push(tree_of(units[u].source, rows)))
        } else {
            Err(ErrorView::TreeSitterParse("the parse tree is not one of the grammar"@))
        }
    }
}

fn parse_units(units: &Vec<TranslationUnit>) -> (r: Result<Vec<SyntaxTree>, Error>)
    ensures
        crate::state::listed(r) == c_trees(views(units@), 0, Seq::empty()),
        r matches Ok(trees) ==> trees@.len() == units@.len(),
{
    let ghost uv = views(units@);
    let mut trees: Vec<SyntaxTree> = Vec::new();
    assert(views(trees@) =~= Seq::<TreeView>::empty());
    let mut u: usize = 0;
    while u < units.len()
        invariant
            u <= units@.len(),
            uv == views(units@),
            trees@.len() == u,
            c_trees(uv, u as int, views(trees@)) == c_trees(uv, 0, Seq::empty()),
        decreases units@.len() - u,
    {
        let source = units[u].source.as_str();
        let rows = c_syntax(source);
        match SyntaxTree::from_rows(source, &rows) {
            Some(tree) => trees.push(tree),
            None => {
                return Err(
                    Error::TreeSitterParse(
                        String::from_str("the parse tree is not one of the grammar"),
                    ),
                );
            },
        }
        u = u + 1;
    }
    Ok(trees)
}

/// The program that units of C source are lowered to.
pub open spec fn c_program(units: Seq<UnitView>, strict: bool, record_spans: bool) -> Result<
    LoweredView,
    ErrorView,
> {
    match c_trees(units, 0, Seq::empty()) {
        Ok(trees) => lowered(units, trees, strict, record_spans),
        Err(e) => Err(e),
    }
}

/// Parses and lowers units of C source into one program.
///
/// # Errors
///
/// If what the parser hands over is no tree of the grammar, and in strict mode, the first report.
pub fn lower_units(units: &Vec<TranslationUnit>, strict: bool, record_spans: bool) -> (r: Result<
    Lowered,
    Error,
>)
    ensures
        seen(r) == c_program(views(units@), strict, record_spans),
        r matches Ok(l) ==> whole(l@.program) && holds_units(
            l@.program,
            views(units@),
            c_trees(views(units@), 0, Seq::empty())->Ok_0,
            strict,
        ),
        !strict && c_trees(views(units@), 0, Seq::empty()) is Ok ==> r is Ok,
{
    let trees = parse_units(units)?;
    lower_trees(units, &trees, strict, record_spans)
}

/// Parses the C source in `source`, one unit that is not a file, into a program. No spans are
/// recorded, and there are no stubs for functions that are only called.
///
/// # Errors
///
/// If what the parser hands over is no tree of the grammar, and in strict mode, the first report.
pub fn parse_c_program(source: &str, strict: bool) -> (r: Result<Lowered, Error>)
    ensures
        seen(r) == c_program(seq![(UnitView { path: None, source: source@ })], strict, false),
        r matches Ok(l) ==> whole(l@.program) && holds_units(
            l@.program,
            seq![(UnitView { path: None, source: source@ })],
            seq![tree_of(source@, c_rows(source@))],
            strict,
        ),
        !strict && readable(source@, c_rows(source@)) ==> r is Ok,
{
    let mut units: Vec<TranslationUnit> = Vec::new();
    units.push(TranslationUnit { path: None, source: String::from_str(source) });
    assert(views(units@) =~= seq![(UnitView { path: None, source: source@ })]);
    proof {
        reveal_with_fuel(c_trees, 2);
    }
    lower_units(&units, strict, false)
}

} // verus!
