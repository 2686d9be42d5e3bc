//! How a program is put together.
//!
//! The laws below say that the definitions of all units are lowered, each into the function of its
//! name, and what is told to lowering of the units.

use vstd::prelude::*;
use crate::carries::here;
use crate::classes::TablesView;
use crate::cpp::{cpp_definitions, cpp_lowered, cpp_plan, cpp_tables};
use crate::declares::{declares_function, is_definition, used_as_type};
use crate::discovery::class_model;
use crate::error::ErrorView;
use crate::function::function;
use crate::kinds::{Field, Kind};
use crate::lowering::{blame, unanalyzed, unparsable, unsupported};
use crate::mir::{ExpView, FunctionView};
use crate::plan::{planned, PlanView};
use crate::program::{all_definitions, all_names, env_of, function_table, lower_definitions, lower_from, lowered, lowered_by, LoweredView, NamesView};
use crate::report::{Attribution, ReportView};
use crate::shapes::{head_of, kind_at, recovery, registry, text_at, unit_registry, FunctionHead, RegistryView};
use crate::state::{fresh, initial, report, State};
use crate::syntax::{field_child, TreeView};
use crate::units::{definitions, duplicate, logged, owner, owner_from, DefView, LogView, UnitView};

verus! {

// Functions

/// A definition is added to what the program holds of its function, and the definitions after it are
/// lowered from there.
pub proof fn a_definition_is_added_to_its_function(
    t: TreeView,
    st: State,
    u: usize,
    defs: Seq<DefView>,
    plan: PlanView,
    i: int,
    program: Seq<FunctionView>,
    after: State,
)
    requires
        0 <= i < defs.len(),
        defs[i].unit == u,
        !plan.duplicates[i],
        st.env.functions.contains_key(plan.names[i]),
        st.env.functions[plan.names[i]] < program.len(),
        function(
            t,
            (State { fun: program[st.env.functions[plan.names[i]] as int], ..st }),
            defs[i],
            plan.names[i],
        ) == (after, Ok::<(), ErrorView>(())),
        after.env == st.env,
    ensures
        exists|next: Seq<FunctionView>|
            {
                &&& next.len() == program.len()
                &&& next[st.env.functions[plan.names[i]] as int] == after.fun
                &&& forall|f: int|
                    0 <= f < program.len() && f != st.env.functions[plan.names[i]]
                        ==> #[trigger] next[f] == program[f]
                &&& lower_definitions(t, st, u, defs, plan, i, program)
                    == #[trigger] lower_definitions(
                    t,
                    State { fun: FunctionView::fresh(), ..after },
                    u,
                    defs,
                    plan,
                    i + 1,
                    next,
                )
            },
{
    let next = program.update(st.env.functions[plan.names[i]] as int, after.fun);
    assert(lower_definitions(t, st, u, defs, plan, i, program) == lower_definitions(
        t,
        State { fun: FunctionView::fresh(), ..after },
        u,
        defs,
        plan,
        i + 1,
        next,
    ));
}

/// What cannot be lowered stops the program: if a definition fails, so do all.
pub proof fn a_definition_that_fails_stops_the_program(
    t: TreeView,
    st: State,
    u: usize,
    defs: Seq<DefView>,
    plan: PlanView,
    i: int,
    program: Seq<FunctionView>,
    after: State,
    e: ErrorView,
)
    requires
        0 <= i < defs.len(),
        defs[i].unit == u,
        !plan.duplicates[i],
        st.env.functions.contains_key(plan.names[i]),
        function(
            t,
            (State { fun: program[st.env.functions[plan.names[i]] as int], ..st }),
            defs[i],
            plan.names[i],
        ) == (after, Err::<(), ErrorView>(e)),
    ensures
        lower_definitions(t, st, u, defs, plan, i, program).1 == Err::<
            Seq<FunctionView>,
            ErrorView,
        >(e),
{
}

/// A definition of another unit, and one that copies an earlier one, change nothing; and after the
/// last definition the program stands.
pub proof fn other_definitions_change_nothing(
    t: TreeView,
    st: State,
    u: usize,
    defs: Seq<DefView>,
    plan: PlanView,
    i: int,
    program: Seq<FunctionView>,
)
    ensures
        0 <= i < defs.len() && (defs[i].unit != u || plan.duplicates[i]) ==> lower_definitions(
            t,
            st,
            u,
            defs,
            plan,
            i,
            program,
        ) == lower_definitions(t, st, u, defs, plan, i + 1, program),
        i >= defs.len() ==> lower_definitions(t, st, u, defs, plan, i, program) == (
            st,
            Ok::<Seq<FunctionView>, ErrorView>(program),
        ),
{
}

/// The units are lowered one after the other, each from a fresh state and into the program so far;
/// what is noted and reported of a unit comes after what was before, and a failure is one of all.
pub proof fn the_units_are_lowered_in_order(
    units: Seq<UnitView>,
    trees: Seq<TreeView>,
    defs: Seq<DefView>,
    plan: PlanView,
    names: NamesView,
    functions: Map<Seq<char>, usize>,
    tables: TablesView,
    strict: bool,
    record_spans: bool,
    u: int,
    out: LoweredView,
)
    requires
        0 <= u <= trees.len(),
    ensures
        ({
            let whole = lower_from(
                units,
                trees,
                defs,
                plan,
                names,
                functions,
                tables,
                strict,
                record_spans,
                u,
                out,
            );
            let env = env_of(units, u, functions, names, plan, tables, strict, record_spans);
            let r = lower_definitions(
                trees[u],
                initial(env),
                u as usize,
                defs,
                plan,
                0,
                out.program,
            );
            &&& u == trees.len() ==> whole == Ok::<LoweredView, ErrorView>(out)
            &&& u < trees.len() && r.1 is Err ==> whole == Err::<LoweredView, ErrorView>(
                r.1->Err_0,
            )
            &&& u < trees.len() && r.1 is Ok ==> whole == lower_from(
                units,
                trees,
                defs,
                plan,
                names,
                functions,
                tables,
                strict,
                record_spans,
                u + 1,
                LoweredView {
                    program: r.1->Ok_0,
                    has_error: out.has_error,
                    notes: out.notes + r.0.notes,
                    reports: out.reports + r.0.reports,
                },
            )
        }),
{
}

proof fn lemma_owner(defs: Seq<DefView>, i: usize, j: usize, k: usize)
    requires
        j <= k <= i < defs.len(),
        k < i ==> defs[k as int].name == defs[i as int].name && defs[k as int].text
            == defs[i as int].text,
        forall|m: usize|
            #![trigger defs[m as int]]
            j <= m < k ==> !(defs[m as int].name == defs[i as int].name && defs[m as int].text
                == defs[i as int].text),
    ensures
        owner_from(defs, i, j) == k,
    decreases i - j,
{
    if j < k {
        assert(!(defs[j as int].name == defs[i as int].name && defs[j as int].text
            == defs[i as int].text));
        lemma_owner(defs, i, (j + 1) as usize, k);
    }
}

/// A definition is a copy exactly if an earlier one has its name and its text; the first of those is
/// the one that is lowered.
pub proof fn a_copy_belongs_to_the_first_of_its_text(defs: Seq<DefView>, i: usize, k: usize)
    requires
        k <= i < defs.len(),
        k < i ==> defs[k as int].name == defs[i as int].name && defs[k as int].text
            == defs[i as int].text,
        forall|m: usize|
            #![trigger defs[m as int]]
            m < k ==> !(defs[m as int].name == defs[i as int].name && defs[m as int].text
                == defs[i as int].text),
    ensures
        owner(defs, i) == k,
        duplicate(defs, i) <==> k != i,
{
    lemma_owner(defs, i, 0, k);
}

/// A program is lowered from the first unit on, with a place for each of its functions, in which there
/// is nothing yet, and with what was reported before; it has an error if the root of a unit has one.
pub proof fn a_program_is_lowered_from_nothing(
    units: Seq<UnitView>,
    trees: Seq<TreeView>,
    defs: Seq<DefView>,
    plan: PlanView,
    tables: TablesView,
    strict: bool,
    reports: Seq<ReportView>,
    record_spans: bool,
)
    ensures
        exists|start: LoweredView|
            {
                &&& start.program.len() == function_table(plan, 0, Map::empty(), 0).1
                &&& forall|i: int|
                    0 <= i < start.program.len() ==> #[trigger] start.program[i]
                        == FunctionView::fresh()
                &&& start.notes.len() == 0
                &&& start.reports == reports
                &&& start.has_error <==> exists|u: int|
                    0 <= u < trees.len() && (#[trigger] trees[u])[0].has_error
                &&& lowered_by(units, trees, defs, plan, tables, strict, reports, record_spans)
                    == #[trigger] lower_from(
                    units,
                    trees,
                    defs,
                    plan,
                    all_names(
                        trees,
                        0,
                        NamesView {
                            layouts: Seq::empty(),
                            types: Set::empty(),
                            declared: Set::empty(),
                        },
                    ),
                    function_table(plan, 0, Map::empty(), 0).0,
                    tables,
                    strict,
                    record_spans,
                    0,
                    start,
                )
            },
{
    let table = function_table(plan, 0, Map::empty(), 0);
    let start = LoweredView {
        program: Seq::new(table.1, |i: int| FunctionView::fresh()),
        has_error: crate::program::any_error(trees),
        notes: Seq::empty(),
        reports,
    };
    let names = all_names(
        trees,
        0,
        NamesView { layouts: Seq::empty(), types: Set::empty(), declared: Set::empty() },
    );
    assert(lowered_by(units, trees, defs, plan, tables, strict, reports, record_spans)
        == lower_from(
        units,
        trees,
        defs,
        plan,
        names,
        table.0,
        tables,
        strict,
        record_spans,
        0,
        start,
    ));
}

/// A C++ unit is lowered with what is known of its classes, its overloads and its own definitions.
pub proof fn a_unit_of_classes_is_told_of_them(source: Seq<char>, t: TreeView, strict: bool)
    ensures
        cpp_tables(t).classes == class_model(t).classes,
        cpp_tables(t).subclasses == class_model(t).subclasses,
        cpp_lowered(source, t, strict) == lowered_by(
            seq![(UnitView { path: None, source })],
            seq![t],
            cpp_definitions(t),
            cpp_plan(cpp_definitions(t)),
            cpp_tables(t),
            strict,
            Seq::empty(),
            false,
        ),
{
}

/// C units are lowered from all their definitions, under the names that were planned for them.
pub proof fn units_are_lowered_as_planned(
    units: Seq<UnitView>,
    trees: Seq<TreeView>,
    strict: bool,
    record_spans: bool,
    log: LogView,
    defs: Seq<DefView>,
    after: LogView,
    plan: PlanView,
)
    requires
        all_definitions(
            trees,
            0,
            Seq::empty(),
            (LogView { strict, reports: Seq::empty() }),
        ) == (log, Ok::<Seq<DefView>, ErrorView>(defs)),
        planned(units, defs, log) == (after, Ok::<PlanView, ErrorView>(plan)),
    ensures
        lowered(units, trees, strict, record_spans) == lowered_by(
            units,
            trees,
            defs,
            plan,
            TablesView::none(),
            log.strict,
            after.reports,
            record_spans,
        ),
{
}

// Places

proof fn lemma_table(
    plan: PlanView,
    i: int,
    functions: Map<Seq<char>, usize>,
    count: nat,
)
    requires
        0 <= i <= plan.names.len(),
        count + plan.names.len() - i <= usize::MAX,
        forall|x: Seq<char>| #[trigger] functions.contains_key(x) ==> functions[x] < count,
        forall|x: Seq<char>, y: Seq<char>|
            #![trigger functions.contains_key(x), functions.contains_key(y)]
            functions.contains_key(x) && functions.contains_key(y) && x != y ==> functions[x]
                != functions[y],
    ensures
        ({
            let r = function_table(plan, i, functions, count);
            &&& r.1 >= count
            &&& forall|x: Seq<char>| #[trigger] r.0.contains_key(x) ==> r.0[x] < r.1
            &&& forall|x: Seq<char>, y: Seq<char>|
                #![trigger r.0.contains_key(x), r.0.contains_key(y)]
                r.0.contains_key(x) && r.0.contains_key(y) && x != y ==> r.0[x] != r.0[y]
            &&& forall|x: Seq<char>| functions.contains_key(x) ==> #[trigger] r.0.contains_key(x)
                && r.0[x] == functions[x]
            &&& forall|k: int|
                i <= k < plan.names.len() && !plan.duplicates[k] ==> r.0.contains_key(
                    #[trigger] plan.names[k],
                )
            &&& forall|x: Seq<char>|
                #[trigger] r.0.contains_key(x) ==> functions.contains_key(x) || exists|k: int|
                    i <= k < plan.names.len() && !plan.duplicates[k] && #[trigger] plan.names[k]
                        == x
        }),
    decreases plan.names.len() - i,
{
    if i < plan.names.len() {
        if plan.duplicates[i] || functions.contains_key(plan.names[i]) {
            lemma_table(plan, i + 1, functions, count);
        } else {
            let more = functions.insert(plan.names[i], count as usize);
            lemma_table(plan, i + 1, more, count + 1);
            assert(more.contains_key(plan.names[i]));
            let r = function_table(plan, i, functions, count);
            assert forall|x: Seq<char>| functions.contains_key(x) implies #[trigger] r.0.contains_key(
                x,
            ) && r.0[x] == functions[x] by {
                assert(more.contains_key(x));
            }
            assert forall|x: Seq<char>| #[trigger] r.0.contains_key(x) implies functions.contains_key(
                x,
            ) || exists|k: int|
                i <= k < plan.names.len() && !plan.duplicates[k] && #[trigger] plan.names[k]
                    == x by {
                if more.contains_key(x) && !functions.contains_key(x) {
                    assert(plan.names[i] == x);
                }
            }
            assert forall|k: int|
                i <= k < plan.names.len() && !plan.duplicates[k] implies r.0.contains_key(
                #[trigger] plan.names[k],
            ) by {
                if k == i {
                    assert(more.contains_key(plan.names[i]));
                }
            }
        }
    }
}

/// Every definition that is not a copy has a place in the program, definitions of one name the same,
/// and those of different names different ones; nothing else has a place.
pub proof fn every_function_has_a_place_of_its_own(plan: PlanView)
    requires
        plan.names.len() <= usize::MAX,
    ensures
        ({
            let r = function_table(plan, 0, Map::empty(), 0);
            &&& forall|k: int|
                0 <= k < plan.names.len() && !plan.duplicates[k] ==> r.0.contains_key(
                    #[trigger] plan.names[k],
                ) && r.0[plan.names[k]] < r.1
            &&& forall|x: Seq<char>, y: Seq<char>|
                #![trigger r.0.contains_key(x), r.0.contains_key(y)]
                r.0.contains_key(x) && r.0.contains_key(y) && x != y ==> r.0[x] != r.0[y]
            &&& forall|x: Seq<char>|
                #[trigger] r.0.contains_key(x) ==> exists|k: int|
                    0 <= k < plan.names.len() && !plan.duplicates[k] && #[trigger] plan.names[k]
                        == x
        }),
{
    lemma_table(plan, 0, Map::empty(), 0);
}

// Names

/// The layout of unit `u` alone.
pub open spec fn has_layouts(
    names: NamesView,
    u: int,
    t: TreeView,
) -> bool {
    0 <= u < names.layouts.len() && names.layouts[u] == unit_registry(
        t,
        Set::empty(),
        Set::empty(),
    ).layouts
}

proof fn lemma_layouts_alone(
    t: TreeView,
    m: nat,
    a: RegistryView,
    b: RegistryView,
)
    requires
        a.layouts == b.layouts,
    ensures
        registry(t, m, a).layouts == registry(t, m, b).layouts,
    decreases m,
{
    if m > 0 {
        lemma_layouts_alone(t, (m - 1) as nat, a, b);
    }
}

/// Whether a unit says that `x` is a type.
pub open spec fn uses_type(t: TreeView, x: Seq<char>) -> bool {
    exists|n: usize| n < t.len() && #[trigger] used_as_type(t, n) && text_at(t, n) == x
}

/// Whether a unit says that `x` is a function.
pub open spec fn says_function(t: TreeView, x: Seq<char>) -> bool {
    exists|n: usize| n < t.len() && #[trigger] declares_function(t, n, x)
}

proof fn lemma_names(trees: Seq<TreeView>, u: int, known: NamesView, x: Seq<char>)
    requires
        0 <= u <= trees.len(),
        forall|v: int| 0 <= v < trees.len() ==> (#[trigger] trees[v]).len() <= usize::MAX,
        known.layouts.len() == u,
    ensures
        ({
            let r = all_names(trees, u, known);
            &&& r.types.contains(x) <==> known.types.contains(x) || exists|v: int|
                u <= v < trees.len() && uses_type(#[trigger] trees[v], x)
            &&& r.declared.contains(x) <==> known.declared.contains(x) || exists|v: int|
                u <= v < trees.len() && says_function(#[trigger] trees[v], x)
            &&& r.layouts.len() == trees.len()
            &&& known.layouts.is_prefix_of(r.layouts)
            &&& forall|v: int|
                u <= v < trees.len() ==> has_layouts(r, v, #[trigger] trees[v])
        }),
    decreases trees.len() - u,
{
    if u < trees.len() {
        let t = trees[u];
        let r = unit_registry(t, known.types, known.declared);
        crate::declares::a_unit_says_which_names_are_types_and_functions(
            t,
            known.types,
            known.declared,
            x,
        );
        lemma_layouts_alone(
            t,
            t.len(),
            RegistryView {
                layouts: Map::empty(),
                types: known.types,
                declared: known.declared,
            },
            RegistryView {
                layouts: Map::empty(),
                types: Set::empty(),
                declared: Set::empty(),
            },
        );
        let next = NamesView {
            layouts: known.layouts.push(r.layouts),
            types: r.types,
            declared: r.declared,
        };
        lemma_names(trees, u + 1, next, x);
        let all = all_names(trees, u, known);
        assert(all.layouts[u] == next.layouts[u]);
        assert(has_layouts(all, u, t));
        let any = exists|v: int| u <= v < trees.len() && uses_type(#[trigger] trees[v], x);
        let later = exists|v: int| u + 1 <= v < trees.len() && uses_type(#[trigger] trees[v], x);
        assert(any <==> later || uses_type(trees[u], x));
        let any_fn = exists|v: int| u <= v < trees.len() && says_function(#[trigger] trees[v], x);
        let later_fn = exists|v: int|
            u + 1 <= v < trees.len() && says_function(#[trigger] trees[v], x);
        assert(any_fn <==> later_fn || says_function(trees[u], x));
        assert(known.layouts.is_prefix_of(next.layouts));
    }
}

/// What is a type or a function in one unit is one in all; the layouts are those of each unit alone.
pub proof fn the_units_share_their_names(trees: Seq<TreeView>, x: Seq<char>)
    requires
        forall|v: int| 0 <= v < trees.len() ==> (#[trigger] trees[v]).len() <= usize::MAX,
    ensures
        ({
            let r = all_names(
                trees,
                0,
                NamesView { layouts: Seq::empty(), types: Set::empty(), declared: Set::empty() },
            );
            &&& r.types.contains(x) <==> exists|v: int|
                0 <= v < trees.len() && uses_type(#[trigger] trees[v], x)
            &&& r.declared.contains(x) <==> exists|v: int|
                0 <= v < trees.len() && says_function(#[trigger] trees[v], x)
            &&& r.layouts.len() == trees.len()
            &&& forall|v: int|
                0 <= v < trees.len() ==> has_layouts(r, v, #[trigger] trees[v])
        }),
{
    lemma_names(
        trees,
        0,
        NamesView { layouts: Seq::empty(), types: Set::empty(), declared: Set::empty() },
        x,
    );
}

proof fn lemma_prefix(t: TreeView, unit: usize, i: int, defs: Seq<DefView>, log: LogView)
    ensures
        definitions(t, unit, i, defs, log).1 matches Ok(all) ==> defs.is_prefix_of(all),
    decreases t.len() - i,
{
    if 0 <= i && i < t.len() && i <= usize::MAX {
        match crate::units::definition_parts(t, i as usize) {
            None => {
                lemma_prefix(t, unit, i + 1, defs, log);
            },
            Some(p) => match head_of(t, p.0) {
                Some(h) => {
                    lemma_prefix(
                        t,
                        unit,
                        i + 1,
                        defs.push(
                            DefView {
                                unit,
                                node: i as usize,
                                params: h.params,
                                body: p.1,
                                arity: crate::function::arity_of(t, i as usize, h),
                                name: text_at(t, h.name),
                                text: text_at(t, i as usize),
                                class: None,
                                inits: Seq::empty(),
                            },
                        ),
                        log,
                    );
                },
                None => {
                    let l = logged(
                        log,
                        Attribution::FrontendGap,
                        crate::units::unsupported_declarator(text_at(t, p.0)),
                    );
                    lemma_prefix(t, unit, i + 1, defs, l.0);
                },
            },
        }
    }
}

proof fn lemma_all_definitions(
    trees: Seq<TreeView>,
    u: int,
    defs: Seq<DefView>,
    log: LogView,
    v: int,
    n: usize,
    d: usize,
    b: usize,
    head: FunctionHead,
)
    requires
        0 <= u <= trees.len() <= usize::MAX,
        0 <= v < trees.len(),
        n < trees[v].len(),
        kind_at(trees[v], n) == Kind::FunctionDefinition,
        field_child(trees[v], n, Field::Declarator) == Some(d),
        trees[v][d as int].named,
        field_child(trees[v], n, Field::Body) == Some(b),
        kind_at(trees[v], b) == Kind::CompoundStatement,
        head_of(trees[v], d) == Some(head),
        all_definitions(trees, u, defs, log).1 is Ok,
        v < u ==> exists|k: int|
            0 <= k < defs.len() && is_definition(trees[v], v as usize, #[trigger] defs[k], n, b, head),
    ensures
        exists|k: int|
            0 <= k < all_definitions(trees, u, defs, log).1->Ok_0.len() && is_definition(
                trees[v],
                v as usize,
                #[trigger] all_definitions(trees, u, defs, log).1->Ok_0[k],
                n,
                b,
                head,
            ),
    decreases trees.len() - u,
{
    if u < trees.len() {
        let r = definitions(trees[u], u as usize, 0, defs, log);
        let all = r.1->Ok_0;
        if u == v {
            crate::declares::every_definition_is_found(trees[v], u as usize, defs, log, n, d, b, head);
        } else if v < u {
            lemma_prefix(trees[u], u as usize, 0, defs, log);
            let k = choose|k: int|
                0 <= k < defs.len() && is_definition(
                    trees[v],
                    v as usize,
                    #[trigger] defs[k],
                    n,
                    b,
                    head,
                );
            assert(all[k] == defs[k]);
        }
        lemma_all_definitions(trees, u + 1, all, r.0, v, n, d, b, head);
    } else {
        let k = choose|k: int|
            0 <= k < defs.len() && is_definition(
                trees[v],
                v as usize,
                #[trigger] defs[k],
                n,
                b,
                head,
            );
        assert(all_definitions(trees, u, defs, log).1->Ok_0[k] == defs[k]);
    }
}

/// The definitions of all units are found, each as one of its unit.
pub proof fn the_definitions_of_every_unit_are_found(
    trees: Seq<TreeView>,
    log: LogView,
    v: int,
    n: usize,
    d: usize,
    b: usize,
    head: FunctionHead,
)
    requires
        trees.len() <= usize::MAX,
        0 <= v < trees.len(),
        n < trees[v].len(),
        kind_at(trees[v], n) == Kind::FunctionDefinition,
        field_child(trees[v], n, Field::Declarator) == Some(d),
        trees[v][d as int].named,
        field_child(trees[v], n, Field::Body) == Some(b),
        kind_at(trees[v], b) == Kind::CompoundStatement,
        head_of(trees[v], d) == Some(head),
        all_definitions(trees, 0, Seq::empty(), log).1 is Ok,
    ensures
        exists|k: int|
            0 <= k < all_definitions(trees, 0, Seq::empty(), log).1->Ok_0.len() && is_definition(
                trees[v],
                v as usize,
                #[trigger] all_definitions(trees, 0, Seq::empty(), log).1->Ok_0[k],
                n,
                b,
                head,
            ),
{
    lemma_all_definitions(trees, 0, Seq::empty(), log, v, n, d, b, head);
}

/// A unit is lowered with what is known of all units, its own layouts, and what the names of the
/// source mean in it; where its source lies is recorded if that is asked for and it has a path.
pub proof fn a_unit_is_told_its_own(
    units: Seq<UnitView>,
    u: int,
    functions: Map<Seq<char>, usize>,
    names: NamesView,
    plan: PlanView,
    tables: TablesView,
    strict: bool,
    record_spans: bool,
)
    requires
        0 <= u < units.len() <= usize::MAX,
    ensures
        ({
            let e = env_of(units, u, functions, names, plan, tables, strict, record_spans);
            &&& e.functions == functions
            &&& e.types == names.types
            &&& e.declared == names.declared
            &&& e.layouts == names.layouts[u]
            &&& e.local_names == plan.local_names[u]
            &&& e.strict == strict
            &&& e.tables == tables
            &&& e.unit is Some <==> record_spans && units[u].path is Some
            &&& e.unit matches Some(s) ==> s.0 == u
        }),
{
}

// Reports

/// What is not lowered as written is reported, and in strict mode that is an error; nothing else
/// changes.
pub proof fn what_is_not_lowered_is_reported(st: State, a: Attribution, message: Seq<char>)
    ensures
        ({
            let r = report(st, a, message);
            &&& r.0.reports == st.reports.push(ReportView { attribution: a, message })
            &&& r.0 == State { reports: r.0.reports, ..st }
            &&& !st.env.strict <==> r.1 is Ok
            &&& r.1 matches Err(e) ==> e == ErrorView::TreeSitterParse(message)
        }),
{
    reveal(report);
}

/// What is found before lowering is reported in the same way.
pub proof fn what_is_found_before_is_reported(log: LogView, a: Attribution, message: Seq<char>)
    ensures
        ({
            let r = logged(log, a, message);
            &&& r.0.reports == log.reports.push(ReportView { attribution: a, message })
            &&& r.0.strict == log.strict
            &&& !log.strict <==> r.1 is Ok
            &&& r.1 matches Err(e) ==> e == ErrorView::TreeSitterParse(message)
        }),
{
}

/// A node is the source's fault only if the parser had to recover in it; that is reported once per
/// function. Anything else is a gap of the front end, reported each time.
pub proof fn blame_falls_on_the_source_only_for_recovery(
    t: TreeView,
    st: State,
    n: usize,
    message: Seq<char>,
)
    ensures
        ({
            let r = blame(t, st, n, message).0;
            let recovered = recovery(t, n) is Some;
            &&& !recovered ==> r.reports == st.reports.push(
                ReportView { attribution: Attribution::FrontendGap, message },
            )
            &&& recovered && st.recovered.contains(st.fun.name) ==> r == st && blame(
                t,
                st,
                n,
                message,
            ).1 is Ok
            &&& recovered && !st.recovered.contains(st.fun.name) ==> {
                &&& r.reports.len() == st.reports.len() + 1
                &&& st.reports.is_prefix_of(r.reports)
                &&& r.reports.last().attribution == Attribution::SourceProblem
                &&& r.recovered == st.recovered.insert(st.fun.name)
            }
            &&& r.fun == st.fun
            &&& r.scopes == st.scopes
            &&& r.at == st.at
        }),
{
    reveal(blame);
    reveal(unanalyzed);
    reveal(report);
}

/// A node belongs to a parse recovery if it is an error itself, or if the node around it is one; inside
/// a block that is no error itself, if the block did not parse; and else if the node around it does.
pub proof fn recovery_reaches_to_the_block(t: TreeView, n: usize, p: usize)
    requires
        p < n < t.len(),
        t[n as int].parent == Some(p),
    ensures
        t[n as int].error ==> recovery(t, n) == Some(n),
        !t[n as int].error && t[p as int].error ==> recovery(t, n) == Some(p),
        !t[n as int].error && !t[p as int].error && t[p as int].kind == Kind::CompoundStatement
            ==> recovery(t, n) == (if t[p as int].has_error {
            Some(p)
        } else {
            None
        }),
        !t[n as int].error && !t[p as int].error && t[p as int].kind != Kind::CompoundStatement
            ==> recovery(t, n) == recovery(t, p),
{
}

/// An expression that is not lowered is reported, and its value is a new variable: it carries nothing
/// of what is in it, and nothing else reads or writes it.
pub proof fn an_unsupported_expression_is_opaque(t: TreeView, st: State, n: usize)
    requires
        unsupported(t, st, n).1 is Ok,
    ensures
        ({
            let r = unsupported(t, st, n);
            let b = blame(t, st, n, "ERR 78: Unsupported expression type: "@ + t[n as int].kind_name).0;
            &&& r.0 == fresh(b).0
            &&& r.1->Ok_0 == ExpView::Variable(fresh(b).1)
            &&& here(r.0) == here(st)
        }),
{
    reveal(unsupported);
    reveal(blame);
    reveal(unanalyzed);
    reveal(report);
    reveal(fresh);
    reveal(crate::state::temp_named);
    reveal(crate::state::intern);
}

/// A statement that could not be parsed is reported once, as the source's fault.
pub proof fn a_parse_error_is_reported_once(t: TreeView, st: State, n: usize)
    ensures
        st.errors.contains(n) ==> unparsable(t, st, n) == (st, Ok::<(), ErrorView>(())),
        !st.errors.contains(n) ==> {
            let r = unparsable(t, st, n).0;
            &&& r.errors == st.errors.insert(n)
            &&& r.reports.len() == st.reports.len() + 1
            &&& st.reports.is_prefix_of(r.reports)
            &&& r.reports.last().attribution == Attribution::SourceProblem
            &&& r.fun == st.fun
        },
{
    reveal(unparsable);
    reveal(report);
}

} // verus!
