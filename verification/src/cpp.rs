//! Lowering a C++ unit.
//!
//! The core that lowers C lowers C++ too: where the grammars differ in shape, and where C++ has
//! objects, it consults tables that are empty for C. What is particular to a C++ unit is which
//! functions it defines, under which names.

use vstd::prelude::*;
use crate::classes::{mangled, overload_name, qualified, qualified_name, ClassTables, OverloadsView, TablesView};
use crate::collections::{views, Table};
use crate::discovery::{class_model, collect_methods, discover_overloads, in_class_body, is_class_member_definition, method_fits, methods_fit, namespaced, namespaced_function, overloads_from, param_arity, param_count, reference_inner, unwrap_reference_declarator, MemberInit, Method, MethodView, NamespacedView};
use crate::error::{Error, ErrorView};
use crate::function::{arity_of, return_arity};
use crate::kinds::{Field, Kind};
use crate::mir::FunctionView;
use crate::plan::{Plan, PlanView};
use crate::program::{all_inits_unlabelled, all_lowerable, arities_agree, holds_function, link_planned, lowered_by, made, whole, Lowered, LoweredView};
use crate::report::{Report, ReportView};
use crate::shapes::{function_head, head_of, kind_at, text_at};
use crate::state::seen;
use crate::syntax::{cpp_rows, cpp_syntax, readable, tree_of, SyntaxTree, TreeView};
use crate::units::{definition_parts, lowerable, DefView, Definition, TranslationUnit, UnitView};

verus! {

broadcast use crate::collections::group_views;

/// The definition that a member function is.
pub open spec fn method_def(t: TreeView, m: MethodView, ov: OverloadsView) -> DefView {
    DefView {
        unit: 0,
        node: m.node,
        params: m.params,
        body: m.body,
        arity: if m.is_void {
            0
        } else {
            1
        },
        name: mangled(ov, qualified(m.class, m.name), param_count(t, m.params)),
        text: text_at(t, m.node),
        class: Some((m.class, !m.is_static)),
        inits: m.inits,
    }
}

/// The definition that a function in a namespace is.
pub open spec fn namespaced_def(t: TreeView, f: NamespacedView, ov: OverloadsView) -> DefView {
    DefView {
        unit: 0,
        node: f.node,
        params: f.params,
        body: f.body,
        arity: if f.is_void {
            0
        } else {
            1
        },
        name: mangled(ov, f.name, param_count(t, f.params)),
        text: text_at(t, f.node),
        class: None,
        inits: Seq::empty(),
    }
}

/// Whether `n` is anywhere in a namespace.
pub open spec fn inside_namespace(t: TreeView, n: usize) -> bool
    decreases n,
{
    if n >= t.len() {
        false
    } else {
        match t[n as int].parent {
            Some(p) => if p >= n {
                false
            } else {
                kind_at(t, p) == Kind::NamespaceDefinition || inside_namespace(t, p)
            },
            None => false,
        }
    }
}

fn is_inside_namespace(tree: &SyntaxTree, n: usize) -> (b: bool)
    requires
        n < tree@.len(),
    ensures
        b == inside_namespace(tree@, n),
    decreases n,
{
    match tree.parent(n) {
        Some(p) => tree.kind(p) == Kind::NamespaceDefinition || is_inside_namespace(tree, p),
        None => false,
    }
}

/// The function that the definition `n` defines at file scope, under a name of its own.
pub open spec fn free_def(t: TreeView, n: usize, ov: OverloadsView) -> Option<DefView> {
    if in_class_body(t, n) || inside_namespace(t, n) {
        None
    } else {
        match definition_parts(t, n) {
            None => None,
            Some(p) => match head_of(t, reference_inner(t, p.0)) {
                None => None,
                Some(head) => Some(
                    DefView {
                        unit: 0,
                        node: n,
                        params: head.params,
                        body: p.1,
                        arity: arity_of(t, n, head),
                        name: mangled(ov, text_at(t, head.name), param_count(t, head.params)),
                        text: text_at(t, n),
                        class: None,
                        inits: Seq::empty(),
                    },
                ),
            },
        }
    }
}

/// The definitions of the methods from number `i` on, after `defs`.
pub open spec fn method_defs(
    t: TreeView,
    methods: Seq<MethodView>,
    ov: OverloadsView,
    i: int,
    defs: Seq<DefView>,
) -> Seq<DefView>
    decreases methods.len() - i,
{
    if i < 0 || i >= methods.len() {
        defs
    } else {
        method_defs(t, methods, ov, i + 1, defs.push(method_def(t, methods[i], ov)))
    }
}

/// The definitions of functions in namespaces from node `n` on, after `defs`.
pub open spec fn namespaced_defs(
    t: TreeView,
    ov: OverloadsView,
    n: int,
    defs: Seq<DefView>,
) -> Seq<DefView>
    decreases t.len() - n,
{
    if n < 0 || n >= t.len() || n > usize::MAX {
        defs
    } else {
        namespaced_defs(
            t,
            ov,
            n + 1,
            match namespaced(t, n as usize) {
                Some(f) => defs.push(namespaced_def(t, f, ov)),
                None => defs,
            },
        )
    }
}

/// The definitions of functions at file scope from node `n` on, after `defs`.
pub open spec fn free_defs(t: TreeView, ov: OverloadsView, n: int, defs: Seq<DefView>) -> Seq<DefView>
    decreases t.len() - n,
{
    if n < 0 || n >= t.len() || n > usize::MAX {
        defs
    } else {
        free_defs(
            t,
            ov,
            n + 1,
            match free_def(t, n as usize, ov) {
                Some(d) => defs.push(d),
                None => defs,
            },
        )
    }
}

/// The functions that a C++ unit defines: the member functions of its classes, the functions in its
/// namespaces, and the functions at file scope.
pub open spec fn cpp_definitions(t: TreeView) -> Seq<DefView> {
    let ov = overloads_from(t, 0, Seq::empty());
    let methods = method_defs(t, class_model(t).methods, ov, 0, Seq::empty());
    free_defs(t, ov, 0, namespaced_defs(t, ov, 0, methods))
}

/// What lowering a C++ unit is told of its classes and functions.
pub open spec fn cpp_tables(t: TreeView) -> TablesView {
    let model = class_model(t);
    TablesView {
        classes: model.classes,
        subclasses: model.subclasses,
        overloads: overloads_from(t, 0, Seq::empty()),
    }
}

/// The names of the functions of a C++ unit: there is one function per name, and every definition of
/// the name is lowered into it.
pub open spec fn cpp_plan(defs: Seq<DefView>) -> PlanView {
    PlanView {
        duplicates: Seq::new(defs.len(), |i: int| false),
        names: Seq::new(defs.len(), |i: int| defs[i].name),
        local_names: seq![Map::empty()],
    }
}

/// The program that a C++ unit is lowered to, whose syntax tree is `t`.
pub open spec fn cpp_lowered(source: Seq<char>, t: TreeView, strict: bool) -> Result<
    LoweredView,
    ErrorView,
> {
    let units = seq![(UnitView { path: None, source })];
    let defs = cpp_definitions(t);
    lowered_by(
        units,
        seq![t],
        defs,
        cpp_plan(defs),
        cpp_tables(t),
        strict,
        Seq::empty(),
        false,
    )
}

/// The program that C++ source is lowered to.
pub open spec fn cpp_program(source: Seq<char>, strict: bool) -> Result<LoweredView, ErrorView> {
    let rows = cpp_rows(source);
    if readable(source, rows) {
        cpp_lowered(source, tree_of(source, rows), strict)
    } else {
        Err(ErrorView::TreeSitterParse("the parse tree is not one of the grammar"@))
    }
}

/// Whether every definition is in the program, under its name.
pub open spec fn holds_named(program: Seq<FunctionView>, defs: Seq<DefView>) -> bool {
    forall|i: int| 0 <= i < defs.len() ==> holds_function(program, (#[trigger] defs[i]).name)
}

/// Whether every definition is one of the first unit and can be lowered from its tree.
spec fn defs_fit(t: TreeView, defs: Seq<DefView>) -> bool {
    forall|i: int|
        0 <= i < defs.len() ==> (#[trigger] defs[i]).unit == 0 && lowerable(t, defs[i])
}

fn copied_inits(inits: &Vec<MemberInit>) -> (v: Vec<MemberInit>)
    ensures
        views(v@) == views(inits@),
{
    let mut v: Vec<MemberInit> = Vec::new();
    let mut i: usize = 0;
    while i < inits.len()
        invariant
            i <= inits@.len(),
            views(v@) == views(inits@).take(i as int),
        decreases inits@.len() - i,
    {
        v.push(MemberInit { member: inits[i].member.clone(), value: inits[i].value });
        i = i + 1;
        assert(views(v@) =~= views(inits@).take(i as int));
    }
    assert(views(v@) =~= views(inits@));
    v
}

fn push_method_defs(
    tree: &SyntaxTree,
    methods: &Vec<Method>,
    tables: &ClassTables,
    defs: &mut Vec<Definition>,
)
    requires
        methods_fit(tree@, views(methods@)),
        defs_fit(tree@, views(old(defs)@)),
    ensures
        views(final(defs)@) == method_defs(
            tree@,
            views(methods@),
            tables@.overloads,
            0,
            views(old(defs)@),
        ),
        defs_fit(tree@, views(final(defs)@)),
{
    let ghost t = tree@;
    let ghost ov = tables@.overloads;
    let ghost mv = views(methods@);
    let ghost start = views(defs@);
    let mut i: usize = 0;
    while i < methods.len()
        invariant
            i <= methods@.len(),
            mv == views(methods@),
            t == tree@,
            ov == tables@.overloads,
            methods_fit(t, mv),
            method_defs(t, mv, ov, i as int, views(defs@)) == method_defs(t, mv, ov, 0, start),
            defs_fit(t, views(defs@)),
        decreases methods@.len() - i,
    {
        let m = &methods[i];
        assert(mv[i as int] == m@);
        assert(method_fits(t, mv[i as int]));
        let base = qualified_name(m.class.as_str(), m.name.as_str());
        let arity = param_arity(tree, m.params);
        let name = overload_name(&tables.overloads, base.as_str(), arity);
        let d = Definition {
            unit: 0,
            node: m.node,
            params: m.params,
            body: m.body,
            arity: if m.is_void {
                0
            } else {
                1
            },
            name,
            text: String::from_str(tree.text(m.node)),
            class: Some((m.class.clone(), !m.is_static)),
            inits: copied_inits(&m.inits),
        };
        assert(d@ == method_def(t, mv[i as int], ov));
        assert(lowerable(t, d@));
        defs.push(d);
        i = i + 1;
    }
}

fn push_namespaced_defs(tree: &SyntaxTree, tables: &ClassTables, defs: &mut Vec<Definition>)
    requires
        defs_fit(tree@, views(old(defs)@)),
    ensures
        views(final(defs)@) == namespaced_defs(
            tree@,
            tables@.overloads,
            0,
            views(old(defs)@),
        ),
        defs_fit(tree@, views(final(defs)@)),
{
    let ghost t = tree@;
    let ghost ov = tables@.overloads;
    let ghost start = views(defs@);
    let len = tree.len();
    let mut n: usize = 0;
    while n < len
        invariant
            n <= len,
            len == t.len(),
            t == tree@,
            ov == tables@.overloads,
            namespaced_defs(t, ov, n as int, views(defs@)) == namespaced_defs(t, ov, 0, start),
            defs_fit(t, views(defs@)),
        decreases len - n,
    {
        if let Some(f) = namespaced_function(tree, n) {
            let arity = param_arity(tree, f.params);
            let name = overload_name(&tables.overloads, f.name.as_str(), arity);
            let d = Definition {
                unit: 0,
                node: f.node,
                params: f.params,
                body: f.body,
                arity: if f.is_void {
                    0
                } else {
                    1
                },
                name,
                text: String::from_str(tree.text(f.node)),
                class: None,
                inits: Vec::new(),
            };
            assert(d@.inits =~= Seq::<(Seq<char>, usize)>::empty());
            assert(d@ == namespaced_def(t, f@, ov));
            assert(lowerable(t, d@));
            defs.push(d);
        }
        n = n + 1;
    }
}

fn free_definition(tree: &SyntaxTree, n: usize, tables: &ClassTables) -> (d: Option<Definition>)
    requires
        n < tree@.len(),
    ensures
        match d {
            Some(d) => free_def(tree@, n, tables@.overloads) == Some(d@) && lowerable(tree@, d@),
            None => free_def(tree@, n, tables@.overloads) is None,
        },
{
    let ghost t = tree@;
    if tree.kind(n) != Kind::FunctionDefinition || is_class_member_definition(tree, n)
        || is_inside_namespace(tree, n) {
        return None;
    }
    let d = match tree.field(n, Field::Declarator) {
        Some(d) => d,
        None => {
            return None;
        },
    };
    let b = match tree.field(n, Field::Body) {
        Some(b) => b,
        None => {
            return None;
        },
    };
    if !tree.is_named(d) || tree.kind(b) != Kind::CompoundStatement {
        return None;
    }
    assert(definition_parts(t, n) == Some((d, b)));
    match function_head(tree, unwrap_reference_declarator(tree, d)) {
        Some(head) => {
            let arity = param_arity(tree, head.params);
            let name = overload_name(&tables.overloads, tree.text(head.name), arity);
            let def = Definition {
                unit: 0,
                node: n,
                params: head.params,
                body: b,
                arity: return_arity(tree, n, &head),
                name,
                text: String::from_str(tree.text(n)),
                class: None,
                inits: Vec::new(),
            };
            assert(def@.inits =~= Seq::<(Seq<char>, usize)>::empty());
            Some(def)
        },
        None => None,
    }
}

fn push_free_defs(tree: &SyntaxTree, tables: &ClassTables, defs: &mut Vec<Definition>)
    requires
        defs_fit(tree@, views(old(defs)@)),
    ensures
        views(final(defs)@) == free_defs(tree@, tables@.overloads, 0, views(old(defs)@)),
        defs_fit(tree@, views(final(defs)@)),
{
    let ghost t = tree@;
    let ghost ov = tables@.overloads;
    let ghost start = views(defs@);
    let len = tree.len();
    let mut n: usize = 0;
    while n < len
        invariant
            n <= len,
            len == t.len(),
            t == tree@,
            ov == tables@.overloads,
            free_defs(t, ov, n as int, views(defs@)) == free_defs(t, ov, 0, start),
            defs_fit(t, views(defs@)),
        decreases len - n,
    {
        if let Some(d) = free_definition(tree, n, tables) {
            assert(d@.unit == 0);
            defs.push(d);
        }
        n = n + 1;
    }
}

/// What a C++ unit defines, and what lowering it is told of its classes and functions.
pub fn collect_cpp_definitions(tree: &SyntaxTree) -> (r: (Vec<Definition>, ClassTables))
    ensures
        views(r.0@) == cpp_definitions(tree@),
        r.1@ == cpp_tables(tree@),
        all_lowerable(seq![tree@], views(r.0@)),
{
    let overloads = discover_overloads(tree);
    let (classes, subclasses, methods) = collect_methods(tree);
    let tables = ClassTables { classes, subclasses, overloads };
    let mut defs: Vec<Definition> = Vec::new();
    assert(views(defs@) =~= Seq::<DefView>::empty());
    push_method_defs(tree, &methods, &tables, &mut defs);
    push_namespaced_defs(tree, &tables, &mut defs);
    push_free_defs(tree, &tables, &mut defs);
    let ghost dv = views(defs@);
    assert forall|i: int| 0 <= i < dv.len() implies (#[trigger] dv[i]).unit < seq![tree@].len()
        && lowerable(seq![tree@][dv[i].unit as int], dv[i]) by {
        assert(lowerable(tree@, dv[i]));
    }
    (defs, tables)
}

/// Names the functions of a C++ unit.
pub fn plan_by_name(defs: &Vec<Definition>) -> (plan: Plan)
    ensures
        plan@ == cpp_plan(views(defs@)),
        plan.fits(1, defs@.len()),
{
    let mut duplicates: Vec<bool> = Vec::new();
    let mut names: Vec<String> = Vec::new();
    let mut i: usize = 0;
    while i < defs.len()
        invariant
            i <= defs@.len(),
            duplicates@ == Seq::new(i as nat, |j: int| false),
            views(names@) == Seq::new(i as nat, |j: int| views(defs@)[j].name),
        decreases defs@.len() - i,
    {
        duplicates.push(false);
        names.push(defs[i].name.clone());
        i = i + 1;
        assert(duplicates@ =~= Seq::new(i as nat, |j: int| false));
        assert(views(names@) =~= Seq::new(i as nat, |j: int| views(defs@)[j].name));
    }
    let mut local_names: Vec<Table<String>> = Vec::new();
    local_names.push(Table::new());
    assert(views(local_names@) =~= seq![Map::<Seq<char>, Seq<char>>::empty()]);
    Plan { duplicates, names, local_names }
}

/// Lowers the C++ source in `source`, whose syntax tree is `tree`, into a program.
///
/// # Errors
///
/// In strict mode, the first report.
pub fn lower_cpp_tree(source: &str, tree: SyntaxTree, strict: bool) -> (r: Result<Lowered, Error>)
    ensures
        seen(r) == cpp_lowered(source@, tree@, strict),
        r matches Ok(l) ==> made(l@.program) && holds_named(
            l@.program,
            cpp_definitions(tree@),
        ) && (arities_agree(cpp_definitions(tree@), cpp_plan(cpp_definitions(tree@))) ==> whole(
            l@.program,
        )),
        !strict && all_inits_unlabelled(seq![tree@], cpp_definitions(tree@)) ==> r is Ok,
{
    let (defs, tables) = collect_cpp_definitions(&tree);
    let mut units: Vec<TranslationUnit> = Vec::new();
    units.push(TranslationUnit { path: None, source: String::from_str(source) });
    let ghost tv = tree@;
    let mut trees: Vec<SyntaxTree> = Vec::new();
    trees.push(tree);
    assert(views(units@) =~= seq![(UnitView { path: None, source: source@ })]);
    assert(views(trees@) =~= seq![tv]);
    let plan = plan_by_name(&defs);
    let reports: Vec<Report> = Vec::new();
    assert(views(reports@) =~= Seq::<ReportView>::empty());
    let r = link_planned(&units, &trees, &defs, &plan, &tables, strict, reports, false);
    proof {
        if r is Ok {
            let dv = cpp_definitions(tv);
            let program = r->Ok_0@.program;
            assert forall|i: int| 0 <= i < dv.len() implies holds_function(
                program,
                (#[trigger] dv[i]).name,
            ) by {
                assert(cpp_plan(dv).names[i] == dv[i].name);
                assert(!cpp_plan(dv).duplicates[i]);
            }
        }
    }
    r
}

/// Parses the C++ source in `source` into a program.
///
/// # Errors
///
/// If what the parser hands over is no tree of the grammar, and in strict mode, the first report.
pub fn parse_cpp_program(source: &str, strict: bool) -> (r: Result<Lowered, Error>)
    ensures
        seen(r) == cpp_program(source@, strict),
        ({
            let defs = cpp_definitions(tree_of(source@, cpp_rows(source@)));
            r matches Ok(l) ==> made(l@.program) && holds_named(l@.program, defs) && (arities_agree(
                defs,
                cpp_plan(defs),
            ) ==> whole(l@.program))
        }),
        ({
            let t = tree_of(source@, cpp_rows(source@));
            !strict && readable(source@, cpp_rows(source@)) && all_inits_unlabelled(
                seq![t],
                cpp_definitions(t),
            ) ==> r is Ok
        }),
{
    let rows = cpp_syntax(source);
    match SyntaxTree::from_rows(source, &rows) {
        Some(tree) => lower_cpp_tree(source, tree, strict),
        None => Err(
            Error::TreeSitterParse(String::from_str("the parse tree is not one of the grammar")),
        ),
    }
}

} // verus!
