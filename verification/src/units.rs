//! Translation units, and what each of their definitions is.
//!
//! The functions of an import share one namespace, so things that C keeps apart collide in it: a
//! header's inline function arrives once per unit, and a `static` helper may be defined per file.
//! Definitions that quote the same characters are one function. What is left are several functions
//! that share a name: the first keeps it, and the others are named for their file.

use vstd::prelude::*;
use crate::collections::{views, NameMap};
use crate::discovery::MemberInit;
use crate::error::{Error, ErrorView};
use crate::function::{arity_of, return_arity};
use crate::kinds::{Field, Kind};
use crate::report::{elision, elision_note, quote_construct, quoted, Attribution, Report, ReportView};
use crate::shapes::{function_head, head_of, kind_at, text_at};
use crate::state::done;
use crate::syntax::{field_child, inside, SyntaxTree, TreeView};
use crate::text::{joined, same};

verus! {

broadcast use crate::collections::group_views;

/// One translation unit: what the compiler would see for one file.
#[derive(Debug)]
pub struct TranslationUnit {
    /// The path to show, or `None` for a unit that is not a file.
    pub path: Option<String>,
    pub source: String,
}

/// View of a [`TranslationUnit`].
pub ghost struct UnitView {
    pub path: Option<Seq<char>>,
    pub source: Seq<char>,
}

impl View for TranslationUnit {
    type V = UnitView;

    open spec fn view(&self) -> UnitView {
        UnitView {
            path: match self.path {
                Some(p) => Some(p@),
                None => None,
            },
            source: self.source@,
        }
    }
}

// Reports

/// The reports made so far, and whether a report is an error.
#[derive(Debug)]
pub struct Log {
    pub strict: bool,
    pub reports: Vec<Report>,
}

/// View of a [`Log`].
pub ghost struct LogView {
    pub strict: bool,
    pub reports: Seq<ReportView>,
}

impl View for Log {
    type V = LogView;

    open spec fn view(&self) -> LogView {
        LogView { strict: self.strict, reports: views(self.reports@) }
    }
}

/// Makes a report. In strict mode this is an error.
pub open spec fn logged(log: LogView, attribution: Attribution, message: Seq<char>) -> (
    LogView,
    Result<(), ErrorView>,
) {
    (
        LogView { reports: log.reports.push(ReportView { attribution, message }), ..log },
        if log.strict {
            Err(ErrorView::TreeSitterParse(message))
        } else {
            Ok(())
        },
    )
}

impl Log {
    /// Makes a report.
    ///
    /// # Errors
    ///
    /// The report itself, in strict mode.
    pub fn report(&mut self, attribution: Attribution, message: String) -> (r: Result<(), Error>)
        ensures
            (final(self)@, done(r)) == logged(old(self)@, attribution, message@),
    {
        let copy = message.clone();
        self.reports.push(Report { attribution, message });
        if self.strict {
            Err(Error::TreeSitterParse(copy))
        } else {
            Ok(())
        }
    }
}

// Definitions

/// A function definition.
#[derive(Debug)]
pub struct Definition {
    /// The unit that it is in.
    pub unit: usize,
    /// The definition, its parameter list and its body.
    pub node: usize,
    pub params: usize,
    pub body: usize,
    /// How many values it returns.
    pub arity: usize,
    /// The name as written; for a function of a class or a namespace, its qualified name.
    pub name: String,
    /// Its source text. Two definitions that quote the same characters are one function.
    pub text: String,
    /// The class that it is a member function of, and whether it has a receiver.
    pub class: Option<(String, bool)>,
    /// The members that a constructor initializes before its body runs.
    pub inits: Vec<MemberInit>,
}

/// View of a [`Definition`].
pub ghost struct DefView {
    pub unit: usize,
    pub node: usize,
    pub params: usize,
    pub body: usize,
    pub arity: usize,
    pub name: Seq<char>,
    pub text: Seq<char>,
    pub class: Option<(Seq<char>, bool)>,
    pub inits: Seq<(Seq<char>, usize)>,
}

/// Whether a function of the class `class` has a receiver.
pub open spec fn has_receiver(class: Option<(Seq<char>, bool)>) -> bool {
    class matches Some(c) && c.1
}

/// The view of the class of a member function.
pub open spec fn class_view(class: Option<(String, bool)>) -> Option<(Seq<char>, bool)> {
    match class {
        Some(c) => Some((c.0@, c.1)),
        None => None,
    }
}

impl View for Definition {
    type V = DefView;

    open spec fn view(&self) -> DefView {
        DefView {
            unit: self.unit,
            node: self.node,
            params: self.params,
            body: self.body,
            arity: self.arity,
            name: self.name@,
            text: self.text@,
            class: class_view(self.class),
            inits: views(self.inits@),
        }
    }
}

/// The declarator and the body of the definition that node `n` is, if it is one.
pub open spec fn definition_parts(t: TreeView, n: usize) -> Option<(usize, usize)> {
    if kind_at(t, n) != Kind::FunctionDefinition {
        None
    } else {
        match (field_child(t, n, Field::Declarator), field_child(t, n, Field::Body)) {
            (Some(d), Some(b)) => if t[d as int].named && kind_at(t, b) == Kind::CompoundStatement {
                Some((d, b))
            } else {
                None
            },
            _ => None,
        }
    }
}

/// What is said of a definition whose declarator names no single function.
pub open spec fn unsupported_declarator(text: Seq<char>) -> Seq<char> {
    "unsupported declarator in a function definition"@ + elision(text)
        + "; the function it defines has no body in the IR -- declarator: "@ + quoted(text)
}

/// The definitions in a unit from node `n` on, after `defs`. One whose declarator names no single
/// function is reported.
pub open spec fn definitions(
    t: TreeView,
    unit: usize,
    n: int,
    defs: Seq<DefView>,
    log: LogView,
) -> (LogView, Result<Seq<DefView>, ErrorView>)
    decreases t.len() - n,
{
    if n < 0 || n >= t.len() || n > usize::MAX {
        (log, Ok(defs))
    } else {
        match definition_parts(t, n as usize) {
            None => definitions(t, unit, n + 1, defs, log),
            Some(p) => match head_of(t, p.0) {
                Some(head) => definitions(
                    t,
                    unit,
                    n + 1,
                    defs.push(
                        DefView {
                            unit,
                            node: n as usize,
                            params: head.params,
                            body: p.1,
                            arity: arity_of(t, n as usize, head),
                            name: text_at(t, head.name),
                            text: text_at(t, n as usize),
                            class: None,
                            inits: Seq::empty(),
                        },
                    ),
                    log,
                ),
                None => match logged(
                    log,
                    Attribution::FrontendGap,
                    unsupported_declarator(text_at(t, p.0)),
                ) {
                    (log, Ok(_)) => definitions(t, unit, n + 1, defs, log),
                    (log, Err(e)) => (log, Err(e)),
                },
            },
        }
    }
}

/// Whether a definition can be lowered from its unit's tree.
pub open spec fn lowerable(t: TreeView, d: DefView) -> bool {
    &&& d.node < t.len()
    &&& inside(t, d.node, d.body)
    &&& d.params < t.len()
    &&& forall|i: int| 0 <= i < d.inits.len() ==> (#[trigger] d.inits[i]).1 < t.len()
}

/// Adds the definitions in a unit to `defs`.
///
/// # Errors
///
/// In strict mode, the report of a declarator that names no single function.
pub fn collect_definitions(
    unit: usize,
    tree: &SyntaxTree,
    defs: &mut Vec<Definition>,
    log: &mut Log,
) -> (r: Result<(), Error>)
    ensures
        (final(log)@, match r {
            Ok(_) => Ok(views(final(defs)@)),
            Err(e) => Err(e@),
        }) == definitions(tree@, unit, 0, views(old(defs)@), old(log)@),
        old(defs)@.len() <= final(defs)@.len(),
        forall|i: int| 0 <= i < old(defs)@.len() ==> final(defs)@[i] == #[trigger] old(defs)@[i],
        forall|i: int|
            old(defs)@.len() <= i < final(defs)@.len() ==> (#[trigger] final(defs)@[i]).unit == unit
                && lowerable(tree@, final(defs)@[i]@) && final(defs)@[i]@.inits.len() == 0,
        final(log)@.strict == old(log)@.strict,
        !old(log)@.strict ==> r is Ok,
{
    let ghost t = tree@;
    let len = tree.len();
    let mut n: usize = 0;
    while n < len
        invariant
            n <= len,
            len == t.len(),
            t == tree@,
            definitions(t, unit, n as int, views(defs@), log@) == definitions(
                t,
                unit,
                0,
                views(old(defs)@),
                old(log)@,
            ),
            old(defs)@.len() <= defs@.len(),
            forall|i: int| 0 <= i < old(defs)@.len() ==> defs@[i] == #[trigger] old(defs)@[i],
            forall|i: int|
                old(defs)@.len() <= i < defs@.len() ==> (#[trigger] defs@[i]).unit == unit
                    && lowerable(t, defs@[i]@) && defs@[i]@.inits.len() == 0,
            log@.strict == old(log)@.strict,
        decreases len - n,
    {
        if tree.kind(n) == Kind::FunctionDefinition {
            if let Some(d) = tree.field(n, Field::Declarator) {
                if let Some(b) = tree.field(n, Field::Body) {
                    if tree.is_named(d) && tree.kind(b) == Kind::CompoundStatement {
                        assert(definition_parts(t, n) == Some((d, b)));
                        match function_head(tree, d) {
                            Some(head) => {
                                let def = Definition {
                                    unit,
                                    node: n,
                                    params: head.params,
                                    body: b,
                                    arity: return_arity(tree, n, &head),
                                    name: String::from_str(tree.text(head.name)),
                                    text: String::from_str(tree.text(n)),
                                    class: None,
                                    inits: Vec::new(),
                                };
                                assert(def@.inits =~= Seq::<(Seq<char>, usize)>::empty());
                                assert(lowerable(t, def@));
                                defs.push(def);
                            },
                            None => {
                                let text = tree.text(d);
                                let mut message = joined(
                                    "unsupported declarator in a function definition",
                                    elision_note(text).as_str(),
                                );
                                message.append(
                                    "; the function it defines has no body in the IR -- declarator: ",
                                );
                                message.append(quote_construct(text).0.as_str());
                                log.report(Attribution::FrontendGap, message)?;
                            },
                        }
                    }
                }
            }
        }
        n = n + 1;
    }
    Ok(())
}

// Which definitions are one

/// The numbers below `m` of the definitions of `name`.
pub open spec fn members(defs: Seq<DefView>, name: Seq<char>, m: int) -> Seq<usize>
    decreases m,
{
    if m <= 0 {
        Seq::empty()
    } else if defs[m - 1].name == name {
        members(defs, name, m - 1).push((m - 1) as usize)
    } else {
        members(defs, name, m - 1)
    }
}

/// The definitions that have the name of definition `d`.
pub open spec fn namesakes(defs: Seq<DefView>, d: int) -> Seq<usize> {
    members(defs, defs[d].name, defs.len() as int)
}

/// Whether definition `d` is the first of its name.
pub open spec fn is_first(defs: Seq<DefView>, d: int) -> bool {
    forall|j: int| 0 <= j < d ==> (#[trigger] defs[j]).name != defs[d].name
}

/// Whether two definitions are one function.
pub open spec fn same_function(a: DefView, b: DefView) -> bool {
    a.name == b.name && a.text == b.text
}

/// The first definition from number `j` on that is the same function as definition `i`.
pub open spec fn owner_from(defs: Seq<DefView>, i: usize, j: usize) -> usize
    decreases i - j,
{
    if j >= i {
        i
    } else if same_function(defs[j as int], defs[i as int]) {
        j
    } else {
        owner_from(defs, i, (j + 1) as usize)
    }
}

/// The definition that contributes the function that definition `i` is: the first that is the same
/// function.
pub open spec fn owner(defs: Seq<DefView>, i: usize) -> usize {
    owner_from(defs, i, 0)
}

/// Whether an earlier definition is the same function.
pub open spec fn duplicate(defs: Seq<DefView>, i: usize) -> bool {
    owner(defs, i) != i
}

proof fn lemma_owner_from(defs: Seq<DefView>, i: usize, j: usize)
    requires
        i < defs.len(),
        j <= i,
    ensures
        j <= owner_from(defs, i, j) <= i,
        same_function(defs[owner_from(defs, i, j) as int], defs[i as int]),
        forall|m: int|
            j <= m < owner_from(defs, i, j) ==> !same_function(#[trigger] defs[m], defs[i as int]),
    decreases i - j,
{
    if j < i && !same_function(defs[j as int], defs[i as int]) {
        lemma_owner_from(defs, i, (j + 1) as usize);
    }
}

proof fn lemma_owner_skips(defs: Seq<DefView>, i: usize, j: usize, k: usize)
    requires
        i < defs.len(),
        j <= k <= i,
        forall|m: int| j <= m < k ==> !same_function(#[trigger] defs[m], defs[i as int]),
    ensures
        owner_from(defs, i, j) == owner_from(defs, i, k),
    decreases k - j,
{
    if j < k {
        assert(!same_function(defs[j as int], defs[i as int]));
        lemma_owner_skips(defs, i, (j + 1) as usize, k);
    }
}

/// The definition that contributes a function is a duplicate of none.
pub proof fn an_owner_is_its_own(defs: Seq<DefView>, i: usize)
    requires
        i < defs.len(),
    ensures
        owner(defs, i) <= i,
        same_function(defs[owner(defs, i) as int], defs[i as int]),
        !duplicate(defs, owner(defs, i)),
{
    lemma_owner_from(defs, i, 0);
    let o = owner(defs, i);
    lemma_owner_from(defs, o, 0);
    if owner(defs, o) < o {
        assert(same_function(defs[owner(defs, o) as int], defs[i as int]));
    }
}

proof fn lemma_members(defs: Seq<DefView>, name: Seq<char>, m: int)
    requires
        0 <= m <= defs.len() <= usize::MAX,
    ensures
        forall|p: int|
            0 <= p < members(defs, name, m).len() ==> (#[trigger] members(defs, name, m)[p]) < m
                && defs[members(defs, name, m)[p] as int].name == name,
        forall|p: int, q: int|
            0 <= p < q < members(defs, name, m).len() ==> (#[trigger] members(defs, name, m)[p]) < (
            #[trigger] members(defs, name, m)[q]),
        forall|j: int|
            0 <= j < m && (#[trigger] defs[j]).name == name ==> members(defs, name, m).contains(
                j as usize,
            ),
    decreases m,
{
    if m > 0 {
        lemma_members(defs, name, m - 1);
        let before = members(defs, name, m - 1);
        let now = members(defs, name, m);
        assert forall|p: int| 0 <= p < now.len() implies (#[trigger] now[p]) < m
            && defs[now[p] as int].name == name by {
            if p < before.len() {
                assert(now[p] == before[p]);
            }
        }
        assert forall|p: int, q: int| 0 <= p < q < now.len() implies (#[trigger] now[p]) < (
        #[trigger] now[q]) by {
            assert(now[p] == before[p]);
            if q < before.len() {
                assert(now[q] == before[q]);
            }
        }
        assert forall|j: int| 0 <= j < m && (#[trigger] defs[j]).name == name implies now.contains(
            j as usize,
        ) by {
            if j == m - 1 {
                assert(now[now.len() - 1] == j as usize);
            } else {
                assert(before.contains(j as usize));
                let p = choose|p: int| 0 <= p < before.len() && before[p] == j as usize;
                assert(now[p] == j as usize);
            }
        }
    }
}

/// The definitions that have the name of definition `d` are listed in order, beginning with the
/// first.
pub proof fn namesakes_of(defs: Seq<DefView>, d: int)
    requires
        defs.len() <= usize::MAX,
        0 <= d < defs.len(),
        is_first(defs, d),
    ensures
        namesakes(defs, d).len() > 0,
        namesakes(defs, d)[0] == d,
        forall|p: int|
            0 <= p < namesakes(defs, d).len() ==> (#[trigger] namesakes(defs, d)[p]) < defs.len()
                && defs[namesakes(defs, d)[p] as int].name == defs[d].name,
        forall|p: int, q: int|
            0 <= p < q < namesakes(defs, d).len() ==> (#[trigger] namesakes(defs, d)[p]) < (
            #[trigger] namesakes(defs, d)[q]),
        forall|j: usize|
            j < defs.len() && (#[trigger] defs[j as int]).name == defs[d].name ==> namesakes(
                defs,
                d,
            ).contains(j),
{
    lemma_members(defs, defs[d].name, defs.len() as int);
    let list = namesakes(defs, d);
    assert(list.contains(d as usize));
    let p = choose|p: int| 0 <= p < list.len() && list[p] == d as usize;
    if p > 0 {
        assert(list[0] < list[p]);
        assert(defs[list[0] as int].name == defs[d].name);
    }
    assert forall|j: usize| j < defs.len() && (#[trigger] defs[j as int]).name
        == defs[d].name implies list.contains(j) by {
        assert(defs[j as int].name == defs[d].name);
        assert(list.contains((j as int) as usize));
    }
}

/// Definitions that are the same function are contributed by the same definition.
pub proof fn copies_have_one_owner(defs: Seq<DefView>, i: usize, j: usize)
    requires
        i < defs.len(),
        j < defs.len(),
        same_function(defs[i as int], defs[j as int]),
    ensures
        owner(defs, i) == owner(defs, j),
{
    lemma_owner_from(defs, i, 0);
    lemma_owner_from(defs, j, 0);
    let a = owner(defs, i);
    let b = owner(defs, j);
    if a < b {
        assert(same_function(defs[a as int], defs[j as int]));
    } else if b < a {
        assert(same_function(defs[b as int], defs[i as int]));
    }
}

/// The definitions of each name, listed at the first of them.
pub(crate) fn grouped(defs: &Vec<Definition>) -> (groups: Vec<Vec<usize>>)
    ensures
        groups@.len() == defs@.len(),
        forall|d: int|
            0 <= d < defs@.len() ==> (#[trigger] groups@[d])@ == (if is_first(views(defs@), d) {
                namesakes(views(defs@), d)
            } else {
                Seq::empty()
            }),
{
    let ghost dv = views(defs@);
    let mut first = NameMap::new();
    let mut groups: Vec<Vec<usize>> = Vec::new();
    let mut i: usize = 0;
    while i < defs.len()
        invariant
            i <= defs@.len(),
            dv == views(defs@),
            groups@.len() == i,
            forall|name: Seq<char>| #[trigger]
                first@.contains_key(name) ==> first@[name] < i && dv[first@[name] as int].name
                    == name && is_first(dv, first@[name] as int),
            forall|j: int| 0 <= j < i ==> first@.contains_key(#[trigger] dv[j].name),
            forall|d: int|
                0 <= d < i ==> (#[trigger] groups@[d])@ == (if is_first(dv, d) {
                    members(dv, dv[d].name, i as int)
                } else {
                    Seq::empty()
                }),
        decreases defs@.len() - i,
    {
        let ghost before = groups@;
        let ghost known = first@;
        let mut own: Vec<usize> = Vec::new();
        match first.get(defs[i].name.as_str()) {
            Some(d) => {
                assert(known.contains_key(dv[i as int].name));
                assert(!is_first(dv, i as int)) by {
                    assert(dv[d as int].name == dv[i as int].name);
                }
                groups[d].push(i);
                assert(groups@[d as int]@ == before[d as int]@.push(i));
                groups.push(own);
                assert(own@ =~= Seq::<usize>::empty());
            },
            None => {
                first.insert(defs[i].name.clone(), i);
                assert(is_first(dv, i as int)) by {
                    assert forall|j: int| 0 <= j < i implies (#[trigger] dv[j]).name
                        != dv[i as int].name by {
                        assert(known.contains_key(dv[j].name));
                    }
                }
                own.push(i);
                proof {
                    lemma_members(dv, dv[i as int].name, i as int);
                    let m = members(dv, dv[i as int].name, i as int);
                    if m.len() > 0 {
                        assert(m[0] < i && dv[m[0] as int].name == dv[i as int].name);
                        assert(known.contains_key(dv[m[0] as int].name));
                    }
                    assert(own@ =~= members(dv, dv[i as int].name, i + 1));
                }
                groups.push(own);
            },
        }
        proof {
            assert forall|d: int| 0 <= d < i + 1 implies (#[trigger] groups@[d])@ == (if is_first(
                dv,
                d,
            ) {
                members(dv, dv[d].name, i + 1)
            } else {
                Seq::empty()
            }) by {
                if d < i && is_first(dv, d) && dv[d].name == dv[i as int].name {
                    assert(known.contains_key(dv[i as int].name));
                    let e = known[dv[i as int].name] as int;
                    if e < d {
                        assert(dv[e].name == dv[d].name);
                    } else if d < e {
                        assert(dv[d].name == dv[e].name);
                    }
                    assert(e == d);
                }
            }
        }
        i = i + 1;
    }
    groups
}

/// The definition that contributes the function that each definition is.
pub(crate) fn owners(defs: &Vec<Definition>, groups: &Vec<Vec<usize>>) -> (owner_of: Vec<usize>)
    requires
        groups@.len() == defs@.len(),
        forall|d: int|
            0 <= d < defs@.len() ==> (#[trigger] groups@[d])@ == (if is_first(views(defs@), d) {
                namesakes(views(defs@), d)
            } else {
                Seq::empty()
            }),
    ensures
        owner_of@.len() == defs@.len(),
        forall|i: int| 0 <= i < defs@.len() ==> #[trigger] owner_of@[i] == owner(views(defs@), i as usize),
{
    let ghost dv = views(defs@);
    let mut owner_of: Vec<usize> = Vec::new();
    let mut z: usize = 0;
    while z < defs.len()
        invariant
            z <= defs@.len(),
            owner_of@.len() == z,
        decreases defs@.len() - z,
    {
        owner_of.push(0);
        z = z + 1;
    }
    let ghost mut settled: Set<int> = Set::empty();
    let mut d: usize = 0;
    while d < defs.len()
        invariant
            d <= defs@.len(),
            dv == views(defs@),
            groups@.len() == defs@.len(),
            owner_of@.len() == defs@.len(),
            forall|e: int|
                0 <= e < defs@.len() ==> (#[trigger] groups@[e])@ == (if is_first(dv, e) {
                    namesakes(dv, e)
                } else {
                    Seq::empty()
                }),
            forall|i: int| 0 <= i < d ==> settled.contains(i),
            forall|i: int| #[trigger]
                settled.contains(i) ==> exists|e: int|
                    0 <= e < d && (#[trigger] dv[e]).name == dv[i].name,
            forall|i: int| #[trigger]
                settled.contains(i) ==> 0 <= i < defs@.len() && owner_of@[i] == owner(
                    dv,
                    i as usize,
                ) && forall|j: int|
                    0 <= j < defs@.len() && dv[j].name == dv[i].name ==> #[trigger]
                    settled.contains(j),
        decreases defs@.len() - d,
    {
        let list = &groups[d];
        let ghost name = dv[d as int].name;
        proof {
            lemma_members(dv, name, dv.len() as int);
        }
        let ghost start = settled;
        proof {
            assert forall|i: int| #[trigger] start.contains(i) && list@.len() > 0 implies 0 <= i
                < defs@.len() && dv[i].name != name by {
                let e = choose|e: int| 0 <= e < d && (#[trigger] dv[e]).name == dv[i].name;
                assert(is_first(dv, d as int));
            }
        }
        let mut p: usize = 0;
        while p < list.len()
            invariant
                p <= list@.len(),
                dv == views(defs@),
                owner_of@.len() == defs@.len(),
                list@.len() > 0 ==> list@ == members(dv, name, dv.len() as int),
                forall|q: int| 0 <= q < list@.len() ==> (#[trigger] list@[q]) < defs@.len()
                    && dv[list@[q] as int].name == name,
                forall|q: int, s: int| 0 <= q < s < list@.len() ==> (#[trigger] list@[q]) < (
                #[trigger] list@[s]),
                forall|j: int|
                    0 <= j < dv.len() && (#[trigger] dv[j]).name == name ==> list@.len() == 0
                        || list@.contains(j as usize),
                forall|i: int| #[trigger]
                    start.contains(i) ==> 0 <= i < defs@.len() && dv[i].name != name
                        || list@.len() == 0,
                forall|i: int| #[trigger]
                    start.contains(i) ==> 0 <= i < defs@.len() && owner_of@[i] == owner(
                        dv,
                        i as usize,
                    ),
                forall|q: int| 0 <= q < p ==> owner_of@[(#[trigger] list@[q]) as int] == owner(
                    dv,
                    list@[q],
                ),
            decreases list@.len() - p,
        {
            let i = list[p];
            let mut q: usize = 0;
            let mut o: usize = i;
            assert(owner_from(dv, i, 0) == owner(dv, i));
            proof {
                assert(list@[p as int] == i);
                let l0 = list@[0];
                assert forall|m: int| 0 <= m < l0 implies !same_function(
                    #[trigger] dv[m],
                    dv[i as int],
                ) by {
                    if dv[m].name == name {
                        assert(list@.contains(m as usize));
                        let s = choose|s: int| 0 <= s < list@.len() && list@[s] == m as usize;
                        assert(list@[0] <= list@[s]);
                    }
                }
                lemma_owner_skips(dv, i, 0, l0);
            }
            while q < p
                invariant_except_break
                    owner_from(dv, i, list@[q as int]) == owner(dv, i),
                invariant
                    q <= p < list@.len(),
                    i == list@[p as int],
                    dv == views(defs@),
                    forall|s: int| 0 <= s < list@.len() ==> (#[trigger] list@[s]) < defs@.len()
                        && dv[list@[s] as int].name == name,
                    forall|s: int, u: int| 0 <= s < u < list@.len() ==> (#[trigger] list@[s]) < (
                    #[trigger] list@[u]),
                    forall|j: int|
                        0 <= j < dv.len() && (#[trigger] dv[j]).name == name ==> list@.contains(
                            j as usize,
                        ),
                    o == i || o == owner(dv, i),
                ensures
                    o == owner(dv, i) || (q == p && o == i && owner_from(dv, i, i) == owner(
                        dv,
                        i,
                    )),
                decreases p - q,
            {
                let j = list[q];
                assert(dv[j as int] == defs@[j as int]@);
                assert(dv[i as int] == defs@[i as int]@);
                assert(list@[q as int] < list@[p as int]);
                if same(defs[j].text.as_str(), defs[i].text.as_str()) {
                    o = j;
                    break;
                }
                proof {
                    let next = list@[q + 1];
                    assert(list@[q as int] < list@[q + 1]);
                    if q + 1 < p {
                        assert(list@[q + 1] < list@[p as int]);
                    }
                    assert forall|m: int| j + 1 <= m < next implies !same_function(
                        #[trigger] dv[m],
                        dv[i as int],
                    ) by {
                        if dv[m].name == name {
                            assert(list@.contains(m as usize));
                            let s = choose|s: int|
                                0 <= s < list@.len() && list@[s] == m as usize;
                            if s <= q {
                                assert(list@[s] <= list@[q as int]);
                            } else if s > q + 1 {
                                assert(list@[q + 1] < list@[s]);
                            }
                        }
                    }
                    lemma_owner_skips(dv, i, (j + 1) as usize, next);
                }
                q = q + 1;
            }
            let ghost prior = owner_of@;
            owner_of[i] = o;
            proof {
                assert forall|s: int| 0 <= s < p + 1 implies owner_of@[(
                #[trigger] list@[s]) as int] == owner(dv, list@[s]) by {
                    if s < p {
                        assert(list@[s] < list@[p as int]);
                    }
                }
                assert forall|k: int| #[trigger] start.contains(k) implies 0 <= k < defs@.len()
                    && owner_of@[k] == owner(dv, k as usize) by {
                    assert(dv[i as int].name == name);
                }
            }
            p = p + 1;
        }
        proof {
            if list@.len() > 0 {
                settled = Set::new(
                    |i: int| start.contains(i) || (0 <= i < dv.len() && dv[i].name == name),
                );
                assert forall|i: int| 0 <= i < dv.len() && dv[i].name
                    == name implies #[trigger] owner_of@[i] == owner(dv, i as usize) by {
                    assert(list@.contains(i as usize));
                    let s = choose|s: int| 0 <= s < list@.len() && list@[s] == i as usize;
                    assert(owner_of@[list@[s] as int] == owner(dv, list@[s]));
                }
            } else {
                assert(!is_first(dv, d as int)) by {
                    if is_first(dv, d as int) {
                        assert(members(dv, name, dv.len() as int).contains(d));
                    }
                }
                let e = choose|e: int| 0 <= e < d && (#[trigger] dv[e]).name == dv[d as int].name;
                assert(start.contains(e));
                assert(start.contains(d as int));
            }
            assert(settled.contains(d as int));
            assert forall|i: int| #[trigger] settled.contains(i) implies exists|e: int|
                0 <= e < d + 1 && (#[trigger] dv[e]).name == dv[i].name by {
                if start.contains(i) {
                    let e = choose|e: int| 0 <= e < d && (#[trigger] dv[e]).name == dv[i].name;
                    assert(dv[e].name == dv[i].name);
                } else {
                    assert(dv[d as int].name == dv[i].name);
                }
            }
        }
        d = d + 1;
    }
    proof {
        assert forall|i: int| 0 <= i < defs@.len() implies #[trigger] owner_of@[i] == owner(
            dv,
            i as usize,
        ) by {
            assert(settled.contains(i));
        }
    }
    owner_of
}

} // verus!
