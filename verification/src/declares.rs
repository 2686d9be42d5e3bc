//! What the declarations of a unit say.
//!
//! The laws below relate the definitions, the names and the layouts that are found in a unit to the
//! nodes of its syntax tree.

use vstd::prelude::*;
use crate::function::{arity_of, is_void};
use crate::kinds::{Field, Kind};
use crate::lowering::leaf_name;
use crate::members::says_static;
use crate::report::Attribution;
use crate::shapes::{body_slots, declared_slots, head_of, head_under, is_method, is_static, kind_at, labels_below, labels_in, member_name, record_slots, registered, registry, text_at, type_tag, unit_registry, unparenthesized, with_prototypes, with_record, with_typedefs, FunctionHead, RegistryView, SlotView};
use crate::state::{at_source, State};
use crate::syntax::{child_at, field_child, field_children, first_named_child, kids, kids_of_kind, unlabelled_kind, TreeView};
use crate::units::{definition_parts, definitions, logged, unsupported_declarator, DefView, LogView};

verus! {

// Function heads

/// Whether `chain` leads from a declarator, through pointers and parentheses, to that of a function.
pub open spec fn leads_to_function(t: TreeView, d: usize, chain: Seq<usize>) -> bool {
    &&& chain.len() > 0
    &&& chain[0] == d
    &&& kind_at(t, chain.last()) == Kind::FunctionDeclarator
    &&& forall|i: int|
        #![trigger chain[i]]
        0 <= i < chain.len() - 1 ==> {
            ||| kind_at(t, chain[i]) == Kind::PointerDeclarator && field_child(
                t,
                chain[i],
                Field::Declarator,
            ) == Some(chain[i + 1])
            ||| kind_at(t, chain[i]) == Kind::ParenthesizedDeclarator && first_named_child(
                t,
                chain[i],
            ) == Some(chain[i + 1])
        }
}

/// Whether there is a pointer among some declarators.
pub open spec fn any_pointer(t: TreeView, chain: Seq<usize>) -> bool {
    exists|i: int| 0 <= i < chain.len() && kind_at(t, #[trigger] chain[i]) == Kind::PointerDeclarator
}

proof fn lemma_head(t: TreeView, d: usize, chain: Seq<usize>, ptr: bool, name: usize, params: usize)
    requires
        leads_to_function(t, d, chain),
        field_child(t, chain.last(), Field::Declarator) == Some(name),
        field_child(t, chain.last(), Field::Parameters) == Some(params),
        kind_at(t, name) == Kind::Identifier,
    ensures
        head_under(t, d, ptr) == Some(
            FunctionHead { name, params, returns_pointer: ptr || any_pointer(t, chain) },
        ),
    decreases chain.len(),
{
    assert(unparenthesized(t, name) == Some(name));
    if chain.len() > 1 {
        let later = chain.skip(1);
        let k = kind_at(t, chain[0]);
        assert(later.last() == chain.last());
        assert forall|i: int| #![trigger later[i]] 0 <= i < later.len() - 1 implies {
            ||| kind_at(t, later[i]) == Kind::PointerDeclarator && field_child(
                t,
                later[i],
                Field::Declarator,
            ) == Some(later[i + 1])
            ||| kind_at(t, later[i]) == Kind::ParenthesizedDeclarator && first_named_child(
                t,
                later[i],
            ) == Some(later[i + 1])
        } by {
            assert(later[i] == chain[i + 1]);
            assert(later[i + 1] == chain[i + 2]);
        }
        let now = ptr || k == Kind::PointerDeclarator;
        lemma_head(t, chain[1], later, now, name, params);
        assert((now || any_pointer(t, later)) == (ptr || any_pointer(t, chain))) by {
            if any_pointer(t, chain) {
                let i = choose|i: int|
                    0 <= i < chain.len() && kind_at(t, #[trigger] chain[i])
                        == Kind::PointerDeclarator;
                if i > 0 {
                    assert(later[i - 1] == chain[i]);
                }
            }
            if any_pointer(t, later) {
                let i = choose|i: int|
                    0 <= i < later.len() && kind_at(t, #[trigger] later[i])
                        == Kind::PointerDeclarator;
                assert(chain[i + 1] == later[i]);
            }
        }
        if k == Kind::ParenthesizedDeclarator {
            assert(unparenthesized(t, d) == unparenthesized(t, chain[1]));
            assert(head_under(t, d, ptr) == head_under(t, chain[1], ptr));
        }
    } else if any_pointer(t, chain) {
        let i = choose|i: int|
            0 <= i < chain.len() && kind_at(t, #[trigger] chain[i]) == Kind::PointerDeclarator;
        assert(chain[i] == chain.last());
    }
}

/// The declarator of a function says its name and its parameters, inside any pointers and parentheses;
/// the function returns a pointer if there is one among them.
pub proof fn a_declarator_says_what_it_declares(
    t: TreeView,
    d: usize,
    chain: Seq<usize>,
    name: usize,
    params: usize,
)
    requires
        leads_to_function(t, d, chain),
        field_child(t, chain.last(), Field::Declarator) == Some(name),
        field_child(t, chain.last(), Field::Parameters) == Some(params),
        kind_at(t, name) == Kind::Identifier,
    ensures
        head_of(t, d) == Some(
            FunctionHead { name, params, returns_pointer: any_pointer(t, chain) },
        ),
{
    lemma_head(t, d, chain, false, name, params);
}

// Definitions

proof fn lemma_definitions(
    t: TreeView,
    unit: usize,
    i: int,
    defs: Seq<DefView>,
    log: LogView,
    n: usize,
    b: usize,
    head: FunctionHead,
)
    requires
        0 <= i,
        definition_parts(t, n) matches Some(p) && p.1 == b && head_of(t, p.0) == Some(head),
    ensures
        definitions(t, unit, i, defs, log).1 matches Ok(all) ==> {
            &&& defs.is_prefix_of(all)
            &&& i <= n < t.len() ==> exists|k: int|
                0 <= k < all.len() && is_definition(t, unit, #[trigger] all[k], n, b, head)
        },
    decreases t.len() - i,
{
    if i < t.len() && i <= usize::MAX {
        match definition_parts(t, i as usize) {
            None => {
                lemma_definitions(t, unit, i + 1, defs, log, n, b, head);
            },
            Some(p) => match head_of(t, p.0) {
                Some(h) => {
                    let d = DefView {
                        unit,
                        node: i as usize,
                        params: h.params,
                        body: p.1,
                        arity: arity_of(t, i as usize, h),
                        name: text_at(t, h.name),
                        text: text_at(t, i as usize),
                        class: None,
                        inits: Seq::empty(),
                    };
                    let more = defs.push(d);
                    lemma_definitions(t, unit, i + 1, more, log, n, b, head);
                    if i == n {
                        if let Ok(all) = definitions(t, unit, i, defs, log).1 {
                            let k = defs.len() as int;
                            assert(all[k] == more[k]);
                            assert(is_definition(t, unit, all[k], n, b, head));
                        }
                    }
                },
                None => {
                    let l = logged(
                        log,
                        Attribution::FrontendGap,
                        unsupported_declarator(text_at(t, p.0)),
                    );
                    if l.1 is Ok {
                        lemma_definitions(t, unit, i + 1, defs, l.0, n, b, head);
                    }
                },
            },
        }
    }
}

/// Whether `d` is the definition that node `n` of unit `unit` is: it has that body, the parameters and
/// the name of its declarator, and returns a value unless it is `void`.
pub open spec fn is_definition(
    t: TreeView,
    unit: usize,
    d: DefView,
    n: usize,
    b: usize,
    head: FunctionHead,
) -> bool {
    let void = !head.returns_pointer && (field_child(t, n, Field::Type) matches Some(ty) && kind_at(
        t,
        ty,
    ) == Kind::PrimitiveType && is_void(text_at(t, ty)));
    &&& d.unit == unit
    &&& d.node == n
    &&& d.body == b
    &&& d.params == head.params
    &&& d.name == text_at(t, head.name)
    &&& d.text == text_at(t, n)
    &&& d.class is None
    &&& d.inits.len() == 0
    &&& d.arity == (if void {
        0usize
    } else {
        1
    })
}

/// Every function that a unit defines is found.
pub proof fn every_definition_is_found(
    t: TreeView,
    unit: usize,
    defs: Seq<DefView>,
    log: LogView,
    n: usize,
    d: usize,
    b: usize,
    head: FunctionHead,
)
    requires
        n < t.len(),
        kind_at(t, n) == Kind::FunctionDefinition,
        field_child(t, n, Field::Declarator) == Some(d),
        t[d as int].named,
        field_child(t, n, Field::Body) == Some(b),
        kind_at(t, b) == Kind::CompoundStatement,
        head_of(t, d) == Some(head),
    ensures
        definitions(t, unit, 0, defs, log).1 matches Ok(all) ==> {
            &&& defs.is_prefix_of(all)
            &&& exists|k: int|
                0 <= k < all.len() && is_definition(t, unit, #[trigger] all[k], n, b, head)
        },
        !log.strict ==> definitions(t, unit, 0, defs, log).1 is Ok,
{
    lemma_definitions(t, unit, 0, defs, log, n, b, head);
    lemma_lenient(t, unit, 0, defs, log);
}

proof fn lemma_lenient(t: TreeView, unit: usize, i: int, defs: Seq<DefView>, log: LogView)
    ensures
        !log.strict ==> definitions(t, unit, i, defs, log).1 is Ok,
    decreases t.len() - i,
{
    if 0 <= i && i < t.len() && i <= usize::MAX {
        match definition_parts(t, i as usize) {
            None => {
                lemma_lenient(t, unit, i + 1, defs, log);
            },
            Some(p) => match head_of(t, p.0) {
                Some(h) => {
                    lemma_lenient(
                        t,
                        unit,
                        i + 1,
                        defs.push(
                            DefView {
                                unit,
                                node: i as usize,
                                params: h.params,
                                body: p.1,
                                arity: arity_of(t, i as usize, h),
                                name: text_at(t, h.name),
                                text: text_at(t, i as usize),
                                class: None,
                                inits: Seq::empty(),
                            },
                        ),
                        log,
                    );
                },
                None => {
                    let l = logged(
                        log,
                        Attribution::FrontendGap,
                        unsupported_declarator(text_at(t, p.0)),
                    );
                    lemma_lenient(t, unit, i + 1, defs, l.0);
                },
            },
        }
    }
}

// Names

/// Whether node `n` is a name that is used as a type: one that is not the tag of the record or the
/// enumeration that it stands in.
pub open spec fn used_as_type(t: TreeView, n: usize) -> bool {
    &&& kind_at(t, n) == Kind::TypeIdentifier
    &&& t[n as int].parent matches Some(p) ==> {
        let k = kind_at(t, p);
        (k == Kind::StructSpecifier || k == Kind::UnionSpecifier || k == Kind::EnumSpecifier)
            ==> field_child(t, p, Field::Name) != Some(n)
    }
}

/// Whether node `n` is a declaration of a function named `x`.
pub open spec fn declares_function(t: TreeView, n: usize, x: Seq<char>) -> bool {
    &&& kind_at(t, n) == Kind::Declaration
    &&& exists|j: int|
        0 <= j < field_children(t, n, Field::Declarator).len() && (#[trigger] head_of(
            t,
            field_children(t, n, Field::Declarator)[j],
        ) matches Some(h) && text_at(t, h.name) == x)
}

proof fn lemma_prototypes(
    t: TreeView,
    decls: Seq<usize>,
    i: int,
    known: Set<Seq<char>>,
    x: Seq<char>,
)
    requires
        0 <= i <= decls.len(),
    ensures
        with_prototypes(t, decls, i, known).contains(x) <==> known.contains(x) || exists|j: int|
            i <= j < decls.len() && (#[trigger] head_of(t, decls[j]) matches Some(h) && text_at(
                t,
                h.name,
            ) == x),
    decreases decls.len() - i,
{
    if i < decls.len() {
        let more = match head_of(t, decls[i]) {
            Some(h) => known.insert(text_at(t, h.name)),
            None => known,
        };
        lemma_prototypes(t, decls, i + 1, more, x);
        let any = exists|j: int|
            i <= j < decls.len() && (#[trigger] head_of(t, decls[j]) matches Some(h) && text_at(
                t,
                h.name,
            ) == x);
        let later = exists|j: int|
            i + 1 <= j < decls.len() && (#[trigger] head_of(t, decls[j]) matches Some(h) && text_at(
                t,
                h.name,
            ) == x);
        let here = head_of(t, decls[i]) matches Some(h) && text_at(t, h.name) == x;
        assert(any <==> here || later);
    }
}

proof fn lemma_registry(t: TreeView, m: nat, known: RegistryView, x: Seq<char>)
    requires
        m <= t.len() <= usize::MAX,
    ensures
        registry(t, m, known).types.contains(x) <==> known.types.contains(x) || exists|n: usize|
            n < m && #[trigger] used_as_type(t, n) && text_at(t, n) == x,
        registry(t, m, known).declared.contains(x) <==> known.declared.contains(x) || exists|
            n: usize,
        |
            n < m && #[trigger] declares_function(t, n, x),
    decreases m,
{
    if m > 0 {
        let k = (m - 1) as usize;
        lemma_registry(t, (m - 1) as nat, known, x);
        let before = registry(t, (m - 1) as nat, known);
        lemma_prototypes(t, field_children(t, k, Field::Declarator), 0, before.declared, x);
        assert(crate::shapes::names_a_type(t, k) <==> used_as_type(t, k));
        assert(registry(t, m, known) == registered(t, k, before));
        let types_now = exists|n: usize|
            n < m && #[trigger] used_as_type(t, n) && text_at(t, n) == x;
        let types_then = exists|n: usize|
            n < m - 1 && #[trigger] used_as_type(t, n) && text_at(t, n) == x;
        assert(types_now <==> types_then || (used_as_type(t, k) && text_at(t, k) == x));
        let fns_now = exists|n: usize| n < m && #[trigger] declares_function(t, n, x);
        let fns_then = exists|n: usize| n < m - 1 && #[trigger] declares_function(t, n, x);
        assert(fns_now <==> fns_then || declares_function(t, k, x));
    }
}

/// The names that are types and those that are functions, after a unit: those that were known before,
/// and those that the unit uses as types and declares as functions; no others.
pub proof fn a_unit_says_which_names_are_types_and_functions(
    t: TreeView,
    types: Set<Seq<char>>,
    functions: Set<Seq<char>>,
    x: Seq<char>,
)
    requires
        t.len() <= usize::MAX,
    ensures
        unit_registry(t, types, functions).types.contains(x) <==> types.contains(x) || exists|
            n: usize,
        |
            n < t.len() && #[trigger] used_as_type(t, n) && text_at(t, n) == x,
        unit_registry(t, types, functions).declared.contains(x) <==> functions.contains(x)
            || exists|n: usize| n < t.len() && #[trigger] declares_function(t, n, x),
{
    lemma_registry(
        t,
        t.len(),
        RegistryView { layouts: Map::empty(), types, declared: functions },
        x,
    );
}

// Layouts

/// The members of a record whose declarations declare one member each: one per declaration, in order,
/// under its name, and with the tag of its type where it is stored inline.
pub proof fn a_record_has_its_members_in_order(t: TreeView, n: usize, body: usize)
    requires
        kind_at(t, n) == Kind::StructSpecifier || kind_at(t, n) == Kind::UnionSpecifier || kind_at(
            t,
            n,
        ) == Kind::ClassSpecifier,
        field_child(t, n, Field::Body) == Some(body),
        forall|i: int|
            0 <= i < kids_of_kind(t, body, Kind::FieldDeclaration).len() ==> declares_one(
                t,
                #[trigger] kids_of_kind(t, body, Kind::FieldDeclaration)[i],
            ),
    ensures
        record_slots(t, n) is Some,
        ({
            let decls = kids_of_kind(t, body, Kind::FieldDeclaration);
            let slots = record_slots(t, n)->0;
            &&& slots.len() == decls.len()
            &&& forall|i: int|
                0 <= i < decls.len() ==> is_slot(t, #[trigger] decls[i], slots[i])
        }),
{
    lemma_body_slots(t, kids_of_kind(t, body, Kind::FieldDeclaration), 0, Seq::empty());
}

/// Whether a declaration declares a single member, which is not static and no method.
pub open spec fn declares_one(t: TreeView, c: usize) -> bool {
    let ds = field_children(t, c, Field::Declarator);
    &&& c < t.len()
    &&& !says_static(t, c)
    &&& ds.len() == 1
    &&& member_name(t, ds[0]) is Some
    &&& kind_at(t, ds[0]) != Kind::FunctionDeclarator
}

/// Whether `slot` is the member that declaration `c` declares.
pub open spec fn is_slot(t: TreeView, c: usize, slot: SlotView) -> bool {
    let m = member_name(t, field_children(t, c, Field::Declarator)[0])->0;
    &&& slot.name == text_at(t, m.0)
    &&& slot.type_tag == (if m.1 {
        type_tag(t, c)
    } else {
        None
    })
}

proof fn lemma_body_slots(t: TreeView, decls: Seq<usize>, i: int, acc: Seq<SlotView>)
    requires
        0 <= i <= decls.len(),
        forall|k: int| 0 <= k < decls.len() ==> declares_one(t, #[trigger] decls[k]),
        acc.len() == i,
        forall|k: int| 0 <= k < i ==> is_slot(t, #[trigger] decls[k], acc[k]),
    ensures
        body_slots(t, decls, i, acc) matches Some(all) && all.len() == decls.len() && (forall|
            k: int,
        |
            0 <= k < decls.len() ==> is_slot(t, #[trigger] decls[k], all[k])),
    decreases decls.len() - i,
{
    if i < decls.len() {
        let c = decls[i];
        assert(declares_one(t, c));
        crate::members::lemma_says_static(t, c);
        let ds = field_children(t, c, Field::Declarator);
        let m = member_name(t, ds[0])->0;
        let slot = SlotView {
            name: text_at(t, m.0),
            type_tag: if m.1 {
                type_tag(t, c)
            } else {
                None
            },
        };
        reveal_with_fuel(declared_slots, 3);
        let more = acc.push(slot);
        assert(declared_slots(t, ds, 0, type_tag(t, c), acc) == Some(more));
        assert forall|k: int| 0 <= k < i + 1 implies is_slot(t, #[trigger] decls[k], more[k]) by {
            if k < i {
                assert(more[k] == acc[k]);
            }
        }
        lemma_body_slots(t, decls, i + 1, more);
    }
}

/// The member that a declarator introduces: the name itself, stored inline, or the one that its
/// pointer, array or function declares.
pub proof fn a_member_declarator_introduces_its_name(t: TreeView, n: usize, c: usize)
    ensures
        kind_at(t, n) == Kind::FieldIdentifier ==> member_name(t, n) == Some((n, true)),
        (kind_at(t, n) == Kind::PointerDeclarator || kind_at(t, n) == Kind::ArrayDeclarator
            || kind_at(t, n) == Kind::FunctionDeclarator) && field_child(
            t,
            n,
            Field::Declarator,
        ) == Some(c) ==> (member_name(t, n) is Some <==> member_name(t, c) is Some) && (
        member_name(t, c) matches Some(m) ==> member_name(t, n) == Some((m.0, false))),
{
}

/// Whether node `n` gives the name `x` to the record that it defines: as its tag, or by a typedef
/// around it.
pub open spec fn names_record(t: TreeView, n: usize, x: Seq<char>) -> bool {
    &&& record_slots(t, n) is Some
    &&& {
        ||| field_child(t, n, Field::Name) matches Some(name) && text_at(t, name) == x
        ||| t[n as int].parent matches Some(p) && kind_at(t, p) == Kind::TypeDefinition && exists|
            j: int,
        |
            0 <= j < field_children(t, p, Field::Declarator).len() && type_named(
                t,
                #[trigger] field_children(t, p, Field::Declarator)[j],
                x,
            )
    }
}

/// Whether node `c` is the name `x` of a type.
pub open spec fn type_named(t: TreeView, c: usize, x: Seq<char>) -> bool {
    kind_at(t, c) == Kind::TypeIdentifier && text_at(t, c) == x
}

proof fn lemma_typedefs(
    t: TreeView,
    decls: Seq<usize>,
    i: int,
    slots: Seq<SlotView>,
    layouts: Map<Seq<char>, Seq<SlotView>>,
    x: Seq<char>,
)
    requires
        0 <= i <= decls.len(),
    ensures
        ({
            let r = with_typedefs(t, decls, i, slots, layouts);
            let named = exists|j: int| i <= j < decls.len() && type_named(t, #[trigger] decls[j], x);
            &&& named ==> r.contains_key(x) && r[x] == slots
            &&& !named ==> r.contains_key(x) == layouts.contains_key(x) && r[x] == layouts[x]
        }),
    decreases decls.len() - i,
{
    if i < decls.len() {
        let more = if kind_at(t, decls[i]) == Kind::TypeIdentifier {
            layouts.insert(text_at(t, decls[i]), slots)
        } else {
            layouts
        };
        lemma_typedefs(t, decls, i + 1, slots, more, x);
        let named = exists|j: int| i <= j < decls.len() && type_named(t, #[trigger] decls[j], x);
        let later = exists|j: int|
            i + 1 <= j < decls.len() && type_named(t, #[trigger] decls[j], x);
        assert(named <==> later || type_named(t, decls[i], x));
    }
}

proof fn lemma_record(
    t: TreeView,
    n: usize,
    layouts: Map<Seq<char>, Seq<SlotView>>,
    x: Seq<char>,
)
    ensures
        ({
            let r = with_record(t, n, layouts);
            &&& names_record(t, n, x) ==> r.contains_key(x) && r[x] == record_slots(t, n)->0
            &&& !names_record(t, n, x) ==> r.contains_key(x) == layouts.contains_key(x) && r[x]
                == layouts[x]
        }),
{
    if let Some(slots) = record_slots(t, n) {
        let tagged = match field_child(t, n, Field::Name) {
            Some(name) => layouts.insert(text_at(t, name), slots),
            None => layouts,
        };
        if let Some(p) = t[n as int].parent {
            lemma_typedefs(t, field_children(t, p, Field::Declarator), 0, slots, tagged, x);
        }
    }
}

proof fn lemma_layouts(t: TreeView, m: nat, known: RegistryView, n: usize, x: Seq<char>)
    requires
        n < m <= t.len() <= usize::MAX,
        names_record(t, n, x),
        forall|k: usize| n < k < m ==> !#[trigger] names_record(t, k, x),
    ensures
        registry(t, m, known).layouts.contains_key(x),
        registry(t, m, known).layouts[x] == record_slots(t, n)->0,
    decreases m,
{
    let k = (m - 1) as usize;
    lemma_record(t, k, registry(t, (m - 1) as nat, known).layouts, x);
    if k != n {
        lemma_layouts(t, (m - 1) as nat, known, n, x);
    }
}

/// The layout under a name is that of the last record of the unit that has the name, as its tag or by
/// a typedef around it.
pub proof fn a_layout_is_that_of_the_record_of_its_name(
    t: TreeView,
    types: Set<Seq<char>>,
    functions: Set<Seq<char>>,
    n: usize,
    x: Seq<char>,
)
    requires
        n < t.len() <= usize::MAX,
        names_record(t, n, x),
        forall|k: usize| n < k < t.len() ==> !#[trigger] names_record(t, k, x),
    ensures
        unit_registry(t, types, functions).layouts.contains_key(x),
        Some(unit_registry(t, types, functions).layouts[x]) == record_slots(t, n),
{
    lemma_layouts(
        t,
        t.len(),
        RegistryView { layouts: Map::empty(), types, declared: functions },
        n,
        x,
    );
}

/// The slot of the member that declarator `d` of declaration `c` declares.
pub open spec fn slot_of(t: TreeView, c: usize, d: usize) -> SlotView {
    let m = member_name(t, d)->0;
    SlotView {
        name: text_at(t, m.0),
        type_tag: if m.1 {
            type_tag(t, c)
        } else {
            None
        },
    }
}

proof fn lemma_declared(
    t: TreeView,
    c: usize,
    ds: Seq<usize>,
    i: int,
    acc: Seq<SlotView>,
    all: Seq<SlotView>,
)
    requires
        0 <= i <= ds.len(),
        declared_slots(t, ds, i, type_tag(t, c), acc) == Some(all),
    ensures
        acc.is_prefix_of(all),
        forall|j: int|
            i <= j < ds.len() && !is_method(t, #[trigger] ds[j]) ==> all.contains(
                slot_of(t, c, ds[j]),
            ),
    decreases ds.len() - i,
{
    if i < ds.len() {
        if is_method(t, ds[i]) {
            lemma_declared(t, c, ds, i + 1, acc, all);
        } else {
            let more = acc.push(slot_of(t, c, ds[i]));
            lemma_declared(t, c, ds, i + 1, more, all);
            assert(more[acc.len() as int] == slot_of(t, c, ds[i]));
            assert(all[acc.len() as int] == more[acc.len() as int]);
            assert(acc.is_prefix_of(more));
        }
    }
}

proof fn lemma_members(
    t: TreeView,
    decls: Seq<usize>,
    i: int,
    acc: Seq<SlotView>,
    all: Seq<SlotView>,
    k: int,
    j: int,
)
    requires
        0 <= i <= decls.len(),
        body_slots(t, decls, i, acc) == Some(all),
        0 <= k < decls.len(),
        decls[k] < t.len(),
        !says_static(t, decls[k]),
        0 <= j < field_children(t, decls[k], Field::Declarator).len(),
        !is_method(t, field_children(t, decls[k], Field::Declarator)[j]),
    ensures
        acc.is_prefix_of(all),
        k >= i ==> all.contains(
            slot_of(t, decls[k], field_children(t, decls[k], Field::Declarator)[j]),
        ),
    decreases decls.len() - i,
{
    if i < decls.len() {
        let ds = field_children(t, decls[i], Field::Declarator);
        if i == k {
            crate::members::lemma_says_static(t, decls[k]);
        }
        if is_static(t, decls[i]) {
            lemma_members(t, decls, i + 1, acc, all, k, j);
        } else {
            let more = declared_slots(t, ds, 0, type_tag(t, decls[i]), acc)->0;
            lemma_declared(t, decls[i], ds, 0, acc, more);
            lemma_members(t, decls, i + 1, more, all, k, j);
            if i == k {
                let x = slot_of(t, decls[k], ds[j]);
                assert(more.contains(x));
                let m = choose|m: int| 0 <= m < more.len() && more[m] == x;
                assert(all[m] == more[m]);
            }
        }
    }
}

/// Every member of a record that is not static and no method has a slot, whatever else its declaration
/// declares.
pub proof fn every_member_has_a_slot(t: TreeView, n: usize, body: usize, k: int, j: int)
    requires
        record_slots(t, n) is Some,
        field_child(t, n, Field::Body) == Some(body),
        0 <= k < kids_of_kind(t, body, Kind::FieldDeclaration).len(),
        kids_of_kind(t, body, Kind::FieldDeclaration)[k] < t.len(),
        !says_static(t, kids_of_kind(t, body, Kind::FieldDeclaration)[k]),
        ({
            let c = kids_of_kind(t, body, Kind::FieldDeclaration)[k];
            let ds = field_children(t, c, Field::Declarator);
            &&& 0 <= j < ds.len()
            &&& !(kind_at(t, ds[j]) == Kind::FunctionDeclarator && (field_child(
                t,
                ds[j],
                Field::Declarator,
            ) matches Some(x) && kind_at(t, x) == Kind::FieldIdentifier))
        }),
    ensures
        ({
            let c = kids_of_kind(t, body, Kind::FieldDeclaration)[k];
            let d = field_children(t, c, Field::Declarator)[j];
            record_slots(t, n)->0.contains(slot_of(t, c, d))
        }),
{
    lemma_members(
        t,
        kids_of_kind(t, body, Kind::FieldDeclaration),
        0,
        Seq::empty(),
        record_slots(t, n)->0,
        k,
        j,
    );
}

/// A static member and a method have no slot.
pub proof fn what_is_not_in_the_record_has_no_slot(
    t: TreeView,
    decls: Seq<usize>,
    i: int,
    tag: Option<Seq<char>>,
    acc: Seq<SlotView>,
    x: usize,
)
    requires
        0 <= i < decls.len(),
        decls[i] < t.len(),
    ensures
        says_static(t, decls[i]) ==> body_slots(t, decls, i, acc) == body_slots(
            t,
            decls,
            i + 1,
            acc,
        ),
        kind_at(t, decls[i]) == Kind::FunctionDeclarator && field_child(
            t,
            decls[i],
            Field::Declarator,
        ) == Some(x) && kind_at(t, x) == Kind::FieldIdentifier ==> declared_slots(
            t,
            decls,
            i,
            tag,
            acc,
        ) == declared_slots(t, decls, i + 1, tag, acc),
{
    crate::members::lemma_says_static(t, decls[i]);
}

/// The tag of a declaration is the name of the record that its type is, or the name of the type.
pub proof fn a_declaration_names_its_tag(t: TreeView, n: usize, ty: usize)
    requires
        field_child(t, n, Field::Type) == Some(ty),
    ensures
        kind_at(t, ty) == Kind::TypeIdentifier ==> type_tag(t, n) == Some(text_at(t, ty)),
        (kind_at(t, ty) == Kind::StructSpecifier || kind_at(t, ty) == Kind::UnionSpecifier
            || kind_at(t, ty) == Kind::ClassSpecifier) && field_child(t, ty, Field::Name) is Some
            ==> type_tag(t, n) == Some(text_at(t, field_child(t, ty, Field::Name)->0)),
        kind_at(t, ty) == Kind::PrimitiveType ==> type_tag(t, n) is None,
{
}

/// The name that a declarator declares is the one inside its pointers, arrays, functions, references,
/// parentheses and its initializer.
pub proof fn a_declarator_declares_what_is_in_it(t: TreeView, n: usize, c: usize)
    ensures
        kind_at(t, n) == Kind::Identifier ==> leaf_name(t, n) == Some(n),
        (kind_at(t, n) == Kind::PointerDeclarator || kind_at(t, n) == Kind::ArrayDeclarator
            || kind_at(t, n) == Kind::FunctionDeclarator || kind_at(t, n) == Kind::InitDeclarator)
            && field_child(t, n, Field::Declarator) == Some(c) ==> leaf_name(t, n) == leaf_name(
            t,
            c,
        ),
        (kind_at(t, n) == Kind::ReferenceDeclarator || kind_at(t, n)
            == Kind::ParenthesizedDeclarator) && first_named_child(t, n) == Some(c) ==> leaf_name(
            t,
            n,
        ) == leaf_name(t, c),
{
    reveal_with_fuel(leaf_name, 2);
}

// Labels

proof fn lemma_labels_below(t: TreeView, n: usize, i: int, k: int)
    requires
        0 <= i <= k < kids(t, n).len(),
    ensures
        child_at(t, n, k) matches Some(c) ==> (!unlabelled_kind(kind_at(t, c)) ==> forall|l: Seq<char>|
            labels_in(t, c).contains(l) ==> #[trigger] labels_below(t, n, i).contains(l)),
    decreases kids(t, n).len() - i,
{
    if let Some(c) = child_at(t, n, k) {
        if !unlabelled_kind(kind_at(t, c)) {
            let all = labels_below(t, n, i);
            let later = labels_below(t, n, i + 1);
            assert(all == (match child_at(t, n, i) {
                Some(d) => if unlabelled_kind(kind_at(t, d)) {
                    later
                } else {
                    labels_in(t, d) + later
                },
                None => later,
            }));
            if i < k {
                lemma_labels_below(t, n, i + 1, k);
            }
            assert forall|l: Seq<char>| labels_in(t, c).contains(l) implies #[trigger] all.contains(
                l,
            ) by {
                if i == k {
                    let j = choose|j: int| 0 <= j < labels_in(t, c).len() && labels_in(t, c)[j] == l;
                    assert(all[j] == l);
                } else {
                    assert(later.contains(l));
                    let j = choose|j: int| 0 <= j < later.len() && later[j] == l;
                    assert(all[all.len() - later.len() + j] == l);
                }
            }
        }
    }
}

/// The labels of a body are its own, and those of all its parts, but for nested functions and operands
/// that are not evaluated.
pub proof fn every_label_of_a_body_is_found(t: TreeView, n: usize, k: int, c: usize, l: Seq<char>)
    ensures
        kind_at(t, n) == Kind::LabeledStatement && field_child(t, n, Field::Label) == Some(c)
            ==> labels_in(t, n).contains(text_at(t, c)),
        0 <= k < kids(t, n).len() && child_at(t, n, k) == Some(c) && kind_at(t, c)
            != Kind::FunctionDefinition && kind_at(t, c) != Kind::SizeofExpression && kind_at(t, c)
            != Kind::AlignofExpression && labels_in(t, c).contains(l) ==> labels_in(t, n).contains(
            l,
        ),
{
    let all = labels_in(t, n);
    let below = labels_below(t, n, 0);
    if kind_at(t, n) == Kind::LabeledStatement && field_child(t, n, Field::Label) == Some(c) {
        assert(all[0] == text_at(t, c));
    }
    if 0 <= k < kids(t, n).len() && child_at(t, n, k) == Some(c) && kind_at(t, c)
        != Kind::FunctionDefinition && kind_at(t, c) != Kind::SizeofExpression && kind_at(t, c)
        != Kind::AlignofExpression && labels_in(t, c).contains(l) {
        lemma_labels_below(t, n, 0, k);
        assert(below.contains(l));
        let j = choose|j: int| 0 <= j < below.len() && below[j] == l;
        assert(all[all.len() - below.len() + j] == l);
    }
}

// Spans

/// A statement is attributed to the source that its node covers, where that is recorded.
pub proof fn a_span_is_what_its_node_covers(st: State, t: TreeView, n: usize, unit: usize, len: usize)
    requires
        st.env.unit == Some((unit, len)),
        t[n as int].start <= t[n as int].end <= len <= u32::MAX,
    ensures
        at_source(st, t, n).span matches Some(s) && s.unit == unit && s.start == t[n as int].start
            && s.len == t[n as int].end - t[n as int].start,
        at_source(st, t, n) == (State { span: at_source(st, t, n).span, ..st }),
{
}

} // verus!
