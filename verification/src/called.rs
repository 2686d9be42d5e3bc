//! What the functions of a C++ unit are called.
//!
//! The laws below say under which names the functions of a unit are lowered, that calls use the same
//! names, and which class an object is of.

use vstd::prelude::*;
use crate::classes::{base_graph, class_at, defining_class, deleted, descendants, dispatched, dtor_dispatches, dtor_name, dtors_from, has_dtor, has_method, lemma_in_line, line_of, mangled, method_class, method_dispatches, qualified, simple_name, ClassesView, OverloadsView};
use crate::cpp::{cpp_definitions, cpp_plan, cpp_tables, free_def, free_defs, inside_namespace, method_def, method_defs, namespaced_def, namespaced_defs};
use crate::discovery::{bases_from, bases_of, called_as, class_model, enclosing_class, namespace_prefix, namespaced, overload_of, overloads_from, param_count, reference_inner, returns_this, texts, yields_this, yields_this_below, MethodView};
use crate::error::ErrorView;
use crate::function::{arity_of, is_void};
use crate::graph::{connected, GraphView};
use crate::kinds::{Field, Kind};
use crate::lowering::{expr, receiver_class};
use crate::members::{lemma_free_defs, lemma_method_defs, lemma_namespaced_defs};
use crate::mir::{ExpView, VariableRef};
use crate::shapes::{head_of, kind_at, text_at, FunctionHead};
use crate::state::State;
use crate::syntax::{child_at, field_child, kids, kids_of_kind, TreeView};
use crate::text::dec;

verus! {

// Words

/// Only an overloaded name is changed: it is followed by `#` and the number of the parameters.
pub proof fn only_an_overloaded_name_is_changed(ov: OverloadsView, base: Seq<char>, arity: usize)
    ensures
        mangled(ov, base, arity) == base || mangled(ov, base, arity) == base + "#"@ + dec(
            arity as nat,
        ),
        (forall|i: int, j: int|
            0 <= i < ov.len() && 0 <= j < ov.len() && (#[trigger] ov[i]).0 == base && (
            #[trigger] ov[j]).0 == base ==> ov[i].1 == ov[j].1) ==> mangled(ov, base, arity)
            == base,
        (exists|i: int, j: int|
            0 <= i < ov.len() && 0 <= j < ov.len() && (#[trigger] ov[i]).0 == base && (
            #[trigger] ov[j]).0 == base && ov[i].1 != ov[j].1) ==> mangled(ov, base, arity) == base
            + "#"@ + dec(arity as nat),
{
}

/// Whether there is no colon in `s`.
pub open spec fn no_colon(s: Seq<char>) -> bool {
    forall|i: int| 0 <= i < s.len() ==> #[trigger] s[i] != ':'
}

proof fn lemma_after_colons(s: Seq<char>, k: int, n: int)
    requires
        0 <= k <= n <= s.len(),
        k >= 2 ==> s[k - 2] == ':' && s[k - 1] == ':',
        k < 2 ==> k == 0,
        forall|i: int| k <= i < s.len() ==> #[trigger] s[i] != ':',
    ensures
        crate::classes::after_colons(s, n) == s.skip(k),
    decreases n,
{
    if k == n {
        if k == 0 {
            assert(s.skip(0) =~= s);
        }
    } else if n >= 2 {
        assert(s[n - 1] != ':');
        lemma_after_colons(s, k, n - 1);
    } else {
        assert(k == 0);
        assert(s.skip(0) =~= s);
    }
}

/// The simple name of a class is what follows the last `::`; a name without one is its own.
pub proof fn a_simple_name_is_the_last_part(scope: Seq<char>, s: Seq<char>)
    requires
        no_colon(s),
    ensures
        simple_name(s) == s,
        simple_name(scope + "::"@ + s) == s,
        simple_name(qualified(scope, s)) == s,
{
    reveal_strlit("::");
    lemma_after_colons(s, 0, s.len() as int);
    assert(s.skip(0) =~= s);
    let whole = scope + "::"@ + s;
    let k = scope.len() as int + 2;
    assert(whole[k - 2] == ':' && whole[k - 1] == ':');
    assert forall|i: int| k <= i < whole.len() implies #[trigger] whole[i] != ':' by {
        assert(whole[i] == s[i - k]);
    }
    lemma_after_colons(whole, k, whole.len() as int);
    assert(whole.skip(k) =~= s);
}

/// A destructor is called by the name that it is defined under: the class, `::`, and `~` before the
/// simple name of the class.
pub proof fn a_destructor_is_called_as_it_is_defined(class: Seq<char>)
    ensures
        dtor_name(class) == qualified(class, "~"@ + simple_name(class)),
        dtor_name(class) == class + "::"@ + "~"@ + simple_name(class),
{
    reveal_strlit("::");
    reveal_strlit("~");
    reveal_strlit("::~");
    assert("::~"@ =~= "::"@ + "~"@);
    assert(dtor_name(class) =~= qualified(class, "~"@ + simple_name(class)));
    assert(dtor_name(class) =~= class + "::"@ + "~"@ + simple_name(class));
}

// Parameters

/// A parameter list has as many parameters as declarations, except that `(void)` has none.
pub proof fn parameters_are_counted(t: TreeView, params: usize)
    requires
        kids_of_kind(t, params, Kind::ParameterDeclaration).len() <= usize::MAX,
    ensures
        ({
            let ps = kids_of_kind(t, params, Kind::ParameterDeclaration);
            &&& ps.len() != 1 ==> param_count(t, params) == ps.len()
            &&& ps.len() == 1 && field_child(t, ps[0], Field::Declarator) is Some ==> param_count(
                t,
                params,
            ) == 1
            &&& ps.len() == 1 && field_child(t, ps[0], Field::Declarator) is None ==> param_count(
                t,
                params,
            ) == (if field_child(t, ps[0], Field::Type) matches Some(ty) && is_void(text_at(t, ty)) {
                0
            } else {
                1int
            })
        }),
{
}

// Scopes

/// What stands in a namespace with a name is prefixed by that of the namespace, after what that one is
/// prefixed by; anything else is prefixed as what it stands in.
pub proof fn a_namespace_prefixes_what_is_in_it(t: TreeView, n: usize, p: usize)
    requires
        n < t.len(),
    ensures
        t[n as int].parent is None ==> namespace_prefix(t, n).len() == 0,
        t[n as int].parent == Some(p) && p < n && kind_at(t, p) == Kind::NamespaceDefinition
            && field_child(t, p, Field::Name) is Some ==> namespace_prefix(t, n)
            == namespace_prefix(t, p) + text_at(t, field_child(t, p, Field::Name)->0) + "::"@,
        t[n as int].parent == Some(p) && p < n && (kind_at(t, p) != Kind::NamespaceDefinition
            || field_child(t, p, Field::Name) is None) ==> namespace_prefix(t, n)
            == namespace_prefix(t, p),
        t[n as int].parent is None ==> !inside_namespace(t, n),
        t[n as int].parent == Some(p) && p < n ==> (inside_namespace(t, n) <==> kind_at(t, p)
            == Kind::NamespaceDefinition || inside_namespace(t, p)),
{
}

/// The class around a node is the innermost one with a name, with the namespaces that it stands in.
pub proof fn the_class_around_is_the_innermost(t: TreeView, n: usize, p: usize)
    requires
        n < t.len(),
    ensures
        t[n as int].parent is None ==> enclosing_class(t, n) is None,
        t[n as int].parent == Some(p) && p < n && (kind_at(t, p) == Kind::ClassSpecifier || kind_at(
            t,
            p,
        ) == Kind::StructSpecifier) && field_child(t, p, Field::Name) is Some ==> enclosing_class(
            t,
            n,
        ) == Some(
            namespace_prefix(t, field_child(t, p, Field::Name)->0) + text_at(
                t,
                field_child(t, p, Field::Name)->0,
            ),
        ),
        t[n as int].parent == Some(p) && p < n && ((kind_at(t, p) != Kind::ClassSpecifier
            && kind_at(t, p) != Kind::StructSpecifier) || field_child(t, p, Field::Name) is None)
            ==> enclosing_class(t, n) == enclosing_class(t, p),
{
}

proof fn lemma_bases(t: TreeView, clauses: Seq<usize>, i: int, bases: Seq<Seq<char>>)
    requires
        0 <= i <= clauses.len(),
    ensures
        bases.is_prefix_of(bases_from(t, clauses, i, bases)),
        forall|k: int, j: int|
            #![trigger kids_of_kind(t, clauses[k], Kind::TypeIdentifier)[j]]
            i <= k < clauses.len() && 0 <= j < kids_of_kind(
                t,
                clauses[k],
                Kind::TypeIdentifier,
            ).len() ==> bases_from(t, clauses, i, bases).contains(
                text_at(t, kids_of_kind(t, clauses[k], Kind::TypeIdentifier)[j]),
            ),
    decreases clauses.len() - i,
{
    if i < clauses.len() {
        let nodes = kids_of_kind(t, clauses[i], Kind::TypeIdentifier);
        let more = bases + texts(t, nodes);
        lemma_bases(t, clauses, i + 1, more);
        let all = bases_from(t, clauses, i, bases);
        assert(bases.is_prefix_of(more));
        assert forall|j: int| 0 <= j < nodes.len() implies all.contains(
            text_at(t, #[trigger] nodes[j]),
        ) by {
            assert(more[bases.len() + j] == text_at(t, nodes[j]));
            assert(all[bases.len() + j] == more[bases.len() + j]);
        }
    }
}

/// Every class that the base clauses of a class name is one of its bases.
pub proof fn every_base_is_named(t: TreeView, n: usize, k: int, j: int)
    requires
        0 <= k < kids_of_kind(t, n, Kind::BaseClassClause).len(),
        0 <= j < kids_of_kind(
            t,
            kids_of_kind(t, n, Kind::BaseClassClause)[k],
            Kind::TypeIdentifier,
        ).len(),
    ensures
        bases_of(t, n).contains(
            text_at(
                t,
                kids_of_kind(
                    t,
                    kids_of_kind(t, n, Kind::BaseClassClause)[k],
                    Kind::TypeIdentifier,
                )[j],
            ),
        ),
{
    lemma_bases(t, kids_of_kind(t, n, Kind::BaseClassClause), 0, Seq::empty());
}

proof fn lemma_yields_below(t: TreeView, n: usize, i: int)
    requires
        0 <= i,
    ensures
        yields_this_below(t, n, i) <==> exists|k: int|
            i <= k < kids(t, n).len() && (#[trigger] child_at(t, n, k) matches Some(c)
                && yields_this(t, c)),
    decreases kids(t, n).len() - i,
{
    if i < kids(t, n).len() {
        lemma_yields_below(t, n, i + 1);
        let any = exists|k: int|
            i <= k < kids(t, n).len() && (#[trigger] child_at(t, n, k) matches Some(c)
                && yields_this(t, c));
        let later = exists|k: int|
            i + 1 <= k < kids(t, n).len() && (#[trigger] child_at(t, n, k) matches Some(c)
                && yields_this(t, c));
        let now = child_at(t, n, i) matches Some(c) && yields_this(t, c);
        assert(any <==> now || later);
    }
}

/// A body returns the receiver if it is a `return *this`, or if one of its parts does; and only then.
pub proof fn a_return_of_the_receiver_is_found_anywhere(t: TreeView, n: usize)
    ensures
        yields_this(t, n) <==> returns_this(t, n) || exists|k: int|
            0 <= k < kids(t, n).len() && (#[trigger] child_at(t, n, k) matches Some(c)
                && yields_this(t, c)),
{
    lemma_yields_below(t, n, 0);
}

// Overloads

proof fn lemma_overloads(t: TreeView, n: int, ov: OverloadsView)
    requires
        0 <= n,
        t.len() <= usize::MAX,
    ensures
        ov.is_prefix_of(overloads_from(t, n, ov)),
        forall|k: usize|
            n <= k < t.len() && kind_at(t, k) == Kind::FunctionDefinition && (#[trigger] overload_of(
                t,
                k,
            ) is Some) ==> overloads_from(t, n, ov).contains(overload_of(t, k)->0),
        forall|i: int|
            ov.len() <= i < overloads_from(t, n, ov).len() ==> is_overload(
                t,
                #[trigger] overloads_from(t, n, ov)[i],
            ),
    decreases t.len() - n,
{
    if n < t.len() {
        let m = n as usize;
        let more = if kind_at(t, m) == Kind::FunctionDefinition {
            match overload_of(t, m) {
                Some(o) => ov.push(o),
                None => ov,
            }
        } else {
            ov
        };
        lemma_overloads(t, n + 1, more);
        let all = overloads_from(t, n, ov);
        assert(all == overloads_from(t, n + 1, more));
        assert(ov.is_prefix_of(more));
        if kind_at(t, m) == Kind::FunctionDefinition && overload_of(t, m) is Some {
            assert(more[ov.len() as int] == overload_of(t, m)->0);
            assert(all[ov.len() as int] == more[ov.len() as int]);
        }
        assert forall|k: usize|
            n <= k < t.len() && kind_at(t, k) == Kind::FunctionDefinition && (#[trigger] overload_of(
                t,
                k,
            ) is Some) implies all.contains(overload_of(t, k)->0) by {
        }
        assert forall|i: int| ov.len() <= i < all.len() implies is_overload(t, #[trigger] all[i]) by {
            if i < more.len() {
                assert(all[i] == more[i]);
                assert(overload_of(t, m) == Some(all[i]));
            }
        }
    }
}

/// Whether `o` is the name and the number of parameters of a function that the unit defines.
pub open spec fn is_overload(t: TreeView, o: (Seq<char>, usize)) -> bool {
    exists|k: usize|
        k < t.len() && kind_at(t, k) == Kind::FunctionDefinition && #[trigger] overload_of(t, k)
            == Some(o)
}

/// Every function that a unit defines is one of its overloads, by the name it is called by: a method by
/// that of its class and its own, a function defined outside of its class by its qualified name, and a
/// function that is in no class by its name in its namespaces. There are no others.
pub proof fn every_function_is_an_overload(
    t: TreeView,
    n: usize,
    f: usize,
    name: usize,
    params: usize,
)
    requires
        n < t.len() <= usize::MAX,
        kind_at(t, n) == Kind::FunctionDefinition,
        field_child(t, n, Field::Declarator) == Some(f),
        kind_at(t, f) == Kind::FunctionDeclarator,
        field_child(t, f, Field::Declarator) == Some(name),
        field_child(t, f, Field::Parameters) == Some(params),
    ensures
        ({
            let all = cpp_tables(t).overloads;
            let count = param_count(t, params);
            let in_class = t[n as int].parent matches Some(p) && kind_at(t, p)
                == Kind::FieldDeclarationList;
            &&& kind_at(t, name) == Kind::Identifier && !in_class ==> all.contains(
                (namespace_prefix(t, n) + text_at(t, name), count),
            )
            &&& kind_at(t, name) == Kind::Identifier && in_class && (enclosing_class(
                t,
                n,
            ) matches Some(class) && text_at(t, name) == simple_name(class)) ==> all.contains(
                (enclosing_class(t, n)->0 + "::"@ + enclosing_class(t, n)->0, count),
            )
            &&& kind_at(t, name) == Kind::FieldIdentifier && enclosing_class(t, n) is Some
                ==> all.contains((enclosing_class(t, n)->0 + "::"@ + text_at(t, name), count))
            &&& kind_at(t, name) == Kind::QualifiedIdentifier && field_child(
                t,
                name,
                Field::Scope,
            ) is Some && field_child(t, name, Field::Name) is Some ==> all.contains(
                (
                    text_at(t, field_child(t, name, Field::Scope)->0) + "::"@ + text_at(
                        t,
                        field_child(t, name, Field::Name)->0,
                    ),
                    count,
                ),
            )
            &&& forall|i: int| 0 <= i < all.len() ==> is_overload(t, #[trigger] all[i])
        }),
{
    lemma_overloads(t, 0, Seq::empty());
    assert(reference_inner(t, f) == f);
    assert(overload_of(t, n) is Some <==> called_as(t, n, name) is Some);
}

// Definitions

/// The functions of a unit go by one name each: no definition is a copy, and each is lowered under its
/// own name.
pub proof fn every_definition_goes_by_its_name(t: TreeView, i: int)
    requires
        0 <= i < cpp_definitions(t).len(),
    ensures
        cpp_plan(cpp_definitions(t)).names[i] == cpp_definitions(t)[i].name,
        !cpp_plan(cpp_definitions(t)).duplicates[i],
        cpp_plan(cpp_definitions(t)).names.len() == cpp_definitions(t).len(),
{
}

/// A member function is lowered under the name of its class and its own, as it is called.
pub proof fn a_member_function_goes_by_its_class(t: TreeView, m: MethodView)
    requires
        class_model(t).methods.contains(m),
    ensures
        exists|i: int|
            {
                &&& 0 <= i < cpp_definitions(t).len()
                &&& (#[trigger] cpp_definitions(t)[i]).node == m.node
                &&& cpp_definitions(t)[i].name == mangled(
                    cpp_tables(t).overloads,
                    m.class + "::"@ + m.name,
                    param_count(t, m.params),
                )
            },
{
    let ov = overloads_from(t, 0, Seq::empty());
    let methods = class_model(t).methods;
    lemma_method_defs(t, methods, ov, 0, Seq::empty());
    let a = method_defs(t, methods, ov, 0, Seq::empty());
    lemma_namespaced_defs(t, ov, 0, a);
    let b = namespaced_defs(t, ov, 0, a);
    lemma_free_defs(t, ov, 0, b);
    let c = cpp_definitions(t);
    let j = choose|j: int| 0 <= j < methods.len() && methods[j] == m;
    assert(a[j] == method_def(t, methods[j], ov));
    assert(b[j] == a[j]);
    assert(c[j] == b[j]);
}

proof fn lemma_namespaced(
    t: TreeView,
    ov: OverloadsView,
    n: int,
    defs: Seq<crate::units::DefView>,
    k: usize,
)
    requires
        0 <= n <= k < t.len(),
        namespaced(t, k) is Some,
    ensures
        namespaced_defs(t, ov, n, defs).contains(namespaced_def(t, namespaced(t, k)->0, ov)),
    decreases t.len() - n,
{
    let m = n as usize;
    let more = match namespaced(t, m) {
        Some(f) => defs.push(namespaced_def(t, f, ov)),
        None => defs,
    };
    if n == k {
        lemma_namespaced_defs(t, ov, n + 1, more);
        let all = namespaced_defs(t, ov, n, defs);
        assert(all == namespaced_defs(t, ov, n + 1, more));
        assert(all[defs.len() as int] == more[defs.len() as int]);
    } else {
        lemma_namespaced(t, ov, n + 1, more, k);
    }
}

proof fn lemma_free(
    t: TreeView,
    ov: OverloadsView,
    n: int,
    defs: Seq<crate::units::DefView>,
    k: usize,
)
    requires
        0 <= n <= k < t.len(),
        free_def(t, k, ov) is Some,
    ensures
        free_defs(t, ov, n, defs).contains(free_def(t, k, ov)->0),
    decreases t.len() - n,
{
    let m = n as usize;
    let more = match free_def(t, m, ov) {
        Some(d) => defs.push(d),
        None => defs,
    };
    if n == k {
        lemma_free_defs(t, ov, n + 1, more);
        let all = free_defs(t, ov, n, defs);
        assert(all == free_defs(t, ov, n + 1, more));
        assert(all[defs.len() as int] == more[defs.len() as int]);
    } else {
        lemma_free(t, ov, n + 1, more, k);
    }
}

/// A function that is defined directly in a namespace is lowered, under its name in its namespaces.
pub proof fn a_function_in_a_namespace_is_lowered(
    t: TreeView,
    n: usize,
    p: usize,
    q: usize,
    f: usize,
    name: usize,
    params: usize,
    body: usize,
)
    requires
        n < t.len(),
        p < t.len(),
        kind_at(t, n) == Kind::FunctionDefinition,
        t[n as int].parent == Some(p),
        kind_at(t, p) == Kind::DeclarationList,
        t[p as int].parent == Some(q),
        kind_at(t, q) == Kind::NamespaceDefinition,
        field_child(t, q, Field::Body) == Some(p),
        field_child(t, n, Field::Declarator) == Some(f),
        field_child(t, n, Field::Body) == Some(body),
        kind_at(t, f) == Kind::FunctionDeclarator,
        field_child(t, f, Field::Declarator) == Some(name),
        kind_at(t, name) == Kind::Identifier,
        field_child(t, f, Field::Parameters) == Some(params),
        kind_at(t, params) == Kind::ParameterList,
        kind_at(t, body) == Kind::CompoundStatement,
    ensures
        exists|i: int|
            {
                &&& 0 <= i < cpp_definitions(t).len()
                &&& (#[trigger] cpp_definitions(t)[i]).node == n
                &&& cpp_definitions(t)[i].params == params
                &&& cpp_definitions(t)[i].body == body
                &&& cpp_definitions(t)[i].class is None
                &&& cpp_definitions(t)[i].inits.len() == 0
                &&& cpp_definitions(t)[i].name == mangled(
                    cpp_tables(t).overloads,
                    namespace_prefix(t, n) + text_at(t, name),
                    param_count(t, params),
                )
                &&& cpp_definitions(t)[i].arity == (if field_child(t, n, Field::Type) matches Some(ty)
                    && is_void(text_at(t, ty)) {
                    0usize
                } else {
                    1
                })
            },
{
    let ov = overloads_from(t, 0, Seq::empty());
    let methods = class_model(t).methods;
    let a = method_defs(t, methods, ov, 0, Seq::empty());
    lemma_namespaced(t, ov, 0, a, n);
    let b = namespaced_defs(t, ov, 0, a);
    lemma_free_defs(t, ov, 0, b);
    let c = cpp_definitions(t);
    let d = namespaced_def(t, namespaced(t, n)->0, ov);
    let i = choose|i: int| 0 <= i < b.len() && b[i] == d;
    assert(c[i] == b[i]);
}

/// A function that is defined in no class and in no namespace is lowered, under its name.
pub proof fn a_free_function_is_lowered(
    t: TreeView,
    n: usize,
    d: usize,
    body: usize,
    head: FunctionHead,
)
    requires
        n < t.len(),
        kind_at(t, n) == Kind::FunctionDefinition,
        !(t[n as int].parent matches Some(p) && kind_at(t, p) == Kind::FieldDeclarationList),
        !inside_namespace(t, n),
        field_child(t, n, Field::Declarator) == Some(d),
        t[d as int].named,
        field_child(t, n, Field::Body) == Some(body),
        kind_at(t, body) == Kind::CompoundStatement,
        kind_at(t, d) != Kind::ReferenceDeclarator,
        head_of(t, d) == Some(head),
    ensures
        exists|i: int|
            {
                &&& 0 <= i < cpp_definitions(t).len()
                &&& (#[trigger] cpp_definitions(t)[i]).node == n
                &&& cpp_definitions(t)[i].params == head.params
                &&& cpp_definitions(t)[i].body == body
                &&& cpp_definitions(t)[i].class is None
                &&& cpp_definitions(t)[i].inits.len() == 0
                &&& cpp_definitions(t)[i].name == mangled(
                    cpp_tables(t).overloads,
                    text_at(t, head.name),
                    param_count(t, head.params),
                )
                &&& cpp_definitions(t)[i].arity == arity_of(t, n, head)
            },
{
    let ov = overloads_from(t, 0, Seq::empty());
    let a = method_defs(t, class_model(t).methods, ov, 0, Seq::empty());
    let b = namespaced_defs(t, ov, 0, a);
    lemma_free(t, ov, 0, b, n);
    let c = cpp_definitions(t);
    let i = choose|i: int| 0 <= i < c.len() && c[i] == free_def(t, n, ov)->0;
    assert(c[i].node == n);
}

// Objects

/// The class of an object: that of the variable, the class of the function for `this`, where it has a
/// receiver, and that of what is inside parentheses or pointed at.
pub proof fn an_object_is_of_the_class_it_was_declared_with(
    t: TreeView,
    st: State,
    n: usize,
    c: usize,
)
    ensures
        kind_at(t, n) == Kind::Identifier && st.objects.types.contains_key(text_at(t, n))
            ==> receiver_class(t, st, n) == Some(st.objects.types[text_at(t, n)]),
        kind_at(t, n) == Kind::Identifier && !st.objects.types.contains_key(text_at(t, n))
            ==> receiver_class(t, st, n) is None,
        kind_at(t, n) == Kind::This ==> (st.objects.class matches Some((k, true))
            ==> receiver_class(t, st, n) == Some(k)),
        kind_at(t, n) == Kind::This && !(st.objects.class matches Some((_, true)))
            ==> receiver_class(t, st, n) is None,
        kind_at(t, n) == Kind::PointerExpression && field_child(t, n, Field::Argument) == Some(c)
            ==> receiver_class(t, st, n) == receiver_class(t, st, c),
{
    reveal_with_fuel(receiver_class, 2);
}

// Dispatch

/// A destructor is virtual exactly if the class, or a class that it inherits from, declares its own
/// virtual.
pub proof fn a_destructor_is_virtual_if_a_base_says_so(cs: ClassesView, class: Seq<char>)
    ensures
        dtor_dispatches(cs, class) <==> exists|c: Seq<char>|
            #[trigger] connected(base_graph(cs), seq![class], c) && (class_at(cs, c) matches Some(
                info,
            ) && info.dtor_virtual),
{
    let line = line_of(cs, class);
    if dtor_dispatches(cs, class) {
        let i = choose|i: int|
            0 <= i < line.len() && crate::classes::virtual_dtor(cs, #[trigger] line_of(cs, class)[i]);
        lemma_in_line(cs, class, line[i]);
        assert(line.contains(line[i]));
        assert(connected(base_graph(cs), seq![class], line[i]));
    }
    if exists|c: Seq<char>|
        #[trigger] connected(base_graph(cs), seq![class], c) && (class_at(cs, c) matches Some(info)
            && info.dtor_virtual) {
        let c = choose|c: Seq<char>|
            #[trigger] connected(base_graph(cs), seq![class], c) && (class_at(cs, c) matches Some(
                info,
            ) && info.dtor_virtual);
        lemma_in_line(cs, class, c);
        let i = choose|i: int| 0 <= i < line.len() && line[i] == c;
        assert(crate::classes::virtual_dtor(cs, line_of(cs, class)[i]));
    }
}

/// A method is dispatched exactly if the class, or a class that it inherits from, declares it virtual.
pub proof fn a_method_is_dispatched_if_a_base_says_so(
    cs: ClassesView,
    class: Seq<char>,
    name: Seq<char>,
)
    ensures
        method_dispatches(cs, class, name) <==> exists|c: Seq<char>|
            #[trigger] connected(base_graph(cs), seq![class], c) && (class_at(cs, c) matches Some(
                info,
            ) && info.virtual_methods.contains(name)),
{
    let line = line_of(cs, class);
    if method_dispatches(cs, class, name) {
        let i = choose|i: int|
            0 <= i < line.len() && crate::classes::virtual_method(
                cs,
                #[trigger] line_of(cs, class)[i],
                name,
            );
        lemma_in_line(cs, class, line[i]);
        assert(line.contains(line[i]));
        assert(connected(base_graph(cs), seq![class], line[i]));
    }
    if exists|c: Seq<char>|
        #[trigger] connected(base_graph(cs), seq![class], c) && (class_at(cs, c) matches Some(info)
            && info.virtual_methods.contains(name)) {
        let c = choose|c: Seq<char>|
            #[trigger] connected(base_graph(cs), seq![class], c) && (class_at(cs, c) matches Some(
                info,
            ) && info.virtual_methods.contains(name));
        lemma_in_line(cs, class, c);
        let i = choose|i: int| 0 <= i < line.len() && line[i] == c;
        assert(crate::classes::virtual_method(cs, line_of(cs, class)[i], name));
    }
}

/// Whether `x` is the destructor of one of some classes, which declares one.
pub open spec fn dtor_among(cs: ClassesView, below: Seq<Seq<char>>, x: Seq<char>) -> bool {
    exists|k: int|
        0 <= k < below.len() && (class_at(cs, #[trigger] below[k]) matches Some(info)
            && info.has_dtor) && x == dtor_name(below[k])
}

proof fn lemma_only_dtors(
    cs: ClassesView,
    below: Seq<Seq<char>>,
    i: int,
    targets: Seq<Seq<char>>,
    first: Seq<char>,
)
    requires
        0 <= i <= below.len(),
        forall|x: Seq<char>|
            #[trigger] targets.contains(x) ==> x == first || dtor_among(cs, below, x),
    ensures
        forall|x: Seq<char>|
            #[trigger] dtors_from(cs, below, i, targets).contains(x) ==> x == first || dtor_among(
                cs,
                below,
                x,
            ),
    decreases below.len() - i,
{
    if i < below.len() {
        let d = dtor_name(below[i]);
        let next = if has_dtor(cs, below[i]) && !targets.contains(d) {
            targets.push(d)
        } else {
            targets
        };
        assert forall|x: Seq<char>| #[trigger] next.contains(x) implies x == first || dtor_among(
            cs,
            below,
            x,
        ) by {
            let j = choose|j: int| 0 <= j < next.len() && next[j] == x;
            if j < targets.len() {
                assert(targets[j] == x);
                assert(targets.contains(x));
            } else {
                assert(class_at(cs, below[i]) is Some);
            }
        }
        lemma_only_dtors(cs, below, i + 1, next, first);
        assert(dtors_from(cs, below, i, targets) == dtors_from(cs, below, i + 1, next));
    }
}

/// A `delete` runs nothing but destructors: without a virtual one, just that of the nearest class that
/// has one; with a virtual one, beside it only those of classes below. Of a class that has none, it
/// runs nothing.
pub proof fn a_delete_runs_nothing_else(
    cs: ClassesView,
    subclasses: GraphView,
    class: Seq<char>,
    c: Seq<char>,
)
    ensures
        defining_class(cs, class) is None ==> deleted(cs, subclasses, class) is None,
        defining_class(cs, class) == Some(c) && !dtor_dispatches(cs, class) ==> deleted(
            cs,
            subclasses,
            class,
        ) == Some(seq![dtor_name(c)]),
        defining_class(cs, class) == Some(c) && dtor_dispatches(cs, class) ==> {
            &&& deleted(cs, subclasses, class) is Some
            &&& forall|x: Seq<char>|
                #[trigger] deleted(cs, subclasses, class)->0.contains(x) ==> x == dtor_name(c)
                    || dtor_among(cs, descendants(subclasses, class), x)
        },
{
    let below = descendants(subclasses, class);
    let one = seq![dtor_name(c)];
    assert forall|x: Seq<char>| #[trigger] one.contains(x) implies x == dtor_name(c) || dtor_among(
        cs,
        below,
        x,
    ) by {
        assert(one[0] == x);
    }
    lemma_only_dtors(cs, below, 0, one, dtor_name(c));
}

/// A call of a method that is not dispatched reaches just the one that the nearest class has; where no
/// class has one, it reaches none.
pub proof fn a_plain_method_call_reaches_one_method(
    cs: ClassesView,
    subclasses: GraphView,
    ov: OverloadsView,
    class: Seq<char>,
    name: Seq<char>,
    arity: usize,
    c: Seq<char>,
)
    ensures
        method_class(cs, class, name) is None ==> dispatched(
            cs,
            subclasses,
            ov,
            class,
            name,
            arity,
        ) is None,
        method_class(cs, class, name) == Some(c) && !method_dispatches(cs, class, name)
            ==> dispatched(cs, subclasses, ov, class, name, arity) == Some(
            seq![mangled(ov, c + "::"@ + name, arity)],
        ),
{
}

/// Which class declares a destructor or a method is what is known of it.
pub proof fn a_class_declares_what_is_known_of_it(cs: ClassesView, c: Seq<char>, name: Seq<char>)
    ensures
        has_dtor(cs, c) <==> (class_at(cs, c) matches Some(info) && info.has_dtor),
        has_method(cs, c, name) <==> (class_at(cs, c) matches Some(info) && info.methods.contains(
            name,
        )),
{
}

// The receiver

/// In a member function `this` is the first parameter.
pub proof fn this_is_the_first_parameter(t: TreeView, st: State, n: usize)
    requires
        kind_at(t, n) == Kind::This,
        st.objects.class is Some,
    ensures
        expr(t, st, n) == (
            st,
            Ok::<ExpView, ErrorView>(ExpView::Variable(VariableRef::Param(0))),
        ),
{
    reveal(expr);
}

} // verus!
