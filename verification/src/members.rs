//! What a class is found to have.
//!
//! The laws below relate the classes that are discovered in a C++ unit, and the functions that are
//! lowered for them, to the nodes of its syntax tree.

use vstd::prelude::*;
use crate::classes::{ancestors, class_at, class_from, flattened, with_class, with_inherited, ClassView, ClassesView};
use crate::cpp::{cpp_definitions, free_defs, method_def, method_defs, namespaced_defs};
use crate::discovery::{bases_of, class_body, class_model, class_parts, classes_from, data_member, inits_from, inits_in, inline_method, is_virtual, member_init, member_inits, names_void, namespace_prefix, outer_method, outer_methods, reference_inner, with_members, with_method, with_outer_methods, yields_this, MethodView, Role};
use crate::graph::leads_to;
use crate::kinds::{Field, Kind};
use crate::shapes::{is_static, kind_at, text_at};
use crate::syntax::{child_at, field_child, field_children, inside, kids, kids_of_kind, named_child, rest, TreeView};
use crate::units::DefView;

verus! {

// Data members

/// Whether `chain` leads from a member declarator, through pointers, arrays and parentheses, to the
/// name that it declares.
pub open spec fn leads_to_name(t: TreeView, d: usize, chain: Seq<usize>) -> bool {
    &&& chain.len() > 0
    &&& chain[0] == d
    &&& kind_at(t, chain.last()) == Kind::FieldIdentifier
    &&& forall|i: int|
        #![trigger chain[i]]
        0 <= i < chain.len() - 1 ==> {
            let k = kind_at(t, chain[i]);
            &&& k == Kind::PointerDeclarator || k == Kind::ArrayDeclarator || k
                == Kind::ParenthesizedDeclarator
            &&& field_child(t, chain[i], Field::Declarator) == Some(chain[i + 1])
        }
}

/// A member declarator declares the name that it leads to.
pub proof fn a_declarator_declares_the_name_in_it(t: TreeView, d: usize, chain: Seq<usize>)
    requires
        leads_to_name(t, d, chain),
    ensures
        data_member(t, d) == Some(chain.last()),
    decreases chain.len(),
{
    if chain.len() > 1 {
        let k = kind_at(t, chain[0]);
        let later = chain.skip(1);
        assert(later.last() == chain.last());
        assert forall|i: int| #![trigger later[i]] 0 <= i < later.len() - 1 implies {
            let k = kind_at(t, later[i]);
            &&& k == Kind::PointerDeclarator || k == Kind::ArrayDeclarator || k
                == Kind::ParenthesizedDeclarator
            &&& field_child(t, later[i], Field::Declarator) == Some(later[i + 1])
        } by {
            assert(later[i] == chain[i + 1]);
            assert(later[i + 1] == chain[i + 2]);
        }
        a_declarator_declares_the_name_in_it(t, chain[1], later);
    }
}

/// A member declarator declares nothing but the name that it leads to.
pub proof fn a_declarator_declares_nothing_else(t: TreeView, d: usize) -> (chain: Seq<usize>)
    requires
        data_member(t, d) is Some,
    ensures
        leads_to_name(t, d, chain),
        chain.last() == data_member(t, d)->0,
    decreases rest(t, d),
{
    if kind_at(t, d) == Kind::FieldIdentifier {
        seq![d]
    } else {
        let c = field_child(t, d, Field::Declarator)->0;
        let later = a_declarator_declares_nothing_else(t, c);
        let chain = seq![d] + later;
        assert forall|i: int| #![trigger chain[i]] 0 <= i < chain.len() - 1 implies {
            let k = kind_at(t, chain[i]);
            &&& k == Kind::PointerDeclarator || k == Kind::ArrayDeclarator || k
                == Kind::ParenthesizedDeclarator
            &&& field_child(t, chain[i], Field::Declarator) == Some(chain[i + 1])
        } by {
            if i > 0 {
                assert(chain[i] == later[i - 1]);
                assert(chain[i + 1] == later[i]);
            }
        }
        assert(chain.last() == later.last());
        chain
    }
}

/// Whether the declarator `d` declares a member named `x`.
pub open spec fn declarator_names(t: TreeView, d: usize, x: Seq<char>) -> bool {
    exists|chain: Seq<usize>| #[trigger] leads_to_name(t, d, chain) && text_at(t, chain.last()) == x
}

proof fn lemma_declarator_names(t: TreeView, d: usize, x: Seq<char>)
    ensures
        declarator_names(t, d, x) <==> (data_member(t, d) matches Some(m) && text_at(t, m) == x),
{
    if declarator_names(t, d, x) {
        let chain = choose|chain: Seq<usize>| #[trigger]
            leads_to_name(t, d, chain) && text_at(t, chain.last()) == x;
        a_declarator_declares_the_name_in_it(t, d, chain);
    }
    if data_member(t, d) is Some {
        let chain = a_declarator_declares_nothing_else(t, d);
    }
}

/// Whether one of the children of a node is the word `static`.
pub open spec fn says_static(t: TreeView, n: usize) -> bool {
    exists|i: int|
        0 <= i < t[n as int].children.len() && kind_at(t, #[trigger] t[n as int].children[i])
            == Kind::StorageClassSpecifier && text_at(t, t[n as int].children[i]) == "static"@
}

pub(crate) proof fn lemma_says_static(t: TreeView, n: usize)
    requires
        n < t.len(),
    ensures
        is_static(t, n) == says_static(t, n),
{
    if is_static(t, n) {
        let i = choose|i: int|
            0 <= i < kids(t, n).len() && crate::shapes::is_static_word(t, #[trigger] kids(t, n)[i]);
        assert(kind_at(t, t[n as int].children[i]) == Kind::StorageClassSpecifier);
    }
    if says_static(t, n) {
        let i = choose|i: int|
            0 <= i < t[n as int].children.len() && kind_at(t, #[trigger] t[n as int].children[i])
                == Kind::StorageClassSpecifier && text_at(t, t[n as int].children[i])
                == "static"@;
        assert(crate::shapes::is_static_word(t, kids(t, n)[i]));
    }
}

/// Whether child number `k` of a class body is a declaration of a member named `x`; a static one, if
/// only those count.
pub open spec fn declared_by(
    t: TreeView,
    body: usize,
    k: int,
    x: Seq<char>,
    only_static: bool,
) -> bool {
    &&& child_at(t, body, k) matches Some(c)
    &&& kind_at(t, c) == Kind::FieldDeclaration
    &&& only_static ==> says_static(t, c)
    &&& exists|j: int|
        0 <= j < field_children(t, c, Field::Declarator).len() && #[trigger] declarator_names(
            t,
            field_children(t, c, Field::Declarator)[j],
            x,
        )
}

/// Whether a class body declares a member named `x`.
pub open spec fn body_declares(t: TreeView, body: usize, x: Seq<char>, only_static: bool) -> bool {
    exists|k: int| #[trigger] declared_by(t, body, k, x, only_static)
}

proof fn lemma_with_members(
    t: TreeView,
    decls: Seq<usize>,
    i: int,
    fixed: bool,
    info: ClassView,
    x: Seq<char>,
)
    requires
        0 <= i <= decls.len(),
    ensures
        ({
            let r = with_members(t, decls, i, fixed, info);
            let named = exists|j: int|
                i <= j < decls.len() && #[trigger] declarator_names(t, decls[j], x);
            &&& r.members.contains(x) <==> info.members.contains(x) || named
            &&& r.static_members.contains(x) <==> info.static_members.contains(x) || (fixed
                && named)
            &&& r == (ClassView { members: r.members, static_members: r.static_members, ..info })
        }),
    decreases decls.len() - i,
{
    if i < decls.len() {
        lemma_declarator_names(t, decls[i], x);
        let now = match data_member(t, decls[i]) {
            Some(m) => ClassView {
                members: info.members.insert(text_at(t, m)),
                static_members: if fixed {
                    info.static_members.insert(text_at(t, m))
                } else {
                    info.static_members
                },
                ..info
            },
            None => info,
        };
        lemma_with_members(t, decls, i + 1, fixed, now, x);
        let named = exists|j: int|
            i <= j < decls.len() && #[trigger] declarator_names(t, decls[j], x);
        let later = exists|j: int|
            i + 1 <= j < decls.len() && #[trigger] declarator_names(t, decls[j], x);
        if named && !later {
            let j = choose|j: int|
                i <= j < decls.len() && #[trigger] declarator_names(t, decls[j], x);
            assert(j == i);
        }
        assert(named <==> later || declarator_names(t, decls[i], x));
    }
}

/// What a class body adds to the members of its class.
proof fn lemma_class_body(
    t: TreeView,
    body: usize,
    i: int,
    class: Seq<char>,
    simple: Seq<char>,
    info: ClassView,
    methods: Seq<MethodView>,
    x: Seq<char>,
)
    requires
        0 <= i,
    ensures
        ({
            let r = class_body(t, body, i, class, simple, info, methods);
            let any = exists|k: int| i <= k && #[trigger] declared_by(t, body, k, x, false);
            let fixed = exists|k: int| i <= k && #[trigger] declared_by(t, body, k, x, true);
            &&& r.0.members.contains(x) <==> info.members.contains(x) || any
            &&& r.0.static_members.contains(x) <==> info.static_members.contains(x) || fixed
            &&& r.0.bases == info.bases
            &&& methods.is_prefix_of(r.1)
            &&& info.methods.subset_of(r.0.methods)
            &&& info.virtual_methods.subset_of(r.0.virtual_methods)
            &&& info.returns_self.subset_of(r.0.returns_self)
            &&& info.has_ctor ==> r.0.has_ctor
            &&& info.has_dtor ==> r.0.has_dtor
            &&& info.dtor_virtual ==> r.0.dtor_virtual
        }),
    decreases kids(t, body).len() - i,
{
    let any = exists|k: int| i <= k && #[trigger] declared_by(t, body, k, x, false);
    let fixed = exists|k: int| i <= k && #[trigger] declared_by(t, body, k, x, true);
    let any_later = exists|k: int| i + 1 <= k && #[trigger] declared_by(t, body, k, x, false);
    let fixed_later = exists|k: int| i + 1 <= k && #[trigger] declared_by(t, body, k, x, true);
    if i < kids(t, body).len() {
        assert(any <==> any_later || declared_by(t, body, i, x, false));
        assert(fixed <==> fixed_later || declared_by(t, body, i, x, true));
        match child_at(t, body, i) {
            None => {
                lemma_class_body(t, body, i + 1, class, simple, info, methods, x);
            },
            Some(c) => {
                if kind_at(t, c) == Kind::FieldDeclaration {
                    let decls = field_children(t, c, Field::Declarator);
                    lemma_says_static(t, c);
                    lemma_with_members(t, decls, 0, is_static(t, c), info, x);
                    let now = with_members(t, decls, 0, is_static(t, c), info);
                    lemma_class_body(t, body, i + 1, class, simple, now, methods, x);
                } else if kind_at(t, c) == Kind::FunctionDefinition {
                    match inline_method(t, c, class, simple) {
                        Some(m) => {
                            lemma_class_body(
                                t,
                                body,
                                i + 1,
                                class,
                                simple,
                                with_method(info, m),
                                methods.push(m),
                                x,
                            );
                        },
                        None => {
                            lemma_class_body(t, body, i + 1, class, simple, info, methods, x);
                        },
                    }
                } else {
                    lemma_class_body(t, body, i + 1, class, simple, info, methods, x);
                }
            },
        }
    } else {
        assert forall|k: int| i <= k implies !(#[trigger] declared_by(t, body, k, x, false))
            && !declared_by(t, body, k, x, true) by {}
        assert(!any);
        assert forall|k: int| i <= k implies !(#[trigger] declared_by(t, body, k, x, true)) by {}
    }
}

// Methods

/// Whether what is known of a class tells of its member function `m`.
pub open spec fn tells_of(info: ClassView, m: MethodView) -> bool {
    match m.role {
        Role::Destructor => info.has_dtor && (m.is_virtual ==> info.dtor_virtual),
        Role::Constructor => info.has_ctor,
        Role::Method => !m.is_static ==> {
            &&& info.methods.contains(m.name)
            &&& m.returns_self ==> info.returns_self.contains(m.name)
            &&& m.is_virtual ==> info.virtual_methods.contains(m.name)
        },
    }
}

/// Whether `b` has all that `a` has.
pub open spec fn has_all_of(b: ClassView, a: ClassView) -> bool {
    &&& b.bases == a.bases
    &&& a.members.subset_of(b.members)
    &&& b.static_members == a.static_members
    &&& a.methods.subset_of(b.methods)
    &&& a.virtual_methods.subset_of(b.virtual_methods)
    &&& a.returns_self.subset_of(b.returns_self)
    &&& a.has_ctor ==> b.has_ctor
    &&& a.has_dtor ==> b.has_dtor
    &&& a.dtor_virtual ==> b.dtor_virtual
}

/// A member function in a class body is found.
proof fn lemma_class_body_method(
    t: TreeView,
    body: usize,
    i: int,
    class: Seq<char>,
    simple: Seq<char>,
    info: ClassView,
    methods: Seq<MethodView>,
    k: int,
    c: usize,
    m: MethodView,
)
    requires
        0 <= i <= k,
        child_at(t, body, k) == Some(c),
        kind_at(t, c) == Kind::FunctionDefinition,
        inline_method(t, c, class, simple) == Some(m),
    ensures
        class_body(t, body, i, class, simple, info, methods).1.contains(m),
        tells_of(class_body(t, body, i, class, simple, info, methods).0, m),
    decreases k - i,
{
    let x = Seq::<char>::empty();
    assert(k < kids(t, body).len());
    if i == k {
        let all = methods.push(m);
        lemma_class_body(t, body, i + 1, class, simple, with_method(info, m), all, x);
        let r = class_body(t, body, i + 1, class, simple, with_method(info, m), all);
        assert(all[methods.len() as int] == m);
        assert(r.1[methods.len() as int] == m);
    } else {
        match child_at(t, body, i) {
            None => {
                lemma_class_body_method(
                    t,
                    body,
                    i + 1,
                    class,
                    simple,
                    info,
                    methods,
                    k,
                    c,
                    m,
                );
            },
            Some(o) => {
                let other = if kind_at(t, o) == Kind::FieldDeclaration {
                    (
                        with_members(
                            t,
                            field_children(t, o, Field::Declarator),
                            0,
                            is_static(t, o),
                            info,
                        ),
                        methods,
                    )
                } else if kind_at(t, o) == Kind::FunctionDefinition {
                    match inline_method(t, o, class, simple) {
                        Some(q) => (with_method(info, q), methods.push(q)),
                        None => (info, methods),
                    }
                } else {
                    (info, methods)
                };
                lemma_class_body_method(
                    t,
                    body,
                    i + 1,
                    class,
                    simple,
                    other.0,
                    other.1,
                    k,
                    c,
                    m,
                );
            },
        }
    }
}

// Classes

proof fn lemma_class_from(cs: ClassesView, i: int, name: Seq<char>)
    requires
        0 <= i <= cs.len(),
    ensures
        i <= class_from(cs, i, name) <= cs.len(),
        class_from(cs, i, name) < cs.len() ==> cs[class_from(cs, i, name)].0 == name,
        forall|j: int| i <= j < class_from(cs, i, name) ==> (#[trigger] cs[j]).0 != name,
    decreases cs.len() - i,
{
    if i < cs.len() && cs[i].0 != name {
        lemma_class_from(cs, i + 1, name);
    }
}

/// The first class of a name is the one that is found.
proof fn lemma_first_class(cs: ClassesView, name: Seq<char>, k: int)
    requires
        0 <= k < cs.len(),
        cs[k].0 == name,
        forall|j: int| 0 <= j < k ==> (#[trigger] cs[j]).0 != name,
    ensures
        class_from(cs, 0, name) == k,
        class_at(cs, name) == Some(cs[k].1),
{
    lemma_class_from(cs, 0, name);
    let i = class_from(cs, 0, name);
    if i < k {
        assert(cs[i].0 == name);
    }
    if k < i {
        assert(cs[k].0 != name);
    }
}

/// What is known of a class replaces what was known of it, and says nothing of another one.
proof fn lemma_with_class(cs: ClassesView, name: Seq<char>, info: ClassView, other: Seq<char>)
    ensures
        class_at(with_class(cs, name, info), name) == Some(info),
        other != name ==> class_at(with_class(cs, name, info), other) == class_at(cs, other),
{
    lemma_class_from(cs, 0, name);
    lemma_class_from(cs, 0, other);
    let new = with_class(cs, name, info);
    lemma_class_from(new, 0, other);
    let i = class_from(cs, 0, name);
    assert forall|j: int| 0 <= j < i implies (#[trigger] new[j]).0 != name by {
        assert(new[j] == cs[j]);
    }
    assert(new[i] == (name, info));
    lemma_first_class(new, name, i);
    if other != name {
        let k = class_from(cs, 0, other);
        let l = class_from(new, 0, other);
        if k < cs.len() {
            assert(new[k] == cs[k]);
            assert forall|j: int| 0 <= j < k implies (#[trigger] new[j]).0 != other by {
                assert(cs[j].0 != other);
            }
            lemma_first_class(new, other, k);
        } else if l < new.len() {
            assert(new[l].0 == other);
            if l < cs.len() {
                assert(cs[l].0 != other);
            }
        }
    }
}

/// The name of the class whose name and body are `p`.
pub open spec fn class_called(t: TreeView, p: (usize, usize)) -> Seq<char> {
    namespace_prefix(t, p.0) + text_at(t, p.0)
}

/// Whether no class that is defined from node `n` on has the name `class`.
pub open spec fn none_later(t: TreeView, n: int, class: Seq<char>) -> bool {
    forall|k: usize|
        n <= k < t.len() ==> (#[trigger] class_parts(t, k) matches Some(q) ==> class_called(t, q)
            != class)
}

proof fn lemma_classes_kept(
    t: TreeView,
    i: int,
    cs: ClassesView,
    methods: Seq<MethodView>,
    class: Seq<char>,
)
    requires
        0 <= i,
        none_later(t, i, class),
    ensures
        class_at(classes_from(t, i, cs, methods).0, class) == class_at(cs, class),
        methods.is_prefix_of(classes_from(t, i, cs, methods).1),
    decreases t.len() - i,
{
    if i < t.len() && i <= usize::MAX {
        match class_parts(t, i as usize) {
            None => {
                lemma_classes_kept(t, i + 1, cs, methods, class);
            },
            Some(p) => {
                let simple = text_at(t, p.0);
                let name = class_called(t, p);
                let start = ClassView::derived_from(bases_of(t, i as usize));
                lemma_class_body(t, p.1, 0, name, simple, start, methods, simple);
                let r = class_body(t, p.1, 0, name, simple, start, methods);
                lemma_with_class(cs, name, r.0, class);
                lemma_classes_kept(t, i + 1, with_class(cs, name, r.0), r.1, class);
            },
        }
    }
}

/// Whether what is known of the class that node `n` defines, and the methods found, are those of its
/// body.
pub open spec fn as_written(
    t: TreeView,
    n: usize,
    name: usize,
    body: usize,
    info: ClassView,
    methods: Seq<MethodView>,
) -> bool {
    let class = class_called(t, (name, body));
    &&& info.bases == bases_of(t, n)
    &&& forall|x: Seq<char>|
        #[trigger] info.members.contains(x) <==> body_declares(t, body, x, false)
    &&& forall|x: Seq<char>|
        #[trigger] info.static_members.contains(x) <==> body_declares(t, body, x, true)
    &&& forall|k: int, m: MethodView|
        (child_at(t, body, k) matches Some(c) && kind_at(t, c) == Kind::FunctionDefinition
            && #[trigger] inline_method(t, child_at(t, body, k)->0, class, text_at(t, name))
            == Some(m)) ==> #[trigger] methods.contains(m) && tells_of(info, m)
}

proof fn lemma_classes_found(
    t: TreeView,
    i: int,
    cs: ClassesView,
    methods: Seq<MethodView>,
    n: usize,
    name: usize,
    body: usize,
)
    requires
        0 <= i <= n < t.len(),
        class_parts(t, n) == Some((name, body)),
        none_later(t, n + 1, class_called(t, (name, body))),
    ensures
        ({
            let r = classes_from(t, i, cs, methods);
            &&& class_at(r.0, class_called(t, (name, body))) matches Some(info)
            &&& as_written(t, n, name, body, info, r.1)
        }),
    decreases n - i,
{
    let class = class_called(t, (name, body));
    match class_parts(t, i as usize) {
        None => {
            lemma_classes_found(t, i + 1, cs, methods, n, name, body);
        },
        Some(p) => {
            let simple = text_at(t, p.0);
            let called = class_called(t, p);
            let start = ClassView::derived_from(bases_of(t, i as usize));
            let r = class_body(t, p.1, 0, called, simple, start, methods);
            let next = with_class(cs, called, r.0);
            if i < n {
                lemma_classes_found(t, i + 1, next, r.1, n, name, body);
            } else {
                lemma_with_class(cs, class, r.0, class);
                lemma_classes_kept(t, i + 1, next, r.1, class);
                let all = classes_from(t, i + 1, next, r.1).1;
                assert forall|x: Seq<char>| #[trigger]
                    r.0.members.contains(x) <==> body_declares(t, body, x, false) by {
                    lemma_class_body(t, p.1, 0, called, simple, start, methods, x);
                    assert forall|k: int| #[trigger] declared_by(t, body, k, x, false) implies 0
                        <= k by {}
                }
                assert forall|x: Seq<char>| #[trigger]
                    r.0.static_members.contains(x) <==> body_declares(t, body, x, true) by {
                    lemma_class_body(t, p.1, 0, called, simple, start, methods, x);
                    assert forall|k: int| #[trigger] declared_by(t, body, k, x, true) implies 0
                        <= k by {}
                }
                lemma_class_body(t, p.1, 0, called, simple, start, methods, simple);
                assert forall|k: int, m: MethodView|
                    (child_at(t, body, k) matches Some(c) && kind_at(t, c)
                        == Kind::FunctionDefinition && #[trigger] inline_method(
                        t,
                        child_at(t, body, k)->0,
                        class,
                        text_at(t, name),
                    ) == Some(m)) implies #[trigger] all.contains(m) && tells_of(r.0, m) by {
                    lemma_class_body_method(
                        t,
                        p.1,
                        0,
                        called,
                        simple,
                        start,
                        methods,
                        k,
                        child_at(t, body, k)->0,
                        m,
                    );
                    let j = choose|j: int| 0 <= j < r.1.len() && r.1[j] == m;
                    assert(all[j] == m);
                }
                assert(as_written(t, n, name, body, r.0, all));
            }
        },
    }
}

proof fn lemma_flattened(cs: ClassesView, class: Seq<char>)
    ensures
        match class_at(cs, class) {
            Some(info) => class_at(flattened(cs), class) matches Some(more) && has_all_of(
                more,
                info,
            ),
            None => class_at(flattened(cs), class) is None,
        },
{
    lemma_class_from(cs, 0, class);
    let flat = flattened(cs);
    lemma_class_from(flat, 0, class);
    let k = class_from(cs, 0, class);
    if k < cs.len() {
        assert(flat[k].0 == cs[k].0);
        assert forall|j: int| 0 <= j < k implies (#[trigger] flat[j]).0 != class by {
            assert(cs[j].0 != class);
        }
        lemma_first_class(flat, class, k);
    } else {
        let l = class_from(flat, 0, class);
        if l < flat.len() {
            assert(cs[l].0 == class);
        }
    }
}

proof fn lemma_outer_kept(cs: ClassesView, methods: Seq<MethodView>, i: int, class: Seq<char>)
    ensures
        match class_at(cs, class) {
            Some(info) => class_at(with_outer_methods(cs, methods, i), class) matches Some(more)
                && has_all_of(more, info),
            None => class_at(with_outer_methods(cs, methods, i), class) is None,
        },
    decreases methods.len() - i,
{
    if 0 <= i && i < methods.len() {
        match class_at(cs, methods[i].class) {
            Some(info) => {
                let more = with_method(info, methods[i]);
                lemma_with_class(cs, methods[i].class, more, class);
                lemma_outer_kept(
                    with_class(cs, methods[i].class, more),
                    methods,
                    i + 1,
                    class,
                );
            },
            None => {
                lemma_outer_kept(cs, methods, i + 1, class);
            },
        }
    }
}

/// What is known of the class whose name and body are those nodes.
pub open spec fn known_class(t: TreeView, name: usize, body: usize) -> ClassView {
    class_at(class_model(t).classes, class_called(t, (name, body)))->0
}

/// Whether child number `k` of a class body defines the member function `m`.
pub open spec fn defined_in(t: TreeView, name: usize, body: usize, k: int, m: MethodView) -> bool {
    &&& child_at(t, body, k) matches Some(c)
    &&& kind_at(t, c) == Kind::FunctionDefinition
    &&& inline_method(t, c, class_called(t, (name, body)), text_at(t, name)) == Some(m)
}

/// What is known of a class that a unit defines: the members and the static members that its body
/// declares, the bases that it names, and the member functions that its body defines. Of two classes
/// of one name the later one counts.
pub proof fn a_class_has_what_its_body_declares(t: TreeView, n: usize, name: usize, body: usize)
    requires
        n < t.len(),
        kind_at(t, n) == Kind::StructSpecifier || kind_at(t, n) == Kind::ClassSpecifier,
        field_child(t, n, Field::Name) == Some(name),
        field_child(t, n, Field::Body) == Some(body),
        kind_at(t, name) == Kind::TypeIdentifier,
        kind_at(t, body) == Kind::FieldDeclarationList,
        none_later(t, n + 1, class_called(t, (name, body))),
    ensures
        class_at(class_model(t).classes, class_called(t, (name, body))) is Some,
        known_class(t, name, body).bases == bases_of(t, n),
        forall|x: Seq<char>| #[trigger]
            body_declares(t, body, x, false) ==> known_class(t, name, body).members.contains(x),
        forall|x: Seq<char>| #[trigger]
            body_declares(t, body, x, true) <==> known_class(
                t,
                name,
                body,
            ).static_members.contains(x),
        forall|k: int, m: MethodView| #[trigger]
            defined_in(t, name, body, k, m) ==> class_model(t).methods.contains(m) && tells_of(
                known_class(t, name, body),
                m,
            ),
{
    let class = class_called(t, (name, body));
    let found = classes_from(t, 0, Seq::empty(), Seq::empty());
    lemma_classes_found(t, 0, Seq::empty(), Seq::empty(), n, name, body);
    let own = class_at(found.0, class)->0;
    assert(as_written(t, n, name, body, own, found.1));
    lemma_flattened(found.0, class);
    let flat = flattened(found.0);
    let outer = outer_methods(t, 0, flat, Seq::empty());
    lemma_outer_kept(flat, outer, 0, class);
    let model = class_model(t);
    let info = known_class(t, name, body);
    assert(has_all_of(info, own));
    assert forall|x: Seq<char>| #[trigger]
        body_declares(t, body, x, false) implies info.members.contains(x) by {
        assert(own.members.contains(x));
    }
    assert forall|x: Seq<char>| #[trigger]
        body_declares(t, body, x, true) <==> info.static_members.contains(x) by {
        assert(own.static_members.contains(x) <==> body_declares(t, body, x, true));
    }
    assert forall|k: int, m: MethodView| #[trigger]
        defined_in(t, name, body, k, m) implies model.methods.contains(m) && tells_of(info, m) by {
        assert(found.1.contains(m) && tells_of(own, m)) by {
            assert(inline_method(t, child_at(t, body, k)->0, class, text_at(t, name)) == Some(m));
        }
        let j = choose|j: int| 0 <= j < found.1.len() && found.1[j] == m;
        assert(model.methods[j] == m);
    }
}

// Member initializers

/// Whether an item of an initializer list initializes a member with an expression.
pub open spec fn initializes(t: TreeView, item: usize) -> bool {
    &&& named_child(t, item, 0) matches Some(member)
    &&& kind_at(t, member) == Kind::FieldIdentifier
    &&& named_child(t, item, 1) matches Some(args)
    &&& named_child(t, args, 0) is Some
}

/// The member that an item of an initializer list initializes, and the expression.
pub open spec fn initialization(t: TreeView, item: usize) -> (Seq<char>, usize) {
    (
        text_at(t, named_child(t, item, 0)->0),
        named_child(t, named_child(t, item, 1)->0, 0)->0,
    )
}

/// What the items of an initializer list initialize, in order.
pub open spec fn initializations(t: TreeView, items: Seq<usize>) -> Seq<(Seq<char>, usize)> {
    items.filter(|item: usize| initializes(t, item)).map_values(
        |item: usize| initialization(t, item),
    )
}

proof fn lemma_inits_in(t: TreeView, items: Seq<usize>, i: int)
    requires
        0 <= i <= items.len(),
    ensures
        inits_in(t, items, i, initializations(t, items.take(i))) == initializations(t, items),
    decreases items.len() - i,
{
    if i < items.len() {
        reveal(Seq::filter);
        let now = items.take(i);
        let next = items.take(i + 1);
        assert(next.drop_last() =~= now);
        assert(next.last() == items[i]);
        let more = match member_init(t, items[i]) {
            Some(m) => initializations(t, now).push(m),
            None => initializations(t, now),
        };
        assert(more =~= initializations(t, next));
        lemma_inits_in(t, items, i + 1);
    } else {
        assert(items.take(i) =~= items);
    }
}

/// A constructor initializes the members that its initializer list names, each with the first
/// expression that is given for it, in order; without a list it initializes none.
pub proof fn a_constructor_initializes_what_its_list_names(t: TreeView, fdef: usize)
    ensures
        kids_of_kind(t, fdef, Kind::FieldInitializerList).len() == 0 ==> member_inits(t, fdef)
            == Seq::<(Seq<char>, usize)>::empty(),
        forall|list: usize|
            kids_of_kind(t, fdef, Kind::FieldInitializerList) == seq![list] ==> member_inits(
                t,
                fdef,
            ) == initializations(t, #[trigger] kids_of_kind(t, list, Kind::FieldInitializer)),
{
    let lists = kids_of_kind(t, fdef, Kind::FieldInitializerList);
    assert forall|list: usize| lists == seq![list] implies member_inits(t, fdef)
        == initializations(t, #[trigger] kids_of_kind(t, list, Kind::FieldInitializer)) by {
        let items = kids_of_kind(t, list, Kind::FieldInitializer);
        lemma_inits_in(t, items, 0);
        reveal(Seq::filter);
        assert(items.take(0) =~= Seq::<usize>::empty());
        assert(initializations(t, items.take(0)) =~= Seq::<(Seq<char>, usize)>::empty());
        reveal_with_fuel(inits_from, 3);
        assert(lists[0] == list);
    }
}

// Member functions

/// Whether the function definition `n` has that function declarator, name, parameters and body. A
/// function that returns a reference has its declarator in that of the reference.
pub open spec fn defines(
    t: TreeView,
    n: usize,
    f: usize,
    name: usize,
    params: usize,
    body: usize,
) -> bool {
    &&& kind_at(t, n) == Kind::FunctionDefinition
    &&& kind_at(t, f) == Kind::FunctionDeclarator
    &&& field_child(t, n, Field::Declarator) matches Some(d)
    &&& d == f || (kind_at(t, d) == Kind::ReferenceDeclarator && kids_of_kind(
        t,
        d,
        Kind::FunctionDeclarator,
    ) == seq![f])
    &&& field_child(t, n, Field::Body) == Some(body)
    &&& field_child(t, f, Field::Declarator) == Some(name)
    &&& field_child(t, f, Field::Parameters) == Some(params)
}

/// Whether one of the children of a node is of that kind.
pub open spec fn has_child(t: TreeView, n: usize, k: Kind) -> bool {
    exists|i: int| child_at(t, n, i) matches Some(c) && #[trigger] child_at(t, n, i) is Some && t[c as int].kind == k
}

/// A definition in a class body is a member function: a constructor, if it is called like the class;
/// a destructor, if its name is that of one; and else a method of its name. It is static if it says
/// so, and virtual if it says so, or if it overrides. A constructor carries its initializers.
pub proof fn a_definition_in_a_class_is_a_member_function(
    t: TreeView,
    n: usize,
    f: usize,
    name: usize,
    params: usize,
    body: usize,
    class: Seq<char>,
    simple: Seq<char>,
)
    requires
        defines(t, n, f, name, params, body),
        inside(t, n, f),
    ensures
        ({
            let k = kind_at(t, name);
            let m = inline_method(t, n, class, simple);
            let called = text_at(t, name);
            &&& k == Kind::FieldIdentifier || k == Kind::DestructorName || (k == Kind::Identifier
                && called == simple) ==> {
                &&& m is Some
                &&& m->0.node == n
                &&& m->0.params == params
                &&& m->0.body == body
                &&& m->0.class == class
            }
            &&& k == Kind::FieldIdentifier ==> {
                &&& m->0.role == Role::Method
                &&& m->0.name == called
                &&& m->0.is_static == says_static(t, n)
                &&& m->0.is_virtual == (has_child(t, n, Kind::Virtual) || has_child(
                    t,
                    f,
                    Kind::VirtualSpecifier,
                ))
                &&& m->0.is_void == names_void(t, n)
                &&& m->0.inits == Seq::<(Seq<char>, usize)>::empty()
            }
            &&& k == Kind::DestructorName ==> {
                &&& m->0.role == Role::Destructor
                &&& m->0.name == "~"@ + simple
                &&& m->0.is_void
                &&& m->0.is_virtual == (has_child(t, n, Kind::Virtual) || has_child(
                    t,
                    f,
                    Kind::VirtualSpecifier,
                ))
            }
            &&& k == Kind::Identifier && called == simple ==> {
                &&& m->0.role == Role::Constructor
                &&& m->0.is_void
                &&& !m->0.is_static
                &&& m->0.inits == member_inits(t, n)
            }
            &&& k == Kind::Identifier && called != simple ==> m is None
        }),
{
    lemma_says_static(t, n);
    lemma_has_child(t, n, Kind::Virtual);
    lemma_has_child(t, f, Kind::VirtualSpecifier);
    let d = field_child(t, n, Field::Declarator)->0;
    if d != f {
        let fs = kids_of_kind(t, d, Kind::FunctionDeclarator);
        assert(fs[0] == f);
        crate::syntax::lemma_kids_where(
            t,
            d,
            0,
            |v: crate::syntax::NodeView| v.kind == Kind::FunctionDeclarator,
        );
        assert(inside(t, d, fs[0]));
    }
    assert(reference_inner(t, d) == f);
}

proof fn lemma_has_child_from(t: TreeView, n: usize, k: Kind, i: int)
    requires
        0 <= i,
    ensures
        crate::syntax::kids_where(t, n, i, |v: crate::syntax::NodeView| v.kind == k).len() > 0
            <==> exists|j: int|
            i <= j && (child_at(t, n, j) matches Some(c) && #[trigger] child_at(t, n, j) is Some
                && t[c as int].kind == k),
    decreases kids(t, n).len() - i,
{
    if i < kids(t, n).len() {
        lemma_has_child_from(t, n, k, i + 1);
        let here = child_at(t, n, i) matches Some(c) && t[c as int].kind == k;
        if here {
            assert(child_at(t, n, i) is Some);
        }
        let any = exists|j: int|
            i <= j && (child_at(t, n, j) matches Some(c) && #[trigger] child_at(t, n, j) is Some
                && t[c as int].kind == k);
        let later = exists|j: int|
            i + 1 <= j && (child_at(t, n, j) matches Some(c) && #[trigger] child_at(t, n, j) is Some
                && t[c as int].kind == k);
        assert(any <==> here || later);
    }
}

proof fn lemma_has_child(t: TreeView, n: usize, k: Kind)
    ensures
        kids_of_kind(t, n, k).len() > 0 <==> has_child(t, n, k),
{
    lemma_has_child_from(t, n, k, 0);
    if has_child(t, n, k) {
        let i = choose|i: int|
            child_at(t, n, i) matches Some(c) && #[trigger] child_at(t, n, i) is Some && t[c as int].kind == k;
        assert(0 <= i);
    }
}

/// A definition outside of the body of its class, which is known, is a member function: a constructor
/// if it is called like the class, and then it carries its initializers, and else a method.
pub proof fn a_definition_outside_of_its_class_is_a_member_function(
    t: TreeView,
    n: usize,
    f: usize,
    q: usize,
    params: usize,
    body: usize,
    scope: usize,
    name: usize,
    cs: ClassesView,
)
    requires
        defines(t, n, f, q, params, body),
        inside(t, n, f),
        kind_at(t, q) == Kind::QualifiedIdentifier,
        field_child(t, q, Field::Scope) == Some(scope),
        field_child(t, q, Field::Name) == Some(name),
        kind_at(t, scope) == Kind::NamespaceIdentifier,
        kind_at(t, name) == Kind::Identifier,
        kind_at(t, params) == Kind::ParameterList,
        kind_at(t, body) == Kind::CompoundStatement,
        class_at(cs, text_at(t, scope)) is Some,
    ensures
        ({
            let m = outer_method(t, n, cs);
            let is_ctor = text_at(t, name) == text_at(t, scope);
            &&& m is Some
            &&& m->0.node == n
            &&& m->0.params == params
            &&& m->0.body == body
            &&& m->0.class == text_at(t, scope)
            &&& m->0.name == text_at(t, name)
            &&& m->0.is_static == false
            &&& is_ctor ==> {
                &&& m->0.role == Role::Constructor
                &&& m->0.is_void
                &&& m->0.inits == member_inits(t, n)
            }
            &&& !is_ctor ==> {
                &&& m->0.role == Role::Method
                &&& m->0.is_void == names_void(t, n)
                &&& m->0.inits == Seq::<(Seq<char>, usize)>::empty()
            }
        }),
{
    let d = field_child(t, n, Field::Declarator)->0;
    if d != f {
        let fs = kids_of_kind(t, d, Kind::FunctionDeclarator);
        assert(fs[0] == f);
        crate::syntax::lemma_kids_where(
            t,
            d,
            0,
            |v: crate::syntax::NodeView| v.kind == Kind::FunctionDeclarator,
        );
        assert(inside(t, d, fs[0]));
    }
    assert(reference_inner(t, d) == f);
}

proof fn lemma_outer_methods(
    t: TreeView,
    i: int,
    cs: ClassesView,
    methods: Seq<MethodView>,
    n: usize,
)
    requires
        0 <= i,
    ensures
        methods.is_prefix_of(outer_methods(t, i, cs, methods)),
        i <= n < t.len() && outer_method(t, n, cs) is Some ==> outer_methods(
            t,
            i,
            cs,
            methods,
        ).contains(outer_method(t, n, cs)->0),
    decreases t.len() - i,
{
    if i < t.len() && i <= usize::MAX {
        let more = match outer_method(t, i as usize, cs) {
            Some(m) => methods.push(m),
            None => methods,
        };
        lemma_outer_methods(t, i + 1, cs, more, n);
        if i == n && outer_method(t, n, cs) is Some {
            let all = outer_methods(t, i, cs, methods);
            assert(more[methods.len() as int] == outer_method(t, n, cs)->0);
            assert(all[methods.len() as int] == more[methods.len() as int]);
        }
    }
}

/// Every member function that a unit defines outside of the body of its class is found.
pub proof fn a_member_function_outside_of_its_class_is_found(t: TreeView, n: usize)
    requires
        n < t.len(),
    ensures
        outer_method(t, n, flattened(classes_from(t, 0, Seq::empty(), Seq::empty()).0)) matches Some(
            m,
        ) ==> class_model(t).methods.contains(m),
{
    let found = classes_from(t, 0, Seq::empty(), Seq::empty());
    let flat = flattened(found.0);
    lemma_outer_methods(t, 0, flat, Seq::empty(), n);
    let outer = outer_methods(t, 0, flat, Seq::empty());
    if let Some(m) = outer_method(t, n, flat) {
        let j = choose|j: int| 0 <= j < outer.len() && outer[j] == m;
        assert(class_model(t).methods[found.1.len() + j] == m);
    }
}

// Definitions

pub(crate) proof fn lemma_method_defs(
    t: TreeView,
    methods: Seq<MethodView>,
    ov: crate::classes::OverloadsView,
    i: int,
    defs: Seq<DefView>,
)
    requires
        0 <= i <= methods.len(),
    ensures
        ({
            let r = method_defs(t, methods, ov, i, defs);
            &&& r.len() == defs.len() + methods.len() - i
            &&& defs.is_prefix_of(r)
            &&& forall|j: int|
                i <= j < methods.len() ==> r[defs.len() + j - i] == method_def(
                    t,
                    #[trigger] methods[j],
                    ov,
                )
        }),
    decreases methods.len() - i,
{
    if i < methods.len() {
        let more = defs.push(method_def(t, methods[i], ov));
        lemma_method_defs(t, methods, ov, i + 1, more);
        let r = method_defs(t, methods, ov, i, defs);
        assert(r[defs.len() as int] == more[defs.len() as int]);
    }
}

pub(crate) proof fn lemma_namespaced_defs(
    t: TreeView,
    ov: crate::classes::OverloadsView,
    n: int,
    defs: Seq<DefView>,
)
    requires
        0 <= n,
    ensures
        defs.is_prefix_of(namespaced_defs(t, ov, n, defs)),
    decreases t.len() - n,
{
    if n < t.len() && n <= usize::MAX {
        let more = match crate::discovery::namespaced(t, n as usize) {
            Some(f) => defs.push(crate::cpp::namespaced_def(t, f, ov)),
            None => defs,
        };
        lemma_namespaced_defs(t, ov, n + 1, more);
    }
}

pub(crate) proof fn lemma_free_defs(
    t: TreeView,
    ov: crate::classes::OverloadsView,
    n: int,
    defs: Seq<DefView>,
)
    requires
        0 <= n,
    ensures
        defs.is_prefix_of(free_defs(t, ov, n, defs)),
    decreases t.len() - n,
{
    if n < t.len() && n <= usize::MAX {
        let more = match crate::cpp::free_def(t, n as usize, ov) {
            Some(d) => defs.push(d),
            None => defs,
        };
        lemma_free_defs(t, ov, n + 1, more);
    }
}

/// Every member function that is found is lowered, with the members that it initializes; it has a
/// receiver unless it is static, and returns a value unless it is `void`.
pub proof fn every_member_function_is_lowered(t: TreeView, m: MethodView)
    requires
        class_model(t).methods.contains(m),
    ensures
        exists|i: int|
            {
                &&& 0 <= i < cpp_definitions(t).len()
                &&& (#[trigger] cpp_definitions(t)[i]).node == m.node
                &&& cpp_definitions(t)[i].params == m.params
                &&& cpp_definitions(t)[i].body == m.body
                &&& cpp_definitions(t)[i].inits == m.inits
                &&& cpp_definitions(t)[i].class == Some((m.class, !m.is_static))
                &&& cpp_definitions(t)[i].arity == (if m.is_void {
                    0usize
                } else {
                    1
                })
            },
{
    let ov = crate::discovery::overloads_from(t, 0, Seq::empty());
    let methods = class_model(t).methods;
    lemma_method_defs(t, methods, ov, 0, Seq::empty());
    let a = method_defs(t, methods, ov, 0, Seq::empty());
    lemma_namespaced_defs(t, ov, 0, a);
    let b = namespaced_defs(t, ov, 0, a);
    lemma_free_defs(t, ov, 0, b);
    let c = cpp_definitions(t);
    let j = choose|j: int| 0 <= j < methods.len() && methods[j] == m;
    assert(a[j] == method_def(t, methods[j], ov));
    assert(b[j] == a[j]);
    assert(c[j] == b[j]);
}

// Nothing else

/// A method returns its receiver if it is declared to return a reference, is not static, and there is a
/// `return *this` in it; a constructor and a destructor do not.
pub proof fn a_method_returns_its_receiver_if_it_says_so(
    t: TreeView,
    n: usize,
    d: usize,
    body: usize,
    class: Seq<char>,
    simple: Seq<char>,
    cs: ClassesView,
)
    requires
        n < t.len(),
        field_child(t, n, Field::Declarator) == Some(d),
        field_child(t, n, Field::Body) == Some(body),
    ensures
        inline_method(t, n, class, simple) matches Some(m) ==> {
            &&& m.role == Role::Method ==> m.returns_self == (!says_static(t, n) && kind_at(t, d)
                == Kind::ReferenceDeclarator && yields_this(t, body))
            &&& m.role != Role::Method ==> !m.returns_self && !m.is_static
            &&& m.role != Role::Constructor ==> m.inits.len() == 0
            &&& m.role == Role::Constructor ==> !m.is_virtual && m.name == class
        },
        outer_method(t, n, cs) matches Some(m) ==> {
            &&& m.role == Role::Method ==> m.returns_self == (kind_at(t, d)
                == Kind::ReferenceDeclarator && yields_this(t, body))
            &&& m.role != Role::Method ==> !m.returns_self
            &&& !m.is_static
            &&& !m.is_virtual
        },
{
    lemma_says_static(t, n);
}

/// What is known of a class tells of a member function, and of nothing that it is not.
pub proof fn a_member_function_adds_only_itself(info: ClassView, m: MethodView)
    ensures
        ({
            let r = with_method(info, m);
            &&& r.bases == info.bases
            &&& r.members == info.members
            &&& r.static_members == info.static_members
            &&& m.role == Role::Destructor ==> {
                &&& r.has_dtor
                &&& r.dtor_virtual <==> info.dtor_virtual || m.is_virtual
                &&& r.has_ctor == info.has_ctor
            }
            &&& m.role == Role::Constructor ==> {
                &&& r.has_ctor
                &&& r.has_dtor == info.has_dtor
                &&& r.dtor_virtual == info.dtor_virtual
            }
            &&& m.role != Role::Method || m.is_static ==> {
                &&& r.methods == info.methods
                &&& r.returns_self == info.returns_self
                &&& r.virtual_methods == info.virtual_methods
            }
            &&& m.role == Role::Method ==> {
                &&& r.has_ctor == info.has_ctor
                &&& r.has_dtor == info.has_dtor
                &&& r.dtor_virtual == info.dtor_virtual
            }
            &&& m.role == Role::Method && !m.is_static ==> {
                &&& r.methods == info.methods.insert(m.name)
                &&& m.returns_self ==> r.returns_self == info.returns_self.insert(m.name)
                &&& !m.returns_self ==> r.returns_self == info.returns_self
                &&& m.is_virtual ==> r.virtual_methods == info.virtual_methods.insert(m.name)
                &&& !m.is_virtual ==> r.virtual_methods == info.virtual_methods
            }
        }),
{
}

/// A class begins with its bases, and nothing else is known of it.
pub proof fn a_class_begins_with_its_bases(bases: Seq<Seq<char>>, x: Seq<char>)
    ensures
        ({
            let r = ClassView::derived_from(bases);
            &&& r.bases == bases
            &&& !r.members.contains(x)
            &&& !r.static_members.contains(x)
            &&& !r.methods.contains(x)
            &&& !r.returns_self.contains(x)
            &&& !r.virtual_methods.contains(x)
            &&& !r.has_ctor
            &&& !r.has_dtor
            &&& !r.dtor_virtual
        }),
{
}

/// What a class inherits are the members of the classes that it inherits from, and nothing else.
pub proof fn only_members_are_inherited(cs: ClassesView, info: ClassView, x: Seq<char>)
    ensures
        ({
            let r = with_inherited(cs, info);
            &&& r.members.contains(x) <==> info.members.contains(x) || exists|c: Seq<char>|
                #[trigger] ancestors(cs, info.bases).contains(c) && (class_at(cs, c) matches Some(a)
                    && a.members.contains(x))
            &&& r == ClassView { members: r.members, ..info }
        }),
{
}

/// A child of a class body that is neither the declaration of members nor the definition of a function
/// says nothing of the class, nor does a definition of no member function.
pub proof fn other_parts_of_a_body_say_nothing(
    t: TreeView,
    body: usize,
    i: int,
    class: Seq<char>,
    simple: Seq<char>,
    info: ClassView,
    methods: Seq<MethodView>,
    c: usize,
)
    requires
        0 <= i < kids(t, body).len(),
        child_at(t, body, i) == Some(c),
        kind_at(t, c) != Kind::FieldDeclaration,
        kind_at(t, c) == Kind::FunctionDefinition ==> inline_method(t, c, class, simple) is None,
    ensures
        class_body(t, body, i, class, simple, info, methods) == class_body(
            t,
            body,
            i + 1,
            class,
            simple,
            info,
            methods,
        ),
        class_body(t, body, kids(t, body).len() as int, class, simple, info, methods) == (
            info,
            methods,
        ),
{
}

/// A class is known as a subclass of every class that it names as a base.
pub proof fn a_class_is_known_below_its_bases(
    t: TreeView,
    n: usize,
    name: usize,
    body: usize,
    base: Seq<char>,
)
    requires
        n < t.len(),
        kind_at(t, n) == Kind::StructSpecifier || kind_at(t, n) == Kind::ClassSpecifier,
        field_child(t, n, Field::Name) == Some(name),
        field_child(t, n, Field::Body) == Some(body),
        kind_at(t, name) == Kind::TypeIdentifier,
        kind_at(t, body) == Kind::FieldDeclarationList,
        none_later(t, n + 1, class_called(t, (name, body))),
        bases_of(t, n).contains(base),
    ensures
        leads_to(class_model(t).subclasses, base).contains(class_called(t, (name, body))),
{
    let class = class_called(t, (name, body));
    let found = classes_from(t, 0, Seq::empty(), Seq::empty());
    lemma_classes_found(t, 0, Seq::empty(), Seq::empty(), n, name, body);
    let own = class_at(found.0, class)->0;
    assert(as_written(t, n, name, body, own, found.1));
    lemma_flattened(found.0, class);
    let flat = flattened(found.0);
    crate::classes::a_class_is_found_by_its_name(flat, class);
    let i = class_from(flat, 0, class);
    assert(flat[i].0 == class);
    assert(flat[i].1.bases.contains(base));
    crate::classes::subclasses_name_their_base(flat, base, class);
}

} // verus!
