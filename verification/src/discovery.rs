//! What the syntax of a C++ unit says about its classes, their methods, and its namespaces.

use vstd::prelude::*;
use crate::classes::{class_at, flattened, qualified, qualified_name, simple_class_name, simple_name, subclass_graph, with_class, build_subclasses, flatten_inherited_members, ClassInfo, ClassView, Classes, ClassesView, Overload, OverloadsView};
use crate::collections::views;
use crate::function::{is_void, spells_void};
use crate::graph::{Graph, GraphView};
use crate::kinds::{Field, Kind};
use crate::shapes::{has_static_specifier, is_static, kind_at, text_at};
use crate::syntax::{child_at, field_child, field_children, first_of, inside, kids, kids_of_kind, named_child, only_inside, rest, SyntaxTree, TreeView};
use crate::text::{joined, same};

verus! {

broadcast use crate::collections::group_views;

// Declarators

/// The function declarator that a reference declarator wraps; any other declarator is itself.
pub open spec fn reference_inner(t: TreeView, n: usize) -> usize {
    if kind_at(t, n) == Kind::ReferenceDeclarator {
        match only_inside(t, n, first_of(kids_of_kind(t, n, Kind::FunctionDeclarator))) {
            Some(c) => c,
            None => n,
        }
    } else {
        n
    }
}

/// The function declarator of a function that returns a reference; any other declarator is itself.
pub fn unwrap_reference_declarator(tree: &SyntaxTree, n: usize) -> (c: usize)
    requires
        n < tree@.len(),
    ensures
        c == reference_inner(tree@, n),
        n <= c < tree@.len(),
{
    if tree.kind(n) == Kind::ReferenceDeclarator {
        let v = tree.kids_of_kind(n, Kind::FunctionDeclarator);
        if v.len() > 0 {
            return v[0];
        }
    }
    n
}

/// The data member that a member declarator declares, if it declares one.
pub open spec fn data_member(t: TreeView, n: usize) -> Option<usize>
    decreases rest(t, n),
{
    let k = kind_at(t, n);
    if k == Kind::FieldIdentifier {
        Some(n)
    } else if k == Kind::PointerDeclarator || k == Kind::ArrayDeclarator || k
        == Kind::ParenthesizedDeclarator {
        match field_child(t, n, Field::Declarator) {
            Some(c) => data_member(t, c),
            None => None,
        }
    } else {
        None
    }
}

/// The data member that a member declarator declares: the name inside its pointers and arrays.
pub fn member_name(tree: &SyntaxTree, decl: usize) -> (m: Option<usize>)
    requires
        decl < tree@.len(),
    ensures
        m == data_member(tree@, decl),
        m matches Some(c) ==> c < tree@.len(),
    decreases rest(tree@, decl),
{
    let k = tree.kind(decl);
    if k == Kind::FieldIdentifier {
        Some(decl)
    } else if k == Kind::PointerDeclarator || k == Kind::ArrayDeclarator || k
        == Kind::ParenthesizedDeclarator {
        match tree.field(decl, Field::Declarator) {
            Some(c) => member_name(tree, c),
            None => None,
        }
    } else {
        None
    }
}

/// How many parameters a parameter list declares: `(void)` declares none.
pub open spec fn param_count(t: TreeView, params: usize) -> usize {
    let ps = kids_of_kind(t, params, Kind::ParameterDeclaration);
    if ps.len() == 1 && field_child(t, ps[0], Field::Declarator) is None && names_void(t, ps[0]) {
        0
    } else {
        ps.len() as usize
    }
}

/// Whether the type of a declaration is spelled `void`.
pub open spec fn names_void(t: TreeView, n: usize) -> bool {
    field_child(t, n, Field::Type) matches Some(ty) && is_void(text_at(t, ty))
}

/// Whether the type of a declaration is spelled `void`.
pub fn is_void_type(tree: &SyntaxTree, n: usize) -> (b: bool)
    requires
        n < tree@.len(),
    ensures
        b == names_void(tree@, n),
{
    match tree.field(n, Field::Type) {
        Some(ty) => spells_void(tree.text(ty)),
        None => false,
    }
}

/// How many parameters a parameter list declares.
pub fn param_arity(tree: &SyntaxTree, params: usize) -> (a: usize)
    requires
        params < tree@.len(),
    ensures
        a == param_count(tree@, params),
{
    let ps = tree.kids_of_kind(params, Kind::ParameterDeclaration);
    if ps.len() == 1 && tree.field(ps[0], Field::Declarator).is_none() && is_void_type(
        tree,
        ps[0],
    ) {
        0
    } else {
        ps.len()
    }
}

// Classes

/// The names in the base clauses from number `i` on, after `bases`.
pub open spec fn bases_from(
    t: TreeView,
    clauses: Seq<usize>,
    i: int,
    bases: Seq<Seq<char>>,
) -> Seq<Seq<char>>
    decreases clauses.len() - i,
{
    if i < 0 || i >= clauses.len() {
        bases
    } else {
        bases_from(
            t,
            clauses,
            i + 1,
            bases + texts(t, kids_of_kind(t, clauses[i], Kind::TypeIdentifier)),
        )
    }
}

/// The texts of some nodes.
pub open spec fn texts(t: TreeView, nodes: Seq<usize>) -> Seq<Seq<char>> {
    Seq::new(nodes.len(), |i: int| text_at(t, nodes[i]))
}

/// The classes that a class names as its bases.
pub open spec fn bases_of(t: TreeView, n: usize) -> Seq<Seq<char>> {
    bases_from(t, kids_of_kind(t, n, Kind::BaseClassClause), 0, Seq::empty())
}

/// The classes that a class names as its bases, in order. A qualified name is not taken in.
pub fn base_class_names(tree: &SyntaxTree, specifier: usize) -> (bases: Vec<String>)
    requires
        specifier < tree@.len(),
    ensures
        views(bases@) == bases_of(tree@, specifier),
{
    let ghost t = tree@;
    let clauses = tree.kids_of_kind(specifier, Kind::BaseClassClause);
    let mut bases: Vec<String> = Vec::new();
    assert(views(bases@) =~= Seq::<Seq<char>>::empty());
    let mut i: usize = 0;
    while i < clauses.len()
        invariant
            i <= clauses@.len(),
            t == tree@,
            forall|j: int|
                0 <= j < clauses@.len() ==> inside(t, specifier, #[trigger] clauses@[j]),
            bases_from(t, clauses@, i as int, views(bases@)) == bases_from(
                t,
                clauses@,
                0,
                Seq::empty(),
            ),
        decreases clauses@.len() - i,
    {
        let names = tree.kids_of_kind(clauses[i], Kind::TypeIdentifier);
        let ghost before = views(bases@);
        let ghost tv = texts(t, names@);
        let mut k: usize = 0;
        assert(views(bases@) =~= before + tv.take(0));
        while k < names.len()
            invariant
                k <= names@.len(),
                t == tree@,
                tv == texts(t, names@),
                forall|j: int|
                    0 <= j < names@.len() ==> inside(t, clauses@[i as int], #[trigger] names@[j]),
                views(bases@) == before + tv.take(k as int),
            decreases names@.len() - k,
        {
            bases.push(String::from_str(tree.text(names[k])));
            k = k + 1;
            assert(views(bases@) =~= before + tv.take(k as int));
        }
        assert(tv.take(k as int) =~= tv);
        i = i + 1;
    }
    bases
}

/// Whether node `n` is a `return *this`.
pub open spec fn returns_this(t: TreeView, n: usize) -> bool {
    &&& kind_at(t, n) == Kind::ReturnStatement
    &&& named_child(t, n, 0) matches Some(v)
    &&& kind_at(t, v) == Kind::PointerExpression
    &&& field_child(t, v, Field::Argument) matches Some(a)
    &&& kind_at(t, a) == Kind::This
}

/// Whether there is a `return *this` at `n` or below it.
pub open spec fn yields_this(t: TreeView, n: usize) -> bool
    decreases rest(t, n), 1nat, 0int,
{
    returns_this(t, n) || yields_this_below(t, n, 0)
}

/// Whether there is a `return *this` below a child of `n` from number `i` on.
pub open spec fn yields_this_below(t: TreeView, n: usize, i: int) -> bool
    decreases rest(t, n), 0nat, kids(t, n).len() - i,
{
    if i < 0 || i >= kids(t, n).len() {
        false
    } else {
        match child_at(t, n, i) {
            Some(c) => yields_this(t, c) || yields_this_below(t, n, i + 1),
            None => yields_this_below(t, n, i + 1),
        }
    }
}

/// Whether a body returns the receiver: whether there is a `return *this` in it.
pub fn body_returns_deref_this(tree: &SyntaxTree, n: usize) -> (b: bool)
    requires
        n < tree@.len(),
    ensures
        b == yields_this(tree@, n),
    decreases rest(tree@, n),
{
    let ghost t = tree@;
    if tree.kind(n) == Kind::ReturnStatement {
        if let Some(v) = tree.named_child(n, 0) {
            if tree.kind(v) == Kind::PointerExpression {
                if let Some(a) = tree.field(v, Field::Argument) {
                    if tree.kind(a) == Kind::This {
                        return true;
                    }
                }
            }
        }
    }
    let children = tree.children(n);
    let mut i: usize = 0;
    while i < children.len()
        invariant
            i <= children@.len(),
            t == tree@,
            n < t.len(),
            children@ == kids(t, n),
            forall|j: int| 0 <= j < children@.len() ==> inside(t, n, #[trigger] children@[j]),
            yields_this(t, n) == yields_this_below(t, n, i as int),
        decreases children@.len() - i,
    {
        if body_returns_deref_this(tree, children[i]) {
            return true;
        }
        i = i + 1;
    }
    false
}

/// Whether a member function definition, with the function declarator `f`, declares a virtual
/// method: by the word in front of it, or by `override` or `final` behind it.
pub open spec fn is_virtual(t: TreeView, fdef: usize, f: usize) -> bool {
    kids_of_kind(t, fdef, Kind::Virtual).len() > 0 || kids_of_kind(
        t,
        f,
        Kind::VirtualSpecifier,
    ).len() > 0
}

/// Whether a member function definition declares a virtual method.
pub fn method_is_virtual_def(tree: &SyntaxTree, fdef: usize, f: usize) -> (b: bool)
    requires
        fdef < tree@.len(),
        f < tree@.len(),
    ensures
        b == is_virtual(tree@, fdef, f),
{
    tree.kids_of_kind(fdef, Kind::Virtual).len() > 0 || tree.kids_of_kind(
        f,
        Kind::VirtualSpecifier,
    ).len() > 0
}

/// The names of the namespaces around `n`, outermost first, each with `::` behind it.
pub open spec fn namespace_prefix(t: TreeView, n: usize) -> Seq<char>
    decreases n,
{
    if n >= t.len() {
        Seq::empty()
    } else {
        match t[n as int].parent {
            Some(p) => if p >= n {
                Seq::empty()
            } else {
                match namespace_name(t, p) {
                    Some(name) => namespace_prefix(t, p) + text_at(t, name) + "::"@,
                    None => namespace_prefix(t, p),
                }
            },
            None => Seq::empty(),
        }
    }
}

/// The node that names the namespace that `n` is, if it is one with a name.
pub open spec fn namespace_name(t: TreeView, n: usize) -> Option<usize> {
    if kind_at(t, n) == Kind::NamespaceDefinition {
        field_child(t, n, Field::Name)
    } else {
        None
    }
}

/// The names of the namespaces around `n`, outermost first, each with `::` behind it.
pub fn enclosing_namespace_prefix(tree: &SyntaxTree, n: usize) -> (s: String)
    requires
        n < tree@.len(),
    ensures
        s@ == namespace_prefix(tree@, n),
    decreases n,
{
    match tree.parent(n) {
        Some(p) => {
            let mut s = enclosing_namespace_prefix(tree, p);
            if tree.kind(p) == Kind::NamespaceDefinition {
                if let Some(name) = tree.field(p, Field::Name) {
                    s.append(tree.text(name));
                    s.append("::");
                }
            }
            s
        },
        None => {
            let s = String::new();
            assert(s@ =~= Seq::<char>::empty());
            s
        },
    }
}

/// The node that names the class that `n` is, if it is one with a name.
pub open spec fn class_name_node(t: TreeView, n: usize) -> Option<usize> {
    if kind_at(t, n) == Kind::ClassSpecifier || kind_at(t, n) == Kind::StructSpecifier {
        field_child(t, n, Field::Name)
    } else {
        None
    }
}

/// The name of the class around `n`, with its namespaces.
pub open spec fn enclosing_class(t: TreeView, n: usize) -> Option<Seq<char>>
    decreases n,
{
    if n >= t.len() {
        None
    } else {
        match t[n as int].parent {
            Some(p) => if p >= n {
                None
            } else {
                match class_name_node(t, p) {
                    Some(name) => Some(namespace_prefix(t, name) + text_at(t, name)),
                    None => enclosing_class(t, p),
                }
            },
            None => None,
        }
    }
}

/// The name of the class around `n`, with its namespaces.
pub fn enclosing_class_qualified_name(tree: &SyntaxTree, n: usize) -> (s: Option<String>)
    requires
        n < tree@.len(),
    ensures
        match s {
            Some(s) => enclosing_class(tree@, n) == Some(s@),
            None => enclosing_class(tree@, n) is None,
        },
    decreases n,
{
    match tree.parent(n) {
        Some(p) => {
            let k = tree.kind(p);
            if k == Kind::ClassSpecifier || k == Kind::StructSpecifier {
                if let Some(name) = tree.field(p, Field::Name) {
                    let mut s = enclosing_namespace_prefix(tree, name);
                    s.append(tree.text(name));
                    return Some(s);
                }
            }
            enclosing_class_qualified_name(tree, p)
        },
        None => None,
    }
}

/// Whether a definition stands in the body of a class.
pub open spec fn in_class_body(t: TreeView, n: usize) -> bool {
    t[n as int].parent matches Some(p) && kind_at(t, p) == Kind::FieldDeclarationList
}

/// Whether a definition stands in the body of a class.
pub fn is_class_member_definition(tree: &SyntaxTree, n: usize) -> (b: bool)
    requires
        n < tree@.len(),
    ensures
        b == in_class_body(tree@, n),
{
    match tree.parent(n) {
        Some(p) => tree.kind(p) == Kind::FieldDeclarationList,
        None => false,
    }
}

// Overloads

/// The name that a function definition is called by, and the number of its parameters: a
/// constructor is called `Class::Class`, a method `Class::method`, any other function by its name
/// in its namespaces. `None` for a destructor, and for a declarator that names no function.
pub open spec fn overload_of(t: TreeView, fdef: usize) -> Option<(Seq<char>, usize)> {
    match field_child(t, fdef, Field::Declarator) {
        None => None,
        Some(d) => {
            let f = reference_inner(t, d);
            match (field_child(t, f, Field::Parameters), field_child(t, f, Field::Declarator)) {
                (Some(params), Some(name)) => if kind_at(t, f) != Kind::FunctionDeclarator {
                    None
                } else {
                    match called_as(t, fdef, name) {
                        Some(base) => Some((base, param_count(t, params))),
                        None => None,
                    }
                },
                _ => None,
            }
        },
    }
}

/// The name that the function `fdef` defines is called by, where its declarator has the name `name`.
pub open spec fn called_as(t: TreeView, fdef: usize, name: usize) -> Option<Seq<char>> {
    let k = kind_at(t, name);
    if k == Kind::Identifier {
        if in_class_body(t, fdef) {
            match enclosing_class(t, fdef) {
                Some(class) => if text_at(t, name) == simple_name(class) {
                    Some(qualified(class, class))
                } else {
                    None
                },
                None => None,
            }
        } else {
            Some(namespace_prefix(t, fdef) + text_at(t, name))
        }
    } else if k == Kind::FieldIdentifier {
        match enclosing_class(t, fdef) {
            Some(class) => Some(qualified(class, text_at(t, name))),
            None => None,
        }
    } else if k == Kind::QualifiedIdentifier {
        match (field_child(t, name, Field::Scope), field_child(t, name, Field::Name)) {
            (Some(scope), Some(inner)) => Some(qualified(text_at(t, scope), text_at(t, inner))),
            _ => None,
        }
    } else {
        None
    }
}

fn callable_name(tree: &SyntaxTree, fdef: usize, name: usize) -> (s: Option<String>)
    requires
        fdef < tree@.len(),
        name < tree@.len(),
    ensures
        match s {
            Some(s) => called_as(tree@, fdef, name) == Some(s@),
            None => called_as(tree@, fdef, name) is None,
        },
{
    let k = tree.kind(name);
    if k == Kind::Identifier {
        if is_class_member_definition(tree, fdef) {
            match enclosing_class_qualified_name(tree, fdef) {
                Some(class) => {
                    let simple = simple_class_name(class.as_str());
                    if same(tree.text(name), simple.as_str()) {
                        Some(qualified_name(class.as_str(), class.as_str()))
                    } else {
                        None
                    }
                },
                None => None,
            }
        } else {
            let mut s = enclosing_namespace_prefix(tree, fdef);
            s.append(tree.text(name));
            Some(s)
        }
    } else if k == Kind::FieldIdentifier {
        match enclosing_class_qualified_name(tree, fdef) {
            Some(class) => Some(qualified_name(class.as_str(), tree.text(name))),
            None => None,
        }
    } else if k == Kind::QualifiedIdentifier {
        match tree.field(name, Field::Scope) {
            Some(scope) => match tree.field(name, Field::Name) {
                Some(inner) => Some(qualified_name(tree.text(scope), tree.text(inner))),
                None => None,
            },
            None => None,
        }
    } else {
        None
    }
}

/// The name that a function definition is called by, and the number of its parameters.
pub fn overload_base_name(tree: &SyntaxTree, fdef: usize) -> (o: Option<Overload>)
    requires
        fdef < tree@.len(),
    ensures
        match o {
            Some(o) => overload_of(tree@, fdef) == Some(o@),
            None => overload_of(tree@, fdef) is None,
        },
{
    let d = match tree.field(fdef, Field::Declarator) {
        Some(d) => d,
        None => {
            return None;
        },
    };
    let f = unwrap_reference_declarator(tree, d);
    if tree.kind(f) != Kind::FunctionDeclarator {
        return None;
    }
    let params = match tree.field(f, Field::Parameters) {
        Some(p) => p,
        None => {
            return None;
        },
    };
    let name = match tree.field(f, Field::Declarator) {
        Some(n) => n,
        None => {
            return None;
        },
    };
    match callable_name(tree, fdef, name) {
        Some(name) => Some(Overload { name, arity: param_arity(tree, params) }),
        None => None,
    }
}

/// The functions that the nodes from number `n` on define, after `ov`.
pub open spec fn overloads_from(t: TreeView, n: int, ov: OverloadsView) -> OverloadsView
    decreases t.len() - n,
{
    if n < 0 || n >= t.len() || n > usize::MAX {
        ov
    } else {
        overloads_from(
            t,
            n + 1,
            if kind_at(t, n as usize) == Kind::FunctionDefinition {
                match overload_of(t, n as usize) {
                    Some(o) => ov.push(o),
                    None => ov,
                }
            } else {
                ov
            },
        )
    }
}

/// The functions of a unit, each by the name it is called by and the number of its parameters.
pub fn discover_overloads(tree: &SyntaxTree) -> (ov: Vec<Overload>)
    ensures
        views(ov@) == overloads_from(tree@, 0, Seq::empty()),
{
    let ghost t = tree@;
    let mut ov: Vec<Overload> = Vec::new();
    assert(views(ov@) =~= Seq::<(Seq<char>, usize)>::empty());
    let len = tree.len();
    let mut n: usize = 0;
    while n < len
        invariant
            n <= len,
            len == t.len(),
            t == tree@,
            overloads_from(t, n as int, views(ov@)) == overloads_from(t, 0, Seq::empty()),
        decreases len - n,
    {
        if tree.kind(n) == Kind::FunctionDefinition {
            if let Some(o) = overload_base_name(tree, n) {
                ov.push(o);
            }
        }
        n = n + 1;
    }
    ov
}


// Methods

/// What a member function is.
#[derive(Debug, Clone, Copy, PartialEq, Eq, Structural)]
pub enum Role {
    Method,
    Constructor,
    Destructor,
}

/// A member that a constructor initializes, and the expression it is initialized with.
#[derive(Debug)]
pub struct MemberInit {
    pub member: String,
    pub value: usize,
}

impl View for MemberInit {
    type V = (Seq<char>, usize);

    open spec fn view(&self) -> (Seq<char>, usize) {
        (self.member@, self.value)
    }
}

/// The definition of a member function.
#[derive(Debug)]
pub struct Method {
    /// The definition, its parameter list and its body.
    pub node: usize,
    pub params: usize,
    pub body: usize,
    /// The class, by its qualified name.
    pub class: String,
    /// The method's name; a constructor's is that of the class.
    pub name: String,
    pub role: Role,
    pub is_void: bool,
    /// Whether its result is the receiver.
    pub returns_self: bool,
    /// Whether it has no receiver.
    pub is_static: bool,
    pub is_virtual: bool,
    /// The members that a constructor initializes before its body runs.
    pub inits: Vec<MemberInit>,
}

/// View of a [`Method`].
pub ghost struct MethodView {
    pub node: usize,
    pub params: usize,
    pub body: usize,
    pub class: Seq<char>,
    pub name: Seq<char>,
    pub role: Role,
    pub is_void: bool,
    pub returns_self: bool,
    pub is_static: bool,
    pub is_virtual: bool,
    pub inits: Seq<(Seq<char>, usize)>,
}

impl View for Method {
    type V = MethodView;

    open spec fn view(&self) -> MethodView {
        MethodView {
            node: self.node,
            params: self.params,
            body: self.body,
            class: self.class@,
            name: self.name@,
            role: self.role,
            is_void: self.is_void,
            returns_self: self.returns_self,
            is_static: self.is_static,
            is_virtual: self.is_virtual,
            inits: views(self.inits@),
        }
    }
}

/// Whether the parts of a method are nodes of the tree, and its body one of its definition.
pub open spec fn method_fits(t: TreeView, m: MethodView) -> bool {
    &&& m.node < t.len()
    &&& m.params < t.len()
    &&& inside(t, m.node, m.body)
    &&& forall|i: int| 0 <= i < m.inits.len() ==> (#[trigger] m.inits[i]).1 < t.len()
}

/// The member that an initializer names, and the first expression it is initialized with. One that
/// names a base is none.
pub open spec fn member_init(t: TreeView, n: usize) -> Option<(Seq<char>, usize)> {
    match (named_child(t, n, 0), named_child(t, n, 1)) {
        (Some(member), Some(args)) => if kind_at(t, member) == Kind::FieldIdentifier {
            match named_child(t, args, 0) {
                Some(e) => Some((text_at(t, member), e)),
                None => None,
            }
        } else {
            None
        },
        _ => None,
    }
}

/// The members that the initializers from number `i` on initialize, after `inits`.
pub open spec fn inits_in(
    t: TreeView,
    items: Seq<usize>,
    i: int,
    inits: Seq<(Seq<char>, usize)>,
) -> Seq<(Seq<char>, usize)>
    decreases items.len() - i,
{
    if i < 0 || i >= items.len() {
        inits
    } else {
        inits_in(
            t,
            items,
            i + 1,
            match member_init(t, items[i]) {
                Some(m) => inits.push(m),
                None => inits,
            },
        )
    }
}

/// The members that the initializer lists from number `i` on initialize, after `inits`.
pub open spec fn inits_from(
    t: TreeView,
    lists: Seq<usize>,
    i: int,
    inits: Seq<(Seq<char>, usize)>,
) -> Seq<(Seq<char>, usize)>
    decreases lists.len() - i,
{
    if i < 0 || i >= lists.len() {
        inits
    } else {
        inits_from(
            t,
            lists,
            i + 1,
            inits_in(t, kids_of_kind(t, lists[i], Kind::FieldInitializer), 0, inits),
        )
    }
}

/// The members that a constructor initializes before its body runs.
pub open spec fn member_inits(t: TreeView, fdef: usize) -> Seq<(Seq<char>, usize)> {
    inits_from(t, kids_of_kind(t, fdef, Kind::FieldInitializerList), 0, Seq::empty())
}

fn push_inits(tree: &SyntaxTree, list: usize, inits: &mut Vec<MemberInit>)
    requires
        list < tree@.len(),
        forall|i: int| 0 <= i < old(inits)@.len() ==> (#[trigger] old(inits)@[i]).value < tree@.len(),
    ensures
        views(final(inits)@) == inits_in(
            tree@,
            kids_of_kind(tree@, list, Kind::FieldInitializer),
            0,
            views(old(inits)@),
        ),
        forall|i: int|
            0 <= i < final(inits)@.len() ==> (#[trigger] final(inits)@[i]).value < tree@.len(),
{
    let ghost t = tree@;
    let items = tree.kids_of_kind(list, Kind::FieldInitializer);
    let mut i: usize = 0;
    while i < items.len()
        invariant
            i <= items@.len(),
            t == tree@,
            forall|j: int| 0 <= j < items@.len() ==> inside(t, list, #[trigger] items@[j]),
            forall|j: int| 0 <= j < inits@.len() ==> (#[trigger] inits@[j]).value < t.len(),
            inits_in(t, items@, i as int, views(inits@)) == inits_in(
                t,
                items@,
                0,
                views(old(inits)@),
            ),
        decreases items@.len() - i,
    {
        if let Some(member) = tree.named_child(items[i], 0) {
            if let Some(args) = tree.named_child(items[i], 1) {
                if tree.kind(member) == Kind::FieldIdentifier {
                    if let Some(value) = tree.named_child(args, 0) {
                        inits.push(
                            MemberInit { member: String::from_str(tree.text(member)), value },
                        );
                    }
                }
            }
        }
        i = i + 1;
    }
}

/// The members that a constructor initializes before its body runs, each with the first expression
/// of its initializer.
pub fn ctor_member_inits(tree: &SyntaxTree, fdef: usize) -> (inits: Vec<MemberInit>)
    requires
        fdef < tree@.len(),
    ensures
        views(inits@) == member_inits(tree@, fdef),
        forall|i: int| 0 <= i < inits@.len() ==> (#[trigger] inits@[i]).value < tree@.len(),
{
    let ghost t = tree@;
    let lists = tree.kids_of_kind(fdef, Kind::FieldInitializerList);
    let mut inits: Vec<MemberInit> = Vec::new();
    assert(views(inits@) =~= Seq::<(Seq<char>, usize)>::empty());
    let mut i: usize = 0;
    while i < lists.len()
        invariant
            i <= lists@.len(),
            t == tree@,
            forall|j: int| 0 <= j < lists@.len() ==> inside(t, fdef, #[trigger] lists@[j]),
            forall|j: int| 0 <= j < inits@.len() ==> (#[trigger] inits@[j]).value < t.len(),
            inits_from(t, lists@, i as int, views(inits@)) == inits_from(
                t,
                lists@,
                0,
                Seq::empty(),
            ),
        decreases lists@.len() - i,
    {
        push_inits(tree, lists[i], &mut inits);
        i = i + 1;
    }
    inits
}

/// The member function that the definition `n` in the body of a class defines: a method, a
/// constructor, which has the name of the class, or a destructor.
pub open spec fn inline_method(
    t: TreeView,
    n: usize,
    class: Seq<char>,
    simple: Seq<char>,
) -> Option<MethodView> {
    match (field_child(t, n, Field::Declarator), field_child(t, n, Field::Body)) {
        (Some(d), Some(body)) => {
            let f = reference_inner(t, d);
            match (field_child(t, f, Field::Declarator), field_child(t, f, Field::Parameters)) {
                (Some(name), Some(params)) => {
                    let k = kind_at(t, name);
                    let is_ctor = k == Kind::Identifier && text_at(t, name) == simple;
                    let is_dtor = k == Kind::DestructorName;
                    if kind_at(t, f) != Kind::FunctionDeclarator || !(k == Kind::FieldIdentifier
                        || is_ctor || is_dtor) {
                        None
                    } else if is_ctor {
                        Some(
                            MethodView {
                                node: n,
                                params,
                                body,
                                class,
                                name: class,
                                role: Role::Constructor,
                                is_void: true,
                                returns_self: false,
                                is_static: false,
                                is_virtual: false,
                                inits: member_inits(t, n),
                            },
                        )
                    } else if is_dtor {
                        Some(
                            MethodView {
                                node: n,
                                params,
                                body,
                                class,
                                name: "~"@ + simple,
                                role: Role::Destructor,
                                is_void: true,
                                returns_self: false,
                                is_static: false,
                                is_virtual: is_virtual(t, n, f),
                                inits: Seq::empty(),
                            },
                        )
                    } else {
                        Some(
                            MethodView {
                                node: n,
                                params,
                                body,
                                class,
                                name: text_at(t, name),
                                role: Role::Method,
                                is_void: names_void(t, n),
                                returns_self: !is_static(t, n) && kind_at(t, d)
                                    == Kind::ReferenceDeclarator && yields_this(t, body),
                                is_static: is_static(t, n),
                                is_virtual: is_virtual(t, n, f),
                                inits: Seq::empty(),
                            },
                        )
                    }
                },
                _ => None,
            }
        },
        _ => None,
    }
}

/// The member function that the definition `n` in the body of a class defines.
pub fn inline_member(tree: &SyntaxTree, n: usize, class: &str, simple: &str) -> (m: Option<Method>)
    requires
        n < tree@.len(),
    ensures
        match m {
            Some(m) => inline_method(tree@, n, class@, simple@) == Some(m@) && method_fits(
                tree@,
                m@,
            ),
            None => inline_method(tree@, n, class@, simple@) is None,
        },
{
    let d = match tree.field(n, Field::Declarator) {
        Some(d) => d,
        None => {
            return None;
        },
    };
    let body = match tree.field(n, Field::Body) {
        Some(b) => b,
        None => {
            return None;
        },
    };
    let f = unwrap_reference_declarator(tree, d);
    let name = match tree.field(f, Field::Declarator) {
        Some(c) => c,
        None => {
            return None;
        },
    };
    let params = match tree.field(f, Field::Parameters) {
        Some(p) => p,
        None => {
            return None;
        },
    };
    let k = tree.kind(name);
    let is_ctor = k == Kind::Identifier && same(tree.text(name), simple);
    let is_dtor = k == Kind::DestructorName;
    if tree.kind(f) != Kind::FunctionDeclarator || !(k == Kind::FieldIdentifier || is_ctor
        || is_dtor) {
        return None;
    }
    let none: Vec<MemberInit> = Vec::new();
    assert(views(none@) =~= Seq::<(Seq<char>, usize)>::empty());
    let m = if is_ctor {
        Method {
            node: n,
            params,
            body,
            class: String::from_str(class),
            name: String::from_str(class),
            role: Role::Constructor,
            is_void: true,
            returns_self: false,
            is_static: false,
            is_virtual: false,
            inits: ctor_member_inits(tree, n),
        }
    } else if is_dtor {
        Method {
            node: n,
            params,
            body,
            class: String::from_str(class),
            name: joined("~", simple),
            role: Role::Destructor,
            is_void: true,
            returns_self: false,
            is_static: false,
            is_virtual: method_is_virtual_def(tree, n, f),
            inits: none,
        }
    } else {
        let is_static = has_static_specifier(tree, n);
        Method {
            node: n,
            params,
            body,
            class: String::from_str(class),
            name: String::from_str(tree.text(name)),
            role: Role::Method,
            is_void: is_void_type(tree, n),
            returns_self: !is_static && tree.kind(d) == Kind::ReferenceDeclarator
                && body_returns_deref_this(tree, body),
            is_static,
            is_virtual: method_is_virtual_def(tree, n, f),
            inits: none,
        }
    };
    assert forall|i: int| 0 <= i < m@.inits.len() implies (#[trigger] m@.inits[i]).1
        < tree@.len() by {
        assert(m@.inits[i] == m.inits@[i]@);
    }
    Some(m)
}

/// The class with a member function that its body defines.
pub open spec fn with_method(info: ClassView, m: MethodView) -> ClassView {
    match m.role {
        Role::Destructor => ClassView {
            has_dtor: true,
            dtor_virtual: info.dtor_virtual || m.is_virtual,
            ..info
        },
        Role::Constructor => ClassView { has_ctor: true, ..info },
        Role::Method => if m.is_static {
            info
        } else {
            ClassView {
                methods: info.methods.insert(m.name),
                returns_self: if m.returns_self {
                    info.returns_self.insert(m.name)
                } else {
                    info.returns_self
                },
                virtual_methods: if m.is_virtual {
                    info.virtual_methods.insert(m.name)
                } else {
                    info.virtual_methods
                },
                ..info
            }
        },
    }
}

fn add_method(info: &mut ClassInfo, m: &Method)
    ensures
        final(info)@ == with_method(old(info)@, m@),
{
    match m.role {
        Role::Destructor => {
            info.has_dtor = true;
            if m.is_virtual {
                info.dtor_virtual = true;
            }
        },
        Role::Constructor => {
            info.has_ctor = true;
        },
        Role::Method => {
            if !m.is_static {
                info.methods.insert(m.name.as_str());
                if m.returns_self {
                    info.returns_self.insert(m.name.as_str());
                }
                if m.is_virtual {
                    info.virtual_methods.insert(m.name.as_str());
                }
            }
        },
    }
}

/// The class with the data members that the declarators from number `i` on declare.
pub open spec fn with_members(
    t: TreeView,
    decls: Seq<usize>,
    i: int,
    is_static: bool,
    info: ClassView,
) -> ClassView
    decreases decls.len() - i,
{
    if i < 0 || i >= decls.len() {
        info
    } else {
        with_members(
            t,
            decls,
            i + 1,
            is_static,
            match data_member(t, decls[i]) {
                Some(m) => ClassView {
                    members: info.members.insert(text_at(t, m)),
                    static_members: if is_static {
                        info.static_members.insert(text_at(t, m))
                    } else {
                        info.static_members
                    },
                    ..info
                },
                None => info,
            },
        )
    }
}

fn add_members(tree: &SyntaxTree, decl: usize, info: &mut ClassInfo)
    requires
        decl < tree@.len(),
    ensures
        final(info)@ == with_members(
            tree@,
            field_children(tree@, decl, Field::Declarator),
            0,
            is_static(tree@, decl),
            old(info)@,
        ),
{
    let ghost t = tree@;
    let is_static = has_static_specifier(tree, decl);
    let decls = tree.field_children(decl, Field::Declarator);
    let mut i: usize = 0;
    while i < decls.len()
        invariant
            i <= decls@.len(),
            t == tree@,
            forall|j: int| 0 <= j < decls@.len() ==> inside(t, decl, #[trigger] decls@[j]),
            with_members(t, decls@, i as int, is_static, info@) == with_members(
                t,
                decls@,
                0,
                is_static,
                old(info)@,
            ),
        decreases decls@.len() - i,
    {
        if let Some(m) = member_name(tree, decls[i]) {
            info.members.insert(tree.text(m));
            if is_static {
                info.static_members.insert(tree.text(m));
            }
        }
        i = i + 1;
    }
}

/// What the children of the class body `body`, from number `i` on, add to what is known of the class
/// and to the methods found.
pub open spec fn class_body(
    t: TreeView,
    body: usize,
    i: int,
    class: Seq<char>,
    simple: Seq<char>,
    info: ClassView,
    methods: Seq<MethodView>,
) -> (ClassView, Seq<MethodView>)
    decreases kids(t, body).len() - i,
{
    if i < 0 || i >= kids(t, body).len() {
        (info, methods)
    } else {
        match child_at(t, body, i) {
            None => class_body(t, body, i + 1, class, simple, info, methods),
            Some(c) => if kind_at(t, c) == Kind::FieldDeclaration {
                let now = with_members(
                    t,
                    field_children(t, c, Field::Declarator),
                    0,
                    is_static(t, c),
                    info,
                );
                class_body(t, body, i + 1, class, simple, now, methods)
            } else if kind_at(t, c) == Kind::FunctionDefinition {
                match inline_method(t, c, class, simple) {
                    Some(m) => class_body(
                        t,
                        body,
                        i + 1,
                        class,
                        simple,
                        with_method(info, m),
                        methods.push(m),
                    ),
                    None => class_body(t, body, i + 1, class, simple, info, methods),
                }
            } else {
                class_body(t, body, i + 1, class, simple, info, methods)
            },
        }
    }
}

/// Whether the methods fit the tree.
pub open spec fn methods_fit(t: TreeView, methods: Seq<MethodView>) -> bool {
    forall|i: int| 0 <= i < methods.len() ==> method_fits(t, #[trigger] methods[i])
}

fn read_class_body(
    tree: &SyntaxTree,
    body: usize,
    class: &str,
    simple: &str,
    info: &mut ClassInfo,
    methods: &mut Vec<Method>,
)
    requires
        body < tree@.len(),
        methods_fit(tree@, views(old(methods)@)),
    ensures
        class_body(tree@, body, 0, class@, simple@, old(info)@, views(old(methods)@)) == (
            final(info)@,
            views(final(methods)@),
        ),
        methods_fit(tree@, views(final(methods)@)),
{
    let ghost t = tree@;
    let children = tree.children(body);
    let mut i: usize = 0;
    while i < children.len()
        invariant
            i <= children@.len(),
            t == tree@,
            children@ == kids(t, body),
            forall|j: int| 0 <= j < children@.len() ==> inside(t, body, #[trigger] children@[j]),
            methods_fit(t, views(methods@)),
            class_body(t, body, i as int, class@, simple@, info@, views(methods@)) == class_body(
                t,
                body,
                0,
                class@,
                simple@,
                old(info)@,
                views(old(methods)@),
            ),
        decreases children@.len() - i,
    {
        let c = children[i];
        let k = tree.kind(c);
        if k == Kind::FieldDeclaration {
            add_members(tree, c, info);
        } else if k == Kind::FunctionDefinition {
            if let Some(m) = inline_member(tree, c, class, simple) {
                add_method(info, &m);
                methods.push(m);
            }
        }
        i = i + 1;
    }
}

/// The name and the body of the class that `n` defines, if it defines one.
pub open spec fn class_parts(t: TreeView, n: usize) -> Option<(usize, usize)> {
    if kind_at(t, n) == Kind::StructSpecifier || kind_at(t, n) == Kind::ClassSpecifier {
        match (field_child(t, n, Field::Name), field_child(t, n, Field::Body)) {
            (Some(name), Some(body)) => if kind_at(t, name) == Kind::TypeIdentifier && kind_at(
                t,
                body,
            ) == Kind::FieldDeclarationList {
                Some((name, body))
            } else {
                None
            },
            _ => None,
        }
    } else {
        None
    }
}

/// What the nodes from number `n` on add to the classes and methods found.
pub open spec fn classes_from(
    t: TreeView,
    n: int,
    cs: ClassesView,
    methods: Seq<MethodView>,
) -> (ClassesView, Seq<MethodView>)
    decreases t.len() - n,
{
    if n < 0 || n >= t.len() || n > usize::MAX {
        (cs, methods)
    } else {
        match class_parts(t, n as usize) {
            None => classes_from(t, n + 1, cs, methods),
            Some(p) => {
                let simple = text_at(t, p.0);
                let class = namespace_prefix(t, p.0) + simple;
                let r = class_body(
                    t,
                    p.1,
                    0,
                    class,
                    simple,
                    ClassView::derived_from(bases_of(t, n as usize)),
                    methods,
                );
                classes_from(t, n + 1, with_class(cs, class, r.0), r.1)
            },
        }
    }
}

fn collect_classes(tree: &SyntaxTree, classes: &mut Classes, methods: &mut Vec<Method>)
    requires
        methods_fit(tree@, views(old(methods)@)),
    ensures
        classes_from(tree@, 0, old(classes)@, views(old(methods)@)) == (
            final(classes)@,
            views(final(methods)@),
        ),
        methods_fit(tree@, views(final(methods)@)),
{
    let ghost t = tree@;
    let len = tree.len();
    let mut n: usize = 0;
    while n < len
        invariant
            n <= len,
            len == t.len(),
            t == tree@,
            methods_fit(t, views(methods@)),
            classes_from(t, n as int, classes@, views(methods@)) == classes_from(
                t,
                0,
                old(classes)@,
                views(old(methods)@),
            ),
        decreases len - n,
    {
        let k = tree.kind(n);
        if k == Kind::StructSpecifier || k == Kind::ClassSpecifier {
            if let Some(name) = tree.field(n, Field::Name) {
                if let Some(body) = tree.field(n, Field::Body) {
                    if tree.kind(name) == Kind::TypeIdentifier && tree.kind(body)
                        == Kind::FieldDeclarationList {
                        assert(class_parts(t, n) == Some((name, body)));
                        let simple = tree.text(name);
                        let mut class = enclosing_namespace_prefix(tree, name);
                        class.append(simple);
                        let mut info = ClassInfo::derived_from(base_class_names(tree, n));
                        read_class_body(tree, body, class.as_str(), simple, &mut info, methods);
                        classes.insert(class, info);
                    }
                }
            }
        }
        n = n + 1;
    }
}

/// The member function that the definition `n` defines outside of the body of its class. Only that
/// of a class that is known is one.
pub open spec fn outer_method(t: TreeView, n: usize, cs: ClassesView) -> Option<MethodView> {
    match (field_child(t, n, Field::Declarator), field_child(t, n, Field::Body)) {
        (Some(d), Some(body)) => {
            let f = reference_inner(t, d);
            match (field_child(t, f, Field::Declarator), field_child(t, f, Field::Parameters)) {
                (Some(q), Some(params)) => match (
                    field_child(t, q, Field::Scope),
                    field_child(t, q, Field::Name),
                ) {
                    (Some(scope), Some(name)) => if kind_at(t, n) == Kind::FunctionDefinition
                        && kind_at(t, f) == Kind::FunctionDeclarator && kind_at(t, q)
                        == Kind::QualifiedIdentifier && kind_at(t, scope)
                        == Kind::NamespaceIdentifier && kind_at(t, name) == Kind::Identifier
                        && kind_at(t, params) == Kind::ParameterList && kind_at(t, body)
                        == Kind::CompoundStatement && class_at(cs, text_at(t, scope)) is Some {
                        let is_ctor = text_at(t, name) == text_at(t, scope);
                        Some(
                            MethodView {
                                node: n,
                                params,
                                body,
                                class: text_at(t, scope),
                                name: text_at(t, name),
                                role: if is_ctor {
                                    Role::Constructor
                                } else {
                                    Role::Method
                                },
                                is_void: is_ctor || names_void(t, n),
                                returns_self: !is_ctor && kind_at(t, d)
                                    == Kind::ReferenceDeclarator && yields_this(t, body),
                                is_static: false,
                                is_virtual: false,
                                inits: if is_ctor {
                                    member_inits(t, n)
                                } else {
                                    Seq::empty()
                                },
                            },
                        )
                    } else {
                        None
                    },
                    _ => None,
                },
                _ => None,
            }
        },
        _ => None,
    }
}

/// The member function that the definition `n` defines outside of the body of its class.
pub fn out_of_line_member(tree: &SyntaxTree, n: usize, classes: &Classes) -> (m: Option<Method>)
    requires
        n < tree@.len(),
    ensures
        match m {
            Some(m) => outer_method(tree@, n, classes@) == Some(m@) && method_fits(tree@, m@),
            None => outer_method(tree@, n, classes@) is None,
        },
{
    if tree.kind(n) != Kind::FunctionDefinition {
        return None;
    }
    let d = match tree.field(n, Field::Declarator) {
        Some(d) => d,
        None => {
            return None;
        },
    };
    let body = match tree.field(n, Field::Body) {
        Some(b) => b,
        None => {
            return None;
        },
    };
    let f = unwrap_reference_declarator(tree, d);
    let q = match tree.field(f, Field::Declarator) {
        Some(c) => c,
        None => {
            return None;
        },
    };
    let params = match tree.field(f, Field::Parameters) {
        Some(p) => p,
        None => {
            return None;
        },
    };
    let scope = match tree.field(q, Field::Scope) {
        Some(c) => c,
        None => {
            return None;
        },
    };
    let name = match tree.field(q, Field::Name) {
        Some(c) => c,
        None => {
            return None;
        },
    };
    if tree.kind(f) != Kind::FunctionDeclarator || tree.kind(q) != Kind::QualifiedIdentifier
        || tree.kind(scope) != Kind::NamespaceIdentifier || tree.kind(name) != Kind::Identifier
        || tree.kind(params) != Kind::ParameterList || tree.kind(body)
        != Kind::CompoundStatement || classes.get(tree.text(scope)).is_none() {
        return None;
    }
    let is_ctor = same(tree.text(name), tree.text(scope));
    let inits: Vec<MemberInit> = if is_ctor {
        ctor_member_inits(tree, n)
    } else {
        Vec::new()
    };
    assert(!is_ctor ==> views(inits@) =~= Seq::<(Seq<char>, usize)>::empty());
    let role = if is_ctor {
        Role::Constructor
    } else {
        Role::Method
    };
    let is_void = is_ctor || is_void_type(tree, n);
    let returns_self = !is_ctor && tree.kind(d) == Kind::ReferenceDeclarator
        && body_returns_deref_this(tree, body);
    let m = Method {
        node: n,
        params,
        body,
        class: String::from_str(tree.text(scope)),
        name: String::from_str(tree.text(name)),
        role,
        is_void,
        returns_self,
        is_static: false,
        is_virtual: false,
        inits,
    };
    assert forall|i: int| 0 <= i < m@.inits.len() implies (#[trigger] m@.inits[i]).1
        < tree@.len() by {
        assert(m@.inits[i] == m.inits@[i]@);
    }
    Some(m)
}

/// The methods that the nodes from number `n` on define outside of the bodies of their classes, after
/// `methods`.
pub open spec fn outer_methods(
    t: TreeView,
    n: int,
    cs: ClassesView,
    methods: Seq<MethodView>,
) -> Seq<MethodView>
    decreases t.len() - n,
{
    if n < 0 || n >= t.len() || n > usize::MAX {
        methods
    } else {
        outer_methods(
            t,
            n + 1,
            cs,
            match outer_method(t, n as usize, cs) {
                Some(m) => methods.push(m),
                None => methods,
            },
        )
    }
}

/// The classes with the methods from number `i` on, which are defined outside of their bodies.
pub open spec fn with_outer_methods(cs: ClassesView, methods: Seq<MethodView>, i: int) -> ClassesView
    decreases methods.len() - i,
{
    if i < 0 || i >= methods.len() {
        cs
    } else {
        with_outer_methods(
            match class_at(cs, methods[i].class) {
                Some(info) => with_class(cs, methods[i].class, with_method(info, methods[i])),
                None => cs,
            },
            methods,
            i + 1,
        )
    }
}

fn collect_outer_methods(tree: &SyntaxTree, classes: &Classes) -> (methods: Vec<Method>)
    ensures
        views(methods@) == outer_methods(tree@, 0, classes@, Seq::empty()),
        methods_fit(tree@, views(methods@)),
{
    let ghost t = tree@;
    let len = tree.len();
    let mut methods: Vec<Method> = Vec::new();
    assert(views(methods@) =~= Seq::<MethodView>::empty());
    let mut n: usize = 0;
    while n < len
        invariant
            n <= len,
            len == t.len(),
            t == tree@,
            methods_fit(t, views(methods@)),
            outer_methods(t, n as int, classes@, views(methods@)) == outer_methods(
                t,
                0,
                classes@,
                Seq::empty(),
            ),
        decreases len - n,
    {
        if let Some(m) = out_of_line_member(tree, n, classes) {
            methods.push(m);
        }
        n = n + 1;
    }
    methods
}

fn register_outer_methods(classes: &mut Classes, methods: &Vec<Method>)
    ensures
        final(classes)@ == with_outer_methods(old(classes)@, views(methods@), 0),
{
    let ghost mv = views(methods@);
    let mut i: usize = 0;
    while i < methods.len()
        invariant
            i <= methods@.len(),
            mv == views(methods@),
            with_outer_methods(classes@, mv, i as int) == with_outer_methods(
                old(classes)@,
                mv,
                0,
            ),
        decreases methods@.len() - i,
    {
        let m = &methods[i];
        assert(mv[i as int] == m@);
        let k = classes.find(m.class.as_str());
        if k < classes.entries.len() {
            let ghost before = classes@;
            assert(before[k as int] == classes.entries@[k as int]@);
            add_method(&mut classes.entries[k].info, m);
            proof {
                crate::classes::a_class_is_found_by_its_name(before, m.class@);
                assert(classes@ =~= with_class(
                    before,
                    m.class@,
                    with_method(before[k as int].1, m@),
                )) by {
                    assert(classes@[k as int] == classes.entries@[k as int]@);
                }
            }
        }
        i = i + 1;
    }
}

/// What a C++ unit says about its classes: the classes, each with the members that it inherits; the
/// subclasses of each; and the methods, those in the bodies of the classes first.
pub ghost struct ClassModel {
    pub classes: ClassesView,
    pub subclasses: GraphView,
    pub methods: Seq<MethodView>,
}

/// What a C++ unit says about its classes.
pub open spec fn class_model(t: TreeView) -> ClassModel {
    let found = classes_from(t, 0, Seq::empty(), Seq::empty());
    let flat = flattened(found.0);
    let outer = outer_methods(t, 0, flat, Seq::empty());
    ClassModel {
        classes: with_outer_methods(flat, outer, 0),
        subclasses: subclass_graph(flat, flat.len() as int),
        methods: found.1 + outer,
    }
}

/// What a C++ unit says about its classes: what each one has, inherits and is inherited by, and the
/// member functions to lower. The bodies of the classes come first, so that a definition outside of
/// one is recognized wherever it stands.
pub fn collect_methods(tree: &SyntaxTree) -> (r: (Classes, Graph, Vec<Method>))
    ensures
        (ClassModel { classes: r.0@, subclasses: r.1@, methods: views(r.2@) }) == class_model(
            tree@,
        ),
        methods_fit(tree@, views(r.2@)),
{
    let mut classes = Classes::new();
    let mut methods: Vec<Method> = Vec::new();
    assert(views(methods@) =~= Seq::<MethodView>::empty());
    collect_classes(tree, &mut classes, &mut methods);
    flatten_inherited_members(&mut classes);
    let subclasses = build_subclasses(&classes);
    let mut outer = collect_outer_methods(tree, &classes);
    register_outer_methods(&mut classes, &outer);
    let ghost inline = methods@;
    let ghost outside = outer@;
    methods.append(&mut outer);
    assert(methods@ =~= inline + outside);
    assert(views(methods@) =~= views(inline) + views(outside));
    (classes, subclasses, methods)
}

// Namespaces

/// A function that stands by itself in a namespace.
#[derive(Debug)]
pub struct NamespacedFunction {
    /// The definition, its parameter list and its body.
    pub node: usize,
    pub params: usize,
    pub body: usize,
    /// Its name in its namespaces.
    pub name: String,
    pub is_void: bool,
}

/// View of a [`NamespacedFunction`].
pub ghost struct NamespacedView {
    pub node: usize,
    pub params: usize,
    pub body: usize,
    pub name: Seq<char>,
    pub is_void: bool,
}

impl View for NamespacedFunction {
    type V = NamespacedView;

    open spec fn view(&self) -> NamespacedView {
        NamespacedView {
            node: self.node,
            params: self.params,
            body: self.body,
            name: self.name@,
            is_void: self.is_void,
        }
    }
}

/// Whether node `n` stands directly in the body of a namespace.
pub open spec fn in_namespace_body(t: TreeView, n: usize) -> bool {
    &&& t[n as int].parent matches Some(p)
    &&& p < t.len()
    &&& kind_at(t, p) == Kind::DeclarationList
    &&& t[p as int].parent matches Some(q)
    &&& kind_at(t, q) == Kind::NamespaceDefinition
    &&& field_child(t, q, Field::Body) == Some(p)
}

/// The function that the definition `n` defines directly in a namespace.
pub open spec fn namespaced(t: TreeView, n: usize) -> Option<NamespacedView> {
    if kind_at(t, n) != Kind::FunctionDefinition || !in_namespace_body(t, n) {
        None
    } else {
        match (field_child(t, n, Field::Declarator), field_child(t, n, Field::Body)) {
            (Some(f), Some(body)) => match (
                field_child(t, f, Field::Declarator),
                field_child(t, f, Field::Parameters),
            ) {
                (Some(name), Some(params)) => if kind_at(t, f) == Kind::FunctionDeclarator
                    && kind_at(t, name) == Kind::Identifier && kind_at(t, params)
                    == Kind::ParameterList && kind_at(t, body) == Kind::CompoundStatement {
                    Some(
                        NamespacedView {
                            node: n,
                            params,
                            body,
                            name: namespace_prefix(t, n) + text_at(t, name),
                            is_void: names_void(t, n),
                        },
                    )
                } else {
                    None
                },
                _ => None,
            },
            _ => None,
        }
    }
}

/// The function that the definition `n` defines directly in a namespace.
pub fn namespaced_function(tree: &SyntaxTree, n: usize) -> (f: Option<NamespacedFunction>)
    requires
        n < tree@.len(),
    ensures
        match f {
            Some(f) => namespaced(tree@, n) == Some(f@),
            None => namespaced(tree@, n) is None,
        },
        f matches Some(f) ==> f.node < tree@.len() && f.params < tree@.len() && inside(
            tree@,
            f.node,
            f.body,
        ),
{
    if tree.kind(n) != Kind::FunctionDefinition {
        return None;
    }
    let in_namespace = match tree.parent(n) {
        Some(p) => if tree.kind(p) == Kind::DeclarationList {
            match tree.parent(p) {
                Some(q) => if tree.kind(q) == Kind::NamespaceDefinition {
                    match tree.field(q, Field::Body) {
                        Some(b) => b == p,
                        None => false,
                    }
                } else {
                    false
                },
                None => false,
            }
        } else {
            false
        },
        None => false,
    };
    assert(in_namespace == in_namespace_body(tree@, n));
    if !in_namespace {
        return None;
    }
    let f = match tree.field(n, Field::Declarator) {
        Some(d) => d,
        None => {
            return None;
        },
    };
    let body = match tree.field(n, Field::Body) {
        Some(b) => b,
        None => {
            return None;
        },
    };
    let name = match tree.field(f, Field::Declarator) {
        Some(c) => c,
        None => {
            return None;
        },
    };
    let params = match tree.field(f, Field::Parameters) {
        Some(p) => p,
        None => {
            return None;
        },
    };
    if tree.kind(f) != Kind::FunctionDeclarator || tree.kind(name) != Kind::Identifier
        || tree.kind(params) != Kind::ParameterList || tree.kind(body)
        != Kind::CompoundStatement {
        return None;
    }
    let mut full = enclosing_namespace_prefix(tree, n);
    full.append(tree.text(name));
    Some(
        NamespacedFunction { node: n, params, body, name: full, is_void: is_void_type(tree, n) },
    )
}

} // verus!
