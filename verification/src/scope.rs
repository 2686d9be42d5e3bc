//! Lexical scopes: which variable a name means.

use vstd::prelude::*;
use crate::collections::views;
use crate::text::{dec, decimal, same};

verus! {

broadcast use crate::collections::group_views;

/// What kind of variable a name was declared as.
#[derive(Debug, Clone, Copy, PartialEq, Eq, Structural)]
pub enum VarKind {
    Global,
    /// A local variable.
    Local,
    /// The formal parameter at that position.
    Parameter(usize),
}

/// A declared variable.
#[derive(Debug)]
pub struct VarDecl {
    pub name: String,
    pub kind: VarKind,
    /// Whether the name already meant another variable where this one was declared.
    pub shadows: bool,
    /// The scope it was declared in.
    pub sidx: usize,
}

/// View of a [`VarDecl`].
pub ghost struct VarView {
    pub name: Seq<char>,
    pub kind: VarKind,
    pub shadows: bool,
    pub sidx: usize,
}

impl View for VarDecl {
    type V = VarView;

    open spec fn view(&self) -> VarView {
        VarView { name: self.name@, kind: self.kind, shadows: self.shadows, sidx: self.sidx }
    }
}

/// A scope: its name, the scope around it, and what is declared in it.
#[derive(Debug)]
pub struct ScopeBox {
    pub scope_name: String,
    pub parent_idx: Option<usize>,
    pub variables: Vec<VarDecl>,
}

/// View of a [`ScopeBox`].
pub ghost struct ScopeBoxView {
    pub name: Seq<char>,
    pub parent: Option<usize>,
    pub variables: Seq<VarView>,
}

impl View for ScopeBox {
    type V = ScopeBoxView;

    open spec fn view(&self) -> ScopeBoxView {
        ScopeBoxView {
            name: self.scope_name@,
            parent: self.parent_idx,
            variables: views(self.variables@),
        }
    }
}

/// All scopes of a translation unit; a scope is an index in here.
#[derive(Debug)]
pub struct ScopeTree {
    pub scopes: Vec<ScopeBox>,
}

/// View of a [`ScopeTree`].
pub type ScopesView = Seq<ScopeBoxView>;

impl View for ScopeTree {
    type V = ScopesView;

    open spec fn view(&self) -> ScopesView {
        views(self.scopes@)
    }
}

/// Whether every scope comes after the one around it.
pub open spec fn nested(s: ScopesView) -> bool {
    forall|i: int| #![trigger s[i]]
        0 <= i < s.len() ==> (s[i].parent matches Some(p) ==> p < i)
}

/// The first variable named `name` from number `i` on.
pub open spec fn declared_from(vars: Seq<VarView>, i: int, name: Seq<char>) -> Option<VarView>
    decreases vars.len() - i,
{
    if i < 0 || i >= vars.len() {
        None
    } else if vars[i].name == name {
        Some(vars[i])
    } else {
        declared_from(vars, i + 1, name)
    }
}

/// The variable that `name` means in scope `i`: the first one declared there, or else what it
/// means in the scope around it.
pub open spec fn meaning(s: ScopesView, i: usize, name: Seq<char>) -> Option<VarView>
    decreases i,
{
    if i >= s.len() {
        None
    } else {
        match declared_from(s[i as int].variables, 0, name) {
            Some(v) => Some(v),
            None => match s[i as int].parent {
                Some(p) => if p < i {
                    meaning(s, p, name)
                } else {
                    None
                },
                None => None,
            },
        }
    }
}

/// The name a variable goes by in the IR: its own, unless it shadows another.
pub open spec fn ir_name(s: ScopesView, v: VarView) -> Seq<char> {
    if v.shadows && v.sidx < s.len() {
        s[v.sidx as int].name + "."@ + dec(v.sidx as nat) + "."@ + v.name
    } else {
        v.name
    }
}

/// The scopes with an empty one added.
pub open spec fn with_scope(s: ScopesView, name: Seq<char>, parent: Option<usize>) -> ScopesView {
    s.push(ScopeBoxView { name, parent, variables: Seq::empty() })
}

/// The scopes with a variable declared in scope `sidx`.
pub open spec fn with_variable(
    s: ScopesView,
    sidx: usize,
    name: Seq<char>,
    kind: VarKind,
) -> ScopesView {
    let scope = s[sidx as int];
    let v = VarView { name, kind, shadows: meaning(s, sidx, name) is Some, sidx };
    s.update(sidx as int, ScopeBoxView { variables: scope.variables.push(v), ..scope })
}

impl ScopeTree {
    /// No scopes.
    pub fn new() -> (t: ScopeTree)
        ensures
            t@ == ScopesView::empty(),
            nested(t@),
    {
        let t = ScopeTree { scopes: Vec::new() };
        assert(t@ =~= ScopesView::empty());
        t
    }

    /// Adds an empty scope inside `parent`.
    pub fn add_scope(&mut self, name: String, parent: Option<usize>) -> (sidx: usize)
        requires
            nested(old(self)@),
            parent matches Some(p) ==> p < old(self)@.len(),
        ensures
            final(self)@ == with_scope(old(self)@, name@, parent),
            nested(final(self)@),
            sidx == old(self)@.len(),
    {
        let sidx: usize = self.scopes.len();
        let scope = ScopeBox { scope_name: name, parent_idx: parent, variables: Vec::new() };
        assert(scope@.variables =~= Seq::<VarView>::empty());
        self.scopes.push(scope);
        sidx
    }

    /// The name a variable goes by in the IR.
    pub fn to_string(&self, var: &VarDecl) -> (name: String)
        ensures
            name@ == ir_name(self@, var@),
    {
        if var.shadows && var.sidx < self.scopes.len() {
            let mut name = self.scopes[var.sidx].scope_name.clone();
            name.append(".");
            name.append(decimal(var.sidx).as_str());
            name.append(".");
            name.append(var.name.as_str());
            name
        } else {
            var.name.clone()
        }
    }

    /// Declares a variable in scope `sidx`.
    pub fn add_variable(&mut self, sidx: usize, symbol: String, kind: VarKind)
        requires
            nested(old(self)@),
            sidx < old(self)@.len(),
        ensures
            final(self)@ == with_variable(old(self)@, sidx, symbol@, kind),
            nested(final(self)@),
            final(self)@.len() == old(self)@.len(),
    {
        let shadows = self.find_variable(sidx, symbol.as_str()).is_some();
        let v = VarDecl { name: symbol, kind, shadows, sidx };
        self.scopes[sidx].variables.push(v);
        assert(self@ =~= with_variable(old(self)@, sidx, symbol@, kind));
    }

    /// The variable that `target_name` means in scope `start_idx`.
    pub fn find_variable(&self, start_idx: usize, target_name: &str) -> (found: Option<&VarDecl>)
        requires
            nested(self@),
        ensures
            found matches Some(v) ==> meaning(self@, start_idx, target_name@) == Some(v@),
            found is None ==> meaning(self@, start_idx, target_name@) is None,
    {
        if start_idx >= self.scopes.len() {
            return None;
        }
        let mut idx: usize = start_idx;
        loop
            invariant
                nested(self@),
                idx < self@.len(),
                meaning(self@, idx, target_name@) == meaning(self@, start_idx, target_name@),
            decreases idx,
        {
            let scope = &self.scopes[idx];
            assert(self@[idx as int] == scope@);
            let mut i: usize = 0;
            while i < scope.variables.len()
                invariant
                    i <= scope.variables@.len(),
                    scope@ == self@[idx as int],
                    idx < self@.len(),
                    meaning(self@, idx, target_name@) == meaning(self@, start_idx, target_name@),
                    declared_from(scope@.variables, i as int, target_name@) == declared_from(
                        scope@.variables,
                        0,
                        target_name@,
                    ),
                decreases scope.variables@.len() - i,
            {
                if same(scope.variables[i].name.as_str(), target_name) {
                    return Some(&scope.variables[i]);
                }
                i = i + 1;
            }
            match scope.parent_idx {
                Some(p) => {
                    idx = p;
                },
                None => {
                    return None;
                },
            }
        }
    }
}

proof fn lemma_declared_push(vars: Seq<VarView>, i: int, v: VarView)
    requires
        0 <= i <= vars.len(),
    ensures
        declared_from(vars.push(v), i, v.name) == (match declared_from(vars, i, v.name) {
            Some(w) => Some(w),
            None => Some(v),
        }),
    decreases vars.len() - i,
{
    if i < vars.len() {
        assert(vars.push(v)[i] == vars[i]);
        lemma_declared_push(vars, i + 1, v);
    } else {
        assert(vars.push(v)[i] == v);
    }
}

/// A declaration takes effect in its own scope: unless the scope declares the name already, the
/// name means the new variable there from then on.
pub proof fn a_declaration_is_found_in_its_scope(
    s: ScopesView,
    sidx: usize,
    name: Seq<char>,
    kind: VarKind,
)
    requires
        sidx < s.len(),
        declared_from(s[sidx as int].variables, 0, name) is None,
    ensures
        meaning(with_variable(s, sidx, name, kind), sidx, name) == Some(
            VarView { name, kind, shadows: meaning(s, sidx, name) is Some, sidx },
        ),
{
    let v = VarView { name, kind, shadows: meaning(s, sidx, name) is Some, sidx };
    lemma_declared_push(s[sidx as int].variables, 0, v);
}

/// A new scope sees what the scope around it sees.
pub proof fn an_empty_scope_sees_what_is_around_it(
    s: ScopesView,
    scope_name: Seq<char>,
    parent: usize,
    name: Seq<char>,
)
    requires
        parent < s.len(),
        s.len() <= usize::MAX,
        nested(s),
    ensures
        meaning(with_scope(s, scope_name, Some(parent)), s.len() as usize, name) == meaning(
            s,
            parent,
            name,
        ),
{
    let t = with_scope(s, scope_name, Some(parent));
    assert(declared_from(Seq::<VarView>::empty(), 0, name) is None);
    assert(t[s.len() as int].variables == Seq::<VarView>::empty());
    lemma_meaning_prefix(s, t, parent, name);
}

proof fn lemma_meaning_prefix(s: ScopesView, t: ScopesView, i: usize, name: Seq<char>)
    requires
        i < s.len() <= t.len(),
        forall|j: int| 0 <= j < s.len() ==> s[j] == #[trigger] t[j],
    ensures
        meaning(t, i, name) == meaning(s, i, name),
    decreases i,
{
    assert(s[i as int] == t[i as int]);
    match s[i as int].parent {
        Some(p) => {
            if p < i {
                lemma_meaning_prefix(s, t, p, name);
            }
        },
        None => {},
    }
}

} // verus!
