//! Stubs for functions that are called but not defined.
//!
//! A model names functions of the program, and one that is only declared would not be among them. A
//! stub has no body, which marks it as external.

use vstd::prelude::*;
use crate::collections::{views, NameMap, NameSet};
use crate::error::Error;
use crate::function::complete;
use crate::mir::{BlockView, CallStyle, CallStyleView, FunctionData, FunctionView, ParameterType, Program, Statement, StatementKind, StatementKindView, StatementView};
use crate::program::{c_program, c_trees, holds_function, holds_units, lower_units, names_apart, whole, Lowered, LoweredView};
use crate::text::chars_of;
use crate::units::{TranslationUnit, UnitView};

verus! {

broadcast use crate::collections::group_views;

// Order of names

/// Whether `a` comes before `b` in the order of their characters.
pub open spec fn before(a: Seq<char>, b: Seq<char>) -> bool
    decreases a.len(),
{
    if b.len() == 0 {
        false
    } else if a.len() == 0 {
        true
    } else if a[0] == b[0] {
        before(a.skip(1), b.skip(1))
    } else {
        a[0] < b[0]
    }
}

proof fn lemma_before_total(a: Seq<char>, b: Seq<char>)
    ensures
        before(a, b) || before(b, a) || a == b,
        !(before(a, b) && before(b, a)),
        !before(a, a),
    decreases a.len(),
{
    if a.len() > 0 {
        lemma_before_total(a.skip(1), a.skip(1));
    }
    if a.len() > 0 && b.len() > 0 && a[0] == b[0] {
        lemma_before_total(a.skip(1), b.skip(1));
        if a.skip(1) == b.skip(1) {
            assert(a =~= seq![a[0]] + a.skip(1));
            assert(b =~= seq![b[0]] + b.skip(1));
        }
    } else if a.len() == 0 && b.len() == 0 {
        assert(a =~= b);
    }
}

proof fn lemma_before_transitive(a: Seq<char>, b: Seq<char>, c: Seq<char>)
    requires
        before(a, b),
        before(b, c),
    ensures
        before(a, c),
    decreases a.len(),
{
    if a.len() > 0 && b.len() > 0 && c.len() > 0 && a[0] == b[0] && b[0] == c[0] {
        lemma_before_transitive(a.skip(1), b.skip(1), c.skip(1));
    }
}

fn is_before(a: &str, b: &str) -> (r: bool)
    ensures
        r == before(a@, b@),
{
    let x = chars_of(a);
    let y = chars_of(b);
    let mut i: usize = 0;
    assert(x@.skip(0) =~= x@);
    assert(y@.skip(0) =~= y@);
    while i < x.len() && i < y.len() && x[i] == y[i]
        invariant
            i <= x@.len(),
            i <= y@.len(),
            before(x@.skip(i as int), y@.skip(i as int)) == before(a@, b@),
        decreases x@.len() - i,
    {
        assert(x@.skip(i as int).skip(1) =~= x@.skip(i + 1));
        assert(y@.skip(i as int).skip(1) =~= y@.skip(i + 1));
        i = i + 1;
    }
    if i >= y.len() {
        false
    } else if i >= x.len() {
        true
    } else {
        x[i] < y[i]
    }
}

// Calls

/// The direct calls that a statement makes: the name and the number of arguments of each.
pub open spec fn statement_calls(k: StatementKindView) -> Set<(Seq<char>, nat)> {
    match k {
        StatementKindView::CallAssign { style: CallStyleView::DirectCall(names), args, .. } =>
            Set::new(|c: (Seq<char>, nat)| names.contains(c.0) && c.1 == args.len()),
        _ => Set::empty(),
    }
}

/// The direct calls that the first `n` statements make.
pub open spec fn block_calls(s: Seq<StatementView>, n: int) -> Set<(Seq<char>, nat)>
    decreases n,
{
    if n <= 0 {
        Set::empty()
    } else {
        block_calls(s, n - 1).union(statement_calls(s[n - 1].kind))
    }
}

/// The direct calls in the first `n` blocks.
pub open spec fn function_calls(b: Seq<BlockView>, n: int) -> Set<(Seq<char>, nat)>
    decreases n,
{
    if n <= 0 {
        Set::empty()
    } else {
        function_calls(b, n - 1).union(
            block_calls(b[n - 1].statements, b[n - 1].statements.len() as int),
        )
    }
}

/// The direct calls in the first `n` functions.
pub open spec fn program_calls(p: Seq<FunctionView>, n: int) -> Set<(Seq<char>, nat)>
    decreases n,
{
    if n <= 0 {
        Set::empty()
    } else {
        program_calls(p, n - 1).union(
            function_calls(p[n - 1].blocks, p[n - 1].blocks.len() as int),
        )
    }
}

/// Whether the program calls `name` with `k` arguments.
pub open spec fn calls(p: Seq<FunctionView>, name: Seq<char>, k: nat) -> bool {
    program_calls(p, p.len() as int).contains((name, k))
}

/// Whether the program defines `name`.
pub open spec fn defines(p: Seq<FunctionView>, name: Seq<char>) -> bool {
    exists|f: int| 0 <= f < p.len() && (#[trigger] p[f]).name == name && p[f].blocks.len() > 0
}

/// A function without a body that takes `k` values.
pub open spec fn stub(name: Seq<char>, k: nat) -> FunctionView {
    FunctionView {
        name,
        params: Seq::new(k, |i: int| ParameterType::ByVal),
        ..FunctionView::fresh()
    }
}

/// Whether `stubs` are what the program `p` lacks: one for each name that is called and not defined,
/// in order, with as many parameters as any call has arguments.
pub open spec fn stubs_for(p: Seq<FunctionView>, stubs: Seq<FunctionView>) -> bool {
    &&& forall|i: int, j: int|
        0 <= i < j < stubs.len() ==> before(
            (#[trigger] stubs[i]).name,
            (#[trigger] stubs[j]).name,
        )
    &&& forall|i: int|
        0 <= i < stubs.len() ==> {
            let s = #[trigger] stubs[i];
            &&& s == stub(s.name, s.params.len())
            &&& calls(p, s.name, s.params.len())
            &&& !defines(p, s.name)
            &&& forall|k: nat| #[trigger] calls(p, s.name, k) ==> k <= s.params.len()
        }
    &&& forall|name: Seq<char>, k: nat| #[trigger]
        calls(p, name, k) && !defines(p, name) ==> exists|i: int|
            0 <= i < stubs.len() && (#[trigger] stubs[i]).name == name
}

/// The names that are called, and the most arguments that any call of each has.
#[derive(Debug)]
struct CallTable {
    index: NameMap,
    names: Vec<String>,
    arities: Vec<usize>,
}

impl CallTable {
    spec fn holds(&self, seen: Set<(Seq<char>, nat)>) -> bool {
        &&& self.names@.len() == self.arities@.len()
        &&& forall|n: Seq<char>| #[trigger]
            self.index@.contains_key(n) ==> self.index@[n] < self.names@.len()
                && self.names@[self.index@[n] as int]@ == n
        &&& forall|j: int|
            0 <= j < self.names@.len() ==> {
                let n = (#[trigger] self.names@[j])@;
                &&& self.index@.contains_key(n)
                &&& self.index@[n] == j
                &&& seen.contains((n, self.arities@[j] as nat))
            }
        &&& forall|c: (Seq<char>, nat)| #[trigger]
            seen.contains(c) ==> self.index@.contains_key(c.0) && c.1
                <= self.arities@[self.index@[c.0] as int]
    }

    fn insert(&mut self, name: &String, k: usize, Ghost(seen): Ghost<Set<(Seq<char>, nat)>>)
        requires
            old(self).holds(seen),
        ensures
            final(self).holds(seen.insert((name@, k as nat))),
    {
        let ghost more = seen.insert((name@, k as nat));
        match self.index.get(name.as_str()) {
            Some(j) => {
                assert(self.index@.contains_key(name@));
                assert(self.names@[j as int]@ == name@);
                assert(seen.contains((name@, self.arities@[j as int] as nat)));
                if k > self.arities[j] {
                    self.arities[j] = k;
                }
            },
            None => {
                let j: usize = self.names.len();
                self.index.insert(name.clone(), j);
                self.names.push(name.clone());
                self.arities.push(k);
            },
        }
        proof {
            let before_names = old(self).names@;
            assert forall|j: int| 0 <= j < self.names@.len() implies ({
                let n = (#[trigger] self.names@[j])@;
                &&& self.index@.contains_key(n)
                &&& self.index@[n] == j
                &&& more.contains((n, self.arities@[j] as nat))
            }) by {
                if j < before_names.len() {
                    assert(self.names@[j] == before_names[j]);
                    assert(seen.contains((before_names[j]@, old(self).arities@[j] as nat)));
                }
            }
            assert forall|n: Seq<char>| #[trigger] self.index@.contains_key(
                n,
            ) implies self.index@[n] < self.names@.len() && self.names@[self.index@[n] as int]@
                == n by {
                if n != name@ {
                    assert(old(self).index@.contains_key(n));
                }
            }
            assert forall|c: (Seq<char>, nat)| #[trigger] more.contains(
                c,
            ) implies self.index@.contains_key(c.0) && c.1 <= self.arities@[self.index@[c.0] as int] by {
                if seen.contains(c) {
                    assert(old(self).index@.contains_key(c.0));
                }
            }
        }
    }
}

proof fn lemma_push_contains(s: Seq<Seq<char>>, x: Seq<char>, y: Seq<char>)
    ensures
        s.push(x).contains(y) <==> s.contains(y) || x == y,
{
    if s.contains(y) {
        let j = choose|j: int| 0 <= j < s.len() && s[j] == y;
        assert(s.push(x)[j] == y);
    }
    assert(s.push(x)[s.len() as int] == x);
    if s.push(x).contains(y) && x != y {
        let j = choose|j: int| 0 <= j < s.push(x).len() && s.push(x)[j] == y;
        assert(s[j] == y);
    }
}

fn add_calls(table: &mut CallTable, s: &Statement, Ghost(seen): Ghost<Set<(Seq<char>, nat)>>)
    requires
        old(table).holds(seen),
    ensures
        final(table).holds(seen.union(statement_calls(s@.kind))),
{
    if let StatementKind::CallAssign { style: CallStyle::DirectCall(names), args, .. } = &s.kind {
        let k: usize = args.len();
        let ghost nv = views(names@);
        let ghost mut now = seen;
        let mut i: usize = 0;
        while i < names.len()
            invariant
                i <= names@.len(),
                nv == views(names@),
                table.holds(now),
                forall|c: (Seq<char>, nat)| #[trigger]
                    now.contains(c) <==> seen.contains(c) || (nv.take(i as int).contains(c.0)
                        && c.1 == k),
            decreases names@.len() - i,
        {
            table.insert(&names[i], k, Ghost(now));
            proof {
                let before_now = now;
                now = now.insert((nv[i as int], k as nat));
                let first = nv.take(i as int);
                let more = nv.take(i + 1);
                assert(more =~= first.push(nv[i as int]));
                assert forall|c: (Seq<char>, nat)| #[trigger]
                    now.contains(c) <==> seen.contains(c) || (more.contains(c.0) && c.1 == k) by {
                    lemma_push_contains(first, nv[i as int], c.0);
                    assert(before_now.contains(c) ==> now.contains(c));
                }
            }
            i = i + 1;
        }
        assert(nv.take(i as int) =~= nv);
        assert(now =~= seen.union(statement_calls(s@.kind)));
    } else {
        assert(seen.union(statement_calls(s@.kind)) =~= seen);
    }
}

fn collect_calls(program: &Program) -> (table: CallTable)
    ensures
        table.holds(program_calls(program@, program@.len() as int)),
{
    let ghost p = program@;
    let mut table = CallTable { index: NameMap::new(), names: Vec::new(), arities: Vec::new() };
    let mut f: usize = 0;
    while f < program.functions.len()
        invariant
            f <= program.functions@.len(),
            p == program@,
            table.holds(program_calls(p, f as int)),
        decreases program.functions@.len() - f,
    {
        let fun = &program.functions[f];
        let ghost bv = fun@.blocks;
        let ghost base = program_calls(p, f as int);
        assert(p[f as int] == fun@);
        let mut b: usize = 0;
        assert(base.union(function_calls(bv, 0)) =~= base);
        while b < fun.blocks.len()
            invariant
                b <= fun.blocks@.len(),
                bv == views(fun.blocks@),
                table.holds(base.union(function_calls(bv, b as int))),
            decreases fun.blocks@.len() - b,
        {
            let block = &fun.blocks[b];
            let ghost sv = block@.statements;
            let ghost inner = base.union(function_calls(bv, b as int));
            assert(bv[b as int] == block@);
            let mut s: usize = 0;
            assert(inner.union(block_calls(sv, 0)) =~= inner);
            while s < block.statements.len()
                invariant
                    s <= block.statements@.len(),
                    sv == views(block.statements@),
                    table.holds(inner.union(block_calls(sv, s as int))),
                decreases block.statements@.len() - s,
            {
                add_calls(
                    &mut table,
                    &block.statements[s],
                    Ghost(inner.union(block_calls(sv, s as int))),
                );
                assert(inner.union(block_calls(sv, s as int)).union(statement_calls(sv[s as int].kind))
                    =~= inner.union(block_calls(sv, s + 1)));
                s = s + 1;
            }
            assert(inner.union(block_calls(sv, sv.len() as int)) =~= base.union(
                function_calls(bv, b + 1),
            ));
            b = b + 1;
        }
        assert(base.union(function_calls(bv, bv.len() as int)) =~= program_calls(p, f + 1));
        f = f + 1;
    }
    table
}

fn collect_defined(program: &Program) -> (defined: NameSet)
    ensures
        forall|n: Seq<char>| #[trigger] defined@.contains(n) <==> defines(program@, n),
{
    let ghost p = program@;
    let mut defined = NameSet::new();
    let mut f: usize = 0;
    while f < program.functions.len()
        invariant
            f <= program.functions@.len(),
            p == program@,
            forall|n: Seq<char>| #[trigger]
                defined@.contains(n) <==> exists|g: int|
                    0 <= g < f && (#[trigger] p[g]).name == n && p[g].blocks.len() > 0,
        decreases program.functions@.len() - f,
    {
        let fun = &program.functions[f];
        assert(p[f as int] == fun@);
        let ghost known = defined@;
        if fun.blocks.len() > 0 {
            defined.insert(fun.name.clone());
        }
        proof {
            assert forall|n: Seq<char>| #[trigger] defined@.contains(n) implies exists|g: int|
                0 <= g < f + 1 && (#[trigger] p[g]).name == n && p[g].blocks.len() > 0 by {
                if known.contains(n) {
                    let g = choose|g: int|
                        0 <= g < f && (#[trigger] p[g]).name == n && p[g].blocks.len() > 0;
                    assert(0 <= g < f + 1 && p[g].name == n);
                } else {
                    assert(p[f as int].name == n);
                }
            }
            assert forall|n: Seq<char>|
                (exists|g: int|
                    0 <= g < f + 1 && (#[trigger] p[g]).name == n && p[g].blocks.len()
                        > 0) implies #[trigger] defined@.contains(n) by {
                let g = choose|g: int|
                    0 <= g < f + 1 && (#[trigger] p[g]).name == n && p[g].blocks.len() > 0;
                if g < f {
                    assert(known.contains(n));
                }
            }
        }
        f = f + 1;
    }
    defined
}

fn make_stub(name: &String, k: usize) -> (f: FunctionData)
    ensures
        f@ == stub(name@, k as nat),
{
    let mut f = FunctionData::new();
    f.name = name.clone();
    let mut i: usize = 0;
    while i < k
        invariant
            i <= k,
            f.params@ == Seq::new(i as nat, |j: int| ParameterType::ByVal),
            f.name@ == name@,
            f@ == (FunctionView { name: name@, params: f.params@, ..FunctionView::fresh() }),
        decreases k - i,
    {
        f.params.push(ParameterType::ByVal);
        i = i + 1;
        assert(f.params@ =~= Seq::new(i as nat, |j: int| ParameterType::ByVal));
    }
    assert(f@.params =~= stub(name@, k as nat).params);
    f
}

/// Whether the names of `s` are in order.
spec fn in_order(s: Seq<FunctionView>) -> bool {
    forall|i: int, j: int|
        0 <= i < j < s.len() ==> before((#[trigger] s[i]).name, (#[trigger] s[j]).name)
}

fn insert_in_order(stubs: &mut Vec<FunctionData>, f: FunctionData)
    requires
        in_order(views(old(stubs)@)),
        forall|i: int| 0 <= i < old(stubs)@.len() ==> (#[trigger] old(stubs)@[i])@.name != f@.name,
    ensures
        in_order(views(final(stubs)@)),
        exists|p: int|
            0 <= p <= old(stubs)@.len() && views(final(stubs)@) == #[trigger] views(
                old(stubs)@,
            ).insert(p, f@),
{
    let ghost sv = views(stubs@);
    let mut p: usize = 0;
    while p < stubs.len() && is_before(stubs[p].name.as_str(), f.name.as_str())
        invariant
            p <= stubs@.len(),
            sv == views(stubs@),
            stubs@ == old(stubs)@,
            forall|i: int| 0 <= i < p ==> before((#[trigger] sv[i]).name, f@.name),
        decreases stubs@.len() - p,
    {
        p = p + 1;
    }
    proof {
        if p < stubs@.len() {
            lemma_before_total(sv[p as int].name, f@.name);
            assert(stubs@[p as int]@.name != f@.name);
        }
        let after = sv.insert(p as int, f@);
        assert forall|i: int, j: int| 0 <= i < j < after.len() implies before(
            (#[trigger] after[i]).name,
            (#[trigger] after[j]).name,
        ) by {
            if i == p {
                assert(after[j] == sv[j - 1]);
                if j - 1 > p {
                    assert(before(sv[p as int].name, sv[j - 1].name));
                    lemma_before_transitive(f@.name, sv[p as int].name, sv[j - 1].name);
                }
            } else if j == p {
                assert(after[i] == sv[i]);
            } else {
                let i1 = if i < p {
                    i
                } else {
                    i - 1
                };
                let j1 = if j < p {
                    j
                } else {
                    j - 1
                };
                assert(after[i] == sv[i1]);
                assert(after[j] == sv[j1]);
                assert(before(sv[i1].name, sv[j1].name));
            }
        }
    }
    stubs.insert(p, f);
    assert(views(stubs@) =~= sv.insert(p as int, f@));
}

/// Gives every function that is called and not defined a stub, in the order of their names.
pub fn define_extern_functions(program: &mut Program)
    ensures
        exists|stubs: Seq<FunctionView>| #[trigger]
            stubs_for(old(program)@, stubs) && final(program)@ == old(program)@ + stubs,
{
    let ghost p = program@;
    let ghost all = program_calls(p, p.len() as int);
    let table = collect_calls(program);
    let defined = collect_defined(program);
    let mut stubs: Vec<FunctionData> = Vec::new();
    let mut i: usize = 0;
    while i < table.names.len()
        invariant
            i <= table.names@.len(),
            p == program@,
            all == program_calls(p, p.len() as int),
            table.holds(all),
            forall|n: Seq<char>| #[trigger] defined@.contains(n) <==> defines(p, n),
            in_order(views(stubs@)),
            forall|s: int|
                0 <= s < stubs@.len() ==> {
                    let n = (#[trigger] stubs@[s])@.name;
                    &&& table.index@.contains_key(n)
                    &&& table.index@[n] < i
                    &&& !defines(p, n)
                    &&& stubs@[s]@ == stub(n, table.arities@[table.index@[n] as int] as nat)
                },
            forall|j: int|
                0 <= j < i && !defines(p, (#[trigger] table.names@[j])@) ==> exists|s: int|
                    0 <= s < stubs@.len() && (#[trigger] stubs@[s])@.name == table.names@[j]@,
        decreases table.names@.len() - i,
    {
        let name = &table.names[i];
        assert(table.index@.contains_key(name@) && table.index@[name@] == i);
        assert(defined@.contains(name@) <==> defines(p, name@));
        if !defined.contains(name.as_str()) {
            let f = make_stub(name, table.arities[i]);
            let ghost prior = stubs@;
            let ghost fv = f@;
            assert forall|s: int| 0 <= s < stubs@.len() implies (#[trigger] stubs@[s])@.name
                != f@.name by {}
            insert_in_order(&mut stubs, f);
            proof {
                let q = choose|q: int|
                    0 <= q <= prior.len() && views(stubs@) == #[trigger] views(prior).insert(
                        q,
                        fv,
                    );
                assert(stubs@.len() == views(stubs@).len());
                assert forall|s: int| 0 <= s < stubs@.len() implies ({
                    let n = (#[trigger] stubs@[s])@.name;
                    &&& table.index@.contains_key(n)
                    &&& table.index@[n] < i + 1
                    &&& !defines(p, n)
                    &&& stubs@[s]@ == stub(n, table.arities@[table.index@[n] as int] as nat)
                }) by {
                    assert(views(stubs@)[s] == stubs@[s]@);
                    if s < q {
                        assert(views(prior)[s] == prior[s]@);
                        assert(stubs@[s]@ == prior[s]@);
                    } else if s > q {
                        assert(views(prior)[s - 1] == prior[s - 1]@);
                        assert(stubs@[s]@ == prior[s - 1]@);
                    } else {
                        assert(stubs@[s]@ == fv);
                        assert(fv.name == name@);
                    }
                }
                assert forall|j: int| 0 <= j < i + 1 && !defines(
                    p,
                    (#[trigger] table.names@[j])@,
                ) implies exists|s: int|
                    0 <= s < stubs@.len() && (#[trigger] stubs@[s])@.name == table.names@[j]@ by {
                    if j == i {
                        assert(views(stubs@)[q] == stubs@[q]@);
                        assert(stubs@[q]@.name == table.names@[j]@);
                    } else {
                        let s = choose|s: int|
                            0 <= s < prior.len() && (#[trigger] prior[s])@.name
                                == table.names@[j]@;
                        let s1 = if s < q {
                            s
                        } else {
                            s + 1
                        };
                        assert(views(prior)[s] == prior[s]@);
                        assert(views(stubs@)[s1] == stubs@[s1]@);
                        assert(stubs@[s1]@.name == table.names@[j]@);
                    }
                }
            }
        }
        assert(i < table.names@.len());
        i = i + 1;
    }
    let ghost sv = views(stubs@);
    proof {
        assert forall|s: int| 0 <= s < sv.len() implies ({
            let x = #[trigger] sv[s];
            &&& x == stub(x.name, x.params.len())
            &&& calls(p, x.name, x.params.len())
            &&& !defines(p, x.name)
            &&& forall|k: nat| #[trigger] calls(p, x.name, k) ==> k <= x.params.len()
        }) by {
            assert(sv[s] == stubs@[s]@);
            let n = sv[s].name;
            let j = table.index@[n] as int;
            assert(table.names@[j]@ == n);
            assert(all.contains((n, table.arities@[j] as nat)));
            assert(sv[s].params.len() == table.arities@[j]);
            assert forall|k: nat| #[trigger] calls(p, n, k) implies k <= sv[s].params.len() by {
                assert(all.contains((n, k)));
            }
        }
        assert forall|n: Seq<char>, k: nat| #[trigger] calls(p, n, k) && !defines(
            p,
            n,
        ) implies exists|s: int| 0 <= s < sv.len() && (#[trigger] sv[s]).name == n by {
            assert(all.contains((n, k)));
            let j = table.index@[n] as int;
            assert(table.names@[j]@ == n);
            let s = choose|s: int|
                0 <= s < stubs@.len() && (#[trigger] stubs@[s])@.name == table.names@[j]@;
            assert(sv[s] == stubs@[s]@);
        }
        assert(stubs_for(p, sv));
    }
    let ghost before_append = program.functions@;
    let ghost added = stubs@;
    program.functions.append(&mut stubs);
    assert(program@ =~= p + sv);
}

/// With its stubs, a program defines or stubs every function that it calls.
pub proof fn every_called_function_is_there(
    p: Seq<FunctionView>,
    stubs: Seq<FunctionView>,
    name: Seq<char>,
    k: nat,
)
    requires
        stubs_for(p, stubs),
        calls(p, name, k),
    ensures
        exists|f: int| 0 <= f < (p + stubs).len() && (#[trigger] (p + stubs)[f]).name == name,
{
    if defines(p, name) {
        let f = choose|f: int|
            0 <= f < p.len() && (#[trigger] p[f]).name == name && p[f].blocks.len() > 0;
        assert((p + stubs)[f].name == name);
    } else {
        let i = choose|i: int| 0 <= i < stubs.len() && (#[trigger] stubs[i]).name == name;
        assert((p + stubs)[p.len() + i].name == name);
    }
}

/// A stub shares its name with no other function of the program.
pub proof fn stubs_keep_names_apart(p: Seq<FunctionView>, stubs: Seq<FunctionView>)
    requires
        stubs_for(p, stubs),
        whole(p),
    ensures
        names_apart(p + stubs),
{
    let all = p + stubs;
    assert forall|i: int, j: int| 0 <= i < j < all.len() implies (#[trigger] all[i]).name != (
    #[trigger] all[j]).name by {
        if j < p.len() {
            assert(p[i].name != p[j].name);
        } else if i < p.len() {
            assert(complete(p[i]));
            assert(!defines(p, stubs[j - p.len()].name));
        } else {
            assert(before(stubs[i - p.len()].name, stubs[j - p.len()].name));
            lemma_before_total(stubs[i - p.len()].name, stubs[j - p.len()].name);
        }
    }
}

/// What a program holds, it holds with its stubs too.
proof fn lemma_still_held(p: Seq<FunctionView>, stubs: Seq<FunctionView>)
    ensures
        forall|name: Seq<char>| #[trigger]
            holds_function(p, name) ==> holds_function(p + stubs, name),
{
    assert forall|name: Seq<char>| #[trigger] holds_function(p, name) implies holds_function(
        p + stubs,
        name,
    ) by {
        let f = choose|f: int| 0 <= f < p.len() && (#[trigger] p[f]).name == name;
        assert((p + stubs)[f].name == name);
    }
}

/// Whether `out` is `low` with the stubs that its program lacks.
pub open spec fn with_stubs(low: LoweredView, out: LoweredView) -> bool {
    &&& exists|stubs: Seq<FunctionView>| #[trigger]
        stubs_for(low.program, stubs) && out.program == low.program + stubs
    &&& out == (LoweredView { program: out.program, ..low })
}

/// Parses and lowers units of C source into one program, records spans, and gives every function
/// that is called and not defined a stub.
///
/// # Errors
///
/// If what the parser hands over is no tree of the grammar, and in strict mode, the first report.
pub fn lower_import(units: &Vec<TranslationUnit>, strict: bool) -> (r: Result<Lowered, Error>)
    ensures
        match r {
            Ok(l) => {
                let low = c_program(views(units@), strict, true);
                low is Ok && with_stubs(low->Ok_0, l@)
            },
            Err(e) => c_program(views(units@), strict, true) == Err::<LoweredView, _>(e@),
        },
        r matches Ok(l) ==> names_apart(l@.program) && holds_units(
            l@.program,
            views(units@),
            c_trees(views(units@), 0, Seq::empty())->Ok_0,
            strict,
        ),
        !strict && c_trees(views(units@), 0, Seq::empty()) is Ok ==> r is Ok,
{
    let mut l = lower_units(units, strict, true)?;
    let ghost before = l@.program;
    define_extern_functions(&mut l.program);
    proof {
        let stubs = choose|stubs: Seq<FunctionView>| #[trigger]
            stubs_for(before, stubs) && l.program@ == before + stubs;
        stubs_keep_names_apart(before, stubs);
        lemma_still_held(before, stubs);
    }
    Ok(l)
}

/// The units that some files are.
pub open spec fn file_units(files: Seq<(String, String)>) -> Seq<UnitView> {
    files.map_values(
        |f: (String, String)| UnitView { path: Some(f.0@), source: f.1@ },
    )
}

/// Parses several named C files, each a unit of its own, into one program.
///
/// # Errors
///
/// If what the parser hands over is no tree of the grammar, and in strict mode, the first report.
pub fn parse_c_files(files: &Vec<(String, String)>, strict: bool) -> (r: Result<Lowered, Error>)
    ensures
        match r {
            Ok(l) => {
                let low = c_program(file_units(files@), strict, true);
                low is Ok && with_stubs(low->Ok_0, l@)
            },
            Err(e) => c_program(file_units(files@), strict, true) == Err::<LoweredView, _>(e@),
        },
        r matches Ok(l) ==> names_apart(l@.program) && holds_units(
            l@.program,
            file_units(files@),
            c_trees(file_units(files@), 0, Seq::empty())->Ok_0,
            strict,
        ),
        !strict && c_trees(file_units(files@), 0, Seq::empty()) is Ok ==> r is Ok,
{
    let mut units: Vec<TranslationUnit> = Vec::new();
    let mut i: usize = 0;
    while i < files.len()
        invariant
            i <= files@.len(),
            views(units@) == file_units(files@).take(i as int),
        decreases files@.len() - i,
    {
        let f = &files[i];
        units.push(TranslationUnit { path: Some(f.0.clone()), source: f.1.clone() });
        i = i + 1;
        assert(views(units@) =~= file_units(files@).take(i as int));
    }
    assert(views(units@) =~= file_units(files@));
    lower_import(&units, strict)
}

} // verus!
