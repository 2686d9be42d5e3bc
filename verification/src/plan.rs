//! The IR name of each definition, and what a name means in each unit.

use vstd::prelude::*;
use crate::collections::{views, NameSet, Table};
use crate::error::{Error, ErrorView};
use crate::report::Attribution;
use crate::state::done;
use crate::text::{chars_of, dec, dec_is_injective, decimal, decimal_wide, joined, same, text_of};
use crate::units::{an_owner_is_its_own, duplicate, grouped, is_first, logged, namesakes, namesakes_of, owner, owners, same_function, DefView, Definition, Log, LogView, TranslationUnit, UnitView};

verus! {

broadcast use crate::collections::group_views;

// File names

/// Whether a path ends with something that names nothing: a slash, or a `.` after a slash.
pub open spec fn idle_end(s: Seq<char>) -> bool {
    s.len() > 0 && (s.last() == '/' || (s.len() > 1 && s.last() == '.' && s[s.len() - 2] == '/'))
}

/// A path without the slashes and the `.` components that it ends with.
pub open spec fn without_idle_end(s: Seq<char>) -> Seq<char>
    decreases s.len(),
{
    if idle_end(s) {
        without_idle_end(s.drop_last())
    } else {
        s
    }
}

/// What follows the last slash of `s`.
pub open spec fn after_slash(s: Seq<char>) -> Seq<char>
    decreases s.len(),
{
    if s.len() == 0 || s.last() == '/' {
        Seq::empty()
    } else {
        after_slash(s.drop_last()).push(s.last())
    }
}

/// The last component of a path; the whole path where that is no name.
pub open spec fn file_name(path: Seq<char>) -> Seq<char> {
    let name = after_slash(without_idle_end(path));
    if name.len() == 0 || name == "."@ || name == ".."@ {
        path
    } else {
        name
    }
}

fn file_name_of(path: &str) -> (s: String)
    ensures
        s@ == file_name(path@),
{
    let chars = chars_of(path);
    let mut to: usize = chars.len();
    assert(chars@.take(to as int) =~= chars@);
    while to > 0 && (chars[to - 1] == '/' || (to > 1 && chars[to - 1] == '.' && chars[to - 2]
        == '/'))
        invariant
            to <= chars@.len(),
            without_idle_end(chars@.take(to as int)) == without_idle_end(path@),
        decreases to,
    {
        assert(chars@.take(to as int).drop_last() =~= chars@.take(to - 1));
        to = to - 1;
    }
    let ghost t = chars@.take(to as int);
    assert(t == without_idle_end(path@));
    let mut from: usize = to;
    assert(after_slash(t.take(from as int)) + t.subrange(from as int, to as int) =~= after_slash(t))
        by {
        assert(t.take(from as int) =~= t);
    }
    while from > 0 && chars[from - 1] != '/'
        invariant
            from <= to <= chars@.len(),
            t == chars@.take(to as int),
            after_slash(t.take(from as int)) + t.subrange(from as int, to as int) == after_slash(t),
        decreases from,
    {
        proof {
            let head = t.take(from as int);
            assert(head.drop_last() =~= t.take(from - 1));
            assert(after_slash(t.take(from - 1)) + t.subrange(from - 1, to as int) =~= after_slash(
                head,
            ) + t.subrange(from as int, to as int));
        }
        from = from - 1;
    }
    assert(after_slash(t.take(from as int)) =~= Seq::<char>::empty());
    let name = text_of(&chars, from, to);
    assert(name@ =~= after_slash(t));
    if from == to || same(name.as_str(), ".") || same(name.as_str(), "..") {
        String::from_str(path)
    } else {
        name
    }
}

// Names that are not taken

/// Candidate number `n` for a name: `base` itself, then `base#2`, `base#3`, and so on.
pub open spec fn candidate(base: Seq<char>, n: nat) -> Seq<char> {
    if n <= 1 {
        base
    } else {
        base + "#"@ + dec(n)
    }
}

/// Whether `n` is the first candidate that is not taken.
pub open spec fn first_free(used: Set<Seq<char>>, base: Seq<char>, n: nat) -> bool {
    &&& n >= 1
    &&& !used.contains(candidate(base, n))
    &&& forall|m: nat| 1 <= m < n ==> used.contains(#[trigger] candidate(base, m))
}

/// The name made of `base`: the first candidate that is not taken.
pub open spec fn minted(used: Set<Seq<char>>, base: Seq<char>) -> Seq<char> {
    candidate(base, choose|n: nat| first_free(used, base, n))
}

proof fn lemma_candidates_differ(base: Seq<char>, m: nat, n: nat)
    requires
        1 <= m < n,
    ensures
        candidate(base, m) != candidate(base, n),
{
    reveal_strlit("#");
    let head = base + "#"@;
    if candidate(base, m) == candidate(base, n) {
        if m >= 2 {
            assert(candidate(base, m).skip(head.len() as int) =~= dec(m));
            assert(candidate(base, n).skip(head.len() as int) =~= dec(n));
            dec_is_injective(m, n);
        } else {
            assert(candidate(base, n).len() > base.len());
        }
    }
}

spec fn candidates(base: Seq<char>, n: nat) -> Set<Seq<char>>
    decreases n,
{
    if n == 0 {
        Set::empty()
    } else {
        candidates(base, (n - 1) as nat).insert(candidate(base, n))
    }
}

proof fn lemma_candidates(base: Seq<char>, n: nat)
    ensures
        candidates(base, n).finite(),
        candidates(base, n).len() == n,
        forall|s: Seq<char>| #[trigger]
            candidates(base, n).contains(s) ==> exists|m: nat|
                1 <= m <= n && s == #[trigger] candidate(base, m),
    decreases n,
{
    if n > 0 {
        let before = candidates(base, (n - 1) as nat);
        lemma_candidates(base, (n - 1) as nat);
        if before.contains(candidate(base, n)) {
            let m = choose|m: nat|
                1 <= m <= n - 1 && candidate(base, n) == #[trigger] candidate(base, m);
            lemma_candidates_differ(base, m, n);
        }
        assert forall|s: Seq<char>| #[trigger] candidates(base, n).contains(s) implies exists|m: nat|
            1 <= m <= n && s == #[trigger] candidate(base, m) by {
            if s == candidate(base, n) {
                assert(1 <= n && s == candidate(base, n));
            } else {
                let m = choose|m: nat| 1 <= m <= n - 1 && s == #[trigger] candidate(base, m);
                assert(1 <= m <= n && s == candidate(base, m));
            }
        }
    }
}

proof fn lemma_taken_are_few(used: Set<Seq<char>>, base: Seq<char>, n: nat)
    requires
        used.finite(),
        forall|m: nat| 1 <= m <= n ==> used.contains(#[trigger] candidate(base, m)),
    ensures
        n <= used.len(),
{
    lemma_candidates(base, n);
    assert(candidates(base, n).subset_of(used)) by {
        assert forall|s: Seq<char>| candidates(base, n).contains(s) implies used.contains(s) by {
            let m = choose|m: nat| 1 <= m <= n && s == #[trigger] candidate(base, m);
        }
    }
    vstd::set_lib::lemma_len_subset(candidates(base, n), used);
}

proof fn lemma_some_candidate_is_free(used: Set<Seq<char>>, base: Seq<char>, n: nat)
    requires
        used.finite(),
        n >= 1,
        forall|m: nat| 1 <= m < n ==> used.contains(#[trigger] candidate(base, m)),
    ensures
        exists|k: nat| first_free(used, base, k),
    decreases used.len() + 1 - n,
{
    if used.contains(candidate(base, n)) {
        assert forall|m: nat| 1 <= m <= n implies used.contains(#[trigger] candidate(base, m)) by {}
        lemma_taken_are_few(used, base, n);
        lemma_some_candidate_is_free(used, base, n + 1);
    } else {
        assert(first_free(used, base, n));
    }
}

/// A minted name is not taken.
pub proof fn a_minted_name_is_free(used: Set<Seq<char>>, base: Seq<char>)
    requires
        used.finite(),
    ensures
        !used.contains(minted(used, base)),
{
    lemma_some_candidate_is_free(used, base, 1);
}

fn mint(used: &mut NameSet, base: &str) -> (name: String)
    requires
        old(used)@.finite(),
        old(used)@.len() < 0x1_0000_0000_0000_0000_0000,
    ensures
        name@ == minted(old(used)@, base@),
        final(used)@ == old(used)@.insert(name@),
{
    let mut name = String::from_str(base);
    let mut n: u128 = 1;
    let ghost u = used@;
    while used.contains(name.as_str())
        invariant
            used@ == u,
            u.finite(),
            u.len() < 0x1_0000_0000_0000_0000_0000,
            1 <= n <= u.len() + 1,
            name@ == candidate(base@, n as nat),
            forall|m: nat| 1 <= m < n ==> u.contains(#[trigger] candidate(base@, m)),
        decreases u.len() + 1 - n,
    {
        proof {
            assert forall|m: nat| 1 <= m <= n implies u.contains(
                #[trigger] candidate(base@, m),
            ) by {}
            lemma_taken_are_few(u, base@, n as nat);
        }
        n = n + 1;
        name = joined(base, "#");
        name.append(decimal_wide(n).as_str());
    }
    proof {
        assert(first_free(u, base@, n as nat));
        let k = choose|k: nat| first_free(u, base@, k);
        assert(first_free(u, base@, k));
        if k < n {
            assert(u.contains(candidate(base@, k)));
        } else if n < k {
            assert(u.contains(candidate(base@, n as nat)));
        }
    }
    used.insert(name.clone());
    name
}

// IR names

/// The names that are taken, and those that definitions were given in place of their own.
pub ghost struct MintView {
    pub used: Set<Seq<char>>,
    pub names: Map<usize, Seq<char>>,
}

/// The names of the first `m` definitions, as written.
pub open spec fn written(defs: Seq<DefView>, m: int) -> Set<Seq<char>>
    decreases m,
{
    if m <= 0 {
        Set::empty()
    } else {
        written(defs, m - 1).insert(defs[m - 1].name)
    }
}

/// What the name of definition `i` is made of, the `k`th function that has its name: the name as
/// written, and the file, or the number where there is none.
pub open spec fn mint_base(units: Seq<UnitView>, d: DefView, k: nat) -> Seq<char> {
    match units[d.unit as int].path {
        Some(p) => d.name + "$"@ + file_name(p),
        None => d.name + "$"@ + dec(k),
    }
}

/// Names those of the definitions `list`, all of one name, from number `p` on, that are functions of
/// their own. The first keeps the name; `k` functions have been named before.
pub open spec fn mint_group(
    units: Seq<UnitView>,
    defs: Seq<DefView>,
    list: Seq<usize>,
    p: int,
    k: nat,
    ms: MintView,
) -> MintView
    decreases list.len() - p,
{
    if p < 0 || p >= list.len() {
        ms
    } else if p == 0 || duplicate(defs, list[p]) {
        mint_group(units, defs, list, p + 1, k, ms)
    } else {
        let name = minted(ms.used, mint_base(units, defs[list[p] as int], k));
        mint_group(
            units,
            defs,
            list,
            p + 1,
            k + 1,
            MintView { used: ms.used.insert(name), names: ms.names.insert(list[p], name) },
        )
    }
}

/// Names the definitions of every name that first comes up from definition `d` on.
pub open spec fn mint_from(
    units: Seq<UnitView>,
    defs: Seq<DefView>,
    d: int,
    ms: MintView,
) -> MintView
    decreases defs.len() - d,
{
    if d < 0 || d >= defs.len() {
        ms
    } else if is_first(defs, d) {
        mint_from(units, defs, d + 1, mint_group(units, defs, namesakes(defs, d), 0, 1, ms))
    } else {
        mint_from(units, defs, d + 1, ms)
    }
}

/// The names that definitions are given in place of their own.
pub open spec fn minted_names(units: Seq<UnitView>, defs: Seq<DefView>) -> Map<usize, Seq<char>> {
    mint_from(
        units,
        defs,
        0,
        MintView { used: written(defs, defs.len() as int), names: Map::empty() },
    ).names
}

/// The IR name of definition `i`: that of the definition that contributes its function, which is
/// the name as written unless another was made for it.
pub open spec fn ir_name(defs: Seq<DefView>, names: Map<usize, Seq<char>>, i: usize) -> Seq<char> {
    let o = owner(defs, i);
    if names.contains_key(o) {
        names[o]
    } else {
        defs[o as int].name
    }
}

// Laws of the names

spec fn settled(defs: Seq<DefView>, ms: MintView) -> bool {
    &&& ms.used.finite()
    &&& forall|i: int| 0 <= i < defs.len() ==> ms.used.contains(#[trigger] defs[i].name)
    &&& forall|i: usize| #[trigger]
        ms.names.contains_key(i) ==> ms.used.contains(ms.names[i]) && i < defs.len()
            && !duplicate(defs, i)
    &&& forall|i: usize, j: int| #![trigger ms.names[i], defs[j]]
        ms.names.contains_key(i) && 0 <= j < defs.len() ==> ms.names[i] != defs[j].name
    &&& forall|i: usize, j: usize| #![trigger ms.names[i], ms.names[j]]
        ms.names.contains_key(i) && ms.names.contains_key(j) && i != j ==> ms.names[i]
            != ms.names[j]
}

/// Whether every function of the name of definition `d` has a name, but for the first.
spec fn all_named(defs: Seq<DefView>, ms: MintView, name: Seq<char>) -> bool {
    forall|i: usize|
        #![trigger duplicate(defs, i)]
        i < defs.len() && defs[i as int].name == name && !duplicate(defs, i) && !is_first(
            defs,
            i as int,
        ) ==> ms.names.contains_key(i)
}

proof fn lemma_written(defs: Seq<DefView>, m: int)
    requires
        0 <= m <= defs.len(),
    ensures
        written(defs, m).finite(),
        written(defs, m).len() <= m,
        forall|i: int| 0 <= i < m ==> written(defs, m).contains(#[trigger] defs[i].name),
    decreases m,
{
    if m > 0 {
        lemma_written(defs, m - 1);
    }
}

proof fn lemma_mint_group(
    units: Seq<UnitView>,
    defs: Seq<DefView>,
    list: Seq<usize>,
    p: int,
    k: nat,
    ms: MintView,
)
    requires
        settled(defs, ms),
        0 <= p <= list.len(),
        forall|q: int| 0 <= q < list.len() ==> (#[trigger] list[q]) < defs.len(),
        forall|q: int, r: int|
            0 <= q < r < list.len() ==> (#[trigger] list[q]) < (#[trigger] list[r]),
        forall|q: int| p <= q < list.len() && q > 0 ==> !ms.names.contains_key(#[trigger] list[q]),
    ensures
        settled(defs, mint_group(units, defs, list, p, k, ms)),
        forall|i: usize| #[trigger]
            ms.names.contains_key(i) ==> mint_group(
                units,
                defs,
                list,
                p,
                k,
                ms,
            ).names.contains_key(i),
        forall|q: int|
            p <= q < list.len() && q > 0 && !duplicate(defs, list[q]) ==> mint_group(
                units,
                defs,
                list,
                p,
                k,
                ms,
            ).names.contains_key(#[trigger] list[q]),
        forall|i: usize| #[trigger]
            mint_group(units, defs, list, p, k, ms).names.contains_key(i) ==> ms.names.contains_key(
                i,
            ) || exists|q: int| p <= q < list.len() && q > 0 && i == #[trigger] list[q],
    decreases list.len() - p,
{
    if p < list.len() {
        if p == 0 || duplicate(defs, list[p]) {
            lemma_mint_group(units, defs, list, p + 1, k, ms);
        } else {
            let base = mint_base(units, defs[list[p] as int], k);
            let name = minted(ms.used, base);
            let next = MintView {
                used: ms.used.insert(name),
                names: ms.names.insert(list[p], name),
            };
            a_minted_name_is_free(ms.used, base);
            assert(settled(defs, next)) by {
                assert forall|i: usize, j: usize|
                    #![trigger next.names[i], next.names[j]]
                    next.names.contains_key(i) && next.names.contains_key(j) && i
                        != j implies next.names[i] != next.names[j] by {
                    if i == list[p] {
                        assert(ms.names.contains_key(j));
                    } else if j == list[p] {
                        assert(ms.names.contains_key(i));
                    } else {
                        assert(ms.names[i] != ms.names[j]);
                    }
                }
                assert forall|i: usize, j: int| #![trigger next.names[i], defs[j]]
                    next.names.contains_key(i) && 0 <= j < defs.len() implies next.names[i]
                    != defs[j].name by {
                    if i == list[p] {
                        assert(ms.used.contains(defs[j].name));
                    } else {
                        assert(ms.names[i] != defs[j].name);
                    }
                }
            }
            lemma_mint_group(units, defs, list, p + 1, k + 1, next);
            assert(next.names.contains_key(list[p]));
            assert forall|i: usize| #[trigger] ms.names.contains_key(i) implies mint_group(
                units,
                defs,
                list,
                p,
                k,
                ms,
            ).names.contains_key(i) by {
                assert(next.names.contains_key(i));
            }
        }
    }
}

proof fn lemma_mint_from(units: Seq<UnitView>, defs: Seq<DefView>, d: int, ms: MintView)
    requires
        defs.len() <= usize::MAX,
        0 <= d <= defs.len(),
        settled(defs, ms),
        forall|i: int| 0 <= i < d ==> all_named(defs, ms, #[trigger] defs[i].name),
        forall|i: usize| #[trigger]
            ms.names.contains_key(i) ==> !is_first(defs, i as int) && exists|e: int|
                0 <= e < d && (#[trigger] defs[e]).name == defs[i as int].name,
    ensures
        settled(defs, mint_from(units, defs, d, ms)),
        forall|i: int|
            0 <= i < defs.len() ==> all_named(
                defs,
                mint_from(units, defs, d, ms),
                #[trigger] defs[i].name,
            ),
        forall|i: usize| #[trigger]
            mint_from(units, defs, d, ms).names.contains_key(i) ==> !is_first(defs, i as int),
    decreases defs.len() - d,
{
    if d < defs.len() {
        if is_first(defs, d) {
            let list = namesakes(defs, d);
            namesakes_of(defs, d);
            assert forall|q: int| 0 <= q < list.len() && q > 0 implies !ms.names.contains_key(
                #[trigger] list[q],
            ) by {
                if ms.names.contains_key(list[q]) {
                    let e = choose|e: int|
                        0 <= e < d && (#[trigger] defs[e]).name == defs[list[q] as int].name;
                    assert(defs[e].name == defs[d].name);
                }
            }
            lemma_mint_group(units, defs, list, 0, 1, ms);
            let next = mint_group(units, defs, list, 0, 1, ms);
            assert forall|i: int| 0 <= i < d + 1 implies all_named(
                defs,
                next,
                #[trigger] defs[i].name,
            ) by {
                assert forall|j: usize|
                    #![trigger duplicate(defs, j)]
                    j < defs.len() && defs[j as int].name == defs[i].name && !duplicate(defs, j)
                        && !is_first(defs, j as int) implies next.names.contains_key(j) by {
                    if defs[i].name == defs[d].name {
                        assert(list.contains(j));
                        let q = choose|q: int| 0 <= q < list.len() && list[q] == j;
                        if q == 0 {
                            assert(list[0] == d);
                        }
                        assert(next.names.contains_key(list[q]));
                    } else {
                        assert(i < d);
                        assert(all_named(defs, ms, defs[i].name));
                        assert(ms.names.contains_key(j));
                    }
                }
            }
            assert forall|i: usize| #[trigger] next.names.contains_key(i) implies !is_first(
                defs,
                i as int,
            ) && exists|e: int| 0 <= e < d + 1 && (#[trigger] defs[e]).name
                == defs[i as int].name by {
                if ms.names.contains_key(i) {
                    let e = choose|e: int|
                        0 <= e < d && (#[trigger] defs[e]).name == defs[i as int].name;
                    assert(defs[e].name == defs[i as int].name);
                } else {
                    let q = choose|q: int| 0 <= q < list.len() && q > 0 && i == #[trigger] list[q];
                    assert(list[0] < list[q]);
                    assert(defs[list[0] as int].name == defs[list[q] as int].name);
                    assert(defs[d].name == defs[i as int].name);
                }
            }
            lemma_mint_from(units, defs, d + 1, next);
        } else {
            assert forall|i: int| 0 <= i < d + 1 implies all_named(
                defs,
                ms,
                #[trigger] defs[i].name,
            ) by {
                if i == d {
                    let e = choose|e: int| 0 <= e < d && (#[trigger] defs[e]).name == defs[d].name;
                    assert(all_named(defs, ms, defs[e].name));
                }
            }
            lemma_mint_from(units, defs, d + 1, ms);
        }
    }
}

proof fn lemma_names(units: Seq<UnitView>, defs: Seq<DefView>)
    requires
        defs.len() <= usize::MAX,
    ensures
        ({
            let ms = mint_from(
                units,
                defs,
                0,
                MintView { used: written(defs, defs.len() as int), names: Map::empty() },
            );
            &&& settled(defs, ms)
            &&& forall|i: int|
                0 <= i < defs.len() ==> all_named(defs, ms, #[trigger] defs[i].name)
            &&& forall|i: usize| #[trigger]
                ms.names.contains_key(i) ==> !is_first(defs, i as int)
        }),
{
    lemma_written(defs, defs.len() as int);
    lemma_mint_from(
        units,
        defs,
        0,
        MintView { used: written(defs, defs.len() as int), names: Map::empty() },
    );
}

/// No two functions share a name: two definitions that are not the same function have different IR
/// names.
pub proof fn different_functions_have_different_names(
    units: Seq<UnitView>,
    defs: Seq<DefView>,
    i: usize,
    j: usize,
)
    requires
        defs.len() <= usize::MAX,
        i < defs.len(),
        j < defs.len(),
        !same_function(defs[i as int], defs[j as int]),
    ensures
        ir_name(defs, minted_names(units, defs), i) != ir_name(defs, minted_names(units, defs), j),
{
    lemma_names(units, defs);
    let names = minted_names(units, defs);
    an_owner_is_its_own(defs, i);
    an_owner_is_its_own(defs, j);
    let a = owner(defs, i);
    let b = owner(defs, j);
    assert(a != b);
    if names.contains_key(a) {
        if !names.contains_key(b) {
            assert(names[a] != defs[b as int].name);
        } else {
            assert(names[a] != names[b]);
        }
    } else if names.contains_key(b) {
        assert(names[b] != defs[a as int].name);
    } else if defs[a as int].name == defs[b as int].name {
        assert(!duplicate(defs, a));
        assert(!duplicate(defs, b));
        if is_first(defs, a as int) && is_first(defs, b as int) {
            assert(a == b);
        }
        assert(false);
    }
}

/// Definitions that quote the same characters are one function, under one name.
pub proof fn copies_share_a_name(
    units: Seq<UnitView>,
    defs: Seq<DefView>,
    i: usize,
    j: usize,
)
    requires
        defs.len() <= usize::MAX,
        i < defs.len(),
        j < defs.len(),
        same_function(defs[i as int], defs[j as int]),
    ensures
        owner(defs, i) == owner(defs, j),
        ir_name(defs, minted_names(units, defs), i) == ir_name(defs, minted_names(units, defs), j),
{
    crate::units::copies_have_one_owner(defs, i, j);
}

/// The first definition of a name keeps it, so that a declaration, a call from a unit that defines
/// nothing of that name, and a model still mean something by it.
pub proof fn the_first_definition_keeps_its_name(
    units: Seq<UnitView>,
    defs: Seq<DefView>,
    i: usize,
)
    requires
        defs.len() <= usize::MAX,
        i < defs.len(),
        is_first(defs, i as int),
    ensures
        ir_name(defs, minted_names(units, defs), i) == defs[i as int].name,
{
    lemma_names(units, defs);
    an_owner_is_its_own(defs, i);
    let o = owner(defs, i);
    if o < i {
        assert(defs[o as int].name == defs[i as int].name);
    }
}

// Executable naming

/// The names in `v`, by number.
pub open spec fn name_table(v: Seq<Option<String>>) -> Map<usize, Seq<char>> {
    Map::new(|i: usize| i < v.len() && v[i as int] is Some, |i: usize| v[i as int]->0@)
}

fn base_for(units: &Vec<TranslationUnit>, d: &Definition, k: usize) -> (s: String)
    requires
        d.unit < units@.len(),
    ensures
        s@ == mint_base(views(units@), d@, k as nat),
{
    let mut s = joined(d.name.as_str(), "$");
    match &units[d.unit].path {
        Some(p) => s.append(file_name_of(p.as_str()).as_str()),
        None => s.append(decimal(k).as_str()),
    }
    s
}

/// The names that definitions are given in place of their own.
#[verifier::loop_isolation(false)]
fn mint_names(
    units: &Vec<TranslationUnit>,
    defs: &Vec<Definition>,
    groups: &Vec<Vec<usize>>,
    owner_of: &Vec<usize>,
) -> (names: Vec<Option<String>>)
    requires
        grouping(views(defs@), groups@),
        owning(views(defs@), owner_of@),
        forall|i: int| 0 <= i < defs@.len() ==> (#[trigger] defs@[i]).unit < units@.len(),
    ensures
        names@.len() == defs@.len(),
        name_table(names@) == minted_names(views(units@), views(defs@)),
{
    let ghost dv = views(defs@);
    let ghost uv = views(units@);
    let mut used = NameSet::new();
    let mut names: Vec<Option<String>> = Vec::new();
    let mut z: usize = 0;
    while z < defs.len()
        invariant
            z <= defs@.len(),
            names@.len() == z,
            used@ == written(dv, z as int),
            forall|i: int| 0 <= i < z ==> (#[trigger] names@[i]) is None,
        decreases defs@.len() - z,
    {
        used.insert(defs[z].name.clone());
        names.push(None);
        z = z + 1;
    }
    let ghost start = MintView { used: written(dv, dv.len() as int), names: Map::empty() };
    proof {
        lemma_written(dv, dv.len() as int);
    }
    assert(name_table(names@) =~= start.names);
    // One entry per name made, so that their number is known to be small.
    let mut made: Vec<usize> = Vec::new();
    let mut d: usize = 0;
    while d < defs.len()
        invariant
            d <= defs@.len(),
            names@.len() == defs@.len(),
            used@.finite(),
            used@.len() <= defs@.len() + made@.len(),
            mint_from(
                uv,
                dv,
                d as int,
                MintView { used: used@, names: name_table(names@) },
            ) == mint_from(uv, dv, 0, start),
        decreases defs@.len() - d,
    {
        let list = &groups[d];
        proof {
            if is_first(dv, d as int) {
                namesakes_of(dv, d as int);
            }
        }
        let ghost before = MintView { used: used@, names: name_table(names@) };
        let mut p: usize = 0;
        let mut k: usize = 1;
        while p < list.len()
            invariant
                p <= list@.len(),
                1 <= k <= p + 1,
                p > 0 ==> k <= p,
                names@.len() == defs@.len(),
                used@.finite(),
                used@.len() <= defs@.len() + made@.len(),
                mint_group(
                    uv,
                    dv,
                    list@,
                    p as int,
                    k as nat,
                    MintView { used: used@, names: name_table(names@) },
                ) == mint_group(uv, dv, list@, 0, 1, before),
            decreases list@.len() - p,
        {
            let i = list[p];
            assert(i < defs@.len());
            if p > 0 && owner_of[i] == i {
                assert(!duplicate(dv, i));
                let base = base_for(units, &defs[i], k);
                let ghost old_names = name_table(names@);
                let total: u128 = defs.len() as u128 + made.len() as u128;
                assert(used@.len() <= total);
                let name = mint(&mut used, base.as_str());
                names[i] = Some(name);
                made.push(i);
                assert(name_table(names@) =~= old_names.insert(i, name@));
                k = k + 1;
            }
            p = p + 1;
        }
        if list.len() == 0 {
            assert(!is_first(dv, d as int));
        }
        d = d + 1;
    }
    names
}

// What a name means in a unit

/// What is known of the meaning of names in each unit, and the reports made.
pub ghost struct LocalView {
    pub maps: Seq<Map<Seq<char>, Seq<char>>>,
    pub log: LogView,
}

/// Whether one of the definitions `list`, all of one name, from number `p` on, is another function
/// than the first.
pub open spec fn contested(defs: Seq<DefView>, list: Seq<usize>, p: int) -> bool
    decreases list.len() - p,
{
    if p < 0 || p >= list.len() {
        false
    } else {
        (p > 0 && !duplicate(defs, list[p])) || contested(defs, list, p + 1)
    }
}

/// Where a definition stands, as a report puts it.
pub open spec fn place_text(unit: UnitView) -> Seq<char> {
    match unit.path {
        Some(p) => "`"@ + p + "`"@,
        None => "this translation unit"@,
    }
}

/// What is said of a name that one unit defines more than once.
pub open spec fn defined_again(
    name: Seq<char>,
    unit: UnitView,
    given: Seq<char>,
    held: Seq<char>,
) -> Seq<char> {
    "`"@ + name + "` is defined more than once in "@ + place_text(unit)
        + "; C gives a name one definition per translation unit, so this one is analyzed as `"@
        + given + "` and a call to `"@ + name + "` here resolves to `"@ + held + "`"@
}

/// Records what the name of the definitions `list`, from number `p` on, means in the unit of each:
/// the first definition that the unit holds. Another one in the same unit is reported.
pub open spec fn local_group(
    units: Seq<UnitView>,
    defs: Seq<DefView>,
    names: Map<usize, Seq<char>>,
    list: Seq<usize>,
    p: int,
    ls: LocalView,
) -> (LocalView, Result<(), ErrorView>)
    decreases list.len() - p,
{
    if p < 0 || p >= list.len() {
        (ls, Ok(()))
    } else {
        let d = defs[list[p] as int];
        let given = ir_name(defs, names, list[p]);
        let map = ls.maps[d.unit as int];
        if !map.contains_key(d.name) {
            let maps = ls.maps.update(d.unit as int, map.insert(d.name, given));
            local_group(units, defs, names, list, p + 1, LocalView { maps, ..ls })
        } else if map[d.name] != given {
            match logged(
                ls.log,
                Attribution::SourceProblem,
                defined_again(d.name, units[d.unit as int], given, map[d.name]),
            ) {
                (log, Ok(_)) => local_group(
                    units,
                    defs,
                    names,
                    list,
                    p + 1,
                    LocalView { log, ..ls },
                ),
                (log, Err(e)) => (LocalView { log, ..ls }, Err(e)),
            }
        } else {
            local_group(units, defs, names, list, p + 1, ls)
        }
    }
}

/// Records what every contested name that first comes up from definition `d` on means.
pub open spec fn local_from(
    units: Seq<UnitView>,
    defs: Seq<DefView>,
    names: Map<usize, Seq<char>>,
    d: int,
    ls: LocalView,
) -> (LocalView, Result<(), ErrorView>)
    decreases defs.len() - d,
{
    if d < 0 || d >= defs.len() {
        (ls, Ok(()))
    } else if is_first(defs, d) && contested(defs, namesakes(defs, d), 0) {
        match local_group(units, defs, names, namesakes(defs, d), 0, ls) {
            (ls, Ok(_)) => local_from(units, defs, names, d + 1, ls),
            (ls, Err(e)) => (ls, Err(e)),
        }
    } else {
        local_from(units, defs, names, d + 1, ls)
    }
}

/// What there is to know of the definitions of an import.
pub ghost struct PlanView {
    /// Of each definition, whether it is a copy of an earlier one.
    pub duplicates: Seq<bool>,
    /// The IR name of each definition.
    pub names: Seq<Seq<char>>,
    /// Of each unit, what the names that several functions claim mean in it.
    pub local_names: Seq<Map<Seq<char>, Seq<char>>>,
}

/// What each definition is, and what names mean in each unit.
pub open spec fn planned(units: Seq<UnitView>, defs: Seq<DefView>, log: LogView) -> (
    LogView,
    Result<PlanView, ErrorView>,
) {
    let names = minted_names(units, defs);
    let none = Seq::new(units.len(), |u: int| Map::<Seq<char>, Seq<char>>::empty());
    match local_from(units, defs, names, 0, LocalView { maps: none, log }) {
        (ls, Ok(_)) => (
            ls.log,
            Ok(
                PlanView {
                    duplicates: Seq::new(defs.len(), |i: int| duplicate(defs, i as usize)),
                    names: Seq::new(defs.len(), |i: int| ir_name(defs, names, i as usize)),
                    local_names: ls.maps,
                },
            ),
        ),
        (ls, Err(e)) => (ls.log, Err(e)),
    }
}

/// What a call of `name` means in unit `u`: what the plan says of the name in that unit, or the name
/// itself.
pub open spec fn resolved(plan: PlanView, u: int, name: Seq<char>) -> Seq<char> {
    if plan.local_names[u].contains_key(name) {
        plan.local_names[u][name]
    } else {
        name
    }
}

/// Whether `i` is the first definition of its name that its unit holds.
pub open spec fn first_in_unit(defs: Seq<DefView>, i: usize) -> bool {
    forall|j: int|
        0 <= j < i && (#[trigger] defs[j]).unit == defs[i as int].unit ==> defs[j].name
            != defs[i as int].name
}

/// Whether two lists of maps agree on `name`.
spec fn agree(
    a: Seq<Map<Seq<char>, Seq<char>>>,
    b: Seq<Map<Seq<char>, Seq<char>>>,
    name: Seq<char>,
) -> bool {
    a.len() == b.len() && forall|u: int|
        0 <= u < a.len() ==> (#[trigger] a[u]).contains_key(name) == b[u].contains_key(name)
            && a[u][name] == b[u][name]
}

proof fn lemma_local_group(
    units: Seq<UnitView>,
    defs: Seq<DefView>,
    names: Map<usize, Seq<char>>,
    list: Seq<usize>,
    p: int,
    ls: LocalView,
    name: Seq<char>,
)
    requires
        0 <= p,
        forall|q: int|
            0 <= q < list.len() ==> (#[trigger] list[q]) < defs.len() && defs[list[q] as int].name
                == name && defs[list[q] as int].unit < ls.maps.len(),
        local_group(units, defs, names, list, p, ls).1 is Ok,
    ensures
        ({
            let out = local_group(units, defs, names, list, p, ls).0.maps;
            &&& out.len() == ls.maps.len()
            &&& forall|other: Seq<char>|
                other != name ==> #[trigger] agree(out, ls.maps, other)
            &&& forall|u: int|
                0 <= u < out.len() && ls.maps[u].contains_key(name) ==> (
                #[trigger] out[u]).contains_key(name) && out[u][name] == ls.maps[u][name]
            &&& forall|q: int|
                p <= q < list.len() && !ls.maps[defs[list[q] as int].unit as int].contains_key(name)
                    && (forall|r: int|
                    p <= r < q ==> defs[(#[trigger] list[r]) as int].unit
                        != defs[list[q] as int].unit) ==> {
                    let u = defs[(#[trigger] list[q]) as int].unit as int;
                    out[u].contains_key(name) && out[u][name] == ir_name(defs, names, list[q])
                }
            &&& forall|u: int|
                0 <= u < out.len() && !ls.maps[u].contains_key(name) && (forall|q: int|
                    p <= q < list.len() ==> defs[(#[trigger] list[q]) as int].unit != u) ==> !(
                #[trigger] out[u]).contains_key(name)
        }),
    decreases list.len() - p,
{
    if p < list.len() {
        let d = defs[list[p] as int];
        let u0 = d.unit as int;
        let given = ir_name(defs, names, list[p]);
        let map = ls.maps[u0];
        let next = if !map.contains_key(d.name) {
            LocalView { maps: ls.maps.update(u0, map.insert(d.name, given)), ..ls }
        } else if map[d.name] != given {
            LocalView {
                log: logged(
                    ls.log,
                    Attribution::SourceProblem,
                    defined_again(d.name, units[u0], given, map[d.name]),
                ).0,
                ..ls
            }
        } else {
            ls
        };
        lemma_local_group(units, defs, names, list, p + 1, next, name);
        let out = local_group(units, defs, names, list, p, ls).0.maps;
        assert(out == local_group(units, defs, names, list, p + 1, next).0.maps);
        assert forall|other: Seq<char>| other != name implies #[trigger] agree(
            out,
            ls.maps,
            other,
        ) by {
            assert(agree(out, next.maps, other));
        }
        assert forall|q: int|
            p <= q < list.len() && !ls.maps[defs[list[q] as int].unit as int].contains_key(name)
                && (forall|r: int|
                p <= r < q ==> defs[(#[trigger] list[r]) as int].unit
                    != defs[list[q] as int].unit) implies ({
            let u = defs[(#[trigger] list[q]) as int].unit as int;
            out[u].contains_key(name) && out[u][name] == ir_name(defs, names, list[q])
        }) by {
            if q > p {
                assert(defs[list[p] as int].unit != defs[list[q] as int].unit);
            } else {
                assert(next.maps[u0].contains_key(name));
            }
        }
    }
}

proof fn lemma_later_names(
    units: Seq<UnitView>,
    defs: Seq<DefView>,
    names: Map<usize, Seq<char>>,
    d: int,
    ls: LocalView,
    f: int,
)
    requires
        defs.len() <= usize::MAX,
        0 <= f < d,
        f < defs.len(),
        forall|i: int| 0 <= i < defs.len() ==> (#[trigger] defs[i]).unit < ls.maps.len(),
        local_from(units, defs, names, d, ls).1 is Ok,
    ensures
        agree(local_from(units, defs, names, d, ls).0.maps, ls.maps, defs[f].name),
    decreases defs.len() - d,
{
    if d < defs.len() {
        if is_first(defs, d) && contested(defs, namesakes(defs, d), 0) {
            namesakes_of(defs, d);
            let list = namesakes(defs, d);
            let next = local_group(units, defs, names, list, 0, ls).0;
            lemma_local_group(units, defs, names, list, 0, ls, defs[d].name);
            assert(defs[f].name != defs[d].name);
            assert(agree(next.maps, ls.maps, defs[f].name));
            lemma_later_names(units, defs, names, d + 1, next, f);
        } else {
            lemma_later_names(units, defs, names, d + 1, ls, f);
        }
    }
}

/// Whether the maps say of the name of definition `f`, the first of its name, what it means: if several
/// functions claim it, in each unit that defines it the first definition there; elsewhere nothing,
/// so that the name means itself.
pub open spec fn settled_name(
    defs: Seq<DefView>,
    names: Map<usize, Seq<char>>,
    maps: Seq<Map<Seq<char>, Seq<char>>>,
    f: int,
) -> bool {
    let name = defs[f].name;
    if contested(defs, namesakes(defs, f), 0) {
        &&& forall|i: usize|
            i < defs.len() && (#[trigger] defs[i as int]).name == name && first_in_unit(defs, i)
                ==> maps[defs[i as int].unit as int].contains_key(name)
                && maps[defs[i as int].unit as int][name] == ir_name(defs, names, i)
        &&& forall|u: int|
            0 <= u < maps.len() && (forall|i: int|
                0 <= i < defs.len() && (#[trigger] defs[i]).name == name ==> defs[i].unit != u)
                ==> !(#[trigger] maps[u]).contains_key(name)
    } else {
        forall|u: int| 0 <= u < maps.len() ==> !(#[trigger] maps[u]).contains_key(name)
    }
}

proof fn lemma_settled(
    units: Seq<UnitView>,
    defs: Seq<DefView>,
    names: Map<usize, Seq<char>>,
    d: int,
    ls: LocalView,
    f: int,
)
    requires
        defs.len() <= usize::MAX,
        0 <= d <= f < defs.len(),
        is_first(defs, f),
        forall|i: int| 0 <= i < defs.len() ==> (#[trigger] defs[i]).unit < ls.maps.len(),
        forall|u: int| 0 <= u < ls.maps.len() ==> !(#[trigger] ls.maps[u]).contains_key(defs[f].name),
        local_from(units, defs, names, d, ls).1 is Ok,
    ensures
        local_from(units, defs, names, d, ls).0.maps.len() == ls.maps.len(),
        settled_name(defs, names, local_from(units, defs, names, d, ls).0.maps, f),
    decreases defs.len() - d,
{
    let name = defs[f].name;
    let out = local_from(units, defs, names, d, ls).0;
    let hit = is_first(defs, d) && contested(defs, namesakes(defs, d), 0);
    let list = namesakes(defs, d);
    let next = if hit {
        local_group(units, defs, names, list, 0, ls).0
    } else {
        ls
    };
    if is_first(defs, d) {
        namesakes_of(defs, d);
    }
    if hit {
        lemma_local_group(units, defs, names, list, 0, ls, defs[d].name);
    }
    if d < f {
        if hit {
            assert(defs[d].name != name);
            assert(agree(next.maps, ls.maps, name));
        }
        lemma_settled(units, defs, names, d + 1, next, f);
    } else {
        lemma_later_names(units, defs, names, d + 1, next, f);
        assert(agree(out.maps, next.maps, name));
        if hit {
            assert forall|i: usize|
                i < defs.len() && (#[trigger] defs[i as int]).name == name && first_in_unit(
                    defs,
                    i,
                ) implies out.maps[defs[i as int].unit as int].contains_key(name)
                && out.maps[defs[i as int].unit as int][name] == ir_name(defs, names, i) by {
                assert(list.contains(i));
                let q = choose|q: int| 0 <= q < list.len() && list[q] == i;
                assert forall|r: int| 0 <= r < q implies defs[(#[trigger] list[r]) as int].unit
                    != defs[list[q] as int].unit by {
                    assert(list[r] < list[q]);
                    assert(defs[list[r] as int].name == name);
                }
                assert(next.maps[defs[list[q] as int].unit as int].contains_key(name));
            }
            assert forall|u: int|
                0 <= u < out.maps.len() && (forall|i: int|
                    0 <= i < defs.len() && (#[trigger] defs[i]).name == name ==> defs[i].unit
                        != u) implies !(#[trigger] out.maps[u]).contains_key(name) by {
                assert forall|q: int| 0 <= q < list.len() implies defs[(
                #[trigger] list[q]) as int].unit != u by {
                    assert(defs[list[q] as int].name == name);
                }
                assert(!next.maps[u].contains_key(name));
            }
        }
    }
}

proof fn lemma_uncontested(defs: Seq<DefView>, list: Seq<usize>, p: int, q: int)
    requires
        0 <= p <= q < list.len(),
        q > 0,
        !contested(defs, list, p),
    ensures
        duplicate(defs, list[q]),
    decreases list.len() - p,
{
    if p < q {
        lemma_uncontested(defs, list, p + 1, q);
    }
}

proof fn lemma_no_such_name(
    units: Seq<UnitView>,
    defs: Seq<DefView>,
    names: Map<usize, Seq<char>>,
    d: int,
    ls: LocalView,
    name: Seq<char>,
)
    requires
        defs.len() <= usize::MAX,
        0 <= d,
        forall|i: int| 0 <= i < defs.len() ==> (#[trigger] defs[i]).name != name,
        forall|i: int| 0 <= i < defs.len() ==> (#[trigger] defs[i]).unit < ls.maps.len(),
        local_from(units, defs, names, d, ls).1 is Ok,
    ensures
        agree(local_from(units, defs, names, d, ls).0.maps, ls.maps, name),
    decreases defs.len() - d,
{
    if d < defs.len() {
        if is_first(defs, d) && contested(defs, namesakes(defs, d), 0) {
            namesakes_of(defs, d);
            let list = namesakes(defs, d);
            let next = local_group(units, defs, names, list, 0, ls).0;
            lemma_local_group(units, defs, names, list, 0, ls, defs[d].name);
            assert(agree(next.maps, ls.maps, name));
            lemma_no_such_name(units, defs, names, d + 1, next, name);
        } else {
            lemma_no_such_name(units, defs, names, d + 1, ls, name);
        }
    }
}

/// A plan says, for every name and every unit, what the name means there: a name that several
/// functions claim means the first definition that the unit holds, where it holds one. Of every
/// other name it says nothing.
pub proof fn every_name_is_settled(
    units: Seq<UnitView>,
    defs: Seq<DefView>,
    log: LogView,
    name: Seq<char>,
)
    requires
        defs.len() <= usize::MAX,
        forall|j: int| 0 <= j < defs.len() ==> (#[trigger] defs[j]).unit < units.len(),
        planned(units, defs, log).1 is Ok,
    ensures
        ({
            let plan = planned(units, defs, log).1->Ok_0;
            &&& plan.local_names.len() == units.len()
            &&& forall|f: int|
                0 <= f < defs.len() && #[trigger] is_first(defs, f) && defs[f].name == name
                    ==> settled_name(defs, minted_names(units, defs), plan.local_names, f)
            &&& (forall|f: int| 0 <= f < defs.len() ==> (#[trigger] defs[f]).name != name)
                ==> forall|u: int|
                0 <= u < units.len() ==> !(#[trigger] plan.local_names[u]).contains_key(name)
        }),
{
    let names = minted_names(units, defs);
    let none = Seq::new(units.len(), |u: int| Map::<Seq<char>, Seq<char>>::empty());
    let start = LocalView { maps: none, log };
    assert forall|f: int|
        0 <= f < defs.len() && #[trigger] is_first(defs, f) && defs[f].name
            == name implies settled_name(
        defs,
        names,
        local_from(units, defs, names, 0, start).0.maps,
        f,
    ) by {
        lemma_settled(units, defs, names, 0, start, f);
    }
    if defs.len() > 0 {
        lemma_first_of(defs, 0);
        lemma_settled(units, defs, names, 0, start, first_of(defs, 0));
    }
    if forall|f: int| 0 <= f < defs.len() ==> (#[trigger] defs[f]).name != name {
        lemma_no_such_name(units, defs, names, 0, start, name);
    }
}

/// A unit means its own definition by a name that it defines: the first one that it holds.
pub proof fn a_unit_means_its_own_definition(
    units: Seq<UnitView>,
    defs: Seq<DefView>,
    log: LogView,
    i: usize,
)
    requires
        defs.len() <= usize::MAX,
        i < defs.len(),
        forall|j: int| 0 <= j < defs.len() ==> (#[trigger] defs[j]).unit < units.len(),
        first_in_unit(defs, i),
        planned(units, defs, log).1 is Ok,
    ensures
        ({
            let plan = planned(units, defs, log).1->Ok_0;
            resolved(plan, defs[i as int].unit as int, defs[i as int].name) == plan.names[i as int]
        }),
{
    let names = minted_names(units, defs);
    let none = Seq::new(units.len(), |u: int| Map::<Seq<char>, Seq<char>>::empty());
    let f = first_of(defs, i as int);
    lemma_first_of(defs, i as int);
    lemma_settled(units, defs, names, 0, LocalView { maps: none, log }, f);
    if !contested(defs, namesakes(defs, f), 0) {
        namesakes_of(defs, f);
        an_owner_is_its_own(defs, i);
        let o = owner(defs, i);
        let list = namesakes(defs, f);
        assert(defs[o as int].name == defs[f].name);
        assert(list.contains(o));
        let q = choose|q: int| 0 <= q < list.len() && list[q] == o;
        if q > 0 {
            lemma_uncontested(defs, list, 0, q);
        }
        assert(o == f);
        an_owner_is_its_own(defs, f as usize);
        crate::units::copies_have_one_owner(defs, i, f as usize);
        the_first_definition_keeps_its_name(units, defs, f as usize);
    }
}

/// A unit that defines nothing of a name means by it what the name is kept for: the first definition
/// of all.
pub proof fn a_unit_without_a_definition_means_the_first(
    units: Seq<UnitView>,
    defs: Seq<DefView>,
    log: LogView,
    i: usize,
    u: int,
)
    requires
        defs.len() <= usize::MAX,
        i < defs.len(),
        is_first(defs, i as int),
        0 <= u < units.len(),
        forall|j: int| 0 <= j < defs.len() ==> (#[trigger] defs[j]).unit < units.len(),
        forall|j: int|
            0 <= j < defs.len() && (#[trigger] defs[j]).name == defs[i as int].name ==> defs[j].unit
                != u,
        planned(units, defs, log).1 is Ok,
    ensures
        ({
            let plan = planned(units, defs, log).1->Ok_0;
            resolved(plan, u, defs[i as int].name) == plan.names[i as int]
        }),
{
    let names = minted_names(units, defs);
    let none = Seq::new(units.len(), |u: int| Map::<Seq<char>, Seq<char>>::empty());
    lemma_settled(units, defs, names, 0, LocalView { maps: none, log }, i as int);
    the_first_definition_keeps_its_name(units, defs, i);
}

/// The first definition that has the name of definition `i`.
spec fn first_of(defs: Seq<DefView>, i: int) -> int
    decreases i,
{
    if i <= 0 || is_first(defs, i) {
        i
    } else {
        let j = choose|j: int| 0 <= j < i && (#[trigger] defs[j]).name == defs[i].name;
        if 0 <= j < i {
            first_of(defs, j)
        } else {
            i
        }
    }
}

proof fn lemma_first_of(defs: Seq<DefView>, i: int)
    requires
        0 <= i < defs.len(),
    ensures
        0 <= first_of(defs, i) <= i,
        is_first(defs, first_of(defs, i)),
        defs[first_of(defs, i)].name == defs[i].name,
    decreases i,
{
    if i > 0 && !is_first(defs, i) {
        let j = choose|j: int| 0 <= j < i && (#[trigger] defs[j]).name == defs[i].name;
        lemma_first_of(defs, j);
    }
}

/// What there is to know of the definitions of an import.
#[derive(Debug)]
pub struct Plan {
    pub duplicates: Vec<bool>,
    pub names: Vec<String>,
    pub local_names: Vec<Table<String>>,
}

impl View for Plan {
    type V = PlanView;

    open spec fn view(&self) -> PlanView {
        PlanView {
            duplicates: self.duplicates@,
            names: views(self.names@),
            local_names: views(self.local_names@),
        }
    }
}

impl Plan {
    /// Whether the plan is one of so many units and definitions.
    pub open spec fn fits(&self, units: nat, defs: nat) -> bool {
        &&& tables_wf(self.local_names@)
        &&& self.local_names@.len() == units
        &&& self.names@.len() == defs
        &&& self.duplicates@.len() == defs
    }
}

fn ir_name_of(
    defs: &Vec<Definition>,
    owner_of: &Vec<usize>,
    names: &Vec<Option<String>>,
    i: usize,
) -> (s: String)
    requires
        owning(views(defs@), owner_of@),
        names@.len() == defs@.len(),
        i < defs@.len(),
    ensures
        s@ == ir_name(views(defs@), name_table(names@), i),
{
    proof {
        an_owner_is_its_own(views(defs@), i);
        assert(owner_of@[i as int] == owner(views(defs@), i));
    }
    let o = owner_of[i];
    match &names[o] {
        Some(n) => {
            assert(name_table(names@).contains_key(o));
            n.clone()
        },
        None => {
            assert(!name_table(names@).contains_key(o));
            defs[o].name.clone()
        },
    }
}

fn is_contested(defs: &Vec<Definition>, owner_of: &Vec<usize>, list: &Vec<usize>) -> (b: bool)
    requires
        owning(views(defs@), owner_of@),
        forall|p: int| 0 <= p < list@.len() ==> (#[trigger] list@[p]) < defs@.len(),
    ensures
        b == contested(views(defs@), list@, 0),
{
    let mut p: usize = 0;
    while p < list.len()
        invariant
            p <= list@.len(),
            owning(views(defs@), owner_of@),
            forall|q: int| 0 <= q < list@.len() ==> (#[trigger] list@[q]) < defs@.len(),
            contested(views(defs@), list@, p as int) == contested(views(defs@), list@, 0),
        decreases list@.len() - p,
    {
        let i = list[p];
        assert(owner_of@[i as int] == owner(views(defs@), i));
        if p > 0 && owner_of[i] == i {
            return true;
        }
        p = p + 1;
    }
    false
}

/// Whether every table is sound.
pub open spec fn tables_wf(v: Seq<Table<String>>) -> bool {
    forall|u: int| 0 <= u < v.len() ==> (#[trigger] v[u]).wf()
}

fn resolve_group(
    units: &Vec<TranslationUnit>,
    defs: &Vec<Definition>,
    owner_of: &Vec<usize>,
    names: &Vec<Option<String>>,
    list: &Vec<usize>,
    tables: &mut Vec<Table<String>>,
    log: &mut Log,
) -> (r: Result<(), Error>)
    requires
        owning(views(defs@), owner_of@),
        names@.len() == defs@.len(),
        forall|p: int| 0 <= p < list@.len() ==> (#[trigger] list@[p]) < defs@.len(),
        forall|i: int| 0 <= i < defs@.len() ==> (#[trigger] defs@[i]).unit < units@.len(),
        old(tables)@.len() == units@.len(),
        tables_wf(old(tables)@),
    ensures
        final(tables)@.len() == units@.len(),
        tables_wf(final(tables)@),
        (LocalView { maps: views(final(tables)@), log: final(log)@ }, done(r)) == local_group(
            views(units@),
            views(defs@),
            name_table(names@),
            list@,
            0,
            LocalView { maps: views(old(tables)@), log: old(log)@ },
        ),
        final(log)@.strict == old(log)@.strict,
        !old(log)@.strict ==> r is Ok,
{
    let ghost uv = views(units@);
    let ghost dv = views(defs@);
    let ghost nv = name_table(names@);
    let ghost start = LocalView { maps: views(tables@), log: log@ };
    let mut p: usize = 0;
    while p < list.len()
        invariant
            p <= list@.len(),
            uv == views(units@),
            dv == views(defs@),
            nv == name_table(names@),
            start == (LocalView { maps: views(old(tables)@), log: old(log)@ }),
            owning(dv, owner_of@),
            names@.len() == defs@.len(),
            forall|q: int| 0 <= q < list@.len() ==> (#[trigger] list@[q]) < defs@.len(),
            forall|i: int| 0 <= i < defs@.len() ==> (#[trigger] defs@[i]).unit < units@.len(),
            tables@.len() == units@.len(),
            tables_wf(tables@),
            log@.strict == old(log)@.strict,
            local_group(
                uv,
                dv,
                nv,
                list@,
                p as int,
                (LocalView { maps: views(tables@), log: log@ }),
            ) == local_group(uv, dv, nv, list@, 0, start),
        decreases list@.len() - p,
    {
        let i = list[p];
        assert(list@[p as int] < defs@.len());
        let d = &defs[i];
        let u = d.unit;
        let given = ir_name_of(defs, owner_of, names, i);
        let held = match tables[u].get(d.name.as_str()) {
            Some(h) => Some(h.clone()),
            None => None,
        };
        match held {
            None => {
                let ghost before = tables@;
                tables[u].insert(d.name.clone(), given);
                assert(tables@ =~= before.update(u as int, tables@[u as int]));
            },
            Some(h) => {
                if !same(h.as_str(), given.as_str()) {
                    let mut message = joined("`", d.name.as_str());
                    message.append("` is defined more than once in ");
                    match &units[u].path {
                        Some(file) => {
                            let mut place = joined("`", file.as_str());
                            place.append("`");
                            message.append(place.as_str());
                        },
                        None => message.append("this translation unit"),
                    }
                    message.append(
                        "; C gives a name one definition per translation unit, so this one is analyzed as `",
                    );
                    message.append(given.as_str());
                    message.append("` and a call to `");
                    message.append(d.name.as_str());
                    message.append("` here resolves to `");
                    message.append(h.as_str());
                    message.append("`");
                    log.report(Attribution::SourceProblem, message)?;
                }
            },
        }
        p = p + 1;
    }
    Ok(())
}

/// Decides what each definition is, before any of them is lowered, and what names mean in each
/// unit.
///
/// # Errors
///
/// In strict mode, the report of a unit that defines a name more than once.
#[verifier::loop_isolation(false)]
pub fn plan_definitions(units: &Vec<TranslationUnit>, defs: &Vec<Definition>, log: &mut Log) -> (r:
    Result<Plan, Error>)
    requires
        forall|i: int| 0 <= i < defs@.len() ==> (#[trigger] defs@[i]).unit < units@.len(),
    ensures
        (final(log)@, crate::state::seen(r)) == planned(views(units@), views(defs@), old(log)@),
        r matches Ok(p) ==> p.fits(units@.len(), defs@.len()),
        final(log)@.strict == old(log)@.strict,
        !old(log)@.strict ==> r is Ok,
{
    let ghost uv = views(units@);
    let ghost dv = views(defs@);
    let groups = grouped(defs);
    let owner_of = owners(defs, &groups);
    let names = mint_names(units, defs, &groups, &owner_of);
    let ghost nv = name_table(names@);
    let mut tables: Vec<Table<String>> = Vec::new();
    let mut u: usize = 0;
    let ghost none = Seq::new(uv.len(), |v: int| Map::<Seq<char>, Seq<char>>::empty());
    while u < units.len()
        invariant
            u <= units@.len(),
            tables@.len() == u,
            tables_wf(tables@),
            forall|v: int| 0 <= v < u ==> (#[trigger] tables@[v])@ == Map::<
                Seq<char>,
                Seq<char>,
            >::empty(),
        decreases units@.len() - u,
    {
        tables.push(Table::new());
        u = u + 1;
    }
    assert(views(tables@) =~= none);
    let ghost start = LocalView { maps: none, log: log@ };
    let mut d: usize = 0;
    while d < defs.len()
        invariant
            d <= defs@.len(),
            tables@.len() == units@.len(),
            tables_wf(tables@),
            log@.strict == old(log)@.strict,
            local_from(
                uv,
                dv,
                nv,
                d as int,
                (LocalView { maps: views(tables@), log: log@ }),
            ) == local_from(uv, dv, nv, 0, start),
        decreases defs@.len() - d,
    {
        let list = &groups[d];
        proof {
            if is_first(dv, d as int) {
                namesakes_of(dv, d as int);
            }
        }
        if is_contested(defs, &owner_of, list) {
            assert(is_first(dv, d as int)) by {
                if !is_first(dv, d as int) {
                    assert(list@ =~= Seq::<usize>::empty());
                }
            }
            resolve_group(units, defs, &owner_of, &names, list, &mut tables, log)?;
        }
        d = d + 1;
    }
    let mut duplicates: Vec<bool> = Vec::new();
    let mut ir_names: Vec<String> = Vec::new();
    let mut i: usize = 0;
    while i < defs.len()
        invariant
            i <= defs@.len(),
            duplicates@.len() == i,
            ir_names@.len() == i,
            forall|j: int| 0 <= j < i ==> #[trigger] duplicates@[j] == duplicate(dv, j as usize),
            forall|j: int|
                0 <= j < i ==> (#[trigger] ir_names@[j])@ == ir_name(dv, nv, j as usize),
        decreases defs@.len() - i,
    {
        duplicates.push(owner_of[i] != i);
        ir_names.push(ir_name_of(defs, &owner_of, &names, i));
        i = i + 1;
    }
    let plan = Plan { duplicates, names: ir_names, local_names: tables };
    proof {
        let out = planned(uv, dv, old(log)@).1->Ok_0;
        assert(plan@.duplicates =~= out.duplicates);
        assert(plan@.names =~= out.names);
    }
    Ok(plan)
}

/// Whether `groups` lists the definitions of each name at the first of them.
pub open spec fn grouping(defs: Seq<DefView>, groups: Seq<Vec<usize>>) -> bool {
    &&& groups.len() == defs.len()
    &&& forall|d: int|
        0 <= d < defs.len() ==> (#[trigger] groups[d])@ == (if is_first(defs, d) {
            namesakes(defs, d)
        } else {
            Seq::empty()
        })
}

/// Whether `owner_of` says which definition contributes each function.
pub open spec fn owning(defs: Seq<DefView>, owner_of: Seq<usize>) -> bool {
    &&& owner_of.len() == defs.len()
    &&& forall|i: int| 0 <= i < defs.len() ==> #[trigger] owner_of[i] == owner(defs, i as usize)
}

} // verus!
