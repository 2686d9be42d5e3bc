//! Names that lead to names, and what can be reached from some of them.

use vstd::prelude::*;
use crate::collections::views;
use crate::text::same;

verus! {

broadcast use crate::collections::group_views;

/// A name, and the names that it leads to, in order.
#[derive(Debug)]
pub struct Links {
    pub from: String,
    pub to: Vec<String>,
}

impl View for Links {
    type V = (Seq<char>, Seq<Seq<char>>);

    open spec fn view(&self) -> (Seq<char>, Seq<Seq<char>>) {
        (self.from@, views(self.to@))
    }
}

/// For each of some names, the names that it leads to.
pub type GraphView = Seq<(Seq<char>, Seq<Seq<char>>)>;

/// A directed graph on names.
#[derive(Debug)]
pub struct Graph {
    pub entries: Vec<Links>,
}

impl View for Graph {
    type V = GraphView;

    open spec fn view(&self) -> GraphView {
        views(self.entries@)
    }
}

/// The number of the first entry for `c`, from number `i` on; the number of entries if there is
/// none.
pub open spec fn entry_from(g: GraphView, i: int, c: Seq<char>) -> int
    decreases g.len() - i,
{
    if i < 0 || i >= g.len() {
        g.len() as int
    } else if g[i].0 == c {
        i
    } else {
        entry_from(g, i + 1, c)
    }
}

/// What `c` leads to.
pub open spec fn leads_to(g: GraphView, c: Seq<char>) -> Seq<Seq<char>> {
    let i = entry_from(g, 0, c);
    if 0 <= i < g.len() {
        g[i].1
    } else {
        Seq::empty()
    }
}

/// Every name that one of the entries from number `i` on leads to.
pub open spec fn ends(g: GraphView, i: int) -> Seq<Seq<char>>
    decreases g.len() - i,
{
    if i < 0 || i >= g.len() {
        Seq::empty()
    } else {
        g[i].1 + ends(g, i + 1)
    }
}

/// How many of the first `n` names are not among `seen`.
pub open spec fn unseen(all: Seq<Seq<char>>, seen: Seq<Seq<char>>, n: int) -> nat
    decreases n,
{
    if n <= 0 {
        0
    } else {
        unseen(all, seen, n - 1) + if seen.contains(all[n - 1]) {
            0nat
        } else {
            1nat
        }
    }
}

/// What is found by taking the names off the end of `stack` one by one, and putting there what each
/// one leads to the first time that it is found. `all` are the names that can come up, and `seen`
/// those that have.
pub open spec fn walk(
    g: GraphView,
    all: Seq<Seq<char>>,
    stack: Seq<Seq<char>>,
    seen: Seq<Seq<char>>,
) -> Seq<Seq<char>>
    decreases unseen(all, seen, all.len() as int), stack.len(),
    via walk_decreases
{
    if stack.len() == 0 {
        seen
    } else {
        let c = stack.last();
        if seen.contains(c) || !all.contains(c) {
            walk(g, all, stack.drop_last(), seen)
        } else {
            walk(g, all, stack.drop_last() + leads_to(g, c), seen.push(c))
        }
    }
}

#[via_fn]
proof fn walk_decreases(
    g: GraphView,
    all: Seq<Seq<char>>,
    stack: Seq<Seq<char>>,
    seen: Seq<Seq<char>>,
) {
    if stack.len() > 0 && all.contains(stack.last()) && !seen.contains(stack.last()) {
        lemma_unseen_shrinks(all, seen, stack.last());
    }
}

proof fn lemma_unseen_monotonic(
    all: Seq<Seq<char>>,
    seen: Seq<Seq<char>>,
    c: Seq<char>,
    n: int,
)
    requires
        0 <= n <= all.len(),
    ensures
        unseen(all, seen.push(c), n) <= unseen(all, seen, n),
    decreases n,
{
    if n > 0 {
        lemma_unseen_monotonic(all, seen, c, n - 1);
        if seen.contains(all[n - 1]) {
            lemma_push_contains(seen, c, all[n - 1]);
        }
    }
}

proof fn lemma_unseen_shrinks_to(
    all: Seq<Seq<char>>,
    seen: Seq<Seq<char>>,
    c: Seq<char>,
    n: int,
)
    requires
        0 <= n <= all.len(),
        !seen.contains(c),
        exists|i: int| 0 <= i < n && all[i] == c,
    ensures
        unseen(all, seen.push(c), n) < unseen(all, seen, n),
    decreases n,
{
    if all[n - 1] == c {
        lemma_unseen_monotonic(all, seen, c, n - 1);
        lemma_push_contains(seen, c, c);
    } else {
        let i = choose|i: int| 0 <= i < n && all[i] == c;
        assert(i < n - 1);
        lemma_unseen_shrinks_to(all, seen, c, n - 1);
        if seen.contains(all[n - 1]) {
            lemma_push_contains(seen, c, all[n - 1]);
        }
    }
}

proof fn lemma_unseen_shrinks(all: Seq<Seq<char>>, seen: Seq<Seq<char>>, c: Seq<char>)
    requires
        all.contains(c),
        !seen.contains(c),
    ensures
        unseen(all, seen.push(c), all.len() as int) < unseen(all, seen, all.len() as int),
{
    lemma_unseen_shrinks_to(all, seen, c, all.len() as int);
}

proof fn lemma_push_contains(s: Seq<Seq<char>>, c: Seq<char>, x: Seq<char>)
    ensures
        s.push(c).contains(x) <==> s.contains(x) || x == c,
{
    if s.contains(x) {
        let i = choose|i: int| 0 <= i < s.len() && s[i] == x;
        assert(s.push(c)[i] == x);
    }
    assert(s.push(c)[s.len() as int] == c);
    if s.push(c).contains(x) && x != c {
        let i = choose|i: int| 0 <= i < s.push(c).len() && s.push(c)[i] == x;
        assert(s[i] == x);
    }
}

proof fn lemma_add_contains(a: Seq<Seq<char>>, b: Seq<Seq<char>>, x: Seq<char>)
    ensures
        (a + b).contains(x) <==> a.contains(x) || b.contains(x),
{
    if a.contains(x) {
        let i = choose|i: int| 0 <= i < a.len() && a[i] == x;
        assert((a + b)[i] == x);
    }
    if b.contains(x) {
        let i = choose|i: int| 0 <= i < b.len() && b[i] == x;
        assert((a + b)[a.len() + i] == x);
    }
    if (a + b).contains(x) {
        let i = choose|i: int| 0 <= i < (a + b).len() && (a + b)[i] == x;
        if i < a.len() {
            assert(a[i] == x);
        } else {
            assert(b[i - a.len()] == x);
        }
    }
}

proof fn lemma_drop_last_contains(s: Seq<Seq<char>>, x: Seq<char>)
    requires
        s.len() > 0,
    ensures
        s.contains(x) <==> s.drop_last().contains(x) || x == s.last(),
{
    assert(s =~= s.drop_last().push(s.last()));
    lemma_push_contains(s.drop_last(), s.last(), x);
}

/// The names that can come up on the way from the names in `from`.
pub open spec fn territory(g: GraphView, from: Seq<Seq<char>>) -> Seq<Seq<char>> {
    from + ends(g, 0)
}

/// The names that are reached from those in `from`, these included, each once, in the order in which
/// a depth-first walk that takes the last name first comes to them.
pub open spec fn reachable(g: GraphView, from: Seq<Seq<char>>) -> Seq<Seq<char>> {
    walk(g, territory(g, from), from, Seq::empty())
}

proof fn lemma_entry_from(g: GraphView, i: int, c: Seq<char>)
    requires
        0 <= i <= g.len(),
    ensures
        i <= entry_from(g, i, c) <= g.len(),
        entry_from(g, i, c) < g.len() ==> g[entry_from(g, i, c)].0 == c,
    decreases g.len() - i,
{
    if i < g.len() && g[i].0 != c {
        lemma_entry_from(g, i + 1, c);
    }
}

proof fn lemma_ends_hold(g: GraphView, i: int, k: int, x: Seq<char>)
    requires
        0 <= i <= k < g.len(),
        g[k].1.contains(x),
    ensures
        ends(g, i).contains(x),
    decreases k - i,
{
    if i < k {
        lemma_ends_hold(g, i + 1, k, x);
    }
    lemma_add_contains(g[i].1, ends(g, i + 1), x);
}

/// Whatever a name leads to is in the territory.
proof fn lemma_links_in_territory(
    g: GraphView,
    from: Seq<Seq<char>>,
    c: Seq<char>,
    x: Seq<char>,
)
    requires
        leads_to(g, c).contains(x),
    ensures
        territory(g, from).contains(x),
{
    lemma_entry_from(g, 0, c);
    let i = entry_from(g, 0, c);
    if i < g.len() {
        lemma_ends_hold(g, 0, i, x);
    }
    lemma_add_contains(from, ends(g, 0), x);
}

// Paths

/// Whether `p` is a path from one of the names in `from`: each name leads to the next.
pub open spec fn is_path(g: GraphView, from: Seq<Seq<char>>, p: Seq<Seq<char>>) -> bool {
    &&& p.len() > 0
    &&& from.contains(p[0])
    &&& forall|i: int|
        0 <= i < p.len() - 1 ==> leads_to(g, #[trigger] p[i]).contains(p[i + 1])
}

/// Whether there is a path from one of the names in `from` to `x`.
pub open spec fn connected(g: GraphView, from: Seq<Seq<char>>, x: Seq<char>) -> bool {
    exists|p: Seq<Seq<char>>| #[trigger] is_path(g, from, p) && p.last() == x
}

proof fn lemma_connected_on(g: GraphView, from: Seq<Seq<char>>, c: Seq<char>, x: Seq<char>)
    requires
        connected(g, from, c),
        leads_to(g, c).contains(x),
    ensures
        connected(g, from, x),
{
    let p = choose|p: Seq<Seq<char>>| #[trigger] is_path(g, from, p) && p.last() == c;
    let q = p.push(x);
    assert forall|i: int| 0 <= i < q.len() - 1 implies leads_to(g, #[trigger] q[i]).contains(
        q[i + 1],
    ) by {
        if i < p.len() - 1 {
            assert(q[i] == p[i]);
        }
    }
    assert(q[0] == p[0]);
    assert(is_path(g, from, q));
}

/// What a walk finds is what it was given or can be reached.
proof fn lemma_walk_sound(
    g: GraphView,
    all: Seq<Seq<char>>,
    from: Seq<Seq<char>>,
    stack: Seq<Seq<char>>,
    seen: Seq<Seq<char>>,
)
    requires
        forall|x: Seq<char>| #[trigger] stack.contains(x) ==> connected(g, from, x),
        forall|x: Seq<char>| #[trigger] seen.contains(x) ==> connected(g, from, x),
    ensures
        forall|x: Seq<char>| #[trigger]
            walk(g, all, stack, seen).contains(x) ==> connected(g, from, x),
    decreases unseen(all, seen, all.len() as int), stack.len(),
{
    if stack.len() > 0 {
        let c = stack.last();
        let rest = stack.drop_last();
        assert(stack[stack.len() - 1] == c);
        assert(stack.contains(c));
        assert forall|x: Seq<char>| #[trigger] rest.contains(x) implies connected(g, from, x) by {
            lemma_drop_last_contains(stack, x);
        }
        if seen.contains(c) || !all.contains(c) {
            lemma_walk_sound(g, all, from, rest, seen);
            assert(walk(g, all, stack, seen) == walk(g, all, rest, seen));
        } else {
            let more = rest + leads_to(g, c);
            assert forall|x: Seq<char>| #[trigger] more.contains(x) implies connected(
                g,
                from,
                x,
            ) by {
                lemma_add_contains(rest, leads_to(g, c), x);
                if !rest.contains(x) {
                    lemma_connected_on(g, from, c, x);
                }
            }
            assert forall|x: Seq<char>| #[trigger] seen.push(c).contains(x) implies connected(
                g,
                from,
                x,
            ) by {
                lemma_push_contains(seen, c, x);
            }
            lemma_unseen_shrinks(all, seen, c);
            lemma_walk_sound(g, all, from, more, seen.push(c));
            assert(walk(g, all, stack, seen) == walk(g, all, more, seen.push(c)));
        }
    } else {
        assert(walk(g, all, stack, seen) == seen);
    }
}

/// Whether everything that a name in `seen` leads to is in `seen` or still to come.
spec fn covered(g: GraphView, stack: Seq<Seq<char>>, seen: Seq<Seq<char>>) -> bool {
    forall|c: Seq<char>, x: Seq<char>|
        seen.contains(c) && #[trigger] leads_to(g, c).contains(x) ==> seen.contains(x)
            || stack.contains(x)
}

/// What a walk finds holds what it was given, and whatever something in it leads to.
proof fn lemma_walk_complete(
    g: GraphView,
    all: Seq<Seq<char>>,
    stack: Seq<Seq<char>>,
    seen: Seq<Seq<char>>,
)
    requires
        covered(g, stack, seen),
        forall|x: Seq<char>| #[trigger] stack.contains(x) ==> all.contains(x),
        forall|c: Seq<char>, x: Seq<char>| #[trigger]
            leads_to(g, c).contains(x) ==> all.contains(x),
    ensures
        ({
            let found = walk(g, all, stack, seen);
            &&& covered(g, Seq::empty(), found)
            &&& forall|x: Seq<char>|
                stack.contains(x) || seen.contains(x) ==> #[trigger] found.contains(x)
        }),
    decreases unseen(all, seen, all.len() as int), stack.len(),
{
    let found = walk(g, all, stack, seen);
    if stack.len() == 0 {
        assert forall|c: Seq<char>, x: Seq<char>|
            found.contains(c) && #[trigger] leads_to(g, c).contains(x) implies found.contains(x)
            || Seq::<Seq<char>>::empty().contains(x) by {
            assert(!stack.contains(x));
        }
        assert(forall|x: Seq<char>| !stack.contains(x));
    } else {
        let c = stack.last();
        let rest = stack.drop_last();
        assert(stack[stack.len() - 1] == c);
        assert(stack.contains(c));
        assert forall|x: Seq<char>| #[trigger] rest.contains(x) implies all.contains(x) by {
            lemma_drop_last_contains(stack, x);
        }
        if seen.contains(c) || !all.contains(c) {
            assert forall|d: Seq<char>, x: Seq<char>|
                seen.contains(d) && #[trigger] leads_to(g, d).contains(x) implies seen.contains(x)
                || rest.contains(x) by {
                lemma_drop_last_contains(stack, x);
            }
            lemma_walk_complete(g, all, rest, seen);
            assert forall|x: Seq<char>|
                stack.contains(x) || seen.contains(x) implies #[trigger] found.contains(x) by {
                lemma_drop_last_contains(stack, x);
            }
        } else {
            let more = rest + leads_to(g, c);
            let now = seen.push(c);
            assert forall|d: Seq<char>, x: Seq<char>|
                now.contains(d) && #[trigger] leads_to(g, d).contains(x) implies now.contains(x)
                || more.contains(x) by {
                lemma_push_contains(seen, c, d);
                lemma_push_contains(seen, c, x);
                lemma_add_contains(rest, leads_to(g, c), x);
                lemma_drop_last_contains(stack, x);
            }
            assert forall|x: Seq<char>| #[trigger] more.contains(x) implies all.contains(x) by {
                lemma_add_contains(rest, leads_to(g, c), x);
            }
            lemma_unseen_shrinks(all, seen, c);
            lemma_walk_complete(g, all, more, now);
            assert forall|x: Seq<char>|
                stack.contains(x) || seen.contains(x) implies #[trigger] found.contains(x) by {
                lemma_push_contains(seen, c, x);
                lemma_add_contains(rest, leads_to(g, c), x);
                lemma_drop_last_contains(stack, x);
            }
        }
    }
}

proof fn lemma_path_found(g: GraphView, found: Seq<Seq<char>>, p: Seq<Seq<char>>, n: int)
    requires
        covered(g, Seq::empty(), found),
        p.len() > 0,
        found.contains(p[0]),
        forall|i: int| 0 <= i < p.len() - 1 ==> leads_to(g, #[trigger] p[i]).contains(p[i + 1]),
        0 <= n < p.len(),
    ensures
        found.contains(p[n]),
    decreases n,
{
    if n > 0 {
        lemma_path_found(g, found, p, n - 1);
        assert(leads_to(g, p[n - 1]).contains(p[n - 1 + 1]));
        assert(!Seq::<Seq<char>>::empty().contains(p[n]));
    }
}

/// A walk finds exactly the names that there is a path to.
pub proof fn a_walk_finds_what_can_be_reached(g: GraphView, from: Seq<Seq<char>>, x: Seq<char>)
    ensures
        reachable(g, from).contains(x) <==> connected(g, from, x),
{
    let all = territory(g, from);
    assert forall|y: Seq<char>| #[trigger] from.contains(y) implies connected(g, from, y) by {
        let p = seq![y];
        assert(is_path(g, from, p));
        assert(p.last() == y);
    }
    assert(forall|y: Seq<char>| !(#[trigger] Seq::<Seq<char>>::empty().contains(y)));
    lemma_walk_sound(g, all, from, from, Seq::empty());
    assert forall|y: Seq<char>| #[trigger] from.contains(y) implies all.contains(y) by {
        lemma_add_contains(from, ends(g, 0), y);
    }
    assert forall|c: Seq<char>, y: Seq<char>| #[trigger]
        leads_to(g, c).contains(y) implies all.contains(y) by {
        lemma_links_in_territory(g, from, c, y);
    }
    lemma_walk_complete(g, all, from, Seq::empty());
    if connected(g, from, x) {
        let p = choose|p: Seq<Seq<char>>| #[trigger] is_path(g, from, p) && p.last() == x;
        lemma_path_found(g, reachable(g, from), p, p.len() - 1);
    }
}

// Nearness

/// What is found by taking the names off the front of `queue` one by one, and putting at its end what
/// each one leads to the first time that it is found. `all` are the names that can come up, and
/// `seen` those that have.
pub open spec fn sweep(
    g: GraphView,
    all: Seq<Seq<char>>,
    queue: Seq<Seq<char>>,
    seen: Seq<Seq<char>>,
) -> Seq<Seq<char>>
    decreases unseen(all, seen, all.len() as int), queue.len(),
    via sweep_decreases
{
    if queue.len() == 0 {
        seen
    } else {
        let c = queue[0];
        if seen.contains(c) || !all.contains(c) {
            sweep(g, all, queue.skip(1), seen)
        } else {
            sweep(g, all, queue.skip(1) + leads_to(g, c), seen.push(c))
        }
    }
}

#[via_fn]
proof fn sweep_decreases(
    g: GraphView,
    all: Seq<Seq<char>>,
    queue: Seq<Seq<char>>,
    seen: Seq<Seq<char>>,
) {
    if queue.len() > 0 && all.contains(queue[0]) && !seen.contains(queue[0]) {
        lemma_unseen_shrinks(all, seen, queue[0]);
    }
}

/// The names that are reached from those in `from`, these included, each once, the nearest first;
/// of two that are equally near, the one that is written first.
pub open spec fn by_nearness(g: GraphView, from: Seq<Seq<char>>) -> Seq<Seq<char>> {
    sweep(g, territory(g, from), from, Seq::empty())
}

/// Whether `r` is a route: it begins at name number `r[0]` of `from`, and each further number says
/// which of the names that the last one leads to comes next.
pub open spec fn is_route(g: GraphView, from: Seq<Seq<char>>, r: Seq<int>) -> bool
    decreases r.len(),
{
    if r.len() <= 1 {
        r.len() == 1 && 0 <= r[0] < from.len()
    } else {
        &&& is_route(g, from, r.drop_last())
        &&& 0 <= r.last() < leads_to(g, route_end(g, from, r.drop_last())).len()
    }
}

/// The name that a route ends at.
pub open spec fn route_end(g: GraphView, from: Seq<Seq<char>>, r: Seq<int>) -> Seq<char>
    decreases r.len(),
{
    if r.len() <= 1 {
        from[r[0]]
    } else {
        leads_to(g, route_end(g, from, r.drop_last()))[r.last()]
    }
}

/// Whether `r` is a route to `x`.
pub open spec fn routes_to(g: GraphView, from: Seq<Seq<char>>, r: Seq<int>, x: Seq<char>) -> bool {
    is_route(g, from, r) && route_end(g, from, r) == x
}

/// Whether the route `a` comes before the route `b`: it is shorter, or it is as long and takes the
/// name that is written first where they part.
pub open spec fn comes_before(a: Seq<int>, b: Seq<int>) -> bool {
    a.len() < b.len() || (a.len() == b.len() && exists|k: int|
        0 <= k < a.len() && #[trigger] a[k] < b[k] && forall|j: int| 0 <= j < k ==> a[j] == b[j])
}

proof fn lemma_before_is_transitive(a: Seq<int>, b: Seq<int>, c: Seq<int>)
    requires
        comes_before(a, b),
        comes_before(b, c),
    ensures
        comes_before(a, c),
{
    if a.len() == b.len() && b.len() == c.len() {
        let k = choose|k: int|
            0 <= k < a.len() && #[trigger] a[k] < b[k] && forall|j: int|
                0 <= j < k ==> a[j] == b[j];
        let m = choose|m: int|
            0 <= m < b.len() && #[trigger] b[m] < c[m] && forall|j: int|
                0 <= j < m ==> b[j] == c[j];
        if k < m {
            assert(a[k] < c[k]);
        } else if m < k {
            assert(a[m] < c[m]);
        } else {
            assert(a[k] < c[k]);
        }
    }
}

/// Routes that go on keep the order of what they go on from.
proof fn lemma_before_pushed(a: Seq<int>, b: Seq<int>, m: int, n: int)
    requires
        comes_before(a, b),
    ensures
        comes_before(a.push(m), b.push(n)),
{
    if a.len() == b.len() {
        let k = choose|k: int|
            0 <= k < a.len() && #[trigger] a[k] < b[k] && forall|j: int|
                0 <= j < k ==> a[j] == b[j];
        assert(a.push(m)[k] < b.push(n)[k]);
    }
}

/// Where one route ends that goes on from `a`, another goes on: the number decides.
proof fn lemma_siblings(a: Seq<int>, m: int, n: int)
    requires
        m < n,
    ensures
        comes_before(a.push(m), a.push(n)),
{
    assert(a.push(m)[a.len() as int] < a.push(n)[a.len() as int]);
}

/// The routes that a sweep is at: `at` leads to the names in `queue`, and `found` to those in
/// `seen`. Both are in order, and what was found comes before what is still to be looked at.
spec fn on_course(
    g: GraphView,
    from: Seq<Seq<char>>,
    queue: Seq<Seq<char>>,
    seen: Seq<Seq<char>>,
    at: Seq<Seq<int>>,
    found: Seq<Seq<int>>,
) -> bool {
    &&& at.len() == queue.len()
    &&& found.len() == seen.len()
    &&& forall|i: int| 0 <= i < at.len() ==> routes_to(g, from, #[trigger] at[i], queue[i])
    &&& forall|i: int| 0 <= i < found.len() ==> routes_to(g, from, #[trigger] found[i], seen[i])
    &&& forall|i: int, j: int|
        0 <= i < j < at.len() ==> comes_before(#[trigger] at[i], #[trigger] at[j])
    &&& forall|i: int, j: int|
        0 <= i < j < found.len() ==> comes_before(#[trigger] found[i], #[trigger] found[j])
    &&& forall|i: int, j: int|
        0 <= i < found.len() && 0 <= j < at.len() ==> comes_before(
            #[trigger] found[i],
            #[trigger] at[j],
        )
    &&& forall|i: int, j: int|
        0 <= i < at.len() && 0 <= j < at.len() ==> comes_before(
            (#[trigger] at[i]).drop_last(),
            #[trigger] at[j],
        )
}

/// Whether the route `r`, to `x`, is still to be looked at, or `x` was found by a route that comes
/// no later.
spec fn taken_up(
    seen: Seq<Seq<char>>,
    at: Seq<Seq<int>>,
    found: Seq<Seq<int>>,
    r: Seq<int>,
    x: Seq<char>,
) -> bool {
    at.contains(r) || exists|k: int|
        0 <= k < seen.len() && #[trigger] seen[k] == x && (found[k] == r || comes_before(
            found[k],
            r,
        ))
}

/// Whether every route that begins, or goes on from one that was found, has been taken up.
spec fn thorough(
    g: GraphView,
    from: Seq<Seq<char>>,
    seen: Seq<Seq<char>>,
    at: Seq<Seq<int>>,
    found: Seq<Seq<int>>,
) -> bool {
    &&& forall|m: int|
        0 <= m < from.len() ==> taken_up(seen, at, found, seq![m], #[trigger] from[m])
    &&& forall|k: int, m: int|
        #![trigger leads_to(g, seen[k])[m]]
        0 <= k < seen.len() && 0 <= m < leads_to(g, seen[k]).len() ==> taken_up(
            seen,
            at,
            found,
            found[k].push(m),
            leads_to(g, seen[k])[m],
        )
}

proof fn lemma_route_pushed(g: GraphView, from: Seq<Seq<char>>, r: Seq<int>, m: int)
    requires
        is_route(g, from, r),
    ensures
        route_end(g, from, r.push(m)) == leads_to(g, route_end(g, from, r))[m],
        is_route(g, from, r.push(m)) <==> 0 <= m < leads_to(g, route_end(g, from, r)).len(),
{
    assert(r.push(m).drop_last() =~= r);
    assert(r.push(m).last() == m);
}

/// The routes that go on from `r` to the names `to`.
spec fn onward(r: Seq<int>, to: Seq<Seq<char>>) -> Seq<Seq<int>> {
    Seq::new(to.len(), |m: int| r.push(m))
}

/// What was taken up still is when the first name in the queue turns out to have been seen.
proof fn lemma_pass_over(
    g: GraphView,
    from: Seq<Seq<char>>,
    queue: Seq<Seq<char>>,
    seen: Seq<Seq<char>>,
    at: Seq<Seq<int>>,
    found: Seq<Seq<int>>,
    r: Seq<int>,
    x: Seq<char>,
)
    requires
        on_course(g, from, queue, seen, at, found),
        queue.len() > 0,
        seen.contains(queue[0]),
        routes_to(g, from, r, x),
        taken_up(seen, at, found, r, x),
    ensures
        taken_up(seen, at.skip(1), found, r, x),
{
    if at.contains(r) {
        let i = choose|i: int| 0 <= i < at.len() && at[i] == r;
        if i == 0 {
            let k = choose|k: int| 0 <= k < seen.len() && seen[k] == queue[0];
            assert(routes_to(g, from, at[0], queue[0]));
            assert(comes_before(found[k], at[0]));
            assert(seen[k] == x);
        } else {
            assert(at.skip(1)[i - 1] == r);
        }
    }
}

/// What was taken up still is when the first name in the queue is found.
proof fn lemma_take_up(
    g: GraphView,
    from: Seq<Seq<char>>,
    queue: Seq<Seq<char>>,
    seen: Seq<Seq<char>>,
    at: Seq<Seq<int>>,
    found: Seq<Seq<int>>,
    more: Seq<Seq<int>>,
    r: Seq<int>,
    x: Seq<char>,
)
    requires
        on_course(g, from, queue, seen, at, found),
        queue.len() > 0,
        routes_to(g, from, r, x),
        taken_up(seen, at, found, r, x),
    ensures
        taken_up(seen.push(queue[0]), at.skip(1) + more, found.push(at[0]), r, x),
{
    let now = seen.push(queue[0]);
    let ways = found.push(at[0]);
    if at.contains(r) {
        let i = choose|i: int| 0 <= i < at.len() && at[i] == r;
        if i == 0 {
            assert(routes_to(g, from, at[0], queue[0]));
            assert(now[seen.len() as int] == x);
            assert(ways[seen.len() as int] == r);
        } else {
            assert((at.skip(1) + more)[i - 1] == r);
        }
    } else {
        let k = choose|k: int|
            0 <= k < seen.len() && #[trigger] seen[k] == x && (found[k] == r || comes_before(
                found[k],
                r,
            ));
        assert(now[k] == x);
        assert(ways[k] == found[k]);
    }
}

/// A sweep stays on course when the first name in the queue is found.
proof fn lemma_course_kept(
    g: GraphView,
    from: Seq<Seq<char>>,
    queue: Seq<Seq<char>>,
    seen: Seq<Seq<char>>,
    at: Seq<Seq<int>>,
    found: Seq<Seq<int>>,
)
    requires
        on_course(g, from, queue, seen, at, found),
        queue.len() > 0,
    ensures
        ({
            let to = leads_to(g, queue[0]);
            on_course(
                g,
                from,
                queue.skip(1) + to,
                seen.push(queue[0]),
                at.skip(1) + onward(at[0], to),
                found.push(at[0]),
            )
        }),
{
    let c = queue[0];
    let to = leads_to(g, c);
    let q = queue.skip(1) + to;
    let now = seen.push(c);
    let rest = at.skip(1);
    let way = rest + onward(at[0], to);
    let ways = found.push(at[0]);
    let n = rest.len() as int;
    assert(routes_to(g, from, at[0], c));
    assert forall|i: int| 0 <= i < way.len() implies routes_to(g, from, #[trigger] way[i], q[i]) by {
        if i < n {
            assert(way[i] == at[i + 1]);
            assert(routes_to(g, from, at[i + 1], queue[i + 1]));
        } else {
            lemma_route_pushed(g, from, at[0], i - n);
        }
    }
    assert forall|i: int| 0 <= i < ways.len() implies routes_to(
        g,
        from,
        #[trigger] ways[i],
        now[i],
    ) by {
        if i < found.len() {
            assert(routes_to(g, from, found[i], seen[i]));
        }
    }
    assert forall|i: int, j: int| 0 <= i < j < way.len() implies comes_before(
        #[trigger] way[i],
        #[trigger] way[j],
    ) by {
        if j < n {
            assert(comes_before(at[i + 1], at[j + 1]));
        } else if i < n {
            let a = at[i + 1];
            assert(comes_before(a.drop_last(), at[0]));
            assert(is_route(g, from, a)) by {
                assert(routes_to(g, from, at[i + 1], queue[i + 1]));
            }
            lemma_before_pushed(a.drop_last(), at[0], a.last(), j - n);
            assert(a.drop_last().push(a.last()) =~= a);
        } else {
            lemma_siblings(at[0], i - n, j - n);
        }
    }
    assert forall|i: int, j: int| 0 <= i < j < ways.len() implies comes_before(
        #[trigger] ways[i],
        #[trigger] ways[j],
    ) by {
        if j < found.len() {
            assert(comes_before(found[i], found[j]));
        } else {
            assert(comes_before(found[i], at[0]));
        }
    }
    assert forall|i: int, j: int|
        0 <= i < ways.len() && 0 <= j < way.len() implies comes_before(
        #[trigger] ways[i],
        #[trigger] way[j],
    ) by {
        if j < n {
            assert(way[j] == at[j + 1]);
            if i == found.len() {
                assert(comes_before(at[0], at[j + 1]));
            } else {
                assert(comes_before(found[i], at[j + 1]));
            }
        } else if i < found.len() {
            assert(comes_before(found[i], at[0]));
            lemma_before_is_transitive(found[i], at[0], way[j]);
        }
    }
    assert forall|i: int, j: int|
        0 <= i < way.len() && 0 <= j < way.len() implies comes_before(
        (#[trigger] way[i]).drop_last(),
        #[trigger] way[j],
    ) by {
        let parent = way[i].drop_last();
        if i < n {
            assert(way[i] == at[i + 1]);
            assert(comes_before(at[i + 1].drop_last(), at[0]));
            if j < n {
                assert(comes_before(at[i + 1].drop_last(), at[j + 1]));
            } else {
                lemma_before_is_transitive(parent, at[0], way[j]);
            }
        } else {
            assert(parent =~= at[0]);
            if j < n {
                assert(comes_before(at[0], at[j + 1]));
            }
        }
    }
}

/// A sweep finds names by the routes that come first; the answer is these routes.
proof fn lemma_sweep(
    g: GraphView,
    all: Seq<Seq<char>>,
    from: Seq<Seq<char>>,
    queue: Seq<Seq<char>>,
    seen: Seq<Seq<char>>,
    at: Seq<Seq<int>>,
    found: Seq<Seq<int>>,
) -> (routes: Seq<Seq<int>>)
    requires
        on_course(g, from, queue, seen, at, found),
        thorough(g, from, seen, at, found),
        forall|x: Seq<char>| #[trigger] queue.contains(x) ==> all.contains(x),
        forall|c: Seq<char>, x: Seq<char>| #[trigger]
            leads_to(g, c).contains(x) ==> all.contains(x),
    ensures
        on_course(g, from, Seq::empty(), sweep(g, all, queue, seen), Seq::empty(), routes),
        thorough(g, from, sweep(g, all, queue, seen), Seq::empty(), routes),
    decreases unseen(all, seen, all.len() as int), queue.len(),
{
    if queue.len() == 0 {
        assert(queue =~= Seq::<Seq<char>>::empty());
        assert(at =~= Seq::<Seq<int>>::empty());
        found
    } else {
        let c = queue[0];
        let rest = queue.skip(1);
        assert(queue.contains(c));
        assert forall|x: Seq<char>| #[trigger] rest.contains(x) implies all.contains(x) by {
            let i = choose|i: int| 0 <= i < rest.len() && rest[i] == x;
            assert(queue[i + 1] == x);
            assert(queue.contains(x));
        }
        assert forall|m: int| 0 <= m < from.len() implies routes_to(
            g,
            from,
            seq![m],
            #[trigger] from[m],
        ) by {}
        assert forall|k: int, m: int|
            #![trigger leads_to(g, seen[k])[m]]
            0 <= k < seen.len() && 0 <= m < leads_to(g, seen[k]).len() implies routes_to(
            g,
            from,
            found[k].push(m),
            leads_to(g, seen[k])[m],
        ) by {
            assert(routes_to(g, from, found[k], seen[k]));
            lemma_route_pushed(g, from, found[k], m);
        }
        if seen.contains(c) {
            let left = at.skip(1);
            assert(on_course(g, from, rest, seen, left, found)) by {
                assert forall|i: int| 0 <= i < left.len() implies routes_to(
                    g,
                    from,
                    #[trigger] left[i],
                    rest[i],
                ) by {
                    assert(routes_to(g, from, at[i + 1], queue[i + 1]));
                }
                assert forall|i: int, j: int| 0 <= i < j < left.len() implies comes_before(
                    #[trigger] left[i],
                    #[trigger] left[j],
                ) by {
                    assert(comes_before(at[i + 1], at[j + 1]));
                }
                assert forall|i: int, j: int|
                    0 <= i < found.len() && 0 <= j < left.len() implies comes_before(
                    #[trigger] found[i],
                    #[trigger] left[j],
                ) by {
                    assert(comes_before(found[i], at[j + 1]));
                }
                assert forall|i: int, j: int|
                    0 <= i < left.len() && 0 <= j < left.len() implies comes_before(
                    (#[trigger] left[i]).drop_last(),
                    #[trigger] left[j],
                ) by {
                    assert(comes_before(at[i + 1].drop_last(), at[j + 1]));
                }
            }
            assert(thorough(g, from, seen, left, found)) by {
                assert forall|m: int| 0 <= m < from.len() implies taken_up(
                    seen,
                    left,
                    found,
                    seq![m],
                    #[trigger] from[m],
                ) by {
                    lemma_pass_over(g, from, queue, seen, at, found, seq![m], from[m]);
                }
                assert forall|k: int, m: int|
                    #![trigger leads_to(g, seen[k])[m]]
                    0 <= k < seen.len() && 0 <= m < leads_to(g, seen[k]).len() implies taken_up(
                    seen,
                    left,
                    found,
                    found[k].push(m),
                    leads_to(g, seen[k])[m],
                ) by {
                    lemma_pass_over(
                        g,
                        from,
                        queue,
                        seen,
                        at,
                        found,
                        found[k].push(m),
                        leads_to(g, seen[k])[m],
                    );
                }
            }
            lemma_sweep(g, all, from, rest, seen, left, found)
        } else {
            let to = leads_to(g, c);
            let next = rest + to;
            let more = onward(at[0], to);
            let now = seen.push(c);
            let left = at.skip(1) + more;
            let ways = found.push(at[0]);
            assert forall|x: Seq<char>| #[trigger] next.contains(x) implies all.contains(x) by {
                lemma_add_contains(rest, to, x);
            }
            lemma_course_kept(g, from, queue, seen, at, found);
            assert(thorough(g, from, now, left, ways)) by {
                assert forall|m: int| 0 <= m < from.len() implies taken_up(
                    now,
                    left,
                    ways,
                    seq![m],
                    #[trigger] from[m],
                ) by {
                    lemma_take_up(g, from, queue, seen, at, found, more, seq![m], from[m]);
                }
                assert forall|k: int, m: int|
                    #![trigger leads_to(g, now[k])[m]]
                    0 <= k < now.len() && 0 <= m < leads_to(g, now[k]).len() implies taken_up(
                    now,
                    left,
                    ways,
                    ways[k].push(m),
                    leads_to(g, now[k])[m],
                ) by {
                    if k < seen.len() {
                        assert(now[k] == seen[k]);
                        assert(ways[k] == found[k]);
                        assert(taken_up(
                            seen,
                            at,
                            found,
                            found[k].push(m),
                            leads_to(g, seen[k])[m],
                        ));
                        lemma_take_up(
                            g,
                            from,
                            queue,
                            seen,
                            at,
                            found,
                            more,
                            found[k].push(m),
                            leads_to(g, seen[k])[m],
                        );
                    } else {
                        assert(left[at.len() - 1 + m] == at[0].push(m));
                        assert(left.contains(at[0].push(m)));
                    }
                }
            }
            lemma_unseen_shrinks(all, seen, c);
            lemma_sweep(g, all, from, next, now, left, ways)
        }
    }
}

/// The routes by which [`by_nearness`] finds its names.
proof fn lemma_nearness(g: GraphView, from: Seq<Seq<char>>) -> (routes: Seq<Seq<int>>)
    ensures
        on_course(g, from, Seq::empty(), by_nearness(g, from), Seq::empty(), routes),
        thorough(g, from, by_nearness(g, from), Seq::empty(), routes),
{
    let all = territory(g, from);
    let at = Seq::new(from.len(), |m: int| seq![m]);
    let none = Seq::<Seq<char>>::empty();
    assert forall|x: Seq<char>| #[trigger] from.contains(x) implies all.contains(x) by {
        lemma_add_contains(from, ends(g, 0), x);
    }
    assert forall|c: Seq<char>, x: Seq<char>| #[trigger]
        leads_to(g, c).contains(x) implies all.contains(x) by {
        lemma_links_in_territory(g, from, c, x);
    }
    assert forall|i: int, j: int| 0 <= i < j < at.len() implies comes_before(
        #[trigger] at[i],
        #[trigger] at[j],
    ) by {
        assert(at[i][0] < at[j][0]);
    }
    assert forall|m: int| 0 <= m < from.len() implies taken_up(
        none,
        at,
        Seq::empty(),
        seq![m],
        #[trigger] from[m],
    ) by {
        assert(at[m] == seq![m]);
        assert(at.contains(seq![m]));
    }
    lemma_sweep(g, all, from, from, none, at, Seq::empty())
}

/// Whatever a route leads to is found, by a route that comes no later.
proof fn lemma_found_by_the_first_route(
    g: GraphView,
    from: Seq<Seq<char>>,
    routes: Seq<Seq<int>>,
    r: Seq<int>,
) -> (k: int)
    requires
        on_course(g, from, Seq::empty(), by_nearness(g, from), Seq::empty(), routes),
        thorough(g, from, by_nearness(g, from), Seq::empty(), routes),
        is_route(g, from, r),
    ensures
        0 <= k < by_nearness(g, from).len(),
        by_nearness(g, from)[k] == route_end(g, from, r),
        routes[k] == r || comes_before(routes[k], r),
    decreases r.len(),
{
    let line = by_nearness(g, from);
    let none = Seq::<Seq<int>>::empty();
    if r.len() == 1 {
        assert(r =~= seq![r[0]]);
        let x = from[r[0]];
        assert(taken_up(line, none, routes, seq![r[0]], x));
        choose|k: int|
            0 <= k < line.len() && #[trigger] line[k] == x && (routes[k] == r || comes_before(
                routes[k],
                r,
            ))
    } else {
        let p = r.drop_last();
        let m = r.last();
        let h = lemma_found_by_the_first_route(g, from, routes, p);
        let x = leads_to(g, line[h])[m];
        let way = routes[h].push(m);
        assert(taken_up(line, none, routes, way, x));
        let k = choose|k: int|
            0 <= k < line.len() && #[trigger] line[k] == x && (routes[k] == way || comes_before(
                routes[k],
                way,
            ));
        assert(p.push(m) =~= r);
        if routes[h] != p {
            lemma_before_pushed(routes[h], p, m, m);
            if routes[k] != way {
                lemma_before_is_transitive(routes[k], way, r);
            }
        }
        k
    }
}

/// A name is nearer than every name that comes after it, or as near and written first: some route to
/// it comes before every route to a later one.
pub proof fn the_nearest_name_comes_first(g: GraphView, from: Seq<Seq<char>>, i: int)
    requires
        0 <= i < by_nearness(g, from).len(),
    ensures
        exists|s: Seq<int>|
            {
                &&& #[trigger] routes_to(g, from, s, by_nearness(g, from)[i])
                &&& forall|j: int, r: Seq<int>|
                    i < j < by_nearness(g, from).len() && #[trigger] routes_to(
                        g,
                        from,
                        r,
                        by_nearness(g, from)[j],
                    ) ==> comes_before(s, r)
            },
{
    let line = by_nearness(g, from);
    let routes = lemma_nearness(g, from);
    let s = routes[i];
    assert(routes_to(g, from, routes[i], line[i]));
    assert forall|j: int, r: Seq<int>|
        i < j < line.len() && #[trigger] routes_to(g, from, r, line[j]) implies comes_before(
        s,
        r,
    ) by {
        let k = lemma_found_by_the_first_route(g, from, routes, r);
        lemma_once(g, from, j, k);
        assert(comes_before(routes[i], routes[j]));
        if routes[j] != r {
            lemma_before_is_transitive(routes[i], routes[j], r);
        }
    }
}

/// Of two routes, at most one comes before the other.
pub proof fn one_route_comes_first(a: Seq<int>, b: Seq<int>)
    requires
        comes_before(a, b),
    ensures
        !comes_before(b, a),
{
    if comes_before(b, a) {
        lemma_before_is_transitive(a, b, a);
    }
}

proof fn lemma_sweep_once(
    g: GraphView,
    all: Seq<Seq<char>>,
    queue: Seq<Seq<char>>,
    seen: Seq<Seq<char>>,
)
    requires
        forall|i: int, j: int| 0 <= i < j < seen.len() ==> #[trigger] seen[i] != #[trigger] seen[j],
    ensures
        ({
            let line = sweep(g, all, queue, seen);
            forall|i: int, j: int|
                0 <= i < j < line.len() ==> #[trigger] line[i] != #[trigger] line[j]
        }),
    decreases unseen(all, seen, all.len() as int), queue.len(),
{
    if queue.len() > 0 {
        let c = queue[0];
        if seen.contains(c) || !all.contains(c) {
            lemma_sweep_once(g, all, queue.skip(1), seen);
            assert(sweep(g, all, queue, seen) == sweep(g, all, queue.skip(1), seen));
        } else {
            let more = queue.skip(1) + leads_to(g, c);
            lemma_unseen_shrinks(all, seen, c);
            lemma_sweep_once(g, all, more, seen.push(c));
            assert(sweep(g, all, queue, seen) == sweep(g, all, more, seen.push(c)));
        }
    } else {
        assert(sweep(g, all, queue, seen) == seen);
    }
}

/// A name is found once.
proof fn lemma_once(g: GraphView, from: Seq<Seq<char>>, i: int, j: int)
    requires
        0 <= i < by_nearness(g, from).len(),
        0 <= j < by_nearness(g, from).len(),
        by_nearness(g, from)[i] == by_nearness(g, from)[j],
    ensures
        i == j,
{
    lemma_sweep_once(g, territory(g, from), from, Seq::empty());
}

/// The names along a route.
proof fn lemma_route_is_a_path(g: GraphView, from: Seq<Seq<char>>, r: Seq<int>) -> (p: Seq<
    Seq<char>,
>)
    requires
        is_route(g, from, r),
    ensures
        is_path(g, from, p),
        p.len() == r.len(),
        p.last() == route_end(g, from, r),
    decreases r.len(),
{
    if r.len() == 1 {
        let p = seq![from[r[0]]];
        assert(from.contains(p[0]));
        p
    } else {
        let q = lemma_route_is_a_path(g, from, r.drop_last());
        let p = q.push(route_end(g, from, r));
        assert forall|i: int| 0 <= i < p.len() - 1 implies leads_to(g, #[trigger] p[i]).contains(
            p[i + 1],
        ) by {
            if i < q.len() - 1 {
                assert(p[i] == q[i]);
                assert(leads_to(g, q[i]).contains(q[i + 1]));
            } else {
                let to = leads_to(g, q.last());
                assert(to[r.last()] == p[i + 1]);
                assert(to.contains(to[r.last()]));
            }
        }
        assert(p[0] == q[0]);
        p
    }
}

/// A route along the first `n` names of a path.
proof fn lemma_path_is_a_route(g: GraphView, from: Seq<Seq<char>>, p: Seq<Seq<char>>, n: int) -> (r:
    Seq<int>)
    requires
        is_path(g, from, p),
        1 <= n <= p.len(),
    ensures
        routes_to(g, from, r, p[n - 1]),
        r.len() == n,
    decreases n,
{
    if n == 1 {
        let m = choose|m: int| 0 <= m < from.len() && from[m] == p[0];
        seq![m]
    } else {
        let q = lemma_path_is_a_route(g, from, p, n - 1);
        let to = leads_to(g, p[n - 2]);
        assert(to.contains(p[n - 2 + 1]));
        let m = choose|m: int| 0 <= m < to.len() && to[m] == p[n - 1];
        lemma_route_pushed(g, from, q, m);
        q.push(m)
    }
}

/// There is a route to a name where there is a path to it.
pub proof fn a_path_can_be_routed(g: GraphView, from: Seq<Seq<char>>, x: Seq<char>)
    ensures
        connected(g, from, x) <==> exists|r: Seq<int>| routes_to(g, from, r, x),
{
    if connected(g, from, x) {
        let p = choose|p: Seq<Seq<char>>| #[trigger] is_path(g, from, p) && p.last() == x;
        let r = lemma_path_is_a_route(g, from, p, p.len() as int);
        assert(routes_to(g, from, r, x));
    }
    if exists|r: Seq<int>| routes_to(g, from, r, x) {
        let r = choose|r: Seq<int>| routes_to(g, from, r, x);
        let p = lemma_route_is_a_path(g, from, r);
        assert(is_path(g, from, p) && p.last() == x);
    }
}

/// The names in order of nearness are exactly those that there is a path to.
pub proof fn a_sweep_finds_what_can_be_reached(g: GraphView, from: Seq<Seq<char>>, x: Seq<char>)
    ensures
        by_nearness(g, from).contains(x) <==> connected(g, from, x),
{
    let line = by_nearness(g, from);
    let routes = lemma_nearness(g, from);
    if line.contains(x) {
        let k = choose|k: int| 0 <= k < line.len() && line[k] == x;
        assert(routes_to(g, from, routes[k], line[k]));
        let p = lemma_route_is_a_path(g, from, routes[k]);
        assert(is_path(g, from, p) && p.last() == x);
    }
    if connected(g, from, x) {
        let p = choose|p: Seq<Seq<char>>| #[trigger] is_path(g, from, p) && p.last() == x;
        let r = lemma_path_is_a_route(g, from, p, p.len() as int);
        let k = lemma_found_by_the_first_route(g, from, routes, r);
        assert(line[k] == x);
    }
}

/// No name is farther away than one that comes after it: a path to the later one is at least as long
/// as some path to the earlier one.
pub proof fn no_earlier_name_is_farther_away(
    g: GraphView,
    from: Seq<Seq<char>>,
    i: int,
    j: int,
    p: Seq<Seq<char>>,
)
    requires
        0 <= i < j < by_nearness(g, from).len(),
        is_path(g, from, p),
        p.last() == by_nearness(g, from)[j],
    ensures
        exists|q: Seq<Seq<char>>| #[trigger]
            is_path(g, from, q) && q.last() == by_nearness(g, from)[i] && q.len() <= p.len(),
{
    let line = by_nearness(g, from);
    let r = lemma_path_is_a_route(g, from, p, p.len() as int);
    the_nearest_name_comes_first(g, from, i);
    let s = choose|s: Seq<int>|
        {
            &&& #[trigger] routes_to(g, from, s, line[i])
            &&& forall|j: int, r: Seq<int>|
                i < j < line.len() && #[trigger] routes_to(g, from, r, line[j]) ==> comes_before(
                    s,
                    r,
                )
        };
    assert(routes_to(g, from, r, line[j]));
    let q = lemma_route_is_a_path(g, from, s);
    assert(is_path(g, from, q) && q.last() == line[i] && q.len() <= p.len());
}

/// Whether `name` is among `names`.
pub fn holds_name(names: &Vec<String>, name: &str) -> (b: bool)
    ensures
        b == views(names@).contains(name@),
{
    let mut i: usize = 0;
    while i < names.len()
        invariant
            i <= names@.len(),
            forall|j: int| 0 <= j < i ==> #[trigger] views(names@)[j] != name@,
        decreases names@.len() - i,
    {
        if same(names[i].as_str(), name) {
            assert(views(names@)[i as int] == name@);
            return true;
        }
        i = i + 1;
    }
    false
}

/// Another list of the same names.
pub fn copied_names(names: &Vec<String>) -> (v: Vec<String>)
    ensures
        views(v@) == views(names@),
{
    let mut v: Vec<String> = Vec::new();
    let mut i: usize = 0;
    while i < names.len()
        invariant
            i <= names@.len(),
            views(v@) == views(names@).take(i as int),
        decreases names@.len() - i,
    {
        v.push(names[i].clone());
        i = i + 1;
        assert(views(v@) =~= views(names@).take(i as int));
    }
    assert(views(v@) =~= views(names@));
    v
}

/// The graph with one more link, from `a` to `b`.
pub open spec fn with_link(g: GraphView, a: Seq<char>, b: Seq<char>) -> GraphView {
    let i = entry_from(g, 0, a);
    if 0 <= i < g.len() {
        g.update(i, (g[i].0, g[i].1.push(b)))
    } else {
        g.push((a, seq![b]))
    }
}

proof fn lemma_entry_pushed(g: GraphView, i: int, x: (Seq<char>, Seq<Seq<char>>), c: Seq<char>)
    requires
        0 <= i <= g.len(),
    ensures
        entry_from(g.push(x), i, c) == (if entry_from(g, i, c) < g.len() {
            entry_from(g, i, c)
        } else if x.0 == c {
            g.len() as int
        } else {
            g.len() as int + 1
        }),
    decreases g.len() - i,
{
    lemma_entry_from(g, i, c);
    if i < g.len() {
        assert(g.push(x)[i] == g[i]);
        if g[i].0 != c {
            lemma_entry_pushed(g, i + 1, x, c);
        }
    } else {
        assert(g.push(x)[i] == x);
        assert(entry_from(g.push(x), i + 1, c) == g.len() + 1);
    }
}

proof fn lemma_entry_updated(g: GraphView, i: int, k: int, v: Seq<Seq<char>>, c: Seq<char>)
    requires
        0 <= i <= g.len(),
        0 <= k < g.len(),
    ensures
        entry_from(g.update(k, (g[k].0, v)), i, c) == entry_from(g, i, c),
    decreases g.len() - i,
{
    if i < g.len() && g[i].0 != c {
        lemma_entry_updated(g, i + 1, k, v, c);
    }
}

/// A new link is added to what its own name leads to, and to nothing else.
pub proof fn a_link_changes_one_name(g: GraphView, a: Seq<char>, b: Seq<char>, c: Seq<char>)
    ensures
        leads_to(with_link(g, a, b), c) == (if c == a {
            leads_to(g, a).push(b)
        } else {
            leads_to(g, c)
        }),
{
    let i = entry_from(g, 0, a);
    lemma_entry_from(g, 0, a);
    lemma_entry_from(g, 0, c);
    if i < g.len() {
        lemma_entry_updated(g, 0, i, g[i].1.push(b), c);
    } else {
        lemma_entry_pushed(g, 0, (a, seq![b]), c);
        assert(seq![b] =~= Seq::<Seq<char>>::empty().push(b));
    }
}

impl Graph {
    /// A graph without links.
    pub fn new() -> (g: Graph)
        ensures
            g@ == Seq::<(Seq<char>, Seq<Seq<char>>)>::empty(),
    {
        let g = Graph { entries: Vec::new() };
        assert(g@ =~= Seq::<(Seq<char>, Seq<Seq<char>>)>::empty());
        g
    }

    fn entry(&self, c: &str) -> (i: usize)
        ensures
            i == entry_from(self@, 0, c@),
            i <= self@.len(),
    {
        let mut i: usize = 0;
        while i < self.entries.len()
            invariant
                i <= self.entries@.len(),
                entry_from(self@, i as int, c@) == entry_from(self@, 0, c@),
            decreases self.entries@.len() - i,
        {
            assert(self@[i as int] == self.entries@[i as int]@);
            if same(self.entries[i].from.as_str(), c) {
                return i;
            }
            i = i + 1;
        }
        i
    }

    /// Adds a link from `a` to `b`.
    pub fn add(&mut self, a: &str, b: &str)
        ensures
            final(self)@ == with_link(old(self)@, a@, b@),
    {
        let i = self.entry(a);
        let ghost before = self@;
        if i < self.entries.len() {
            self.entries[i].to.push(String::from_str(b));
            assert(self@ =~= before.update(i as int, (before[i as int].0, before[i as int].1.push(b@))));
        } else {
            let mut to: Vec<String> = Vec::new();
            to.push(String::from_str(b));
            assert(views(to@) =~= seq![b@]);
            self.entries.push(Links { from: String::from_str(a), to });
        }
    }

    /// What `c` leads to.
    pub fn links(&self, c: &str) -> (v: Vec<String>)
        ensures
            views(v@) == leads_to(self@, c@),
    {
        let i = self.entry(c);
        if i < self.entries.len() {
            copied_names(&self.entries[i].to)
        } else {
            let v: Vec<String> = Vec::new();
            assert(views(v@) =~= Seq::<Seq<char>>::empty());
            v
        }
    }

    /// The names that are reached from those in `from`, these included.
    pub fn reachable(&self, from: &Vec<String>) -> (found: Vec<String>)
        ensures
            views(found@) == reachable(self@, views(from@)),
    {
        let ghost g = self@;
        let ghost start = views(from@);
        let ghost all = territory(g, start);
        let mut stack = copied_names(from);
        let mut seen: Vec<String> = Vec::new();
        assert(views(seen@) =~= Seq::<Seq<char>>::empty());
        assert forall|x: Seq<char>| #[trigger] views(stack@).contains(x) implies all.contains(x) by {
            lemma_add_contains(start, ends(g, 0), x);
        }
        while stack.len() > 0
            invariant
                g == self@,
                start == views(from@),
                all == territory(g, start),
                forall|x: Seq<char>| #[trigger] views(stack@).contains(x) ==> all.contains(x),
                walk(g, all, views(stack@), views(seen@)) == reachable(g, start),
            decreases unseen(all, views(seen@), all.len() as int), stack@.len(),
        {
            let ghost before = views(stack@);
            let c = stack.pop().unwrap();
            let ghost rest = views(stack@);
            assert(rest =~= before.drop_last());
            assert(before.last() == c@);
            assert(before[before.len() - 1] == c@);
            assert(before.contains(c@));
            assert forall|x: Seq<char>| #[trigger] rest.contains(x) implies all.contains(x) by {
                lemma_drop_last_contains(before, x);
            }
            if !holds_name(&seen, c.as_str()) {
                let mut more = self.links(c.as_str());
                let ghost added = views(more@);
                let ghost old_stack = stack@;
                let ghost old_more = more@;
                stack.append(&mut more);
                assert(views(stack@) =~= rest + added) by {
                    assert(stack@ =~= old_stack + old_more);
                }
                proof {
                    lemma_unseen_shrinks(all, views(seen@), c@);
                    assert forall|x: Seq<char>| #[trigger]
                        views(stack@).contains(x) implies all.contains(x) by {
                        lemma_add_contains(rest, added, x);
                        if added.contains(x) {
                            lemma_links_in_territory(g, start, c@, x);
                        }
                    }
                }
                seen.push(c);
            }
        }
        seen
    }

    /// The names that are reached from those in `from`, these included, the nearest first.
    pub fn by_nearness(&self, from: &Vec<String>) -> (found: Vec<String>)
        ensures
            views(found@) == by_nearness(self@, views(from@)),
    {
        let ghost g = self@;
        let ghost start = views(from@);
        let ghost all = territory(g, start);
        let mut queue = copied_names(from);
        let mut next: usize = 0;
        let mut seen: Vec<String> = Vec::new();
        assert(views(seen@) =~= Seq::<Seq<char>>::empty());
        assert(views(queue@).skip(0) =~= start);
        assert forall|i: int| 0 <= i < queue@.len() implies all.contains(
            #[trigger] views(queue@)[i],
        ) by {
            assert(start.contains(start[i]));
            lemma_add_contains(start, ends(g, 0), start[i]);
        }
        while next < queue.len()
            invariant
                g == self@,
                start == views(from@),
                all == territory(g, start),
                next <= queue@.len(),
                forall|i: int| 0 <= i < queue@.len() ==> all.contains(#[trigger] views(queue@)[i]),
                sweep(g, all, views(queue@).skip(next as int), views(seen@)) == by_nearness(
                    g,
                    start,
                ),
            decreases unseen(all, views(seen@), all.len() as int), queue@.len() - next,
        {
            let ghost before = views(queue@);
            let c = queue[next].clone();
            assert(before[next as int] == c@);
            assert(before.skip(next as int).skip(1) =~= before.skip(next + 1));
            next = next + 1;
            if !holds_name(&seen, c.as_str()) {
                let mut more = self.links(c.as_str());
                let ghost added = views(more@);
                let ghost old_queue = queue@;
                let ghost old_more = more@;
                queue.append(&mut more);
                proof {
                    assert(queue@ =~= old_queue + old_more);
                    assert(views(queue@) =~= before + added);
                    assert(views(queue@).skip(next as int) =~= before.skip(next as int) + added);
                    lemma_unseen_shrinks(all, views(seen@), c@);
                    assert forall|i: int| 0 <= i < queue@.len() implies all.contains(
                        #[trigger] views(queue@)[i],
                    ) by {
                        if i >= before.len() {
                            assert(added.contains(added[i - before.len()]));
                            lemma_links_in_territory(g, start, c@, added[i - before.len()]);
                        } else {
                            assert(all.contains(before[i]));
                        }
                    }
                }
                seen.push(c);
            }
        }
        assert(views(queue@).skip(next as int) =~= Seq::<Seq<char>>::empty());
        seen
    }
}

} // verus!
