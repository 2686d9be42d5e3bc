//! What is known of the classes of a C++ unit, and what follows from it: which members a class
//! inherits, which destructor an object has, which functions a call of a virtual method may reach,
//! which names are overloaded.

use vstd::prelude::*;
use crate::collections::views;
use crate::graph::{a_path_can_be_routed, a_sweep_finds_what_can_be_reached, by_nearness, comes_before, connected, copied_names, entry_from, holds_name, is_path, leads_to, one_route_comes_first, reachable, routes_to, the_nearest_name_comes_first, with_link, Graph, GraphView, Links};
use crate::text::{chars_of, dec, decimal, joined, same, text_of};

verus! {

broadcast use crate::collections::group_views;

// Sets of names

/// A set of names that can be gone through.
#[derive(Debug)]
pub struct Names {
    list: Vec<String>,
}

impl View for Names {
    type V = Set<Seq<char>>;

    closed spec fn view(&self) -> Set<Seq<char>> {
        Set::new(|s: Seq<char>| views(self.list@).contains(s))
    }
}

proof fn lemma_push_holds(v: Seq<Seq<char>>, name: Seq<char>, x: Seq<char>)
    ensures
        v.push(name).contains(x) <==> v.contains(x) || x == name,
{
    if v.contains(x) {
        let i = choose|i: int| 0 <= i < v.len() && v[i] == x;
        assert(v.push(name)[i] == x);
    }
    assert(v.push(name)[v.len() as int] == name);
    if v.push(name).contains(x) && x != name {
        let i = choose|i: int| 0 <= i < v.push(name).len() && v.push(name)[i] == x;
        assert(v[i] == x);
    }
}

impl Names {
    /// A set without names.
    pub fn new() -> (s: Names)
        ensures
            s@ == Set::<Seq<char>>::empty(),
    {
        let s = Names { list: Vec::new() };
        assert(s@ =~= Set::<Seq<char>>::empty());
        s
    }

    /// Adds a name.
    pub fn insert(&mut self, name: &str)
        ensures
            final(self)@ == old(self)@.insert(name@),
    {
        let ghost before = views(self.list@);
        if !holds_name(&self.list, name) {
            self.list.push(String::from_str(name));
            proof {
                assert forall|x: Seq<char>|
                    #![trigger views(self.list@).contains(x)]
                    views(self.list@).contains(x) == (before.contains(x) || x == name@) by {
                    lemma_push_holds(before, name@, x);
                }
            }
        }
        assert(self@ =~= old(self)@.insert(name@));
    }

    /// Whether a name is in the set.
    pub fn contains(&self, name: &str) -> (b: bool)
        ensures
            b == self@.contains(name@),
    {
        holds_name(&self.list, name)
    }

    /// Adds the names of another set.
    pub fn extend(&mut self, other: &Names)
        ensures
            final(self)@ == old(self)@.union(other@),
    {
        let mut i: usize = 0;
        let ghost all = views(other.list@);
        while i < other.list.len()
            invariant
                i <= other.list@.len(),
                all == views(other.list@),
                forall|x: Seq<char>| #[trigger]
                    self@.contains(x) <==> old(self)@.contains(x) || all.take(
                        i as int,
                    ).contains(x),
            decreases other.list@.len() - i,
        {
            let name = other.list[i].as_str();
            let ghost before = self@;
            self.insert(name);
            proof {
                assert(all.take(i + 1) =~= all.take(i as int).push(name@));
                assert forall|x: Seq<char>| #[trigger]
                    self@.contains(x) <==> old(self)@.contains(x) || all.take(i + 1).contains(
                        x,
                    ) by {
                    lemma_push_holds(all.take(i as int), name@, x);
                    assert(before.contains(x) <==> old(self)@.contains(x) || all.take(
                        i as int,
                    ).contains(x));
                }
            }
            i = i + 1;
        }
        assert(all.take(i as int) =~= all);
        assert(self@ =~= old(self)@.union(other@));
    }
}

// Classes

/// What is known of a class.
#[derive(Debug)]
pub struct ClassInfo {
    /// The classes that it names as its bases, in order.
    pub bases: Vec<String>,
    /// Its data members; a static one is in `static_members` too.
    pub members: Names,
    pub static_members: Names,
    /// Its methods that have a receiver.
    pub methods: Names,
    /// The methods whose result is the receiver.
    pub returns_self: Names,
    /// The methods declared virtual.
    pub virtual_methods: Names,
    pub has_ctor: bool,
    /// Whether the class declares a destructor of its own.
    pub has_dtor: bool,
    pub dtor_virtual: bool,
}

/// View of a [`ClassInfo`].
pub ghost struct ClassView {
    pub bases: Seq<Seq<char>>,
    pub members: Set<Seq<char>>,
    pub static_members: Set<Seq<char>>,
    pub methods: Set<Seq<char>>,
    pub returns_self: Set<Seq<char>>,
    pub virtual_methods: Set<Seq<char>>,
    pub has_ctor: bool,
    pub has_dtor: bool,
    pub dtor_virtual: bool,
}

impl View for ClassInfo {
    type V = ClassView;

    open spec fn view(&self) -> ClassView {
        ClassView {
            bases: views(self.bases@),
            members: self.members@,
            static_members: self.static_members@,
            methods: self.methods@,
            returns_self: self.returns_self@,
            virtual_methods: self.virtual_methods@,
            has_ctor: self.has_ctor,
            has_dtor: self.has_dtor,
            dtor_virtual: self.dtor_virtual,
        }
    }
}

impl ClassView {
    /// A class with these bases of which nothing else is known.
    pub open spec fn derived_from(bases: Seq<Seq<char>>) -> ClassView {
        ClassView {
            bases,
            members: Set::empty(),
            static_members: Set::empty(),
            methods: Set::empty(),
            returns_self: Set::empty(),
            virtual_methods: Set::empty(),
            has_ctor: false,
            has_dtor: false,
            dtor_virtual: false,
        }
    }
}

impl ClassInfo {
    /// A class with these bases of which nothing else is known.
    pub fn derived_from(bases: Vec<String>) -> (c: ClassInfo)
        ensures
            c@ == ClassView::derived_from(views(bases@)),
    {
        ClassInfo {
            bases,
            members: Names::new(),
            static_members: Names::new(),
            methods: Names::new(),
            returns_self: Names::new(),
            virtual_methods: Names::new(),
            has_ctor: false,
            has_dtor: false,
            dtor_virtual: false,
        }
    }
}

/// A class and its qualified name.
#[derive(Debug)]
pub struct Class {
    pub name: String,
    pub info: ClassInfo,
}

impl View for Class {
    type V = (Seq<char>, ClassView);

    open spec fn view(&self) -> (Seq<char>, ClassView) {
        (self.name@, self.info@)
    }
}

/// The classes of a unit, in the order in which they were found.
pub type ClassesView = Seq<(Seq<char>, ClassView)>;

/// The classes of a unit.
#[derive(Debug)]
pub struct Classes {
    pub entries: Vec<Class>,
}

impl View for Classes {
    type V = ClassesView;

    open spec fn view(&self) -> ClassesView {
        views(self.entries@)
    }
}

/// The number of the first class named `name`, from number `i` on; the number of classes if there
/// is none.
pub open spec fn class_from(cs: ClassesView, i: int, name: Seq<char>) -> int
    decreases cs.len() - i,
{
    if i < 0 || i >= cs.len() {
        cs.len() as int
    } else if cs[i].0 == name {
        i
    } else {
        class_from(cs, i + 1, name)
    }
}

/// What is known of the class `name`, if it is one.
pub open spec fn class_at(cs: ClassesView, name: Seq<char>) -> Option<ClassView> {
    let i = class_from(cs, 0, name);
    if 0 <= i < cs.len() {
        Some(cs[i].1)
    } else {
        None
    }
}

/// The classes with the class `name`, in place of whatever was known of it.
pub open spec fn with_class(cs: ClassesView, name: Seq<char>, info: ClassView) -> ClassesView {
    let i = class_from(cs, 0, name);
    if 0 <= i < cs.len() {
        cs.update(i, (name, info))
    } else {
        cs.push((name, info))
    }
}

proof fn lemma_class_from(cs: ClassesView, i: int, name: Seq<char>)
    requires
        0 <= i <= cs.len(),
    ensures
        i <= class_from(cs, i, name) <= cs.len(),
        class_from(cs, i, name) < cs.len() ==> cs[class_from(cs, i, name)].0 == name,
        forall|j: int| i <= j < class_from(cs, i, name) ==> (#[trigger] cs[j]).0 != name,
    decreases cs.len() - i,
{
    if i < cs.len() && cs[i].0 != name {
        lemma_class_from(cs, i + 1, name);
    }
}

/// A class is found under its own name, and none before it has that name.
pub proof fn a_class_is_found_by_its_name(cs: ClassesView, name: Seq<char>)
    ensures
        class_at(cs, name) is Some ==> 0 <= class_from(cs, 0, name) < cs.len() && cs[class_from(
            cs,
            0,
            name,
        )] == (name, class_at(cs, name)->0),
        class_at(cs, name) is None ==> forall|i: int|
            0 <= i < cs.len() ==> (#[trigger] cs[i]).0 != name,
{
    lemma_class_from(cs, 0, name);
}

/// The classes and the classes that each names as its bases.
pub open spec fn base_graph(cs: ClassesView) -> GraphView {
    Seq::new(cs.len(), |i: int| (cs[i].0, cs[i].1.bases))
}

proof fn lemma_base_entry(cs: ClassesView, i: int, name: Seq<char>)
    requires
        0 <= i <= cs.len(),
    ensures
        entry_from(base_graph(cs), i, name) == class_from(cs, i, name),
    decreases cs.len() - i,
{
    if i < cs.len() && cs[i].0 != name {
        lemma_base_entry(cs, i + 1, name);
    }
}

/// A class leads to its bases.
proof fn lemma_base_links(cs: ClassesView, name: Seq<char>)
    ensures
        leads_to(base_graph(cs), name) == (match class_at(cs, name) {
            Some(info) => info.bases,
            None => Seq::empty(),
        }),
{
    lemma_base_entry(cs, 0, name);
    lemma_class_from(cs, 0, name);
}

impl Classes {
    /// No classes.
    pub fn new() -> (c: Classes)
        ensures
            c@ == Seq::<(Seq<char>, ClassView)>::empty(),
    {
        let c = Classes { entries: Vec::new() };
        assert(c@ =~= Seq::<(Seq<char>, ClassView)>::empty());
        c
    }

    /// The number of the class `name`; the number of classes if there is none.
    pub fn find(&self, name: &str) -> (i: usize)
        ensures
            i == class_from(self@, 0, name@),
            i <= self@.len(),
            i < self@.len() ==> class_at(self@, name@) == Some(self.entries@[i as int].info@),
            i >= self@.len() ==> class_at(self@, name@) is None,
    {
        let mut i: usize = 0;
        while i < self.entries.len()
            invariant
                i <= self.entries@.len(),
                class_from(self@, i as int, name@) == class_from(self@, 0, name@),
            decreases self.entries@.len() - i,
        {
            assert(self@[i as int] == self.entries@[i as int]@);
            if same(self.entries[i].name.as_str(), name) {
                return i;
            }
            i = i + 1;
        }
        i
    }

    /// What is known of the class `name`, if it is one.
    pub fn get(&self, name: &str) -> (info: Option<&ClassInfo>)
        ensures
            match info {
                Some(info) => class_at(self@, name@) == Some(info@),
                None => class_at(self@, name@) is None,
            },
    {
        let i = self.find(name);
        if i < self.entries.len() {
            Some(&self.entries[i].info)
        } else {
            None
        }
    }

    /// Adds the class `name`, in place of whatever was known of it.
    pub fn insert(&mut self, name: String, info: ClassInfo)
        ensures
            final(self)@ == with_class(old(self)@, name@, info@),
    {
        let i = self.find(name.as_str());
        let ghost before = self@;
        if i < self.entries.len() {
            self.entries.set(i, Class { name, info });
        } else {
            self.entries.push(Class { name, info });
        }
    }

    /// The classes and the classes that each names as its bases.
    pub fn base_graph(&self) -> (g: Graph)
        ensures
            g@ == base_graph(self@),
    {
        let mut entries: Vec<Links> = Vec::new();
        let mut i: usize = 0;
        while i < self.entries.len()
            invariant
                i <= self.entries@.len(),
                views(entries@) == base_graph(self@).take(i as int),
            decreases self.entries@.len() - i,
        {
            let c = &self.entries[i];
            assert(self@[i as int] == c@);
            entries.push(Links { from: c.name.clone(), to: copied_names(&c.info.bases) });
            i = i + 1;
            assert(views(entries@) =~= base_graph(self@).take(i as int));
        }
        assert(views(entries@) =~= base_graph(self@));
        Graph { entries }
    }
}

// Inheritance

/// The members that some class in `line` declares.
pub open spec fn members_in(cs: ClassesView, line: Seq<Seq<char>>) -> Set<Seq<char>> {
    Set::new(
        |m: Seq<char>|
            exists|c: Seq<char>|
                #![trigger line.contains(c)]
                line.contains(c) && (class_at(cs, c) matches Some(info) && info.members.contains(
                    m,
                )),
    )
}

/// The classes that a class with these bases inherits from.
pub open spec fn ancestors(cs: ClassesView, bases: Seq<Seq<char>>) -> Seq<Seq<char>> {
    reachable(base_graph(cs), bases)
}

/// The members of a class: its own, and those of every class that it inherits from, at any
/// distance.
pub open spec fn with_inherited(cs: ClassesView, info: ClassView) -> ClassView {
    ClassView { members: info.members.union(members_in(cs, ancestors(cs, info.bases))), ..info }
}

/// The classes, each with the members that it inherits.
pub open spec fn flattened(cs: ClassesView) -> ClassesView {
    Seq::new(cs.len(), |i: int| (cs[i].0, with_inherited(cs, cs[i].1)))
}

fn inherited_members(classes: &Classes, line: &Vec<String>) -> (m: Names)
    ensures
        m@ == members_in(classes@, views(line@)),
{
    let ghost cs = classes@;
    let ghost all = views(line@);
    let mut m = Names::new();
    let mut i: usize = 0;
    assert(m@ =~= members_in(cs, all.take(0)));
    while i < line.len()
        invariant
            i <= line@.len(),
            cs == classes@,
            all == views(line@),
            m@ == members_in(cs, all.take(i as int)),
        decreases line@.len() - i,
    {
        let ghost before = m@;
        let name = line[i].as_str();
        if let Some(info) = classes.get(name) {
            m.extend(&info.members);
        }
        proof {
            let now = all.take(i + 1);
            let was = all.take(i as int);
            assert(now =~= was.push(name@));
            assert forall|x: Seq<char>| #[trigger] m@.contains(x) == members_in(cs, now).contains(
                x,
            ) by {
                if members_in(cs, now).contains(x) {
                    let c = choose|c: Seq<char>|
                        #![trigger now.contains(c)]
                        now.contains(c) && (class_at(cs, c) matches Some(info)
                            && info.members.contains(x));
                    lemma_push_holds(was, name@, c);
                    if was.contains(c) {
                        assert(before.contains(x));
                    }
                }
                if m@.contains(x) {
                    if before.contains(x) {
                        let c = choose|c: Seq<char>|
                            #![trigger was.contains(c)]
                            was.contains(c) && (class_at(cs, c) matches Some(info)
                                && info.members.contains(x));
                        lemma_push_holds(was, name@, c);
                        assert(now.contains(c));
                    } else {
                        lemma_push_holds(was, name@, name@);
                        assert(now.contains(name@));
                    }
                }
            }
            assert(m@ =~= members_in(cs, now));
        }
        i = i + 1;
    }
    assert(all.take(i as int) =~= all);
    m
}

/// Gives every class the members that it inherits: a member of a base is a member of the object.
pub fn flatten_inherited_members(classes: &mut Classes)
    ensures
        final(classes)@ == flattened(old(classes)@),
{
    let ghost cs = classes@;
    let graph = classes.base_graph();
    let mut extra: Vec<Names> = Vec::new();
    let mut i: usize = 0;
    while i < classes.entries.len()
        invariant
            i <= classes.entries@.len(),
            classes@ == cs,
            graph@ == base_graph(cs),
            extra@.len() == i,
            forall|j: int|
                0 <= j < i ==> (#[trigger] extra@[j])@ == members_in(
                    cs,
                    ancestors(cs, cs[j].1.bases),
                ),
        decreases classes.entries@.len() - i,
    {
        assert(cs[i as int] == classes.entries@[i as int]@);
        let line = graph.reachable(&classes.entries[i].info.bases);
        extra.push(inherited_members(classes, &line));
        i = i + 1;
    }
    let count: usize = i;
    let mut k: usize = 0;
    while k < count
        invariant
            k <= count,
            count == cs.len(),
            classes@.len() == cs.len(),
            extra@.len() == count,
            forall|j: int|
                0 <= j < count ==> (#[trigger] extra@[j])@ == members_in(
                    cs,
                    ancestors(cs, cs[j].1.bases),
                ),
            forall|j: int| 0 <= j < k ==> #[trigger] classes@[j] == flattened(cs)[j],
            forall|j: int| k <= j < count ==> #[trigger] classes@[j] == cs[j],
        decreases count - k,
    {
        let ghost before = classes@;
        assert(before[k as int] == classes.entries@[k as int]@);
        classes.entries[k].info.members.extend(&extra[k]);
        assert(classes@ =~= before.update(k as int, flattened(cs)[k as int])) by {
            assert(classes@[k as int] == classes.entries@[k as int]@);
        }
        k = k + 1;
    }
    assert(classes@ =~= flattened(cs));
}

/// A class has the members of its bases: what a base has after inheritance, the class has too.
pub proof fn a_class_has_the_members_of_its_bases(
    cs: ClassesView,
    class: Seq<char>,
    base: Seq<char>,
)
    requires
        class_at(cs, class) is Some,
        class_at(cs, base) is Some,
        class_at(cs, class)->0.bases.contains(base),
    ensures
        with_inherited(cs, class_at(cs, base)->0).members.subset_of(
            with_inherited(cs, class_at(cs, class)->0).members,
        ),
{
    let g = base_graph(cs);
    let of_class = class_at(cs, class)->0.bases;
    let of_base = class_at(cs, base)->0.bases;
    assert forall|m: Seq<char>|
        with_inherited(cs, class_at(cs, base)->0).members.contains(
            m,
        ) implies #[trigger] with_inherited(cs, class_at(cs, class)->0).members.contains(m) by {
        if class_at(cs, base)->0.members.contains(m) {
            let p = seq![base];
            assert(is_path(g, of_class, p));
            assert(p.last() == base);
            assert(connected(g, of_class, base));
            crate::graph::a_walk_finds_what_can_be_reached(g, of_class, base);
            assert(ancestors(cs, of_class).contains(base));
        } else {
            let line = ancestors(cs, of_base);
            let c = choose|c: Seq<char>|
                #![trigger line.contains(c)]
                line.contains(c) && (class_at(cs, c) matches Some(info) && info.members.contains(
                    m,
                ));
            crate::graph::a_walk_finds_what_can_be_reached(g, of_base, c);
            let p = choose|p: Seq<Seq<char>>| #[trigger] is_path(g, of_base, p) && p.last() == c;
            let q = seq![base] + p;
            lemma_base_links(cs, base);
            assert forall|i: int| 0 <= i < q.len() - 1 implies leads_to(
                g,
                #[trigger] q[i],
            ).contains(q[i + 1]) by {
                if i > 0 {
                    assert(q[i] == p[i - 1]);
                    assert(leads_to(g, p[i - 1]).contains(p[i - 1 + 1]));
                }
            }
            assert(is_path(g, of_class, q));
            assert(q.last() == c);
            crate::graph::a_walk_finds_what_can_be_reached(g, of_class, c);
            assert(ancestors(cs, of_class).contains(c));
        }
    }
}

/// `g`, with a link from each of the first `n` of the bases to `class`.
pub open spec fn linked_from(g: GraphView, bases: Seq<Seq<char>>, class: Seq<char>, n: int) -> GraphView
    decreases n,
{
    if n <= 0 {
        g
    } else {
        with_link(linked_from(g, bases, class, n - 1), bases[n - 1], class)
    }
}

/// For each of the bases of the first `n` classes, the classes that name it.
pub open spec fn subclass_graph(cs: ClassesView, n: int) -> GraphView
    decreases n,
{
    if n <= 0 {
        Seq::empty()
    } else {
        linked_from(
            subclass_graph(cs, n - 1),
            cs[n - 1].1.bases,
            cs[n - 1].0,
            cs[n - 1].1.bases.len() as int,
        )
    }
}

/// For each base, the classes that name it, in the order in which they were found.
pub fn build_subclasses(classes: &Classes) -> (g: Graph)
    ensures
        g@ == subclass_graph(classes@, classes@.len() as int),
{
    let ghost cs = classes@;
    let mut g = Graph::new();
    let mut i: usize = 0;
    while i < classes.entries.len()
        invariant
            i <= classes.entries@.len(),
            cs == classes@,
            g@ == subclass_graph(cs, i as int),
        decreases classes.entries@.len() - i,
    {
        let c = &classes.entries[i];
        assert(cs[i as int] == c@);
        let ghost start = g@;
        let mut k: usize = 0;
        while k < c.info.bases.len()
            invariant
                k <= c.info.bases@.len(),
                g@ == linked_from(start, views(c.info.bases@), c.name@, k as int),
            decreases c.info.bases@.len() - k,
        {
            g.add(c.info.bases[k].as_str(), c.name.as_str());
            k = k + 1;
        }
        i = i + 1;
    }
    g
}


proof fn lemma_linked_from(
    g: GraphView,
    bases: Seq<Seq<char>>,
    class: Seq<char>,
    n: int,
    b: Seq<char>,
    x: Seq<char>,
)
    requires
        0 <= n <= bases.len(),
    ensures
        leads_to(linked_from(g, bases, class, n), b).contains(x) <==> leads_to(g, b).contains(x) || (
        x == class && bases.take(n).contains(b)),
    decreases n,
{
    if n > 0 {
        lemma_linked_from(g, bases, class, n - 1, b, x);
        let before = linked_from(g, bases, class, n - 1);
        crate::graph::a_link_changes_one_name(before, bases[n - 1], class, b);
        lemma_push_holds(leads_to(before, b), class, x);
        assert(bases.take(n) =~= bases.take(n - 1).push(bases[n - 1]));
        lemma_push_holds(bases.take(n - 1), bases[n - 1], b);
    } else {
        assert(!bases.take(0).contains(b));
    }
}

proof fn lemma_subclasses(cs: ClassesView, n: int, b: Seq<char>, x: Seq<char>)
    requires
        0 <= n <= cs.len(),
    ensures
        leads_to(subclass_graph(cs, n), b).contains(x) <==> exists|i: int|
            0 <= i < n && (#[trigger] cs[i]).0 == x && cs[i].1.bases.contains(b),
    decreases n,
{
    if n > 0 {
        lemma_subclasses(cs, n - 1, b, x);
        let c = cs[n - 1];
        lemma_linked_from(subclass_graph(cs, n - 1), c.1.bases, c.0, c.1.bases.len() as int, b, x);
        assert(c.1.bases.take(c.1.bases.len() as int) =~= c.1.bases);
    } else {
        assert(leads_to(subclass_graph(cs, 0), b) =~= Seq::<Seq<char>>::empty());
    }
}

/// The subclasses of a class are exactly the classes that name it as a base.
pub proof fn subclasses_name_their_base(cs: ClassesView, base: Seq<char>, class: Seq<char>)
    ensures
        leads_to(subclass_graph(cs, cs.len() as int), base).contains(class) <==> exists|i: int|
            0 <= i < cs.len() && (#[trigger] cs[i]).0 == class && cs[i].1.bases.contains(base),
{
    lemma_subclasses(cs, cs.len() as int, base, class);
}

// Destructors

/// What follows the last `::` in the first `n` characters of `s`; all of `s` if there is none.
pub open spec fn after_colons(s: Seq<char>, n: int) -> Seq<char>
    decreases n,
{
    if n < 2 || n > s.len() {
        s
    } else if s[n - 2] == ':' && s[n - 1] == ':' {
        s.skip(n)
    } else {
        after_colons(s, n - 1)
    }
}

/// The name of a class without what it is qualified by.
pub open spec fn simple_name(class: Seq<char>) -> Seq<char> {
    after_colons(class, class.len() as int)
}

/// The name of a class without what it is qualified by.
pub fn simple_class_name(class: &str) -> (s: String)
    ensures
        s@ == simple_name(class@),
{
    let v = chars_of(class);
    let mut n: usize = v.len();
    while n >= 2
        invariant
            n <= v@.len(),
            v@ == class@,
            after_colons(class@, n as int) == simple_name(class@),
        decreases n,
    {
        if v[n - 2] == ':' && v[n - 1] == ':' {
            let s = text_of(&v, n, v.len());
            assert(s@ =~= class@.skip(n as int));
            return s;
        }
        n = n - 1;
    }
    String::from_str(class)
}

/// The name of the function that the destructor of a class is.
pub open spec fn dtor_name(class: Seq<char>) -> Seq<char> {
    class + "::~"@ + simple_name(class)
}

fn destructor_name(class: &str) -> (s: String)
    ensures
        s@ == dtor_name(class@),
{
    let mut s = joined(class, "::~");
    s.append(simple_class_name(class).as_str());
    s
}

/// A class and the classes that it inherits from, the nearest first; of two that are equally near,
/// the one whose base is written first.
pub open spec fn line_of(cs: ClassesView, class: Seq<char>) -> Seq<Seq<char>> {
    by_nearness(base_graph(cs), seq![class])
}

/// Whether `c` is a class that declares a destructor.
pub open spec fn has_dtor(cs: ClassesView, c: Seq<char>) -> bool {
    class_at(cs, c) matches Some(info) && info.has_dtor
}

/// Whether `c` is a class that declares its destructor virtual.
pub open spec fn virtual_dtor(cs: ClassesView, c: Seq<char>) -> bool {
    class_at(cs, c) matches Some(info) && info.dtor_virtual
}

/// The first class in `line` from number `i` on that declares a destructor.
pub open spec fn first_dtor(cs: ClassesView, line: Seq<Seq<char>>, i: int) -> Option<Seq<char>>
    decreases line.len() - i,
{
    if i < 0 || i >= line.len() {
        None
    } else if has_dtor(cs, line[i]) {
        Some(line[i])
    } else {
        first_dtor(cs, line, i + 1)
    }
}

/// The class whose destructor an object of the class `class` has: the class itself, or the nearest
/// base that declares one.
pub open spec fn defining_class(cs: ClassesView, class: Seq<char>) -> Option<Seq<char>> {
    first_dtor(cs, line_of(cs, class), 0)
}

/// Whether the destructor of a class is virtual: a base that declares its own virtual makes it so.
pub open spec fn dtor_dispatches(cs: ClassesView, class: Seq<char>) -> bool {
    exists|i: int|
        0 <= i < line_of(cs, class).len() && virtual_dtor(cs, #[trigger] line_of(cs, class)[i])
}

/// The classes below `class`, at any distance.
pub open spec fn descendants(subclasses: GraphView, class: Seq<char>) -> Seq<Seq<char>> {
    reachable(subclasses, leads_to(subclasses, class))
}

/// `targets`, and the destructors that the classes from number `i` on declare, each once.
pub open spec fn dtors_from(
    cs: ClassesView,
    below: Seq<Seq<char>>,
    i: int,
    targets: Seq<Seq<char>>,
) -> Seq<Seq<char>>
    decreases below.len() - i,
{
    if i < 0 || i >= below.len() {
        targets
    } else {
        dtors_from(
            cs,
            below,
            i + 1,
            if has_dtor(cs, below[i]) && !targets.contains(dtor_name(below[i])) {
                targets.push(dtor_name(below[i]))
            } else {
                targets
            },
        )
    }
}

/// The destructors that a `delete` of a pointer to `class` may run, where the destructor of
/// `defining` is the one that the class has: that one, and that of every class below `class`.
pub open spec fn dtor_targets(
    cs: ClassesView,
    subclasses: GraphView,
    class: Seq<char>,
    defining: Seq<char>,
) -> Seq<Seq<char>> {
    dtors_from(cs, descendants(subclasses, class), 0, seq![dtor_name(defining)])
}

/// The destructors that destroying an object through a pointer to `class` may run: those of the
/// classes below if it is virtual, the one that the class has otherwise, none if it has none.
pub open spec fn deleted(cs: ClassesView, subclasses: GraphView, class: Seq<char>) -> Option<
    Seq<Seq<char>>,
> {
    match defining_class(cs, class) {
        None => None,
        Some(defining) => Some(
            if dtor_dispatches(cs, class) {
                dtor_targets(cs, subclasses, class, defining)
            } else {
                seq![dtor_name(defining)]
            },
        ),
    }
}

// The nearest class

/// Whether `c`, of `class` and the classes that it inherits from, is the nearest that has a property:
/// some route up to it is shorter than every route to another that has the property, or as long and
/// by a base that is written first.
pub open spec fn is_nearest(
    cs: ClassesView,
    class: Seq<char>,
    holds: spec_fn(Seq<char>) -> bool,
    c: Seq<char>,
) -> bool {
    let g = base_graph(cs);
    holds(c) && exists|s: Seq<int>|
        {
            &&& #[trigger] routes_to(g, seq![class], s, c)
            &&& forall|d: Seq<char>, r: Seq<int>|
                holds(d) && d != c && #[trigger] routes_to(g, seq![class], r, d)
                    ==> comes_before(s, r)
        }
}

proof fn lemma_one_nearest(
    cs: ClassesView,
    class: Seq<char>,
    holds: spec_fn(Seq<char>) -> bool,
    c: Seq<char>,
    d: Seq<char>,
)
    requires
        is_nearest(cs, class, holds, c),
        is_nearest(cs, class, holds, d),
    ensures
        c == d,
{
    let g = base_graph(cs);
    let s = choose|s: Seq<int>|
        {
            &&& #[trigger] routes_to(g, seq![class], s, c)
            &&& forall|e: Seq<char>, r: Seq<int>|
                holds(e) && e != c && #[trigger] routes_to(g, seq![class], r, e)
                    ==> comes_before(s, r)
        };
    let t = choose|t: Seq<int>|
        {
            &&& #[trigger] routes_to(g, seq![class], t, d)
            &&& forall|e: Seq<char>, r: Seq<int>|
                holds(e) && e != d && #[trigger] routes_to(g, seq![class], r, e)
                    ==> comes_before(t, r)
        };
    if c != d {
        assert(comes_before(s, t));
        assert(comes_before(t, s));
        one_route_comes_first(s, t);
    }
}

/// The first class in the line that has a property is the nearest that has it.
proof fn lemma_first_is_nearest(
    cs: ClassesView,
    class: Seq<char>,
    holds: spec_fn(Seq<char>) -> bool,
    i: int,
)
    requires
        0 <= i < line_of(cs, class).len(),
        holds(line_of(cs, class)[i]),
        forall|j: int| 0 <= j < i ==> !holds(#[trigger] line_of(cs, class)[j]),
    ensures
        is_nearest(cs, class, holds, line_of(cs, class)[i]),
{
    let g = base_graph(cs);
    let from = seq![class];
    let line = line_of(cs, class);
    the_nearest_name_comes_first(g, from, i);
    let s = choose|s: Seq<int>|
        {
            &&& #[trigger] routes_to(g, from, s, line[i])
            &&& forall|j: int, r: Seq<int>|
                i < j < line.len() && #[trigger] routes_to(g, from, r, line[j])
                    ==> comes_before(s, r)
        };
    assert forall|d: Seq<char>, r: Seq<int>|
        holds(d) && d != line[i] && #[trigger] routes_to(g, from, r, d) implies comes_before(
        s,
        r,
    ) by {
        a_path_can_be_routed(g, from, d);
        a_sweep_finds_what_can_be_reached(g, from, d);
        let j = choose|j: int| 0 <= j < line.len() && line[j] == d;
        assert(routes_to(g, from, r, line[j]));
    }
}

/// The classes in the line are those that a path leads to.
pub(crate) proof fn lemma_in_line(cs: ClassesView, class: Seq<char>, d: Seq<char>)
    ensures
        line_of(cs, class).contains(d) <==> connected(base_graph(cs), seq![class], d),
{
    a_sweep_finds_what_can_be_reached(base_graph(cs), seq![class], d);
}

proof fn lemma_first_dtor(cs: ClassesView, line: Seq<Seq<char>>, i: int) -> (k: int)
    requires
        0 <= i <= line.len(),
    ensures
        i <= k <= line.len(),
        forall|j: int| i <= j < k ==> !has_dtor(cs, #[trigger] line[j]),
        k < line.len() ==> has_dtor(cs, line[k]),
        first_dtor(cs, line, i) == (if k < line.len() {
            Some(line[k])
        } else {
            None
        }),
    decreases line.len() - i,
{
    if i >= line.len() || has_dtor(cs, line[i]) {
        i
    } else {
        lemma_first_dtor(cs, line, i + 1)
    }
}

/// The destructor that an object has is that of the nearest class that declares one, of its own
/// class and the classes that it inherits from; it has none exactly if none of these declares one.
pub proof fn a_destructor_is_that_of_the_nearest_class(
    cs: ClassesView,
    class: Seq<char>,
    c: Seq<char>,
)
    ensures
        defining_class(cs, class) == Some(c) <==> is_nearest(
            cs,
            class,
            |d: Seq<char>| has_dtor(cs, d),
            c,
        ),
        defining_class(cs, class) == Some(c) ==> connected(base_graph(cs), seq![class], c)
            && has_dtor(cs, c),
        defining_class(cs, class) is None ==> !(connected(base_graph(cs), seq![class], c)
            && has_dtor(cs, c)),
{
    let holds = |d: Seq<char>| has_dtor(cs, d);
    let line = line_of(cs, class);
    let k = lemma_first_dtor(cs, line, 0);
    a_path_can_be_routed(base_graph(cs), seq![class], c);
    if k < line.len() {
        assert forall|j: int| 0 <= j < k implies !holds(#[trigger] line_of(cs, class)[j]) by {
            assert(!has_dtor(cs, line[j]));
        }
        lemma_first_is_nearest(cs, class, holds, k);
        if is_nearest(cs, class, holds, c) {
            lemma_one_nearest(cs, class, holds, c, line[k]);
        }
    } else {
        lemma_in_line(cs, class, c);
        if line.contains(c) {
            let j = choose|j: int| 0 <= j < line.len() && line[j] == c;
            assert(!has_dtor(cs, line[j]));
        }
    }
}

fn line_up(classes: &Classes, class: &str) -> (line: Vec<String>)
    ensures
        views(line@) == line_of(classes@, class@),
{
    let mut start: Vec<String> = Vec::new();
    start.push(String::from_str(class));
    assert(views(start@) =~= seq![class@]);
    classes.base_graph().by_nearness(&start)
}

/// The class whose destructor an object of the class `class` has: the class itself, or the nearest
/// base that declares one.
pub fn dtor_defining_class(classes: &Classes, class: &str) -> (c: Option<String>)
    ensures
        match c {
            Some(c) => defining_class(classes@, class@) == Some(c@),
            None => defining_class(classes@, class@) is None,
        },
{
    let ghost cs = classes@;
    let line = line_up(classes, class);
    let ghost lv = views(line@);
    let mut i: usize = 0;
    while i < line.len()
        invariant
            i <= line@.len(),
            cs == classes@,
            lv == views(line@),
            lv == line_of(cs, class@),
            first_dtor(cs, lv, i as int) == first_dtor(cs, lv, 0),
        decreases line@.len() - i,
    {
        assert(lv[i as int] == line@[i as int]@);
        if let Some(info) = classes.get(line[i].as_str()) {
            if info.has_dtor {
                return Some(line[i].clone());
            }
        }
        i = i + 1;
    }
    None
}

/// Whether the destructor of a class is virtual.
pub fn dtor_is_virtual(classes: &Classes, class: &str) -> (b: bool)
    ensures
        b == dtor_dispatches(classes@, class@),
{
    let ghost cs = classes@;
    let line = line_up(classes, class);
    let ghost lv = views(line@);
    let mut i: usize = 0;
    while i < line.len()
        invariant
            i <= line@.len(),
            cs == classes@,
            lv == views(line@),
            lv == line_of(cs, class@),
            forall|j: int| 0 <= j < i ==> !virtual_dtor(cs, #[trigger] lv[j]),
        decreases line@.len() - i,
    {
        assert(lv[i as int] == line@[i as int]@);
        if let Some(info) = classes.get(line[i].as_str()) {
            if info.dtor_virtual {
                assert(virtual_dtor(cs, line_of(cs, class@)[i as int]));
                return true;
            }
        }
        i = i + 1;
    }
    false
}

/// The destructors that a `delete` of a pointer to `class` may run, where the destructor of
/// `defining` is the one that the class has.
pub fn dtor_cha_targets(classes: &Classes, subclasses: &Graph, class: &str, defining: &str) -> (
    targets: Vec<String>)
    ensures
        views(targets@) == dtor_targets(classes@, subclasses@, class@, defining@),
{
    let ghost cs = classes@;
    let mut targets: Vec<String> = Vec::new();
    targets.push(destructor_name(defining));
    assert(views(targets@) =~= seq![dtor_name(defining@)]);
    let below = subclasses.reachable(&subclasses.links(class));
    let ghost bv = views(below@);
    let mut i: usize = 0;
    while i < below.len()
        invariant
            i <= below@.len(),
            cs == classes@,
            bv == views(below@),
            dtors_from(cs, bv, i as int, views(targets@)) == dtors_from(
                cs,
                bv,
                0,
                seq![dtor_name(defining@)],
            ),
        decreases below@.len() - i,
    {
        assert(bv[i as int] == below@[i as int]@);
        if let Some(info) = classes.get(below[i].as_str()) {
            if info.has_dtor {
                let edge = destructor_name(below[i].as_str());
                if !holds_name(&targets, edge.as_str()) {
                    targets.push(edge);
                }
            }
        }
        i = i + 1;
    }
    targets
}

/// The destructors that destroying an object through a pointer to `class` may run.
pub fn delete_targets(classes: &Classes, subclasses: &Graph, class: &str) -> (targets: Option<
    Vec<String>,
>)
    ensures
        match targets {
            Some(v) => deleted(classes@, subclasses@, class@) == Some(views(v@)),
            None => deleted(classes@, subclasses@, class@) is None,
        },
{
    match dtor_defining_class(classes, class) {
        None => None,
        Some(defining) => {
            if dtor_is_virtual(classes, class) {
                Some(dtor_cha_targets(classes, subclasses, class, defining.as_str()))
            } else {
                let mut v: Vec<String> = Vec::new();
                v.push(destructor_name(defining.as_str()));
                assert(views(v@) =~= seq![dtor_name(defining@)]);
                Some(v)
            }
        },
    }
}

/// The destructor that a stack object of the class `class` has: its type is known, so there is one
/// at most.
pub fn exact_destructor(classes: &Classes, class: &str) -> (target: Option<String>)
    ensures
        match target {
            Some(s) => defining_class(classes@, class@) is Some && s@ == dtor_name(
                defining_class(classes@, class@)->0,
            ),
            None => defining_class(classes@, class@) is None,
        },
{
    match dtor_defining_class(classes, class) {
        Some(c) => Some(destructor_name(c.as_str())),
        None => None,
    }
}

proof fn lemma_dtors_kept(
    cs: ClassesView,
    below: Seq<Seq<char>>,
    i: int,
    targets: Seq<Seq<char>>,
    x: Seq<char>,
)
    requires
        targets.contains(x),
    ensures
        dtors_from(cs, below, i, targets).contains(x),
    decreases below.len() - i,
{
    if 0 <= i && i < below.len() {
        let next = if has_dtor(cs, below[i]) && !targets.contains(dtor_name(below[i])) {
            targets.push(dtor_name(below[i]))
        } else {
            targets
        };
        lemma_push_holds(targets, dtor_name(below[i]), x);
        lemma_dtors_kept(cs, below, i + 1, next, x);
    }
}

proof fn lemma_dtors_found(
    cs: ClassesView,
    below: Seq<Seq<char>>,
    i: int,
    targets: Seq<Seq<char>>,
    k: int,
)
    requires
        0 <= i <= k < below.len(),
        has_dtor(cs, below[k]),
    ensures
        dtors_from(cs, below, i, targets).contains(dtor_name(below[k])),
    decreases k - i,
{
    let next = if has_dtor(cs, below[i]) && !targets.contains(dtor_name(below[i])) {
        targets.push(dtor_name(below[i]))
    } else {
        targets
    };
    if i == k {
        lemma_push_holds(targets, dtor_name(below[i]), dtor_name(below[i]));
        lemma_dtors_kept(cs, below, i + 1, next, dtor_name(below[k]));
    } else {
        lemma_dtors_found(cs, below, i + 1, next, k);
    }
}

/// Whatever class below `class` an object is of, a `delete` through a pointer to `class` with a
/// virtual destructor may run the destructor that the object's class declares; and it may always
/// run the one that `class` has.
pub proof fn a_virtual_delete_covers_every_class_below(
    cs: ClassesView,
    subclasses: GraphView,
    class: Seq<char>,
    sub: Seq<char>,
)
    requires
        defining_class(cs, class) is Some,
        dtor_dispatches(cs, class),
        connected(subclasses, leads_to(subclasses, class), sub),
        has_dtor(cs, sub),
    ensures
        deleted(cs, subclasses, class) is Some,
        deleted(cs, subclasses, class)->0.contains(dtor_name(sub)),
        deleted(cs, subclasses, class)->0.contains(dtor_name(defining_class(cs, class)->0)),
{
    let below = descendants(subclasses, class);
    let first = dtor_name(defining_class(cs, class)->0);
    crate::graph::a_walk_finds_what_can_be_reached(subclasses, leads_to(subclasses, class), sub);
    let k = choose|k: int| 0 <= k < below.len() && below[k] == sub;
    lemma_dtors_found(cs, below, 0, seq![first], k);
    assert(seq![first][0] == first);
    lemma_dtors_kept(cs, below, 0, seq![first], first);
}

// Overloads

/// A function, and how many parameters it has.
#[derive(Debug)]
pub struct Overload {
    pub name: String,
    pub arity: usize,
}

impl View for Overload {
    type V = (Seq<char>, usize);

    open spec fn view(&self) -> (Seq<char>, usize) {
        (self.name@, self.arity)
    }
}

/// The functions of a unit, each with the number of its parameters.
pub type OverloadsView = Seq<(Seq<char>, usize)>;

/// Whether functions with different numbers of parameters have the name `base`.
pub open spec fn overloaded(ov: OverloadsView, base: Seq<char>) -> bool {
    exists|i: int, j: int|
        0 <= i < ov.len() && 0 <= j < ov.len() && (#[trigger] ov[i]).0 == base && (
        #[trigger] ov[j]).0 == base && ov[i].1 != ov[j].1
}

/// The name of the function `base` with `arity` parameters: an overloaded name is followed by the
/// number.
pub open spec fn mangled(ov: OverloadsView, base: Seq<char>, arity: usize) -> Seq<char> {
    if overloaded(ov, base) {
        base + "#"@ + dec(arity as nat)
    } else {
        base
    }
}

fn is_overloaded(overloads: &Vec<Overload>, base: &str) -> (b: bool)
    ensures
        b == overloaded(views(overloads@), base@),
{
    let ghost ov = views(overloads@);
    let mut first: Option<usize> = None;
    let ghost mut at: int = 0;
    let mut i: usize = 0;
    while i < overloads.len()
        invariant
            i <= overloads@.len(),
            ov == views(overloads@),
            match first {
                Some(a) => {
                    &&& 0 <= at < i
                    &&& ov[at].0 == base@
                    &&& ov[at].1 == a
                    &&& forall|j: int| 0 <= j < i && (#[trigger] ov[j]).0 == base@ ==> ov[j].1 == a
                },
                None => forall|j: int| 0 <= j < i ==> (#[trigger] ov[j]).0 != base@,
            },
        decreases overloads@.len() - i,
    {
        let o = &overloads[i];
        assert(ov[i as int] == o@);
        if same(o.name.as_str(), base) {
            match first {
                Some(a) => {
                    if a != o.arity {
                        assert(ov[at].0 == base@ && ov[i as int].0 == base@);
                        return true;
                    }
                },
                None => {
                    first = Some(o.arity);
                    proof {
                        at = i as int;
                    }
                },
            }
        }
        i = i + 1;
    }
    false
}

/// The name of the function `base` with `arity` parameters.
pub fn overload_name(overloads: &Vec<Overload>, base: &str, arity: usize) -> (s: String)
    ensures
        s@ == mangled(views(overloads@), base@, arity),
{
    if is_overloaded(overloads, base) {
        let mut s = joined(base, "#");
        s.append(decimal(arity).as_str());
        s
    } else {
        String::from_str(base)
    }
}

/// Overloads of one name that differ in the number of their parameters have different names.
pub proof fn overloads_have_different_names(
    ov: OverloadsView,
    base: Seq<char>,
    a: usize,
    b: usize,
)
    requires
        overloaded(ov, base),
        a != b,
    ensures
        mangled(ov, base, a) != mangled(ov, base, b),
{
    let front = base + "#"@;
    let x = front + dec(a as nat);
    let y = front + dec(b as nat);
    if x == y {
        assert(x.skip(front.len() as int) =~= dec(a as nat));
        assert(y.skip(front.len() as int) =~= dec(b as nat));
        crate::text::dec_is_injective(a as nat, b as nat);
    }
}

// Methods

/// Whether `c` is a class that declares the method `name`.
pub open spec fn has_method(cs: ClassesView, c: Seq<char>, name: Seq<char>) -> bool {
    class_at(cs, c) matches Some(info) && info.methods.contains(name)
}

/// Whether `c` is a class that declares the method `name` virtual.
pub open spec fn virtual_method(cs: ClassesView, c: Seq<char>, name: Seq<char>) -> bool {
    class_at(cs, c) matches Some(info) && info.virtual_methods.contains(name)
}

/// The first class in `line` from number `i` on that declares the method `name`.
pub open spec fn first_method(
    cs: ClassesView,
    line: Seq<Seq<char>>,
    i: int,
    name: Seq<char>,
) -> Option<Seq<char>>
    decreases line.len() - i,
{
    if i < 0 || i >= line.len() {
        None
    } else if has_method(cs, line[i], name) {
        Some(line[i])
    } else {
        first_method(cs, line, i + 1, name)
    }
}

/// The class whose method a call of `name` on an object of the class `class` finds: the class
/// itself, or the nearest base that declares one.
pub open spec fn method_class(cs: ClassesView, class: Seq<char>, name: Seq<char>) -> Option<
    Seq<char>,
> {
    first_method(cs, line_of(cs, class), 0, name)
}

/// Whether a call of the method `name` on a `class` is dispatched at run time.
pub open spec fn method_dispatches(cs: ClassesView, class: Seq<char>, name: Seq<char>) -> bool {
    exists|i: int|
        0 <= i < line_of(cs, class).len() && virtual_method(
            cs,
            #[trigger] line_of(cs, class)[i],
            name,
        )
}

/// `class::name`.
pub open spec fn qualified(class: Seq<char>, name: Seq<char>) -> Seq<char> {
    class + "::"@ + name
}

/// `class::name`.
pub fn qualified_name(class: &str, name: &str) -> (s: String)
    ensures
        s@ == qualified(class@, name@),
{
    let mut s = joined(class, "::");
    s.append(name);
    s
}

/// `targets`, and the methods `name` that the classes from number `i` on declare, each once.
pub open spec fn methods_from(
    cs: ClassesView,
    ov: OverloadsView,
    below: Seq<Seq<char>>,
    i: int,
    name: Seq<char>,
    arity: usize,
    targets: Seq<Seq<char>>,
) -> Seq<Seq<char>>
    decreases below.len() - i,
{
    if i < 0 || i >= below.len() {
        targets
    } else {
        let target = mangled(ov, qualified(below[i], name), arity);
        methods_from(
            cs,
            ov,
            below,
            i + 1,
            name,
            arity,
            if has_method(cs, below[i], name) && !targets.contains(target) {
                targets.push(target)
            } else {
                targets
            },
        )
    }
}

/// The functions that a call of the method `name` with `arity` arguments on a `class` may reach:
/// the method that the class has, and those of the classes below if it is virtual. `None` if
/// neither the class nor a base declares it.
pub open spec fn dispatched(
    cs: ClassesView,
    subclasses: GraphView,
    ov: OverloadsView,
    class: Seq<char>,
    name: Seq<char>,
    arity: usize,
) -> Option<Seq<Seq<char>>> {
    match method_class(cs, class, name) {
        None => None,
        Some(c) => {
            let own = seq![mangled(ov, qualified(c, name), arity)];
            Some(
                if method_dispatches(cs, class, name) {
                    methods_from(cs, ov, descendants(subclasses, class), 0, name, arity, own)
                } else {
                    own
                },
            )
        },
    }
}

proof fn lemma_first_method(cs: ClassesView, line: Seq<Seq<char>>, i: int, name: Seq<char>) -> (k: int)
    requires
        0 <= i <= line.len(),
    ensures
        i <= k <= line.len(),
        forall|j: int| i <= j < k ==> !has_method(cs, #[trigger] line[j], name),
        k < line.len() ==> has_method(cs, line[k], name),
        first_method(cs, line, i, name) == (if k < line.len() {
            Some(line[k])
        } else {
            None
        }),
    decreases line.len() - i,
{
    if i >= line.len() || has_method(cs, line[i], name) {
        i
    } else {
        lemma_first_method(cs, line, i + 1, name)
    }
}

/// The method that a call finds is that of the nearest class that declares one, of the object's own
/// class and the classes that it inherits from; it finds none exactly if none of these declares one.
pub proof fn a_method_is_that_of_the_nearest_class(
    cs: ClassesView,
    class: Seq<char>,
    name: Seq<char>,
    c: Seq<char>,
)
    ensures
        method_class(cs, class, name) == Some(c) <==> is_nearest(
            cs,
            class,
            |d: Seq<char>| has_method(cs, d, name),
            c,
        ),
        method_class(cs, class, name) == Some(c) ==> connected(base_graph(cs), seq![class], c)
            && has_method(cs, c, name),
        method_class(cs, class, name) is None ==> !(connected(base_graph(cs), seq![class], c)
            && has_method(cs, c, name)),
{
    let holds = |d: Seq<char>| has_method(cs, d, name);
    let line = line_of(cs, class);
    let k = lemma_first_method(cs, line, 0, name);
    a_path_can_be_routed(base_graph(cs), seq![class], c);
    if k < line.len() {
        assert forall|j: int| 0 <= j < k implies !holds(#[trigger] line_of(cs, class)[j]) by {
            assert(!has_method(cs, line[j], name));
        }
        lemma_first_is_nearest(cs, class, holds, k);
        if is_nearest(cs, class, holds, c) {
            lemma_one_nearest(cs, class, holds, c, line[k]);
        }
    } else {
        lemma_in_line(cs, class, c);
        if line.contains(c) {
            let j = choose|j: int| 0 <= j < line.len() && line[j] == c;
            assert(!has_method(cs, line[j], name));
        }
    }
}

proof fn lemma_methods_kept(
    cs: ClassesView,
    ov: OverloadsView,
    below: Seq<Seq<char>>,
    i: int,
    name: Seq<char>,
    arity: usize,
    targets: Seq<Seq<char>>,
    x: Seq<char>,
)
    requires
        targets.contains(x),
    ensures
        methods_from(cs, ov, below, i, name, arity, targets).contains(x),
    decreases below.len() - i,
{
    if 0 <= i && i < below.len() {
        let target = mangled(ov, qualified(below[i], name), arity);
        let next = if has_method(cs, below[i], name) && !targets.contains(target) {
            targets.push(target)
        } else {
            targets
        };
        lemma_push_holds(targets, target, x);
        lemma_methods_kept(cs, ov, below, i + 1, name, arity, next, x);
    }
}

proof fn lemma_methods_found(
    cs: ClassesView,
    ov: OverloadsView,
    below: Seq<Seq<char>>,
    i: int,
    name: Seq<char>,
    arity: usize,
    targets: Seq<Seq<char>>,
    k: int,
)
    requires
        0 <= i <= k < below.len(),
        has_method(cs, below[k], name),
    ensures
        methods_from(cs, ov, below, i, name, arity, targets).contains(
            mangled(ov, qualified(below[k], name), arity),
        ),
    decreases k - i,
{
    let target = mangled(ov, qualified(below[i], name), arity);
    let next = if has_method(cs, below[i], name) && !targets.contains(target) {
        targets.push(target)
    } else {
        targets
    };
    if i == k {
        lemma_push_holds(targets, target, target);
        lemma_methods_kept(cs, ov, below, i + 1, name, arity, next, target);
    } else {
        lemma_methods_found(cs, ov, below, i + 1, name, arity, next, k);
    }
}

/// Whatever class below `class` an object is of, a virtual call on a `class` may reach the override
/// that the object's class declares; and any call may reach the method that `class` has.
pub proof fn a_virtual_call_covers_every_override(
    cs: ClassesView,
    subclasses: GraphView,
    ov: OverloadsView,
    class: Seq<char>,
    name: Seq<char>,
    arity: usize,
    d: Seq<char>,
)
    requires
        method_class(cs, class, name) is Some,
    ensures
        dispatched(cs, subclasses, ov, class, name, arity) is Some,
        dispatched(cs, subclasses, ov, class, name, arity)->0.contains(
            mangled(ov, qualified(method_class(cs, class, name)->0, name), arity),
        ),
        method_dispatches(cs, class, name) && descendants(subclasses, class).contains(d)
            && has_method(cs, d, name) ==> dispatched(
            cs,
            subclasses,
            ov,
            class,
            name,
            arity,
        )->0.contains(mangled(ov, qualified(d, name), arity)),
{
    let below = descendants(subclasses, class);
    let first = mangled(ov, qualified(method_class(cs, class, name)->0, name), arity);
    assert(seq![first][0] == first);
    lemma_methods_kept(cs, ov, below, 0, name, arity, seq![first], first);
    if below.contains(d) && has_method(cs, d, name) {
        let k = choose|k: int| 0 <= k < below.len() && below[k] == d;
        lemma_methods_found(cs, ov, below, 0, name, arity, seq![first], k);
    }
}

/// The class whose method a call of `name` on an object of the class `class` finds.
pub fn resolve_method_class(classes: &Classes, class: &str, name: &str) -> (c: Option<String>)
    ensures
        match c {
            Some(c) => method_class(classes@, class@, name@) == Some(c@),
            None => method_class(classes@, class@, name@) is None,
        },
{
    let ghost cs = classes@;
    let line = line_up(classes, class);
    let ghost lv = views(line@);
    let mut i: usize = 0;
    while i < line.len()
        invariant
            i <= line@.len(),
            cs == classes@,
            lv == views(line@),
            lv == line_of(cs, class@),
            first_method(cs, lv, i as int, name@) == first_method(cs, lv, 0, name@),
        decreases line@.len() - i,
    {
        assert(lv[i as int] == line@[i as int]@);
        if let Some(info) = classes.get(line[i].as_str()) {
            if info.methods.contains(name) {
                return Some(line[i].clone());
            }
        }
        i = i + 1;
    }
    None
}

/// Whether a call of the method `name` on a `class` is dispatched at run time.
pub fn method_is_virtual(classes: &Classes, class: &str, name: &str) -> (b: bool)
    ensures
        b == method_dispatches(classes@, class@, name@),
{
    let ghost cs = classes@;
    let line = line_up(classes, class);
    let ghost lv = views(line@);
    let mut i: usize = 0;
    while i < line.len()
        invariant
            i <= line@.len(),
            cs == classes@,
            lv == views(line@),
            lv == line_of(cs, class@),
            forall|j: int| 0 <= j < i ==> !virtual_method(cs, #[trigger] lv[j], name@),
        decreases line@.len() - i,
    {
        assert(lv[i as int] == line@[i as int]@);
        if let Some(info) = classes.get(line[i].as_str()) {
            if info.virtual_methods.contains(name) {
                assert(virtual_method(cs, line_of(cs, class@)[i as int], name@));
                return true;
            }
        }
        i = i + 1;
    }
    false
}

/// The functions that a call of the method `name` with `arity` arguments on a `class` may reach.
pub fn method_targets(
    classes: &Classes,
    subclasses: &Graph,
    overloads: &Vec<Overload>,
    class: &str,
    name: &str,
    arity: usize,
) -> (targets: Option<Vec<String>>)
    ensures
        match targets {
            Some(v) => dispatched(
                classes@,
                subclasses@,
                views(overloads@),
                class@,
                name@,
                arity,
            ) == Some(views(v@)),
            None => dispatched(
                classes@,
                subclasses@,
                views(overloads@),
                class@,
                name@,
                arity,
            ) is None,
        },
{
    let ghost cs = classes@;
    let ghost ov = views(overloads@);
    let own = match resolve_method_class(classes, class, name) {
        Some(c) => c,
        None => {
            return None;
        },
    };
    let mut targets: Vec<String> = Vec::new();
    targets.push(
        overload_name(overloads, qualified_name(own.as_str(), name).as_str(), arity),
    );
    let ghost first = seq![mangled(ov, qualified(own@, name@), arity)];
    assert(views(targets@) =~= first);
    if !method_is_virtual(classes, class, name) {
        return Some(targets);
    }
    let below = subclasses.reachable(&subclasses.links(class));
    let ghost bv = views(below@);
    let mut i: usize = 0;
    while i < below.len()
        invariant
            i <= below@.len(),
            cs == classes@,
            ov == views(overloads@),
            bv == views(below@),
            methods_from(cs, ov, bv, i as int, name@, arity, views(targets@)) == methods_from(
                cs,
                ov,
                bv,
                0,
                name@,
                arity,
                first,
            ),
        decreases below@.len() - i,
    {
        assert(bv[i as int] == below@[i as int]@);
        if let Some(info) = classes.get(below[i].as_str()) {
            if info.methods.contains(name) {
                let target = overload_name(
                    overloads,
                    qualified_name(below[i].as_str(), name).as_str(),
                    arity,
                );
                if !holds_name(&targets, target.as_str()) {
                    targets.push(target);
                }
            }
        }
        i = i + 1;
    }
    Some(targets)
}


// The tables of a unit

/// What lowering a C++ unit is told of its classes and functions. A C unit has none.
#[derive(Debug)]
pub struct ClassTables {
    pub classes: Classes,
    /// For each class, the classes that name it as a base.
    pub subclasses: Graph,
    /// The functions, each with the number of its parameters.
    pub overloads: Vec<Overload>,
}

/// View of [`ClassTables`].
pub ghost struct TablesView {
    pub classes: ClassesView,
    pub subclasses: GraphView,
    pub overloads: OverloadsView,
}

impl View for ClassTables {
    type V = TablesView;

    open spec fn view(&self) -> TablesView {
        TablesView {
            classes: self.classes@,
            subclasses: self.subclasses@,
            overloads: views(self.overloads@),
        }
    }
}

impl TablesView {
    /// No classes, and no overloads.
    pub open spec fn none() -> TablesView {
        TablesView { classes: Seq::empty(), subclasses: Seq::empty(), overloads: Seq::empty() }
    }
}

impl ClassTables {
    /// No classes, and no overloads.
    pub fn none() -> (t: ClassTables)
        ensures
            t@ == TablesView::none(),
    {
        let t = ClassTables {
            classes: Classes::new(),
            subclasses: Graph::new(),
            overloads: Vec::new(),
        };
        assert(t@.overloads =~= TablesView::none().overloads);
        t
    }
}

} // verus!
