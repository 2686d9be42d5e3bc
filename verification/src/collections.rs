//! The hash tables the front end keeps, as `hashbrown` provides them.
//!
//! A table is held in a private field, so that what is known of it is exactly what the methods
//! below say: each states what the `hashbrown` method it calls does to the contents, and what it
//! returns. Keys are strings or pairs of integers, values are integers, so nothing rests on a
//! hand-written or derived `Hash` or `Eq`.

use vstd::prelude::*;

verus! {

/// A table from names to numbers: `hashbrown::HashMap<String, usize>`.
#[verifier::external_body]
#[derive(Debug)]
pub struct NameMap {
    inner: hashbrown::HashMap<String, usize>,
}

/// What a [`NameMap`] holds.
pub uninterp spec fn name_map(m: NameMap) -> Map<Seq<char>, usize>;

/// A table no name is in.
pub open spec fn no_names() -> Map<Seq<char>, usize> {
    Map::empty()
}

impl View for NameMap {
    type V = Map<Seq<char>, usize>;

    open spec fn view(&self) -> Map<Seq<char>, usize> {
        name_map(*self)
    }
}

impl NameMap {
    /// `hashbrown::HashMap::new`: an empty table.
    #[verifier::external_body]
    pub(crate) fn new() -> (m: NameMap)
        ensures
            name_map(m) == no_names(),
    {
        NameMap { inner: hashbrown::HashMap::new() }
    }

    /// `hashbrown::HashMap::insert`: the key maps to the value afterwards, in place of whatever it
    /// mapped to before, and every other key is untouched.
    #[verifier::external_body]
    pub(crate) fn insert(&mut self, key: String, value: usize)
        ensures
            name_map(*final(self)) == name_map(*old(self)).insert(key@, value),
    {
        self.inner.insert(key, value);
    }

    /// `hashbrown::HashMap::get`: the value the key maps to, or `None` for a key that is not there.
    #[verifier::external_body]
    pub(crate) fn get(&self, key: &str) -> (found: Option<usize>)
        ensures
            found == (if name_map(*self).contains_key(key@) {
                Some(name_map(*self)[key@])
            } else {
                None
            }),
    {
        self.inner.get(key).copied()
    }
}

/// A set of names: `hashbrown::HashSet<String>`.
#[verifier::external_body]
#[derive(Debug)]
pub struct NameSet {
    inner: hashbrown::HashSet<String>,
}

/// What a [`NameSet`] holds.
pub uninterp spec fn name_set(s: NameSet) -> Set<Seq<char>>;

impl View for NameSet {
    type V = Set<Seq<char>>;

    open spec fn view(&self) -> Set<Seq<char>> {
        name_set(*self)
    }
}

impl NameSet {
    /// `hashbrown::HashSet::new`: an empty set.
    #[verifier::external_body]
    pub(crate) fn new() -> (s: NameSet)
        ensures
            name_set(s) == Set::<Seq<char>>::empty(),
    {
        NameSet { inner: hashbrown::HashSet::new() }
    }

    /// `hashbrown::HashSet::insert`: the name is in the set afterwards; the answer is whether it
    /// was not there before.
    #[verifier::external_body]
    pub(crate) fn insert(&mut self, name: String) -> (fresh: bool)
        ensures
            name_set(*final(self)) == name_set(*old(self)).insert(name@),
            fresh == !name_set(*old(self)).contains(name@),
    {
        self.inner.insert(name)
    }

    /// `hashbrown::HashSet::contains`.
    #[verifier::external_body]
    pub(crate) fn contains(&self, name: &str) -> (found: bool)
        ensures
            found == name_set(*self).contains(name@),
    {
        self.inner.contains(name)
    }
}

/// A table from pairs of numbers to numbers: `hashbrown::HashMap<(usize, usize), usize>`.
#[verifier::external_body]
#[derive(Debug)]
pub struct PairMap {
    inner: hashbrown::HashMap<(usize, usize), usize>,
}

/// What a [`PairMap`] holds.
pub uninterp spec fn pair_map(m: PairMap) -> Map<(usize, usize), usize>;

/// A table no pair is in.
pub open spec fn no_pairs() -> Map<(usize, usize), usize> {
    Map::empty()
}

impl View for PairMap {
    type V = Map<(usize, usize), usize>;

    open spec fn view(&self) -> Map<(usize, usize), usize> {
        pair_map(*self)
    }
}

impl PairMap {
    /// `hashbrown::HashMap::new`: an empty table.
    #[verifier::external_body]
    pub(crate) fn new() -> (m: PairMap)
        ensures
            pair_map(m) == no_pairs(),
    {
        PairMap { inner: hashbrown::HashMap::new() }
    }

    /// `hashbrown::HashMap::insert`: the key maps to the value afterwards, in place of whatever it
    /// mapped to before, and every other key is untouched.
    #[verifier::external_body]
    pub(crate) fn insert(&mut self, key: (usize, usize), value: usize)
        ensures
            pair_map(*final(self)) == pair_map(*old(self)).insert(key, value),
    {
        self.inner.insert(key, value);
    }

    /// `hashbrown::HashMap::remove`: the key maps to nothing afterwards, and every other key is
    /// untouched.
    #[verifier::external_body]
    pub(crate) fn remove(&mut self, key: (usize, usize))
        ensures
            pair_map(*final(self)) == pair_map(*old(self)).remove(key),
    {
        self.inner.remove(&key);
    }

    /// `hashbrown::HashMap::get`: the value the key maps to, or `None` for a key that is not there.
    #[verifier::external_body]
    pub(crate) fn get(&self, key: (usize, usize)) -> (found: Option<usize>)
        ensures
            found == (if pair_map(*self).contains_key(key) {
                Some(pair_map(*self)[key])
            } else {
                None
            }),
    {
        self.inner.get(&key).copied()
    }
}

/// A set of pairs of numbers: `hashbrown::HashSet<(usize, usize)>`.
#[verifier::external_body]
#[derive(Debug)]
pub struct PairSet {
    inner: hashbrown::HashSet<(usize, usize)>,
}

/// What a [`PairSet`] holds.
pub uninterp spec fn pair_set(s: PairSet) -> Set<(usize, usize)>;

impl View for PairSet {
    type V = Set<(usize, usize)>;

    open spec fn view(&self) -> Set<(usize, usize)> {
        pair_set(*self)
    }
}

impl PairSet {
    /// `hashbrown::HashSet::new`: an empty set.
    #[verifier::external_body]
    pub(crate) fn new() -> (s: PairSet)
        ensures
            pair_set(s) == Set::<(usize, usize)>::empty(),
    {
        PairSet { inner: hashbrown::HashSet::new() }
    }

    /// `hashbrown::HashSet::insert`: the pair is in the set afterwards; the answer is whether it
    /// was not there before.
    #[verifier::external_body]
    pub(crate) fn insert(&mut self, pair: (usize, usize)) -> (fresh: bool)
        ensures
            pair_set(*final(self)) == pair_set(*old(self)).insert(pair),
            fresh == !pair_set(*old(self)).contains(pair),
    {
        self.inner.insert(pair)
    }

    /// `hashbrown::HashSet::contains`.
    #[verifier::external_body]
    pub(crate) fn contains(&self, pair: (usize, usize)) -> (found: bool)
        ensures
            found == pair_set(*self).contains(pair),
    {
        self.inner.contains(&pair)
    }
}

/// A set of numbers: `hashbrown::HashSet<usize>`.
#[verifier::external_body]
#[derive(Debug)]
pub struct IdSet {
    inner: hashbrown::HashSet<usize>,
}

/// What an [`IdSet`] holds.
pub uninterp spec fn id_set(s: IdSet) -> Set<usize>;

impl View for IdSet {
    type V = Set<usize>;

    open spec fn view(&self) -> Set<usize> {
        id_set(*self)
    }
}

impl IdSet {
    /// `hashbrown::HashSet::new`: an empty set.
    #[verifier::external_body]
    pub(crate) fn new() -> (s: IdSet)
        ensures
            id_set(s) == Set::<usize>::empty(),
    {
        IdSet { inner: hashbrown::HashSet::new() }
    }

    /// `hashbrown::HashSet::insert`: the number is in the set afterwards; the answer is whether it
    /// was not there before.
    #[verifier::external_body]
    pub(crate) fn insert(&mut self, id: usize) -> (fresh: bool)
        ensures
            id_set(*final(self)) == id_set(*old(self)).insert(id),
            fresh == !id_set(*old(self)).contains(id),
    {
        self.inner.insert(id)
    }

    /// `hashbrown::HashSet::contains`.
    #[verifier::external_body]
    pub(crate) fn contains(&self, id: usize) -> (found: bool)
        ensures
            found == id_set(*self).contains(id),
    {
        self.inner.contains(&id)
    }
}

/// The views of the items of `s`, in order.
pub open spec fn views<T: View>(s: Seq<T>) -> Seq<T::V> {
    s.map_values(|x: T| x@)
}

/// The views of `s` with `x` added are the views of `s` with the view of `x` added.
pub broadcast proof fn views_push<T: View>(s: Seq<T>, x: T)
    ensures
        #[trigger] views(s.push(x)) == views(s).push(x@),
{
    assert(views(s.push(x)) =~= views(s).push(x@));
}

/// The views of `s` with item `i` replaced are the views of `s` with view `i` replaced.
pub broadcast proof fn views_update<T: View>(s: Seq<T>, i: int, x: T)
    requires
        0 <= i < s.len(),
    ensures
        #[trigger] views(s.update(i, x)) == views(s).update(i, x@),
{
    assert(views(s.update(i, x)) =~= views(s).update(i, x@));
}

/// There are as many views as items.
pub broadcast proof fn views_len<T: View>(s: Seq<T>)
    ensures
        #[trigger] views(s).len() == s.len(),
{
}

/// View `i` is the view of item `i`.
pub broadcast proof fn views_index<T: View>(s: Seq<T>, i: int)
    requires
        0 <= i < s.len(),
    ensures
        #[trigger] views(s)[i] == s[i]@,
{
}

/// A table from names to values of any kind: the values are held in order of insertion, and a
/// [`NameMap`] says where.
#[derive(Debug)]
pub struct Table<T> {
    index: NameMap,
    values: Vec<T>,
}

impl<T: View> View for Table<T> {
    type V = Map<Seq<char>, T::V>;

    closed spec fn view(&self) -> Map<Seq<char>, T::V> {
        Map::new(
            |k: Seq<char>| self.index@.contains_key(k),
            |k: Seq<char>| self.values@[self.index@[k] as int]@,
        )
    }
}

impl<T: View> Table<T> {
    /// Whether every name leads to a value.
    pub closed spec fn wf(&self) -> bool {
        forall|k: Seq<char>| #[trigger]
            self.index@.contains_key(k) ==> self.index@[k] < self.values@.len()
    }

    /// A table without entries.
    pub fn new() -> (t: Table<T>)
        ensures
            t.wf(),
            t@ == Map::<Seq<char>, T::V>::empty(),
    {
        let t = Table { index: NameMap::new(), values: Vec::new() };
        assert(t@ =~= Map::<Seq<char>, T::V>::empty());
        t
    }

    /// Makes `key` lead to `value`, in place of whatever it led to before.
    pub fn insert(&mut self, key: String, value: T)
        requires
            old(self).wf(),
        ensures
            final(self).wf(),
            final(self)@ == old(self)@.insert(key@, value@),
    {
        let i: usize = self.values.len();
        self.values.push(value);
        self.index.insert(key, i);
        assert(self@ =~= old(self)@.insert(key@, value@));
    }

    /// What `key` leads to.
    pub fn get(&self, key: &str) -> (found: Option<&T>)
        requires
            self.wf(),
        ensures
            found is Some <==> self@.contains_key(key@),
            found matches Some(v) ==> v@ == self@[key@],
    {
        match self.index.get(key) {
            Some(i) => {
                assert(self.index@.contains_key(key@));
                Some(&self.values[i])
            },
            None => None,
        }
    }
}

pub broadcast group group_views {
    views_push,
    views_update,
    views_len,
    views_index,
}

} // verus!
