//! What is known of the objects that a function of a C++ unit handles.

use vstd::prelude::*;
use crate::collections::{views, Table};
use crate::mir::{PathView, RawPath};

verus! {

broadcast use crate::collections::group_views;

/// An object on the stack, and its class.
#[derive(Debug)]
pub struct StackObject {
    pub name: String,
    pub class: String,
}

impl View for StackObject {
    type V = (Seq<char>, Seq<char>);

    open spec fn view(&self) -> (Seq<char>, Seq<char>) {
        (self.name@, self.class@)
    }
}

/// The objects that were made in a scope, in order.
#[derive(Debug)]
pub struct Frame {
    pub objects: Vec<StackObject>,
}

/// View of a [`Frame`].
pub type FrameView = Seq<(Seq<char>, Seq<char>)>;

impl View for Frame {
    type V = FrameView;

    open spec fn view(&self) -> FrameView {
        views(self.objects@)
    }
}

/// What is known of the objects that a function handles.
#[derive(Debug)]
pub struct Objects {
    /// The class whose member function is lowered, and whether that function has a receiver.
    class: Option<(String, bool)>,
    /// The class of what a variable is or points at.
    types: Table<String>,
    /// What a reference, or a pointer to a new object, stands for.
    refs: Table<RawPath>,
    /// The objects of the scopes that lowering is in, innermost last.
    frames: Vec<Frame>,
}

/// View of [`Objects`].
pub ghost struct ObjectsView {
    pub class: Option<(Seq<char>, bool)>,
    pub types: Map<Seq<char>, Seq<char>>,
    pub refs: Map<Seq<char>, PathView>,
    pub frames: Seq<FrameView>,
}

impl View for Objects {
    type V = ObjectsView;

    closed spec fn view(&self) -> ObjectsView {
        ObjectsView {
            class: match self.class {
                Some(c) => Some((c.0@, c.1)),
                None => None,
            },
            types: self.types@,
            refs: self.refs@,
            frames: views(self.frames@),
        }
    }
}

impl ObjectsView {
    /// Nothing is known yet in a function of the class `class`.
    pub open spec fn in_class(class: Option<(Seq<char>, bool)>) -> ObjectsView {
        ObjectsView { class, types: Map::empty(), refs: Map::empty(), frames: Seq::empty() }
    }

    /// The variable `name` is, or points at, a `class`.
    pub open spec fn typed(self, name: Seq<char>, class: Seq<char>) -> ObjectsView {
        ObjectsView { types: self.types.insert(name, class), ..self }
    }

    /// The name `name` stands for `path`.
    pub open spec fn bound(self, name: Seq<char>, path: PathView) -> ObjectsView {
        ObjectsView { refs: self.refs.insert(name, path), ..self }
    }

    /// A scope is entered.
    pub open spec fn framed(self) -> ObjectsView {
        ObjectsView { frames: self.frames.push(Seq::empty()), ..self }
    }

    /// A scope is left.
    pub open spec fn unframed(self) -> ObjectsView {
        if self.frames.len() > 0 {
            ObjectsView { frames: self.frames.drop_last(), ..self }
        } else {
            self
        }
    }

    /// An object is made in the current scope.
    pub open spec fn recorded(self, name: Seq<char>, class: Seq<char>) -> ObjectsView {
        if self.frames.len() > 0 {
            ObjectsView {
                frames: self.frames.update(
                    self.frames.len() - 1,
                    self.frames.last().push((name, class)),
                ),
                ..self
            }
        } else {
            self
        }
    }

    /// The objects that were made in the current scope.
    pub open spec fn here(self) -> FrameView {
        if self.frames.len() > 0 {
            self.frames.last()
        } else {
            Seq::empty()
        }
    }
}

impl Objects {
    /// Whether the tables are sound.
    pub closed spec fn wf(&self) -> bool {
        self.types.wf() && self.refs.wf()
    }

    /// Nothing is known yet in a function of the class `class`.
    pub fn in_class(class: Option<(String, bool)>) -> (o: Objects)
        ensures
            o.wf(),
            o@ == ObjectsView::in_class(
                match class {
                    Some(c) => Some((c.0@, c.1)),
                    None => None,
                },
            ),
    {
        let o = Objects { class, types: Table::new(), refs: Table::new(), frames: Vec::new() };
        assert(o@.frames =~= Seq::<FrameView>::empty());
        o
    }

    /// The class whose member function is lowered, and whether that function has a receiver.
    pub fn class(&self) -> (c: Option<(&str, bool)>)
        ensures
            match c {
                Some(c) => self@.class == Some((c.0@, c.1)),
                None => self@.class is None,
            },
    {
        match &self.class {
            Some(c) => Some((c.0.as_str(), c.1)),
            None => None,
        }
    }

    /// The class of what a variable is or points at.
    pub fn type_of(&self, name: &str) -> (c: Option<&String>)
        requires
            self.wf(),
        ensures
            match c {
                Some(c) => self@.types.contains_key(name@) && self@.types[name@] == c@,
                None => !self@.types.contains_key(name@),
            },
    {
        self.types.get(name)
    }

    /// What a reference stands for.
    pub fn referent(&self, name: &str) -> (p: Option<RawPath>)
        requires
            self.wf(),
        ensures
            match p {
                Some(p) => self@.refs.contains_key(name@) && self@.refs[name@] == p@,
                None => !self@.refs.contains_key(name@),
            },
    {
        match self.refs.get(name) {
            Some(p) => Some(p.copied()),
            None => None,
        }
    }

    /// Records that the variable `name` is, or points at, a `class`.
    pub fn set_type(&mut self, name: &str, class: &str)
        requires
            old(self).wf(),
        ensures
            final(self).wf(),
            final(self)@ == old(self)@.typed(name@, class@),
    {
        self.types.insert(String::from_str(name), String::from_str(class));
    }

    /// Records that the name `name` stands for `path`.
    pub fn bind(&mut self, name: &str, path: RawPath)
        requires
            old(self).wf(),
        ensures
            final(self).wf(),
            final(self)@ == old(self)@.bound(name@, path@),
    {
        self.refs.insert(String::from_str(name), path);
    }

    /// Enters a scope.
    pub fn push_frame(&mut self)
        requires
            old(self).wf(),
        ensures
            final(self).wf(),
            final(self)@ == old(self)@.framed(),
    {
        let frame = Frame { objects: Vec::new() };
        assert(frame@ =~= Seq::<(Seq<char>, Seq<char>)>::empty());
        self.frames.push(frame);
    }

    /// Leaves a scope.
    pub fn pop_frame(&mut self)
        requires
            old(self).wf(),
        ensures
            final(self).wf(),
            final(self)@ == old(self)@.unframed(),
    {
        let ghost before = views(self.frames@);
        if self.frames.len() > 0 {
            let _frame = self.frames.pop();
            assert(views(self.frames@) =~= before.drop_last());
        }
    }

    /// Records that an object is made in the current scope.
    pub fn record(&mut self, name: &str, class: &str)
        requires
            old(self).wf(),
        ensures
            final(self).wf(),
            final(self)@ == old(self)@.recorded(name@, class@),
    {
        let ghost before = views(self.frames@);
        if self.frames.len() > 0 {
            let last: usize = self.frames.len() - 1;
            assert(before[last as int] == self.frames@[last as int]@);
            self.frames[last].objects.push(
                StackObject { name: String::from_str(name), class: String::from_str(class) },
            );
            assert(views(self.frames@) =~= before.update(
                last as int,
                before.last().push((name@, class@)),
            )) by {
                assert(views(self.frames@)[last as int] == self.frames@[last as int]@);
            }
        }
    }

    /// The objects that were made in the current scope.
    pub fn here(&self) -> (v: Vec<StackObject>)
        ensures
            views(v@) == self@.here(),
    {
        let mut v: Vec<StackObject> = Vec::new();
        assert(views(v@) =~= Seq::<(Seq<char>, Seq<char>)>::empty());
        if self.frames.len() == 0 {
            return v;
        }
        let last: usize = self.frames.len() - 1;
        let frame = &self.frames[last];
        assert(self@.frames[last as int] == frame@);
        let mut i: usize = 0;
        while i < frame.objects.len()
            invariant
                i <= frame.objects@.len(),
                views(v@) == frame@.take(i as int),
            decreases frame.objects@.len() - i,
        {
            let o = &frame.objects[i];
            assert(frame@[i as int] == o@);
            v.push(StackObject { name: o.name.clone(), class: o.class.clone() });
            i = i + 1;
            assert(views(v@) =~= frame@.take(i as int));
        }
        assert(views(v@) =~= frame@);
        v
    }
}

} // verus!
