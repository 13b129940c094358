//! Places in the file system, named by the directory that they lie under.
use vstd::prelude::*;

verus! {

/// A directory that paths begin at.
#[derive(Clone, Copy, PartialEq, Eq, Debug, Structural)]
pub enum Root {
    /// The store.
    Store,
    /// The directory for temporary files of this program.
    Temp,
    /// The directory of the cargo registry that holds package sources.
    Registry,
    /// The file that was named for the diff cache.
    DiffCache,
}

/// What a place is.
#[verifier::ext_equal]
pub struct PlaceView {
    pub root: Root,
    pub path: Seq<Seq<char>>,
}

/// A place: a root, and what is joined to it, piece after piece.
#[derive(Debug)]
pub struct Place {
    pub root: Root,
    pub path: Vec<String>,
}

impl View for Place {
    type V = PlaceView;

    open spec fn view(&self) -> PlaceView {
        PlaceView { root: self.root, path: crate::text::texts(self.path@) }
    }
}

impl Place {
    /// The root itself.
    pub fn at(root: Root) -> (r: Place)
        ensures
            r@ == (PlaceView { root, path: seq![] }),
    {
        let path: Vec<String> = Vec::new();
        assert(crate::text::texts(path@) == Seq::<Seq<char>>::empty());
        Place { root, path }
    }

    /// The place below this one with the given name.
    pub fn join(self, name: String) -> (r: Place)
        ensures
            r@ == (PlaceView { root: self@.root, path: self@.path.push(name@) }),
    {
        let mut path = self.path;
        path.push(name);
        assert(crate::text::texts(path@) == self@.path.push(name@));
        Place { root: self.root, path }
    }
}

impl Clone for Place {
    fn clone(&self) -> (r: Place)
        ensures
            r@ == self@,
    {
        let mut path: Vec<String> = Vec::new();
        let mut i: usize = 0;
        while i < self.path.len()
            invariant
                i <= self.path@.len(),
                path@.len() == i,
                forall|j: int| 0 <= j < i ==> (#[trigger] path@[j])@ == self.path@[j]@,
            decreases self.path@.len() - i,
        {
            path.push(self.path[i].clone());
            i = i + 1;
        }
        assert(crate::text::texts(path@) == crate::text::texts(self.path@));
        Place { root: self.root, path }
    }
}

} // verus!
