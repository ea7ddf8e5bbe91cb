//! The paths of segment files below the storage root.

use crate::utils::text::join3;
use vstd::prelude::*;

verus! {

/// Where segments are kept: a root directory. Reading and writing the files is the caller's
/// part; the paths are computed here.
#[derive(Debug)]
pub struct Storage {
    root: String,
}

impl View for Storage {
    type V = Seq<char>;

    closed spec fn view(&self) -> Seq<char> {
        self.root@
    }
}

impl Storage {
    pub fn new(root: &str) -> (s: Storage)
        ensures
            s@ == root@,
    {
        Storage { root: root.to_owned() }
    }

    pub fn root(&self) -> (r: &str)
        ensures
            r@ == self@,
    {
        self.root.as_str()
    }

    /// The path of the file `name` under the root.
    pub fn path_of(&self, name: &str) -> (p: String)
        ensures
            p@ == self@ + "/"@ + name@,
    {
        join3(self.root.as_str(), "/", name)
    }
}

} // verus!
