//! The website handler's state: the root directory that file lookups
//! are served from. Reading files and assembling responses is I/O and
//! stays with the surrounding layers.

use vstd::prelude::*;

verus! {

/// Serves files from under one public root directory.
pub struct WebsiteHandler {
    public_path: String,
}

impl WebsiteHandler {
    /// The root directory this handler serves from.
    pub closed spec fn root(&self) -> Seq<char> {
        self.public_path@
    }

    /// Remember the root directory to serve files from.
    pub fn new(public_path: String) -> (r: WebsiteHandler)
        ensures
            r.root() == public_path@,
    {
        WebsiteHandler { public_path }
    }

    /// The root directory, for the layer that does the file I/O.
    pub fn public_path(&self) -> (r: &str)
        ensures
            r@ == self.root(),
    {
        self.public_path.as_str()
    }
}

} // verus!
