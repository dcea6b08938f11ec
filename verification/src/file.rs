use vstd::prelude::*;

use crate::extension::Extension;

verus! {

/// A filesystem path paired with its parsed extension chain and an
/// optional in-memory payload.  Inference builds descriptors with the
/// payload absent; an I/O collaborator fills it during execution.
#[derive(Debug, PartialEq, Eq)]
pub struct File {
    pub path: String,
    pub contents_in_memory: Option<Vec<u8>>,
    pub extension: Option<Extension>,
}

impl File {
    /// Builds a descriptor for `path` whose payload has not been read yet.
    pub fn new(path: String, extension: Option<Extension>) -> (r: File)
        ensures
            r.path@ == path@,
            r.contents_in_memory is None,
            r.extension == extension,
    {
        File { path, contents_in_memory: None, extension }
    }
}

} // verus!
