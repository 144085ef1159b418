use vstd::prelude::*;

verus! {

/// Names the file a state snapshot is stored in. The handle itself only
/// carries the path; the reading and writing against it live with the
/// caller, behind the `IO` boundary.
#[derive(Debug)]
pub struct FileHandle {
    pub path: String,
}

impl FileHandle {
    pub fn from(path: String) -> (r: Self)
        ensures
            r.path == path,
    {
        Self { path }
    }

    /// The path this handle names.
    pub fn path(&self) -> (r: &str)
        ensures
            r@ == self.path@,
    {
        self.path.as_str()
    }
}

} // verus!
