use vstd::prelude::*;

verus! {

/// The filesystem locations a repository lives at, as plain path strings: the
/// tracked file itself, the repository directory beside it, and the state
/// document inside that directory.
pub struct RepositoryPaths {
    pub versioned_file: String,
    pub repository_dir: String,
    pub data_file: String,
}

impl RepositoryPaths {
    /// The path of a file stored inside the repository directory.
    pub fn file_path(&self, file_name: &str) -> (r: String)
        ensures
            r@ == self.repository_dir@ + "/"@ + file_name@,
    {
        let mut r = self.repository_dir.clone();
        r.append("/");
        r.append(file_name);
        r
    }
}

} // verus!
