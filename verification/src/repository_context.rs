use vstd::prelude::*;
use crate::repository_data::RepositoryData;
use crate::repository_paths::RepositoryPaths;

verus! {

/// An opened repository: where it lives and what it holds.
pub struct RepositoryContext {
    pub paths: RepositoryPaths,
    pub data: RepositoryData,
}

} // verus!
