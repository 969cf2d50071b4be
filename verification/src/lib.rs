//! A folder sync tool's logic: sync modes and sources, saved sync records,
//! the git commands around a repository cache and an automatic commit, and
//! where a path lies inside a project.

pub mod text;
pub mod sync;
pub mod records;
pub mod git;
pub mod commit;
pub mod paths;
