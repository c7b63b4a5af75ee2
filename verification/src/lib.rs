//! Checks an installed dependency tree against the versions pinned in a
//! lockfile. The lockfile declares a nested tree of package versions; for
//! each declared package the installed copy's own descriptor file must
//! report exactly the same version string. Every deviation (missing
//! install, unreadable or malformed descriptor, version mismatch) is
//! collected as a `Discrepancy`; none of them aborts the walk.

pub mod errors;
pub mod json;
pub mod manifest;
pub mod npm_types;
pub mod tree;
