//! The shapes read from the two lockfile-side documents: the root lockfile
//! document and the per-package installed descriptor.

use vstd::prelude::*;

verus! {

/// The installed descriptor of one package: the part of its own manifest
/// file that the check reads.
#[derive(Debug)]
pub struct PackageJSONRoot {
    pub version: String,
}

/// One node of the lockfile's declared dependency tree. `dependencies`
/// holds the packages nested inside this package's own install location;
/// it is absent for a leaf.
#[derive(Debug)]
pub struct PackageLockDependency {
    pub version: String,
    pub dependencies: Option<Vec<(String, PackageLockDependency)>>,
}

/// The root lockfile document: the top-level declared dependencies.
#[derive(Debug)]
pub struct PackageLockJSONRoot {
    pub dependencies: Vec<(String, PackageLockDependency)>,
}

/// How many nodes the declared tree rooted at `d` holds, `d` included.
pub open spec fn declared_count(d: PackageLockDependency) -> nat
    decreases d,
{
    match d.dependencies {
        Some(deps) => 1 + declared_count_seq(deps@),
        None => 1,
    }
}

/// How many nodes the declared forest `ds` holds.
pub open spec fn declared_count_seq(ds: Seq<(String, PackageLockDependency)>) -> nat
    decreases ds,
{
    if ds.len() == 0 {
        0
    } else {
        declared_count_seq(ds.drop_last()) + declared_count(ds[ds.len() - 1].1)
    }
}

} // verus!
