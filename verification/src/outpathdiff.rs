//! A package attribute together with the platform it is built for.

use vstd::prelude::*;

verus! {

/// One package attribute on one platform.
#[derive(Debug, Clone, PartialEq, Eq)]
pub struct PackageArch {
    pub package: String,
    pub architecture: String,
}

/// The platform names of a list of package attributes, in order.
pub open spec fn architectures(attrs: Seq<PackageArch>) -> Seq<Seq<char>> {
    attrs.map_values(|a: PackageArch| a.architecture@)
}

} // verus!
