//! Who maintains the packages that a change touches.

use vstd::prelude::*;

verus! {

/// A maintainer, by handle.
#[derive(Debug, Clone, PartialEq, Eq)]
pub struct Maintainer(pub String);

/// A package, by attribute name.
#[derive(Debug, Clone, PartialEq, Eq)]
pub struct Package(pub String);

/// Each touched package with the maintainers it lists.
pub struct MaintainersByPackage(pub Vec<(Package, Vec<Maintainer>)>);

impl Maintainer {
    /// The maintainer with the given handle.
    pub fn from_name(name: &str) -> (r: Maintainer)
        ensures
            r.0@ == name@,
    {
        Maintainer(String::from_str(name))
    }
}

/// Whether a list of maintainers holds the given handle.
pub open spec fn lists_maintainer(maintainers: Seq<Maintainer>, who: Seq<char>) -> bool {
    exists|j: int| 0 <= j < maintainers.len() && #[trigger] maintainers[j].0@ == who
}

/// Whether at least one package was touched and every touched package lists
/// the given handle among its maintainers.
pub open spec fn maintains_all(
    packages: Seq<(Package, Vec<Maintainer>)>,
    who: Seq<char>,
) -> bool {
    &&& packages.len() > 0
    &&& forall|i: int| 0 <= i < packages.len() ==> lists_maintainer(#[trigger] packages[i].1@, who)
}

/// Whether a list of maintainers holds the given one.
pub fn has_maintainer(maintainers: &Vec<Maintainer>, who: &Maintainer) -> (r: bool)
    ensures
        r == lists_maintainer(maintainers@, who.0@),
{
    let mut i: usize = 0;
    while i < maintainers.len()
        invariant
            i <= maintainers.len(),
            forall|j: int| 0 <= j < i ==> maintainers@[j].0@ != who.0@,
        decreases maintainers.len() - i,
    {
        if maintainers[i].0 == who.0 {
            assert(maintainers@[i as int].0@ == who.0@);
            return true;
        }
        i = i + 1;
    }
    false
}

/// When the maintainer label is earned, the change touches at least one
/// package, and each package it touches, wherever it stands, names the
/// submitter among the handles of its maintainers.
pub proof fn lemma_maintains_all_each(
    packages: Seq<(Package, Vec<Maintainer>)>,
    who: Seq<char>,
    i: int,
)
    requires
        maintains_all(packages, who),
        0 <= i < packages.len(),
    ensures
        packages.len() > 0,
        packages[i].1@.map_values(|m: Maintainer| m.0@).contains(who),
{
    let handles = packages[i].1@.map_values(|m: Maintainer| m.0@);
    assert(lists_maintainer(packages[i].1@, who));
    let j = choose|j: int| 0 <= j < packages[i].1@.len() && #[trigger] packages[i].1@[j].0@ == who;
    assert(handles[j] == who);
}

/// When the change touches at least one package and every package it
/// touches names the submitter among the handles of its maintainers, the
/// maintainer label is earned.
pub proof fn lemma_maintains_all_from_each(
    packages: Seq<(Package, Vec<Maintainer>)>,
    who: Seq<char>,
)
    requires
        packages.len() > 0,
        forall|i: int|
            0 <= i < packages.len() ==> (#[trigger] packages[i]).1@.map_values(
                |m: Maintainer| m.0@,
            ).contains(who),
    ensures
        maintains_all(packages, who),
{
    assert forall|i: int| 0 <= i < packages.len() implies lists_maintainer(
        #[trigger] packages[i].1@,
        who,
    ) by {
        let handles = packages[i].1@.map_values(|m: Maintainer| m.0@);
        assert(handles.contains(who));
        let j = choose|j: int| 0 <= j < handles.len() && handles[j] == who;
        assert(packages[i].1@[j].0@ == who);
    }
}

/// One touched package, wherever it stands, whose maintainers do not
/// include the submitter withholds the maintainer label; in particular one
/// that has no maintainer at all.
pub proof fn lemma_one_package_withholds(
    packages: Seq<(Package, Vec<Maintainer>)>,
    who: Seq<char>,
    i: int,
)
    requires
        0 <= i < packages.len(),
        packages[i].1@.len() == 0 || !packages[i].1@.map_values(|m: Maintainer| m.0@).contains(
            who,
        ),
    ensures
        !maintains_all(packages, who),
{
    if maintains_all(packages, who) {
        lemma_maintains_all_each(packages, who, i);
        let handles = packages[i].1@.map_values(|m: Maintainer| m.0@);
        assert(handles.len() == 0 ==> !handles.contains(who));
    }
}

} // verus!
