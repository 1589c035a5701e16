//! The taggers: each knows the labels it may set ("possible") and collects
//! the ones a change earns ("selected"). What it adds is the selection; what
//! it takes away is every possible label it did not select, where it takes
//! any away at all.

use crate::labels::{
    labels_sorted, lemma_text_before_at, lemma_without_exact, copy_labels, holds_label, label_position, label_views, labels_without, lemma_without_contains,
    lemma_without_partition, lemma_without_remove,
};
use crate::maintainers::{
    has_maintainer, lists_maintainer, maintains_all, Maintainer, MaintainersByPackage,
};
use crate::outpathdiff::{architectures, PackageArch};
use crate::tasks::eval::stdenvs::{system_name, System};
use vstd::prelude::*;

verus! {

/// The stdenv label of a platform.
pub open spec fn stdenv_label(system: System) -> Seq<char> {
    match system {
        System::X8664Darwin => "10.rebuild-x86_64-darwin-stdenv"@,
        System::AArch64Darwin => "10.rebuild-aarch64-darwin-stdenv"@,
        System::X8664Linux => "10.rebuild-x86_64-linux-stdenv"@,
        System::AArch64Linux => "10.rebuild-aarch64-linux-stdenv"@,
    }
}

/// The stdenv labels, in sorted order.
pub open spec fn stdenv_possible() -> Seq<Seq<char>> {
    seq![
        stdenv_label(System::AArch64Darwin),
        stdenv_label(System::AArch64Linux),
        stdenv_label(System::X8664Darwin),
        stdenv_label(System::X8664Linux),
    ]
}

/// The stdenv labels of a list of platforms, in order.
pub open spec fn stdenv_labels(systems: Seq<System>) -> Seq<Seq<char>> {
    systems.map_values(|s: System| stdenv_label(s))
}

/// No two stdenv labels are the same.
pub proof fn lemma_stdenv_possible_distinct()
    ensures
        stdenv_possible().no_duplicates(),
{
    reveal_strlit("10.rebuild-x86_64-darwin-stdenv");
    reveal_strlit("10.rebuild-aarch64-darwin-stdenv");
    reveal_strlit("10.rebuild-x86_64-linux-stdenv");
    reveal_strlit("10.rebuild-aarch64-linux-stdenv");
    let p = stdenv_possible();
    assert(p[0][11] != p[2][11]);
    assert(p[0][11] != p[3][11]);
    assert(p[1][11] != p[2][11]);
    assert(p[1][11] != p[3][11]);
    assert(p[0][19] != p[1][19]);
    assert(p[2][18] != p[3][18]);
}

/// The stdenv label of every platform is one the stdenv tagger knows.
proof fn lemma_stdenv_label_known(system: System)
    ensures
        stdenv_possible().contains(stdenv_label(system)),
{
    let p = stdenv_possible();
    match system {
        System::AArch64Darwin => assert(p[0] == stdenv_label(system)),
        System::AArch64Linux => assert(p[1] == stdenv_label(system)),
        System::X8664Darwin => assert(p[2] == stdenv_label(system)),
        System::X8664Linux => assert(p[3] == stdenv_label(system)),
    }
}

/// Whether every label of `a` is one of `b`.
pub open spec fn labels_within(a: Seq<Seq<char>>, b: Seq<Seq<char>>) -> bool {
    forall|l: Seq<char>| #[trigger] a.contains(l) ==> b.contains(l)
}

proof fn lemma_concat_contains(a: Seq<Seq<char>>, b: Seq<Seq<char>>, l: Seq<char>)
    ensures
        (a + b).contains(l) <==> (a.contains(l) || b.contains(l)),
{
    if (a + b).contains(l) {
        let k = choose|k: int| 0 <= k < (a + b).len() && (a + b)[k] == l;
        if k < a.len() {
            assert(a[k] == l);
        } else {
            assert(b[k - a.len()] == l);
        }
    }
    if a.contains(l) {
        let k = choose|k: int| 0 <= k < a.len() && a[k] == l;
        assert((a + b)[k] == l);
    }
    if b.contains(l) {
        let k = choose|k: int| 0 <= k < b.len() && b[k] == l;
        assert((a + b)[k + a.len()] == l);
    }
}

/// Labels that the stdenv tagger hands out.
pub struct StdenvTagger {
    possible: Vec<String>,
    selected: Vec<String>,
}

impl StdenvTagger {
    /// The labels the tagger may set.
    pub closed spec fn possible_labels(&self) -> Seq<Seq<char>> {
        label_views(self.possible@)
    }

    /// The labels selected so far, in the order they were selected.
    pub closed spec fn selected_labels(&self) -> Seq<Seq<char>> {
        label_views(self.selected@)
    }

    /// The tagger knows the stdenv labels, and selects only labels it knows.
    #[verifier::type_invariant]
    pub open spec fn wf(&self) -> bool {
        &&& self.possible_labels() == stdenv_possible()
        &&& labels_within(self.selected_labels(), self.possible_labels())
    }

    /// A tagger that knows the stdenv labels and has selected none.
    pub fn new() -> (r: StdenvTagger)
        ensures
            r.possible_labels() == stdenv_possible(),
            r.selected_labels() == Seq::<Seq<char>>::empty(),
    {
        StdenvTagger::default()
    }

    /// Selects the stdenv label of each platform whose stdenv was rebuilt,
    /// in the order given.
    pub fn changed(&mut self, systems: Vec<System>)
        ensures
            final(self).possible_labels() == old(self).possible_labels(),
            final(self).selected_labels() == old(self).selected_labels() + stdenv_labels(
                systems@,
            ),
    {
        proof {
            use_type_invariant(&*self);
        }
        let mut selected: Vec<String> = Vec::new();
        std::mem::swap(&mut selected, &mut self.selected);
        let ghost start = label_views(selected@);
        let mut i: usize = 0;
        while i < systems.len()
            invariant
                i <= systems.len(),
                labels_within(label_views(selected@), stdenv_possible()),
                label_views(selected@) == start + stdenv_labels(systems@.take(i as int)),
            decreases systems.len() - i,
        {
            let label = match systems[i] {
                System::X8664Darwin => String::from_str("10.rebuild-x86_64-darwin-stdenv"),
                System::AArch64Darwin => String::from_str("10.rebuild-aarch64-darwin-stdenv"),
                System::X8664Linux => String::from_str("10.rebuild-x86_64-linux-stdenv"),
                System::AArch64Linux => String::from_str("10.rebuild-aarch64-linux-stdenv"),
            };
            assert(label@ == stdenv_label(systems@[i as int]));
            let ghost before = label_views(selected@);
            selected.push(label);
            proof {
                assert(label_views(selected@) =~= before.push(label@));
                assert(stdenv_labels(systems@.take(i + 1)) =~= stdenv_labels(
                    systems@.take(i as int),
                ).push(label@));
                assert(start + stdenv_labels(systems@.take(i + 1)) =~= (start + stdenv_labels(
                    systems@.take(i as int),
                )).push(label@));
                lemma_stdenv_label_known(systems@[i as int]);
                assert forall|l: Seq<char>| #[trigger]
                    label_views(selected@).contains(l) implies stdenv_possible().contains(l) by {
                    lemma_concat_contains(before, seq![label@], l);
                    assert(before.push(label@) == before + seq![label@]);
                    if seq![label@].contains(l) {
                        let k = choose|k: int| 0 <= k < 1 && seq![label@][k] == l;
                        assert(l == label@);
                    }
                }
            }
            i = i + 1;
        }
        assert(systems@.take(systems.len() as int) =~= systems@);
        self.selected = selected;
    }

    /// The labels to add: the selection.
    pub fn tags_to_add(&self) -> (r: Vec<String>)
        ensures
            label_views(r@) == self.selected_labels(),
    {
        copy_labels(&self.selected)
    }

    /// The labels to take away: the known labels, in sorted order, that were
    /// not selected. A label selected twice cannot be taken out twice, so the
    /// selection must hold no label twice.
    pub fn tags_to_remove(&self) -> (r: Vec<String>)
        requires
            self.selected_labels().no_duplicates(),
        ensures
            label_views(r@) == labels_without(self.possible_labels(), self.selected_labels()),
    {
        proof {
            use_type_invariant(self);
            lemma_stdenv_possible_distinct();
        }
        let ghost pv = self.possible_labels();
        let ghost sv = self.selected_labels();
        let mut remove = copy_labels(&self.possible);
        assert(sv.take(0) =~= Seq::<Seq<char>>::empty());
        assert(labels_without(pv, sv.take(0)) =~= pv) by {
            lemma_without_nothing(pv);
        }
        let mut i: usize = 0;
        while i < self.selected.len()
            invariant
                i <= self.selected.len(),
                labels_within(sv, pv),
                sv == self.selected_labels(),
                pv == self.possible_labels(),
                sv.no_duplicates(),
                pv.no_duplicates(),
                label_views(remove@) == labels_without(pv, sv.take(i as int)),
            decreases self.selected.len() - i,
        {
            let tag = &self.selected[i];
            proof {
                assert(sv[i as int] == tag@);
                assert(sv.contains(tag@));
                assert(!sv.take(i as int).contains(tag@)) by {
                    if sv.take(i as int).contains(tag@) {
                        let j = choose|j: int| 0 <= j < i && sv.take(i as int)[j] == tag@;
                        assert(sv[j] == sv[i as int]);
                    }
                }
                lemma_without_contains(pv, sv.take(i as int), tag@);
            }
            match label_position(&remove, tag) {
                Some(pos) => {
                    let ghost before = remove@;
                    remove.remove(pos);
                    proof {
                        assert(label_views(before)[pos as int] == tag@);
                        lemma_without_remove(pv, sv.take(i as int), tag@, pos as int);
                        assert(sv.take(i + 1) =~= sv.take(i as int).push(tag@));
                        assert(label_views(remove@) =~= label_views(before).remove(pos as int));
                    }
                },
                None => {
                    proof {
                        assert(false);
                    }
                },
            }
            i = i + 1;
        }
        assert(sv.take(self.selected.len() as int) =~= sv);
        remove
    }
}

impl Default for StdenvTagger {
    /// A tagger that knows the stdenv labels, in sorted order, and has
    /// selected none.
    fn default() -> (r: StdenvTagger)
        ensures
            r.possible_labels() == stdenv_possible(),
            r.selected_labels() == Seq::<Seq<char>>::empty(),
    {
        let possible: Vec<String> = vec![
            String::from_str("10.rebuild-aarch64-darwin-stdenv"),
            String::from_str("10.rebuild-aarch64-linux-stdenv"),
            String::from_str("10.rebuild-x86_64-darwin-stdenv"),
            String::from_str("10.rebuild-x86_64-linux-stdenv"),
        ];
        let selected: Vec<String> = Vec::new();
        proof {
            assert(label_views(possible@) =~= stdenv_possible());
            assert(label_views(selected@) =~= Seq::<Seq<char>>::empty());
        }
        let r = StdenvTagger { possible, selected };
        assert(r.selected_labels() =~= Seq::<Seq<char>>::empty());
        r
    }
}

/// Taking out nothing leaves the list as it is.
proof fn lemma_without_nothing(all: Seq<Seq<char>>)
    ensures
        labels_without(all, Seq::empty()) == all,
    decreases all.len(),
{
    if all.len() > 0 {
        lemma_without_nothing(all.drop_last());
        assert(all.drop_last().push(all.last()) =~= all);
    }
}


/// The rebuild-count buckets, in the order the rebuild tagger knows them.
pub open spec fn rebuild_buckets() -> Seq<Seq<char>> {
    seq![
        "0"@,
        "1"@,
        "1-10"@,
        "11-100"@,
        "101-500"@,
        "501+"@,
        "501-1000"@,
        "1001-2500"@,
        "2501-5000"@,
        "5001+"@,
    ]
}

/// The buckets that a number of rebuilds on one platform falls in.
pub open spec fn bucket_spec(count: int) -> Seq<Seq<char>> {
    if count > 5000 {
        seq!["501+"@, "5001+"@]
    } else if count > 2500 {
        seq!["501+"@, "2501-5000"@]
    } else if count > 1000 {
        seq!["501+"@, "1001-2500"@]
    } else if count > 500 {
        seq!["501+"@, "501-1000"@]
    } else if count > 100 {
        seq!["101-500"@]
    } else if count > 10 {
        seq!["11-100"@]
    } else if count > 1 {
        seq!["1-10"@]
    } else if count > 0 {
        seq!["1"@, "1-10"@]
    } else {
        seq!["0"@]
    }
}

/// The rebuild label of a platform and a bucket.
pub open spec fn rebuild_label(arch: Seq<char>, bucket: Seq<char>) -> Seq<char> {
    "10.rebuild-"@ + arch + ": "@ + bucket
}

/// The rebuild labels of one platform for a list of buckets, in order.
pub open spec fn arch_labels(arch: Seq<char>, buckets: Seq<Seq<char>>) -> Seq<Seq<char>> {
    buckets.map_values(|b: Seq<char>| rebuild_label(arch, b))
}

/// The labels that the rebuild tagger knows: every bucket of x86_64-darwin,
/// aarch64-darwin, x86_64-linux and aarch64-linux, in that order.
pub open spec fn rebuild_possible() -> Seq<Seq<char>> {
    arch_labels(system_name(System::X8664Darwin), rebuild_buckets()) + arch_labels(
        system_name(System::AArch64Darwin),
        rebuild_buckets(),
    ) + arch_labels(system_name(System::X8664Linux), rebuild_buckets()) + arch_labels(
        system_name(System::AArch64Linux),
        rebuild_buckets(),
    )
}

/// How many entries of a list of platform names are the given one.
pub open spec fn arch_count(archs: Seq<Seq<char>>, arch: Seq<char>) -> nat
    decreases archs.len(),
{
    if archs.len() == 0 {
        0
    } else {
        arch_count(archs.drop_last(), arch) + if archs.last() == arch {
            1nat
        } else {
            0nat
        }
    }
}

/// The labels of one platform for the number of its rebuilds in `archs`.
pub open spec fn arch_selection(archs: Seq<Seq<char>>, system: System) -> Seq<Seq<char>> {
    arch_labels(system_name(system), bucket_spec(arch_count(archs, system_name(system)) as int))
}

/// The labels that a list of rebuilt platform names earns: those of
/// x86_64-darwin, aarch64-darwin, x86_64-linux and aarch64-linux, in that
/// order. Other platform names count for nothing.
pub open spec fn rebuild_selection(archs: Seq<Seq<char>>) -> Seq<Seq<char>> {
    arch_selection(archs, System::X8664Darwin) + arch_selection(archs, System::AArch64Darwin)
        + arch_selection(archs, System::X8664Linux) + arch_selection(archs, System::AArch64Linux)
}

/// The text of each string of a list.
pub open spec fn str_views(v: Seq<&str>) -> Seq<Seq<char>> {
    v.map_values(|s: &str| s@)
}

/// The platform names differ from one another.
pub proof fn lemma_system_names_distinct()
    ensures
        forall|s: System, t: System| system_name(s) == system_name(t) ==> s == t,
{
    reveal_strlit("x86_64-darwin");
    reveal_strlit("aarch64-darwin");
    reveal_strlit("x86_64-linux");
    reveal_strlit("aarch64-linux");
    assert("x86_64-darwin"@[0] != "aarch64-darwin"@[0]);
    assert("x86_64-darwin"@[0] != "aarch64-linux"@[0]);
    assert("x86_64-darwin"@[7] != "x86_64-linux"@[7]);
    assert("aarch64-darwin"@[0] != "x86_64-linux"@[0]);
    assert("aarch64-darwin"@[8] != "aarch64-linux"@[8]);
    assert("x86_64-linux"@[0] != "aarch64-linux"@[0]);
}

/// Every bucket that a count falls in is one the rebuild tagger knows.
proof fn lemma_bucket_known(count: int)
    ensures
        labels_within(bucket_spec(count), rebuild_buckets()),
{
    let b = rebuild_buckets();
    assert forall|l: Seq<char>| #[trigger] bucket_spec(count).contains(l) implies b.contains(l) by {
        let k = choose|k: int| 0 <= k < bucket_spec(count).len() && bucket_spec(count)[k] == l;
        if l == "0"@ {
            assert(b[0] == l);
        } else if l == "1"@ {
            assert(b[1] == l);
        } else if l == "1-10"@ {
            assert(b[2] == l);
        } else if l == "11-100"@ {
            assert(b[3] == l);
        } else if l == "101-500"@ {
            assert(b[4] == l);
        } else if l == "501+"@ {
            assert(b[5] == l);
        } else if l == "501-1000"@ {
            assert(b[6] == l);
        } else if l == "1001-2500"@ {
            assert(b[7] == l);
        } else if l == "2501-5000"@ {
            assert(b[8] == l);
        } else {
            assert(b[9] == l);
        }
    }
}

/// Labels made from known buckets are known labels of the same platform.
proof fn lemma_arch_labels_within(arch: Seq<char>, b1: Seq<Seq<char>>, b2: Seq<Seq<char>>)
    requires
        labels_within(b1, b2),
    ensures
        labels_within(arch_labels(arch, b1), arch_labels(arch, b2)),
{
    assert forall|l: Seq<char>| #[trigger] arch_labels(arch, b1).contains(l) implies arch_labels(
        arch,
        b2,
    ).contains(l) by {
        let j = choose|j: int| 0 <= j < arch_labels(arch, b1).len() && arch_labels(arch, b1)[j] == l;
        assert(b1.contains(b1[j]));
        let k = choose|k: int| 0 <= k < b2.len() && b2[k] == b1[j];
        assert(arch_labels(arch, b2)[k] == l);
    }
}

/// Every label a list of platform names earns is one the rebuild tagger knows.
pub proof fn lemma_rebuild_selection_known(archs: Seq<Seq<char>>)
    ensures
        labels_within(rebuild_selection(archs), rebuild_possible()),
{
    let b = rebuild_buckets();
    let s0 = arch_selection(archs, System::X8664Darwin);
    let s1 = arch_selection(archs, System::AArch64Darwin);
    let s2 = arch_selection(archs, System::X8664Linux);
    let s3 = arch_selection(archs, System::AArch64Linux);
    let p0 = arch_labels(system_name(System::X8664Darwin), b);
    let p1 = arch_labels(system_name(System::AArch64Darwin), b);
    let p2 = arch_labels(system_name(System::X8664Linux), b);
    let p3 = arch_labels(system_name(System::AArch64Linux), b);
    lemma_bucket_known(arch_count(archs, system_name(System::X8664Darwin)) as int);
    lemma_bucket_known(arch_count(archs, system_name(System::AArch64Darwin)) as int);
    lemma_bucket_known(arch_count(archs, system_name(System::X8664Linux)) as int);
    lemma_bucket_known(arch_count(archs, system_name(System::AArch64Linux)) as int);
    lemma_arch_labels_within(
        system_name(System::X8664Darwin),
        bucket_spec(arch_count(archs, system_name(System::X8664Darwin)) as int),
        b,
    );
    lemma_arch_labels_within(
        system_name(System::AArch64Darwin),
        bucket_spec(arch_count(archs, system_name(System::AArch64Darwin)) as int),
        b,
    );
    lemma_arch_labels_within(
        system_name(System::X8664Linux),
        bucket_spec(arch_count(archs, system_name(System::X8664Linux)) as int),
        b,
    );
    lemma_arch_labels_within(
        system_name(System::AArch64Linux),
        bucket_spec(arch_count(archs, system_name(System::AArch64Linux)) as int),
        b,
    );
    assert forall|l: Seq<char>| #[trigger] rebuild_selection(archs).contains(l) implies rebuild_possible().contains(l) by {
        lemma_concat_contains(s0 + s1 + s2, s3, l);
        lemma_concat_contains(s0 + s1, s2, l);
        lemma_concat_contains(s0, s1, l);
        lemma_concat_contains(p0 + p1 + p2, p3, l);
        lemma_concat_contains(p0 + p1, p2, l);
        lemma_concat_contains(p0, p1, l);
    }
}

/// Appends the rebuild label of `arch` for each bucket, in order.
fn push_arch_labels(out: &mut Vec<String>, arch: &str, buckets: &Vec<&'static str>)
    ensures
        label_views(final(out)@) == label_views(old(out)@) + arch_labels(arch@, str_views(buckets@)),
{
    let ghost start = label_views(out@);
    let mut i: usize = 0;
    while i < buckets.len()
        invariant
            i <= buckets.len(),
            label_views(out@) == start + arch_labels(arch@, str_views(buckets@.take(i as int))),
        decreases buckets.len() - i,
    {
        let mut label = String::from_str("10.rebuild-");
        label.append(arch);
        label.append(": ");
        label.append(buckets[i]);
        let ghost before = out@;
        out.push(label);
        proof {
            assert(label@ == rebuild_label(arch@, buckets@[i as int]@));
            assert(label_views(out@) =~= label_views(before).push(label@));
            assert(arch_labels(arch@, str_views(buckets@.take(i + 1))) =~= arch_labels(
                arch@,
                str_views(buckets@.take(i as int)),
            ).push(label@));
            assert(start + arch_labels(arch@, str_views(buckets@.take(i + 1))) =~= (start
                + arch_labels(arch@, str_views(buckets@.take(i as int)))).push(label@));
        }
        i = i + 1;
    }
    assert(buckets@.take(buckets.len() as int) =~= buckets@);
}

/// The rebuild-count buckets, in the order the rebuild tagger knows them.
fn bucket_names() -> (r: Vec<&'static str>)
    ensures
        str_views(r@) == rebuild_buckets(),
{
    let r: Vec<&'static str> = vec![
        "0",
        "1",
        "1-10",
        "11-100",
        "101-500",
        "501+",
        "501-1000",
        "1001-2500",
        "2501-5000",
        "5001+",
    ];
    assert(str_views(r@) =~= rebuild_buckets());
    r
}

/// Labels for the number of rebuilds on each platform.
pub struct RebuildTagger {
    possible: Vec<String>,
    selected: Vec<String>,
}

impl Default for RebuildTagger {
    /// A tagger that knows every rebuild label and has selected none.
    fn default() -> (r: RebuildTagger)
        ensures
            r.possible_labels() == rebuild_possible(),
            r.selected_labels() == Seq::<Seq<char>>::empty(),
    {
        let names = bucket_names();
        let mut possible: Vec<String> = Vec::new();
        push_arch_labels(&mut possible, System::X8664Darwin.nix_system(), &names);
        push_arch_labels(&mut possible, System::AArch64Darwin.nix_system(), &names);
        push_arch_labels(&mut possible, System::X8664Linux.nix_system(), &names);
        push_arch_labels(&mut possible, System::AArch64Linux.nix_system(), &names);
        let selected: Vec<String> = Vec::new();
        proof {
            assert(label_views(possible@) =~= rebuild_possible());
            assert(label_views(selected@) =~= Seq::<Seq<char>>::empty());
        }
        RebuildTagger { possible, selected }
    }
}

impl RebuildTagger {
    /// The labels the tagger may set.
    pub closed spec fn possible_labels(&self) -> Seq<Seq<char>> {
        label_views(self.possible@)
    }

    /// The labels selected by the last count.
    pub closed spec fn selected_labels(&self) -> Seq<Seq<char>> {
        label_views(self.selected@)
    }

    /// The tagger knows the rebuild labels, and selects only labels it knows,
    /// none of them twice.
    #[verifier::type_invariant]
    pub open spec fn wf(&self) -> bool {
        &&& self.possible_labels() == rebuild_possible()
        &&& labels_within(self.selected_labels(), self.possible_labels())
        &&& self.selected_labels().no_duplicates()
    }

    /// A tagger that knows every rebuild label and has selected none.
    pub fn new() -> (r: RebuildTagger)
        ensures
            r.possible_labels() == rebuild_possible(),
            r.selected_labels() == Seq::<Seq<char>>::empty(),
    {
        RebuildTagger::default()
    }

    /// Counts the rebuilt attributes of each platform and selects, in place of
    /// any earlier selection, the labels of the buckets those counts fall in.
    pub fn parse_attrs(&mut self, attrs: Vec<PackageArch>)
        ensures
            final(self).possible_labels() == old(self).possible_labels(),
            final(self).selected_labels() == rebuild_selection(architectures(attrs@)),
    {
        let ghost archs = architectures(attrs@);
        let x86_64_darwin = String::from_str(System::X8664Darwin.nix_system());
        let aarch64_darwin = String::from_str(System::AArch64Darwin.nix_system());
        let x86_64_linux = String::from_str(System::X8664Linux.nix_system());
        let aarch64_linux = String::from_str(System::AArch64Linux.nix_system());
        let mut counter_x86_64_darwin: u64 = 0;
        let mut counter_aarch64_darwin: u64 = 0;
        let mut counter_x86_64_linux: u64 = 0;
        let mut counter_aarch64_linux: u64 = 0;
        proof {
            lemma_system_names_distinct();
        }
        let mut i: usize = 0;
        while i < attrs.len()
            invariant
                i <= attrs.len(),
                archs == architectures(attrs@),
                x86_64_darwin@ == system_name(System::X8664Darwin),
                aarch64_darwin@ == system_name(System::AArch64Darwin),
                x86_64_linux@ == system_name(System::X8664Linux),
                aarch64_linux@ == system_name(System::AArch64Linux),
                forall|s: System, t: System| system_name(s) == system_name(t) ==> s == t,
                counter_x86_64_darwin == arch_count(
                    archs.take(i as int),
                    system_name(System::X8664Darwin),
                ),
                counter_aarch64_darwin == arch_count(
                    archs.take(i as int),
                    system_name(System::AArch64Darwin),
                ),
                counter_x86_64_linux == arch_count(
                    archs.take(i as int),
                    system_name(System::X8664Linux),
                ),
                counter_aarch64_linux == arch_count(
                    archs.take(i as int),
                    system_name(System::AArch64Linux),
                ),
                counter_x86_64_darwin <= i,
                counter_aarch64_darwin <= i,
                counter_x86_64_linux <= i,
                counter_aarch64_linux <= i,
            decreases attrs.len() - i,
        {
            let arch = &attrs[i].architecture;
            proof {
                assert(archs.take(i + 1).drop_last() =~= archs.take(i as int));
                assert(archs.take(i + 1).last() == arch@);
            }
            if *arch == x86_64_darwin {
                counter_x86_64_darwin = counter_x86_64_darwin + 1;
            } else if *arch == aarch64_darwin {
                counter_aarch64_darwin = counter_aarch64_darwin + 1;
            } else if *arch == x86_64_linux {
                counter_x86_64_linux = counter_x86_64_linux + 1;
            } else if *arch == aarch64_linux {
                counter_aarch64_linux = counter_aarch64_linux + 1;
            }
            i = i + 1;
        }
        assert(archs.take(attrs.len() as int) =~= archs);
        let mut selected: Vec<String> = Vec::new();
        push_arch_labels(
            &mut selected,
            System::X8664Darwin.nix_system(),
            &RebuildTagger::bucket(counter_x86_64_darwin),
        );
        push_arch_labels(
            &mut selected,
            System::AArch64Darwin.nix_system(),
            &RebuildTagger::bucket(counter_aarch64_darwin),
        );
        push_arch_labels(
            &mut selected,
            System::X8664Linux.nix_system(),
            &RebuildTagger::bucket(counter_x86_64_linux),
        );
        push_arch_labels(
            &mut selected,
            System::AArch64Linux.nix_system(),
            &RebuildTagger::bucket(counter_aarch64_linux),
        );
        proof {
            use_type_invariant(&*self);
            assert(label_views(selected@) =~= rebuild_selection(archs));
            lemma_rebuild_selection_known(archs);
            lemma_rebuild_selection_shape(archs);
        }
        self.selected = selected;
    }

    /// The labels to add: the selection.
    pub fn tags_to_add(&self) -> (r: Vec<String>)
        ensures
            label_views(r@) == self.selected_labels(),
    {
        copy_labels(&self.selected)
    }

    /// The labels to take away: every known label, in order, that the last
    /// count did not select.
    pub fn tags_to_remove(&self) -> (r: Vec<String>)
        ensures
            label_views(r@) == labels_without(self.possible_labels(), self.selected_labels()),
    {
        let ghost pv = self.possible_labels();
        let ghost sv = self.selected_labels();
        let mut remove: Vec<String> = Vec::new();
        let mut i: usize = 0;
        assert(pv.take(0) =~= Seq::<Seq<char>>::empty());
        while i < self.possible.len()
            invariant
                i <= self.possible.len(),
                pv == self.possible_labels(),
                sv == self.selected_labels(),
                label_views(remove@) == labels_without(pv.take(i as int), sv),
            decreases self.possible.len() - i,
        {
            let tag = &self.possible[i];
            let ghost before = remove@;
            proof {
                assert(pv.take(i + 1).drop_last() =~= pv.take(i as int));
                assert(pv.take(i + 1).last() == tag@);
            }
            if !holds_label(&self.selected, tag) {
                remove.push(tag.clone());
                assert(label_views(remove@) =~= label_views(before).push(tag@));
            }
            i = i + 1;
        }
        assert(pv.take(self.possible.len() as int) =~= pv);
        remove
    }

    /// The buckets that a number of rebuilds on one platform falls in: an
    /// exact bucket up to 500, and from 501 on both "501+" and a finer one;
    /// a single rebuild is both "1" and "1-10".
    pub fn bucket(count: u64) -> (r: Vec<&'static str>)
        ensures
            str_views(r@) == bucket_spec(count as int),
    {
        let r: Vec<&'static str> = if count > 5000 {
            vec!["501+", "5001+"]
        } else if count > 2500 {
            vec!["501+", "2501-5000"]
        } else if count > 1000 {
            vec!["501+", "1001-2500"]
        } else if count > 500 {
            vec!["501+", "501-1000"]
        } else if count > 100 {
            vec!["101-500"]
        } else if count > 10 {
            vec!["11-100"]
        } else if count > 1 {
            vec!["1-10"]
        } else if count > 0 {
            vec!["1", "1-10"]
        } else {
            vec!["0"]
        };
        assert(str_views(r@) =~= bucket_spec(count as int));
        r
    }
}

/// The label for a change that removes packages.
pub open spec fn cleanup_label() -> Seq<char> {
    "8.has: clean-up"@
}

/// The label for a change that adds packages.
pub open spec fn new_package_label() -> Seq<char> {
    "8.has: package (new)"@
}

/// The labels of the added/removed tagger, in sorted order.
pub open spec fn pkgs_possible() -> Seq<Seq<char>> {
    seq![cleanup_label(), new_package_label()]
}

/// The labels that one comparison of package sets earns: clean-up when some
/// package went away, then package (new) when some package came in.
pub open spec fn pkgs_selection(removed: bool, added: bool) -> Seq<Seq<char>> {
    (if removed {
        seq![cleanup_label()]
    } else {
        Seq::empty()
    }) + (if added {
        seq![new_package_label()]
    } else {
        Seq::empty()
    })
}

/// Labels for changes that add or remove packages.
pub struct PkgsAddedRemovedTagger {
    possible: Vec<String>,
    selected: Vec<String>,
}

impl Default for PkgsAddedRemovedTagger {
    /// A tagger that knows its two labels, in sorted order, and has selected
    /// none.
    fn default() -> (r: PkgsAddedRemovedTagger)
        ensures
            r.possible_labels() == pkgs_possible(),
            r.selected_labels() == Seq::<Seq<char>>::empty(),
    {
        let possible: Vec<String> = vec![
            String::from_str("8.has: clean-up"),
            String::from_str("8.has: package (new)"),
        ];
        let selected: Vec<String> = Vec::new();
        proof {
            assert(label_views(possible@) =~= pkgs_possible());
            assert(label_views(selected@) =~= Seq::<Seq<char>>::empty());
        }
        PkgsAddedRemovedTagger { possible, selected }
    }
}

impl PkgsAddedRemovedTagger {
    /// The labels the tagger may set.
    pub closed spec fn possible_labels(&self) -> Seq<Seq<char>> {
        label_views(self.possible@)
    }

    /// The labels selected so far, in the order they were selected.
    pub closed spec fn selected_labels(&self) -> Seq<Seq<char>> {
        label_views(self.selected@)
    }

    /// The tagger knows its two labels, and selects only labels it knows.
    #[verifier::type_invariant]
    pub open spec fn wf(&self) -> bool {
        &&& self.possible_labels() == pkgs_possible()
        &&& labels_within(self.selected_labels(), self.possible_labels())
    }

    /// A tagger that knows its two labels and has selected none.
    pub fn new() -> (r: PkgsAddedRemovedTagger)
        ensures
            r.possible_labels() == pkgs_possible(),
            r.selected_labels() == Seq::<Seq<char>>::empty(),
    {
        PkgsAddedRemovedTagger::default()
    }

    /// Selects clean-up if any package was removed, then package (new) if
    /// any was added.
    pub fn changed(&mut self, removed: &[PackageArch], added: &[PackageArch])
        ensures
            final(self).possible_labels() == old(self).possible_labels(),
            final(self).selected_labels() == old(self).selected_labels() + pkgs_selection(
                removed@.len() > 0,
                added@.len() > 0,
            ),
    {
        proof {
            use_type_invariant(&*self);
        }
        let mut selected: Vec<String> = Vec::new();
        std::mem::swap(&mut selected, &mut self.selected);
        let ghost start = label_views(selected@);
        if removed.len() > 0 {
            selected.push(String::from_str("8.has: clean-up"));
        }
        if added.len() > 0 {
            selected.push(String::from_str("8.has: package (new)"));
        }
        proof {
            let sel = pkgs_selection(removed@.len() > 0, added@.len() > 0);
            assert(label_views(selected@) =~= start + sel);
            assert forall|l: Seq<char>| #[trigger]
                label_views(selected@).contains(l) implies pkgs_possible().contains(l) by {
                lemma_concat_contains(start, sel, l);
                if sel.contains(l) {
                    let k = choose|k: int| 0 <= k < sel.len() && sel[k] == l;
                    if l == cleanup_label() {
                        assert(pkgs_possible()[0] == l);
                    } else {
                        assert(pkgs_possible()[1] == l);
                    }
                }
            }
        }
        self.selected = selected;
    }

    /// The labels to add: the selection.
    pub fn tags_to_add(&self) -> (r: Vec<String>)
        ensures
            label_views(r@) == self.selected_labels(),
    {
        copy_labels(&self.selected)
    }

    /// The labels to take away: none, as clean-up is too vague to take away
    /// on its own.
    pub fn tags_to_remove(&self) -> (r: Vec<String>)
        ensures
            r@ == Seq::<String>::empty(),
    {
        Vec::new()
    }
}

/// The label for a change whose author maintains every package it touches.
pub open spec fn maintainer_label() -> Seq<char> {
    "11.by: package-maintainer"@
}

/// Labels for changes that come from the packages' own maintainers.
pub struct MaintainerPrTagger {
    possible: Vec<String>,
    selected: Vec<String>,
}

impl Default for MaintainerPrTagger {
    /// A tagger that knows its label and has selected none.
    fn default() -> (r: MaintainerPrTagger)
        ensures
            r.possible_labels() == seq![maintainer_label()],
            r.selected_labels() == Seq::<Seq<char>>::empty(),
    {
        let possible: Vec<String> = vec![String::from_str("11.by: package-maintainer")];
        let selected: Vec<String> = Vec::new();
        proof {
            assert(label_views(possible@) =~= seq![maintainer_label()]);
            assert(label_views(selected@) =~= Seq::<Seq<char>>::empty());
        }
        MaintainerPrTagger { possible, selected }
    }
}

impl MaintainerPrTagger {
    /// The labels the tagger may set.
    pub closed spec fn possible_labels(&self) -> Seq<Seq<char>> {
        label_views(self.possible@)
    }

    /// The labels selected so far, in the order they were selected.
    pub closed spec fn selected_labels(&self) -> Seq<Seq<char>> {
        label_views(self.selected@)
    }

    /// The tagger knows its one label, and selects only that label.
    #[verifier::type_invariant]
    pub open spec fn wf(&self) -> bool {
        &&& self.possible_labels() == seq![maintainer_label()]
        &&& labels_within(self.selected_labels(), self.possible_labels())
    }

    /// A tagger that knows its label and has selected none.
    pub fn new() -> (r: MaintainerPrTagger)
        ensures
            r.possible_labels() == seq![maintainer_label()],
            r.selected_labels() == Seq::<Seq<char>>::empty(),
    {
        MaintainerPrTagger::default()
    }

    /// Selects the maintainer label when the change touches at least one
    /// package and the submitter is a maintainer of every package it touches.
    pub fn record_maintainer(
        &mut self,
        pr_submitter: &str,
        identified_maintainers: &MaintainersByPackage,
    )
        ensures
            final(self).possible_labels() == old(self).possible_labels(),
            final(self).selected_labels() == if maintains_all(
                identified_maintainers.0@,
                pr_submitter@,
            ) {
                old(self).selected_labels().push(maintainer_label())
            } else {
                old(self).selected_labels()
            },
    {
        let submitter = Maintainer::from_name(pr_submitter);
        let packages = &identified_maintainers.0;
        if packages.len() == 0 {
            return;
        }
        let mut i: usize = 0;
        while i < packages.len()
            invariant
                i <= packages.len(),
                packages@ == identified_maintainers.0@,
                submitter.0@ == pr_submitter@,
                forall|j: int|
                    0 <= j < i ==> lists_maintainer(#[trigger] packages@[j].1@, pr_submitter@),
            decreases packages.len() - i,
        {
            if !has_maintainer(&packages[i].1, &submitter) {
                return;
            }
            i = i + 1;
        }
        proof {
            use_type_invariant(&*self);
        }
        let mut selected: Vec<String> = Vec::new();
        std::mem::swap(&mut selected, &mut self.selected);
        let ghost before = label_views(selected@);
        selected.push(String::from_str("11.by: package-maintainer"));
        proof {
            assert(label_views(selected@) =~= before.push(maintainer_label()));
            assert forall|l: Seq<char>| #[trigger]
                label_views(selected@).contains(l) implies seq![maintainer_label()].contains(
                l,
            ) by {
                let k = choose|k: int|
                    0 <= k < label_views(selected@).len() && label_views(selected@)[k] == l;
                if k < before.len() {
                    assert(before[k] == l);
                    assert(before.contains(l));
                } else {
                    assert(label_views(selected@)[k] == maintainer_label());
                    assert(seq![maintainer_label()][0] == l);
                }
            }
        }
        self.selected = selected;
    }

    /// The labels to add: the selection.
    pub fn tags_to_add(&self) -> (r: Vec<String>)
        ensures
            label_views(r@) == self.selected_labels(),
    {
        copy_labels(&self.selected)
    }

    /// The labels to take away: none.
    pub fn tags_to_remove(&self) -> (r: Vec<String>)
        ensures
            r@ == Seq::<String>::empty(),
    {
        Vec::new()
    }
}

/// Of the labels a tagger knows, each is either added or taken away, never
/// both; and nothing it does not know is added or taken away.
proof fn lemma_partition(possible: Seq<Seq<char>>, selected: Seq<Seq<char>>)
    requires
        labels_within(selected, possible),
    ensures
        forall|l: Seq<char>| #[trigger]
            possible.contains(l) ==> (selected.contains(l) <==> !labels_without(
                possible,
                selected,
            ).contains(l)),
        labels_within(labels_without(possible, selected), possible),
{
    lemma_without_partition(possible, selected);
}

/// Every label the stdenv tagger knows is either in what it adds or in what
/// it takes away, and never in both; it adds and takes away only labels it
/// knows.
pub proof fn lemma_stdenv_add_remove_partition(t: StdenvTagger)
    requires
        t.wf(),
    ensures
        forall|l: Seq<char>| #[trigger]
            t.possible_labels().contains(l) ==> (t.selected_labels().contains(l) <==> !labels_without(
                t.possible_labels(),
                t.selected_labels(),
            ).contains(l)),
        labels_within(t.selected_labels(), t.possible_labels()),
        labels_within(labels_without(t.possible_labels(), t.selected_labels()), t.possible_labels()),
{
    lemma_partition(t.possible_labels(), t.selected_labels());
}

/// Every label the rebuild tagger knows is either in what it adds or in what
/// it takes away, and never in both; it adds and takes away only labels it
/// knows.
pub proof fn lemma_rebuild_add_remove_partition(t: RebuildTagger)
    requires
        t.wf(),
    ensures
        forall|l: Seq<char>| #[trigger]
            t.possible_labels().contains(l) ==> (t.selected_labels().contains(l) <==> !labels_without(
                t.possible_labels(),
                t.selected_labels(),
            ).contains(l)),
        labels_within(t.selected_labels(), t.possible_labels()),
        labels_within(labels_without(t.possible_labels(), t.selected_labels()), t.possible_labels()),
{
    lemma_partition(t.possible_labels(), t.selected_labels());
}

/// Each bucket name means what it says: a count of rebuilds is in the
/// bucket "0" when it is 0, "1" when it is 1, "1-10" when it is between 1
/// and 10, and so on up to "5001+", and in "501+" when it is over 500. So
/// every count is in exactly one of the ranges 0, 1-10, 11-100, 101-500,
/// 501-1000, 1001-2500, 2501-5000 and 5001+.
pub proof fn lemma_bucket_meaning(count: int)
    requires
        count >= 0,
    ensures
        bucket_spec(count).contains("0"@) <==> count == 0,
        bucket_spec(count).contains("1"@) <==> count == 1,
        bucket_spec(count).contains("1-10"@) <==> 1 <= count <= 10,
        bucket_spec(count).contains("11-100"@) <==> 11 <= count <= 100,
        bucket_spec(count).contains("101-500"@) <==> 101 <= count <= 500,
        bucket_spec(count).contains("501+"@) <==> count > 500,
        bucket_spec(count).contains("501-1000"@) <==> 501 <= count <= 1000,
        bucket_spec(count).contains("1001-2500"@) <==> 1001 <= count <= 2500,
        bucket_spec(count).contains("2501-5000"@) <==> 2501 <= count <= 5000,
        bucket_spec(count).contains("5001+"@) <==> count > 5000,
{
    lemma_buckets_distinct();
    let b = rebuild_buckets();
    let s = bucket_spec(count);
    assert forall|k: int| 0 <= k < b.len() implies (s.contains(b[k]) <==> #[trigger] bucket_holds(
        b[k],
        count,
    )) by {
        if s.contains(b[k]) {
            let j = choose|j: int| 0 <= j < s.len() && s[j] == b[k];
        }
        if bucket_holds(b[k], count) {
            if count > 5000 {
                assert(s[0] == b[k] || s[1] == b[k]);
            } else if count > 500 {
                assert(s[0] == b[k] || s[1] == b[k]);
            } else if count == 1 {
                assert(s[0] == b[k] || s[1] == b[k]);
            } else {
                assert(s[0] == b[k]);
            }
        }
    }
    assert(bucket_holds(b[0], count) == (count == 0));
    assert(bucket_holds(b[1], count) == (count == 1));
    assert(bucket_holds(b[2], count) == (1 <= count <= 10));
    assert(bucket_holds(b[3], count) == (11 <= count <= 100));
    assert(bucket_holds(b[4], count) == (101 <= count <= 500));
    assert(bucket_holds(b[5], count) == (count > 500));
    assert(bucket_holds(b[6], count) == (501 <= count <= 1000));
    assert(bucket_holds(b[7], count) == (1001 <= count <= 2500));
    assert(bucket_holds(b[8], count) == (2501 <= count <= 5000));
    assert(bucket_holds(b[9], count) == (count > 5000));
}

/// The range of counts that a bucket name stands for.
spec fn bucket_holds(bucket: Seq<char>, count: int) -> bool {
    if bucket == "0"@ {
        count == 0
    } else if bucket == "1"@ {
        count == 1
    } else if bucket == "1-10"@ {
        1 <= count <= 10
    } else if bucket == "11-100"@ {
        11 <= count <= 100
    } else if bucket == "101-500"@ {
        101 <= count <= 500
    } else if bucket == "501+"@ {
        count > 500
    } else if bucket == "501-1000"@ {
        501 <= count <= 1000
    } else if bucket == "1001-2500"@ {
        1001 <= count <= 2500
    } else if bucket == "2501-5000"@ {
        2501 <= count <= 5000
    } else {
        count > 5000
    }
}

/// No two bucket names are the same.
proof fn lemma_buckets_distinct()
    ensures
        rebuild_buckets().no_duplicates(),
{
    reveal_strlit("0");
    reveal_strlit("1");
    reveal_strlit("1-10");
    reveal_strlit("11-100");
    reveal_strlit("101-500");
    reveal_strlit("501+");
    reveal_strlit("501-1000");
    reveal_strlit("1001-2500");
    reveal_strlit("2501-5000");
    reveal_strlit("5001+");
    let b = rebuild_buckets();
    assert forall|i: int, j: int| 0 <= i < b.len() && 0 <= j < b.len() && i != j implies b[i]
        != b[j] by {
        if b[i].len() == b[j].len() {
            if b[i].len() == 4 {
                assert(b[i][3] != b[j][3] || b[i][1] != b[j][1]);
            } else if b[i].len() == 7 {
                assert(b[i][0] != b[j][0]);
            } else if b[i].len() == 8 {
                assert(b[i][0] != b[j][0]);
            } else if b[i].len() == 9 {
                assert(b[i][0] != b[j][0]);
            } else {
                assert(b[i][0] != b[j][0]);
            }
        }
    }
}

/// The stdenv tagger keeps its labels in sorted order.
pub proof fn lemma_stdenv_possible_sorted()
    ensures
        labels_sorted(stdenv_possible()),
{
    reveal_strlit("10.rebuild-x86_64-darwin-stdenv");
    reveal_strlit("10.rebuild-aarch64-darwin-stdenv");
    reveal_strlit("10.rebuild-x86_64-linux-stdenv");
    reveal_strlit("10.rebuild-aarch64-linux-stdenv");
    let p = stdenv_possible();
    assert(p[0].take(19) =~= p[1].take(19));
    lemma_text_before_at(p[0], p[1], 19);
    assert(p[1].take(11) =~= p[2].take(11));
    lemma_text_before_at(p[1], p[2], 11);
    assert(p[2].take(18) =~= p[3].take(18));
    lemma_text_before_at(p[2], p[3], 18);
}

/// The added/removed tagger keeps its labels in sorted order.
pub proof fn lemma_pkgs_possible_sorted()
    ensures
        labels_sorted(pkgs_possible()),
{
    reveal_strlit("8.has: clean-up");
    reveal_strlit("8.has: package (new)");
    let p = pkgs_possible();
    assert(p[0].take(7) =~= p[1].take(7));
    lemma_text_before_at(p[0], p[1], 7);
}

/// The text that every rebuild label of a platform starts with.
pub open spec fn rebuild_prefix(system: System) -> Seq<char> {
    "10.rebuild-"@ + system_name(system) + ": "@
}

/// A rebuild label names its platform and its bucket: two labels are the
/// same only when both are.
pub proof fn lemma_rebuild_label_injective(s1: System, b1: Seq<char>, s2: System, b2: Seq<char>)
    requires
        rebuild_label(system_name(s1), b1) == rebuild_label(system_name(s2), b2),
    ensures
        s1 == s2,
        b1 == b2,
{
    reveal_strlit("10.rebuild-");
    reveal_strlit(": ");
    reveal_strlit("x86_64-darwin");
    reveal_strlit("aarch64-darwin");
    reveal_strlit("x86_64-linux");
    reveal_strlit("aarch64-linux");
    lemma_system_names_distinct();
    let a1 = system_name(s1);
    let a2 = system_name(s2);
    let l1 = rebuild_label(a1, b1);
    let l2 = rebuild_label(a2, b2);
    assert("10.rebuild-"@.len() == 11);
    assert(": "@.len() == 2);
    if a1.len() == a2.len() {
        assert(l1.subrange(11, 11 + a1.len() as int) =~= a1);
        assert(l2.subrange(11, 11 + a2.len() as int) =~= a2);
        assert(l1.skip(13 + a1.len() as int) =~= b1);
        assert(l2.skip(13 + a2.len() as int) =~= b2);
    } else if a1.len() < a2.len() {
        assert(l1[11 + a1.len() as int] == ':');
        assert(l2[11 + a1.len() as int] == a2[a1.len() as int]);
        assert(a2[a1.len() as int] != ':');
    } else {
        assert(l2[11 + a2.len() as int] == ':');
        assert(l1[11 + a2.len() as int] == a1[a2.len() as int]);
        assert(a1[a2.len() as int] != ':');
    }
}

/// One platform's labels for distinct buckets are distinct.
proof fn lemma_arch_labels_distinct(system: System, buckets: Seq<Seq<char>>)
    requires
        buckets.no_duplicates(),
    ensures
        arch_labels(system_name(system), buckets).no_duplicates(),
{
    let x = arch_labels(system_name(system), buckets);
    assert forall|i: int, j: int| 0 <= i < x.len() && 0 <= j < x.len() && i != j implies x[i]
        != x[j] by {
        if x[i] == x[j] {
            lemma_rebuild_label_injective(system, buckets[i], system, buckets[j]);
        }
    }
}

/// Labels of two different platforms never coincide.
proof fn lemma_arch_labels_apart(s1: System, b1: Seq<Seq<char>>, s2: System, b2: Seq<Seq<char>>)
    requires
        s1 != s2,
    ensures
        arch_labels(system_name(s1), b1).disjoint(arch_labels(system_name(s2), b2)),
{
    let x = arch_labels(system_name(s1), b1);
    let y = arch_labels(system_name(s2), b2);
    assert forall|i: int, j: int| 0 <= i < x.len() && 0 <= j < y.len() implies x[i] != y[j] by {
        if x[i] == y[j] {
            lemma_rebuild_label_injective(s1, b1[i], s2, b2[j]);
        }
    }
}

/// Four blocks without duplicates, pairwise apart, make a list without
/// duplicates.
proof fn lemma_four_blocks_distinct(
    x0: Seq<Seq<char>>,
    x1: Seq<Seq<char>>,
    x2: Seq<Seq<char>>,
    x3: Seq<Seq<char>>,
)
    requires
        x0.no_duplicates(),
        x1.no_duplicates(),
        x2.no_duplicates(),
        x3.no_duplicates(),
        x0.disjoint(x1),
        x0.disjoint(x2),
        x0.disjoint(x3),
        x1.disjoint(x2),
        x1.disjoint(x3),
        x2.disjoint(x3),
    ensures
        (x0 + x1 + x2 + x3).no_duplicates(),
{
    vstd::seq_lib::lemma_no_dup_in_concat(x0, x1);
    let a = x0 + x1;
    assert forall|i: int, j: int| 0 <= i < a.len() && 0 <= j < x2.len() implies a[i] != x2[j] by {
        if i < x0.len() {
            assert(a[i] == x0[i]);
        } else {
            assert(a[i] == x1[i - x0.len()]);
        }
    }
    vstd::seq_lib::lemma_no_dup_in_concat(a, x2);
    let b = a + x2;
    assert forall|i: int, j: int| 0 <= i < b.len() && 0 <= j < x3.len() implies b[i] != x3[j] by {
        if i < x0.len() {
            assert(b[i] == x0[i]);
        } else if i < a.len() {
            assert(b[i] == x1[i - x0.len()]);
        } else {
            assert(b[i] == x2[i - a.len()]);
        }
    }
    vstd::seq_lib::lemma_no_dup_in_concat(b, x3);
}

/// The buckets that a count falls in are one or two distinct names.
proof fn lemma_bucket_spec_distinct(count: int)
    ensures
        bucket_spec(count).no_duplicates(),
        1 <= bucket_spec(count).len() <= 2,
{
    lemma_buckets_distinct();
    let b = rebuild_buckets();
    let s = bucket_spec(count);
    if s.len() == 2 {
        if count > 5000 {
            assert(s[0] == b[5] && s[1] == b[9]);
        } else if count > 2500 {
            assert(s[0] == b[5] && s[1] == b[8]);
        } else if count > 1000 {
            assert(s[0] == b[5] && s[1] == b[7]);
        } else if count > 500 {
            assert(s[0] == b[5] && s[1] == b[6]);
        } else {
            assert(s[0] == b[1] && s[1] == b[2]);
        }
    }
}

/// The 40 labels that the rebuild tagger knows are all different.
pub proof fn lemma_rebuild_possible_distinct()
    ensures
        rebuild_possible().no_duplicates(),
        rebuild_possible().len() == 40,
{
    lemma_buckets_distinct();
    let b = rebuild_buckets();
    lemma_arch_labels_distinct(System::X8664Darwin, b);
    lemma_arch_labels_distinct(System::AArch64Darwin, b);
    lemma_arch_labels_distinct(System::X8664Linux, b);
    lemma_arch_labels_distinct(System::AArch64Linux, b);
    lemma_arch_labels_apart(System::X8664Darwin, b, System::AArch64Darwin, b);
    lemma_arch_labels_apart(System::X8664Darwin, b, System::X8664Linux, b);
    lemma_arch_labels_apart(System::X8664Darwin, b, System::AArch64Linux, b);
    lemma_arch_labels_apart(System::AArch64Darwin, b, System::X8664Linux, b);
    lemma_arch_labels_apart(System::AArch64Darwin, b, System::AArch64Linux, b);
    lemma_arch_labels_apart(System::X8664Linux, b, System::AArch64Linux, b);
    lemma_four_blocks_distinct(
        arch_labels(system_name(System::X8664Darwin), b),
        arch_labels(system_name(System::AArch64Darwin), b),
        arch_labels(system_name(System::X8664Linux), b),
        arch_labels(system_name(System::AArch64Linux), b),
    );
}

/// The labels a list of rebuilt platform names earns hold no label twice,
/// and come in four blocks, one per platform in the order x86_64-darwin,
/// aarch64-darwin, x86_64-linux, aarch64-linux, of one or two labels each;
/// every label of a block starts with its platform's prefix. So there are
/// between four and eight of them.
pub proof fn lemma_rebuild_selection_shape(archs: Seq<Seq<char>>)
    ensures
        rebuild_selection(archs).no_duplicates(),
        4 <= rebuild_selection(archs).len() <= 8,
        rebuild_selection(archs) == arch_selection(archs, System::X8664Darwin) + arch_selection(
            archs,
            System::AArch64Darwin,
        ) + arch_selection(archs, System::X8664Linux) + arch_selection(archs, System::AArch64Linux),
        forall|s: System| 1 <= #[trigger] arch_selection(archs, s).len() <= 2,
        forall|s: System, j: int|
            0 <= j < arch_selection(archs, s).len() ==> (#[trigger] arch_selection(archs, s)[j]).take(
                rebuild_prefix(s).len() as int,
            ) == rebuild_prefix(s),
{
    assert forall|s: System| 1 <= #[trigger] arch_selection(archs, s).len() <= 2
        && arch_selection(archs, s).no_duplicates() by {
        let c = arch_count(archs, system_name(s)) as int;
        lemma_bucket_spec_distinct(c);
        lemma_arch_labels_distinct(s, bucket_spec(c));
    }
    assert forall|s: System, j: int| 0 <= j < arch_selection(archs, s).len() implies (
    #[trigger] arch_selection(archs, s)[j]).take(rebuild_prefix(s).len() as int)
        == rebuild_prefix(s) by {
        assert((arch_selection(archs, s)[j]).take(rebuild_prefix(s).len() as int) =~= rebuild_prefix(
            s,
        ));
    }
    let c0 = bucket_spec(arch_count(archs, system_name(System::X8664Darwin)) as int);
    let c1 = bucket_spec(arch_count(archs, system_name(System::AArch64Darwin)) as int);
    let c2 = bucket_spec(arch_count(archs, system_name(System::X8664Linux)) as int);
    let c3 = bucket_spec(arch_count(archs, system_name(System::AArch64Linux)) as int);
    lemma_arch_labels_apart(System::X8664Darwin, c0, System::AArch64Darwin, c1);
    lemma_arch_labels_apart(System::X8664Darwin, c0, System::X8664Linux, c2);
    lemma_arch_labels_apart(System::X8664Darwin, c0, System::AArch64Linux, c3);
    lemma_arch_labels_apart(System::AArch64Darwin, c1, System::X8664Linux, c2);
    lemma_arch_labels_apart(System::AArch64Darwin, c1, System::AArch64Linux, c3);
    lemma_arch_labels_apart(System::X8664Linux, c2, System::AArch64Linux, c3);
    lemma_four_blocks_distinct(
        arch_selection(archs, System::X8664Darwin),
        arch_selection(archs, System::AArch64Darwin),
        arch_selection(archs, System::X8664Linux),
        arch_selection(archs, System::AArch64Linux),
    );
}

/// What the rebuild tagger adds and what it takes away together hold each
/// of its 40 labels exactly once: neither list holds a label twice, they
/// share none, every known label is in one of them, and their lengths add up
/// to 40.
pub proof fn lemma_rebuild_add_remove_exact(t: RebuildTagger)
    requires
        t.wf(),
    ensures
        t.selected_labels().no_duplicates(),
        labels_without(t.possible_labels(), t.selected_labels()).no_duplicates(),
        labels_without(t.possible_labels(), t.selected_labels()).disjoint(t.selected_labels()),
        forall|l: Seq<char>| #[trigger]
            t.possible_labels().contains(l) ==> (t.selected_labels().contains(l)
                || labels_without(t.possible_labels(), t.selected_labels()).contains(l)),
        t.selected_labels().len() + labels_without(t.possible_labels(), t.selected_labels()).len()
            == 40,
{
    lemma_rebuild_possible_distinct();
    lemma_without_exact(t.possible_labels(), t.selected_labels());
    lemma_partition(t.possible_labels(), t.selected_labels());
}

/// When the stdenv tagger has selected no label twice, what it adds and
/// what it takes away together hold each of its 4 labels exactly once.
pub proof fn lemma_stdenv_add_remove_exact(t: StdenvTagger)
    requires
        t.wf(),
        t.selected_labels().no_duplicates(),
    ensures
        labels_without(t.possible_labels(), t.selected_labels()).no_duplicates(),
        labels_without(t.possible_labels(), t.selected_labels()).disjoint(t.selected_labels()),
        forall|l: Seq<char>| #[trigger]
            t.possible_labels().contains(l) ==> (t.selected_labels().contains(l)
                || labels_without(t.possible_labels(), t.selected_labels()).contains(l)),
        t.selected_labels().len() + labels_without(t.possible_labels(), t.selected_labels()).len()
            == 4,
{
    lemma_stdenv_possible_distinct();
    lemma_without_exact(t.possible_labels(), t.selected_labels());
    lemma_partition(t.possible_labels(), t.selected_labels());
}

/// One comparison of package sets selects "8.has: clean-up" exactly when
/// some package went away, whatever came in, and "8.has: package (new)"
/// exactly when some package came in, whatever went away; nothing else, and
/// clean-up first.
pub proof fn lemma_pkgs_selection_meaning(removed: bool, added: bool)
    ensures
        pkgs_selection(removed, added).contains("8.has: clean-up"@) <==> removed,
        pkgs_selection(removed, added).contains("8.has: package (new)"@) <==> added,
        pkgs_selection(removed, added).len() == (if removed { 1int } else { 0int }) + (if added {
            1int
        } else {
            0int
        }),
        removed ==> pkgs_selection(removed, added)[0] == "8.has: clean-up"@,
{
    reveal_strlit("8.has: clean-up");
    reveal_strlit("8.has: package (new)");
    let c = "8.has: clean-up"@;
    let n = "8.has: package (new)"@;
    assert(c[7] != n[7]);
    let sel = pkgs_selection(removed, added);
    if removed {
        assert(sel[0] == c);
    }
    if added {
        assert(sel[sel.len() - 1] == n);
    }
    if sel.contains(c) {
        let k = choose|k: int| 0 <= k < sel.len() && sel[k] == c;
    }
    if sel.contains(n) {
        let k = choose|k: int| 0 <= k < sel.len() && sel[k] == n;
    }
}

/// How many entries of a list of platform names are a given name is the
/// number of times the name occurs in the list, whatever the order.
proof fn lemma_arch_count_multiplicity(archs: Seq<Seq<char>>, arch: Seq<char>)
    ensures
        arch_count(archs, arch) == archs.to_multiset().count(arch),
    decreases archs.len(),
{
    broadcast use vstd::seq_lib::group_to_multiset_ensures, vstd::multiset::group_multiset_axioms;

    if archs.len() == 0 {
        assert(archs.to_multiset().len() == 0);
        assert(archs.to_multiset() =~= vstd::multiset::Multiset::empty());
    } else {
        let init = archs.drop_last();
        lemma_arch_count_multiplicity(init, arch);
        assert(init.push(archs.last()) =~= archs);
        assert(archs.to_multiset() =~= init.to_multiset().insert(archs.last()));
    }
}

/// A platform's labels hold the label of a given platform and bucket
/// exactly when the platforms are the same and the bucket is among them.
proof fn lemma_arch_labels_contains(s1: System, buckets: Seq<Seq<char>>, s2: System, b: Seq<char>)
    ensures
        arch_labels(system_name(s1), buckets).contains(rebuild_label(system_name(s2), b)) <==> (s1
            == s2 && buckets.contains(b)),
{
    let x = arch_labels(system_name(s1), buckets);
    if x.contains(rebuild_label(system_name(s2), b)) {
        let k = choose|k: int| 0 <= k < x.len() && x[k] == rebuild_label(system_name(s2), b);
        lemma_rebuild_label_injective(s1, buckets[k], s2, b);
        assert(buckets[k] == b);
    }
    if s1 == s2 && buckets.contains(b) {
        let k = choose|k: int| 0 <= k < buckets.len() && buckets[k] == b;
        assert(x[k] == rebuild_label(system_name(s2), b));
    }
}

/// The labels a list of platform names earns hold the label of a platform
/// and a bucket exactly when that platform's count falls in the bucket.
proof fn lemma_selection_contains(archs: Seq<Seq<char>>, system: System, b: Seq<char>)
    ensures
        rebuild_selection(archs).contains(rebuild_label(system_name(system), b)) <==> bucket_spec(
            arch_count(archs, system_name(system)) as int,
        ).contains(b),
{
    let l = rebuild_label(system_name(system), b);
    let s0 = arch_selection(archs, System::X8664Darwin);
    let s1 = arch_selection(archs, System::AArch64Darwin);
    let s2 = arch_selection(archs, System::X8664Linux);
    let s3 = arch_selection(archs, System::AArch64Linux);
    lemma_concat_contains(s0 + s1 + s2, s3, l);
    lemma_concat_contains(s0 + s1, s2, l);
    lemma_concat_contains(s0, s1, l);
    lemma_arch_labels_contains(
        System::X8664Darwin,
        bucket_spec(arch_count(archs, system_name(System::X8664Darwin)) as int),
        system,
        b,
    );
    lemma_arch_labels_contains(
        System::AArch64Darwin,
        bucket_spec(arch_count(archs, system_name(System::AArch64Darwin)) as int),
        system,
        b,
    );
    lemma_arch_labels_contains(
        System::X8664Linux,
        bucket_spec(arch_count(archs, system_name(System::X8664Linux)) as int),
        system,
        b,
    );
    lemma_arch_labels_contains(
        System::AArch64Linux,
        bucket_spec(arch_count(archs, system_name(System::AArch64Linux)) as int),
        system,
        b,
    );
}

/// What the rebuild count selects for one platform, in terms of how many
/// times that platform's name occurs in the list of rebuilt attributes,
/// wherever those entries stand: the label "10.rebuild-<platform>: 0" when
/// it never occurs, ": 1" when it occurs once, ": 1-10" when 1 to 10 times,
/// ": 11-100", ": 101-500", ": 501-1000", ": 1001-2500", ": 2501-5000" and
/// ": 5001+" for those ranges, and ": 501+" when more than 500 times.
pub proof fn lemma_rebuild_selection_meaning(archs: Seq<Seq<char>>, system: System)
    ensures
        ({
            let n = archs.to_multiset().count(system_name(system)) as int;
            let sel = rebuild_selection(archs);
            let p = "10.rebuild-"@ + system_name(system) + ": "@;
            &&& sel.contains(p + "0"@) <==> n == 0
            &&& sel.contains(p + "1"@) <==> n == 1
            &&& sel.contains(p + "1-10"@) <==> 1 <= n <= 10
            &&& sel.contains(p + "11-100"@) <==> 11 <= n <= 100
            &&& sel.contains(p + "101-500"@) <==> 101 <= n <= 500
            &&& sel.contains(p + "501+"@) <==> n > 500
            &&& sel.contains(p + "501-1000"@) <==> 501 <= n <= 1000
            &&& sel.contains(p + "1001-2500"@) <==> 1001 <= n <= 2500
            &&& sel.contains(p + "2501-5000"@) <==> 2501 <= n <= 5000
            &&& sel.contains(p + "5001+"@) <==> n > 5000
        }),
{
    let a = system_name(system);
    lemma_arch_count_multiplicity(archs, a);
    let n = arch_count(archs, a) as int;
    lemma_bucket_meaning(n);
    lemma_selection_contains(archs, system, "0"@);
    lemma_selection_contains(archs, system, "1"@);
    lemma_selection_contains(archs, system, "1-10"@);
    lemma_selection_contains(archs, system, "11-100"@);
    lemma_selection_contains(archs, system, "101-500"@);
    lemma_selection_contains(archs, system, "501+"@);
    lemma_selection_contains(archs, system, "501-1000"@);
    lemma_selection_contains(archs, system, "1001-2500"@);
    lemma_selection_contains(archs, system, "2501-5000"@);
    lemma_selection_contains(archs, system, "5001+"@);
}

/// The rebuild count does not depend on the order of the rebuilt
/// attributes: two lists with the same platform names, each as often,
/// select the same labels.
pub proof fn lemma_rebuild_selection_order_free(s: Seq<Seq<char>>, t: Seq<Seq<char>>)
    requires
        s.to_multiset() == t.to_multiset(),
    ensures
        rebuild_selection(s) == rebuild_selection(t),
{
    lemma_arch_count_multiplicity(s, system_name(System::X8664Darwin));
    lemma_arch_count_multiplicity(t, system_name(System::X8664Darwin));
    lemma_arch_count_multiplicity(s, system_name(System::AArch64Darwin));
    lemma_arch_count_multiplicity(t, system_name(System::AArch64Darwin));
    lemma_arch_count_multiplicity(s, system_name(System::X8664Linux));
    lemma_arch_count_multiplicity(t, system_name(System::X8664Linux));
    lemma_arch_count_multiplicity(s, system_name(System::AArch64Linux));
    lemma_arch_count_multiplicity(t, system_name(System::AArch64Linux));
}

} // verus!
