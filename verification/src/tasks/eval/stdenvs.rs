//! The stdenv output paths of each platform, before and after a change, and
//! which platforms' stdenvs the change rebuilds. Evaluating a stdenv is the
//! caller's part: it hands each evaluated output path in.

use vstd::prelude::*;

verus! {

/// The platforms whose stdenv is watched.
#[derive(Debug, Clone, Copy, PartialEq, Eq, Structural)]
pub enum System {
    X8664Darwin,
    AArch64Darwin,
    X8664Linux,
    AArch64Linux,
}

/// Whether an evaluation belongs to the tree before or after the change.
#[derive(Debug, Clone, Copy, PartialEq, Eq, Structural)]
pub enum StdenvFrom {
    Before,
    After,
}

/// The Nix name of a platform.
pub open spec fn system_name(system: System) -> Seq<char> {
    match system {
        System::X8664Darwin => "x86_64-darwin"@,
        System::AArch64Darwin => "aarch64-darwin"@,
        System::X8664Linux => "x86_64-linux"@,
        System::AArch64Linux => "aarch64-linux"@,
    }
}

impl System {
    /// The Nix name of the platform, as handed to the evaluation of its stdenv.
    pub fn nix_system(&self) -> (r: &'static str)
        ensures
            r@ == system_name(*self),
    {
        match self {
            System::X8664Darwin => "x86_64-darwin",
            System::AArch64Darwin => "aarch64-darwin",
            System::X8664Linux => "x86_64-linux",
            System::AArch64Linux => "aarch64-linux",
        }
    }
}

/// The text of an evaluated output path, if the evaluation succeeded.
pub open spec fn output_view(o: Option<String>) -> Option<Seq<char>> {
    match o {
        Some(s) => Some(s@),
        None => None,
    }
}

/// The stdenv output paths recorded so far, per platform, before and after.
#[derive(Debug, PartialEq, Eq)]
pub struct Stdenvs {
    x86_64_linux_stdenv_before: Option<String>,
    x86_64_linux_stdenv_after: Option<String>,
    aarch64_linux_stdenv_before: Option<String>,
    aarch64_linux_stdenv_after: Option<String>,
    x86_64_darwin_stdenv_before: Option<String>,
    x86_64_darwin_stdenv_after: Option<String>,
    aarch64_darwin_stdenv_before: Option<String>,
    aarch64_darwin_stdenv_after: Option<String>,
}

/// The systems that `Stdenvs::changed` reports for the four comparisons, in
/// the order it makes them. The aarch64 platforms are reported under the
/// name of their x86_64 sibling.
pub open spec fn changed_systems(
    x86_64_linux: bool,
    aarch64_linux: bool,
    x86_64_darwin: bool,
    aarch64_darwin: bool,
) -> Seq<System> {
    (if x86_64_linux { seq![System::X8664Linux] } else { Seq::empty() }) + (if aarch64_linux {
        seq![System::X8664Linux]
    } else {
        Seq::empty()
    }) + (if x86_64_darwin { seq![System::X8664Darwin] } else { Seq::empty() }) + (
    if aarch64_darwin {
        seq![System::X8664Darwin]
    } else {
        Seq::empty()
    })
}

/// Whether two recorded outputs are the same path (or both missing).
fn same_output(a: &Option<String>, b: &Option<String>) -> (r: bool)
    ensures
        r == (output_view(*a) == output_view(*b)),
{
    match (a, b) {
        (Some(x), Some(y)) => *x == *y,
        (None, None) => true,
        _ => false,
    }
}

impl Stdenvs {
    /// The recorded output of a platform's stdenv, before or after the change.
    pub closed spec fn output(&self, system: System, from: StdenvFrom) -> Option<Seq<char>> {
        match (system, from) {
            (System::X8664Linux, StdenvFrom::Before) => output_view(self.x86_64_linux_stdenv_before),
            (System::X8664Linux, StdenvFrom::After) => output_view(self.x86_64_linux_stdenv_after),
            (System::AArch64Linux, StdenvFrom::Before) => output_view(
                self.aarch64_linux_stdenv_before,
            ),
            (System::AArch64Linux, StdenvFrom::After) => output_view(
                self.aarch64_linux_stdenv_after,
            ),
            (System::X8664Darwin, StdenvFrom::Before) => output_view(
                self.x86_64_darwin_stdenv_before,
            ),
            (System::X8664Darwin, StdenvFrom::After) => output_view(
                self.x86_64_darwin_stdenv_after,
            ),
            (System::AArch64Darwin, StdenvFrom::Before) => output_view(
                self.aarch64_darwin_stdenv_before,
            ),
            (System::AArch64Darwin, StdenvFrom::After) => output_view(
                self.aarch64_darwin_stdenv_after,
            ),
        }
    }

    /// Whether a platform's stdenv output differs between before and after.
    pub open spec fn differs(&self, system: System) -> bool {
        self.output(system, StdenvFrom::Before) != self.output(system, StdenvFrom::After)
    }

    /// What `changed` reports for this record.
    pub open spec fn changed_spec(&self) -> Seq<System> {
        changed_systems(
            self.differs(System::X8664Linux),
            self.differs(System::AArch64Linux),
            self.differs(System::X8664Darwin),
            self.differs(System::AArch64Darwin),
        )
    }

    /// A record with no output known for any platform.
    pub fn new() -> (r: Stdenvs)
        ensures
            forall|s: System, f: StdenvFrom| r.output(s, f) is None,
    {
        Stdenvs {
            x86_64_linux_stdenv_before: None,
            x86_64_linux_stdenv_after: None,
            aarch64_linux_stdenv_before: None,
            aarch64_linux_stdenv_after: None,
            x86_64_darwin_stdenv_before: None,
            x86_64_darwin_stdenv_after: None,
            aarch64_darwin_stdenv_before: None,
            aarch64_darwin_stdenv_after: None,
        }
    }

    /// Records the output of one platform's stdenv, before or after the
    /// change; `None` stands for an evaluation that failed.
    pub fn identify(&mut self, system: System, from: StdenvFrom, output: Option<String>)
        ensures
            final(self).output(system, from) == output_view(output),
            forall|s: System, f: StdenvFrom|
                !(s == system && f == from) ==> final(self).output(s, f) == old(self).output(s, f),
    {
        match (system, from) {
            (System::X8664Linux, StdenvFrom::Before) => {
                self.x86_64_linux_stdenv_before = output;
            },
            (System::X8664Linux, StdenvFrom::After) => {
                self.x86_64_linux_stdenv_after = output;
            },
            (System::AArch64Linux, StdenvFrom::Before) => {
                self.aarch64_linux_stdenv_before = output;
            },
            (System::AArch64Linux, StdenvFrom::After) => {
                self.aarch64_linux_stdenv_after = output;
            },
            (System::X8664Darwin, StdenvFrom::Before) => {
                self.x86_64_darwin_stdenv_before = output;
            },
            (System::X8664Darwin, StdenvFrom::After) => {
                self.x86_64_darwin_stdenv_after = output;
            },
            (System::AArch64Darwin, StdenvFrom::Before) => {
                self.aarch64_darwin_stdenv_before = output;
            },
            (System::AArch64Darwin, StdenvFrom::After) => {
                self.aarch64_darwin_stdenv_after = output;
            },
        }
    }

    /// Records the outputs of all four platforms before the change.
    pub fn identify_before(
        &mut self,
        x86_64_linux: Option<String>,
        aarch64_linux: Option<String>,
        x86_64_darwin: Option<String>,
        aarch64_darwin: Option<String>,
    )
        ensures
            final(self).output(System::X8664Linux, StdenvFrom::Before) == output_view(x86_64_linux),
            final(self).output(System::AArch64Linux, StdenvFrom::Before) == output_view(
                aarch64_linux,
            ),
            final(self).output(System::X8664Darwin, StdenvFrom::Before) == output_view(
                x86_64_darwin,
            ),
            final(self).output(System::AArch64Darwin, StdenvFrom::Before) == output_view(
                aarch64_darwin,
            ),
            forall|s: System| #[trigger]
                final(self).output(s, StdenvFrom::After) == old(self).output(s, StdenvFrom::After),
    {
        self.identify(System::X8664Linux, StdenvFrom::Before, x86_64_linux);
        self.identify(System::AArch64Linux, StdenvFrom::Before, aarch64_linux);
        self.identify(System::X8664Darwin, StdenvFrom::Before, x86_64_darwin);
        self.identify(System::AArch64Darwin, StdenvFrom::Before, aarch64_darwin);
    }

    /// Records the outputs of all four platforms after the change.
    pub fn identify_after(
        &mut self,
        x86_64_linux: Option<String>,
        aarch64_linux: Option<String>,
        x86_64_darwin: Option<String>,
        aarch64_darwin: Option<String>,
    )
        ensures
            final(self).output(System::X8664Linux, StdenvFrom::After) == output_view(x86_64_linux),
            final(self).output(System::AArch64Linux, StdenvFrom::After) == output_view(
                aarch64_linux,
            ),
            final(self).output(System::X8664Darwin, StdenvFrom::After) == output_view(
                x86_64_darwin,
            ),
            final(self).output(System::AArch64Darwin, StdenvFrom::After) == output_view(
                aarch64_darwin,
            ),
            forall|s: System| #[trigger]
                final(self).output(s, StdenvFrom::Before) == old(self).output(s, StdenvFrom::Before),
    {
        self.identify(System::X8664Linux, StdenvFrom::After, x86_64_linux);
        self.identify(System::AArch64Linux, StdenvFrom::After, aarch64_linux);
        self.identify(System::X8664Darwin, StdenvFrom::After, x86_64_darwin);
        self.identify(System::AArch64Darwin, StdenvFrom::After, aarch64_darwin);
    }

    /// Whether no platform's stdenv output differs between before and after.
    pub fn are_same(&self) -> (r: bool)
        ensures
            r == (self.changed_spec().len() == 0),
            r == (forall|s: System| #[trigger] self.output(s, StdenvFrom::Before) == self.output(
                s,
                StdenvFrom::After,
            )),
    {
        let c = self.changed();
        proof {
            assert(!self.differs(System::X8664Linux) && !self.differs(System::AArch64Linux)
                && !self.differs(System::X8664Darwin) && !self.differs(System::AArch64Darwin)
                ==> forall|s: System| #[trigger]
                self.output(s, StdenvFrom::Before) == self.output(s, StdenvFrom::After)) by {
                assert forall|s: System|
                    !self.differs(System::X8664Linux) && !self.differs(System::AArch64Linux)
                        && !self.differs(System::X8664Darwin) && !self.differs(
                        System::AArch64Darwin,
                    ) implies #[trigger] self.output(s, StdenvFrom::Before) == self.output(
                    s,
                    StdenvFrom::After,
                ) by {
                    match s {
                        System::X8664Darwin => {},
                        System::AArch64Darwin => {},
                        System::X8664Linux => {},
                        System::AArch64Linux => {},
                    }
                }
            }
        }
        c.len() == 0
    }

    /// The systems whose stdenv output differs between before and after.
    pub fn changed(&self) -> (r: Vec<System>)
        ensures
            r@ == self.changed_spec(),
    {
        let mut changed: Vec<System> = Vec::new();
        if !same_output(&self.x86_64_linux_stdenv_before, &self.x86_64_linux_stdenv_after) {
            changed.push(System::X8664Linux);
        }
        if !same_output(&self.aarch64_linux_stdenv_before, &self.aarch64_linux_stdenv_after) {
            changed.push(System::X8664Linux);
        }
        if !same_output(&self.x86_64_darwin_stdenv_before, &self.x86_64_darwin_stdenv_after) {
            changed.push(System::X8664Darwin);
        }
        if !same_output(&self.aarch64_darwin_stdenv_before, &self.aarch64_darwin_stdenv_after) {
            changed.push(System::X8664Darwin);
        }
        assert(changed@ =~= self.changed_spec());
        changed
    }
}

/// What `changed` reports, in terms of the four comparisons alone: first
/// one `X8664Linux` for each Linux platform (x86_64 or aarch64) whose stdenv
/// differs, then one `X8664Darwin` for each Darwin platform whose stdenv
/// differs, and nothing else. Each comparison counts on its own, whatever
/// the others give.
pub proof fn lemma_changed_reports(t: Stdenvs)
    ensures
        ({
            let c = t.changed_spec();
            let linux = (if t.differs(System::X8664Linux) { 1int } else { 0int }) + (if t.differs(
                System::AArch64Linux,
            ) {
                1int
            } else {
                0int
            });
            let darwin = (if t.differs(System::X8664Darwin) { 1int } else { 0int }) + (
            if t.differs(System::AArch64Darwin) {
                1int
            } else {
                0int
            });
            &&& c.len() == linux + darwin
            &&& forall|i: int| 0 <= i < linux ==> c[i] == System::X8664Linux
            &&& forall|i: int| linux <= i < c.len() ==> c[i] == System::X8664Darwin
        }),
{
    let b0 = t.differs(System::X8664Linux);
    let b1 = t.differs(System::AArch64Linux);
    let b2 = t.differs(System::X8664Darwin);
    let b3 = t.differs(System::AArch64Darwin);
    let l: Seq<System> = seq![System::X8664Linux];
    let d: Seq<System> = seq![System::X8664Darwin];
    let e: Seq<System> = Seq::empty();
    let c = changed_systems(b0, b1, b2, b3);
    let lin = (if b0 { l } else { e }) + (if b1 { l } else { e });
    let dar = (if b2 { d } else { e }) + (if b3 { d } else { e });
    assert(c =~= lin + dar);
    assert(forall|i: int| 0 <= i < lin.len() ==> lin[i] == System::X8664Linux);
    assert(forall|i: int| 0 <= i < dar.len() ==> dar[i] == System::X8664Darwin);
    assert forall|i: int| 0 <= i < lin.len() implies c[i] == System::X8664Linux by {
        assert(c[i] == lin[i]);
    }
    assert forall|i: int| lin.len() <= i < c.len() implies c[i] == System::X8664Darwin by {
        assert(c[i] == dar[i - lin.len()]);
    }
}

} // verus!
