//! The order in which the sources of a package's license documents are tried.
//!
//! Each step is a source; the caller consults it and reports whether it gave
//! any document. An override, or a license file that the package declares,
//! ends the chain whatever it gave; any other source ends it only when it
//! gave something.
use vstd::prelude::*;
use crate::config::Config;
use crate::package::{Package, PackageView};

verus! {

/// A source of license documents, in the order they are tried, and the end
/// of the chain.
#[derive(Clone, Copy, Debug, PartialEq, Eq, Structural)]
pub enum Step {
    /// Texts or URLs that the configuration gives for the package.
    Override,
    /// The license file that the package declares.
    LicenseFile,
    /// License-named files in the package's own directory.
    PackageDir,
    /// License-named files in a clone of the package's repository.
    Repository,
    /// The package index's source listing of the exact version.
    IndexExact,
    /// The package index's source listing of the latest version.
    IndexLatest,
    /// The file list of the repository's home page.
    Hosting,
    /// Canonical texts of the identifiers of the license expression.
    Corpus,
    /// Nothing more is tried.
    Finished,
}

/// The position of a step in the chain.
pub open spec fn rank(s: Step) -> nat {
    match s {
        Step::Override => 0,
        Step::LicenseFile => 1,
        Step::PackageDir => 2,
        Step::Repository => 3,
        Step::IndexExact => 4,
        Step::IndexLatest => 5,
        Step::Hosting => 6,
        Step::Corpus => 7,
        Step::Finished => 8,
    }
}

/// The step at position `k` of the chain.
pub open spec fn step_at(k: nat) -> Step {
    if k == 0 {
        Step::Override
    } else if k == 1 {
        Step::LicenseFile
    } else if k == 2 {
        Step::PackageDir
    } else if k == 3 {
        Step::Repository
    } else if k == 4 {
        Step::IndexExact
    } else if k == 5 {
        Step::IndexLatest
    } else if k == 6 {
        Step::Hosting
    } else if k == 7 {
        Step::Corpus
    } else {
        Step::Finished
    }
}

/// A step that asks a remote service.
pub open spec fn is_remote(s: Step) -> bool {
    s == Step::IndexExact || s == Step::IndexLatest || s == Step::Hosting
}

/// Whether step `s` can be taken for package `p`; `overridden` tells whether
/// the configuration overrides its license.
pub open spec fn applies(s: Step, p: PackageView, overridden: bool) -> bool {
    match s {
        Step::Override => overridden,
        Step::LicenseFile => p.license_file is Some,
        Step::Repository => p.repository is Some,
        Step::Hosting => p.repository is Some,
        Step::Corpus => p.license is Some,
        _ => true,
    }
}

/// The first step at position `k` or later that can be taken.
pub open spec fn first_from(k: nat, p: PackageView, overridden: bool) -> Step
    decreases 8 - k,
{
    if k >= 8 {
        Step::Finished
    } else if applies(step_at(k), p, overridden) {
        step_at(k)
    } else {
        first_from(k + 1, p, overridden)
    }
}

/// The step after `s`, given whether `s` gave any document.
pub open spec fn after(s: Step, found: bool, p: PackageView, overridden: bool) -> Step {
    if s == Step::Override || s == Step::LicenseFile || s == Step::Finished || found {
        Step::Finished
    } else {
        first_from(rank(s) + 1, p, overridden)
    }
}

/// The steps taken for package `p` from step `s` on when the sources report
/// `found`, one entry per consulted step.
pub open spec fn steps_from(s: Step, found: Seq<bool>, p: PackageView, overridden: bool) -> Seq<Step>
    decreases found.len(),
{
    if s == Step::Finished || found.len() == 0 {
        seq![s]
    } else {
        seq![s] + steps_from(after(s, found[0], p, overridden), found.drop_first(), p, overridden)
    }
}

/// The steps taken for package `p` when the sources report `found`.
pub open spec fn steps(found: Seq<bool>, p: PackageView, overridden: bool) -> Seq<Step> {
    steps_from(first_from(0, p, overridden), found, p, overridden)
}

fn step_of(k: u8) -> (r: Step)
    requires
        k <= 8,
    ensures
        r == step_at(k as nat),
{
    if k == 0 {
        Step::Override
    } else if k == 1 {
        Step::LicenseFile
    } else if k == 2 {
        Step::PackageDir
    } else if k == 3 {
        Step::Repository
    } else if k == 4 {
        Step::IndexExact
    } else if k == 5 {
        Step::IndexLatest
    } else if k == 6 {
        Step::Hosting
    } else if k == 7 {
        Step::Corpus
    } else {
        Step::Finished
    }
}

fn rank_of(s: Step) -> (r: u8)
    ensures
        r as nat == rank(s),
{
    match s {
        Step::Override => 0,
        Step::LicenseFile => 1,
        Step::PackageDir => 2,
        Step::Repository => 3,
        Step::IndexExact => 4,
        Step::IndexLatest => 5,
        Step::Hosting => 6,
        Step::Corpus => 7,
        Step::Finished => 8,
    }
}

fn step_applies(s: Step, p: &Package, overridden: bool) -> (r: bool)
    ensures
        r == applies(s, p@, overridden),
{
    match s {
        Step::Override => overridden,
        Step::LicenseFile => p.license_file.is_some(),
        Step::Repository => p.repository.is_some(),
        Step::Hosting => p.repository.is_some(),
        Step::Corpus => p.license.is_some(),
        _ => true,
    }
}

/// The first step that can be taken at position `k` or later.
fn first_step_from(k: u8, p: &Package, overridden: bool) -> (r: Step)
    requires
        k <= 8,
    ensures
        r == first_from(k as nat, p@, overridden),
{
    let mut j: u8 = k;
    while j < 8
        invariant
            k <= j <= 8,
            first_from(k as nat, p@, overridden) == first_from(j as nat, p@, overridden),
        decreases 8 - j,
    {
        let s = step_of(j);
        if step_applies(s, p, overridden) {
            return s;
        }
        j = j + 1;
    }
    Step::Finished
}

/// The first source to consult for package `p`.
pub fn first_step(p: &Package, config: &Config) -> (r: Step)
    ensures
        r == first_from(0, p@, config.overridden(p.name@)),
{
    let overridden = config.has_override(p.name.as_str());
    first_step_from(0, p, overridden)
}

/// The source to consult after `s`, which gave documents if `found`.
pub fn next_step(s: Step, found: bool, p: &Package, config: &Config) -> (r: Step)
    ensures
        r == after(s, found, p@, config.overridden(p.name@)),
{
    if s == Step::Override || s == Step::LicenseFile || s == Step::Finished || found {
        Step::Finished
    } else {
        let overridden = config.has_override(p.name.as_str());
        first_step_from(rank_of(s) + 1, p, overridden)
    }
}

/// An overridden package is resolved by its override alone: whatever the
/// sources report, the chain takes the override step and then stops, so no
/// remote service is asked about it.
pub proof fn override_asks_no_remote(found: Seq<bool>, p: PackageView)
    ensures
        steps(found, p, true)[0] == Step::Override,
        steps(found, p, true).len() <= 2,
        forall|k: int| 0 <= k < steps(found, p, true).len() ==> !is_remote(#[trigger] steps(found, p, true)[k]),
{
    assert(first_from(0, p, true) == Step::Override);
    if found.len() > 0 {
        assert(after(Step::Override, found[0], p, true) == Step::Finished);
        assert(steps_from(Step::Finished, found.drop_first(), p, true) == seq![Step::Finished]);
    }
}

/// Without an override or a declared license file, the chain tries the
/// package directory, its repository if it has one, the exact version at the
/// index, and only when that gave nothing the latest version.
pub proof fn index_latest_only_after_exact_gave_nothing(p: PackageView, overridden: bool, found: bool)
    ensures
        after(Step::IndexExact, found, p, overridden) == if found {
            Step::Finished
        } else {
            Step::IndexLatest
        },
        !overridden && p.license_file is None ==> first_from(0, p, overridden) == Step::PackageDir,
        after(Step::PackageDir, false, p, overridden) == if p.repository is Some {
            Step::Repository
        } else {
            Step::IndexExact
        },
        after(Step::Repository, false, p, overridden) == Step::IndexExact,
{
    assert(first_from(5, p, overridden) == Step::IndexLatest);
    assert(first_from(4, p, overridden) == Step::IndexExact);
    assert(first_from(2, p, overridden) == Step::PackageDir);
    if !overridden && p.license_file is None {
        assert(first_from(1, p, overridden) == Step::PackageDir);
    }
}

/// Along any run of the chain, the latest version at the index is consulted
/// only right after the exact version, and only when that gave nothing.
pub proof fn latest_follows_empty_exact(found: Seq<bool>, p: PackageView, overridden: bool, k: int)
    requires
        0 < k < steps(found, p, overridden).len(),
        steps(found, p, overridden)[k] == Step::IndexLatest,
    ensures
        steps(found, p, overridden)[k - 1] == Step::IndexExact,
        !found[k - 1],
{
    lemma_steps_from_latest(first_from(0, p, overridden), found, p, overridden, k);
}

proof fn lemma_steps_from_latest(s: Step, found: Seq<bool>, p: PackageView, overridden: bool, k: int)
    requires
        0 < k < steps_from(s, found, p, overridden).len(),
        steps_from(s, found, p, overridden)[k] == Step::IndexLatest,
    ensures
        steps_from(s, found, p, overridden)[k - 1] == Step::IndexExact,
        !found[k - 1],
    decreases found.len(),
{
    lemma_steps_len(s, found, p, overridden);
    let t = after(s, found[0], p, overridden);
    let rest = steps_from(t, found.drop_first(), p, overridden);
    assert(steps_from(s, found, p, overridden) == seq![s] + rest);
    if k == 1 {
        assert(rest[0] == t);
        assert(t == Step::IndexLatest);
        if s != Step::IndexExact || found[0] {
            lemma_first_from_latest(rank(s) + 1, p, overridden);
        }
    } else {
        lemma_steps_from_latest(t, found.drop_first(), p, overridden, k - 1);
        assert(found.drop_first()[k - 2] == found[k - 1]);
        assert(rest[k - 2] == steps_from(s, found, p, overridden)[k - 1]);
    }
}

proof fn lemma_steps_len(s: Step, found: Seq<bool>, p: PackageView, overridden: bool)
    ensures
        1 <= steps_from(s, found, p, overridden).len() <= found.len() + 1,
    decreases found.len(),
{
    if s != Step::Finished && found.len() > 0 {
        lemma_steps_len(after(s, found[0], p, overridden), found.drop_first(), p, overridden);
    }
}

proof fn lemma_first_from_latest(k: nat, p: PackageView, overridden: bool)
    requires
        first_from(k, p, overridden) == Step::IndexLatest,
    ensures
        k == 5,
    decreases 8 - k,
{
    if k < 8 && !applies(step_at(k), p, overridden) {
        lemma_first_from_latest(k + 1, p, overridden);
    }
}

} // verus!
