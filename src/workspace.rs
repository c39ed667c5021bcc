//! The choices of the workspace driver: which packages to run over, and how
//! loudly.

use vstd::prelude::*;
use crate::types::strings_view;
use crate::text::str_eq;

verus! {

/// The options of the workspace driver.
#[derive(Debug, Clone)]
pub struct Opts {
    pub quiet: bool,
    pub verbose: bool,
    pub version: bool,
    pub packages: Vec<String>,
    pub manifest_path: Option<String>,
    pub doc_stripper_options: Vec<String>,
    pub format_all: bool,
    pub strip: bool,
    pub regenerate: bool,
}

/// How much the driver prints.
#[derive(Debug, Clone, Copy, PartialEq, Eq, Structural)]
pub enum Verbosity {
    Verbose,
    Normal,
    Quiet,
}

impl Verbosity {
    /// The verbosity that the `verbose` and `quiet` flags ask for; none when
    /// both are set, which is an error.
    pub fn from_flags(verbose: bool, quiet: bool) -> (r: Option<Verbosity>)
        ensures
            r == if verbose && quiet {
                None
            } else if verbose {
                Some(Verbosity::Verbose)
            } else if quiet {
                Some(Verbosity::Quiet)
            } else {
                Some(Verbosity::Normal)
            },
    {
        match (verbose, quiet) {
            (false, false) => Some(Verbosity::Normal),
            (false, true) => Some(Verbosity::Quiet),
            (true, false) => Some(Verbosity::Verbose),
            (true, true) => None,
        }
    }
}

/// A build target: the path of its main source file and its kind (`lib`,
/// `bin`, ...). Two targets are the same when their paths are.
#[derive(Debug, Clone)]
pub struct Target {
    pub path: String,
    pub kind: String,
}

impl PartialEq for Target {
    fn eq(&self, other: &Target) -> (r: bool) {
        self.path == other.path
    }
}

impl vstd::std_specs::cmp::PartialEqSpecImpl for Target {
    open spec fn obeys_eq_spec() -> bool {
        true
    }

    open spec fn eq_spec(&self, other: &Target) -> bool {
        self.path@ == other.path@
    }
}

/// Which packages the driver runs over.
#[derive(Debug, Clone)]
pub enum RustdocStripperStrategy {
    /// Every package and its local path dependencies.
    All,
    /// The packages named on the command line.
    Listed(Vec<String>),
    /// The root packages only.
    Root,
}

impl RustdocStripperStrategy {
    pub fn from_opts(opts: &Opts) -> (r: Self)
        ensures
            opts.format_all ==> r is All,
            !opts.format_all && opts.packages@.len() == 0 ==> r is Root,
            !opts.format_all && opts.packages@.len() > 0 ==> r is Listed && strings_view(
                r->Listed_0@,
            ) == strings_view(opts.packages@),
    {
        if opts.format_all {
            RustdocStripperStrategy::All
        } else if opts.packages.len() == 0 {
            RustdocStripperStrategy::Root
        } else {
            RustdocStripperStrategy::Listed(crate::types::clone_strings(&opts.packages))
        }
    }
}

/// A package of the workspace: its name and its targets.
#[derive(Debug, Clone)]
pub struct PackageTargets {
    pub name: String,
    pub targets: Vec<Target>,
}

/// Whether `name` is among `names`.
pub open spec fn names_contain(names: Seq<Seq<char>>, name: Seq<char>) -> bool {
    exists|i: int| 0 <= i < names.len() && names[i] == name
}

/// The names of the packages.
pub open spec fn package_names(pk: Seq<PackageTargets>) -> Seq<Seq<char>> {
    pk.map_values(|p: PackageTargets| p.name@)
}

/// The targets of the first `n` packages that the hit list names, each name
/// taken once, by its first package.
pub open spec fn selected_targets(pk: Seq<PackageTargets>, hl: Seq<Seq<char>>, n: int) -> Seq<
    Seq<char>,
>
    decreases n,
{
    if n <= 0 || n > pk.len() {
        Seq::empty()
    } else {
        selected_targets(pk, hl, n - 1) + if names_contain(hl, pk[n - 1].name@)
            && !names_contain(package_names(pk.subrange(0, n - 1)), pk[n - 1].name@) {
            pk[n - 1].targets@.map_values(|t: Target| t.path@)
        } else {
            Seq::empty()
        }
    }
}

/// The names of the hit list that no package has, in order.
pub open spec fn missing_names(pk: Seq<PackageTargets>, hl: Seq<Seq<char>>) -> Seq<Seq<char>>
    decreases hl.len(),
{
    if hl.len() == 0 {
        Seq::empty()
    } else if names_contain(package_names(pk), hl.last()) {
        missing_names(pk, hl.drop_last())
    } else {
        missing_names(pk, hl.drop_last()).push(hl.last())
    }
}

fn contains_name(names: &Vec<String>, name: &String) -> (r: bool)
    ensures
        r == names_contain(strings_view(names@), name@),
{
    let mut i: usize = 0;
    while i < names.len()
        invariant
            i <= names@.len(),
            forall|j: int| 0 <= j < i ==> #[trigger] names@[j]@ != name@,
        decreases names@.len() - i,
    {
        if names[i] == *name {
            assert(strings_view(names@)[i as int] == name@);
            return true;
        }
        i += 1;
    }
    proof {
        assert forall|j: int| 0 <= j < names@.len() implies strings_view(names@)[j] != name@ by {
            assert(names@[j]@ != name@);
        }
    }
    false
}

fn package_named(pk: &Vec<PackageTargets>, upto: usize, name: &String) -> (r: bool)
    requires
        upto <= pk@.len(),
    ensures
        r == names_contain(package_names(pk@.subrange(0, upto as int)), name@),
{
    let ghost pn = package_names(pk@.subrange(0, upto as int));
    let mut i: usize = 0;
    while i < upto
        invariant
            i <= upto <= pk@.len(),
            pn == package_names(pk@.subrange(0, upto as int)),
            forall|j: int| 0 <= j < i ==> #[trigger] pn[j] != name@,
        decreases upto - i,
    {
        assert(pn[i as int] == pk@[i as int].name@);
        if pk[i].name == *name {
            return true;
        }
        i += 1;
    }
    false
}

/// The targets of the packages that the hit list names, or the names that
/// are no package of the workspace.
pub fn select_hitlist(packages: &Vec<PackageTargets>, hitlist: &Vec<String>) -> (r: Result<
    Vec<Target>,
    Vec<String>,
>)
    ensures
        match r {
            Ok(t) => missing_names(packages@, strings_view(hitlist@)).len() == 0 && t@.map_values(
                |t: Target| t.path@,
            ) == selected_targets(packages@, strings_view(hitlist@), packages@.len() as int),
            Err(m) => missing_names(packages@, strings_view(hitlist@)).len() > 0 && strings_view(
                m@,
            ) == missing_names(packages@, strings_view(hitlist@)),
        },
{
    let ghost hl = strings_view(hitlist@);
    let mut targets: Vec<Target> = Vec::new();
    let mut i: usize = 0;
    while i < packages.len()
        invariant
            i <= packages@.len(),
            hl == strings_view(hitlist@),
            targets@.map_values(|t: Target| t.path@) == selected_targets(packages@, hl, i as int),
        decreases packages@.len() - i,
    {
        let p = &packages[i];
        if contains_name(hitlist, &p.name) && !package_named(packages, i, &p.name) {
            let mut k: usize = 0;
            let ghost base = targets@.map_values(|t: Target| t.path@);
            while k < p.targets.len()
                invariant
                    k <= p.targets@.len(),
                    targets@.map_values(|t: Target| t.path@) == base + p.targets@.subrange(
                        0,
                        k as int,
                    ).map_values(|t: Target| t.path@),
                decreases p.targets@.len() - k,
            {
                let t = Target { path: p.targets[k].path.clone(), kind: p.targets[k].kind.clone() };
                let ghost old_t = targets@;
                targets.push(t);
                assert(targets@.map_values(|t: Target| t.path@) =~= old_t.map_values(
                    |t: Target| t.path@,
                ).push(p.targets@[k as int].path@));
                assert(p.targets@.subrange(0, k + 1).map_values(|t: Target| t.path@) =~= p.targets@.subrange(
                    0,
                    k as int,
                ).map_values(|t: Target| t.path@).push(p.targets@[k as int].path@));
                k += 1;
                assert(targets@.map_values(|t: Target| t.path@) =~= base + p.targets@.subrange(
                    0,
                    k as int,
                ).map_values(|t: Target| t.path@));
            }
            assert(p.targets@.subrange(0, k as int) =~= p.targets@);
        }
        i += 1;
    }
    let mut missing: Vec<String> = Vec::new();
    let mut j: usize = 0;
    let names = package_name_list(packages);
    while j < hitlist.len()
        invariant
            j <= hitlist@.len(),
            hl == strings_view(hitlist@),
            strings_view(names@) == package_names(packages@),
            strings_view(missing@) == missing_names(packages@, hl.subrange(0, j as int)),
        decreases hitlist@.len() - j,
    {
        assert(hl.subrange(0, j + 1).drop_last() =~= hl.subrange(0, j as int));
        assert(hl[j as int] == hitlist@[j as int]@);
        if !contains_name(&names, &hitlist[j]) {
            let ghost before = strings_view(missing@);
            missing.push(hitlist[j].clone());
            assert(strings_view(missing@) =~= before.push(hitlist@[j as int]@));
        }
        j += 1;
    }
    assert(hl.subrange(0, j as int) =~= hl);
    if missing.len() == 0 {
        Ok(targets)
    } else {
        Err(missing)
    }
}

fn package_name_list(packages: &Vec<PackageTargets>) -> (r: Vec<String>)
    ensures
        strings_view(r@) == package_names(packages@),
{
    let mut r: Vec<String> = Vec::new();
    let mut i: usize = 0;
    while i < packages.len()
        invariant
            i <= packages@.len(),
            r@.len() == i,
            forall|j: int| 0 <= j < i ==> #[trigger] r@[j]@ == packages@[j].name@,
        decreases packages@.len() - i,
    {
        r.push(packages[i].name.clone());
        i += 1;
    }
    assert(strings_view(r@) =~= package_names(packages@));
    r
}

} // verus!
