//! What the files of the store, the diff cache and the `[metadata.vet]` tables hold.
//!
//! `T` stands for the tables that are carried along and never looked into: criteria, policies,
//! the mapping of imported criteria.
use crate::sorted::Ordered;
use crate::stable_map::{MapKey, StableMap};
use crate::version;
use crate::version::{Order, Version, VersionView};
use vstd::prelude::*;

verus! {

/// The view of a string that may be missing.
pub open spec fn opt_text(s: Option<String>) -> Option<Seq<char>> {
    match s {
        Some(t) => Some(t@),
        None => None,
    }
}

/// What a delta is made of.
#[verifier::ext_equal]
pub struct DeltaView {
    pub from: VersionView,
    pub to: VersionView,
}

/// The step from one version of a package to another.
#[derive(Debug)]
pub struct Delta {
    pub from: Version,
    pub to: Version,
}

impl View for Delta {
    type V = DeltaView;

    open spec fn view(&self) -> DeltaView {
        DeltaView { from: self.from@, to: self.to@ }
    }
}

impl MapKey for Delta {
    fn same_key(&self, other: &Delta) -> (r: bool) {
        self.from.same(&other.from) && self.to.same(&other.to)
    }
}

impl Clone for Delta {
    fn clone(&self) -> (r: Delta)
        ensures
            r@ == self@,
    {
        Delta { from: self.from.clone(), to: self.to.clone() }
    }
}

/// `a` comes before `b`: by the version that it starts from, and then by the one that it leads
/// to.
pub open spec fn delta_before(a: DeltaView, b: DeltaView) -> bool {
    version::before(a.from, b.from) || (a.from == b.from && version::before(a.to, b.to))
}

impl Ordered for Delta {
    open spec fn before(a: DeltaView, b: DeltaView) -> bool {
        delta_before(a, b)
    }

    proof fn one_way(a: DeltaView, b: DeltaView) {
    }

    fn stands(&self, other: &Delta) -> (r: Order) {
        match self.from.order(&other.from) {
            Order::Same => self.to.order(&other.to),
            order => order,
        }
    }
}

/// What a diffstat is made of.
#[verifier::ext_equal]
pub struct DiffStatView {
    pub raw: Seq<char>,
    pub count: u64,
}

/// The size of a diff: what was reported of it, and how many lines were added or removed.
#[derive(Debug)]
pub struct DiffStat {
    pub raw: String,
    pub count: u64,
}

impl View for DiffStat {
    type V = DiffStatView;

    open spec fn view(&self) -> DiffStatView {
        DiffStatView { raw: self.raw@, count: self.count }
    }
}

impl Clone for DiffStat {
    fn clone(&self) -> (r: DiffStat)
        ensures
            r@ == self@,
    {
        DiffStat { raw: self.raw.clone(), count: self.count }
    }
}

/// The diffstats that are known, by package and delta.
pub type DiffCache = StableMap<String, StableMap<Delta, DiffStat>>;

/// What an unaudited dependency is made of.
#[verifier::ext_equal]
pub struct UnauditedView {
    pub version: VersionView,
    pub notes: Option<Seq<char>>,
    pub suggest: bool,
    pub criteria: Seq<char>,
}

/// A version of a dependency that is accepted without an audit.
#[derive(Debug)]
pub struct UnauditedDependency {
    pub version: Version,
    pub notes: Option<String>,
    /// Whether auditing this version may be suggested.
    pub suggest: bool,
    pub criteria: String,
}

impl View for UnauditedDependency {
    type V = UnauditedView;

    open spec fn view(&self) -> UnauditedView {
        UnauditedView {
            version: self.version@,
            notes: opt_text(self.notes),
            suggest: self.suggest,
            criteria: self.criteria@,
        }
    }
}

/// What an audit vouches for.
pub enum AuditKind<T> {
    /// A whole version.
    Full { version: Version, dependency_criteria: StableMap<String, T> },
    /// The changes from one version to another.
    Delta { delta: Delta, dependency_criteria: StableMap<String, T> },
}

/// One audit of a package.
pub struct AuditEntry<T> {
    pub kind: AuditKind<T>,
    pub criteria: String,
    pub who: Option<String>,
    pub notes: Option<String>,
}

/// The audits file: the criteria, and the audits of each package.
pub struct AuditsFile<T> {
    pub criteria: StableMap<String, T>,
    pub audits: StableMap<String, Vec<AuditEntry<T>>>,
}

/// Where the audits of another project are found.
pub struct RemoteImport<T> {
    pub url: String,
    pub extra: T,
}

/// The config file.
pub struct ConfigFile<T> {
    pub default_criteria: String,
    pub imports: StableMap<String, RemoteImport<T>>,
    pub unaudited: StableMap<String, Vec<UnauditedDependency>>,
    pub policy: StableMap<String, T>,
}

/// The imports lock: the audits of other projects, by the name of the import.
pub struct ImportsFile<T> {
    pub audits: StableMap<String, AuditsFile<T>>,
}

/// The views of a list of unaudited dependencies.
pub open spec fn unaudited_views(s: Seq<UnauditedDependency>) -> Seq<UnauditedView> {
    s.map_values(|d: UnauditedDependency| d@)
}

} // verus!
