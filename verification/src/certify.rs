//! Recording that a version of a package, or the changes between two versions, were reviewed.
use crate::format::{AuditEntry, AuditKind, AuditsFile, ConfigFile, Delta};
use crate::metadata;
use crate::metadata::Metadata;
use crate::sorted;
use crate::stable_map;
use crate::stable_map::StableMap;
use crate::text;
use crate::version;
use crate::version::{Version, VersionView};
use vstd::prelude::*;
use vstd::string::*;

verus! {

/// The view of a version that may be missing.
pub open spec fn opt_version(v: Option<Version>) -> Option<VersionView> {
    match v {
        Some(w) => Some(w@),
        None => None,
    }
}

/// Why an audit was not recorded.
#[derive(Clone, Copy, PartialEq, Eq, Debug, Structural)]
pub enum CertifyError {
    /// The first version is not a version.
    Version1,
    /// The second version is not a version.
    Version2,
    /// The package is not one of the packages from crates.io.
    NotForeign,
}

/// The audit is one of the whole version `from` where there is no `to`, and else one of the
/// changes from `from` to `to`; it asks nothing of the dependencies.
pub open spec fn audits_versions<T>(
    kind: AuditKind<T>,
    from: VersionView,
    to: Option<VersionView>,
) -> bool {
    match (kind, to) {
        (AuditKind::Full { version, dependency_criteria }, None) => version@ == from
            && dependency_criteria@.len() == 0,
        (AuditKind::Delta { delta, dependency_criteria }, Some(to)) => delta.from@ == from
            && delta.to@ == to && dependency_criteria@.len() == 0,
        _ => false,
    }
}

/// What is recorded for a review of `from`, or of the changes from `from` to `to`.
pub open spec fn is_new_audit<T>(
    entry: AuditEntry<T>,
    criteria: Seq<char>,
    from: VersionView,
    to: Option<VersionView>,
) -> bool {
    &&& audits_versions(entry.kind, from, to)
    &&& entry.criteria@ == criteria
    &&& crate::format::opt_text(entry.who) == Some("?TODO?"@)
    &&& crate::format::opt_text(entry.notes) == Some("?TODO?"@)
}

/// `after` is `before` with one audit more, at the end of those of `package`.
pub open spec fn one_audit_more<T>(
    before: AuditsFile<T>,
    after: AuditsFile<T>,
    package: Seq<char>,
    criteria: Seq<char>,
    from: VersionView,
    to: Option<VersionView>,
) -> bool {
    &&& after.criteria == before.criteria
    &&& exists|entry: AuditEntry<T>| #[trigger]
        is_new_audit(entry, criteria, from, to) && stable_map::pushed(
            before.audits@,
            after.audits@,
            package,
            entry,
        )
}

/// The name is that of a package from crates.io.
pub open spec fn is_foreign(metadata: Metadata, package: Seq<char>) -> bool {
    metadata::names(metadata::foreign(metadata.packages@)).contains(package)
}

/// Whether a package from crates.io has the given name.
pub fn is_foreign_package(metadata: &Metadata, package: &str) -> (r: bool)
    ensures
        r == is_foreign(*metadata, package@),
{
    let packages = metadata::foreign_packages(metadata);
    let ghost all = metadata::foreign(metadata.packages@);
    let mut i: usize = 0;
    while i < packages.len()
        invariant
            i <= packages@.len(),
            all == metadata::foreign(metadata.packages@),
            metadata::referred(packages@) == all,
            forall|j: int| 0 <= j < i ==> metadata::names(all)[j] != package@,
        decreases packages@.len() - i,
    {
        assert(metadata::referred(packages@)[i as int] == *packages@[i as int]);
        assert(metadata::names(all)[i as int] == all[i as int].name@);
        if text::same_text(packages[i].name.as_str(), package) {
            assert(metadata::names(all)[i as int] == package@);
            return true;
        }
        i = i + 1;
    }
    assert(metadata::names(all).len() == packages@.len());
    false
}

/// Records a review of the version `from`, or of the changes from `from` to `to`.
pub fn certify<T>(
    audits: &mut AuditsFile<T>,
    config: &ConfigFile<T>,
    metadata: &Metadata,
    package: &str,
    from: Version,
    to: Option<Version>,
) -> (r: Result<(), CertifyError>)
    ensures
        r is Ok == is_foreign(*metadata, package@),
        r matches Err(e) ==> e == CertifyError::NotForeign && *final(audits) == *old(audits),
        r is Ok ==> one_audit_more(
            *old(audits),
            *final(audits),
            package@,
            config.default_criteria@,
            from@,
            opt_version(to),
        ),
        r is Ok ==> {
            let list = stable_map::value_of(final(audits).audits@, package@)@;
            &&& stable_map::has_key(final(audits).audits@, package@)
            &&& list.len() > 0
            &&& list.last().criteria@ == config.default_criteria@
            &&& match (list.last().kind, to) {
                (AuditKind::Full { version, .. }, None) => version@ == from@,
                (AuditKind::Delta { delta, .. }, Some(to)) => delta.from@ == from@ && delta.to@
                    == to@,
                _ => false,
            }
        },
{
    if !is_foreign_package(metadata, package) {
        return Err(CertifyError::NotForeign);
    }
    let ghost from_view = from@;
    let ghost to_view = opt_version(to);
    let kind = match to {
        Some(to) => AuditKind::Delta {
            delta: Delta { from, to },
            dependency_criteria: StableMap::new(),
        },
        None => AuditKind::Full { version: from, dependency_criteria: StableMap::new() },
    };
    let entry = AuditEntry {
        kind,
        criteria: config.default_criteria.clone(),
        who: Some("?TODO?".to_owned()),
        notes: Some("?TODO?".to_owned()),
    };
    assert(is_new_audit(entry, config.default_criteria@, from_view, to_view));
    proof {
        use_type_invariant(&audits.audits);
    }
    audits.audits.push_at(package.to_owned(), entry);
    proof {
        use_type_invariant(&audits.audits);
        law_audits_are_kept(
            *old(audits),
            *audits,
            package@,
            config.default_criteria@,
            from_view,
            to_view,
            package@,
        );
        law_new_audit_tells_what_was_reviewed(
            *old(audits),
            *audits,
            package@,
            config.default_criteria@,
            from_view,
            to_view,
        );
    }
    Ok(())
}

/// `from` and `to` are the versions that the texts are read as.
pub open spec fn written_as(
    from: VersionView,
    to: Option<VersionView>,
    from_text: Seq<char>,
    to_text: Option<Seq<char>>,
) -> bool {
    &&& from.valid() && from.text() == from_text
    &&& match (to, to_text) {
        (Some(v), Some(t)) => v.valid() && v.text() == t,
        (None, None) => true,
        _ => false,
    }
}

/// Records a review of the versions that are written as `version1` and `version2`.
pub fn cmd_certify<T>(
    audits: &mut AuditsFile<T>,
    config: &ConfigFile<T>,
    metadata: &Metadata,
    package: &str,
    version1: &str,
    version2: Option<&str>,
) -> (r: Result<(), CertifyError>)
    requires
        version::is_readable(version1@),
        version2 matches Some(t) ==> version::is_readable(t@),
    ensures
        (r == Err::<(), CertifyError>(CertifyError::Version1)) == !version::is_version_text(
            version1@,
        ),
        (r == Err::<(), CertifyError>(CertifyError::Version2)) == (version::is_version_text(
            version1@,
        ) && version2 is Some && !version::is_version_text(version2->0@)),
        r is Ok == (version::is_version_text(version1@) && (version2 matches Some(t)
            ==> version::is_version_text(t@)) && is_foreign(*metadata, package@)),
        (r == Err::<(), CertifyError>(CertifyError::NotForeign)) == (version::is_version_text(
            version1@,
        ) && (version2 matches Some(t) ==> version::is_version_text(t@)) && !is_foreign(
            *metadata,
            package@,
        )),
        r is Err ==> *final(audits) == *old(audits),
        r is Ok ==> exists|from: VersionView, to: Option<VersionView>| #[trigger]
            written_as(from, to, version1@, text::opt_str(version2)) && one_audit_more(
                *old(audits),
                *final(audits),
                package@,
                config.default_criteria@,
                from,
                to,
            ),
        r is Ok ==> {
            let list = stable_map::value_of(final(audits).audits@, package@)@;
            &&& stable_map::has_key(final(audits).audits@, package@)
            &&& list.len() > 0
            &&& list.last().criteria@ == config.default_criteria@
            &&& match (list.last().kind, version2) {
                (AuditKind::Full { version, .. }, None) => version@.valid() && version@.text()
                    == version1@,
                (AuditKind::Delta { delta, .. }, Some(to)) => delta.from@.valid()
                    && delta.from@.text() == version1@ && delta.to@.valid() && delta.to@.text()
                    == to@,
                _ => false,
            }
        },
{
    let from = match Version::parse(version1) {
        Some(v) => v,
        None => return Err(CertifyError::Version1),
    };
    let to = match version2 {
        Some(t) => match Version::parse(t) {
            Some(v) => Some(v),
            None => return Err(CertifyError::Version2),
        },
        None => None,
    };
    assert(written_as(from@, opt_version(to), version1@, text::opt_str(version2)));
    certify(audits, config, metadata, package, from, to)
}

/// No audit is lost: the audits of every package are still there, in the same order, and only
/// the package that was reviewed has one more, at the end.
pub proof fn law_audits_are_kept<T>(
    before: AuditsFile<T>,
    after: AuditsFile<T>,
    package: Seq<char>,
    criteria: Seq<char>,
    from: VersionView,
    to: Option<VersionView>,
    other: Seq<char>,
)
    requires
        stable_map::unique_keys(before.audits@),
        stable_map::unique_keys(after.audits@),
        one_audit_more(before, after, package, criteria, from, to),
    ensures
        stable_map::has_key(after.audits@, other) == (other == package || stable_map::has_key(
            before.audits@,
            other,
        )),
        other != package && stable_map::has_key(before.audits@, other) ==> stable_map::value_of(
            after.audits@,
            other,
        ) == stable_map::value_of(before.audits@, other),
        ({
            let list = stable_map::value_of(after.audits@, package)@;
            &&& list.len() > 0
            &&& is_new_audit(list.last(), criteria, from, to)
            &&& list.drop_last() == (if stable_map::has_key(before.audits@, package) {
                stable_map::value_of(before.audits@, package)@
            } else {
                seq![]
            })
        }),
{
    let b = before.audits@;
    let a = after.audits@;
    let entry = choose|entry: AuditEntry<T>| #[trigger]
        is_new_audit(entry, criteria, from, to) && stable_map::pushed(b, a, package, entry);
    let at: int = if stable_map::has_key(b, package) {
        stable_map::key_index(b, package)
    } else {
        b.len() as int
    };
    assert forall|j: int| 0 <= j < b.len() && j != at implies #[trigger] a[j] == b[j] by {
        if !stable_map::has_key(b, package) {
            assert(a.drop_last()[j] == b[j]);
        }
    }
    assert(a[at].0 == package);
    stable_map::lemma_key_index(a, at);
    let list = a[at].1@;
    assert(list.last() == entry);
    if stable_map::has_key(b, package) {
        assert(list.drop_last() == b[at].1@);
    } else {
        assert(list.drop_last() == Seq::<AuditEntry<T>>::empty());
    }
    if other != package && stable_map::has_key(b, other) {
        let i = stable_map::key_index(b, other);
        assert(b[i].0 == other);
        assert(i != at);
        assert(a[i] == b[i]);
        stable_map::lemma_key_index(a, i);
    }
    if other != package && stable_map::has_key(a, other) {
        let i = stable_map::key_index(a, other);
        assert(a[i].0 == other);
        assert(i != at);
        assert(b[i].0 == other);
    }
}

/// The audit that is added stands last among those of the package. It vouches for the criteria
/// that were asked for, and for the version that was reviewed, or for the changes from the one
/// version to the other, in this direction; of the dependencies it asks nothing.
pub proof fn law_new_audit_tells_what_was_reviewed<T>(
    before: AuditsFile<T>,
    after: AuditsFile<T>,
    package: Seq<char>,
    criteria: Seq<char>,
    from: VersionView,
    to: Option<VersionView>,
)
    requires
        stable_map::unique_keys(before.audits@),
        stable_map::unique_keys(after.audits@),
        one_audit_more(before, after, package, criteria, from, to),
    ensures
        stable_map::has_key(after.audits@, package),
        stable_map::value_of(after.audits@, package)@.len() == (if stable_map::has_key(
            before.audits@,
            package,
        ) {
            stable_map::value_of(before.audits@, package)@.len()
        } else {
            0
        }) + 1,
        ({
            let entry = stable_map::value_of(after.audits@, package)@.last();
            &&& criteria == entry.criteria@
            &&& entry.who is Some && entry.who->0@ == "?TODO?"@
            &&& entry.notes is Some && entry.notes->0@ == "?TODO?"@
            &&& to is None ==> (entry.kind matches AuditKind::Full { version, dependency_criteria }
                && version@ == from && dependency_criteria@.len() == 0)
            &&& to matches Some(to) ==> (entry.kind matches AuditKind::Delta {
                delta,
                dependency_criteria,
            } && delta.from@ == from && delta.to@ == to && dependency_criteria@.len() == 0)
        }),
        after.criteria == before.criteria,
{
    law_audits_are_kept(before, after, package, criteria, from, to, package);
}

/// A name is that of a foreign package exactly where some package has it and comes from the
/// registry index of crates.io.
pub proof fn law_foreign_name_is_of_a_package(metadata: &Metadata, package: &str, r: bool)
    requires
        call_ensures(is_foreign_package, (metadata, package), r),
    ensures
        r == exists|k: int|
            0 <= k < metadata.packages@.len() && (#[trigger] metadata.packages@[k]).name@
                == package@ && (metadata.packages@[k].source matches Some(s) && s@
                == "registry+https://github.com/rust-lang/crates.io-index"@),
{
    let all = metadata.packages@;
    let mine = metadata::foreign(all);
    let pred = |p: metadata::Package| metadata::PackageExt::third_party(&p);
    let at = sorted::lemma_filter_picks(all, pred);
    let by_pred = |k: int| pred(all[k]);
    assert(mine == all.filter(pred));
    if r {
        let i = choose|i: int|
            0 <= i < metadata::names(mine).len() && metadata::names(mine)[i] == package@;
        assert(mine[i] == all[at[i]]);
        assert(by_pred(at[i]));
        assert(all[at[i]].name@ == package@);
    }
    if exists|k: int|
        0 <= k < all.len() && (#[trigger] all[k]).name@ == package@ && (
        all[k].source matches Some(s) && s@
            == "registry+https://github.com/rust-lang/crates.io-index"@) {
        let k = choose|k: int|
            0 <= k < all.len() && (#[trigger] all[k]).name@ == package@ && (
            all[k].source matches Some(s) && s@
                == "registry+https://github.com/rust-lang/crates.io-index"@);
        assert(by_pred(k));
        let i = choose|i: int| 0 <= i < at.len() && at[i] == k;
        assert(mine[i] == all[k]);
        assert(metadata::names(mine)[i] == package@);
    }
}

/// Recording a review succeeds exactly for foreign packages. It adds one audit at the end of those
/// of the package, with the default criteria of the config and the versions that were reviewed,
/// and leaves the audits of every other package as they were; where it fails, everything stays.
pub proof fn law_review_is_recorded<T>(
    config: &ConfigFile<T>,
    metadata: &Metadata,
    package: &str,
    from: Version,
    to: Option<Version>,
    r: Result<(), CertifyError>,
    other: Seq<char>,
)
    ensures
        forall|audits: &mut AuditsFile<T>| #[trigger]
            call_ensures(certify::<T>, (audits, config, metadata, package, from, to), r)
                && stable_map::unique_keys((*audits).audits@) && stable_map::unique_keys(
                (*final(audits)).audits@,
            ) ==> {
                let before = (*audits).audits@;
                let after = (*final(audits)).audits@;
                let list = stable_map::value_of(after, package@)@;
                &&& r is Ok == is_foreign(*metadata, package@)
                &&& r is Err ==> *final(audits) == *audits
                &&& r is Ok ==> list.len() > 0 && list.last().criteria@ == config.default_criteria@
                    && (match (list.last().kind, to) {
                    (AuditKind::Full { version, dependency_criteria }, None) => version@ == from@
                        && dependency_criteria@.len() == 0,
                    (AuditKind::Delta { delta, dependency_criteria }, Some(to)) => delta.from@
                        == from@ && delta.to@ == to@ && dependency_criteria@.len() == 0,
                    _ => false,
                })
                &&& r is Ok && stable_map::has_key(before, package@) ==> list.drop_last()
                    == stable_map::value_of(before, package@)@
                &&& r is Ok && !stable_map::has_key(before, package@) ==> list.len() == 1
                &&& r is Ok && other != package@ && stable_map::has_key(before, other)
                    ==> stable_map::has_key(after, other) && stable_map::value_of(after, other)
                    == stable_map::value_of(before, other)
                &&& r is Ok ==> (*final(audits)).criteria == (*audits).criteria
            },
{
    assert forall|audits: &mut AuditsFile<T>| #[trigger]
        call_ensures(certify::<T>, (audits, config, metadata, package, from, to), r)
            && stable_map::unique_keys((*audits).audits@) && stable_map::unique_keys(
            (*final(audits)).audits@,
        ) implies {
        let before = (*audits).audits@;
        let after = (*final(audits)).audits@;
        let list = stable_map::value_of(after, package@)@;
        &&& r is Ok == is_foreign(*metadata, package@)
        &&& r is Err ==> *final(audits) == *audits
        &&& r is Ok ==> list.len() > 0 && list.last().criteria@ == config.default_criteria@ && (
        match (list.last().kind, to) {
            (AuditKind::Full { version, dependency_criteria }, None) => version@ == from@
                && dependency_criteria@.len() == 0,
            (AuditKind::Delta { delta, dependency_criteria }, Some(to)) => delta.from@ == from@
                && delta.to@ == to@ && dependency_criteria@.len() == 0,
            _ => false,
        })
        &&& r is Ok && stable_map::has_key(before, package@) ==> list.drop_last()
            == stable_map::value_of(before, package@)@
        &&& r is Ok && !stable_map::has_key(before, package@) ==> list.len() == 1
        &&& r is Ok && other != package@ && stable_map::has_key(before, other)
            ==> stable_map::has_key(after, other) && stable_map::value_of(after, other)
            == stable_map::value_of(before, other)
        &&& r is Ok ==> (*final(audits)).criteria == (*audits).criteria
    } by {
        if r is Ok {
            law_audits_are_kept(
                *audits,
                *final(audits),
                package@,
                config.default_criteria@,
                from@,
                opt_version(to),
                other,
            );
            law_new_audit_tells_what_was_reviewed(
                *audits,
                *final(audits),
                package@,
                config.default_criteria@,
                from@,
                opt_version(to),
            );
        }
    }
}

/// What is recorded from texts are the versions that they are read as, the first one first; and a
/// text that is no version, or a package that is not foreign, is refused and changes nothing.
pub proof fn law_written_review_is_recorded<T>(
    config: &ConfigFile<T>,
    metadata: &Metadata,
    package: &str,
    version1: &str,
    version2: Option<&str>,
    r: Result<(), CertifyError>,
)
    ensures
        forall|audits: &mut AuditsFile<T>| #[trigger]
            call_ensures(
                cmd_certify::<T>,
                (audits, config, metadata, package, version1, version2),
                r,
            ) ==> {
                let list = stable_map::value_of((*final(audits)).audits@, package@)@;
                &&& r is Ok == (version::is_version_text(version1@) && (version2 matches Some(t)
                    ==> version::is_version_text(t@)) && is_foreign(*metadata, package@))
                &&& r is Err ==> *final(audits) == *audits
                &&& !version::is_version_text(version1@) ==> r == Err::<(), CertifyError>(
                    CertifyError::Version1,
                )
                &&& r is Ok ==> list.len() > 0 && list.last().criteria@ == config.default_criteria@
                    && (match (list.last().kind, version2) {
                    (AuditKind::Full { version, .. }, None) => version@.valid() && version@.text()
                        == version1@,
                    (AuditKind::Delta { delta, .. }, Some(to)) => delta.from@.valid()
                        && delta.from@.text() == version1@ && delta.to@.valid() && delta.to@.text()
                        == to@,
                    _ => false,
                })
            },
{
}

} // verus!
