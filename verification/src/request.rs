//! What the commands that fetch packages ask for.
use crate::cache::PackageId;
use crate::cli::{DiffArgs, InspectArgs};
use crate::version;
use crate::version::Version;
use vstd::prelude::*;
use vstd::string::*;

verus! {

/// The package is the one that is called `name`, at the version that `text` is read as.
pub open spec fn is_requested(id: PackageId, name: Seq<char>, text: Seq<char>) -> bool {
    id@.name == name && id@.version.valid() && id@.version.text() == text
}

/// Finds the package to fetch for a look at its source. `None` where the version is not one.
pub fn cmd_inspect(args: &InspectArgs) -> (r: Option<PackageId>)
    requires
        version::is_readable(args.version@),
    ensures
        r is Some == version::is_version_text(args.version@),
        r matches Some(id) ==> is_requested(id, args.package@, args.version@),
{
    match Version::parse(args.version.as_str()) {
        Some(version) => Some(PackageId { name: args.package.clone(), version }),
        None => None,
    }
}

/// Which of two versions is not one.
#[derive(Clone, Copy, PartialEq, Eq, Debug, Structural)]
pub enum DiffRequestError {
    First,
    Second,
}

/// The packages to fetch so that two versions can be compared, and the line that says so.
pub struct DiffRequest {
    pub first: PackageId,
    pub second: PackageId,
    pub line: String,
}

/// The line that says what is fetched.
pub open spec fn fetching_text(name: Seq<char>, first: Seq<char>, second: Seq<char>) -> Seq<char> {
    "fetching "@ + name + " "@ + first + " and "@ + second + " ..."@
}

/// Finds the packages to fetch so that two versions of a package can be compared.
pub fn cmd_diff(args: &DiffArgs) -> (r: Result<DiffRequest, DiffRequestError>)
    requires
        version::is_readable(args.version1@),
        version::is_readable(args.version2@),
    ensures
        (r == Err::<DiffRequest, DiffRequestError>(DiffRequestError::First))
            == !version::is_version_text(args.version1@),
        (r == Err::<DiffRequest, DiffRequestError>(DiffRequestError::Second)) == (
        version::is_version_text(args.version1@) && !version::is_version_text(args.version2@)),
        r is Ok == (version::is_version_text(args.version1@) && version::is_version_text(
            args.version2@,
        )),
        r matches Ok(d) ==> {
            &&& is_requested(d.first, args.package@, args.version1@)
            &&& is_requested(d.second, args.package@, args.version2@)
            &&& d.line@ == fetching_text(args.package@, args.version1@, args.version2@)
        },
{
    let first = match Version::parse(args.version1.as_str()) {
        Some(v) => v,
        None => return Err(DiffRequestError::First),
    };
    let second = match Version::parse(args.version2.as_str()) {
        Some(v) => v,
        None => return Err(DiffRequestError::Second),
    };
    let mut line = "fetching ".to_owned();
    line.append(args.package.as_str());
    line.append(" ");
    let text1 = first.to_text();
    line.append(text1.as_str());
    line.append(" and ");
    let text2 = second.to_text();
    line.append(text2.as_str());
    line.append(" ...");
    Ok(
        DiffRequest {
            first: PackageId { name: args.package.clone(), version: first },
            second: PackageId { name: args.package.clone(), version: second },
            line,
        },
    )
}

/// What is fetched for a look or for a diff is the package that was named, at the versions that
/// were written: the first of two stays the first.
pub proof fn law_requests_are_what_was_written(
    look: &InspectArgs,
    looked: Option<PackageId>,
    diff: &DiffArgs,
    compared: Result<DiffRequest, DiffRequestError>,
)
    requires
        call_ensures(cmd_inspect, (look,), looked),
        call_ensures(cmd_diff, (diff,), compared),
    ensures
        looked is Some == version::is_version_text(look.version@),
        looked matches Some(id) ==> id.name@ == look.package@ && id.version@.valid()
            && id.version@.text() == look.version@,
        compared is Ok == (version::is_version_text(diff.version1@) && version::is_version_text(
            diff.version2@,
        )),
        compared matches Err(e) ==> (e == DiffRequestError::First) == !version::is_version_text(
            diff.version1@,
        ),
        compared matches Ok(d) ==> {
            &&& d.first.name@ == diff.package@ && d.second.name@ == diff.package@
            &&& d.first.version@.valid() && d.first.version@.text() == diff.version1@
            &&& d.second.version@.valid() && d.second.version@.text() == diff.version2@
            &&& d.line@ == "fetching "@ + diff.package@ + " "@ + diff.version1@ + " and "@
                + diff.version2@ + " ..."@
        },
{
}

} // verus!
