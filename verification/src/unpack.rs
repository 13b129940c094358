//! Unpacking a package that was downloaded, and telling whether that was done.
use crate::text;
use vstd::prelude::*;

verus! {

/// One component of the path of an entry of an archive.
pub enum PathPart {
    /// A name.
    Normal(Vec<u8>),
    /// Anything else: a root, a prefix, or a step to the same or the parent directory.
    Special,
}

/// The path begins with the name `dir`.
pub open spec fn is_under(path: Seq<PathPart>, dir: Seq<u8>) -> bool {
    path.len() > 0 && (path[0] matches PathPart::Normal(name) && name@ == dir)
}

/// Whether two strings of bytes are the same.
fn same_bytes(a: &Vec<u8>, b: &Vec<u8>) -> (r: bool)
    ensures
        r == (a@ == b@),
{
    if a.len() != b.len() {
        return false;
    }
    let mut i: usize = 0;
    while i < a.len()
        invariant
            i <= a@.len(),
            a@.len() == b@.len(),
            forall|j: int| 0 <= j < i ==> a@[j] == b@[j],
        decreases a@.len() - i,
    {
        if a[i] != b[i] {
            return false;
        }
        i = i + 1;
    }
    assert(a@ == b@);
    true
}

/// Whether the path of an entry begins with the name of the directory it is unpacked to.
pub fn entry_is_under(path: &Vec<PathPart>, dir: &Vec<u8>) -> (r: bool)
    ensures
        r == is_under(path@, dir@),
{
    if path.len() == 0 {
        return false;
    }
    match &path[0] {
        PathPart::Normal(name) => same_bytes(name, dir),
        PathPart::Special => false,
    }
}

/// Why a package was not unpacked.
pub enum UnpackError {
    /// A directory could not be removed or made, the archive not be opened, or the mark not be
    /// written.
    Io(String),
    /// The next entry of the archive could not be read.
    Iterate(String),
    /// The path of an entry could not be read.
    EntryPath(String),
    /// The archive holds a file that does not lie under the directory of the package.
    Outside(Vec<PathPart>),
    /// An entry could not be unpacked.
    Unpack(Vec<PathPart>, String),
    /// The file that marks the package as unpacked could not be opened.
    OpenMark(String),
}

/// What is done next to unpack a package.
pub enum UnpackStep {
    /// Remove what an earlier attempt left.
    Remove,
    /// Make the directory of the package.
    Create,
    /// Open the archive.
    Open,
    /// Read the next entry of the archive.
    Next,
    /// Unpack the entry with this path.
    Unpack(Vec<PathPart>),
    /// Open the file that marks the package as unpacked, and empty it: the archive may have held
    /// such a file itself.
    OpenMark,
    /// Write the mark.
    WriteMark,
    /// Everything was done.
    Finished,
    /// It cannot be done.
    Failed(UnpackError),
}

/// What came of a step.
pub enum Outcome {
    /// It was done.
    Done,
    /// It failed.
    Failed(String),
    /// An entry was read, and its path, unless that could not be read.
    Entry(Result<Vec<PathPart>, String>),
    /// There are no more entries.
    End,
}

/// The outcome is one that the step can have.
pub open spec fn can_have(step: UnpackStep, outcome: Outcome) -> bool {
    match step {
        UnpackStep::Finished => false,
        UnpackStep::Failed(_) => false,
        UnpackStep::Next => !(outcome is Done),
        _ => outcome is Done || outcome is Failed,
    }
}

/// The step that follows a step with its outcome, in a package directory called `dir`.
pub open spec fn next_step(step: UnpackStep, outcome: Outcome, dir: Seq<u8>) -> UnpackStep {
    match (step, outcome) {
        (UnpackStep::Remove, Outcome::Done) => UnpackStep::Create,
        (UnpackStep::Create, Outcome::Done) => UnpackStep::Open,
        (UnpackStep::Open, Outcome::Done) => UnpackStep::Next,
        (UnpackStep::Next, Outcome::Entry(Ok(path))) => if is_under(path@, dir) {
            UnpackStep::Unpack(path)
        } else {
            UnpackStep::Failed(UnpackError::Outside(path))
        },
        (UnpackStep::Next, Outcome::Entry(Err(e))) => UnpackStep::Failed(
            UnpackError::EntryPath(e),
        ),
        (UnpackStep::Next, Outcome::End) => UnpackStep::OpenMark,
        (UnpackStep::Next, Outcome::Failed(e)) => UnpackStep::Failed(UnpackError::Iterate(e)),
        (UnpackStep::Unpack(_), Outcome::Done) => UnpackStep::Next,
        (UnpackStep::Unpack(path), Outcome::Failed(e)) => UnpackStep::Failed(
            UnpackError::Unpack(path, e),
        ),
        (UnpackStep::OpenMark, Outcome::Done) => UnpackStep::WriteMark,
        (UnpackStep::OpenMark, Outcome::Failed(e)) => UnpackStep::Failed(UnpackError::OpenMark(e)),
        (UnpackStep::WriteMark, Outcome::Done) => UnpackStep::Finished,
        (_, Outcome::Failed(e)) => UnpackStep::Failed(UnpackError::Io(e)),
        (step, _) => step,
    }
}

/// The first step. A directory that is there already was left by an attempt that failed.
pub open spec fn first_step(dir_exists: bool) -> UnpackStep {
    if dir_exists {
        UnpackStep::Remove
    } else {
        UnpackStep::Create
    }
}

/// Finds the first step.
pub fn begin_unpack(dir_exists: bool) -> (r: UnpackStep)
    ensures
        r == first_step(dir_exists),
{
    if dir_exists {
        UnpackStep::Remove
    } else {
        UnpackStep::Create
    }
}

/// Finds the step that follows a step with its outcome.
pub fn unpack_package(step: UnpackStep, outcome: Outcome, dir: &Vec<u8>) -> (r: UnpackStep)
    requires
        can_have(step, outcome),
    ensures
        r == next_step(step, outcome, dir@),
{
    match (step, outcome) {
        (UnpackStep::Remove, Outcome::Done) => UnpackStep::Create,
        (UnpackStep::Create, Outcome::Done) => UnpackStep::Open,
        (UnpackStep::Open, Outcome::Done) => UnpackStep::Next,
        (UnpackStep::Next, Outcome::Entry(Ok(path))) => {
            if entry_is_under(&path, dir) {
                UnpackStep::Unpack(path)
            } else {
                UnpackStep::Failed(UnpackError::Outside(path))
            }
        },
        (UnpackStep::Next, Outcome::Entry(Err(e))) => UnpackStep::Failed(
            UnpackError::EntryPath(e),
        ),
        (UnpackStep::Next, Outcome::End) => UnpackStep::OpenMark,
        (UnpackStep::Next, Outcome::Failed(e)) => UnpackStep::Failed(UnpackError::Iterate(e)),
        (UnpackStep::Unpack(_), Outcome::Done) => UnpackStep::Next,
        (UnpackStep::Unpack(path), Outcome::Failed(e)) => UnpackStep::Failed(
            UnpackError::Unpack(path, e),
        ),
        (UnpackStep::OpenMark, Outcome::Done) => UnpackStep::WriteMark,
        (UnpackStep::OpenMark, Outcome::Failed(e)) => UnpackStep::Failed(UnpackError::OpenMark(e)),
        (UnpackStep::WriteMark, Outcome::Done) => UnpackStep::Finished,
        (_, Outcome::Failed(e)) => UnpackStep::Failed(UnpackError::Io(e)),
        (step, _) => step,
    }
}

/// The step after the outcomes so far.
pub open spec fn step_after(dir_exists: bool, outcomes: Seq<Outcome>, dir: Seq<u8>) -> UnpackStep
    decreases outcomes.len(),
{
    if outcomes.len() == 0 {
        first_step(dir_exists)
    } else {
        next_step(step_after(dir_exists, outcomes.drop_last(), dir), outcomes.last(), dir)
    }
}

/// Every outcome is one that the step it came of can have.
pub open spec fn can_happen(dir_exists: bool, outcomes: Seq<Outcome>, dir: Seq<u8>) -> bool
    decreases outcomes.len(),
{
    outcomes.len() > 0 ==> {
        &&& can_happen(dir_exists, outcomes.drop_last(), dir)
        &&& can_have(step_after(dir_exists, outcomes.drop_last(), dir), outcomes.last())
    }
}

/// Whatever the archive holds, no entry is ever unpacked whose path does not begin with the
/// name of the package directory.
pub proof fn law_unpacks_only_under(dir_exists: bool, outcomes: Seq<Outcome>, dir: Seq<u8>)
    requires
        can_happen(dir_exists, outcomes, dir),
    ensures
        step_after(dir_exists, outcomes, dir) matches UnpackStep::Unpack(path) ==> is_under(
            path@,
            dir,
        ),
{
}

/// Nothing failed so far, and every entry lay under the package directory.
pub open spec fn went_well(outcomes: Seq<Outcome>, dir: Seq<u8>) -> bool {
    forall|i: int|
        0 <= i < outcomes.len() ==> match #[trigger] outcomes[i] {
            Outcome::Failed(_) => false,
            Outcome::Entry(Ok(path)) => is_under(path@, dir),
            Outcome::Entry(Err(_)) => false,
            _ => true,
        }
}

/// The mark comes last: where it is opened or written, and where the end is reached, the
/// archive was read to its end, every entry of it lay under the package directory, and nothing
/// failed.
pub proof fn law_mark_comes_last(dir_exists: bool, outcomes: Seq<Outcome>, dir: Seq<u8>)
    requires
        can_happen(dir_exists, outcomes, dir),
    ensures
        ({
            let step = step_after(dir_exists, outcomes, dir);
            (step is OpenMark || step is WriteMark || step is Finished) ==> went_well(
                outcomes,
                dir,
            ) && exists|i: int| 0 <= i < outcomes.len() && (#[trigger] outcomes[i]) is End
        }),
        !(step_after(dir_exists, outcomes, dir) is Failed) ==> went_well(outcomes, dir),
    decreases outcomes.len(),
{
    if outcomes.len() > 0 {
        let before = outcomes.drop_last();
        law_mark_comes_last(dir_exists, before, dir);
        let step = step_after(dir_exists, outcomes, dir);
        let step0 = step_after(dir_exists, before, dir);
        if !(step is Failed) {
            assert forall|i: int| 0 <= i < outcomes.len() implies match #[trigger] outcomes[i] {
                Outcome::Failed(_) => false,
                Outcome::Entry(Ok(path)) => is_under(path@, dir),
                Outcome::Entry(Err(_)) => false,
                _ => true,
            } by {
                if i < before.len() {
                    assert(before[i] == outcomes[i]);
                }
            }
        }
        if step is OpenMark {
            assert(outcomes[outcomes.len() - 1] is End);
        }
        if step is WriteMark || step is Finished {
            let i = choose|i: int| 0 <= i < before.len() && (#[trigger] before[i]) is End;
            assert(outcomes[i] is End);
        }
    }
}

/// Once a step failed, or everything was done, nothing more is done.
pub proof fn law_failure_ends(
    dir_exists: bool,
    outcomes: Seq<Outcome>,
    more: Outcome,
    dir: Seq<u8>,
)
    requires
        step_after(dir_exists, outcomes, dir) is Failed || step_after(
            dir_exists,
            outcomes,
            dir,
        ) is Finished,
    ensures
        !can_happen(dir_exists, outcomes.push(more), dir),
{
    assert(outcomes.push(more).drop_last() == outcomes);
}

/// What the mark of an unpacked package holds.
pub open spec fn mark() -> Seq<char> {
    "ok"@
}

/// The text that marks a package as unpacked.
pub fn mark_text() -> (r: &'static str)
    ensures
        r@ == mark(),
{
    "ok"
}

/// The package was unpacked, as far as its directory tells.
pub open spec fn fetched(exists_dir: bool, is_dir: bool, contents: Option<Seq<char>>) -> bool {
    exists_dir && is_dir && contents == Some(mark())
}

/// Whether a package was unpacked: its directory is there, and holds a file with the mark.
/// `contents` is what that file holds, if it could be read.
pub fn fetch_is_ok(exists_dir: bool, is_dir: bool, contents: Option<&str>) -> (r: bool)
    ensures
        r == fetched(exists_dir, is_dir, text::opt_str(contents)),
{
    if !exists_dir || !is_dir {
        return false;
    }
    match contents {
        Some(c) => text::same_text(c, "ok"),
        None => false,
    }
}

/// What a file holds once it was opened and emptied.
pub open spec fn emptied(left: Seq<char>) -> Seq<char> {
    seq![]
}

/// What a file holds once `new` was written over its beginning.
pub open spec fn written_over(old_text: Seq<char>, new: Seq<char>) -> Seq<char> {
    if old_text.len() <= new.len() {
        new
    } else {
        new + old_text.skip(new.len() as int)
    }
}

/// What the file with the mark holds after the outcomes so far. An entry that is unpacked can
/// leave anything there: `archive` tells what, by the number of the outcome.
pub open spec fn mark_file(
    dir_exists: bool,
    outcomes: Seq<Outcome>,
    dir: Seq<u8>,
    archive: spec_fn(nat) -> Seq<char>,
) -> Seq<char>
    decreases outcomes.len(),
{
    if outcomes.len() == 0 {
        archive(0)
    } else {
        let before = outcomes.drop_last();
        let left = mark_file(dir_exists, before, dir, archive);
        match (step_after(dir_exists, before, dir), outcomes.last()) {
            (UnpackStep::Unpack(_), _) => archive(outcomes.len()),
            (UnpackStep::OpenMark, Outcome::Done) => emptied(left),
            (UnpackStep::WriteMark, Outcome::Done) => written_over(left, mark()),
            _ => left,
        }
    }
}

/// A file that was emptied and had the mark written to it counts as the mark, whatever it held
/// before.
pub proof fn law_mark_is_recognized(left: Seq<char>)
    ensures
        written_over(emptied(left), mark()) == mark(),
        fetched(true, true, Some(written_over(emptied(left), mark()))),
{
}

/// A package that was unpacked to the end counts as unpacked: the file with the mark holds
/// exactly the mark, whatever the archive put in its place.
pub proof fn law_unpacked_is_recognized(
    dir_exists: bool,
    outcomes: Seq<Outcome>,
    dir: Seq<u8>,
    archive: spec_fn(nat) -> Seq<char>,
)
    requires
        can_happen(dir_exists, outcomes, dir),
        step_after(dir_exists, outcomes, dir) is Finished,
    ensures
        mark_file(dir_exists, outcomes, dir, archive) == mark(),
        fetched(true, true, Some(mark_file(dir_exists, outcomes, dir, archive))),
{
    let before = outcomes.drop_last();
    assert(can_happen(dir_exists, before, dir));
    assert(step_after(dir_exists, before, dir) is WriteMark && outcomes.last() is Done);
    let earlier = before.drop_last();
    assert(can_happen(dir_exists, earlier, dir));
    assert(can_have(step_after(dir_exists, earlier, dir), before.last()));
    assert(step_after(dir_exists, earlier, dir) is OpenMark && before.last() is Done);
    let left = mark_file(dir_exists, earlier, dir, archive);
    assert(mark_file(dir_exists, before, dir, archive) == emptied(left));
    law_mark_is_recognized(left);
}

/// The path of an entry that was read decides: where it begins with the name of the package
/// directory, the entry is unpacked, under the same path; where not, the unpacking fails and
/// tells the path.
pub proof fn law_path_decides_on_an_entry(path: Vec<PathPart>, dir: &Vec<u8>, r: UnpackStep)
    requires
        call_ensures(unpack_package, (UnpackStep::Next, Outcome::Entry(Ok(path)), dir), r),
    ensures
        (path@.len() > 0 && (path@[0] matches PathPart::Normal(name) && name@ == dir@)) ==> r
            == UnpackStep::Unpack(path),
        !(path@.len() > 0 && (path@[0] matches PathPart::Normal(name) && name@ == dir@)) ==> r
            == UnpackStep::Failed(UnpackError::Outside(path)),
{
}

/// The paths of the entries that were read.
pub open spec fn entries_read(outcomes: Seq<Outcome>) -> Seq<Vec<PathPart>>
    decreases outcomes.len(),
{
    if outcomes.len() == 0 {
        seq![]
    } else {
        let before = entries_read(outcomes.drop_last());
        match outcomes.last() {
            Outcome::Entry(Ok(path)) => before.push(path),
            _ => before,
        }
    }
}

/// The paths of the entries that were unpacked.
pub open spec fn entries_unpacked(
    dir_exists: bool,
    outcomes: Seq<Outcome>,
    dir: Seq<u8>,
) -> Seq<Vec<PathPart>>
    decreases outcomes.len(),
{
    if outcomes.len() == 0 {
        seq![]
    } else {
        let before = entries_unpacked(dir_exists, outcomes.drop_last(), dir);
        match (step_after(dir_exists, outcomes.drop_last(), dir), outcomes.last()) {
            (UnpackStep::Unpack(path), Outcome::Done) => before.push(path),
            _ => before,
        }
    }
}

/// Nothing is passed over: where the end is reached, the entries that were unpacked are exactly
/// those that were read, in the same order.
pub proof fn law_every_entry_is_unpacked(dir_exists: bool, outcomes: Seq<Outcome>, dir: Seq<u8>)
    requires
        can_happen(dir_exists, outcomes, dir),
        step_after(dir_exists, outcomes, dir) is Finished,
    ensures
        entries_unpacked(dir_exists, outcomes, dir) == entries_read(outcomes),
{
    lemma_unpacked_so_far(dir_exists, outcomes, dir);
}

/// Up to any step that did not fail, everything read was unpacked, but for the entry whose turn
/// it is.
proof fn lemma_unpacked_so_far(dir_exists: bool, outcomes: Seq<Outcome>, dir: Seq<u8>)
    requires
        can_happen(dir_exists, outcomes, dir),
    ensures
        ({
            let read = entries_read(outcomes);
            let unpacked = entries_unpacked(dir_exists, outcomes, dir);
            match step_after(dir_exists, outcomes, dir) {
                UnpackStep::Failed(_) => true,
                UnpackStep::Unpack(path) => read == unpacked.push(path),
                _ => read == unpacked,
            }
        }),
    decreases outcomes.len(),
{
    if outcomes.len() > 0 {
        lemma_unpacked_so_far(dir_exists, outcomes.drop_last(), dir);
    }
}

/// A directory that is there is removed first, and then made anew; only after that is the archive
/// opened and read.
pub proof fn law_begins_with_a_clean_slate(dir_exists: bool, outcomes: Seq<Outcome>, dir: Seq<u8>)
    requires
        can_happen(dir_exists, outcomes, dir),
        !(step_after(dir_exists, outcomes, dir) is Failed),
    ensures
        dir_exists ==> step_after(dir_exists, seq![], dir) is Remove,
        dir_exists && outcomes.len() >= 1 ==> step_after(dir_exists, outcomes.take(1), dir) is Create,
        dir_exists && outcomes.len() >= 2 ==> step_after(dir_exists, outcomes.take(2), dir) is Open,
        dir_exists && outcomes.len() >= 3 ==> step_after(dir_exists, outcomes.take(3), dir) is Next,
        !dir_exists ==> step_after(dir_exists, seq![], dir) is Create,
        !dir_exists && outcomes.len() >= 1 ==> step_after(dir_exists, outcomes.take(1), dir) is Open,
        !dir_exists && outcomes.len() >= 2 ==> step_after(dir_exists, outcomes.take(2), dir) is Next,
    decreases outcomes.len(),
{
    if outcomes.len() > 0 {
        let before = outcomes.drop_last();
        law_begins_with_a_clean_slate(dir_exists, before, dir);
        let n = outcomes.len() as int;
        assert(outcomes.take(n) == outcomes);
        assert(before.take(n - 1) == before);
        if n > 1 {
            assert(before.take(1) == outcomes.take(1));
        } else {
            assert(before == Seq::<Outcome>::empty());
        }
        if n > 2 {
            assert(before.take(2) == outcomes.take(2));
        }
        if n > 3 {
            assert(before.take(3) == outcomes.take(3));
        }
    }
}

/// A step that fails ends the unpacking, and the error tells what went wrong; and only a failure,
/// or an entry that is not under the directory, does.
pub proof fn law_errors_are_told(step: UnpackStep, outcome: Outcome, dir: &Vec<u8>, r: UnpackStep)
    requires
        can_have(step, outcome),
        call_ensures(unpack_package, (step, outcome, dir), r),
    ensures
        outcome matches Outcome::Failed(e) ==> (r matches UnpackStep::Failed(error) && (match error {
            UnpackError::Io(m) => m == e && !(step is Next || step is Unpack || step is OpenMark),
            UnpackError::Iterate(m) => m == e && step is Next,
            UnpackError::Unpack(path, m) => m == e && step == UnpackStep::Unpack(path),
            UnpackError::OpenMark(m) => m == e && step is OpenMark,
            _ => false,
        })),
        outcome matches Outcome::Entry(Err(e)) ==> r == UnpackStep::Failed(
            UnpackError::EntryPath(e),
        ),
        r is Failed ==> outcome is Failed || outcome is Entry,
        outcome is End ==> r is OpenMark,
        step is Unpack && outcome is Done ==> r is Next,
        step is OpenMark && outcome is Done ==> r is WriteMark,
        step is WriteMark && outcome is Done ==> r is Finished,
        r is Finished ==> step is WriteMark && outcome is Done,
{
}

/// A package counts as unpacked exactly where its directory is there, is a directory, and holds
/// a mark file with the text `ok` and nothing else.
pub proof fn law_fetched_means_marked(
    exists_dir: bool,
    is_dir: bool,
    contents: Option<&str>,
    r: bool,
)
    requires
        call_ensures(fetch_is_ok, (exists_dir, is_dir, contents), r),
    ensures
        r == (exists_dir && is_dir && (contents matches Some(c) && c@ == "ok"@)),
{
}

} // verus!
