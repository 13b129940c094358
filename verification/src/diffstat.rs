//! The size of the changes between two versions, as `git diff` reports it.
use crate::format::DiffStat;
use crate::text;
use vstd::prelude::*;
use vstd::string::*;

verus! {

/// The number that a part of a short diffstat begins with, as in ` 9 insertions(+)`.
pub open spec fn diffnum(part: Seq<char>) -> Option<u64> {
    match text::before_char(text::trimmed(part), ' ') {
        Some(number) => text::parsed_u64(number),
        None => None,
    }
}

/// The number of the part in the given place; zero where there is no part, or no number in it.
pub open spec fn diffnum_at(parts: Seq<Seq<char>>, i: int) -> u64 {
    if i < parts.len() {
        match diffnum(parts[i]) {
            Some(n) => n,
            None => 0,
        }
    } else {
        0
    }
}

/// The parts of a short diffstat: the files, and what was added and removed.
pub open spec fn diff_parts(report: Seq<char>) -> Seq<Seq<char>> {
    text::pieces_of(report, ',')
}

/// How many lines a short diffstat reports as added or removed.
pub open spec fn diff_lines(report: Seq<char>) -> nat {
    if report.len() == 0 {
        0
    } else {
        (diffnum_at(diff_parts(report), 1) + diffnum_at(diff_parts(report), 2)) as nat
    }
}

/// Reads the number that a part of a short diffstat begins with.
pub fn parse_diffnum(part: Option<&str>) -> (r: Option<u64>)
    ensures
        r == (match part {
            Some(p) => diffnum(p@),
            None => None,
        }),
{
    match part {
        Some(p) => match text::before(text::trim(p), ' ') {
            Some(number) => text::parse_u64(number),
            None => None,
        },
        None => None,
    }
}

/// Reads the number of the part in the given place.
fn number_at(parts: &Vec<String>, i: usize) -> (r: u64)
    ensures
        r == diffnum_at(text::texts(parts@), i as int),
{
    let part: Option<&str> = if i < parts.len() {
        Some(parts[i].as_str())
    } else {
        None
    };
    match parse_diffnum(part) {
        Some(n) => n,
        None => 0,
    }
}

/// The report has no parts but those that are known, and its sum can be counted.
pub open spec fn is_countable(report: Seq<char>) -> bool {
    &&& report.len() > 0 ==> diff_parts(report).len() <= 3
    &&& diff_lines(report) <= u64::MAX
}

/// Why a diffstat could not be had.
pub enum DiffStatError {
    /// `git` ended without a status.
    NoStatus,
    /// `git` failed; the message holds what it printed.
    Failed(String),
    /// `git` failed, and what it printed is not text.
    FailedWithoutText,
    /// What `git` printed is not text.
    NotText,
    /// The report has more parts than are known.
    TooManyParts(String),
    /// The report counts more lines than fit.
    TooManyLines(String),
}

/// Reads a short diffstat.
pub fn parse_diffstat(report: String) -> (r: DiffStat)
    requires
        is_countable(report@),
    ensures
        r.raw == report,
        r.count == diff_lines(report@),
{
    let count: u64 = if report.as_str().is_empty() {
        0
    } else {
        let parts = text::split(report.as_str(), ',');
        number_at(&parts, 1) + number_at(&parts, 2)
    };
    DiffStat { raw: report, count }
}

/// Reads a short diffstat, unless it has unknown parts or its sum cannot be counted.
pub fn read_diffstat(report: String) -> (r: Result<DiffStat, DiffStatError>)
    ensures
        (r is Ok) == is_countable(report@),
        r matches Ok(stat) ==> stat.raw == report && stat.count == diff_lines(report@),
        r matches Err(e) ==> e == (if diff_parts(report@).len() > 3 {
            DiffStatError::TooManyParts(report)
        } else {
            DiffStatError::TooManyLines(report)
        }),
{
    if !report.as_str().is_empty() {
        let parts = text::split(report.as_str(), ',');
        assert(text::texts(parts@).len() == parts@.len());
        if parts.len() > 3 {
            return Err(DiffStatError::TooManyParts(report));
        }
        let added: u64 = number_at(&parts, 1);
        let removed: u64 = number_at(&parts, 2);
        if added > u64::MAX - removed {
            return Err(DiffStatError::TooManyLines(report));
        }
    }
    Ok(parse_diffstat(report))
}

/// Calls `String::from_utf8`, which takes bytes as text exactly where they are UTF-8, and hands
/// over the text that they encode.
#[verifier::external_body]
fn text_of(bytes: Vec<u8>) -> (r: Option<String>)
    ensures
        r is Some == vstd::utf8::valid_utf8(bytes@),
        r matches Some(s) ==> s@ == vstd::utf8::decode_utf8(bytes@),
{
    String::from_utf8(bytes).ok()
}

/// The message for a `git diff` that failed.
pub open spec fn failed_message(out: Seq<char>, err: Seq<char>) -> Seq<char> {
    "command failed!\nout:\n"@ + out + "\nstderr:\n"@ + err
}

/// What comes of a `git diff --shortstat` that ended with `status` and printed `out` and `err`.
pub open spec fn is_diffstat_result(
    status: Option<i32>,
    out: Seq<u8>,
    err: Seq<u8>,
    r: Result<DiffStat, DiffStatError>,
) -> bool {
    let report = vstd::utf8::decode_utf8(out);
    if status is None {
        r matches Err(e) && e is NoStatus
    } else if status != Some(0i32) && status != Some(1i32) {
        if vstd::utf8::valid_utf8(out) && vstd::utf8::valid_utf8(err) {
            r matches Err(e) && e matches DiffStatError::Failed(m) && m@ == failed_message(
                report,
                vstd::utf8::decode_utf8(err),
            )
        } else {
            r matches Err(e) && e is FailedWithoutText
        }
    } else if !vstd::utf8::valid_utf8(out) {
        r matches Err(e) && e is NotText
    } else if diff_parts(report).len() > 3 {
        r matches Err(e) && e matches DiffStatError::TooManyParts(m) && m@ == report
    } else if diff_lines(report) > u64::MAX {
        r matches Err(e) && e matches DiffStatError::TooManyLines(m) && m@ == report
    } else {
        r matches Ok(stat) && stat.raw@ == report && stat.count == diff_lines(report)
    }
}

/// Takes the diffstat from what `git diff --shortstat` ended with and printed. A status of 0
/// says that there are no changes, and one of 1 that there are some.
pub fn diffstat_crate(status: Option<i32>, out: Vec<u8>, err: Vec<u8>) -> (r: Result<
    DiffStat,
    DiffStatError,
>)
    ensures
        is_diffstat_result(status, out@, err@, r),
{
    let code: i32 = match status {
        Some(code) => code,
        None => return Err(DiffStatError::NoStatus),
    };
    if code != 0 && code != 1 {
        return match (text_of(out), text_of(err)) {
            (Some(o), Some(e)) => {
                let mut m = "command failed!\nout:\n".to_owned();
                m.append(o.as_str());
                m.append("\nstderr:\n");
                m.append(e.as_str());
                Err(DiffStatError::Failed(m))
            },
            _ => Err(DiffStatError::FailedWithoutText),
        };
    }
    match text_of(out) {
        Some(report) => {
            proof {
                if report@.len() == 0 {
                    assert(text::first_index(report@, ',') == 0);
                }
            }
            read_diffstat(report)
        },
        None => Err(DiffStatError::NotText),
    }
}

/// What comes of showing a diff, given what `git diff` ended with. As for a diffstat, a status
/// of 0 says that there are no changes, and one of 1 that there are some.
pub fn diff_crate(status: Option<i32>) -> (r: Result<(), String>)
    ensures
        r is Ok == (status == Some(0i32) || status == Some(1i32)),
        r matches Err(m) ==> m@
            == "git diff failed! (this is probably just a bug in how we check error codes)"@,
{
    match status {
        Some(0) => Ok(()),
        Some(1) => Ok(()),
        _ => Err(
            "git diff failed! (this is probably just a bug in how we check error codes)".to_owned(),
        ),
    }
}

/// One part of a short diffstat as `git` writes it: a number and what it counts.
pub open spec fn git_part(n: u64, what: Seq<char>) -> Seq<char> {
    " "@ + text::decimal_text(n as nat) + " "@ + what
}

/// What a number in a short diffstat counts: a word or more, with no comma among them.
pub open spec fn is_git_word(what: Seq<char>) -> bool {
    what.len() > 0 && !what.contains(',') && !text::is_space(what.last())
}

/// The number of a part is read back, also from the end of the line.
proof fn lemma_git_part(n: u64, what: Seq<char>)
    requires
        is_git_word(what),
    ensures
        diffnum(git_part(n, what)) == Some(n),
        diffnum(git_part(n, what) + "\n"@) == Some(n),
        !git_part(n, what).contains(','),
        !(git_part(n, what) + "\n"@).contains(','),
{
    reveal_strlit(" ");
    reveal_strlit("\n");
    let d = text::decimal_text(n as nat);
    let s = d + " "@ + what;
    text::lemma_decimal_digits(n as nat);
    text::law_decimal_reads_back(n);
    assert(s[0] == d[0]);
    assert(s.last() == what.last());
    text::lemma_trimmed(" "@, s, Seq::empty());
    text::lemma_trimmed(" "@, s, "\n"@);
    assert(git_part(n, what) == " "@ + s + Seq::<char>::empty());
    assert(git_part(n, what) + "\n"@ == " "@ + s + "\n"@);
    assert forall|j: int| 0 <= j < d.len() implies s[j] != ' ' by {
        assert(s[j] == d[j]);
    }
    assert(s[d.len() as int] == ' ');
    text::lemma_first_index_is(s, ' ', d.len() as int);
    assert(s.take(d.len() as int) == d);
    let whole = git_part(n, what) + "\n"@;
    assert forall|j: int| 0 <= j < whole.len() implies whole[j] != ',' by {
        if 1 <= j < 1 + d.len() {
            assert(whole[j] == d[j - 1]);
        } else if 2 + d.len() <= j < whole.len() - 1 {
            assert(whole[j] == what[j - 2 - d.len()]);
            assert(what.contains(what[j - 2 - d.len()]));
        }
    }
    assert forall|j: int| 0 <= j < git_part(n, what).len() implies git_part(n, what)[j] != ',' by {
        assert(whole[j] == git_part(n, what)[j]);
    }
}

/// Where `git` reports both what was added and what was removed, the two are summed up; where
/// it leaves one of them out, the other counts alone.
pub proof fn law_counts_what_git_reports(
    files: Seq<char>,
    a: u64,
    what_a: Seq<char>,
    b: u64,
    what_b: Seq<char>,
)
    requires
        !files.contains(','),
        is_git_word(what_a),
        is_git_word(what_b),
    ensures
        diff_lines(files + ","@ + git_part(a, what_a) + ","@ + git_part(b, what_b) + "\n"@) == a + b,
        diff_parts(
            files + ","@ + git_part(a, what_a) + ","@ + git_part(b, what_b) + "\n"@,
        ).len() == 3,
        diff_lines(files + ","@ + git_part(a, what_a) + "\n"@) == a,
        diff_parts(files + ","@ + git_part(a, what_a) + "\n"@).len() == 2,
{
    reveal_strlit(",");
    lemma_git_part(a, what_a);
    lemma_git_part(b, what_b);
    let pa = git_part(a, what_a);
    let pb = git_part(b, what_b) + "\n"@;
    let both = files + ","@ + pa + ","@ + git_part(b, what_b) + "\n"@;
    assert(both == files + seq![','] + (pa + seq![','] + pb));
    text::lemma_pieces_step(files, ',', pa + seq![','] + pb);
    text::lemma_pieces_step(pa, ',', pb);
    text::lemma_pieces_step(pb, ',', seq![]);
    assert(diff_parts(both) == seq![files, pa, pb]);
    let last = pa + "\n"@;
    let one = files + ","@ + pa + "\n"@;
    assert(one == files + seq![','] + last);
    text::lemma_pieces_step(files, ',', last);
    text::lemma_pieces_step(last, ',', seq![]);
    assert(diff_parts(one) == seq![files, last]);
}

/// A comparison counts exactly where `git` ended with 0 or 1 and printed text with no unknown
/// parts that can be summed up; what it printed is kept as it is.
pub proof fn law_diffstat_is_what_git_printed(
    status: Option<i32>,
    out: Vec<u8>,
    err: Vec<u8>,
    r: Result<DiffStat, DiffStatError>,
)
    requires
        call_ensures(diffstat_crate, (status, out, err), r),
    ensures
        r is Ok ==> (status == Some(0i32) || status == Some(1i32)) && vstd::utf8::valid_utf8(out@),
        r matches Ok(stat) ==> stat.raw@ == vstd::utf8::decode_utf8(out@),
        r matches Ok(stat) ==> stat.raw@.len() == 0 ==> stat.count == 0,
        (status == Some(0i32) || status == Some(1i32)) && vstd::utf8::valid_utf8(out@)
            && text::pieces_of(vstd::utf8::decode_utf8(out@), ',').len() <= 2 ==> r is Ok,
        status is None ==> (r matches Err(e) && e is NoStatus),
        (status matches Some(code) && code != 0 && code != 1) && vstd::utf8::valid_utf8(out@)
            && vstd::utf8::valid_utf8(err@) ==> (r matches Err(DiffStatError::Failed(m)) && m@
            == "command failed!\nout:\n"@ + vstd::utf8::decode_utf8(out@) + "\nstderr:\n"@
            + vstd::utf8::decode_utf8(err@)),
        (status == Some(0i32) || status == Some(1i32)) && !vstd::utf8::valid_utf8(out@) ==> (
        r matches Err(e) && e is NotText),
        (status == Some(0i32) || status == Some(1i32)) && vstd::utf8::valid_utf8(out@)
            && text::pieces_of(vstd::utf8::decode_utf8(out@), ',').len() > 3 ==> (
        r matches Err(DiffStatError::TooManyParts(m)) && m@ == vstd::utf8::decode_utf8(out@)),
{
}

/// The count of a report with what was added and what was removed is their sum, for all numbers
/// whose sum fits; and where `git` leaves one part out, it is the other.
pub proof fn law_diffstat_counts_lines(
    status: Option<i32>,
    out: Vec<u8>,
    err: Vec<u8>,
    r: Result<DiffStat, DiffStatError>,
    files: Seq<char>,
    a: u64,
    what_a: Seq<char>,
    b: u64,
    what_b: Seq<char>,
)
    requires
        call_ensures(diffstat_crate, (status, out, err), r),
        status == Some(0i32) || status == Some(1i32),
        vstd::utf8::valid_utf8(out@),
        !files.contains(','),
        what_a.len() > 0 && !what_a.contains(',') && !text::is_space(what_a.last()),
        what_b.len() > 0 && !what_b.contains(',') && !text::is_space(what_b.last()),
    ensures
        vstd::utf8::decode_utf8(out@) == files + ","@ + (" "@ + text::decimal_text(a as nat) + " "@
            + what_a) + ","@ + (" "@ + text::decimal_text(b as nat) + " "@ + what_b) + "\n"@ ==> (if a
            + b <= u64::MAX {
            r matches Ok(stat) && stat.count == a + b
        } else {
            r matches Err(e) && e is TooManyLines
        }),
        vstd::utf8::decode_utf8(out@) == files + ","@ + (" "@ + text::decimal_text(a as nat) + " "@
            + what_a) + "\n"@ ==> (r matches Ok(stat) && stat.count == a),
{
    law_counts_what_git_reports(files, a, what_a, b, what_b);
}

/// Showing a diff succeeds exactly where `git` ended with 0 or 1.
pub proof fn law_diff_is_shown_on_zero_and_one(status: Option<i32>, r: Result<(), String>)
    requires
        call_ensures(diff_crate, (status,), r),
    ensures
        r is Ok == (status == Some(0i32) || status == Some(1i32)),
{
}

/// A report is kept as it is; one without text counts nothing, and one that has too many parts,
/// or counts too much, is refused and told.
pub proof fn law_reports_are_kept(report: String, r: Result<DiffStat, DiffStatError>)
    requires
        call_ensures(read_diffstat, (report,), r),
    ensures
        r matches Ok(stat) ==> stat.raw == report,
        report@.len() == 0 ==> (r matches Ok(stat) && stat.count == 0),
        report@.len() > 0 && text::pieces_of(report@, ',').len() <= 2 ==> r is Ok,
        report@.len() > 0 && text::pieces_of(report@, ',').len() == 1 ==> (r matches Ok(stat)
            && stat.count == 0),
        report@.len() > 0 && text::pieces_of(report@, ',').len() > 3 ==> r == Err::<
            DiffStat,
            DiffStatError,
        >(DiffStatError::TooManyParts(report)),
        report@.len() > 0 && text::pieces_of(report@, ',').len() == 3 && r is Err ==> r == Err::<
            DiffStat,
            DiffStatError,
        >(DiffStatError::TooManyLines(report)),
{
    if report@.len() == 0 {
        assert(text::first_index(report@, ',') == 0);
    }
}

} // verus!
