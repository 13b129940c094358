//! Package versions: how they are read, written and ordered.
use crate::sorted::Ordered;
use crate::text;
use vstd::prelude::*;
use vstd::string::*;

verus! {

/// What a version is made of.
#[verifier::ext_equal]
pub struct VersionView {
    pub major: u64,
    pub minor: u64,
    pub patch: u64,
    pub pre: Seq<char>,
    pub build: Seq<char>,
}

/// A character of a pre-release or build identifier.
pub open spec fn is_ident_char(c: char) -> bool {
    '0' <= c <= '9' || 'A' <= c <= 'Z' || 'a' <= c <= 'z' || c == '-'
}

/// Nothing, or identifiers with dots between them. Where `strict`, a numeric identifier has no
/// leading zero.
pub open spec fn are_idents(s: Seq<char>, strict: bool) -> bool {
    let pieces = text::pieces_of(s, '.');
    s.len() > 0 ==> {
        &&& forall|i: int| 0 <= i < s.len() ==> is_ident_char(#[trigger] s[i]) || s[i] == '.'
        &&& forall|i: int| 0 <= i < pieces.len() ==> (#[trigger] pieces[i]).len() > 0
        &&& strict ==> forall|i: int|
            0 <= i < pieces.len() && (#[trigger] pieces[i]).len() > 1 && pieces[i][0] == '0'
                ==> !text::all_digits(pieces[i])
    }
}

impl VersionView {
    /// The pre-release and the build metadata are well formed.
    pub open spec fn valid(self) -> bool {
        are_idents(self.pre, true) && are_idents(self.build, false)
    }

    /// The version as it is written.
    pub open spec fn text(self) -> Seq<char> {
        text::decimal_text(self.major as nat) + "."@ + text::decimal_text(self.minor as nat) + "."@
            + text::decimal_text(self.patch as nat) + self.suffix()
    }

    /// What follows the three numbers.
    pub open spec fn suffix(self) -> Seq<char> {
        (if self.pre.len() > 0 {
            "-"@ + self.pre
        } else {
            seq![]
        }) + (if self.build.len() > 0 {
            "+"@ + self.build
        } else {
            seq![]
        })
    }
}

/// Some valid version is written as `s`.
pub open spec fn is_version_text(s: Seq<char>) -> bool {
    exists|v: VersionView| #[trigger] v.valid() && v.text() == s
}

/// Texts that a version can be read from at all: longer ones the parser cannot store.
pub open spec fn is_readable(s: Seq<char>) -> bool {
    s.len() < 0x100_0000_0000_0000 && s.len() + 16 <= isize::MAX
}

/// Calls `cargo_metadata::Version::parse`, the parser of semantic versions, and hands over the
/// parts of what it returns. It accepts exactly the texts that a valid version is written as,
/// and the parts are those of a version that is written as `text`.
#[verifier::external_body]
fn parse_parts(text: &str) -> (r: Option<(u64, u64, u64, String, String)>)
    requires
        is_readable(text@),
    ensures
        r is Some == is_version_text(text@),
        r matches Some(p) ==> {
            let v = VersionView {
                major: p.0,
                minor: p.1,
                patch: p.2,
                pre: p.3@,
                build: p.4@,
            };
            v.valid() && v.text() == text@
        },
{
    match cargo_metadata::Version::parse(text) {
        Ok(v) => Some((v.major, v.minor, v.patch, v.pre.to_string(), v.build.to_string())),
        Err(_) => None,
    }
}

/// How one version stands to another.
#[derive(Clone, Copy, PartialEq, Eq, Debug, Structural)]
pub enum Order {
    Before,
    Same,
    After,
}

/// The three numbers of `v` come before those of `w`, or they are the same and only `v` is a
/// pre-release.
pub open spec fn comes_before(v: VersionView, w: VersionView) -> bool {
    if v.major != w.major {
        v.major < w.major
    } else if v.minor != w.minor {
        v.minor < w.minor
    } else if v.patch != w.patch {
        v.patch < w.patch
    } else {
        v.pre.len() > 0 && w.pre.len() == 0
    }
}

/// How the version written `a` stands to the version written `b` in the order of semantic
/// versions.
pub uninterp spec fn semver_order(a: Seq<char>, b: Seq<char>) -> Order;

/// `v` comes before `w` in the order of semantic versions.
pub open spec fn before(v: VersionView, w: VersionView) -> bool {
    &&& v.valid() && is_readable(v.text())
    &&& w.valid() && is_readable(w.text())
    &&& semver_order(v.text(), w.text()) == Order::Before
    &&& semver_order(w.text(), v.text()) == Order::After
    &&& !comes_before(w, v)
}

/// Calls `Ord` of `cargo_metadata::Version` on the versions that two texts are read as. Two
/// versions are the same exactly where they are written alike, and the other answers change
/// places with the arguments. What comes before a version also comes before everything after
/// that version. The numbers decide first, and a pre-release comes before the
/// release; how two pre-releases, or two builds, of the same numbers stand to each other is left
/// to the name.
#[verifier::external_body]
fn order_of(a: &str, b: &str) -> (r: Order)
    requires
        is_readable(a@),
        is_readable(b@),
        is_version_text(a@),
        is_version_text(b@),
    ensures
        r == semver_order(a@, b@),
        (r == Order::Same) == (a@ == b@),
        (r == Order::Before) == (semver_order(b@, a@) == Order::After),
        (r == Order::After) == (semver_order(b@, a@) == Order::Before),
        forall|v: VersionView, w: VersionView|
            v.valid() && w.valid() && #[trigger] v.text() == a@ && #[trigger] w.text() == b@ ==> {
                &&& comes_before(v, w) ==> r == Order::Before
                &&& comes_before(w, v) ==> r == Order::After
            },
        forall|c: Seq<char>|
            r == Order::Before && is_version_text(c) && is_readable(c) && #[trigger] semver_order(
                b@,
                c,
            ) == Order::Before ==> semver_order(a@, c) == Order::Before && semver_order(c, a@)
                == Order::After,
{
    let x = cargo_metadata::Version::parse(a).unwrap();
    let y = cargo_metadata::Version::parse(b).unwrap();
    match x.cmp(&y) {
        std::cmp::Ordering::Less => Order::Before,
        std::cmp::Ordering::Equal => Order::Same,
        std::cmp::Ordering::Greater => Order::After,
    }
}

/// The version of a package: three numbers, a pre-release and build metadata.
#[derive(Debug)]
pub struct Version {
    major: u64,
    minor: u64,
    patch: u64,
    pre: String,
    build: String,
}

impl View for Version {
    type V = VersionView;

    closed spec fn view(&self) -> VersionView {
        VersionView {
            major: self.major,
            minor: self.minor,
            patch: self.patch,
            pre: self.pre@,
            build: self.build@,
        }
    }
}

impl Version {
    /// The parts are well formed, and the version can be written and read again.
    #[verifier::type_invariant]
    pub open spec fn well_formed(self) -> bool {
        self@.valid() && is_readable(self@.text())
    }

    /// The version with the given numbers, and nothing after them.
    pub fn new(major: u64, minor: u64, patch: u64) -> (r: Version)
        ensures
            r@ == (VersionView { major, minor, patch, pre: seq![], build: seq![] }),
    {
        let pre = String::new();
        let build = String::new();
        proof {
            let v = VersionView { major, minor, patch, pre: pre@, build: build@ };
            lemma_decimal_length(major as nat);
            lemma_decimal_length(minor as nat);
            lemma_decimal_length(patch as nat);
            reveal_strlit(".");
            assert(v.suffix() == Seq::<char>::empty());
        }
        Version { major, minor, patch, pre, build }
    }

    /// Reads a version. `None` where the text is not one.
    pub fn parse(text: &str) -> (r: Option<Version>)
        requires
            is_readable(text@),
        ensures
            r is Some == is_version_text(text@),
            r matches Some(v) ==> v@.valid() && v@.text() == text@,
    {
        match parse_parts(text) {
            Some((major, minor, patch, pre, build)) => {
                Some(Version { major, minor, patch, pre, build })
            },
            None => None,
        }
    }

    /// The first of the three numbers.
    pub fn major(&self) -> (r: u64)
        ensures
            r == self@.major,
    {
        self.major
    }

    /// Writes the version.
    pub fn to_text(&self) -> (r: String)
        ensures
            r@ == self@.text(),
    {
        let mut s = text::decimal(self.major);
        s.append(".");
        let minor = text::decimal(self.minor);
        s.append(minor.as_str());
        s.append(".");
        let patch = text::decimal(self.patch);
        s.append(patch.as_str());
        let ghost numbers = s@;
        if !self.pre.as_str().is_empty() {
            s.append("-");
            s.append(self.pre.as_str());
        }
        if !self.build.as_str().is_empty() {
            s.append("+");
            s.append(self.build.as_str());
        }
        assert(s@ == numbers + self@.suffix());
        s
    }

    /// Whether two versions agree in every part.
    pub fn same(&self, other: &Version) -> (r: bool)
        ensures
            r == (self@ == other@),
    {
        self.major == other.major && self.minor == other.minor && self.patch == other.patch
            && self.pre == other.pre && self.build == other.build
    }

    /// Compares two versions in the order of semantic versions.
    pub fn order(&self, other: &Version) -> (r: Order)
        ensures
            r == semver_order(self@.text(), other@.text()),
            (r == Order::Same) == (self@ == other@),
            (r == Order::Before) == (semver_order(other@.text(), self@.text()) == Order::After),
            (r == Order::After) == (semver_order(other@.text(), self@.text()) == Order::Before),
            comes_before(self@, other@) ==> r == Order::Before,
            comes_before(other@, self@) ==> r == Order::After,
            r == Order::Before ==> before(self@, other@),
            r == Order::After ==> before(other@, self@),
            r == Order::Before ==> forall|w: VersionView| #[trigger]
                before(other@, w) ==> before(self@, w),
    {
        proof {
            use_type_invariant(self);
            use_type_invariant(other);
            if self@.text() == other@.text() {
                law_text_names_version(self@, other@);
            }
        }
        let a = self.to_text();
        let b = other.to_text();
        let r = order_of(a.as_str(), b.as_str());
        proof {
            assert forall|w: VersionView| r == Order::Before && #[trigger] before(
                other@,
                w,
            ) implies before(self@, w) by {
                assert(is_version_text(w.text()));
                assert(semver_order(other@.text(), w.text()) == Order::Before);
            }
        }
        r
    }
}

impl Ordered for Version {
    open spec fn before(a: VersionView, b: VersionView) -> bool {
        before(a, b)
    }

    proof fn one_way(a: VersionView, b: VersionView) {
    }

    fn stands(&self, other: &Version) -> (r: Order) {
        self.order(other)
    }
}

impl Clone for Version {
    fn clone(&self) -> (r: Version)
        ensures
            r@ == self@,
    {
        proof {
            use_type_invariant(self);
        }
        Version {
            major: self.major,
            minor: self.minor,
            patch: self.patch,
            pre: self.pre.clone(),
            build: self.build.clone(),
        }
    }
}

/// The version that stands for a package with nothing in it.
pub open spec fn root_view() -> VersionView {
    VersionView { major: 0, minor: 0, patch: 0, pre: seq![], build: seq![] }
}

/// The version that stands for a package with nothing in it.
pub fn root_version() -> (r: Version)
    ensures
        r@ == root_view(),
{
    Version::new(0, 0, 0)
}

spec fn pow10(k: nat) -> nat
    decreases k,
{
    if k == 0 {
        1
    } else {
        10 * pow10((k - 1) as nat)
    }
}

/// A number below a power of ten has no more digits than its exponent.
proof fn lemma_decimal_short(n: nat, k: nat)
    requires
        k > 0,
        n < pow10(k),
    ensures
        1 <= text::decimal_text(n).len() <= k,
    decreases k,
{
    if n >= 10 {
        assert(k > 1) by {
            reveal_with_fuel(pow10, 2);
        }
        assert(n / 10 < pow10((k - 1) as nat));
        lemma_decimal_short(n / 10, (k - 1) as nat);
    }
}

/// A `u64` has no more than twenty digits.
proof fn lemma_decimal_length(n: nat)
    requires
        n <= u64::MAX,
    ensures
        1 <= text::decimal_text(n).len() <= 20,
{
    assert(pow10(20) == 100_000_000_000_000_000_000) by {
        reveal_with_fuel(pow10, 21);
    }
    lemma_decimal_short(n, 20);
}

/// Where two concatenations agree, and in both every character of the first part and no first
/// character of the second part satisfies `p`, the parts agree.
proof fn lemma_same_split(
    a1: Seq<char>,
    b1: Seq<char>,
    a2: Seq<char>,
    b2: Seq<char>,
    p: spec_fn(char) -> bool,
)
    requires
        a1 + b1 == a2 + b2,
        forall|i: int| 0 <= i < a1.len() ==> p(#[trigger] a1[i]),
        forall|i: int| 0 <= i < a2.len() ==> p(#[trigger] a2[i]),
        b1.len() > 0 ==> !p(b1[0]),
        b2.len() > 0 ==> !p(b2[0]),
    ensures
        a1 == a2,
        b1 == b2,
{
    let w = a1 + b1;
    if a1.len() < a2.len() {
        assert(w[a1.len() as int] == a2[a1.len() as int]);
        assert(b1.len() > 0);
        assert(w[a1.len() as int] == b1[0]);
    }
    if a2.len() < a1.len() {
        assert((a2 + b2)[a2.len() as int] == a1[a2.len() as int]);
        assert(b2.len() > 0);
        assert((a2 + b2)[a2.len() as int] == b2[0]);
    }
    assert(a1 == w.take(a1.len() as int));
    assert(a2 == (a2 + b2).take(a2.len() as int));
    assert(b1 == w.skip(a1.len() as int));
    assert(b2 == (a2 + b2).skip(a2.len() as int));
}

/// What is written tells the version: two valid versions with the same text are the same.
pub proof fn law_text_names_version(v: VersionView, w: VersionView)
    requires
        v.valid(),
        w.valid(),
        v.text() == w.text(),
    ensures
        v == w,
{
    lemma_numbers(v, w);
    lemma_suffix(v, w);
}

/// Two numbers with a dot after each are told apart from what follows.
proof fn lemma_peel(a: nat, x: Seq<char>, b: nat, y: Seq<char>)
    requires
        text::decimal_text(a) + ("."@ + x) == text::decimal_text(b) + ("."@ + y),
    ensures
        a == b,
        x == y,
{
    reveal_strlit(".");
    text::lemma_decimal_digits(a);
    text::lemma_decimal_digits(b);
    lemma_same_split(
        text::decimal_text(a),
        "."@ + x,
        text::decimal_text(b),
        "."@ + y,
        |c: char| '0' <= c <= '9',
    );
    assert(("."@ + x).skip(1) == x);
    assert(("."@ + y).skip(1) == y);
}

proof fn lemma_regroup(a: Seq<char>, d: Seq<char>, b: Seq<char>, c: Seq<char>, s: Seq<char>)
    ensures
        a + d + b + d + c + s == a + (d + (b + (d + (c + s)))),
{
    assert(a + d + b + d + c + s == (a + d + b + d) + (c + s));
    assert((a + d + b + d) + (c + s) == (a + d + b) + (d + (c + s)));
    assert((a + d + b) + (d + (c + s)) == (a + d) + (b + (d + (c + s))));
    assert((a + d) + (b + (d + (c + s))) == a + (d + (b + (d + (c + s)))));
}

/// The text tells the three numbers and the suffix.
proof fn lemma_numbers(v: VersionView, w: VersionView)
    requires
        v.text() == w.text(),
    ensures
        v.major == w.major,
        v.minor == w.minor,
        v.patch == w.patch,
        v.suffix() == w.suffix(),
{
    let v2 = text::decimal_text(v.minor as nat);
    let v3 = text::decimal_text(v.patch as nat);
    let w2 = text::decimal_text(w.minor as nat);
    let w3 = text::decimal_text(w.patch as nat);
    let vs = v.suffix();
    let ws = w.suffix();
    lemma_regroup(text::decimal_text(v.major as nat), "."@, v2, v3, vs);
    lemma_regroup(text::decimal_text(w.major as nat), "."@, w2, w3, ws);
    lemma_peel(
        v.major as nat,
        v2 + ("."@ + (v3 + vs)),
        w.major as nat,
        w2 + ("."@ + (w3 + ws)),
    );
    lemma_peel(v.minor as nat, v3 + vs, w.minor as nat, w3 + ws);
    lemma_last_number(v, w);
}

/// The last number and the suffix are told apart.
proof fn lemma_last_number(v: VersionView, w: VersionView)
    requires
        text::decimal_text(v.patch as nat) + v.suffix() == text::decimal_text(w.patch as nat)
            + w.suffix(),
    ensures
        v.patch == w.patch,
        v.suffix() == w.suffix(),
{
    text::lemma_decimal_digits(v.patch as nat);
    text::lemma_decimal_digits(w.patch as nat);
    reveal_strlit("-");
    reveal_strlit("+");
    lemma_same_split(
        text::decimal_text(v.patch as nat),
        v.suffix(),
        text::decimal_text(w.patch as nat),
        w.suffix(),
        |c: char| '0' <= c <= '9',
    );
}

/// The suffix tells the pre-release and the build metadata.
proof fn lemma_suffix(v: VersionView, w: VersionView)
    requires
        v.valid(),
        w.valid(),
        v.suffix() == w.suffix(),
    ensures
        v.pre == w.pre,
        v.build == w.build,
{
    reveal_strlit("-");
    reveal_strlit("+");
    let vp = if v.pre.len() > 0 { "-"@ + v.pre } else { seq![] };
    let vb = if v.build.len() > 0 { "+"@ + v.build } else { seq![] };
    let wp = if w.pre.len() > 0 { "-"@ + w.pre } else { seq![] };
    let wb = if w.build.len() > 0 { "+"@ + w.build } else { seq![] };
    let no_plus = |c: char| c != '+';
    assert forall|i: int| 0 <= i < vp.len() implies no_plus(#[trigger] vp[i]) by {
        if i > 0 {
            assert(vp[i] == v.pre[i - 1]);
        }
    }
    assert forall|i: int| 0 <= i < wp.len() implies no_plus(#[trigger] wp[i]) by {
        if i > 0 {
            assert(wp[i] == w.pre[i - 1]);
        }
    }
    lemma_same_split(vp, vb, wp, wb, no_plus);
    if v.pre.len() > 0 {
        assert(vp.skip(1) == v.pre);
        assert(wp.skip(1) == w.pre);
    } else {
        assert(v.pre == w.pre);
    }
    if v.build.len() > 0 {
        assert(vb.skip(1) == v.build);
        assert(wb.skip(1) == w.build);
    } else {
        assert(v.build == w.build);
    }
}

/// The numbers of two versions decide their order, the first of them first; and where they are
/// the same, a pre-release comes before the release.
pub proof fn law_numbers_decide_the_order(a: &Version, b: &Version, r: Order)
    requires
        call_ensures(Version::order, (a, b), r),
    ensures
        a@.major < b@.major ==> r == Order::Before,
        a@.major > b@.major ==> r == Order::After,
        a@.major == b@.major && a@.minor < b@.minor ==> r == Order::Before,
        a@.major == b@.major && a@.minor > b@.minor ==> r == Order::After,
        a@.major == b@.major && a@.minor == b@.minor && a@.patch < b@.patch ==> r == Order::Before,
        a@.major == b@.major && a@.minor == b@.minor && a@.patch > b@.patch ==> r == Order::After,
        a@.major == b@.major && a@.minor == b@.minor && a@.patch == b@.patch && a@.pre.len() > 0
            && b@.pre.len() == 0 ==> r == Order::Before,
        (r == Order::Same) == (a@ == b@),
{
}

/// A version that is read from what was written is the version that was written.
pub proof fn law_reading_undoes_writing(
    v: &Version,
    written: String,
    text: &str,
    read: Option<Version>,
)
    requires
        v@.valid(),
        call_ensures(Version::to_text, (v,), written),
        text@ == written@,
        call_ensures(Version::parse, (text,), read),
    ensures
        read is Some,
        read->0@ == v@,
{
    assert(is_version_text(text@));
    law_text_names_version(read->0@, v@);
}

/// The version that stands for the empty package is 0.0.0.
pub proof fn law_root_version_is_zero(r: Version)
    requires
        call_ensures(root_version, (), r),
    ensures
        r@.major == 0 && r@.minor == 0 && r@.patch == 0,
        r@.pre.len() == 0 && r@.build.len() == 0,
{
}

} // verus!
