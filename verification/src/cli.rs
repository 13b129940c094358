//! The command line, and what follows from it before a command runs.
use vstd::prelude::*;
use vstd::string::*;

verus! {

/// What `inspect` is given.
pub struct InspectArgs {
    pub package: String,
    pub version: String,
}

/// What `diff` is given.
pub struct DiffArgs {
    pub package: String,
    pub version1: String,
    pub version2: String,
}

/// What `certify` is given.
pub struct CertifyArgs {
    pub package: String,
    pub version1: String,
    pub version2: Option<String>,
}

/// What `suggest` is given.
pub struct SuggestArgs {
    /// Suggest even deeper down the dependency tree, by guessing.
    pub guess_deeper: bool,
}

/// The subcommands.
pub enum Commands {
    Init,
    AcceptCriteriaChange,
    Inspect(InspectArgs),
    Diff(DiffArgs),
    Certify(CertifyArgs),
    Suggest(SuggestArgs),
    Fmt,
    HelpMarkdown,
}

/// How much is logged.
#[derive(Clone, Copy, PartialEq, Eq, Debug, Structural)]
pub enum Verbose {
    Off,
    Error,
    Warn,
    Info,
    Debug,
    Trace,
}

/// The packages of the workspace that cargo is to look at.
pub struct Workspace {
    pub package: Vec<String>,
    pub workspace: bool,
    pub all: bool,
    pub exclude: Vec<String>,
}

/// The features that cargo is to take as enabled.
pub struct Features {
    pub all_features: bool,
    pub no_default_features: bool,
    pub features: Vec<String>,
}

/// The command line.
pub struct Cli {
    /// The subcommand; none is a command of its own.
    pub command: Option<Commands>,
    pub workspace: Workspace,
    pub features: Features,
    /// Do not fetch the audits of other projects.
    pub locked: bool,
    pub verbose: Verbose,
    /// Whether a file for the diff cache was named.
    pub diff_cache: bool,
}

impl Cli {
    /// A command line for trials: nothing is set but that nothing is fetched or logged.
    pub fn mock() -> (r: Cli)
        ensures
            r.command is None,
            r.workspace.package@.len() == 0,
            !r.workspace.workspace,
            !r.workspace.all,
            r.workspace.exclude@.len() == 0,
            !r.features.all_features,
            !r.features.no_default_features,
            r.features.features@.len() == 0,
            r.locked,
            r.verbose == Verbose::Off,
            !r.diff_cache,
    {
        Cli {
            command: None,
            workspace: Workspace {
                package: Vec::new(),
                workspace: false,
                all: false,
                exclude: Vec::new(),
            },
            features: Features {
                all_features: false,
                no_default_features: false,
                features: Vec::new(),
            },
            locked: true,
            verbose: Verbose::Off,
            diff_cache: false,
        }
    }
}

/// One thing that `cargo metadata` is told about features.
pub enum FeatureOption {
    All,
    NoDefault,
    Listed(Vec<String>),
}

/// What a thing told about features says.
pub enum FeatureView {
    All,
    NoDefault,
    Listed(Seq<Seq<char>>),
}

impl View for FeatureOption {
    type V = FeatureView;

    open spec fn view(&self) -> FeatureView {
        match self {
            FeatureOption::All => FeatureView::All,
            FeatureOption::NoDefault => FeatureView::NoDefault,
            FeatureOption::Listed(v) => FeatureView::Listed(crate::text::texts(v@)),
        }
    }
}

/// What `cargo metadata` is told about features.
pub open spec fn feature_views(f: Features) -> Seq<FeatureView> {
    (if f.all_features {
        seq![FeatureView::All]
    } else {
        seq![]
    }) + (if f.no_default_features {
        seq![FeatureView::NoDefault]
    } else {
        seq![]
    }) + (if f.features@.len() > 0 {
        seq![FeatureView::Listed(crate::text::texts(f.features@))]
    } else {
        seq![]
    })
}

/// Copies a list of strings.
fn copy_strings(v: &Vec<String>) -> (r: Vec<String>)
    ensures
        crate::text::texts(r@) == crate::text::texts(v@),
{
    let mut out: Vec<String> = Vec::new();
    let mut i: usize = 0;
    while i < v.len()
        invariant
            i <= v@.len(),
            out@.len() == i,
            forall|j: int| 0 <= j < i ==> (#[trigger] out@[j])@ == v@[j]@,
        decreases v@.len() - i,
    {
        out.push(v[i].clone());
        i = i + 1;
    }
    assert(crate::text::texts(out@) == crate::text::texts(v@));
    out
}

/// What to tell `cargo metadata` about features.
pub fn feature_options(f: &Features) -> (r: Vec<FeatureOption>)
    ensures
        r@.map_values(|o: FeatureOption| o@) == feature_views(*f),
{
    let mut out: Vec<FeatureOption> = Vec::new();
    if f.all_features {
        out.push(FeatureOption::All);
    }
    if f.no_default_features {
        out.push(FeatureOption::NoDefault);
    }
    if f.features.len() > 0 {
        out.push(FeatureOption::Listed(copy_strings(&f.features)));
    }
    assert(out@.map_values(|o: FeatureOption| o@) == feature_views(*f));
    out
}

/// `flag` before each of `values`.
pub open spec fn flagged(flag: Seq<char>, values: Seq<String>) -> Seq<Seq<char>>
    decreases values.len(),
{
    if values.len() == 0 {
        seq![]
    } else {
        flagged(flag, values.drop_last()) + seq![flag, values.last()@]
    }
}

/// The further arguments of `cargo metadata`.
pub open spec fn other_texts(w: Workspace) -> Seq<Seq<char>> {
    (if w.all || w.workspace {
        seq!["--workspace"@]
    } else {
        seq![]
    }) + flagged("--package"@, w.package@) + flagged("--exclude"@, w.exclude@)
}

/// Adds the flag before each of the values.
fn push_flagged(out: &mut Vec<String>, flag: &str, values: &Vec<String>)
    ensures
        crate::text::texts(final(out)@) == crate::text::texts(old(out)@) + flagged(
            flag@,
            values@,
        ),
{
    let ghost start = crate::text::texts(out@);
    let mut i: usize = 0;
    assert(start + flagged(flag@, values@.take(0)) == start);
    while i < values.len()
        invariant
            i <= values@.len(),
            crate::text::texts(out@) == start + flagged(flag@, values@.take(i as int)),
        decreases values@.len() - i,
    {
        let ghost before = out@;
        out.push(flag.to_owned());
        out.push(values[i].clone());
        proof {
            assert(values@.take(i + 1).drop_last() == values@.take(i as int));
            assert(crate::text::texts(out@) == crate::text::texts(before) + seq![
                flag@,
                values@[i as int]@,
            ]);
        }
        i = i + 1;
    }
    assert(values@.take(i as int) == values@);
}

/// The further arguments of `cargo metadata`: the packages that are chosen or left out.
pub fn other_options(w: &Workspace) -> (r: Vec<String>)
    ensures
        crate::text::texts(r@) == other_texts(*w),
{
    let mut out: Vec<String> = Vec::new();
    if w.all || w.workspace {
        out.push("--workspace".to_owned());
    }
    assert(crate::text::texts(out@) == if w.all || w.workspace {
        seq!["--workspace"@]
    } else {
        seq![]
    });
    push_flagged(&mut out, "--package", &w.package);
    push_flagged(&mut out, "--exclude", &w.exclude);
    out
}

/// The command can run anywhere, whether or not there is a store.
pub open spec fn freestanding(command: Option<Commands>) -> bool {
    command matches Some(c) && (c is HelpMarkdown || c is Inspect || c is Diff)
}

/// Whether a command can run without a store.
pub fn is_freestanding(command: &Option<Commands>) -> (r: bool)
    ensures
        r == freestanding(*command),
{
    match command {
        Some(Commands::HelpMarkdown) => true,
        Some(Commands::Inspect(_)) => true,
        Some(Commands::Diff(_)) => true,
        _ => false,
    }
}

/// The command makes a new store.
pub open spec fn makes_store(command: Option<Commands>) -> bool {
    command matches Some(c) && c is Init
}

/// Why a command may not run.
#[derive(Clone, Copy, PartialEq, Eq, Debug, Structural)]
pub enum StartError {
    /// There is a store already.
    AlreadyInitialized,
    /// There is no store yet.
    NotInitialized,
}

/// Whether a store was made: its directory is there.
pub fn is_init(store_exists: bool) -> (r: bool)
    ensures
        r == store_exists,
{
    store_exists
}

/// Whether a command may run: `init` only where there is no store, the others, except those
/// that stand alone, only where there is one.
pub fn check_start(command: &Option<Commands>, init: bool) -> (r: Result<(), StartError>)
    ensures
        r == (if makes_store(*command) && init {
            Err::<(), StartError>(StartError::AlreadyInitialized)
        } else if !makes_store(*command) && !freestanding(*command) && !init {
            Err::<(), StartError>(StartError::NotInitialized)
        } else {
            Ok::<(), StartError>(())
        }),
{
    match command {
        Some(Commands::Init) => {
            if init {
                return Err(StartError::AlreadyInitialized);
            }
        },
        _ => {
            if !init && !is_freestanding(command) {
                return Err(StartError::NotInitialized);
            }
        },
    }
    Ok(())
}

/// Whether a check looks further down the dependency tree by guessing: only where a suggestion
/// asks for it.
pub fn guesses_deeper(command: &Option<Commands>) -> (r: bool)
    ensures
        r == (command matches Some(Commands::Suggest(args)) && args.guess_deeper),
{
    match command {
        Some(Commands::Suggest(args)) => args.guess_deeper,
        _ => false,
    }
}

/// What may run where: `init` only where there is no store; the manual, a look at a package and
/// a diff anywhere; and everything else only where there is a store.
pub proof fn law_commands_start_where_they_may(
    command: &Option<Commands>,
    init: bool,
    r: Result<(), StartError>,
    alone: bool,
)
    requires
        call_ensures(check_start, (command, init), r),
        call_ensures(is_freestanding, (command,), alone),
    ensures
        match command {
            Some(Commands::Init) => !alone && r == (if init {
                Err::<(), StartError>(StartError::AlreadyInitialized)
            } else {
                Ok::<(), StartError>(())
            }),
            Some(Commands::HelpMarkdown) => alone && r is Ok,
            Some(Commands::Inspect(_)) => alone && r is Ok,
            Some(Commands::Diff(_)) => alone && r is Ok,
            _ => !alone && r == (if init {
                Ok::<(), StartError>(())
            } else {
                Err::<(), StartError>(StartError::NotInitialized)
            }),
        },
{
}

/// One where something holds, and else zero.
pub open spec fn one_if(b: bool) -> int {
    if b {
        1
    } else {
        0
    }
}

/// What is told about features is what was asked for: all of them, none by default, and a list
/// where it names any, in this order and each at most once.
pub proof fn law_features_are_handed_on(f: &Features, r: Vec<FeatureOption>)
    requires
        call_ensures(feature_options, (f,), r),
    ensures
        ({
            let a = one_if(f.all_features);
            let b = one_if(f.no_default_features);
            let c = one_if(f.features@.len() > 0);
            &&& r@.len() == a + b + c
            &&& f.all_features ==> r@[0] is All
            &&& f.no_default_features ==> r@[a] is NoDefault
            &&& f.features@.len() > 0 ==> (r@[a + b] matches FeatureOption::Listed(list)
                && list@.len() == f.features@.len() && forall|i: int|
                0 <= i < list@.len() ==> (#[trigger] list@[i])@ == f.features@[i]@)
        }),
{
    let views = r@.map_values(|o: FeatureOption| o@);
    let a = one_if(f.all_features);
    let b = one_if(f.no_default_features);
    assert(views == feature_views(*f));
    assert(views.len() == r@.len());
    if f.all_features {
        assert(views[0] == r@[0]@);
    }
    if f.no_default_features {
        assert(views[a] == r@[a]@);
    }
    if f.features@.len() > 0 {
        assert(views[a + b] == r@[a + b]@);
        if let FeatureOption::Listed(list) = r@[a + b] {
            let l = crate::text::texts(list@);
            let m = crate::text::texts(f.features@);
            assert(l == m);
            assert(l.len() == list@.len() && m.len() == f.features@.len());
            assert forall|i: int| 0 <= i < list@.len() implies (#[trigger] list@[i])@
                == f.features@[i]@ by {
                assert(l[i] == list@[i]@);
                assert(m[i] == f.features@[i]@);
            }
        }
    }
}

/// The further arguments choose the workspace where that was asked for, then every package that
/// was named, then leave out every package that was excluded, each with its flag before it and in
/// order.
pub proof fn law_packages_are_handed_on(w: &Workspace, r: Vec<String>, i: int)
    requires
        call_ensures(other_options, (w,), r),
    ensures
        ({
            let a = one_if(w.all || w.workspace);
            let b = a + 2 * w.package@.len();
            &&& r@.len() == b + 2 * w.exclude@.len()
            &&& w.all || w.workspace ==> r@[0]@ == "--workspace"@
            &&& 0 <= i < w.package@.len() ==> r@[a + 2 * i]@ == "--package"@ && r@[a + 2 * i + 1]@
                == w.package@[i]@
            &&& 0 <= i < w.exclude@.len() ==> r@[b + 2 * i]@ == "--exclude"@ && r@[b + 2 * i + 1]@
                == w.exclude@[i]@
        }),
{
    let a = one_if(w.all || w.workspace);
    let b = a + 2 * w.package@.len();
    let t = crate::text::texts(r@);
    assert(t == other_texts(*w));
    assert(t.len() == r@.len());
    lemma_flagged("--package"@, w.package@, i);
    lemma_flagged("--exclude"@, w.exclude@, i);
    let p = flagged("--package"@, w.package@);
    let e = flagged("--exclude"@, w.exclude@);
    if w.all || w.workspace {
        assert(t[0] == r@[0]@);
    }
    if 0 <= i < w.package@.len() {
        assert(t[a + 2 * i] == p[2 * i]);
        assert(t[a + 2 * i + 1] == p[2 * i + 1]);
        assert(t[a + 2 * i] == r@[a + 2 * i]@ && t[a + 2 * i + 1] == r@[a + 2 * i + 1]@);
    }
    if 0 <= i < w.exclude@.len() {
        assert(t[b + 2 * i] == e[2 * i]);
        assert(t[b + 2 * i + 1] == e[2 * i + 1]);
        assert(t[b + 2 * i] == r@[b + 2 * i]@ && t[b + 2 * i + 1] == r@[b + 2 * i + 1]@);
    }
}

/// The flag and the values take turns.
proof fn lemma_flagged(flag: Seq<char>, values: Seq<String>, i: int)
    ensures
        flagged(flag, values).len() == 2 * values.len(),
        0 <= i < values.len() ==> flagged(flag, values)[2 * i] == flag && flagged(flag, values)[2 * i
            + 1] == values[i]@,
    decreases values.len(),
{
    if values.len() > 0 {
        let rest = values.drop_last();
        let n = rest.len();
        lemma_flagged(flag, rest, i);
        let two = seq![flag, values.last()@];
        let all = flagged(flag, values);
        assert(all == flagged(flag, rest) + two);
        if 0 <= i < n {
            assert(all[2 * i] == flagged(flag, rest)[2 * i]);
            assert(all[2 * i + 1] == flagged(flag, rest)[2 * i + 1]);
        } else if i == n {
            assert(all[2 * i] == two[0]);
            assert(all[2 * i + 1] == two[1]);
        }
    }
}

/// A check guesses further down the tree only where a suggestion asks for that.
pub proof fn law_only_a_suggestion_guesses(command: &Option<Commands>, r: bool)
    requires
        call_ensures(guesses_deeper, (command,), r),
    ensures
        match command {
            Some(Commands::Suggest(args)) => r == args.guess_deeper,
            _ => !r,
        },
{
}

/// A store was made exactly where its directory is there.
pub proof fn law_store_is_its_directory(store_exists: bool, r: bool)
    requires
        call_ensures(is_init, (store_exists,), r),
    ensures
        r == store_exists,
{
}

} // verus!
