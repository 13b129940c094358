//! The files of the store: where they lie, what they begin with, and what is taken from them.
use crate::format::{AuditsFile, ConfigFile, DiffCache, ImportsFile, UnauditedDependency};
use crate::metadata;
use crate::metadata::Package;
use crate::place::{Place, PlaceView, Root};
use crate::sorted;
use crate::stable_map;
use crate::stable_map::StableMap;
use crate::text;
use vstd::prelude::*;
use vstd::string::*;

verus! {

/// Why a file was not loaded.
pub enum LoadError {
    /// It could not be opened or read.
    Read(String),
    /// It does not hold the tables that it should hold.
    Parse(String),
    /// What it holds does not fit together.
    Invalid(String),
}

/// What came of reading a file, and then of taking its tables from what was read.
pub type ReadFile<F> = Result<Result<F, String>, String>;

/// The tables of a file, or why they could not be had.
pub open spec fn tables_of<F>(read: ReadFile<F>) -> Result<F, LoadError> {
    match read {
        Err(e) => Err(LoadError::Read(e)),
        Ok(Err(e)) => Err(LoadError::Parse(e)),
        Ok(Ok(f)) => Ok(f),
    }
}

/// The tables of a file, if they could be had and fit together.
pub open spec fn valid_tables_of<F>(read: ReadFile<F>, valid: Result<(), String>) -> Result<
    F,
    LoadError,
> {
    match (tables_of(read), valid) {
        (Ok(_), Err(m)) => Err(LoadError::Invalid(m)),
        (tables, _) => tables,
    }
}

/// Takes the tables of a file.
pub fn load_toml<F>(read: ReadFile<F>) -> (r: Result<F, LoadError>)
    ensures
        r == tables_of(read),
{
    match read {
        Err(e) => Err(LoadError::Read(e)),
        Ok(Err(e)) => Err(LoadError::Parse(e)),
        Ok(Ok(f)) => Ok(f),
    }
}

/// Takes the tables of a file, unless they were found not to fit together.
fn load_valid<F>(read: ReadFile<F>, valid: Result<(), String>) -> (r: Result<F, LoadError>)
    ensures
        r == valid_tables_of(read, valid),
{
    match load_toml(read) {
        Err(e) => Err(e),
        Ok(f) => match valid {
            Err(m) => Err(LoadError::Invalid(m)),
            Ok(_) => Ok(f),
        },
    }
}

/// Takes the audits file from what was read; `valid` tells whether the tables fit together.
pub fn load_audits<T>(read: ReadFile<AuditsFile<T>>, valid: Result<(), String>) -> (r: Result<
    AuditsFile<T>,
    LoadError,
>)
    ensures
        r == valid_tables_of(read, valid),
{
    load_valid(read, valid)
}

/// Takes the config file from what was read; `valid` tells whether the tables fit together.
pub fn load_config<T>(read: ReadFile<ConfigFile<T>>, valid: Result<(), String>) -> (r: Result<
    ConfigFile<T>,
    LoadError,
>)
    ensures
        r == valid_tables_of(read, valid),
{
    load_valid(read, valid)
}

/// Takes the imports lock from what was read; `valid` tells whether the tables fit together.
pub fn load_imports<T>(read: ReadFile<ImportsFile<T>>, valid: Result<(), String>) -> (r: Result<
    ImportsFile<T>,
    LoadError,
>)
    ensures
        r == valid_tables_of(read, valid),
{
    load_valid(read, valid)
}

/// Takes the diff cache from what was read.
pub fn load_diff_cache(read: ReadFile<DiffCache>) -> (r: Result<DiffCache, LoadError>)
    ensures
        r == tables_of(read),
{
    load_toml(read)
}

/// What is written to a file, and where it lies.
pub struct StoredFile {
    pub place: Place,
    pub text: String,
}

/// The text of a file: the heading, the tables, and the end of the line after each.
pub open spec fn file_text(heading: Seq<char>, tables: Seq<char>) -> Seq<char> {
    heading + "\n"@ + tables + "\n"@
}

/// Puts a heading before the tables.
pub fn store_toml(heading: &str, tables: &str) -> (r: String)
    ensures
        r@ == file_text(heading@, tables@),
{
    let mut text = heading.to_owned();
    text.append("\n");
    text.append(tables);
    text.append("\n");
    text
}

/// The place of a file in the store.
pub open spec fn in_store(name: Seq<char>) -> PlaceView {
    PlaceView { root: Root::Store, path: seq![name] }
}

/// The place of a file in the store.
fn store_place(name: &str) -> (r: Place)
    ensures
        r@ == in_store(name@),
{
    let r = Place::at(Root::Store).join(name.to_owned());
    assert(r@ == in_store(name@));
    r
}

/// Where the audits file lies.
pub fn audits_place() -> (r: Place)
    ensures
        r@ == in_store("audits.toml"@),
{
    store_place("audits.toml")
}

/// Where the config file lies.
pub fn config_place() -> (r: Place)
    ensures
        r@ == in_store("config.toml"@),
{
    store_place("config.toml")
}

/// Where the imports lock lies.
pub fn imports_place() -> (r: Place)
    ensures
        r@ == in_store("imports.lock"@),
{
    store_place("imports.lock")
}

/// The audits file, with the given tables in it.
pub fn store_audits(tables: &str) -> (r: StoredFile)
    ensures
        r.place@ == in_store("audits.toml"@),
        r.text@ == file_text("\n# cargo-vet audits file\n"@, tables@),
{
    StoredFile {
        place: audits_place(),
        text: store_toml("\n# cargo-vet audits file\n", tables),
    }
}

/// The config file, with the given tables in it.
pub fn store_config(tables: &str) -> (r: StoredFile)
    ensures
        r.place@ == in_store("config.toml"@),
        r.text@ == file_text("\n# cargo-vet config file\n"@, tables@),
{
    StoredFile {
        place: config_place(),
        text: store_toml("\n# cargo-vet config file\n", tables),
    }
}

/// The imports lock, with the given tables in it.
pub fn store_imports(tables: &str) -> (r: StoredFile)
    ensures
        r.place@ == in_store("imports.lock"@),
        r.text@ == file_text("\n# cargo-vet imports lock\n"@, tables@),
{
    StoredFile {
        place: imports_place(),
        text: store_toml("\n# cargo-vet imports lock\n", tables),
    }
}

/// The diff cache, with the given tables in it. It has no heading.
pub fn store_diff_cache(place: Place, tables: &str) -> (r: StoredFile)
    ensures
        r.place == place,
        r.text@ == file_text(""@, tables@),
{
    StoredFile { place, text: store_toml("", tables) }
}

/// The list without what may be suggested.
pub open spec fn not_suggested(s: Seq<UnauditedDependency>) -> Seq<UnauditedDependency> {
    s.filter(|d: UnauditedDependency| !d.suggest)
}

/// Removes what may be suggested from a list.
fn drop_suggested(list: Vec<UnauditedDependency>) -> (r: Vec<UnauditedDependency>)
    ensures
        r@ == not_suggested(list@),
{
    let mut list = list;
    let ghost all = list@;
    let ghost pred = |d: UnauditedDependency| !d.suggest;
    let ghost mut n: int = 0;
    let mut kept: Vec<UnauditedDependency> = Vec::new();
    proof {
        reveal(Seq::filter);
        assert(all.take(0).filter(pred) == Seq::<UnauditedDependency>::empty());
        assert(all.skip(0) == all);
    }
    while list.len() > 0
        invariant
            0 <= n <= all.len(),
            pred == (|d: UnauditedDependency| !d.suggest),
            list@ == all.skip(n),
            kept@ == all.take(n).filter(pred),
        decreases list@.len(),
    {
        let item = list.remove(0);
        proof {
            reveal(Seq::filter);
            assert(item == all[n]);
            assert(all.take(n + 1).drop_last() == all.take(n));
            assert(all.take(n + 1).last() == item);
            assert(list@ == all.skip(n + 1));
            n = n + 1;
        }
        if !item.suggest {
            kept.push(item);
        }
    }
    assert(all.take(n) == all);
    kept
}

/// `after` is `before` without the entries that may be suggested; every key stays.
pub open spec fn suggested_dropped(
    before: Seq<(Seq<char>, Vec<UnauditedDependency>)>,
    after: Seq<(Seq<char>, Vec<UnauditedDependency>)>,
) -> bool {
    &&& after.len() == before.len()
    &&& forall|i: int|
        0 <= i < before.len() ==> (#[trigger] after[i]).0 == before[i].0 && after[i].1@
            == not_suggested(before[i].1@)
}

/// Forgets the unaudited dependencies that may be suggested for an audit, so that a check asks
/// for them.
pub fn forget_suggested<T>(config: &mut ConfigFile<T>)
    ensures
        suggested_dropped(old(config).unaudited@, final(config).unaudited@),
        final(config).unaudited@.len() == old(config).unaudited@.len(),
        forall|i: int|
            0 <= i < old(config).unaudited@.len() ==> (#[trigger] final(config).unaudited@[i]).0
                == old(config).unaudited@[i].0 && final(config).unaudited@[i].1@
                == old(config).unaudited@[i].1@.filter(|d: UnauditedDependency| !d.suggest),
        final(config).default_criteria == old(config).default_criteria,
        final(config).imports == old(config).imports,
        final(config).policy == old(config).policy,
{
    let ghost before = config.unaudited@;
    let n: usize = config.unaudited.len();
    let mut i: usize = 0;
    while i < n
        invariant
            i <= n,
            n == before.len(),
            config.unaudited@.len() == n,
            config.default_criteria == old(config).default_criteria,
            config.imports == old(config).imports,
            config.policy == old(config).policy,
            forall|j: int|
                0 <= j < i ==> (#[trigger] config.unaudited@[j]).0 == before[j].0
                    && config.unaudited@[j].1@ == not_suggested(before[j].1@),
            forall|j: int| i <= j < n ==> #[trigger] config.unaudited@[j] == before[j],
        decreases n - i,
    {
        let list = config.unaudited.replace_at(i, Vec::new());
        let kept = drop_suggested(list);
        config.unaudited.replace_at(i, kept);
        i = i + 1;
    }
}

/// What came of asking for the audits of another project.
pub enum ForeignReply<T> {
    /// They could not be fetched.
    NotLoaded(String),
    /// What was fetched is not an audits file.
    NotParsed(String),
    /// The audits file.
    Parsed(AuditsFile<T>),
}

/// The message for an import that could not be fetched or read.
pub open spec fn import_message(
    what: Seq<char>,
    name: Seq<char>,
    url: Seq<char>,
    error: Seq<char>,
) -> Seq<char> {
    "Could not "@ + what + " "@ + name + " @ "@ + url + " - "@ + error
}

/// Writes the message for an import that could not be fetched or read.
fn import_error(what: &str, name: &str, url: &str, error: &str) -> (r: String)
    ensures
        r@ == import_message(what@, name@, url@, error@),
{
    let mut s = "Could not ".to_owned();
    s.append(what);
    s.append(" ");
    s.append(name);
    s.append(" @ ");
    s.append(url);
    s.append(" - ");
    s.append(error);
    s
}

/// The first `n` replies are all audits files.
pub open spec fn all_parsed<T>(replies: Seq<ForeignReply<T>>, n: int) -> bool {
    forall|i: int| 0 <= i < n ==> (#[trigger] replies[i]) is Parsed
}

/// There is a reply for every import up to the first that failed.
pub open spec fn enough_replies<T>(replies: Seq<ForeignReply<T>>, n: int) -> bool {
    forall|i: int| 0 <= i < n && #[trigger] all_parsed(replies, i) ==> i < replies.len()
}

/// Collects the audits of other projects, given what came of asking for each, in the order of
/// the imports. The first that failed ends it.
pub fn fetch_foreign_audits<T>(config: &ConfigFile<T>, replies: Vec<ForeignReply<T>>) -> (r: Result<
    ImportsFile<T>,
    String,
>)
    requires
        enough_replies(replies@, config.imports@.len() as int),
    ensures
        r is Ok == all_parsed(replies@, config.imports@.len() as int),
        r matches Ok(imports) ==> {
            &&& imports.audits@.len() == config.imports@.len()
            &&& forall|i: int|
                0 <= i < config.imports@.len() ==> (#[trigger] imports.audits@[i]).0
                    == config.imports@[i].0 && imports.audits@[i].1 == replies@[i]->Parsed_0
        },
        r matches Err(message) ==> exists|i: int|
            0 <= i < config.imports@.len() && #[trigger] all_parsed(replies@, i) && (
            match replies@[i] {
                ForeignReply::NotLoaded(e) => message@ == import_message(
                    "load"@,
                    config.imports@[i].0,
                    config.imports@[i].1.url@,
                    e@,
                ),
                ForeignReply::NotParsed(e) => message@ == import_message(
                    "parse"@,
                    config.imports@[i].0,
                    config.imports@[i].1.url@,
                    e@,
                ),
                ForeignReply::Parsed(_) => false,
            }),
{
    let ghost all = replies@;
    let ghost imports = config.imports@;
    let mut rest = replies;
    let n: usize = config.imports.len();
    let mut audits: StableMap<String, AuditsFile<T>> = StableMap::new();
    let mut i: usize = 0;
    proof {
        use_type_invariant(&config.imports);
        assert(all.skip(0) == all);
    }
    while i < n
        invariant
            i <= n,
            n == imports.len(),
            imports == config.imports@,
            stable_map::unique_keys(imports),
            i <= all.len(),
            enough_replies(all, n as int),
            all_parsed(all, i as int),
            all == replies@,
            rest@ == all.skip(i as int),
            audits@.len() == i,
            forall|j: int|
                0 <= j < i ==> (#[trigger] audits@[j]).0 == imports[j].0 && audits@[j].1
                    == all[j]->Parsed_0,
        decreases n - i,
    {
        assert(i < all.len());
        let reply = rest.remove(0);
        assert(reply == all[i as int]);
        let name = config.imports.key_at(i);
        let url = config.imports.value_at(i).url.as_str();
        match reply {
            ForeignReply::NotLoaded(e) => {
                return Err(import_error("load", name.as_str(), url, e.as_str()));
            },
            ForeignReply::NotParsed(e) => {
                return Err(import_error("parse", name.as_str(), url, e.as_str()));
            },
            ForeignReply::Parsed(file) => {
                proof {
                    if stable_map::has_key(audits@, name@) {
                        let k = stable_map::key_index(audits@, name@);
                        assert(audits@[k].0 == imports[k].0);
                        assert(imports[k].0 == imports[i as int].0);
                    }
                }
                audits.insert(name.clone(), file);
                assert(rest@ == all.skip(i + 1));
            },
        }
        i = i + 1;
    }
    Ok(ImportsFile { audits })
}

/// The heading of a file comes before the tables and leaves their lines as they are.
pub proof fn law_heading_keeps_tables(heading: Seq<char>, tables: Seq<char>)
    ensures
        text::lines_of(file_text(heading, tables)) == text::lines_of(heading + "\n"@)
            + text::lines_of(tables + "\n"@),
{
    reveal_strlit("\n");
    text::lemma_lines_append(heading, tables + "\n"@);
    assert("\n"@ == seq!['\n']);
    assert(file_text(heading, tables) == heading + seq!['\n'] + (tables + "\n"@));
}

/// Nothing that may be suggested is left, and everything else is, in its order.
proof fn lemma_not_suggested(s: Seq<UnauditedDependency>)
    ensures
        forall|j: int| 0 <= j < not_suggested(s).len() ==> !(#[trigger] not_suggested(s)[j]).suggest,
        (forall|j: int| 0 <= j < s.len() ==> !(#[trigger] s[j]).suggest) ==> not_suggested(s) == s,
        (forall|j: int| 0 <= j < s.len() ==> (#[trigger] s[j]).suggest) ==> not_suggested(s).len()
            == 0,
    decreases s.len(),
{
    reveal(Seq::filter);
    if s.len() > 0 {
        let rest = s.drop_last();
        lemma_not_suggested(rest);
        assert(s[s.len() - 1] == s.last());
        assert(forall|j: int| 0 <= j < rest.len() ==> rest[j] == s[j]);
        if !s.last().suggest {
            assert(not_suggested(s) == not_suggested(rest).push(s.last()));
        } else {
            assert(not_suggested(s) == not_suggested(rest));
        }
        if forall|j: int| 0 <= j < s.len() ==> !(#[trigger] s[j]).suggest {
            assert(rest.push(s.last()) == s);
        }
    }
}

/// Once what may be suggested is forgotten, nothing that may be suggested is left, and to
/// forget it again changes nothing.
pub proof fn law_forgetting_is_complete(
    before: Seq<(Seq<char>, Vec<UnauditedDependency>)>,
    after: Seq<(Seq<char>, Vec<UnauditedDependency>)>,
    again: Seq<(Seq<char>, Vec<UnauditedDependency>)>,
    i: int,
)
    requires
        suggested_dropped(before, after),
        suggested_dropped(after, again),
        0 <= i < before.len(),
    ensures
        forall|j: int| 0 <= j < after[i].1@.len() ==> !(#[trigger] after[i].1@[j]).suggest,
        again[i].0 == after[i].0,
        again[i].1@ == after[i].1@,
{
    assert(after[i].1@ == not_suggested(before[i].1@));
    assert(again[i].0 == after[i].0);
    lemma_not_suggested(before[i].1@);
    lemma_not_suggested(after[i].1@);
}

/// Everything that a fresh store accepts may be suggested: a suggestion forgets all of it.
pub proof fn law_fresh_store_suggests_all(
    unaudited: Seq<(Seq<char>, Vec<UnauditedDependency>)>,
    packages: Seq<Package>,
    criteria: Seq<char>,
    after: Seq<(Seq<char>, Vec<UnauditedDependency>)>,
    i: int,
)
    requires
        metadata::is_imported(unaudited, packages, criteria),
        suggested_dropped(unaudited, after),
        0 <= i < after.len(),
    ensures
        after[i].1@.len() == 0,
{
    let list = unaudited[i].1@;
    let views = crate::format::unaudited_views(list);
    let entries = metadata::imported_as(packages, unaudited[i].0, criteria);
    assert(views == entries);
    assert forall|j: int| 0 <= j < list.len() implies (#[trigger] list[j]).suggest by {
        assert(views[j] == list[j]@);
        assert(entries[j].suggest);
    }
    lemma_not_suggested(list);
    assert(after[i].1@ == not_suggested(unaudited[i].1@));
}

/// A file is loaded exactly where it could be read, held the right tables, and these fit
/// together; then it is handed on as it was read, and else the error tells the first of these
/// that failed, and why.
pub proof fn law_files_are_loaded_as_read<T>(
    audits: ReadFile<AuditsFile<T>>,
    config: ReadFile<ConfigFile<T>>,
    imports: ReadFile<ImportsFile<T>>,
    cache: ReadFile<DiffCache>,
    valid: Result<(), String>,
    r1: Result<AuditsFile<T>, LoadError>,
    r2: Result<ConfigFile<T>, LoadError>,
    r3: Result<ImportsFile<T>, LoadError>,
    r4: Result<DiffCache, LoadError>,
)
    requires
        call_ensures(load_audits::<T>, (audits, valid), r1),
        call_ensures(load_config::<T>, (config, valid), r2),
        call_ensures(load_imports::<T>, (imports, valid), r3),
        call_ensures(load_diff_cache, (cache,), r4),
    ensures
        audits matches Ok(Ok(f)) ==> (if valid is Ok {
            r1 == Ok::<AuditsFile<T>, LoadError>(f)
        } else {
            r1 == Err::<AuditsFile<T>, LoadError>(LoadError::Invalid(valid->Err_0))
        }),
        audits matches Ok(Err(m)) ==> r1 == Err::<AuditsFile<T>, LoadError>(LoadError::Parse(m)),
        audits matches Err(m) ==> r1 == Err::<AuditsFile<T>, LoadError>(LoadError::Read(m)),
        config matches Ok(Ok(f)) ==> (if valid is Ok {
            r2 == Ok::<ConfigFile<T>, LoadError>(f)
        } else {
            r2 == Err::<ConfigFile<T>, LoadError>(LoadError::Invalid(valid->Err_0))
        }),
        config matches Ok(Err(m)) ==> r2 == Err::<ConfigFile<T>, LoadError>(LoadError::Parse(m)),
        config matches Err(m) ==> r2 == Err::<ConfigFile<T>, LoadError>(LoadError::Read(m)),
        imports matches Ok(Ok(f)) ==> (if valid is Ok {
            r3 == Ok::<ImportsFile<T>, LoadError>(f)
        } else {
            r3 == Err::<ImportsFile<T>, LoadError>(LoadError::Invalid(valid->Err_0))
        }),
        imports matches Ok(Err(m)) ==> r3 == Err::<ImportsFile<T>, LoadError>(LoadError::Parse(m)),
        imports matches Err(m) ==> r3 == Err::<ImportsFile<T>, LoadError>(LoadError::Read(m)),
        cache matches Ok(Ok(f)) ==> r4 == Ok::<DiffCache, LoadError>(f),
        cache matches Ok(Err(m)) ==> r4 == Err::<DiffCache, LoadError>(LoadError::Parse(m)),
        cache matches Err(m) ==> r4 == Err::<DiffCache, LoadError>(LoadError::Read(m)),
{
}

/// A stored file holds a heading, the tables as they are, and the end of a line after each; it is
/// stored where it is loaded from.
pub proof fn law_files_hold_their_tables(
    tables: &str,
    audits: StoredFile,
    config: StoredFile,
    imports: StoredFile,
    place: Place,
    cache: StoredFile,
    audits_at: Place,
    config_at: Place,
    imports_at: Place,
)
    requires
        call_ensures(store_audits, (tables,), audits),
        call_ensures(store_config, (tables,), config),
        call_ensures(store_imports, (tables,), imports),
        call_ensures(store_diff_cache, (place, tables), cache),
        call_ensures(audits_place, (), audits_at),
        call_ensures(config_place, (), config_at),
        call_ensures(imports_place, (), imports_at),
    ensures
        audits.text@ == "\n# cargo-vet audits file\n"@ + "\n"@ + tables@ + "\n"@,
        config.text@ == "\n# cargo-vet config file\n"@ + "\n"@ + tables@ + "\n"@,
        imports.text@ == "\n# cargo-vet imports lock\n"@ + "\n"@ + tables@ + "\n"@,
        cache.text@ == "\n"@ + tables@ + "\n"@,
        audits.place@ == audits_at@ && audits_at@.path == seq!["audits.toml"@],
        config.place@ == config_at@ && config_at@.path == seq!["config.toml"@],
        imports.place@ == imports_at@ && imports_at@.path == seq!["imports.lock"@],
        audits_at@.root == Root::Store && config_at@.root == Root::Store && imports_at@.root
            == Root::Store,
        cache.place == place,
{
    reveal_strlit("");
    assert(""@ + "\n"@ == "\n"@);
}

/// To forget what may be suggested takes away exactly the entries that are marked so: every
/// package stays, and its other entries stay as they are, in order. `at` tells where each of
/// them stood.
pub proof fn law_forgetting_keeps_the_rest(
    before: Seq<(Seq<char>, Vec<UnauditedDependency>)>,
    after: Seq<(Seq<char>, Vec<UnauditedDependency>)>,
    i: int,
) -> (at: Seq<int>)
    requires
        suggested_dropped(before, after),
        0 <= i < before.len(),
    ensures
        after.len() == before.len(),
        after[i].0 == before[i].0,
        sorted::picks(at, before[i].1@.len() as int, |k: int| !before[i].1@[k].suggest),
        after[i].1@.len() == at.len(),
        forall|j: int| 0 <= j < at.len() ==> #[trigger] after[i].1@[j] == before[i].1@[at[j]],
{
    let list = before[i].1@;
    let pred = |d: UnauditedDependency| !d.suggest;
    let at = sorted::lemma_filter_picks(list, pred);
    assert(after[i].1@ == not_suggested(before[i].1@));
    let by_pred = |k: int| pred(list[k]);
    let chosen = |k: int| !before[i].1@[k].suggest;
    assert forall|k: int| 0 <= k < list.len() && #[trigger] chosen(k) implies at.contains(k) by {
        assert(by_pred(k));
    }
    assert forall|j: int| 0 <= j < at.len() implies 0 <= #[trigger] at[j] < list.len() && chosen(
        at[j],
    ) by {
        assert(by_pred(at[j]));
    }
    at
}

/// The audits of other projects are collected exactly where all of them came: one file for each
/// import, under its name, as it came. Else the message names the first import that failed, its
/// address and why.
pub proof fn law_imports_are_collected<T>(
    config: &ConfigFile<T>,
    replies: Vec<ForeignReply<T>>,
    r: Result<ImportsFile<T>, String>,
)
    requires
        call_ensures(fetch_foreign_audits::<T>, (config, replies), r),
        replies@.len() == config.imports@.len(),
    ensures
        r is Ok == (forall|i: int|
            0 <= i < replies@.len() ==> (#[trigger] replies@[i]) is Parsed),
        r matches Ok(imports) ==> imports.audits@.len() == replies@.len() && forall|i: int|
            0 <= i < replies@.len() ==> (#[trigger] imports.audits@[i]).0 == config.imports@[i].0
                && replies@[i] == ForeignReply::Parsed(imports.audits@[i].1),
        r matches Err(m) ==> exists|i: int|
            0 <= i < replies@.len() && (forall|j: int|
                0 <= j < i ==> (#[trigger] replies@[j]) is Parsed) && (
            match #[trigger] replies@[i] {
                ForeignReply::NotLoaded(e) => m@ == "Could not load "@ + config.imports@[i].0
                    + " @ "@ + config.imports@[i].1.url@ + " - "@ + e@,
                ForeignReply::NotParsed(e) => m@ == "Could not parse "@ + config.imports@[i].0
                    + " @ "@ + config.imports@[i].1.url@ + " - "@ + e@,
                ForeignReply::Parsed(_) => false,
            }),
{
    if let Err(m) = r {
        let i = choose|i: int|
            0 <= i < config.imports@.len() && #[trigger] all_parsed(replies@, i) && (
            match replies@[i] {
                ForeignReply::NotLoaded(e) => m@ == import_message(
                    "load"@,
                    config.imports@[i].0,
                    config.imports@[i].1.url@,
                    e@,
                ),
                ForeignReply::NotParsed(e) => m@ == import_message(
                    "parse"@,
                    config.imports@[i].0,
                    config.imports@[i].1.url@,
                    e@,
                ),
                ForeignReply::Parsed(_) => false,
            });
        reveal_strlit("Could not ");
        reveal_strlit("load");
        reveal_strlit("parse");
        reveal_strlit(" ");
        reveal_strlit("Could not load ");
        reveal_strlit("Could not parse ");
        assert("Could not "@ + "load"@ + " "@ == "Could not load "@);
        assert("Could not "@ + "parse"@ + " "@ == "Could not parse "@);
        assert(replies@[i] is NotLoaded || replies@[i] is NotParsed);
    }
    if let Ok(imports) = r {
        assert forall|i: int| 0 <= i < replies@.len() implies (#[trigger] imports.audits@[i]).0
            == config.imports@[i].0 && replies@[i] == ForeignReply::Parsed(imports.audits@[i].1) by {
            assert(replies@[i] is Parsed);
        }
    }
}

/// After what may be suggested was forgotten, no entry that is left may be suggested, every entry
/// that may not be is still there, and the rest of the config is as it was.
pub proof fn law_forgetting_a_config<T>(i: int, k: int)
    ensures
        forall|config: &mut ConfigFile<T>| #[trigger]
            call_ensures(forget_suggested::<T>, (config,), ()) && 0 <= i
                < (*config).unaudited@.len() ==> {
                let before = (*config).unaudited@;
                let after = (*final(config)).unaudited@;
                &&& after.len() == before.len()
                &&& after[i].0 == before[i].0
                &&& 0 <= k < after[i].1@.len() ==> !after[i].1@[k].suggest
                &&& 0 <= k < before[i].1@.len() && !before[i].1@[k].suggest
                    ==> after[i].1@.contains(before[i].1@[k])
                &&& (*final(config)).default_criteria == (*config).default_criteria
                &&& (*final(config)).imports == (*config).imports
                &&& (*final(config)).policy == (*config).policy
            },
{
    assert forall|config: &mut ConfigFile<T>| #[trigger]
        call_ensures(forget_suggested::<T>, (config,), ()) && 0 <= i
            < (*config).unaudited@.len() implies {
        let before = (*config).unaudited@;
        let after = (*final(config)).unaudited@;
        &&& after.len() == before.len()
        &&& after[i].0 == before[i].0
        &&& 0 <= k < after[i].1@.len() ==> !after[i].1@[k].suggest
        &&& 0 <= k < before[i].1@.len() && !before[i].1@[k].suggest ==> after[i].1@.contains(
            before[i].1@[k],
        )
        &&& (*final(config)).default_criteria == (*config).default_criteria
        &&& (*final(config)).imports == (*config).imports
        &&& (*final(config)).policy == (*config).policy
    } by {
        let before = (*config).unaudited@;
        let after = (*final(config)).unaudited@;
        let at = law_forgetting_keeps_the_rest(before, after, i);
        let chosen = |k: int| !before[i].1@[k].suggest;
        if 0 <= k < after[i].1@.len() {
            assert(after[i].1@[k] == before[i].1@[at[k]]);
            assert(chosen(at[k]));
        }
        if 0 <= k < before[i].1@.len() && !before[i].1@[k].suggest {
            assert(chosen(k));
            let j = choose|j: int| 0 <= j < at.len() && at[j] == k;
            assert(after[i].1@[j] == before[i].1@[k]);
        }
    }
}

} // verus!
