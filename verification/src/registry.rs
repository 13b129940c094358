//! Finding the package sources that cargo keeps.
use crate::text;
use vstd::prelude::*;
use vstd::string::*;

verus! {

/// One entry of the directory `registry/src` in the cargo home.
pub struct RegistryEntry {
    pub name: String,
    pub is_dir: bool,
}

/// Why no package sources were found.
pub enum RegistryError {
    /// There is no cargo home.
    NoCargoHome,
    /// The cargo home holds no package sources.
    NoCache,
    /// The directory could not be read.
    Read(String),
    /// No directory stands in it.
    NoSources,
}

impl RegistryError {
    /// The message for the error.
    pub open spec fn text(self) -> Seq<char> {
        match self {
            RegistryError::NoCargoHome => "Could not resolve CARGO_HOME!?"@,
            RegistryError::NoCache => "Cargo registry src cache doesn't exist!?"@,
            RegistryError::Read(e) => e@,
            RegistryError::NoSources => "failed to find cargo package sources"@,
        }
    }

    /// Writes the message for the error.
    pub fn message(&self) -> (r: String)
        ensures
            r@ == self.text(),
    {
        match self {
            RegistryError::NoCargoHome => "Could not resolve CARGO_HOME!?".to_owned(),
            RegistryError::NoCache => "Cargo registry src cache doesn't exist!?".to_owned(),
            RegistryError::Read(e) => e.clone(),
            RegistryError::NoSources => "failed to find cargo package sources".to_owned(),
        }
    }
}

/// What the directory is read as: its entries, each of which may have failed to be read.
pub type Listing = Result<Vec<Result<RegistryEntry, String>>, String>;

/// The first `n` entries could be read.
pub open spec fn all_read(entries: Seq<Result<RegistryEntry, String>>, n: int) -> bool {
    forall|i: int| 0 <= i < n ==> (#[trigger] entries[i]) is Ok
}

/// The entry in the given place is a directory.
pub open spec fn is_dir(entries: Seq<Result<RegistryEntry, String>>, i: int) -> bool {
    entries[i] matches Ok(e) && e.is_dir
}

/// The entry in the given place has a name of the kind that cargo gives to crates.io.
pub open spec fn is_preferred(entries: Seq<Result<RegistryEntry, String>>, i: int) -> bool {
    entries[i] matches Ok(e) && text::begins_with(e.name@, "github.com-"@)
}

/// Among the first `n` entries, the one in place `c` holds the package sources: it is a
/// directory, no directory with a preferred name follows it, and it is either the first
/// directory or has a preferred name.
pub open spec fn is_choice(entries: Seq<Result<RegistryEntry, String>>, n: int, c: int) -> bool {
    &&& 0 <= c < n
    &&& is_dir(entries, c)
    &&& forall|i: int| c < i < n && #[trigger] is_dir(entries, i) ==> !is_preferred(entries, i)
    &&& is_preferred(entries, c) || forall|i: int| 0 <= i < c ==> !#[trigger] is_dir(entries, i)
}

/// Only one entry can hold the package sources.
pub proof fn law_choice_is_unique(
    entries: Seq<Result<RegistryEntry, String>>,
    n: int,
    c: int,
    d: int,
)
    requires
        is_choice(entries, n, c),
        is_choice(entries, n, d),
    ensures
        c == d,
{
    if c < d {
        assert(is_dir(entries, c) && is_dir(entries, d));
    }
    if d < c {
        assert(is_dir(entries, c) && is_dir(entries, d));
    }
}

/// What comes of looking for the package sources.
pub open spec fn is_registry(
    cargo_home: bool,
    exists_src: bool,
    listing: Listing,
    r: Result<usize, RegistryError>,
) -> bool {
    if !cargo_home {
        r matches Err(e) && e is NoCargoHome
    } else if !exists_src {
        r matches Err(e) && e is NoCache
    } else {
        match listing {
            Err(m) => r == Err::<usize, RegistryError>(RegistryError::Read(m)),
            Ok(entries) => {
                let n = entries@.len() as int;
                if !all_read(entries@, n) {
                    exists|i: int|
                        0 <= i < n && #[trigger] all_read(entries@, i) && entries@[i] is Err && r
                            == Err::<usize, RegistryError>(
                            RegistryError::Read(entries@[i]->Err_0),
                        )
                } else {
                    match r {
                        Ok(c) => is_choice(entries@, n, c as int),
                        Err(e) => e is NoSources && forall|i: int|
                            0 <= i < n ==> !#[trigger] is_dir(entries@, i),
                    }
                }
            },
        }
    }
}

/// Finds the directory with the package sources: its place among the entries of `registry/src`.
/// Its name is not fixed; among several, one that begins with `github.com-` is preferred.
pub fn find_cargo_registry(cargo_home: bool, exists_src: bool, listing: Listing) -> (r: Result<
    usize,
    RegistryError,
>)
    ensures
        is_registry(cargo_home, exists_src, listing, r),
{
    if !cargo_home {
        return Err(RegistryError::NoCargoHome);
    }
    if !exists_src {
        return Err(RegistryError::NoCache);
    }
    let entries = match listing {
        Ok(entries) => entries,
        Err(e) => return Err(RegistryError::Read(e)),
    };
    let mut found: Option<usize> = None;
    let mut i: usize = 0;
    while i < entries.len()
        invariant
            i <= entries@.len(),
            all_read(entries@, i as int),
            cargo_home,
            exists_src,
            listing == Ok::<Vec<Result<RegistryEntry, String>>, String>(entries),
            match found {
                Some(c) => is_choice(entries@, i as int, c as int),
                None => forall|j: int| 0 <= j < i ==> !#[trigger] is_dir(entries@, j),
            },
        decreases entries@.len() - i,
    {
        match &entries[i] {
            Err(e) => {
                assert(entries@[i as int]->Err_0 == *e);
                let m = e.clone();
                assert(!all_read(entries@, entries@.len() as int));
                return Err(RegistryError::Read(m));
            },
            Ok(entry) => {
                assert(is_dir(entries@, i as int) == entry.is_dir);
                assert(is_preferred(entries@, i as int) == text::begins_with(
                    entry.name@,
                    "github.com-"@,
                ));
                if entry.is_dir {
                    if found.is_none() || text::starts_with(entry.name.as_str(), "github.com-") {
                        found = Some(i);
                    }
                }
            },
        }
        i = i + 1;
    }
    match found {
        Some(c) => Ok(c),
        None => Err(RegistryError::NoSources),
    }
}

/// Where some directory has a preferred name, one with a preferred name is chosen.
pub proof fn law_preferred_is_chosen(
    entries: Seq<Result<RegistryEntry, String>>,
    n: int,
    c: int,
    p: int,
)
    requires
        is_choice(entries, n, c),
        0 <= p < n,
        is_dir(entries, p),
        is_preferred(entries, p),
    ensures
        is_preferred(entries, c),
{
}

/// The package sources lie in a directory. Where some directory has a name that begins with
/// `github.com-`, it is the last such directory; and else the first directory of all.
pub proof fn law_sources_lie_in_the_right_directory(
    entries: Vec<Result<RegistryEntry, String>>,
    r: Result<usize, RegistryError>,
    i: int,
)
    requires
        call_ensures(find_cargo_registry, (true, true, Ok(entries)), r),
        r is Ok,
        0 <= i < entries@.len(),
    ensures
        ({
            let c = r->Ok_0 as int;
            let prefix = "github.com-"@;
            let chosen = entries@[c]->Ok_0;
            let other = entries@[i]->Ok_0;
            &&& c < entries@.len()
            &&& entries@[c] is Ok && chosen.is_dir
            &&& entries@[i] is Ok
            &&& other.is_dir && other.name@.len() >= prefix.len() && other.name@.take(
                prefix.len() as int,
            ) == prefix ==> i <= c && chosen.name@.len() >= prefix.len() && chosen.name@.take(
                prefix.len() as int,
            ) == prefix
            &&& other.is_dir && !(chosen.name@.len() >= prefix.len() && chosen.name@.take(
                prefix.len() as int,
            ) == prefix) ==> c <= i
        }),
{
    let c = r->Ok_0 as int;
    assert(is_choice(entries@, entries@.len() as int, c));
    assert(is_dir(entries@, c));
    assert(is_dir(entries@, i) == (entries@[i] matches Ok(e) && e.is_dir));
    assert(is_preferred(entries@, i) == (entries@[i] matches Ok(e) && text::begins_with(
        e.name@,
        "github.com-"@,
    )));
}

/// The package sources are found exactly where there is a cargo home with a directory for them,
/// every entry of it can be read, and one of them is a directory; and else the error tells which
/// of these fails.
pub proof fn law_sources_are_found_or_missed_for_a_reason(
    cargo_home: bool,
    exists_src: bool,
    listing: Listing,
    r: Result<usize, RegistryError>,
)
    requires
        call_ensures(find_cargo_registry, (cargo_home, exists_src, listing), r),
    ensures
        r is Ok == (cargo_home && exists_src && (listing matches Ok(entries) && (forall|i: int|
            0 <= i < entries@.len() ==> (#[trigger] entries@[i]) is Ok) && exists|i: int|
            0 <= i < entries@.len() && (#[trigger] entries@[i])->Ok_0.is_dir)),
        (r matches Err(e) && e is NoCargoHome) == !cargo_home,
        (r matches Err(e) && e is NoCache) == (cargo_home && !exists_src),
        (r matches Err(e) && e is NoSources) == (cargo_home && exists_src && (
        listing matches Ok(entries) && forall|i: int|
            0 <= i < entries@.len() ==> (#[trigger] entries@[i] matches Ok(e) && !e.is_dir))),
{
    if let Ok(entries) = listing {
        let n = entries@.len() as int;
        if cargo_home && exists_src && all_read(entries@, n) {
            if let Ok(c) = r {
                assert(is_dir(entries@, c as int));
                assert(entries@[c as int]->Ok_0.is_dir);
            } else {
                assert forall|i: int| 0 <= i < n implies (#[trigger] entries@[i] matches Ok(e)
                    && !e.is_dir) by {
                    assert(!is_dir(entries@, i));
                }
            }
        }
    }
}

/// Every error has a message of its own; one of reading says what was read.
pub proof fn law_messages_tell_the_error(e: &RegistryError, m: String)
    requires
        call_ensures(RegistryError::message, (e,), m),
    ensures
        match e {
            RegistryError::NoCargoHome => m@ == "Could not resolve CARGO_HOME!?"@,
            RegistryError::NoCache => m@ == "Cargo registry src cache doesn't exist!?"@,
            RegistryError::Read(why) => m@ == why@,
            RegistryError::NoSources => m@ == "failed to find cargo package sources"@,
        },
{
}

} // verus!
