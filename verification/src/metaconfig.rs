//! The `[metadata.vet]` tables of a workspace and its root package.
use vstd::prelude::*;

verus! {

/// Where the store is.
pub struct Store {
    pub path: Option<String>,
}

/// The settings of one table.
pub struct MetaConfigInstance {
    pub version: Option<u64>,
    pub store: Option<Store>,
}

impl MetaConfigInstance {
    /// The path of the store that this table sets.
    pub open spec fn path(self) -> Option<String> {
        match self.store {
            Some(store) => store.path,
            None => None,
        }
    }
}

/// The version that the last table which sets one sets.
pub open spec fn version_of(tables: Seq<MetaConfigInstance>) -> Option<u64>
    decreases tables.len(),
{
    if tables.len() == 0 {
        None
    } else if tables.last().version is Some {
        tables.last().version
    } else {
        version_of(tables.drop_last())
    }
}

/// The path of the store that the last table which sets one sets.
pub open spec fn store_path_of(tables: Seq<MetaConfigInstance>) -> Option<String>
    decreases tables.len(),
{
    if tables.len() == 0 {
        None
    } else if tables.last().path() is Some {
        tables.last().path()
    } else {
        store_path_of(tables.drop_last())
    }
}

/// All tables that hold, the later ones before the earlier ones. Every setting is made by one
/// of them.
pub struct MetaConfig {
    tables: Vec<MetaConfigInstance>,
}

impl View for MetaConfig {
    type V = Seq<MetaConfigInstance>;

    closed spec fn view(&self) -> Seq<MetaConfigInstance> {
        self.tables@
    }
}

impl MetaConfig {
    /// The first table, that of the defaults, makes every setting.
    #[verifier::type_invariant]
    pub open spec fn well_formed(self) -> bool {
        self@.len() > 0 && self@[0].version is Some && self@[0].path() is Some
    }

    /// The version of the settings.
    pub fn version(&self) -> (r: u64)
        ensures
            version_of(self@) == Some(r),
    {
        proof {
            use_type_invariant(self);
        }
        let mut i: usize = self.tables.len();
        assert(self@.take(i as int) == self@);
        loop
            invariant
                0 < i <= self@.len(),
                self.well_formed(),
                version_of(self@.take(i as int)) == version_of(self@),
            decreases i,
        {
            assert(self@.take(i as int).drop_last() == self@.take(i - 1));
            assert(self@.take(i as int).last() == self@[i - 1]);
            if let Some(v) = self.tables[i - 1].version {
                return v;
            }
            i = i - 1;
        }
    }

    /// The path of the store.
    pub fn store_path(&self) -> (r: &String)
        ensures
            store_path_of(self@) == Some(*r),
    {
        proof {
            use_type_invariant(self);
        }
        let mut i: usize = self.tables.len();
        assert(self@.take(i as int) == self@);
        loop
            invariant
                0 < i <= self@.len(),
                self.well_formed(),
                store_path_of(self@.take(i as int)) == store_path_of(self@),
            decreases i,
        {
            assert(self@.take(i as int).drop_last() == self@.take(i - 1));
            assert(self@.take(i as int).last() == self@[i - 1]);
            if let Some(store) = &self.tables[i - 1].store {
                if let Some(path) = &store.path {
                    return path;
                }
            }
            i = i - 1;
        }
    }
}

/// Why the tables do not make a configuration.
pub enum MetaConfigError {
    /// The table of the workspace does not have the right shape.
    Workspace(String),
    /// The table of the root package does not have the right shape.
    Package(String),
    /// The workspace and the root package both have a table.
    Both,
}

/// The table of the defaults.
pub open spec fn default_table(default_store: String) -> MetaConfigInstance {
    MetaConfigInstance { version: Some(1), store: Some(Store { path: Some(default_store) }) }
}

/// Puts the tables together: the defaults, and the table of the workspace or that of the root
/// package, but not both. A table that could not be read is given as what was wrong with it.
pub fn configure(
    default_store: String,
    workspace: Option<Result<MetaConfigInstance, String>>,
    package: Option<Result<MetaConfigInstance, String>>,
) -> (r: Result<MetaConfig, MetaConfigError>)
    ensures
        match (workspace, package) {
            (Some(Err(e)), _) => r == Err::<MetaConfig, MetaConfigError>(
                MetaConfigError::Workspace(e),
            ),
            (_, Some(Err(e))) => r == Err::<MetaConfig, MetaConfigError>(
                MetaConfigError::Package(e),
            ),
            (Some(Ok(_)), Some(Ok(_))) => r == Err::<MetaConfig, MetaConfigError>(
                MetaConfigError::Both,
            ),
            (Some(Ok(t)), None) => r matches Ok(m) && m@ == seq![default_table(default_store), t],
            (None, Some(Ok(t))) => r matches Ok(m) && m@ == seq![default_table(default_store), t],
            (None, None) => r matches Ok(m) && m@ == seq![default_table(default_store)],
        },
{
    let workspace = match workspace {
        Some(Err(e)) => return Err(MetaConfigError::Workspace(e)),
        Some(Ok(t)) => Some(t),
        None => None,
    };
    let package = match package {
        Some(Err(e)) => return Err(MetaConfigError::Package(e)),
        Some(Ok(t)) => Some(t),
        None => None,
    };
    let mut tables: Vec<MetaConfigInstance> = Vec::new();
    tables.push(
        MetaConfigInstance { version: Some(1), store: Some(Store { path: Some(default_store) }) },
    );
    match (workspace, package) {
        (Some(_), Some(_)) => return Err(MetaConfigError::Both),
        (Some(t), None) => tables.push(t),
        (None, Some(t)) => tables.push(t),
        (None, None) => {},
    }
    Ok(MetaConfig { tables })
}

/// A table that makes a setting overrides the tables before it, and one that does not leaves
/// what they set.
pub proof fn law_later_tables_win(tables: Seq<MetaConfigInstance>, t: MetaConfigInstance)
    ensures
        version_of(tables.push(t)) == (if t.version is Some {
            t.version
        } else {
            version_of(tables)
        }),
        store_path_of(tables.push(t)) == (if t.path() is Some {
            t.path()
        } else {
            store_path_of(tables)
        }),
{
    assert(tables.push(t).drop_last() == tables);
}

/// A setting of the table that was given holds, and a default where the table makes none; the
/// store then lies in the directory that was given for it.
pub proof fn law_settings_that_hold(
    default_store: String,
    workspace: Option<Result<MetaConfigInstance, String>>,
    package: Option<Result<MetaConfigInstance, String>>,
    r: Result<MetaConfig, MetaConfigError>,
    version: u64,
    path: &String,
)
    requires
        call_ensures(configure, (default_store, workspace, package), r),
        r is Ok,
        call_ensures(MetaConfig::version, (&r->Ok_0,), version),
        call_ensures(MetaConfig::store_path, (&r->Ok_0,), path),
    ensures
        ({
            let table: Option<MetaConfigInstance> = match (workspace, package) {
                (Some(Ok(t)), _) => Some(t),
                (_, Some(Ok(t))) => Some(t),
                _ => None,
            };
            &&& version == (match table {
                Some(t) => match t.version {
                    Some(v) => v,
                    None => 1,
                },
                None => 1,
            })
            &&& *path == (match table {
                Some(t) => match t.store {
                    Some(store) => match store.path {
                        Some(p) => p,
                        None => default_store,
                    },
                    None => default_store,
                },
                None => default_store,
            })
        }),
{
    let first = seq![default_table(default_store)];
    assert(first.drop_last() == Seq::<MetaConfigInstance>::empty());
    assert(version_of(first) == Some(1u64));
    assert(store_path_of(first) == Some(default_store));
    match (workspace, package) {
        (Some(Ok(t)), _) => {
            assert(seq![default_table(default_store), t].drop_last() == first);
        },
        (_, Some(Ok(t))) => {
            assert(seq![default_table(default_store), t].drop_last() == first);
        },
        _ => {},
    }
}

/// There is a configuration exactly where no table is malformed and not both are there.
pub proof fn law_tables_are_refused(
    default_store: String,
    workspace: Option<Result<MetaConfigInstance, String>>,
    package: Option<Result<MetaConfigInstance, String>>,
    r: Result<MetaConfig, MetaConfigError>,
)
    requires
        call_ensures(configure, (default_store, workspace, package), r),
    ensures
        r is Ok == (!(workspace matches Some(Err(_))) && !(package matches Some(Err(_))) && !(
        workspace is Some && package is Some)),
        (r matches Err(e) && e is Both) == ((workspace matches Some(Ok(_))) && (
        package matches Some(Ok(_)))),
        workspace matches Some(Err(m)) ==> (r matches Err(MetaConfigError::Workspace(n)) && n == m),
        (package matches Some(Err(m)) ==> !(workspace matches Some(Err(_))) ==> (
        r matches Err(MetaConfigError::Package(n)) && n == m)),
{
}

} // verus!
