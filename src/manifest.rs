use vstd::prelude::*;

verus! {

/// A crate of the workspace that is depended on by its path.
#[derive(Clone, Debug, PartialEq, Eq)]
pub struct LocalCrate {
    pub name: String,
    pub path: String,
    pub version: String,
}

/// One entry of a dependency table: a crate, with the version and the path it is
/// given, if any.
#[derive(Clone, Debug, PartialEq, Eq)]
pub struct Dependency {
    pub name: String,
    pub version: Option<String>,
    pub path: Option<String>,
}

/// What the dependency rules read of a member crate's manifest: its dependencies.
#[derive(Clone, Debug, PartialEq, Eq)]
pub struct CrateCargoToml {
    pub dependencies: Vec<Dependency>,
}

/// What the dependency rules read of the workspace's root manifest.
#[derive(Clone, Debug, PartialEq, Eq)]
pub struct RootCargoToml {
    pub members: Vec<String>,
    pub workspace_version: String,
    pub workspace_dependencies: Vec<Dependency>,
    pub member_cargo_tomls: Vec<CrateCargoToml>,
}

/// The crate that a dependency given by path names, with its version (empty
/// where none is given).
pub open spec fn local_crate_of(d: Dependency) -> (Seq<char>, Seq<char>, Seq<char>) {
    (
        d.name@,
        d.path.unwrap()@,
        match d.version {
            Some(v) => v@,
            None => Seq::empty(),
        },
    )
}

pub open spec fn local_crate_view(c: LocalCrate) -> (Seq<char>, Seq<char>, Seq<char>) {
    (c.name@, c.path@, c.version@)
}

/// The dependencies among `deps` that are given by path, in order.
pub open spec fn path_dependencies_of(deps: Seq<Dependency>) -> Seq<(Seq<char>, Seq<char>, Seq<char>)>
    decreases deps.len(),
{
    if deps.len() == 0 {
        Seq::empty()
    } else {
        let rest = path_dependencies_of(deps.drop_last());
        if deps.last().path is Some {
            rest.push(local_crate_of(deps.last()))
        } else {
            rest
        }
    }
}

fn path_dependencies(deps: &Vec<Dependency>) -> (r: Vec<LocalCrate>)
    ensures
        r@.map_values(|c: LocalCrate| local_crate_view(c)) == path_dependencies_of(deps@),
{
    let mut r: Vec<LocalCrate> = Vec::new();
    let mut i: usize = 0;
    while i < deps.len()
        invariant
            i <= deps@.len(),
            r@.map_values(|c: LocalCrate| local_crate_view(c)) == path_dependencies_of(deps@.take(i as int)),
        decreases deps@.len() - i,
    {
        let d = &deps[i];
        assert(deps@.take(i + 1).drop_last() =~= deps@.take(i as int));
        match &d.path {
            Some(path) => {
                let version = match &d.version {
                    Some(v) => v.clone(),
                    None => String::new(),
                };
                let ghost before = r@;
                r.push(LocalCrate { name: d.name.clone(), path: path.clone(), version });
                assert(r@.map_values(|c: LocalCrate| local_crate_view(c)) =~= before.map_values(
                    |c: LocalCrate| local_crate_view(c),
                ).push(local_crate_of(*d)));
            },
            None => {},
        }
        i = i + 1;
    }
    assert(deps@.take(i as int) =~= deps@);
    r
}

impl CrateCargoToml {
    pub fn has_dependencies(&self) -> (r: bool)
        ensures
            r == (self.dependencies@.len() > 0),
    {
        self.dependencies.len() > 0
    }

    /// The dependencies of the crate that are given by path, in order.
    pub fn crate_path_dependencies(&self) -> (r: Vec<LocalCrate>)
        ensures
            r@.map_values(|c: LocalCrate| local_crate_view(c)) == path_dependencies_of(self.dependencies@),
    {
        path_dependencies(&self.dependencies)
    }
}

impl RootCargoToml {
    pub fn members(&self) -> (r: &Vec<String>)
        ensures
            r == &self.members,
    {
        &self.members
    }

    pub fn workspace_version(&self) -> (r: &String)
        ensures
            r == &self.workspace_version,
    {
        &self.workspace_version
    }

    pub fn member_cargo_tomls(&self) -> (r: &Vec<CrateCargoToml>)
        ensures
            r == &self.member_cargo_tomls,
    {
        &self.member_cargo_tomls
    }

    /// The workspace dependencies that are given by path, in order.
    pub fn workspace_path_dependencies(&self) -> (r: Vec<LocalCrate>)
        ensures
            r@.map_values(|c: LocalCrate| local_crate_view(c)) == path_dependencies_of(self.workspace_dependencies@),
    {
        path_dependencies(&self.workspace_dependencies)
    }
}

} // verus!
