//! What is to be changed in a crate's configuration before it is linted:
//! dependencies by path are turned into dependencies by version, the
//! workspace table goes, and Clippy's own configuration files are set
//! aside. The caller reads the files and carries the changes out.

use vstd::prelude::*;
use vstd::string::StringExecFns;

verus! {

/// What matters of one entry of a dependency table.
#[derive(Clone, Copy, Debug, PartialEq, Eq, Structural)]
pub struct Dependency {
    /// Whether the entry is a table, as opposed to a bare version.
    pub is_table: bool,
    /// Whether the table has a `path` key.
    pub has_path: bool,
    /// Whether the table has a `version` key.
    pub has_version: bool,
}

/// What is to be changed in one entry of a dependency table.
#[derive(Clone, Copy, Debug, PartialEq, Eq, Structural)]
pub struct DependencyEdit {
    /// Whether the `path` key is to be removed.
    pub remove_path: bool,
    /// Whether a `version` key with the value `*` is to be added.
    pub add_version: bool,
}

/// The change for one entry: a table loses its `path`, and where it then
/// names no version it gets any version.
pub open spec fn edit_for(entry: Dependency) -> DependencyEdit {
    DependencyEdit {
        remove_path: entry.is_table && entry.has_path,
        add_version: entry.is_table && entry.has_path && !entry.has_version,
    }
}

/// Whether any entry of a table loses its `path`.
pub open spec fn loses_path(table: Seq<Dependency>) -> bool {
    exists|i: int| 0 <= i < table.len() && #[trigger] edit_for(table[i]).remove_path
}

/// The changes for the entries of one dependency table, entry for entry,
/// and whether any `path` is removed.
pub fn remove_paths(table: &Vec<Dependency>) -> (result: (Vec<DependencyEdit>, bool))
    ensures
        result.0@.len() == table@.len(),
        forall|i: int| 0 <= i < table@.len() ==> result.0@[i] == edit_for(#[trigger] table@[i]),
        result.1 == loses_path(table@),
{
    let mut edits: Vec<DependencyEdit> = Vec::new();
    let mut removed = false;
    let mut index: usize = 0;
    while index < table.len()
        invariant
            index <= table.len(),
            edits@.len() == index,
            forall|i: int| 0 <= i < index ==> edits@[i] == edit_for(#[trigger] table@[i]),
            removed == loses_path(table@.take(index as int)),
        decreases table.len() - index,
    {
        let entry = table[index];
        let remove_path = entry.is_table && entry.has_path;
        edits.push(DependencyEdit { remove_path, add_version: remove_path && !entry.has_version });
        proof {
            let before = table@.take(index as int);
            let upto = table@.take(index + 1);
            if loses_path(before) {
                let i = choose|i: int| 0 <= i < before.len() && #[trigger] edit_for(
                    before[i],
                ).remove_path;
                assert(edit_for(upto[i]).remove_path);
            }
            if remove_path {
                assert(edit_for(upto[index as int]).remove_path);
            }
            if loses_path(upto) && !remove_path {
                let i = choose|i: int| 0 <= i < upto.len() && #[trigger] edit_for(
                    upto[i],
                ).remove_path;
                assert(edit_for(before[i]).remove_path);
            }
        }
        removed = removed || remove_path;
        index = index + 1;
    }
    assert(table@.take(index as int) == table@);
    (edits, removed)
}

/// What matters of a manifest: its three dependency tables, each where it
/// is there and is a table, and whether it has a `workspace` key.
pub struct Manifest {
    pub dependencies: Option<Vec<Dependency>>,
    pub build_dependencies: Option<Vec<Dependency>>,
    pub dev_dependencies: Option<Vec<Dependency>>,
    pub has_workspace: bool,
}

/// What is to be changed in a manifest.
pub struct ManifestEdits {
    pub dependencies: Vec<DependencyEdit>,
    pub build_dependencies: Vec<DependencyEdit>,
    pub dev_dependencies: Vec<DependencyEdit>,
    /// Whether the `workspace` key is to be removed.
    pub remove_workspace: bool,
    /// Whether anything is removed, so that the manifest is to be backed
    /// up and written anew.
    pub changed: bool,
}

/// The entries of a dependency table, none where the table is missing.
pub open spec fn entries(table: Option<Vec<Dependency>>) -> Seq<Dependency> {
    match table {
        Some(list) => list@,
        None => Seq::empty(),
    }
}

/// Whether `edits` are the changes for the entries of `table`.
pub open spec fn edits_for(table: Option<Vec<Dependency>>, edits: Seq<DependencyEdit>) -> bool {
    &&& edits.len() == entries(table).len()
    &&& forall|i: int| 0 <= i < edits.len() ==> edits[i] == edit_for(#[trigger] entries(table)[i])
}

fn table_edits(table: &Option<Vec<Dependency>>) -> (result: (Vec<DependencyEdit>, bool))
    ensures
        edits_for(*table, result.0@),
        result.1 == loses_path(entries(*table)),
{
    match table {
        Some(list) => remove_paths(list),
        None => (Vec::new(), false),
    }
}

/// The changes that take the path dependencies and the workspace out of a
/// manifest.
pub fn clean_cargo_manifest(manifest: &Manifest) -> (edits: ManifestEdits)
    ensures
        edits_for(manifest.dependencies, edits.dependencies@),
        edits_for(manifest.build_dependencies, edits.build_dependencies@),
        edits_for(manifest.dev_dependencies, edits.dev_dependencies@),
        edits.remove_workspace == manifest.has_workspace,
        edits.changed == (loses_path(entries(manifest.dependencies)) || loses_path(
            entries(manifest.build_dependencies),
        ) || loses_path(entries(manifest.dev_dependencies)) || manifest.has_workspace),
{
    let (dependencies, first) = table_edits(&manifest.dependencies);
    let (build_dependencies, second) = table_edits(&manifest.build_dependencies);
    let (dev_dependencies, third) = table_edits(&manifest.dev_dependencies);
    ManifestEdits {
        dependencies,
        build_dependencies,
        dev_dependencies,
        remove_workspace: manifest.has_workspace,
        changed: first || second || third || manifest.has_workspace,
    }
}

/// What matters of a crate's configuration: its manifest, and which of
/// Clippy's configuration files lie beside it.
pub struct CrateConfig {
    pub manifest: Manifest,
    /// Whether there is a `.clippy.toml`.
    pub has_hidden_clippy_toml: bool,
    /// Whether there is a `clippy.toml`.
    pub has_clippy_toml: bool,
}

/// A file to be given another name.
pub struct Rename {
    pub from: String,
    pub to: String,
}

/// What is to be changed in a crate's configuration.
pub struct ConfigPlan {
    pub manifest: ManifestEdits,
    pub renames: Vec<Rename>,
}

/// The names under which Clippy's configuration files are set aside:
/// `.clippy.toml` first, and each only where it is there.
pub open spec fn renames_for(hidden: bool, plain: bool) -> Seq<(Seq<char>, Seq<char>)> {
    (if hidden {
        seq![(".clippy.toml"@, ".clippy.toml.bak"@)]
    } else {
        Seq::empty()
    }) + (if plain {
        seq![("clippy.toml"@, "clippy.toml.bak"@)]
    } else {
        Seq::empty()
    })
}

/// The files of Clippy's own configuration to set aside.
pub fn disable_clippy_config(hidden: bool, plain: bool) -> (renames: Vec<Rename>)
    ensures
        renames@.len() == renames_for(hidden, plain).len(),
        forall|i: int|
            0 <= i < renames@.len() ==> (#[trigger] renames@[i].from@, renames@[i].to@)
                == renames_for(hidden, plain)[i],
{
    let mut renames: Vec<Rename> = Vec::new();
    if hidden {
        renames.push(
            Rename {
                from: String::from_str(".clippy.toml"),
                to: String::from_str(".clippy.toml.bak"),
            },
        );
    }
    if plain {
        renames.push(
            Rename { from: String::from_str("clippy.toml"), to: String::from_str("clippy.toml.bak") },
        );
    }
    renames
}

/// What is to be changed in a crate's configuration so that it is linted
/// as it would be from the registry: the manifest loses its path
/// dependencies and its workspace, and Clippy's configuration files are
/// set aside.
pub fn clean_config(config: &CrateConfig) -> (plan: ConfigPlan)
    ensures
        edits_for(config.manifest.dependencies, plan.manifest.dependencies@),
        edits_for(config.manifest.build_dependencies, plan.manifest.build_dependencies@),
        edits_for(config.manifest.dev_dependencies, plan.manifest.dev_dependencies@),
        plan.manifest.remove_workspace == config.manifest.has_workspace,
        plan.manifest.changed == (loses_path(entries(config.manifest.dependencies)) || loses_path(
            entries(config.manifest.build_dependencies),
        ) || loses_path(entries(config.manifest.dev_dependencies))
            || config.manifest.has_workspace),
        plan.renames@.len() == renames_for(
            config.has_hidden_clippy_toml,
            config.has_clippy_toml,
        ).len(),
        forall|i: int|
            0 <= i < plan.renames@.len() ==> (#[trigger] plan.renames@[i].from@, plan.renames@[i].to@)
                == renames_for(config.has_hidden_clippy_toml, config.has_clippy_toml)[i],
{
    ConfigPlan {
        manifest: clean_cargo_manifest(&config.manifest),
        renames: disable_clippy_config(config.has_hidden_clippy_toml, config.has_clippy_toml),
    }
}

/// A file whose modification time is to be set to now.
pub struct CrateRoot {
    /// The path, relative to the crate.
    pub path: String,
    /// Whether the file is named by the manifest. Such a file must be
    /// there; one of the usual roots may be missing.
    pub named: bool,
}

/// The roots that a manifest names: that of the library, then those of
/// the binaries, each where a path is given.
pub open spec fn named_roots(lib: Option<String>, bins: Seq<Option<String>>) -> Seq<Seq<char>>
    decreases bins.len(),
{
    if bins.len() == 0 {
        match lib {
            Some(path) => seq![path@],
            None => Seq::empty(),
        }
    } else {
        match bins.last() {
            Some(path) => named_roots(lib, bins.drop_last()).push(path@),
            None => named_roots(lib, bins.drop_last()),
        }
    }
}

/// The roots of a crate, for touching: those that the manifest names, and
/// then the two usual ones, `src/lib.rs` and `src/main.rs`.
pub fn crate_roots(lib: &Option<String>, bins: &Vec<Option<String>>) -> (roots: Vec<CrateRoot>)
    ensures
        roots@.len() == named_roots(*lib, bins@).len() + 2,
        forall|i: int|
            0 <= i < named_roots(*lib, bins@).len() ==> (#[trigger] roots@[i]).named && roots@[i].path@
                == named_roots(*lib, bins@)[i],
        !roots@[roots@.len() - 2].named,
        roots@[roots@.len() - 2].path@ == "src/lib.rs"@,
        !roots@[roots@.len() - 1].named,
        roots@[roots@.len() - 1].path@ == "src/main.rs"@,
{
    let mut roots: Vec<CrateRoot> = Vec::new();
    match lib {
        Some(path) => roots.push(CrateRoot { path: path.clone(), named: true }),
        None => {},
    }
    let mut index: usize = 0;
    assert(bins@.take(0).len() == 0);
    while index < bins.len()
        invariant
            index <= bins.len(),
            roots@.len() == named_roots(*lib, bins@.take(index as int)).len(),
            forall|i: int|
                0 <= i < roots@.len() ==> (#[trigger] roots@[i]).named && roots@[i].path@
                    == named_roots(*lib, bins@.take(index as int))[i],
        decreases bins.len() - index,
    {
        proof {
            let upto = bins@.take(index + 1);
            assert(upto.drop_last() == bins@.take(index as int));
            assert(upto.last() == bins@[index as int]);
        }
        match &bins[index] {
            Some(path) => roots.push(CrateRoot { path: path.clone(), named: true }),
            None => {},
        }
        index = index + 1;
    }
    assert(bins@.take(index as int) == bins@);
    roots.push(CrateRoot { path: String::from_str("src/lib.rs"), named: false });
    roots.push(CrateRoot { path: String::from_str("src/main.rs"), named: false });
    roots
}

} // verus!
