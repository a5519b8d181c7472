//! Deno workspaces.

use vstd::prelude::*;

use crate::json;
use crate::json::{Json, JsonError, JsonErrorView, JsonView};
use crate::jsonc;
use crate::package;
use crate::package::workspace;
use crate::package::workspace::{
    FoundFile, FoundView, Manager, PatternMatches, Workspace, WorkspaceView,
};
use crate::package::{Package, PackageView};
use crate::path::RelativePathBuf;
use crate::sequences;
use crate::text;
use crate::versioned_file::{FileNames, UnknownFile};

verus! {

/// Why the packages of a Deno workspace could not be found.
#[allow(inconsistent_fields)]
#[derive(Debug)]
pub enum DenoWorkspaceError {
    /// A pattern in `deno.json` is no glob pattern.
    Glob { pattern: String, source: glob::PatternError },
    /// The configuration at `path` holds neither JSON nor JSONC.
    Json { path: RelativePathBuf, source: JsonError },
    /// The format of a versioned file is not known, or a file cannot be told
    /// from the working directory on.
    UnknownFile(UnknownFile),
}

/// Why the packages of a Deno workspace could not be found.
pub enum DenoWorkspaceErrorView {
    Glob(Seq<char>, glob::PatternError),
    Json(Seq<char>, JsonErrorView),
    UnknownFile(Seq<char>),
}

impl View for DenoWorkspaceError {
    type V = DenoWorkspaceErrorView;

    open spec fn view(&self) -> DenoWorkspaceErrorView {
        match *self {
            DenoWorkspaceError::Glob { pattern, source } => DenoWorkspaceErrorView::Glob(
                pattern@,
                source,
            ),
            DenoWorkspaceError::Json { path, source } => DenoWorkspaceErrorView::Json(
                path@,
                source@,
            ),
            DenoWorkspaceError::UnknownFile(unknown) => DenoWorkspaceErrorView::UnknownFile(
                unknown.path@,
            ),
        }
    }
}

/// What the outcome of looking for packages stands for.
pub open spec fn outcome(result: Result<Vec<Package>, DenoWorkspaceError>) -> Result<
    Seq<PackageView>,
    DenoWorkspaceErrorView,
> {
    match result {
        Ok(packages) => Ok(package::package_views(packages@)),
        Err(error) => Err(error@),
    }
}

/// The package of a configuration that was looked for: none where it could not
/// be read.
pub open spec fn read_config(file: FoundView) -> Result<
    Option<WorkspaceView>,
    DenoWorkspaceErrorView,
> {
    match file.contents {
        None => Ok(None),
        Some(contents) => match file.relative {
            None => Err(DenoWorkspaceErrorView::UnknownFile(file.path)),
            Some(relative) => match json::reading_commented(contents) {
                Ok(value) => Ok(Some(WorkspaceView { path: relative, value })),
                Err(error) => Err(DenoWorkspaceErrorView::Json(relative, error)),
            },
        },
    }
}

/// The package of the first configuration, of those that were looked for, that
/// could be read.
pub open spec fn read_first_config(files: Seq<FoundView>) -> Result<
    Option<WorkspaceView>,
    DenoWorkspaceErrorView,
>
    decreases files.len(),
{
    if files.len() == 0 {
        Ok(None)
    } else {
        match read_config(files[0]) {
            Ok(Some(found)) => Ok(Some(found)),
            Ok(None) => read_first_config(files.drop_first()),
            Err(error) => Err(error),
        }
    }
}

/// The packages in directories, up to the first one whose configuration cannot
/// be used.
pub open spec fn directory_workspaces(directories: Seq<Vec<FoundFile>>) -> Result<
    Seq<WorkspaceView>,
    DenoWorkspaceErrorView,
>
    decreases directories.len(),
{
    if directories.len() == 0 {
        Ok(Seq::empty())
    } else {
        let rest = directory_workspaces(directories.drop_first());
        match read_first_config(workspace::found_views(directories[0]@)) {
            Ok(Some(found)) => workspace::prepend(seq![found], rest),
            Ok(None) => rest,
            Err(error) => Err(error),
        }
    }
}

/// The packages that patterns match, up to the first pattern that is none or
/// whose packages cannot be used.
pub open spec fn matched_workspaces(matches: Seq<PatternMatches<Vec<FoundFile>>>) -> Result<
    Seq<WorkspaceView>,
    DenoWorkspaceErrorView,
>
    decreases matches.len(),
{
    if matches.len() == 0 {
        Ok(Seq::empty())
    } else {
        match matches[0].found {
            Ok(directories) => match directory_workspaces(directories@) {
                Ok(found) => workspace::prepend(found, matched_workspaces(matches.drop_first())),
                Err(error) => Err(error),
            },
            Err(source) => Err(DenoWorkspaceErrorView::Glob(matches[0].pattern@, source)),
        }
    }
}

/// The package that a configuration describes: none where it lacks a name or a
/// version.
pub open spec fn deno_package(
    workspaces: Seq<WorkspaceView>,
    at: int,
    lock_file: bool,
    names: Seq<Seq<char>>,
) -> Result<Option<PackageView>, DenoWorkspaceErrorView> {
    let value = workspaces[at].value;
    match (workspace::text_field(value, "name"@), workspace::text_field(value, "version"@)) {
        (Some(name), Some(_)) => match workspace::workspace_package(
            Manager::Deno,
            workspaces,
            workspaces[at].path,
            name,
            lock_file,
            names,
        ) {
            Ok(package) => Ok(Some(package)),
            Err(unknown) => Err(DenoWorkspaceErrorView::UnknownFile(unknown)),
        },
        _ => Ok(None),
    }
}

/// The packages that the configurations from `at` on describe, up to the first
/// one that cannot be used.
pub open spec fn deno_packages_from(
    workspaces: Seq<WorkspaceView>,
    at: nat,
    lock_file: bool,
    names: Seq<Seq<char>>,
) -> Result<Seq<PackageView>, DenoWorkspaceErrorView>
    decreases workspaces.len() - at,
{
    if at >= workspaces.len() {
        Ok(Seq::empty())
    } else {
        let rest = deno_packages_from(workspaces, at + 1, lock_file, names);
        match deno_package(workspaces, at as int, lock_file, names) {
            Ok(Some(package)) => workspace::prepend(seq![package], rest),
            Ok(None) => rest,
            Err(error) => Err(error),
        }
    }
}

/// What the root configuration of a workspace holds: `deno.json`, or
/// `deno.jsonc` where there is none.
pub open spec fn root_contents(
    deno_json: Option<Seq<char>>,
    deno_jsonc: Option<Seq<char>>,
) -> Option<Seq<char>> {
    match deno_json {
        Some(contents) => Some(contents),
        None => deno_jsonc,
    }
}

/// The patterns that the root configuration gives for the packages of its
/// workspace.
pub open spec fn deno_patterns(root: Option<Seq<char>>) -> Option<Seq<Seq<char>>> {
    match root {
        Some(contents) => match json::reading_commented(contents) {
            Ok(value) => workspace::patterns_in(value, "workspace"@),
            Err(_) => None,
        },
        None => None,
    }
}

/// The packages of a Deno workspace.
pub open spec fn deno_packages(
    root: Option<Seq<char>>,
    matches: Seq<PatternMatches<Vec<FoundFile>>>,
    lock_file: bool,
    names: Seq<Seq<char>>,
) -> Result<Seq<PackageView>, DenoWorkspaceErrorView> {
    match deno_patterns(root) {
        Some(_) => match matched_workspaces(matches) {
            Ok(workspaces) => deno_packages_from(workspaces, 0, lock_file, names),
            Err(error) => Err(error),
        },
        None => Ok(Seq::empty()),
    }
}

/// What the outcome of reading a configuration stands for.
pub open spec fn config_outcome(
    result: Result<Option<(RelativePathBuf, Json)>, DenoWorkspaceError>,
) -> Result<Option<WorkspaceView>, DenoWorkspaceErrorView> {
    match result {
        Ok(Some((path, value))) => Ok(Some(WorkspaceView { path: path@, value: value@ })),
        Ok(None) => Ok(None),
        Err(error) => Err(error@),
    }
}

/// The names of the files that may hold the configuration of a package, the ones
/// that win first.
pub fn config_file_names() -> (names: Vec<String>)
    ensures
        text::string_views(names@) == seq!["deno.json"@, "deno.jsonc"@, "package.json"@],
{
    let mut names: Vec<String> = Vec::new();
    names.push("deno.json".to_string());
    names.push("deno.jsonc".to_string());
    names.push("package.json".to_string());
    assert(text::string_views(names@) =~= seq!["deno.json"@, "deno.jsonc"@, "package.json"@]);
    names
}

/// The packages in directories.
fn read_directories(directories: Vec<Vec<FoundFile>>) -> (result: Result<
    Vec<Workspace>,
    DenoWorkspaceError,
>)
    ensures
        match result {
            Ok(workspaces) => directory_workspaces(directories@) == Ok::<
                Seq<WorkspaceView>,
                DenoWorkspaceErrorView,
            >(workspace::workspace_views(workspaces@)),
            Err(error) => directory_workspaces(directories@) == Err::<
                Seq<WorkspaceView>,
                DenoWorkspaceErrorView,
            >(error@),
        },
{
    let mut workspaces: Vec<Workspace> = Vec::new();
    proof {
        assert(directories@.skip(0) =~= directories@);
        assert(workspace::workspace_views(workspaces@) =~= Seq::empty());
        workspace::lemma_prepend_empty(directory_workspaces(directories@));
    }
    for files in iter: directories
        invariant
            iter.seq() == directories@,
            workspace::prepend(
                workspace::workspace_views(workspaces@),
                directory_workspaces(directories@.skip(iter.index() as int)),
            ) == directory_workspaces(directories@),
    {
        let ghost at = iter.index() as int;
        let ghost before = workspace::workspace_views(workspaces@);
        assert(directories@.skip(at)[0] == files);
        assert(directories@.skip(at).drop_first() =~= directories@.skip(at + 1));
        match Package::read_deno_config_files(files) {
            Ok(Some((path, value))) => {
                let found = Workspace { path, value };
                workspaces.push(found);
                proof {
                    assert(workspace::workspace_views(workspaces@) =~= before + seq![found@]);
                    workspace::lemma_prepend_twice(
                        before,
                        seq![found@],
                        directory_workspaces(directories@.skip(at + 1)),
                    );
                }
            },
            Ok(None) => {},
            Err(error) => {
                return Err(error);
            },
        }
    }
    assert(workspace::workspace_views(workspaces@) + Seq::empty() =~= workspace::workspace_views(
        workspaces@,
    ));
    Ok(workspaces)
}

/// The packages that patterns match.
pub fn read_matches(matches: Vec<PatternMatches<Vec<FoundFile>>>) -> (result: Result<
    Vec<Workspace>,
    DenoWorkspaceError,
>)
    ensures
        match result {
            Ok(workspaces) => matched_workspaces(matches@) == Ok::<
                Seq<WorkspaceView>,
                DenoWorkspaceErrorView,
            >(workspace::workspace_views(workspaces@)),
            Err(error) => matched_workspaces(matches@) == Err::<
                Seq<WorkspaceView>,
                DenoWorkspaceErrorView,
            >(error@),
        },
{
    let mut workspaces: Vec<Workspace> = Vec::new();
    proof {
        assert(matches@.skip(0) =~= matches@);
        assert(workspace::workspace_views(workspaces@) =~= Seq::empty());
        workspace::lemma_prepend_empty(matched_workspaces(matches@));
    }
    for matched in iter: matches
        invariant
            iter.seq() == matches@,
            workspace::prepend(
                workspace::workspace_views(workspaces@),
                matched_workspaces(matches@.skip(iter.index() as int)),
            ) == matched_workspaces(matches@),
    {
        let ghost at = iter.index() as int;
        let ghost before = workspace::workspace_views(workspaces@);
        assert(matches@.skip(at)[0] == matched);
        assert(matches@.skip(at).drop_first() =~= matches@.skip(at + 1));
        match matched.found {
            Ok(directories) => {
                let mut found = match read_directories(directories) {
                    Ok(found) => found,
                    Err(error) => {
                        return Err(error);
                    },
                };
                let ghost views = workspace::workspace_views(found@);
                workspaces.append(&mut found);
                proof {
                    assert(workspace::workspace_views(workspaces@) =~= before + views);
                    workspace::lemma_prepend_twice(
                        before,
                        views,
                        matched_workspaces(matches@.skip(at + 1)),
                    );
                }
            },
            Err(source) => {
                return Err(DenoWorkspaceError::Glob { pattern: matched.pattern, source });
            },
        }
    }
    assert(workspace::workspace_views(workspaces@) + Seq::empty() =~= workspace::workspace_views(
        workspaces@,
    ));
    Ok(workspaces)
}

/// The packages that the configurations of a Deno workspace describe.
pub fn make_packages(
    workspaces: &Vec<Workspace>,
    lock_file: bool,
    names: &FileNames,
) -> (result: Result<Vec<Package>, DenoWorkspaceError>)
    ensures
        outcome(result) == deno_packages_from(
            workspace::workspace_views(workspaces@),
            0,
            lock_file,
            names@,
        ),
{
    let ghost views = workspace::workspace_views(workspaces@);
    let mut packages: Vec<Package> = Vec::new();
    let mut at: usize = 0;
    proof {
        assert(package::package_views(packages@) =~= Seq::empty());
        workspace::lemma_prepend_empty(deno_packages_from(views, 0, lock_file, names@));
    }
    while at < workspaces.len()
        invariant
            at <= workspaces.len(),
            views == workspace::workspace_views(workspaces@),
            workspace::prepend(
                package::package_views(packages@),
                deno_packages_from(views, at as nat, lock_file, names@),
            ) == deno_packages_from(views, 0, lock_file, names@),
        decreases workspaces.len() - at,
    {
        let workspace = &workspaces[at];
        assert(views[at as int] == workspace@);
        let has_version = workspace::get_text(&workspace.value, "version").is_some();
        if let Some(name) = workspace::get_text(&workspace.value, "name") {
            if has_version {
                let made = workspace::make_package(
                    Manager::Deno,
                    workspaces,
                    workspace.path.as_str(),
                    name.as_str(),
                    lock_file,
                    names,
                );
                match made {
                    Ok(package) => {
                        let ghost before = package::package_views(packages@);
                        packages.push(package);
                        proof {
                            assert(package::package_views(packages@) =~= before + seq![package@]);
                            workspace::lemma_prepend_twice(
                                before,
                                seq![package@],
                                deno_packages_from(views, (at + 1) as nat, lock_file, names@),
                            );
                        }
                    },
                    Err(unknown) => {
                        return Err(DenoWorkspaceError::UnknownFile(unknown));
                    },
                }
            }
        }
        at = at + 1;
    }
    assert(package::package_views(packages@) + Seq::empty() =~= package::package_views(packages@));
    Ok(packages)
}

/// The patterns that the root configuration gives for the packages of its
/// workspace.
pub fn read_patterns(deno_json: Option<&str>, deno_jsonc: Option<&str>) -> (patterns: Option<
    Vec<String>,
>)
    ensures
        match patterns {
            Some(patterns) => deno_patterns(
                root_contents(text::str_view(deno_json), text::str_view(deno_jsonc)),
            ) == Some(text::string_views(patterns@)),
            None => deno_patterns(
                root_contents(text::str_view(deno_json), text::str_view(deno_jsonc)),
            ) is None,
        },
{
    let root = match deno_json {
        Some(contents) => Some(contents),
        None => deno_jsonc,
    };
    match root {
        Some(contents) => match json::parse_commented(contents) {
            Ok(value) => workspace::get_patterns(&value, "workspace"),
            Err(_) => None,
        },
        None => None,
    }
}

impl Package {
    /// Reads the configuration of a package, if there is one.
    pub fn try_read_deno_config_file(file: FoundFile) -> (result: Result<
        Option<(RelativePathBuf, Json)>,
        DenoWorkspaceError,
    >)
        ensures
            config_outcome(result) == read_config(file@),
    {
        let contents = match file.contents {
            Some(contents) => contents,
            None => {
                return Ok(None);
            },
        };
        let relative = match file.relative {
            Some(relative) => relative,
            None => {
                let path = RelativePathBuf::from(file.path);
                return Err(DenoWorkspaceError::UnknownFile(UnknownFile { path }));
            },
        };
        match json::parse_commented(contents.as_str()) {
            Ok(value) => Ok(Some((relative, value))),
            Err(source) => Err(DenoWorkspaceError::Json { path: relative, source }),
        }
    }

    /// Reads the first configuration that can be read of those that were looked
    /// for, in order, for one package.
    pub fn read_deno_config_files(files: Vec<FoundFile>) -> (result: Result<
        Option<(RelativePathBuf, Json)>,
        DenoWorkspaceError,
    >)
        ensures
            config_outcome(result) == read_first_config(workspace::found_views(files@)),
    {
        let ghost views = workspace::found_views(files@);
        assert(views.skip(0) =~= views);
        for file in iter: files
            invariant
                iter.seq() == files@,
                views == workspace::found_views(files@),
                read_first_config(views.skip(iter.index() as int)) == read_first_config(views),
        {
            let ghost at = iter.index() as int;
            assert(views.skip(at)[0] == file@);
            assert(views.skip(at).drop_first() =~= views.skip(at + 1));
            match Self::try_read_deno_config_file(file) {
                Ok(Some(found)) => {
                    return Ok(Some(found));
                },
                Ok(None) => {},
                Err(error) => {
                    return Err(error);
                },
            }
        }
        Ok(None)
    }

    /// The packages of the Deno workspace whose root holds the given
    /// configurations.  `matches` tells what was found, in each directory, for
    /// each of its patterns, in order, and `lock_file` whether there is a
    /// `deno.lock`.
    pub fn deno_workspaces(
        deno_json: Option<&str>,
        deno_jsonc: Option<&str>,
        matches: Vec<PatternMatches<Vec<FoundFile>>>,
        lock_file: bool,
        names: &FileNames,
    ) -> (result: Result<Vec<Package>, DenoWorkspaceError>)
        ensures
            outcome(result) == deno_packages(
                root_contents(text::str_view(deno_json), text::str_view(deno_jsonc)),
                matches@,
                lock_file,
                names@,
            ),
    {
        if read_patterns(deno_json, deno_jsonc).is_none() {
            let packages: Vec<Package> = Vec::new();
            assert(package::package_views(packages@) =~= Seq::empty());
            return Ok(packages);
        }
        match read_matches(matches) {
            Ok(workspaces) => make_packages(&workspaces, lock_file, names),
            Err(error) => Err(error),
        }
    }
}

/// Whether a configuration describes a package that has a version.
pub open spec fn is_versioned(workspace: WorkspaceView) -> bool {
    workspace::text_field(workspace.value, "name"@) is Some && workspace::text_field(
        workspace.value,
        "version"@,
    ) is Some
}

/// Where the packages of a Deno workspace are found, there is one for each
/// configuration that has both a name and a version, in order.
pub proof fn law_only_versioned_configurations_give_packages(
    workspaces: Seq<WorkspaceView>,
    at: nat,
    lock_file: bool,
    names: Seq<Seq<char>>,
)
    requires
        at <= workspaces.len(),
        deno_packages_from(workspaces, at, lock_file, names) is Ok,
    ensures
        deno_packages_from(workspaces, at, lock_file, names)->Ok_0.map_values(
            |package: PackageView| package.name,
        ) == versioned_names_from(workspaces, at),
    decreases workspaces.len() - at,
{
    let packages = deno_packages_from(workspaces, at, lock_file, names)->Ok_0;
    let package_name = |package: PackageView| package.name;
    if at < workspaces.len() {
        law_only_versioned_configurations_give_packages(workspaces, at + 1, lock_file, names);
        let rest = deno_packages_from(workspaces, at + 1, lock_file, names)->Ok_0;
        if is_versioned(workspaces[at as int]) {
            assert(packages =~= seq![packages[0]] + rest);
            assert(packages.map_values(package_name) =~= seq![packages[0].name]
                + rest.map_values(package_name));
        } else {
            assert(packages == rest);
        }
    } else {
        assert(packages.map_values(package_name) =~= Seq::empty());
    }
}

/// The names of the packages with a version from `at` on.
pub open spec fn versioned_names_from(workspaces: Seq<WorkspaceView>, at: nat) -> Seq<
    Option<Seq<char>>,
>
    decreases workspaces.len() - at,
{
    if at >= workspaces.len() {
        Seq::empty()
    } else {
        let rest = versioned_names_from(workspaces, at + 1);
        if is_versioned(workspaces[at as int]) {
            seq![workspace::text_field(workspaces[at as int].value, "name"@)] + rest
        } else {
            rest
        }
    }
}

/// Of the configurations that were looked for, the first one that could be read
/// decides, whatever the ones behind it hold.
pub proof fn law_first_configuration_wins(files: Seq<FoundView>, at: int)
    requires
        0 <= at < files.len(),
        files[at].contents is Some,
        forall|i: int| 0 <= i < at ==> (#[trigger] files[i]).contents is None,
    ensures
        read_first_config(files) == read_config(files[at]),
    decreases at,
{
    if at > 0 {
        let rest = files.drop_first();
        assert(files[0].contents is None);
        assert forall|i: int| 0 <= i < at - 1 implies (#[trigger] rest[i]).contents is None by {
            assert(rest[i] == files[i + 1]);
        }
        law_first_configuration_wins(rest, at - 1);
    }
}

/// A directory without a root configuration that lists a workspace has no
/// packages of Deno, whatever else it holds.
pub proof fn law_no_patterns_no_packages(
    root: Option<Seq<char>>,
    matches: Seq<PatternMatches<Vec<FoundFile>>>,
    lock_file: bool,
    names: Seq<Seq<char>>,
)
    requires
        deno_patterns(root) is None,
    ensures
        deno_packages(root, matches, lock_file, names) == Ok::<
            Seq<PackageView>,
            DenoWorkspaceErrorView,
        >(Seq::empty()),
{
}

proof fn lemma_packages_from(
    workspaces: Seq<WorkspaceView>,
    at: nat,
    lock_file: bool,
    names: Seq<Seq<char>>,
)
    ensures
        deno_packages_from(workspaces, at, lock_file, names) matches Ok(packages)
            ==> package::all_members(packages),
    decreases workspaces.len() - at,
{
    if at < workspaces.len() {
        lemma_packages_from(workspaces, at + 1, lock_file, names);
        if let Some(name) = workspace::text_field(workspaces[at as int].value, "name"@) {
            workspace::law_own_manifest_comes_first(
                Manager::Deno,
                workspaces,
                workspaces[at as int].path,
                name,
                lock_file,
            );
        }
    }
}

/// Every package of a Deno workspace has a name, its name as its scope, and a
/// file that carries its version.
pub proof fn law_packages_are_members(
    root: Option<Seq<char>>,
    matches: Seq<PatternMatches<Vec<FoundFile>>>,
    lock_file: bool,
    names: Seq<Seq<char>>,
)
    ensures
        deno_packages(root, matches, lock_file, names) matches Ok(packages)
            ==> package::all_members(packages),
{
    if let Ok(workspaces) = matched_workspaces(matches) {
        lemma_packages_from(workspaces, 0, lock_file, names);
    }
}

/// A configuration that was looked for and could not be read is passed over.  One
/// that could be read has to be told from the working directory on, and has to
/// hold JSON, as it stands or once its comments are gone.
pub proof fn law_configuration_is_read_with_or_without_comments(file: FoundView)
    ensures
        file.contents is None ==> read_config(file) == Ok::<
            Option<WorkspaceView>,
            DenoWorkspaceErrorView,
        >(None),
        file.contents matches Some(contents) ==> {
            &&& file.relative is None ==> read_config(file) == Err::<
                Option<WorkspaceView>,
                DenoWorkspaceErrorView,
            >(DenoWorkspaceErrorView::UnknownFile(file.path))
            &&& file.relative matches Some(relative) ==> {
                &&& json::reading(contents) matches Ok(value) ==> read_config(file) == Ok::<
                    Option<WorkspaceView>,
                    DenoWorkspaceErrorView,
                >(Some(WorkspaceView { path: relative, value }))
                &&& json::reading(contents) is Err ==> (match json::reading(
                    jsonc::stripped(contents),
                ) {
                    Ok(value) => read_config(file) == Ok::<
                        Option<WorkspaceView>,
                        DenoWorkspaceErrorView,
                    >(Some(WorkspaceView { path: relative, value })),
                    Err(error) => read_config(file) == Err::<
                        Option<WorkspaceView>,
                        DenoWorkspaceErrorView,
                    >(DenoWorkspaceErrorView::Json(relative, error)),
                })
            }
        },
{
}

/// A directory none of whose configurations could be read has no package, and no
/// error either.
pub proof fn law_directory_without_configuration_is_passed_over(files: Seq<FoundView>)
    requires
        forall|i: int| 0 <= i < files.len() ==> (#[trigger] files[i]).contents is None,
    ensures
        read_first_config(files) == Ok::<Option<WorkspaceView>, DenoWorkspaceErrorView>(None),
    decreases files.len(),
{
    if files.len() > 0 {
        let rest = files.drop_first();
        assert(files[0].contents is None);
        assert forall|i: int| 0 <= i < rest.len() implies (#[trigger] rest[i]).contents is None by {
            assert(rest[i] == files[i + 1]);
        }
        law_directory_without_configuration_is_passed_over(rest);
    }
}

/// The first directory of `directories` whose configuration cannot be used is
/// `at`, and `error` tells why.
spec fn fails_first(
    directories: Seq<Vec<FoundFile>>,
    at: int,
    error: DenoWorkspaceErrorView,
) -> bool {
    &&& 0 <= at < directories.len()
    &&& read_first_config(workspace::found_views(directories[at]@)) == Err::<
        Option<WorkspaceView>,
        DenoWorkspaceErrorView,
    >(error)
    &&& all_read(directories.take(at))
}

/// Whether no configuration in `directories` is an error.
spec fn all_read(directories: Seq<Vec<FoundFile>>) -> bool {
    forall|j: int|
        0 <= j < directories.len() ==> read_first_config(
            workspace::found_views((#[trigger] directories[j])@),
        ) is Ok
}

proof fn lemma_directory_workspaces(
    directories: Seq<Vec<FoundFile>>,
    give: spec_fn(Vec<FoundFile>) -> Option<WorkspaceView>,
)
    requires
        forall|files: Vec<FoundFile>|
            #[trigger] give(files) == match read_first_config(workspace::found_views(files@)) {
                Ok(Some(found)) => Some(found),
                _ => None,
            },
    ensures
        match directory_workspaces(directories) {
            Ok(found) => all_read(directories) && found == directories.filter_map(give),
            Err(error) => exists|at: int| #[trigger] fails_first(directories, at, error),
        },
    decreases directories.len(),
{
    if directories.len() > 0 {
        let rest = directories.drop_first();
        lemma_directory_workspaces(rest, give);
        sequences::lemma_filter_map_first(directories, give);
        let first = read_first_config(workspace::found_views(directories[0]@));
        assert(give(directories[0]) == match first {
            Ok(Some(found)) => Some(found),
            _ => None,
        });
        assert(Seq::<WorkspaceView>::empty() + rest.filter_map(give) =~= rest.filter_map(give));
        match first {
            Ok(_) => {
                match directory_workspaces(rest) {
                    Ok(_) => {
                        assert forall|j: int| 0 <= j < directories.len() implies read_first_config(
                            workspace::found_views((#[trigger] directories[j])@),
                        ) is Ok by {
                            if j > 0 {
                                assert(directories[j] == rest[j - 1]);
                            }
                        }
                    },
                    Err(error) => {
                        let at = choose|at: int| #[trigger] fails_first(rest, at, error);
                        assert(directories[at + 1] == rest[at]);
                        let front = directories.take(at + 1);
                        assert forall|j: int| 0 <= j < front.len() implies read_first_config(
                            workspace::found_views((#[trigger] front[j])@),
                        ) is Ok by {
                            if j > 0 {
                                assert(front[j] == rest.take(at)[j - 1]);
                            }
                        }
                        assert(fails_first(directories, at + 1, error));
                    },
                }
            },
            Err(error) => {
                assert(fails_first(directories, 0, error));
            },
        }
    }
}

/// The first pattern of `matches` that gives an error is `at`: it is none, or the
/// configuration in a directory that it matches cannot be used.
spec fn pattern_fails_first(
    matches: Seq<PatternMatches<Vec<FoundFile>>>,
    at: int,
    error: DenoWorkspaceErrorView,
) -> bool {
    &&& 0 <= at < matches.len()
    &&& match matches[at].found {
        Ok(directories) => exists|k: int| #[trigger] fails_first(directories@, k, error),
        Err(source) => error == DenoWorkspaceErrorView::Glob(matches[at].pattern@, source),
    }
    &&& forall|i: int|
        0 <= i < at ==> (#[trigger] matches[i]).found is Ok && all_read(matches[i].found->Ok_0@)
}

proof fn lemma_matched_workspaces(
    matches: Seq<PatternMatches<Vec<FoundFile>>>,
    give: spec_fn(Vec<FoundFile>) -> Option<WorkspaceView>,
    part: spec_fn(PatternMatches<Vec<FoundFile>>) -> Seq<WorkspaceView>,
)
    requires
        forall|files: Vec<FoundFile>|
            #[trigger] give(files) == match read_first_config(workspace::found_views(files@)) {
                Ok(Some(found)) => Some(found),
                _ => None,
            },
        forall|matched: PatternMatches<Vec<FoundFile>>|
            #[trigger] part(matched) == matched.found->Ok_0@.filter_map(give),
    ensures
        match matched_workspaces(matches) {
            Ok(workspaces) => {
                &&& forall|i: int|
                    0 <= i < matches.len() ==> (#[trigger] matches[i]).found is Ok && all_read(
                        matches[i].found->Ok_0@,
                    )
                &&& workspaces == matches.map_values(part).flatten()
            },
            Err(error) => exists|at: int| #[trigger] pattern_fails_first(matches, at, error),
        },
    decreases matches.len(),
{
    let parts = matches.map_values(part);
    if matches.len() == 0 {
        assert(parts =~= Seq::empty());
    } else {
        let rest = matches.drop_first();
        lemma_matched_workspaces(rest, give, part);
        assert(parts.drop_first() =~= rest.map_values(part));
        match matches[0].found {
            Ok(directories) => {
                lemma_directory_workspaces(directories@, give);
                assert(parts[0] == part(matches[0]));
                match directory_workspaces(directories@) {
                    Ok(found) => {
                        match matched_workspaces(rest) {
                            Ok(_) => {
                                assert forall|i: int| 0 <= i < matches.len() implies (
                                #[trigger] matches[i]).found is Ok && all_read(
                                    matches[i].found->Ok_0@,
                                ) by {
                                    if i > 0 {
                                        assert(matches[i] == rest[i - 1]);
                                    }
                                }
                            },
                            Err(error) => {
                                let at = choose|at: int| #[trigger]
                                    pattern_fails_first(rest, at, error);
                                assert(matches[at + 1] == rest[at]);
                                assert forall|i: int| 0 <= i < at + 1 implies (
                                #[trigger] matches[i]).found is Ok && all_read(
                                    matches[i].found->Ok_0@,
                                ) by {
                                    if i > 0 {
                                        assert(matches[i] == rest[i - 1]);
                                    }
                                }
                                assert(pattern_fails_first(matches, at + 1, error));
                            },
                        }
                    },
                    Err(error) => {
                        assert(pattern_fails_first(matches, 0, error));
                    },
                }
            },
            Err(source) => {
                let error = DenoWorkspaceErrorView::Glob(matches[0].pattern@, source);
                assert(pattern_fails_first(matches, 0, error));
            },
        }
    }
}

/// The members of a Deno workspace are those that were found for the first
/// pattern, then those for the second, and so on, and for each pattern those of
/// its directories, in order: none is left out, and none comes in from elsewhere.
/// There are members only where every pattern is one and no configuration that
/// was found is an error.
pub proof fn law_members_of_all_patterns_are_read(
    matches: Seq<PatternMatches<Vec<FoundFile>>>,
)
    ensures
        matched_workspaces(matches) is Ok <==> forall|i: int|
            0 <= i < matches.len() ==> (#[trigger] matches[i]).found is Ok && forall|j: int|
                0 <= j < matches[i].found->Ok_0@.len() ==> read_first_config(
                    workspace::found_views((#[trigger] matches[i].found->Ok_0@[j])@),
                ) is Ok,
        matched_workspaces(matches) matches Ok(workspaces) ==> workspaces == matches.map_values(
            |matched: PatternMatches<Vec<FoundFile>>|
                matched.found->Ok_0@.filter_map(
                    |files: Vec<FoundFile>|
                        match read_first_config(workspace::found_views(files@)) {
                            Ok(Some(found)) => Some(found),
                            _ => None,
                        },
                ),
        ).flatten(),
{
    let give = |files: Vec<FoundFile>|
        match read_first_config(workspace::found_views(files@)) {
            Ok(Some(found)) => Some(found),
            _ => None,
        };
    let part = |matched: PatternMatches<Vec<FoundFile>>| matched.found->Ok_0@.filter_map(give);
    lemma_matched_workspaces(matches, give, part);
    match matched_workspaces(matches) {
        Ok(_) => {
            assert forall|i: int| 0 <= i < matches.len() implies (
            #[trigger] matches[i]).found is Ok && forall|j: int|
                0 <= j < matches[i].found->Ok_0@.len() ==> read_first_config(
                    workspace::found_views((#[trigger] matches[i].found->Ok_0@[j])@),
                ) is Ok by {
                assert(all_read(matches[i].found->Ok_0@));
            }
        },
        Err(error) => {
            let at = choose|at: int| #[trigger] pattern_fails_first(matches, at, error);
            if let Ok(directories) = matches[at].found {
                let k = choose|k: int| #[trigger] fails_first(directories@, k, error);
                assert(read_first_config(
                    workspace::found_views(matches[at].found->Ok_0@[k]@),
                ) is Err);
            }
        },
    }
}

/// The member in a directory that any of the patterns matches is among the
/// members of the workspace.
pub proof fn law_every_member_found_is_read(
    matches: Seq<PatternMatches<Vec<FoundFile>>>,
    pattern: int,
    at: int,
    member: WorkspaceView,
)
    requires
        0 <= pattern < matches.len(),
        matches[pattern].found is Ok,
        0 <= at < matches[pattern].found->Ok_0@.len(),
        read_first_config(workspace::found_views(matches[pattern].found->Ok_0@[at]@)) == Ok::<
            Option<WorkspaceView>,
            DenoWorkspaceErrorView,
        >(Some(member)),
    ensures
        matched_workspaces(matches) matches Ok(workspaces) ==> workspaces.contains(member),
{
    let give = |files: Vec<FoundFile>|
        match read_first_config(workspace::found_views(files@)) {
            Ok(Some(found)) => Some(found),
            _ => None,
        };
    let part = |matched: PatternMatches<Vec<FoundFile>>| matched.found->Ok_0@.filter_map(give);
    lemma_matched_workspaces(matches, give, part);
    let directories = matches[pattern].found->Ok_0@;
    sequences::lemma_filter_map_keeps(directories, give, at);
    let parts = matches.map_values(part);
    assert(parts[pattern] == directories.filter_map(give));
    sequences::lemma_flatten_keeps(parts, pattern, member);
}

/// Of several errors the first is told: no pattern in front of it, and no
/// directory in front of it that its own pattern matches, gives an error.
pub proof fn law_first_error_of_the_patterns_is_told(
    matches: Seq<PatternMatches<Vec<FoundFile>>>,
)
    ensures
        matched_workspaces(matches) matches Err(error) ==> exists|at: int|
            #![trigger matches[at]]
            0 <= at < matches.len() && (match matches[at].found {
                Ok(directories) => exists|k: int|
                    #![trigger directories@[k]]
                    0 <= k < directories@.len() && read_first_config(
                        workspace::found_views(directories@[k]@),
                    ) == Err::<Option<WorkspaceView>, DenoWorkspaceErrorView>(error) && forall|j:
                        int|
                        0 <= j < k ==> read_first_config(
                            workspace::found_views((#[trigger] directories@[j])@),
                        ) is Ok,
                Err(source) => error == DenoWorkspaceErrorView::Glob(matches[at].pattern@, source),
            }) && forall|i: int|
                0 <= i < at ==> (#[trigger] matches[i]).found is Ok && forall|j: int|
                    0 <= j < matches[i].found->Ok_0@.len() ==> read_first_config(
                        workspace::found_views((#[trigger] matches[i].found->Ok_0@[j])@),
                    ) is Ok,
{
    let give = |files: Vec<FoundFile>|
        match read_first_config(workspace::found_views(files@)) {
            Ok(Some(found)) => Some(found),
            _ => None,
        };
    let part = |matched: PatternMatches<Vec<FoundFile>>| matched.found->Ok_0@.filter_map(give);
    lemma_matched_workspaces(matches, give, part);
    if let Err(error) = matched_workspaces(matches) {
        let at = choose|at: int| #[trigger] pattern_fails_first(matches, at, error);
        assert forall|i: int| 0 <= i < at implies (#[trigger] matches[i]).found is Ok && forall|j:
            int|
            0 <= j < matches[i].found->Ok_0@.len() ==> read_first_config(
                workspace::found_views((#[trigger] matches[i].found->Ok_0@[j])@),
            ) is Ok by {
            assert(all_read(matches[i].found->Ok_0@));
        }
        if let Ok(directories) = matches[at].found {
            let k = choose|k: int| #[trigger] fails_first(directories@, k, error);
            assert forall|j: int| 0 <= j < k implies read_first_config(
                workspace::found_views((#[trigger] directories@[j])@),
            ) is Ok by {
                assert(directories@.take(k)[j] == directories@[j]);
            }
        }
    }
}

/// The first configuration from `from` on that gives no package is `at`: it has a
/// name and a version, and the format of `file` is not known.
spec fn package_fails_first(
    workspaces: Seq<WorkspaceView>,
    lock_file: bool,
    names: Seq<Seq<char>>,
    from: int,
    at: int,
    file: Seq<char>,
) -> bool {
    &&& from <= at < workspaces.len()
    &&& deno_package(workspaces, at, lock_file, names) == Err::<
        Option<PackageView>,
        DenoWorkspaceErrorView,
    >(DenoWorkspaceErrorView::UnknownFile(file))
    &&& forall|i: int| from <= i < at ==> #[trigger] packaged(workspaces, i, lock_file, names)
}

/// Whether the configuration at `at` gives no error.
spec fn packaged(
    workspaces: Seq<WorkspaceView>,
    at: int,
    lock_file: bool,
    names: Seq<Seq<char>>,
) -> bool {
    deno_package(workspaces, at, lock_file, names) is Ok
}

proof fn lemma_deno_packages_from(
    workspaces: Seq<WorkspaceView>,
    at: nat,
    lock_file: bool,
    names: Seq<Seq<char>>,
    give: spec_fn(WorkspaceView) -> Option<PackageView>,
)
    requires
        at <= workspaces.len(),
        forall|i: int|
            #![trigger workspaces[i]]
            0 <= i < workspaces.len() && packaged(workspaces, i, lock_file, names) ==> give(
                workspaces[i],
            ) == deno_package(workspaces, i, lock_file, names)->Ok_0,
    ensures
        match deno_packages_from(workspaces, at, lock_file, names) {
            Ok(packages) => {
                &&& packages == workspaces.skip(at as int).filter_map(give)
                &&& forall|i: int|
                    at <= i < workspaces.len() ==> #[trigger] packaged(
                        workspaces,
                        i,
                        lock_file,
                        names,
                    )
            },
            Err(DenoWorkspaceErrorView::UnknownFile(file)) => exists|k: int| #[trigger]
                package_fails_first(workspaces, lock_file, names, at as int, k, file),
            Err(_) => false,
        },
    decreases workspaces.len() - at,
{
    let left = workspaces.skip(at as int);
    if at < workspaces.len() {
        lemma_deno_packages_from(workspaces, at + 1, lock_file, names, give);
        sequences::lemma_filter_map_first(left, give);
        assert(left.drop_first() =~= workspaces.skip((at + 1) as int));
        assert(left[0] == workspaces[at as int]);
        let rest = workspaces.skip((at + 1) as int).filter_map(give);
        assert(Seq::<PackageView>::empty() + rest =~= rest);
        let outcome = deno_package(workspaces, at as int, lock_file, names);
        match outcome {
            Ok(_) => {
                assert(packaged(workspaces, at as int, lock_file, names));
                if let Err(DenoWorkspaceErrorView::UnknownFile(file)) = deno_packages_from(
                    workspaces,
                    at + 1,
                    lock_file,
                    names,
                ) {
                    let k = choose|k: int| #[trigger]
                        package_fails_first(workspaces, lock_file, names, (at + 1) as int, k, file);
                    assert(package_fails_first(workspaces, lock_file, names, at as int, k, file));
                }
            },
            Err(DenoWorkspaceErrorView::UnknownFile(file)) => {
                assert(package_fails_first(
                    workspaces,
                    lock_file,
                    names,
                    at as int,
                    at as int,
                    file,
                ));
            },
            Err(_) => {},
        }
    } else {
        assert(left =~= Seq::empty());
    }
}

/// The packages of Deno are those of the configurations that have a text under
/// `name` and a text under `version`, all of them, in order, each with the text
/// under `name` as its name; a configuration that lacks either gives none and is
/// no error.
pub proof fn law_versioned_configurations_give_packages(
    workspaces: Seq<WorkspaceView>,
    lock_file: bool,
    names: Seq<Seq<char>>,
)
    ensures
        deno_packages_from(workspaces, 0, lock_file, names) matches Ok(packages) ==> packages
            == workspaces.filter_map(
            |configuration: WorkspaceView|
                match (
                    json::field(configuration.value, "name"@),
                    json::field(configuration.value, "version"@),
                ) {
                    (Some(JsonView::Str(name)), Some(JsonView::Str(_))) => Some(
                        workspace::workspace_package(
                            Manager::Deno,
                            workspaces,
                            configuration.path,
                            name,
                            lock_file,
                            names,
                        )->Ok_0,
                    ),
                    _ => None,
                },
        ),
        deno_packages_from(workspaces, 0, lock_file, names) is Ok <==> forall|i: int|
            0 <= i < workspaces.len() ==> (match (
                json::field((#[trigger] workspaces[i]).value, "name"@),
                json::field(workspaces[i].value, "version"@),
            ) {
                (Some(JsonView::Str(name)), Some(JsonView::Str(_))) => workspace::workspace_package(
                    Manager::Deno,
                    workspaces,
                    workspaces[i].path,
                    name,
                    lock_file,
                    names,
                ) is Ok,
                _ => true,
            }),
{
    let give = |configuration: WorkspaceView|
        match (
            json::field(configuration.value, "name"@),
            json::field(configuration.value, "version"@),
        ) {
            (Some(JsonView::Str(name)), Some(JsonView::Str(_))) => Some(
                workspace::workspace_package(
                    Manager::Deno,
                    workspaces,
                    configuration.path,
                    name,
                    lock_file,
                    names,
                )->Ok_0,
            ),
            _ => None,
        };
    lemma_deno_packages_from(workspaces, 0, lock_file, names, give);
    assert(workspaces.skip(0) =~= workspaces);
    match deno_packages_from(workspaces, 0, lock_file, names) {
        Ok(_) => {
            assert forall|i: int| 0 <= i < workspaces.len() implies (match (
                json::field((#[trigger] workspaces[i]).value, "name"@),
                json::field(workspaces[i].value, "version"@),
            ) {
                (Some(JsonView::Str(name)), Some(JsonView::Str(_))) => workspace::workspace_package(
                    Manager::Deno,
                    workspaces,
                    workspaces[i].path,
                    name,
                    lock_file,
                    names,
                ) is Ok,
                _ => true,
            }) by {
                assert(packaged(workspaces, i, lock_file, names));
            }
        },
        Err(_) => {},
    }
}

/// A file whose format is not known is told for the first configuration that has
/// a name and a version and such a file.
pub proof fn law_first_unknown_file_is_told(
    workspaces: Seq<WorkspaceView>,
    lock_file: bool,
    names: Seq<Seq<char>>,
)
    ensures
        deno_packages_from(workspaces, 0, lock_file, names) matches Err(error) ==> exists|k: int|
            0 <= k < workspaces.len() && (json::field(
                (#[trigger] workspaces[k]).value,
                "name"@,
            ) matches Some(JsonView::Str(name)) && (json::field(
                workspaces[k].value,
                "version"@,
            ) matches Some(JsonView::Str(_))) && (workspace::workspace_package(
                Manager::Deno,
                workspaces,
                workspaces[k].path,
                name,
                lock_file,
                names,
            ) matches Err(file) && error == DenoWorkspaceErrorView::UnknownFile(file))) && forall|
                i: int,
            |
                0 <= i < k ==> (match (
                    json::field((#[trigger] workspaces[i]).value, "name"@),
                    json::field(workspaces[i].value, "version"@),
                ) {
                    (
                        Some(JsonView::Str(name)),
                        Some(JsonView::Str(_)),
                    ) => workspace::workspace_package(
                        Manager::Deno,
                        workspaces,
                        workspaces[i].path,
                        name,
                        lock_file,
                        names,
                    ) is Ok,
                    _ => true,
                }),
{
    let give = |configuration: WorkspaceView|
        match (
            json::field(configuration.value, "name"@),
            json::field(configuration.value, "version"@),
        ) {
            (Some(JsonView::Str(name)), Some(JsonView::Str(_))) => Some(
                workspace::workspace_package(
                    Manager::Deno,
                    workspaces,
                    configuration.path,
                    name,
                    lock_file,
                    names,
                )->Ok_0,
            ),
            _ => None,
        };
    lemma_deno_packages_from(workspaces, 0, lock_file, names, give);
    if let Err(DenoWorkspaceErrorView::UnknownFile(file)) = deno_packages_from(
        workspaces,
        0,
        lock_file,
        names,
    ) {
        let k = choose|k: int| #[trigger]
            package_fails_first(workspaces, lock_file, names, 0, k, file);
        assert forall|i: int| 0 <= i < k implies (match (
            json::field((#[trigger] workspaces[i]).value, "name"@),
            json::field(workspaces[i].value, "version"@),
        ) {
            (Some(JsonView::Str(name)), Some(JsonView::Str(_))) => workspace::workspace_package(
                Manager::Deno,
                workspaces,
                workspaces[i].path,
                name,
                lock_file,
                names,
            ) is Ok,
            _ => true,
        }) by {
            assert(packaged(workspaces, i, lock_file, names));
        }
        assert(json::field(workspaces[k].value, "name"@) is Some);
    }
}

/// The root configuration is `deno.json`, and `deno.jsonc` only where there is no
/// `deno.json`.  With an array under `workspace`, comments aside, it is the root
/// of a Deno workspace, whose packages are those of the configurations that match;
/// without one there are no packages.
pub proof fn law_workspace_array_makes_a_workspace(
    deno_json: Option<Seq<char>>,
    deno_jsonc: Option<Seq<char>>,
    matches: Seq<PatternMatches<Vec<FoundFile>>>,
    lock_file: bool,
    names: Seq<Seq<char>>,
)
    ensures
        deno_json is Some ==> root_contents(deno_json, deno_jsonc) == deno_json,
        deno_json is None ==> root_contents(deno_json, deno_jsonc) == deno_jsonc,
        ({
            let root = root_contents(deno_json, deno_jsonc);
            let found = deno_packages(root, matches, lock_file, names);
            let value = match root {
                Some(contents) => match json::reading(contents) {
                    Ok(value) => Some(value),
                    Err(_) => json::parsed(jsonc::stripped(contents)),
                },
                None => None,
            };
            if value matches Some(value) && json::field(value, "workspace"@) matches Some(
                JsonView::Array(_),
            ) {
                &&& matched_workspaces(matches) matches Ok(workspaces) ==> found
                    == deno_packages_from(workspaces, 0, lock_file, names)
                &&& matched_workspaces(matches) matches Err(error) ==> found == Err::<
                    Seq<PackageView>,
                    DenoWorkspaceErrorView,
                >(error)
            } else {
                found == Ok::<Seq<PackageView>, DenoWorkspaceErrorView>(Seq::empty())
            }
        }),
{
}

/// The patterns of a Deno workspace are all texts in the array under `workspace`
/// of its root configuration, in order, whether that holds comments or not; one
/// that is not there, cannot be read or has no such array gives none.
pub proof fn law_patterns_are_those_of_the_root(
    contents: Seq<char>,
    value: JsonView,
    items: Seq<JsonView>,
)
    ensures
        deno_patterns(None) is None,
        json::parsed(contents) is None && json::parsed(jsonc::stripped(contents)) is None
            ==> deno_patterns(Some(contents)) is None,
        (json::parsed(contents) == Some(value) || json::parsed(contents) is None && json::parsed(
            jsonc::stripped(contents),
        ) == Some(value)) ==> {
            &&& json::field(value, "workspace"@) == Some(JsonView::Array(items)) ==> deno_patterns(
                Some(contents),
            ) == Some(
                items.filter_map(
                    |item: JsonView|
                        match item {
                            JsonView::Str(text) => Some(text),
                            _ => None,
                        },
                ),
            )
            &&& !(json::field(value, "workspace"@) is Some && json::field(
                value,
                "workspace"@,
            )->0 is Array) ==> deno_patterns(Some(contents)) is None
        },
{
    workspace::law_patterns_are_the_texts_of_the_array(value, "workspace"@);
}

} // verus!
