//! npm workspaces.

use vstd::prelude::*;

use crate::json;
use crate::json::JsonView;
use crate::package;
use crate::package::workspace;
use crate::package::workspace::{
    FoundFile, FoundView, Manager, PatternMatches, Workspace, WorkspaceView,
};
use crate::package::{Package, PackageView};
use crate::path::RelativePathBuf;
use crate::sequences;
use crate::text;
use crate::versioned_file::{FileNames, UnknownFile};

verus! {

/// Why the packages of an npm workspace could not be found.
#[derive(Debug)]
pub enum NPMWorkspaceError {
    /// A pattern in `package.json` is no glob pattern.
    Glob { pattern: String, source: glob::PatternError },
    /// The manifest at `path` has no name.
    NoName { path: RelativePathBuf },
    /// The format of a versioned file is not known.
    UnknownFile(UnknownFile),
}

/// Why the packages of an npm workspace could not be found.
pub enum NPMWorkspaceErrorView {
    Glob(Seq<char>, glob::PatternError),
    NoName(Seq<char>),
    UnknownFile(Seq<char>),
}

impl View for NPMWorkspaceError {
    type V = NPMWorkspaceErrorView;

    open spec fn view(&self) -> NPMWorkspaceErrorView {
        match *self {
            NPMWorkspaceError::Glob { pattern, source } => NPMWorkspaceErrorView::Glob(
                pattern@,
                source,
            ),
            NPMWorkspaceError::NoName { path } => NPMWorkspaceErrorView::NoName(path@),
            NPMWorkspaceError::UnknownFile(unknown) => NPMWorkspaceErrorView::UnknownFile(
                unknown.path@,
            ),
        }
    }
}

/// What the outcome of looking for packages stands for.
pub open spec fn outcome(result: Result<Vec<Package>, NPMWorkspaceError>) -> Result<
    Seq<PackageView>,
    NPMWorkspaceErrorView,
> {
    match result {
        Ok(packages) => Ok(package::package_views(packages@)),
        Err(error) => Err(error@),
    }
}

/// The package of a manifest that was looked for, if the manifest could be read,
/// holds JSON and can be told from the working directory on.
pub open spec fn found_workspace(file: FoundView) -> Option<WorkspaceView> {
    match (file.contents, file.relative) {
        (Some(contents), Some(relative)) => match json::parsed(contents) {
            Some(value) => Some(WorkspaceView { path: relative, value }),
            None => None,
        },
        _ => None,
    }
}

/// The packages of the manifests that a pattern matches.
pub open spec fn found_workspaces(files: Seq<FoundView>) -> Seq<WorkspaceView>
    decreases files.len(),
{
    if files.len() == 0 {
        Seq::empty()
    } else {
        let before = found_workspaces(files.drop_last());
        match found_workspace(files.last()) {
            Some(found) => before.push(found),
            None => before,
        }
    }
}

/// The packages that patterns match, up to the first pattern that is none.
pub open spec fn matched_workspaces(matches: Seq<PatternMatches<FoundFile>>) -> Result<
    Seq<WorkspaceView>,
    NPMWorkspaceErrorView,
>
    decreases matches.len(),
{
    if matches.len() == 0 {
        Ok(Seq::empty())
    } else {
        match matches[0].found {
            Ok(files) => workspace::prepend(
                found_workspaces(workspace::found_views(files@)),
                matched_workspaces(matches.drop_first()),
            ),
            Err(source) => Err(NPMWorkspaceErrorView::Glob(matches[0].pattern@, source)),
        }
    }
}

/// The package that a manifest describes.
pub open spec fn npm_package(
    workspaces: Seq<WorkspaceView>,
    at: int,
    lock_file: bool,
    names: Seq<Seq<char>>,
) -> Result<PackageView, NPMWorkspaceErrorView> {
    match workspace::text_field(workspaces[at].value, "name"@) {
        Some(name) => match workspace::workspace_package(
            Manager::Npm,
            workspaces,
            workspaces[at].path,
            name,
            lock_file,
            names,
        ) {
            Ok(package) => Ok(package),
            Err(unknown) => Err(NPMWorkspaceErrorView::UnknownFile(unknown)),
        },
        None => Err(NPMWorkspaceErrorView::NoName(workspaces[at].path)),
    }
}

/// The packages that the manifests from `at` on describe, up to the first one
/// that describes none.
pub open spec fn npm_packages_from(
    workspaces: Seq<WorkspaceView>,
    at: nat,
    lock_file: bool,
    names: Seq<Seq<char>>,
) -> Result<Seq<PackageView>, NPMWorkspaceErrorView>
    decreases workspaces.len() - at,
{
    if at >= workspaces.len() {
        Ok(Seq::empty())
    } else {
        match npm_package(workspaces, at as int, lock_file, names) {
            Ok(package) => workspace::prepend(
                seq![package],
                npm_packages_from(workspaces, at + 1, lock_file, names),
            ),
            Err(error) => Err(error),
        }
    }
}

/// The patterns that a `package.json` gives for the packages of its workspace.
pub open spec fn npm_patterns(package_json: Option<Seq<char>>) -> Option<Seq<Seq<char>>> {
    match package_json {
        Some(contents) => match json::parsed(contents) {
            Some(value) => workspace::patterns_in(value, "workspaces"@),
            None => None,
        },
        None => None,
    }
}

/// The packages of an npm workspace.
pub open spec fn npm_packages(
    package_json: Option<Seq<char>>,
    matches: Seq<PatternMatches<FoundFile>>,
    lock_file: bool,
    names: Seq<Seq<char>>,
) -> Result<Seq<PackageView>, NPMWorkspaceErrorView> {
    match npm_patterns(package_json) {
        Some(_) => match matched_workspaces(matches) {
            Ok(workspaces) => npm_packages_from(workspaces, 0, lock_file, names),
            Err(error) => Err(error),
        },
        None => Ok(Seq::empty()),
    }
}

/// The package of a manifest that was looked for.
fn read_workspace(file: FoundFile) -> (found: Option<Workspace>)
    ensures
        match found {
            Some(found) => found_workspace(file@) == Some(found@),
            None => found_workspace(file@) is None,
        },
{
    match (file.contents, file.relative) {
        (Some(contents), Some(relative)) => match json::parse(contents.as_str()) {
            Ok(value) => Some(Workspace { path: relative, value }),
            Err(_) => None,
        },
        _ => None,
    }
}

/// The packages that patterns match.
pub fn read_matches(matches: Vec<PatternMatches<FoundFile>>) -> (result: Result<
    Vec<Workspace>,
    NPMWorkspaceError,
>)
    ensures
        match result {
            Ok(workspaces) => matched_workspaces(matches@) == Ok::<
                Seq<WorkspaceView>,
                NPMWorkspaceErrorView,
            >(workspace::workspace_views(workspaces@)),
            Err(error) => matched_workspaces(matches@) == Err::<
                Seq<WorkspaceView>,
                NPMWorkspaceErrorView,
            >(error@),
        },
{
    let mut workspaces: Vec<Workspace> = Vec::new();
    proof {
        assert(matches@.skip(0) =~= matches@);
        assert(workspace::workspace_views(workspaces@) =~= Seq::empty());
        workspace::lemma_prepend_empty(matched_workspaces(matches@));
    }
    for matched in iter: matches
        invariant
            iter.seq() == matches@,
            workspace::prepend(
                workspace::workspace_views(workspaces@),
                matched_workspaces(matches@.skip(iter.index() as int)),
            ) == matched_workspaces(matches@),
    {
        let ghost at = iter.index() as int;
        let ghost before = workspace::workspace_views(workspaces@);
        assert(matches@.skip(at)[0] == matched);
        assert(matches@.skip(at).drop_first() =~= matches@.skip(at + 1));
        match matched.found {
            Ok(files) => {
                let ghost views = workspace::found_views(files@);
                assert(before + found_workspaces(views.take(0)) =~= before);
                for file in inner: files
                    invariant
                        inner.seq() == files@,
                        views == workspace::found_views(files@),
                        workspace::workspace_views(workspaces@) == before + found_workspaces(
                            views.take(inner.index() as int),
                        ),
                {
                    let ghost next = inner.index() as int;
                    assert(views.take(next + 1).drop_last() =~= views.take(next));
                    assert(views.take(next + 1).last() == file@);
                    let ghost front = workspace::workspace_views(workspaces@);
                    if let Some(found) = read_workspace(file) {
                        workspaces.push(found);
                        assert(workspace::workspace_views(workspaces@) =~= front.push(found@));
                        assert(front.push(found@) =~= before + found_workspaces(
                            views.take(next),
                        ).push(found@));
                    }
                }
                proof {
                    assert(views.take(views.len() as int) =~= views);
                    workspace::lemma_prepend_twice(
                        before,
                        found_workspaces(views),
                        matched_workspaces(matches@.skip(at + 1)),
                    );
                }
            },
            Err(source) => {
                return Err(NPMWorkspaceError::Glob { pattern: matched.pattern, source });
            },
        }
    }
    proof {
        assert(workspace::workspace_views(workspaces@) + Seq::empty()
            =~= workspace::workspace_views(workspaces@));
    }
    Ok(workspaces)
}

/// The packages that the manifests of an npm workspace describe.
pub fn make_packages(
    workspaces: &Vec<Workspace>,
    lock_file: bool,
    names: &FileNames,
) -> (result: Result<Vec<Package>, NPMWorkspaceError>)
    ensures
        outcome(result) == npm_packages_from(
            workspace::workspace_views(workspaces@),
            0,
            lock_file,
            names@,
        ),
{
    let ghost views = workspace::workspace_views(workspaces@);
    let mut packages: Vec<Package> = Vec::new();
    let mut at: usize = 0;
    proof {
        assert(package::package_views(packages@) =~= Seq::empty());
        workspace::lemma_prepend_empty(npm_packages_from(views, 0, lock_file, names@));
    }
    while at < workspaces.len()
        invariant
            at <= workspaces.len(),
            views == workspace::workspace_views(workspaces@),
            workspace::prepend(
                package::package_views(packages@),
                npm_packages_from(views, at as nat, lock_file, names@),
            ) == npm_packages_from(views, 0, lock_file, names@),
        decreases workspaces.len() - at,
    {
        let workspace = &workspaces[at];
        assert(views[at as int] == workspace@);
        let name = match workspace::get_text(&workspace.value, "name") {
            Some(name) => name,
            None => {
                return Err(NPMWorkspaceError::NoName { path: workspace.path.clone() });
            },
        };
        let made = workspace::make_package(
            Manager::Npm,
            workspaces,
            workspace.path.as_str(),
            name.as_str(),
            lock_file,
            names,
        );
        match made {
            Ok(package) => {
                let ghost before = package::package_views(packages@);
                packages.push(package);
                proof {
                    assert(package::package_views(packages@) =~= before + seq![package@]);
                    workspace::lemma_prepend_twice(
                        before,
                        seq![package@],
                        npm_packages_from(views, (at + 1) as nat, lock_file, names@),
                    );
                }
            },
            Err(unknown) => {
                return Err(NPMWorkspaceError::UnknownFile(unknown));
            },
        }
        at = at + 1;
    }
    assert(package::package_views(packages@) + Seq::empty() =~= package::package_views(packages@));
    Ok(packages)
}

/// The patterns that a `package.json` gives for the packages of its workspace.
pub fn read_patterns(package_json: Option<&str>) -> (patterns: Option<Vec<String>>)
    ensures
        match patterns {
            Some(patterns) => npm_patterns(text::str_view(package_json)) == Some(
                text::string_views(patterns@),
            ),
            None => npm_patterns(text::str_view(package_json)) is None,
        },
{
    match package_json {
        Some(contents) => match json::parse(contents) {
            Ok(value) => workspace::get_patterns(&value, "workspaces"),
            Err(_) => None,
        },
        None => None,
    }
}

impl Package {
    /// The packages of the npm workspace whose root manifest holds
    /// `package_json`.  `matches` tells what was found for each of its patterns,
    /// in order, and `lock_file` whether there is a `package-lock.json`.
    pub fn npm_workspaces(
        package_json: Option<&str>,
        matches: Vec<PatternMatches<FoundFile>>,
        lock_file: bool,
        names: &FileNames,
    ) -> (result: Result<Vec<Package>, NPMWorkspaceError>)
        ensures
            outcome(result) == npm_packages(
                text::str_view(package_json),
                matches@,
                lock_file,
                names@,
            ),
    {
        if read_patterns(package_json).is_none() {
            let packages: Vec<Package> = Vec::new();
            assert(package::package_views(packages@) =~= Seq::empty());
            return Ok(packages);
        }
        match read_matches(matches) {
            Ok(workspaces) => make_packages(&workspaces, lock_file, names),
            Err(error) => Err(error),
        }
    }
}

/// Where the packages of an npm workspace are found, there is one for each
/// manifest, in order, with the name that the manifest gives.
pub proof fn law_every_manifest_gives_a_package(
    workspaces: Seq<WorkspaceView>,
    at: nat,
    lock_file: bool,
    names: Seq<Seq<char>>,
)
    requires
        at <= workspaces.len(),
        npm_packages_from(workspaces, at, lock_file, names) is Ok,
    ensures
        ({
            let packages = npm_packages_from(workspaces, at, lock_file, names)->Ok_0;
            &&& packages.len() == workspaces.len() - at
            &&& forall|i: int|
                0 <= i < packages.len() ==> (#[trigger] packages[i]).name is Some
                    && packages[i].name == workspace::text_field(
                    workspaces[at + i].value,
                    "name"@,
                ) && packages[i].scopes == Some(seq![packages[i].name->0])
        }),
    decreases workspaces.len() - at,
{
    if at < workspaces.len() {
        law_every_manifest_gives_a_package(workspaces, at + 1, lock_file, names);
        let rest = npm_packages_from(workspaces, at + 1, lock_file, names)->Ok_0;
        let packages = npm_packages_from(workspaces, at, lock_file, names)->Ok_0;
        assert forall|i: int| 0 <= i < packages.len() implies (#[trigger] packages[i]).name is Some
            && packages[i].name == workspace::text_field(workspaces[at + i].value, "name"@)
            && packages[i].scopes == Some(seq![packages[i].name->0]) by {
            if i > 0 {
                assert(packages[i] == rest[i - 1]);
                assert(workspaces[at + i] == workspaces[at + 1 + (i - 1)]);
            }
        }
    }
}

/// A directory without a `package.json` that lists workspaces has no packages of
/// npm, whatever else it holds.
pub proof fn law_no_patterns_no_packages(
    package_json: Option<Seq<char>>,
    matches: Seq<PatternMatches<FoundFile>>,
    lock_file: bool,
    names: Seq<Seq<char>>,
)
    requires
        npm_patterns(package_json) is None,
    ensures
        npm_packages(package_json, matches, lock_file, names) == Ok::<
            Seq<PackageView>,
            NPMWorkspaceErrorView,
        >(Seq::empty()),
{
}

proof fn lemma_packages_from(
    workspaces: Seq<WorkspaceView>,
    at: nat,
    lock_file: bool,
    names: Seq<Seq<char>>,
)
    ensures
        npm_packages_from(workspaces, at, lock_file, names) matches Ok(packages)
            ==> package::all_members(packages),
    decreases workspaces.len() - at,
{
    if at < workspaces.len() {
        lemma_packages_from(workspaces, at + 1, lock_file, names);
        if let Some(name) = workspace::text_field(workspaces[at as int].value, "name"@) {
            workspace::law_own_manifest_comes_first(
                Manager::Npm,
                workspaces,
                workspaces[at as int].path,
                name,
                lock_file,
            );
        }
    }
}

/// Every package of an npm workspace has a name, its name as its scope, and a
/// file that carries its version.
pub proof fn law_packages_are_members(
    package_json: Option<Seq<char>>,
    matches: Seq<PatternMatches<FoundFile>>,
    lock_file: bool,
    names: Seq<Seq<char>>,
)
    ensures
        npm_packages(package_json, matches, lock_file, names) matches Ok(packages)
            ==> package::all_members(packages),
{
    if let Ok(workspaces) = matched_workspaces(matches) {
        lemma_packages_from(workspaces, 0, lock_file, names);
    }
}

proof fn lemma_found_workspaces(
    files: Seq<FoundFile>,
    give: spec_fn(FoundFile) -> Option<WorkspaceView>,
)
    requires
        forall|file: FoundFile| #[trigger] give(file) == found_workspace(file@),
    ensures
        found_workspaces(workspace::found_views(files)) == files.filter_map(give),
    decreases files.len(),
{
    let views = workspace::found_views(files);
    if files.len() > 0 {
        lemma_found_workspaces(files.drop_last(), give);
        assert(views.drop_last() =~= workspace::found_views(files.drop_last()));
        assert(views.last() == files.last()@);
        assert(give(files.last()) == found_workspace(files.last()@));
    } else {
        assert(views =~= Seq::empty());
    }
}

proof fn lemma_matched_workspaces(
    matches: Seq<PatternMatches<FoundFile>>,
    give: spec_fn(FoundFile) -> Option<WorkspaceView>,
    part: spec_fn(PatternMatches<FoundFile>) -> Seq<WorkspaceView>,
)
    requires
        forall|file: FoundFile| #[trigger] give(file) == found_workspace(file@),
        forall|matched: PatternMatches<FoundFile>|
            #[trigger] part(matched) == matched.found->Ok_0@.filter_map(give),
    ensures
        match matched_workspaces(matches) {
            Ok(workspaces) => {
                &&& forall|i: int|
                    0 <= i < matches.len() ==> (#[trigger] matches[i]).found is Ok
                &&& workspaces == matches.map_values(part).flatten()
            },
            Err(error) => exists|k: int|
                0 <= k < matches.len() && ((#[trigger] matches[k]).found matches Err(source)
                    && error == NPMWorkspaceErrorView::Glob(matches[k].pattern@, source))
                    && forall|i: int| 0 <= i < k ==> (#[trigger] matches[i]).found is Ok,
        },
    decreases matches.len(),
{
    let parts = matches.map_values(part);
    if matches.len() == 0 {
        assert(parts =~= Seq::empty());
    } else {
        let rest = matches.drop_first();
        lemma_matched_workspaces(rest, give, part);
        assert(parts.drop_first() =~= rest.map_values(part));
        assert(forall|i: int| 0 <= i < rest.len() ==> rest[i] == #[trigger] matches[i + 1]);
        assert(forall|i: int| 0 < i < matches.len() ==> #[trigger] matches[i] == rest[i - 1]);
        match matches[0].found {
            Ok(files) => {
                lemma_found_workspaces(files@, give);
                assert(parts[0] == part(matches[0]));
                match matched_workspaces(rest) {
                    Ok(_) => {},
                    Err(error) => {
                        let k = choose|k: int|
                            0 <= k < rest.len() && ((#[trigger] rest[k]).found matches Err(source)
                                && error == NPMWorkspaceErrorView::Glob(rest[k].pattern@, source))
                                && forall|i: int| 0 <= i < k ==> (#[trigger] rest[i]).found is Ok;
                        assert(matches[k + 1] == rest[k]);
                        assert forall|i: int| 0 <= i < k + 1 implies (
                        #[trigger] matches[i]).found is Ok by {
                            if i > 0 {
                                assert(rest[i - 1].found is Ok);
                            }
                        }
                    },
                }
            },
            Err(source) => {
                assert(matches[0].found matches Err(source));
            },
        }
    }
}

/// The manifests of an npm workspace are those that were found for the first
/// pattern, then those for the second, and so on: all that could be read, hold
/// JSON and can be told from the working directory on, in order.  A pattern that
/// is none is told, the first of them, and there are no manifests then.
pub proof fn law_manifests_of_all_patterns_are_read(matches: Seq<PatternMatches<FoundFile>>)
    ensures
        match matched_workspaces(matches) {
            Ok(workspaces) => {
                &&& forall|i: int|
                    0 <= i < matches.len() ==> (#[trigger] matches[i]).found is Ok
                &&& workspaces == matches.map_values(
                    |matched: PatternMatches<FoundFile>|
                        matched.found->Ok_0@.filter_map(
                            |file: FoundFile|
                                match (file@.contents, file@.relative) {
                                    (Some(contents), Some(relative)) => match json::parsed(
                                        contents,
                                    ) {
                                        Some(value) => Some(
                                            WorkspaceView { path: relative, value },
                                        ),
                                        None => None,
                                    },
                                    _ => None,
                                },
                        ),
                ).flatten()
            },
            Err(error) => exists|k: int|
                0 <= k < matches.len() && ((#[trigger] matches[k]).found matches Err(source)
                    && error == NPMWorkspaceErrorView::Glob(matches[k].pattern@, source))
                    && forall|i: int| 0 <= i < k ==> (#[trigger] matches[i]).found is Ok,
        },
{
    let give = |file: FoundFile|
        match (file@.contents, file@.relative) {
            (Some(contents), Some(relative)) => match json::parsed(contents) {
                Some(value) => Some(WorkspaceView { path: relative, value }),
                None => None,
            },
            _ => None,
        };
    let part = |matched: PatternMatches<FoundFile>| matched.found->Ok_0@.filter_map(give);
    lemma_matched_workspaces(matches, give, part);
}

/// Every manifest that was found for any of the patterns, could be read, holds
/// JSON and can be told from the working directory on is among the manifests of
/// the workspace.
pub proof fn law_every_manifest_found_is_read(
    matches: Seq<PatternMatches<FoundFile>>,
    pattern: int,
    at: int,
)
    requires
        0 <= pattern < matches.len(),
        matches[pattern].found is Ok,
        0 <= at < matches[pattern].found->Ok_0@.len(),
        ({
            let file = matches[pattern].found->Ok_0@[at]@;
            file.contents is Some && file.relative is Some && json::parsed(file.contents->0) is Some
        }),
    ensures
        matched_workspaces(matches) matches Ok(workspaces) ==> workspaces.contains(
            WorkspaceView {
                path: matches[pattern].found->Ok_0@[at]@.relative->0,
                value: json::parsed(matches[pattern].found->Ok_0@[at]@.contents->0)->0,
            },
        ),
{
    let give = |file: FoundFile| found_workspace(file@);
    let part = |matched: PatternMatches<FoundFile>| matched.found->Ok_0@.filter_map(give);
    lemma_matched_workspaces(matches, give, part);
    let files = matches[pattern].found->Ok_0@;
    sequences::lemma_filter_map_keeps(files, give, at);
    let parts = matches.map_values(part);
    assert(parts[pattern] == files.filter_map(give));
    sequences::lemma_flatten_keeps(parts, pattern, give(files[at])->0);
}

proof fn lemma_packages_one_for_one(
    workspaces: Seq<WorkspaceView>,
    at: nat,
    lock_file: bool,
    names: Seq<Seq<char>>,
)
    requires
        at <= workspaces.len(),
    ensures
        match npm_packages_from(workspaces, at, lock_file, names) {
            Ok(packages) => {
                &&& packages.len() == workspaces.len() - at
                &&& forall|i: int|
                    at <= i < workspaces.len() ==> gives(
                        #[trigger] workspaces[i],
                        workspaces,
                        lock_file,
                        names,
                        packages[i - at],
                    )
            },
            Err(NPMWorkspaceErrorView::NoName(path)) => exists|k: int|
                at <= k < workspaces.len() && (#[trigger] workspaces[k]).path == path && !(
                json::field(workspaces[k].value, "name"@) matches Some(JsonView::Str(_)))
                    && forall|i: int|
                    at <= i < k ==> is_usable(
                        #[trigger] workspaces[i],
                        workspaces,
                        lock_file,
                        names,
                    ),
            Err(NPMWorkspaceErrorView::UnknownFile(file)) => exists|k: int|
                at <= k < workspaces.len() && (json::field(
                    (#[trigger] workspaces[k]).value,
                    "name"@,
                ) matches Some(JsonView::Str(name)) && workspace::workspace_package(
                    Manager::Npm,
                    workspaces,
                    workspaces[k].path,
                    name,
                    lock_file,
                    names,
                ) == Err::<PackageView, Seq<char>>(file)) && forall|i: int|
                    at <= i < k ==> is_usable(
                        #[trigger] workspaces[i],
                        workspaces,
                        lock_file,
                        names,
                    ),
            Err(NPMWorkspaceErrorView::Glob(_, _)) => false,
        },
    decreases workspaces.len() - at,
{
    if at < workspaces.len() {
        lemma_packages_one_for_one(workspaces, at + 1, lock_file, names);
        let here = workspaces[at as int];
        match npm_package(workspaces, at as int, lock_file, names) {
            Ok(package) => {
                assert(gives(here, workspaces, lock_file, names, package));
                match npm_packages_from(workspaces, at + 1, lock_file, names) {
                    Ok(rest) => {
                        let packages = seq![package] + rest;
                        assert forall|i: int| at <= i < workspaces.len() implies gives(
                            #[trigger] workspaces[i],
                            workspaces,
                            lock_file,
                            names,
                            packages[i - at],
                        ) by {
                            if i > at {
                                assert(packages[i - at] == rest[i - (at + 1)]);
                            }
                        }
                    },
                    Err(NPMWorkspaceErrorView::NoName(path)) => {
                        let k = choose|k: int|
                            at + 1 <= k < workspaces.len() && (#[trigger] workspaces[k]).path
                                == path && !(json::field(
                                workspaces[k].value,
                                "name"@,
                            ) matches Some(JsonView::Str(_))) && forall|i: int|
                                at + 1 <= i < k ==> is_usable(
                                    #[trigger] workspaces[i],
                                    workspaces,
                                    lock_file,
                                    names,
                                );
                        assert(is_usable(here, workspaces, lock_file, names));
                        assert(workspaces[k].path == path);
                    },
                    Err(NPMWorkspaceErrorView::UnknownFile(file)) => {
                        let k = choose|k: int|
                            at + 1 <= k < workspaces.len() && (json::field(
                                (#[trigger] workspaces[k]).value,
                                "name"@,
                            ) matches Some(JsonView::Str(name)) && workspace::workspace_package(
                                Manager::Npm,
                                workspaces,
                                workspaces[k].path,
                                name,
                                lock_file,
                                names,
                            ) == Err::<PackageView, Seq<char>>(file)) && forall|i: int|
                                at + 1 <= i < k ==> is_usable(
                                    #[trigger] workspaces[i],
                                    workspaces,
                                    lock_file,
                                    names,
                                );
                        assert(is_usable(here, workspaces, lock_file, names));
                        assert(json::field(workspaces[k].value, "name"@) is Some);
                    },
                    Err(_) => {},
                }
            },
            Err(_) => {
                assert(workspaces[at as int] == here);
            },
        }
    }
}

/// Whether a manifest gives any package: it has a text under `name`, and the
/// formats of the versioned files of the package of that name are known.
spec fn is_usable(
    manifest: WorkspaceView,
    workspaces: Seq<WorkspaceView>,
    lock_file: bool,
    names: Seq<Seq<char>>,
) -> bool {
    json::field(manifest.value, "name"@) matches Some(JsonView::Str(name))
        && workspace::workspace_package(
        Manager::Npm,
        workspaces,
        manifest.path,
        name,
        lock_file,
        names,
    ) is Ok
}

/// Whether a manifest gives a package: it has a text under `name`, and the
/// package of that name is the one of its workspace.
spec fn gives(
    manifest: WorkspaceView,
    workspaces: Seq<WorkspaceView>,
    lock_file: bool,
    names: Seq<Seq<char>>,
    package: PackageView,
) -> bool {
    json::field(manifest.value, "name"@) matches Some(JsonView::Str(name))
        && workspace::workspace_package(
        Manager::Npm,
        workspaces,
        manifest.path,
        name,
        lock_file,
        names,
    ) == Ok::<PackageView, Seq<char>>(package)
}

/// A `package.json` that holds JSON with an array under `workspaces` is the root
/// of an npm workspace, and its packages are those of the manifests that match;
/// nothing else is, and then there are no packages.
pub proof fn law_workspaces_array_makes_a_workspace(
    package_json: Option<Seq<char>>,
    matches: Seq<PatternMatches<FoundFile>>,
    lock_file: bool,
    names: Seq<Seq<char>>,
)
    ensures
        (package_json matches Some(contents) && json::parsed(contents) matches Some(value)
            && json::field(value, "workspaces"@) matches Some(JsonView::Array(_))) ==> {
            &&& matched_workspaces(matches) matches Ok(workspaces) ==> npm_packages(
                package_json,
                matches,
                lock_file,
                names,
            ) == npm_packages_from(workspaces, 0, lock_file, names)
            &&& matched_workspaces(matches) matches Err(error) ==> npm_packages(
                package_json,
                matches,
                lock_file,
                names,
            ) == Err::<Seq<PackageView>, NPMWorkspaceErrorView>(error)
        },
        !(package_json matches Some(contents) && json::parsed(contents) matches Some(value)
            && json::field(value, "workspaces"@) matches Some(JsonView::Array(_)))
            ==> npm_packages(package_json, matches, lock_file, names) == Ok::<
            Seq<PackageView>,
            NPMWorkspaceErrorView,
        >(Seq::empty()),
{
}

/// The packages of npm are made of the manifests one for one, each with the text
/// under `name` as its name.  Without such a text the manifest is told, without a
/// known format the file is; the first manifest that gives no package decides.
pub proof fn law_manifests_give_packages_one_for_one(
    workspaces: Seq<WorkspaceView>,
    lock_file: bool,
    names: Seq<Seq<char>>,
)
    ensures
        match npm_packages_from(workspaces, 0, lock_file, names) {
            Ok(packages) => {
                &&& packages.len() == workspaces.len()
                &&& forall|i: int|
                    0 <= i < workspaces.len() ==> (json::field(
                        (#[trigger] workspaces[i]).value,
                        "name"@,
                    ) matches Some(JsonView::Str(name)) && workspace::workspace_package(
                        Manager::Npm,
                        workspaces,
                        workspaces[i].path,
                        name,
                        lock_file,
                        names,
                    ) == Ok::<PackageView, Seq<char>>(packages[i]))
            },
            Err(NPMWorkspaceErrorView::NoName(path)) => exists|k: int|
                0 <= k < workspaces.len() && (#[trigger] workspaces[k]).path == path && !(
                json::field(workspaces[k].value, "name"@) matches Some(JsonView::Str(_)))
                    && forall|i: int|
                    0 <= i < k ==> (json::field(
                        (#[trigger] workspaces[i]).value,
                        "name"@,
                    ) matches Some(JsonView::Str(name)) && workspace::workspace_package(
                        Manager::Npm,
                        workspaces,
                        workspaces[i].path,
                        name,
                        lock_file,
                        names,
                    ) is Ok),
            Err(NPMWorkspaceErrorView::UnknownFile(file)) => exists|k: int|
                0 <= k < workspaces.len() && (json::field(
                    (#[trigger] workspaces[k]).value,
                    "name"@,
                ) matches Some(JsonView::Str(name)) && workspace::workspace_package(
                    Manager::Npm,
                    workspaces,
                    workspaces[k].path,
                    name,
                    lock_file,
                    names,
                ) == Err::<PackageView, Seq<char>>(file)) && forall|i: int|
                    0 <= i < k ==> (json::field(
                        (#[trigger] workspaces[i]).value,
                        "name"@,
                    ) matches Some(JsonView::Str(name)) && workspace::workspace_package(
                        Manager::Npm,
                        workspaces,
                        workspaces[i].path,
                        name,
                        lock_file,
                        names,
                    ) is Ok),
            Err(NPMWorkspaceErrorView::Glob(_, _)) => false,
        },
{
    lemma_packages_one_for_one(workspaces, 0, lock_file, names);
    if let Ok(packages) = npm_packages_from(workspaces, 0, lock_file, names) {
        assert forall|i: int| 0 <= i < workspaces.len() implies (json::field(
            (#[trigger] workspaces[i]).value,
            "name"@,
        ) matches Some(JsonView::Str(name)) && workspace::workspace_package(
            Manager::Npm,
            workspaces,
            workspaces[i].path,
            name,
            lock_file,
            names,
        ) == Ok::<PackageView, Seq<char>>(packages[i])) by {
            assert(gives(workspaces[i], workspaces, lock_file, names, packages[i - 0]));
        }
    }
}

/// The patterns of an npm workspace are all texts in the array under `workspaces`
/// of its `package.json`, in order; a file that is not there, holds no JSON or has
/// no such array gives none.
pub proof fn law_patterns_are_those_of_the_manifest(
    contents: Seq<char>,
    value: JsonView,
    items: Seq<JsonView>,
)
    ensures
        npm_patterns(None) is None,
        json::parsed(contents) is None ==> npm_patterns(Some(contents)) is None,
        json::parsed(contents) == Some(value) && json::field(value, "workspaces"@) == Some(
            JsonView::Array(items),
        ) ==> npm_patterns(Some(contents)) == Some(
            items.filter_map(
                |item: JsonView|
                    match item {
                        JsonView::Str(text) => Some(text),
                        _ => None,
                    },
            ),
        ),
        json::parsed(contents) == Some(value) && !(json::field(value, "workspaces"@) is Some
            && json::field(value, "workspaces"@)->0 is Array) ==> npm_patterns(
            Some(contents),
        ) is None,
{
    workspace::law_patterns_are_the_texts_of_the_array(value, "workspaces"@);
}

} // verus!
