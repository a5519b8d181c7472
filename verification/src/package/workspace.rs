//! Workspaces whose manifests are JSON.

use vstd::prelude::*;

use crate::json;
use crate::json::{Json, JsonView};
use crate::package;
use crate::package::{Package, PackageView};
use crate::path;
use crate::path::RelativePathBuf;
use crate::text;
use crate::versioned_file;
use crate::versioned_file::{FileNames, FileView, UnknownFile, VersionedFileConfig};

verus! {

/// Who manages the packages of a workspace.
#[derive(Debug, Clone, Copy, PartialEq, Eq)]
pub enum Manager {
    Npm,
    Deno,
}

/// A package of a workspace: where its manifest is, and what it holds.
#[derive(Debug)]
pub struct Workspace {
    pub path: RelativePathBuf,
    pub value: Json,
}

/// A package of a workspace: where its manifest is, and what it holds.
pub struct WorkspaceView {
    pub path: Seq<char>,
    pub value: JsonView,
}

impl View for Workspace {
    type V = WorkspaceView;

    open spec fn view(&self) -> WorkspaceView {
        WorkspaceView { path: self.path@, value: self.value@ }
    }
}

/// What a sequence of workspaces stands for.
pub open spec fn workspace_views(workspaces: Seq<Workspace>) -> Seq<WorkspaceView> {
    workspaces.map_values(|workspace: Workspace| workspace@)
}

/// The text that `value` holds under `field`.
pub open spec fn text_field(value: JsonView, field: Seq<char>) -> Option<Seq<char>> {
    match json::field(value, field) {
        Some(found) => json::text_of(found),
        None => None,
    }
}

/// Whether the object that `value` holds under `field` has `name`.
pub open spec fn lists(value: JsonView, field: Seq<char>, name: Seq<char>) -> bool {
    json::field(value, field) matches Some(found) && json::field(found, name) is Some
}

/// Whether a manifest says that its package depends on the package `name`.
pub open spec fn depends_on(manager: Manager, value: JsonView, name: Seq<char>) -> bool {
    match manager {
        Manager::Npm => lists(value, "dependencies"@, name) || lists(
            value,
            "devDependencies"@,
            name,
        ),
        Manager::Deno => lists(value, "imports"@, name),
    }
}

/// The lock file at the root of a workspace.
pub open spec fn lock_path(manager: Manager) -> Seq<char> {
    match manager {
        Manager::Npm => "package-lock.json"@,
        Manager::Deno => "deno.lock"@,
    }
}

/// The manifests, of the first `count` workspaces, of packages that depend on
/// the package `name`, whose own manifest is at `path`.
pub open spec fn dependents(
    manager: Manager,
    workspaces: Seq<WorkspaceView>,
    path: Seq<char>,
    name: Seq<char>,
    count: nat,
) -> Seq<FileView>
    decreases count,
{
    if count == 0 {
        Seq::empty()
    } else {
        let before = dependents(manager, workspaces, path, name, (count - 1) as nat);
        let other = workspaces[count - 1];
        if path::components(other.path) != path::components(path) && depends_on(
            manager,
            other.value,
            name,
        ) {
            before.push(FileView { path: other.path, dependency: Some(name) })
        } else {
            before
        }
    }
}

/// The files that carry the version of the package `name`, whose manifest is at
/// `path`: the manifest, the lock file if there is one, and the manifests of the
/// packages that depend on it.
pub open spec fn package_files(
    manager: Manager,
    workspaces: Seq<WorkspaceView>,
    path: Seq<char>,
    name: Seq<char>,
    lock_file: bool,
) -> Seq<FileView> {
    let own = seq![FileView { path, dependency: None }];
    let lock = if lock_file {
        seq![FileView { path: lock_path(manager), dependency: Some(name) }]
    } else {
        Seq::empty()
    };
    own + lock + dependents(manager, workspaces, path, name, workspaces.len())
}

/// The first of `files` whose name says nothing of its format.
pub open spec fn first_unknown(files: Seq<FileView>, names: Seq<Seq<char>>) -> Option<Seq<char>>
    decreases files.len(),
{
    if files.len() == 0 {
        None
    } else if versioned_file::is_known(files[0].path, names) {
        first_unknown(files.drop_first(), names)
    } else {
        Some(files[0].path)
    }
}

/// The changelog beside the manifest at `path`.
pub open spec fn changelog_beside(path: Seq<char>) -> Option<Seq<char>> {
    match path::parent_in(path) {
        Some(directory) => Some(path::joined(directory, "CHANGELOG.md"@)),
        None => None,
    }
}

/// The package `name`, whose manifest is at `path`, or the file whose name says
/// nothing of its format.
pub open spec fn workspace_package(
    manager: Manager,
    workspaces: Seq<WorkspaceView>,
    path: Seq<char>,
    name: Seq<char>,
    lock_file: bool,
    names: Seq<Seq<char>>,
) -> Result<PackageView, Seq<char>> {
    let files = package_files(manager, workspaces, path, name, lock_file);
    match first_unknown(files, names) {
        Some(unknown) => Err(unknown),
        None => Ok(package::member_package(name, files, changelog_beside(path))),
    }
}

/// The text that `value` holds under `field`.
pub fn get_text<'a>(value: &'a Json, field: &str) -> (found: Option<&'a String>)
    ensures
        match found {
            Some(text) => text_field(value@, field@) == Some(text@),
            None => text_field(value@, field@) is None,
        },
{
    match value.get(field) {
        Some(found) => found.as_str(),
        None => None,
    }
}

fn check_lists(value: &Json, field: &str, name: &str) -> (listed: bool)
    ensures
        listed == lists(value@, field@, name@),
{
    match value.get(field) {
        Some(found) => found.get(name).is_some(),
        None => false,
    }
}

/// Whether a manifest says that its package depends on the package `name`.
pub fn check_depends_on(manager: Manager, value: &Json, name: &str) -> (depends: bool)
    ensures
        depends == depends_on(manager, value@, name@),
{
    match manager {
        Manager::Npm => check_lists(value, "dependencies", name) || check_lists(
            value,
            "devDependencies",
            name,
        ),
        Manager::Deno => check_lists(value, "imports", name),
    }
}

/// The files, if the name of each tells its format.
fn check_known(files: Vec<VersionedFileConfig>, names: &FileNames) -> (result: Result<
    Vec<VersionedFileConfig>,
    UnknownFile,
>)
    ensures
        match result {
            Ok(known) => {
                &&& first_unknown(versioned_file::file_views(files@), names@) is None
                &&& versioned_file::file_views(known@) == versioned_file::file_views(files@)
            },
            Err(unknown) => first_unknown(versioned_file::file_views(files@), names@) == Some(
                unknown.path@,
            ),
        },
{
    let ghost views = versioned_file::file_views(files@);
    let mut known: Vec<VersionedFileConfig> = Vec::new();
    assert(views.skip(0) =~= views);
    for file in iter: files
        invariant
            iter.seq() == files@,
            views == versioned_file::file_views(files@),
            first_unknown(views.skip(iter.index() as int), names@) == first_unknown(views, names@),
            versioned_file::file_views(known@) == views.take(iter.index() as int),
    {
        let ghost at = iter.index() as int;
        assert(views[at] == file@);
        assert(views.skip(at).drop_first() =~= views.skip(at + 1));
        assert(views.take(at + 1) =~= views.take(at).push(file@));
        let checked = VersionedFileConfig::new(file.path, file.dependency, names);
        match checked {
            Ok(file) => {
                known.push(file);
                assert(versioned_file::file_views(known@) =~= views.take(at).push(file@));
            },
            Err(unknown) => {
                return Err(unknown);
            },
        }
    }
    assert(views.take(views.len() as int) =~= views);
    Ok(known)
}

/// The package `name`, whose manifest is at `path`.
pub fn make_package(
    manager: Manager,
    workspaces: &Vec<Workspace>,
    path: &str,
    name: &str,
    lock_file: bool,
    names: &FileNames,
) -> (result: Result<Package, UnknownFile>)
    ensures
        match result {
            Ok(package) => workspace_package(
                manager,
                workspace_views(workspaces@),
                path@,
                name@,
                lock_file,
                names@,
            ) == Ok::<PackageView, Seq<char>>(package@),
            Err(unknown) => workspace_package(
                manager,
                workspace_views(workspaces@),
                path@,
                name@,
                lock_file,
                names@,
            ) == Err::<PackageView, Seq<char>>(unknown.path@),
        },
{
    let ghost views = workspace_views(workspaces@);
    let mut files: Vec<VersionedFileConfig> = Vec::new();
    files.push(VersionedFileConfig { path: RelativePathBuf::from(path), dependency: None });
    if lock_file {
        let lock = match manager {
            Manager::Npm => "package-lock.json",
            Manager::Deno => "deno.lock",
        };
        files.push(
            VersionedFileConfig {
                path: RelativePathBuf::from(lock),
                dependency: Some(name.to_string()),
            },
        );
    }
    let ghost front = versioned_file::file_views(files@);
    let ghost own = seq![FileView { path: path@, dependency: None }];
    let ghost lock = if lock_file {
        seq![FileView { path: lock_path(manager), dependency: Some(name@) }]
    } else {
        Seq::empty()
    };
    assert(front =~= own + lock);
    let mut at: usize = 0;
    assert(front + dependents(manager, views, path@, name@, 0) =~= front);
    while at < workspaces.len()
        invariant
            at <= workspaces.len(),
            views == workspace_views(workspaces@),
            versioned_file::file_views(files@) == front + dependents(
                manager,
                views,
                path@,
                name@,
                at as nat,
            ),
        decreases workspaces.len() - at,
    {
        let other = &workspaces[at];
        assert(views[at as int] == other@);
        let ghost before = versioned_file::file_views(files@);
        if !path::same_components(other.path.as_str(), path) && check_depends_on(
            manager,
            &other.value,
            name,
        ) {
            files.push(
                VersionedFileConfig {
                    path: other.path.clone(),
                    dependency: Some(name.to_string()),
                },
            );
            let ghost added = FileView { path: other.path@, dependency: Some(name@) };
            assert(versioned_file::file_views(files@) =~= before.push(added));
            assert(before.push(added) =~= front + dependents(
                manager,
                views,
                path@,
                name@,
                at as nat,
            ).push(added));
        }
        at = at + 1;
    }
    let versioned_files = match check_known(files, names) {
        Ok(files) => files,
        Err(unknown) => {
            return Err(unknown);
        },
    };
    let changelog = match path::parent(path) {
        Some(directory) => {
            let changelog = path::join(directory.as_str(), "CHANGELOG.md");
            Some(RelativePathBuf::from(changelog))
        },
        None => None,
    };
    Ok(Package::member(name.to_string(), versioned_files, changelog))
}

/// Why a pattern is no glob pattern.
#[verifier::external_type_specification]
#[verifier::external_body]
pub struct ExPatternError(glob::PatternError);

/// A file that was looked for.
#[derive(Debug)]
pub struct FoundFile {
    /// Where it was looked for.
    pub path: String,
    /// The same place, from the working directory on, if it can be told so.
    pub relative: Option<RelativePathBuf>,
    /// What it holds, if it could be read.
    pub contents: Option<String>,
}

/// A file that was looked for.
pub struct FoundView {
    pub path: Seq<char>,
    pub relative: Option<Seq<char>>,
    pub contents: Option<Seq<char>>,
}

impl View for FoundFile {
    type V = FoundView;

    open spec fn view(&self) -> FoundView {
        FoundView {
            path: self.path@,
            relative: path::option_view(self.relative),
            contents: text::option_view(self.contents),
        }
    }
}

/// What a sequence of files stands for.
pub open spec fn found_views(files: Seq<FoundFile>) -> Seq<FoundView> {
    files.map_values(|file: FoundFile| file@)
}

impl FoundFile {
    /// What was read, or not, at `path`, which is told from the working directory
    /// on.  A path with a backslash or a colon is told as its platform reads it,
    /// any other path in the same way everywhere.
    pub fn new(path: String, contents: Option<String>) -> (file: FoundFile)
        ensures
            file.path == path,
            file.contents == contents,
            path::may_be_told(path@, file@.relative),
            path::is_portable(path@) ==> file@.relative == path::told(path@),
    {
        let relative = match path::relative_to_working_dir(path.as_str()) {
            Ok(relative) => Some(RelativePathBuf::from(relative)),
            Err(_) => None,
        };
        proof {
            if path::is_portable(path@) {
                path::law_portable_path_is_told_alike(path@, path::option_view(relative));
            }
        }
        FoundFile { path, relative, contents }
    }
}

/// What a pattern for the packages of a workspace matches.
#[derive(Debug)]
pub struct PatternMatches<T> {
    pub pattern: String,
    pub found: Result<Vec<T>, glob::PatternError>,
}

/// The texts among `items`.
pub open spec fn texts(items: Seq<JsonView>) -> Seq<Seq<char>>
    decreases items.len(),
{
    if items.len() == 0 {
        Seq::empty()
    } else {
        match json::text_of(items.last()) {
            Some(text) => texts(items.drop_last()).push(text),
            None => texts(items.drop_last()),
        }
    }
}

/// The patterns that `value` holds under `field`, where it holds an array there.
pub open spec fn patterns_in(value: JsonView, field: Seq<char>) -> Option<Seq<Seq<char>>> {
    match json::field(value, field) {
        Some(JsonView::Array(items)) => Some(texts(items)),
        _ => None,
    }
}

/// The patterns that `value` holds under `field`.
pub fn get_patterns(value: &Json, field: &str) -> (patterns: Option<Vec<String>>)
    ensures
        match patterns {
            Some(patterns) => patterns_in(value@, field@) == Some(text::string_views(patterns@)),
            None => patterns_in(value@, field@) is None,
        },
{
    let items = match value.get(field) {
        Some(found) => match found.as_array() {
            Some(items) => items,
            None => {
                return None;
            },
        },
        None => {
            return None;
        },
    };
    let ghost views = json::item_views(items@);
    let mut patterns: Vec<String> = Vec::new();
    let mut at: usize = 0;
    assert(text::string_views(patterns@) =~= Seq::empty());
    while at < items.len()
        invariant
            at <= items.len(),
            views == json::item_views(items@),
            text::string_views(patterns@) == texts(views.take(at as int)),
        decreases items.len() - at,
    {
        assert(views.take(at + 1).drop_last() =~= views.take(at as int));
        assert(views.take(at + 1).last() == items[at as int]@);
        let ghost before = text::string_views(patterns@);
        if let Some(pattern) = items[at].as_str() {
            patterns.push(pattern.clone());
            assert(text::string_views(patterns@) =~= before.push(pattern@));
        }
        at = at + 1;
    }
    assert(views.take(at as int) =~= views);
    Some(patterns)
}

/// `front` in front of what a computation gives, if it gives anything.
pub open spec fn prepend<T, E>(front: Seq<T>, rest: Result<Seq<T>, E>) -> Result<Seq<T>, E> {
    match rest {
        Ok(rest) => Ok(front + rest),
        Err(error) => Err(error),
    }
}

pub proof fn lemma_prepend_empty<T, E>(rest: Result<Seq<T>, E>)
    ensures
        prepend(Seq::empty(), rest) == rest,
{
    if let Ok(items) = rest {
        assert(Seq::<T>::empty() + items =~= items);
    }
}

pub proof fn lemma_prepend_twice<T, E>(first: Seq<T>, second: Seq<T>, rest: Result<Seq<T>, E>)
    ensures
        prepend(first, prepend(second, rest)) == prepend(first + second, rest),
{
    if let Ok(items) = rest {
        assert(first + (second + items) =~= (first + second) + items);
    }
}

/// The versioned files of a package begin with its own manifest, and the others
/// carry its version as that of a dependency.
pub proof fn law_own_manifest_comes_first(
    manager: Manager,
    workspaces: Seq<WorkspaceView>,
    path: Seq<char>,
    name: Seq<char>,
    lock_file: bool,
)
    ensures
        ({
            let files = package_files(manager, workspaces, path, name, lock_file);
            &&& files.len() > 0
            &&& files[0] == FileView { path, dependency: None }
            &&& forall|i: int| 0 < i < files.len() ==> (#[trigger] files[i]).dependency == Some(name)
        }),
{
    lemma_dependents(manager, workspaces, path, name, workspaces.len());
}

proof fn lemma_dependents(
    manager: Manager,
    workspaces: Seq<WorkspaceView>,
    path: Seq<char>,
    name: Seq<char>,
    count: nat,
)
    requires
        count <= workspaces.len(),
    ensures
        ({
            let files = dependents(manager, workspaces, path, name, count);
            &&& forall|i: int|
                0 <= i < files.len() ==> (#[trigger] files[i]).dependency == Some(name)
                    && exists|k: int|
                    0 <= k < count && (#[trigger] workspaces[k]).path == files[i].path
                        && path::components(workspaces[k].path) != path::components(path)
                        && depends_on(manager, workspaces[k].value, name)
            &&& forall|k: int|
                0 <= k < count && path::components((#[trigger] workspaces[k]).path)
                    != path::components(path) && depends_on(
                    manager,
                    workspaces[k].value,
                    name,
                ) ==> files.contains(
                    FileView { path: workspaces[k].path, dependency: Some(name) },
                )
        }),
    decreases count,
{
    if count > 0 {
        let before = dependents(manager, workspaces, path, name, (count - 1) as nat);
        let files = dependents(manager, workspaces, path, name, count);
        lemma_dependents(manager, workspaces, path, name, (count - 1) as nat);
        assert forall|k: int|
            0 <= k < count && path::components((#[trigger] workspaces[k]).path)
                != path::components(path) && depends_on(
                manager,
                workspaces[k].value,
                name,
            ) implies files.contains(
            FileView { path: workspaces[k].path, dependency: Some(name) },
        ) by {
            let file = FileView { path: workspaces[k].path, dependency: Some(name) };
            if k < count - 1 {
                assert(before.contains(file));
                let i = choose|i: int| 0 <= i < before.len() && before[i] == file;
                assert(files[i] == file);
            } else {
                assert(files.last() == file);
            }
        }
    }
}

/// The manifest of another package is among the versioned files that carry the
/// version of `name` as that of a dependency exactly where it says that it
/// depends on it.
pub proof fn law_dependents_are_versioned(
    manager: Manager,
    workspaces: Seq<WorkspaceView>,
    path: Seq<char>,
    name: Seq<char>,
    other: Seq<char>,
)
    requires
        path::components(other) != path::components(path),
    ensures
        dependents(manager, workspaces, path, name, workspaces.len()).contains(
            FileView { path: other, dependency: Some(name) },
        ) <==> exists|k: int|
            0 <= k < workspaces.len() && (#[trigger] workspaces[k]).path == other && depends_on(
                manager,
                workspaces[k].value,
                name,
            ),
{
    lemma_dependents(manager, workspaces, path, name, workspaces.len());
}

proof fn lemma_first_unknown(files: Seq<FileView>, names: Seq<Seq<char>>)
    ensures
        first_unknown(files, names) is None <==> forall|i: int|
            0 <= i < files.len() ==> versioned_file::is_known((#[trigger] files[i]).path, names),
    decreases files.len(),
{
    if files.len() > 0 {
        let rest = files.drop_first();
        lemma_first_unknown(rest, names);
        assert forall|i: int|
            0 <= i < files.len() && versioned_file::is_known(files[0].path, names) && (forall|j:
                int|
                0 <= j < rest.len() ==> versioned_file::is_known(
                    (#[trigger] rest[j]).path,
                    names,
                )) implies versioned_file::is_known((#[trigger] files[i]).path, names) by {
            if i > 0 {
                assert(rest[i - 1] == files[i]);
            }
        }
        if forall|i: int|
            0 <= i < files.len() ==> versioned_file::is_known((#[trigger] files[i]).path, names) {
            assert forall|j: int| 0 <= j < rest.len() implies versioned_file::is_known(
                (#[trigger] rest[j]).path,
                names,
            ) by {
                assert(rest[j] == files[j + 1]);
            }
        }
    }
}

/// A package is made exactly where the formats of all of its versioned files are
/// known.
pub proof fn law_package_needs_known_files(
    manager: Manager,
    workspaces: Seq<WorkspaceView>,
    path: Seq<char>,
    name: Seq<char>,
    lock_file: bool,
    names: Seq<Seq<char>>,
)
    ensures
        ({
            let files = package_files(manager, workspaces, path, name, lock_file);
            workspace_package(manager, workspaces, path, name, lock_file, names) is Ok
                <==> forall|i: int|
                0 <= i < files.len() ==> versioned_file::is_known(
                    (#[trigger] files[i]).path,
                    names,
                )
        }),
{
    lemma_first_unknown(package_files(manager, workspaces, path, name, lock_file), names);
}

/// The changelog of a package is in the directory of its manifest.
pub proof fn law_changelog_is_beside_the_manifest(path: Seq<char>)
    requires
        path.len() > 0,
    ensures
        changelog_beside(path) matches Some(changelog) && path::parent_in(changelog)
            == path::parent_in(path) && path::name_in(changelog) == Some("CHANGELOG.md"@),
{
    reveal_strlit("CHANGELOG.md");
    path::law_joined_name_is_found(path::leaving(path), "CHANGELOG.md"@);
    path::lemma_leaving_is_trimmed(path);
}

/// A manifest of npm depends on a package where the object under `dependencies`
/// has its name, and also where the object under `devDependencies` has it,
/// whatever the other of the two holds; a configuration of Deno does where the
/// object under `imports` has it.  Nothing else makes it depend on one.
pub proof fn law_dependencies_are_the_listed_names(value: JsonView, name: Seq<char>)
    ensures
        (json::field(value, "dependencies"@) matches Some(listed) && json::field(
            listed,
            name,
        ) is Some) ==> depends_on(Manager::Npm, value, name),
        (json::field(value, "devDependencies"@) matches Some(listed) && json::field(
            listed,
            name,
        ) is Some) ==> depends_on(Manager::Npm, value, name),
        depends_on(Manager::Npm, value, name) ==> (json::field(
            value,
            "dependencies"@,
        ) matches Some(listed) && json::field(listed, name) is Some) || (json::field(
            value,
            "devDependencies"@,
        ) matches Some(listed) && json::field(listed, name) is Some),
        depends_on(Manager::Deno, value, name) <==> (json::field(
            value,
            "imports"@,
        ) matches Some(listed) && json::field(listed, name) is Some),
{
}

proof fn lemma_dependents_filter(
    manager: Manager,
    workspaces: Seq<WorkspaceView>,
    path: Seq<char>,
    name: Seq<char>,
    count: nat,
    dependent: spec_fn(WorkspaceView) -> Option<FileView>,
)
    requires
        count <= workspaces.len(),
        forall|other: WorkspaceView|
            #[trigger] dependent(other) == if path::components(other.path) != path::components(path)
                && depends_on(manager, other.value, name) {
                Some(FileView { path: other.path, dependency: Some(name) })
            } else {
                None
            },
    ensures
        dependents(manager, workspaces, path, name, count) == workspaces.take(
            count as int,
        ).filter_map(dependent),
    decreases count,
{
    if count > 0 {
        lemma_dependents_filter(
            manager,
            workspaces,
            path,
            name,
            (count - 1) as nat,
            dependent,
        );
        assert(workspaces.take(count as int).drop_last() =~= workspaces.take(count - 1));
        assert(workspaces.take(count as int).last() == workspaces[count - 1]);
        let last = workspaces[count - 1];
        assert(dependent(last) == dependent(workspaces.take(count as int).last()));
    }
}

/// The versioned files of an npm package are its own manifest, then
/// `package-lock.json` where there is one, then the manifests at other paths that
/// have its name under `dependencies` or `devDependencies`, all of them, in order.
pub proof fn law_npm_package_files(
    workspaces: Seq<WorkspaceView>,
    path: Seq<char>,
    name: Seq<char>,
    lock_file: bool,
)
    ensures
        package_files(Manager::Npm, workspaces, path, name, lock_file) == seq![
            FileView { path, dependency: None },
        ] + (if lock_file {
            seq![FileView { path: "package-lock.json"@, dependency: Some(name) }]
        } else {
            Seq::empty()
        }) + workspaces.filter_map(
            |other: WorkspaceView|
                if path::components(other.path) != path::components(path) && ((json::field(
                    other.value,
                    "dependencies"@,
                ) matches Some(listed) && json::field(listed, name) is Some) || (json::field(
                    other.value,
                    "devDependencies"@,
                ) matches Some(listed) && json::field(listed, name) is Some)) {
                    Some(FileView { path: other.path, dependency: Some(name) })
                } else {
                    None
                },
        ),
{
    let dependent = |other: WorkspaceView|
        if path::components(other.path) != path::components(path) && ((json::field(
            other.value,
            "dependencies"@,
        ) matches Some(listed) && json::field(listed, name) is Some) || (json::field(
            other.value,
            "devDependencies"@,
        ) matches Some(listed) && json::field(listed, name) is Some)) {
            Some(FileView { path: other.path, dependency: Some(name) })
        } else {
            None
        };
    lemma_dependents_filter(
        Manager::Npm,
        workspaces,
        path,
        name,
        workspaces.len(),
        dependent,
    );
    assert(workspaces.take(workspaces.len() as int) =~= workspaces);
}

/// The versioned files of a Deno package are its own configuration, then
/// `deno.lock` where there is one, then the configurations at other paths that
/// have its name under `imports`, all of them, in order.
pub proof fn law_deno_package_files(
    workspaces: Seq<WorkspaceView>,
    path: Seq<char>,
    name: Seq<char>,
    lock_file: bool,
)
    ensures
        package_files(Manager::Deno, workspaces, path, name, lock_file) == seq![
            FileView { path, dependency: None },
        ] + (if lock_file {
            seq![FileView { path: "deno.lock"@, dependency: Some(name) }]
        } else {
            Seq::empty()
        }) + workspaces.filter_map(
            |other: WorkspaceView|
                if path::components(other.path) != path::components(path) && (json::field(
                    other.value,
                    "imports"@,
                ) matches Some(listed) && json::field(listed, name) is Some) {
                    Some(FileView { path: other.path, dependency: Some(name) })
                } else {
                    None
                },
        ),
{
    let dependent = |other: WorkspaceView|
        if path::components(other.path) != path::components(path) && (json::field(
            other.value,
            "imports"@,
        ) matches Some(listed) && json::field(listed, name) is Some) {
            Some(FileView { path: other.path, dependency: Some(name) })
        } else {
            None
        };
    lemma_dependents_filter(
        Manager::Deno,
        workspaces,
        path,
        name,
        workspaces.len(),
        dependent,
    );
    assert(workspaces.take(workspaces.len() as int) =~= workspaces);
}

/// A manifest of npm at another path is among the versioned files of the package
/// `name` if it has the name under `dependencies`, and if it has it under
/// `devDependencies`; a path at which no manifest has it, and that is not that of
/// the lock file, is not among those that carry the version of a dependency.
pub proof fn law_npm_dependents_are_versioned(
    workspaces: Seq<WorkspaceView>,
    path: Seq<char>,
    name: Seq<char>,
    lock_file: bool,
    other: Seq<char>,
)
    requires
        path::components(other) != path::components(path),
    ensures
        ({
            let file = FileView { path: other, dependency: Some(name) };
            let files = package_files(Manager::Npm, workspaces, path, name, lock_file);
            &&& forall|k: int|
                0 <= k < workspaces.len() && (#[trigger] workspaces[k]).path == other && (
                json::field(workspaces[k].value, "dependencies"@) matches Some(listed)
                    && json::field(listed, name) is Some) ==> files.contains(file)
            &&& forall|k: int|
                0 <= k < workspaces.len() && (#[trigger] workspaces[k]).path == other && (
                json::field(workspaces[k].value, "devDependencies"@) matches Some(listed)
                    && json::field(listed, name) is Some) ==> files.contains(file)
            &&& files.contains(file) ==> (lock_file && other == "package-lock.json"@)
                || exists|k: int|
                0 <= k < workspaces.len() && (#[trigger] workspaces[k]).path == other && ((
                json::field(workspaces[k].value, "dependencies"@) matches Some(listed)
                    && json::field(listed, name) is Some) || (json::field(
                    workspaces[k].value,
                    "devDependencies"@,
                ) matches Some(listed) && json::field(listed, name) is Some))
            &&& lock_file ==> files.contains(
                FileView { path: "package-lock.json"@, dependency: Some(name) },
            )
            &&& files.contains(FileView { path, dependency: None })
        }),
{
    lemma_files_contain(Manager::Npm, workspaces, path, name, lock_file);
    lemma_dependents(Manager::Npm, workspaces, path, name, workspaces.len());
}

/// A configuration of Deno at another path is among the versioned files of the
/// package `name` if it has the name under `imports`; a path at which none has
/// it, and that is not that of the lock file, is not among those that carry the
/// version of a dependency.
pub proof fn law_deno_dependents_are_versioned(
    workspaces: Seq<WorkspaceView>,
    path: Seq<char>,
    name: Seq<char>,
    lock_file: bool,
    other: Seq<char>,
)
    requires
        path::components(other) != path::components(path),
    ensures
        ({
            let file = FileView { path: other, dependency: Some(name) };
            let files = package_files(Manager::Deno, workspaces, path, name, lock_file);
            &&& forall|k: int|
                0 <= k < workspaces.len() && (#[trigger] workspaces[k]).path == other && (
                json::field(workspaces[k].value, "imports"@) matches Some(listed) && json::field(
                    listed,
                    name,
                ) is Some) ==> files.contains(file)
            &&& files.contains(file) ==> (lock_file && other == "deno.lock"@) || exists|k: int|
                0 <= k < workspaces.len() && (#[trigger] workspaces[k]).path == other && (
                json::field(workspaces[k].value, "imports"@) matches Some(listed) && json::field(
                    listed,
                    name,
                ) is Some)
            &&& lock_file ==> files.contains(
                FileView { path: "deno.lock"@, dependency: Some(name) },
            )
            &&& files.contains(FileView { path, dependency: None })
        }),
{
    lemma_files_contain(Manager::Deno, workspaces, path, name, lock_file);
    lemma_dependents(Manager::Deno, workspaces, path, name, workspaces.len());
}

proof fn lemma_files_contain(
    manager: Manager,
    workspaces: Seq<WorkspaceView>,
    path: Seq<char>,
    name: Seq<char>,
    lock_file: bool,
)
    ensures
        ({
            let files = package_files(manager, workspaces, path, name, lock_file);
            let rest = dependents(manager, workspaces, path, name, workspaces.len());
            forall|file: FileView| #[trigger]
                files.contains(file) <==> file == (FileView { path, dependency: None }) || lock_file
                    && file == (FileView { path: lock_path(manager), dependency: Some(name) })
                    || rest.contains(file)
        }),
{
    let files = package_files(manager, workspaces, path, name, lock_file);
    let rest = dependents(manager, workspaces, path, name, workspaces.len());
    let front: int = if lock_file {
        2
    } else {
        1
    };
    assert forall|file: FileView| #[trigger]
        files.contains(file) <==> file == (FileView { path, dependency: None }) || lock_file
            && file == (FileView { path: lock_path(manager), dependency: Some(name) })
            || rest.contains(file) by {
        assert(files[0] == FileView { path, dependency: None });
        if lock_file {
            assert(files[1] == FileView { path: lock_path(manager), dependency: Some(name) });
        }
        if rest.contains(file) {
            let i = choose|i: int| 0 <= i < rest.len() && rest[i] == file;
            assert(files[front + i] == file);
        }
        if files.contains(file) {
            let i = choose|i: int| 0 <= i < files.len() && files[i] == file;
            if i >= front {
                assert(rest[i - front] == file);
            }
        }
    }
}

/// A package of a workspace has the name and the files that it was made with,
/// its name as its only scope, the changelog in the directory of its manifest,
/// and nothing else.  Where the format of a file is not known there is no package,
/// and the first such file is told.
pub proof fn law_workspace_package_is_what_was_found(
    manager: Manager,
    workspaces: Seq<WorkspaceView>,
    path: Seq<char>,
    name: Seq<char>,
    lock_file: bool,
    names: Seq<Seq<char>>,
)
    ensures
        ({
            let files = package_files(manager, workspaces, path, name, lock_file);
            match workspace_package(manager, workspaces, path, name, lock_file, names) {
                Ok(package) => {
                    &&& forall|i: int|
                        0 <= i < files.len() ==> versioned_file::is_known(
                            (#[trigger] files[i]).path,
                            names,
                        )
                    &&& package.name == Some(name)
                    &&& package.scopes == Some(seq![name])
                    &&& package.versioned_files == files
                    &&& package.changelog == match path::parent_in(path) {
                        Some(directory) => Some(path::joined(directory, "CHANGELOG.md"@)),
                        None => None,
                    }
                    &&& package.extra_changelog_sections.len() == 0
                    &&& package.assets is None
                    &&& !package.ignore_go_major_versioning
                },
                Err(unknown) => exists|k: int|
                    0 <= k < files.len() && (#[trigger] files[k]).path == unknown
                        && !versioned_file::is_known(unknown, names) && forall|i: int|
                        0 <= i < k ==> versioned_file::is_known((#[trigger] files[i]).path, names),
            }
        }),
{
    let files = package_files(manager, workspaces, path, name, lock_file);
    lemma_first_unknown(files, names);
    if first_unknown(files, names) is Some {
        lemma_first_unknown_place(files, names);
    }
}

proof fn lemma_first_unknown_place(files: Seq<FileView>, names: Seq<Seq<char>>) -> (k: int)
    requires
        first_unknown(files, names) is Some,
    ensures
        0 <= k < files.len(),
        files[k].path == first_unknown(files, names)->0,
        !versioned_file::is_known(files[k].path, names),
        forall|i: int|
            0 <= i < k ==> versioned_file::is_known((#[trigger] files[i]).path, names),
    decreases files.len(),
{
    if versioned_file::is_known(files[0].path, names) {
        let rest = files.drop_first();
        let k = lemma_first_unknown_place(rest, names) + 1;
        assert(files[k] == rest[k - 1]);
        assert forall|i: int| 0 <= i < k implies versioned_file::is_known(
            (#[trigger] files[i]).path,
            names,
        ) by {
            if i > 0 {
                assert(rest[i - 1] == files[i]);
            }
        }
        k
    } else {
        0
    }
}

proof fn lemma_texts(items: Seq<JsonView>, text: spec_fn(JsonView) -> Option<Seq<char>>)
    requires
        forall|item: JsonView|
            #[trigger] text(item) == match item {
                JsonView::Str(text) => Some(text),
                _ => None,
            },
    ensures
        texts(items) == items.filter_map(text),
    decreases items.len(),
{
    if items.len() > 0 {
        lemma_texts(items.drop_last(), text);
        assert(text(items.last()) == json::text_of(items.last()));
    }
}

/// The patterns of a workspace are all texts in the array that stands under the
/// field, in order; without an array there are none.
pub proof fn law_patterns_are_the_texts_of_the_array(value: JsonView, field: Seq<char>)
    ensures
        match json::field(value, field) {
            Some(JsonView::Array(items)) => patterns_in(value, field) == Some(
                items.filter_map(
                    |item: JsonView|
                        match item {
                            JsonView::Str(text) => Some(text),
                            _ => None,
                        },
                ),
            ),
            _ => patterns_in(value, field) is None,
        },
{
    if let Some(JsonView::Array(items)) = json::field(value, field) {
        lemma_texts(
            items,
            |item: JsonView|
                match item {
                    JsonView::Str(text) => Some(text),
                    _ => None,
                },
        );
    }
}

} // verus!
