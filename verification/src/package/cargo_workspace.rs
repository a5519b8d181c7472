//! Cargo workspaces.

use vstd::prelude::*;

use crate::cargo;
use crate::package;
use crate::package::workspace;
use crate::package::{Package, PackageView};
use crate::path;
use crate::path::RelativePathBuf;
use crate::text;
use crate::toml;
use crate::toml::{Toml, TomlView};
use crate::versioned_file;
use crate::versioned_file::{FileNames, FileView, UnknownFile, VersionedFileConfig};

verus! {

/// Why the packages of a Cargo workspace could not be found.
#[derive(Debug)]
pub enum CargoWorkspaceError {
    /// The manifest at this path has no `package.name`.
    NoPackageName(RelativePathBuf),
    /// The manifest at this path could not be read.
    Fs(RelativePathBuf),
    /// The manifest at this path holds no TOML.
    Toml(toml_edit::TomlError, RelativePathBuf),
    /// The manifest at this path is in no directory.
    Parent(RelativePathBuf),
    /// The members of the workspace are not all given as strings.
    Members,
    /// The format of a versioned file is not known.
    UnknownFile(UnknownFile),
}

/// Why the packages of a Cargo workspace could not be found.
pub enum CargoWorkspaceErrorView {
    NoPackageName(Seq<char>),
    Fs(Seq<char>),
    Toml(toml_edit::TomlError, Seq<char>),
    Parent(Seq<char>),
    Members,
    UnknownFile(Seq<char>),
}

impl View for CargoWorkspaceError {
    type V = CargoWorkspaceErrorView;

    open spec fn view(&self) -> CargoWorkspaceErrorView {
        match *self {
            CargoWorkspaceError::NoPackageName(path) => CargoWorkspaceErrorView::NoPackageName(
                path@,
            ),
            CargoWorkspaceError::Fs(path) => CargoWorkspaceErrorView::Fs(path@),
            CargoWorkspaceError::Toml(error, path) => CargoWorkspaceErrorView::Toml(error, path@),
            CargoWorkspaceError::Parent(path) => CargoWorkspaceErrorView::Parent(path@),
            CargoWorkspaceError::Members => CargoWorkspaceErrorView::Members,
            CargoWorkspaceError::UnknownFile(unknown) => CargoWorkspaceErrorView::UnknownFile(
                unknown.path@,
            ),
        }
    }
}

/// What the outcome of looking for packages stands for.
pub open spec fn outcome(result: Result<Vec<Package>, CargoWorkspaceError>) -> Result<
    Seq<PackageView>,
    CargoWorkspaceErrorView,
> {
    match result {
        Ok(packages) => Ok(package::package_views(packages@)),
        Err(error) => Err(error@),
    }
}

/// A package of a Cargo workspace: its manifest, its name, and what the manifest
/// holds.
#[derive(Debug)]
pub struct WorkspaceMember {
    pub path: VersionedFileConfig,
    pub name: String,
    pub document: Toml,
}

/// A package of a Cargo workspace.
pub struct MemberView {
    pub path: FileView,
    pub name: Seq<char>,
    pub document: TomlView,
}

impl View for WorkspaceMember {
    type V = MemberView;

    open spec fn view(&self) -> MemberView {
        MemberView { path: self.path@, name: self.name@, document: self.document@ }
    }
}

/// What a sequence of members stands for.
pub open spec fn member_views(members: Seq<WorkspaceMember>) -> Seq<MemberView> {
    members.map_values(|member: WorkspaceMember| member@)
}

/// What the contents of files stand for.
pub open spec fn contents_views(files: Seq<Option<String>>) -> Seq<Option<Seq<char>>> {
    files.map_values(|file: Option<String>| text::option_view(file))
}

/// The members that the root manifest of a workspace lists: none in the place of
/// one that is not given as a string.
pub open spec fn listed_members(document: TomlView) -> Option<Seq<Option<Seq<char>>>> {
    match toml::lookup(document, "workspace"@) {
        Some(TomlView::Table(workspace)) => match toml::entry(workspace, "members"@) {
            Some(TomlView::Array(items)) => Some(
                items.map_values(|item: TomlView| toml::text_of(item)),
            ),
            _ => None,
        },
        _ => None,
    }
}

/// The manifest of a member of the workspace in `directory`.
pub open spec fn manifest_in(directory: Seq<char>, member: Seq<char>) -> Seq<char> {
    path::joined(path::joined(directory, member), "Cargo.toml"@)
}

/// The manifest of a member of the workspace at the working directory.
pub open spec fn manifest_of(member: Seq<char>) -> Seq<char> {
    manifest_in(Seq::empty(), member)
}

/// The package of a member that the root manifest in `directory` lists, whose own
/// manifest holds `contents`, if it could be read.
pub open spec fn read_member(
    directory: Seq<char>,
    member: Option<Seq<char>>,
    contents: Option<Seq<char>>,
    names: Seq<Seq<char>>,
) -> Result<MemberView, CargoWorkspaceErrorView> {
    match member {
        None => Err(CargoWorkspaceErrorView::Members),
        Some(member) => {
            let path = manifest_in(directory, member);
            if !versioned_file::is_known(path, names) {
                Err(CargoWorkspaceErrorView::UnknownFile(path))
            } else {
                match contents {
                    None => Err(CargoWorkspaceErrorView::Fs(path)),
                    Some(contents) => match toml::toml_reading(contents) {
                        Err(error) => Err(CargoWorkspaceErrorView::Toml(error, path)),
                        Ok(document) => match cargo::package_name(document) {
                            None => Err(CargoWorkspaceErrorView::NoPackageName(path)),
                            Some(name) => Ok(
                                MemberView {
                                    path: FileView { path, dependency: None },
                                    name,
                                    document,
                                },
                            ),
                        },
                    },
                }
            }
        },
    }
}

/// What the file at `at` holds, if it was read.
pub open spec fn contents_at(files: Seq<Option<Seq<char>>>, at: int) -> Option<Seq<char>> {
    if 0 <= at < files.len() {
        files[at]
    } else {
        None
    }
}

/// The packages of the members from `at` on, up to the first one that cannot be
/// used.
pub open spec fn read_members_from(
    directory: Seq<char>,
    members: Seq<Option<Seq<char>>>,
    files: Seq<Option<Seq<char>>>,
    at: nat,
    names: Seq<Seq<char>>,
) -> Result<Seq<MemberView>, CargoWorkspaceErrorView>
    decreases members.len() - at,
{
    if at >= members.len() {
        Ok(Seq::empty())
    } else {
        match read_member(directory, members[at as int], contents_at(files, at as int), names) {
            Ok(member) => workspace::prepend(
                seq![member],
                read_members_from(directory, members, files, at + 1, names),
            ),
            Err(error) => Err(error),
        }
    }
}

/// The manifests, of the first `count` members, that carry the version of the
/// package `name`: its own, and those of the packages that depend on it.
pub open spec fn member_files(members: Seq<MemberView>, name: Seq<char>, count: nat) -> Seq<
    FileView,
>
    decreases count,
{
    if count == 0 {
        Seq::empty()
    } else {
        let before = member_files(members, name, (count - 1) as nat);
        let other = members[count - 1];
        if other.name == name {
            before.push(other.path)
        } else if cargo::lists_dependency(other.document, name) {
            before.push(FileView { path: other.path.path, dependency: Some(name) })
        } else {
            before
        }
    }
}

/// The lock file of the workspace, where it exists and its format is known.
pub open spec fn lock_files(cargo_lock: bool, names: Seq<Seq<char>>) -> Seq<FileView> {
    let path = path::joined(Seq::empty(), "Cargo.lock"@);
    if cargo_lock && versioned_file::is_known(path, names) {
        seq![FileView { path, dependency: None }]
    } else {
        Seq::empty()
    }
}

/// The root manifest, where it lists the package `name` as a dependency and its
/// format is known.
pub open spec fn root_files(root: TomlView, name: Seq<char>, names: Seq<Seq<char>>) -> Seq<
    FileView,
> {
    if cargo::lists_dependency(root, name) && versioned_file::is_known("Cargo.toml"@, names) {
        seq![FileView { path: "Cargo.toml"@, dependency: Some(name) }]
    } else {
        Seq::empty()
    }
}

/// The package `name` of a workspace.
pub open spec fn cargo_package(
    root: TomlView,
    members: Seq<MemberView>,
    name: Seq<char>,
    cargo_lock: bool,
    names: Seq<Seq<char>>,
) -> PackageView {
    package::member_package(
        name,
        member_files(members, name, members.len()) + root_files(root, name, names) + lock_files(
            cargo_lock,
            names,
        ),
        None,
    )
}

/// The packages of the members of a workspace.
pub open spec fn member_packages(
    root: TomlView,
    members: Seq<MemberView>,
    cargo_lock: bool,
    names: Seq<Seq<char>>,
) -> Seq<PackageView> {
    members.map_values(
        |member: MemberView| cargo_package(root, members, member.name, cargo_lock, names),
    )
}

/// The packages of the Cargo workspace whose root manifest holds `cargo_toml`.
pub open spec fn cargo_packages(
    cargo_toml: Option<Seq<char>>,
    files: Seq<Option<Seq<char>>>,
    cargo_lock: bool,
    names: Seq<Seq<char>>,
) -> Result<Seq<PackageView>, CargoWorkspaceErrorView> {
    match cargo_toml {
        None => Ok(Seq::empty()),
        Some(contents) => match toml::toml_reading(contents) {
            Err(error) => Err(CargoWorkspaceErrorView::Toml(error, "Cargo.toml"@)),
            Ok(root) => match listed_members(root) {
                None => Ok(Seq::empty()),
                Some(listed) => match read_members_from(Seq::empty(), listed, files, 0, names) {
                    Ok(members) => Ok(member_packages(root, members, cargo_lock, names)),
                    Err(error) => Err(error),
                },
            },
        },
    }
}

/// The members that the root manifest of a workspace lists.
pub fn list_members(document: &Toml) -> (members: Option<Vec<Option<String>>>)
    ensures
        match members {
            Some(members) => listed_members(document@) == Some(contents_views(members@)),
            None => listed_members(document@) is None,
        },
{
    let workspace = match document.get("workspace") {
        Some(workspace) => workspace,
        None => {
            return None;
        },
    };
    if !workspace.is_table() {
        return None;
    }
    let items = match workspace.get("members") {
        Some(found) => match found.as_array() {
            Some(items) => items,
            None => {
                return None;
            },
        },
        None => {
            return None;
        },
    };
    let ghost views = toml::item_views(items@);
    let mut members: Vec<Option<String>> = Vec::new();
    let mut at: usize = 0;
    while at < items.len()
        invariant
            at <= items.len(),
            views == toml::item_views(items@),
            members.len() == at,
            forall|i: int|
                0 <= i < at ==> text::option_view(#[trigger] members[i]) == toml::text_of(
                    views[i],
                ),
        decreases items.len() - at,
    {
        assert(views[at as int] == items[at as int]@);
        let member = match items[at].as_str() {
            Some(member) => Some(member.clone()),
            None => None,
        };
        members.push(member);
        at = at + 1;
    }
    assert(contents_views(members@) =~= views.map_values(|item: TomlView| toml::text_of(item)));
    Some(members)
}

/// The manifest of a member of the workspace in the directory `workspace_path`.
fn manifest_path(workspace_path: &str, member: &str) -> (path: RelativePathBuf)
    ensures
        path@ == manifest_in(workspace_path@, member@),
{
    let directory = path::join(workspace_path, member);
    RelativePathBuf::from(path::join(directory.as_str(), "Cargo.toml"))
}

/// The manifest of a member of the workspace at the working directory.
pub fn member_manifest(member: &str) -> (path: RelativePathBuf)
    ensures
        path@ == manifest_of(member@),
{
    proof {
        reveal_strlit("");
        assert(""@ =~= Seq::empty());
    }
    manifest_path("", member)
}

/// The package of a member that the root manifest lists.
fn load_member(
    workspace_path: &str,
    member: &Option<String>,
    contents: Option<&String>,
    names: &FileNames,
) -> (result: Result<WorkspaceMember, CargoWorkspaceError>)
    ensures
        match result {
            Ok(loaded) => read_member(
                workspace_path@,
                text::option_view(*member),
                text::string_ref_view(contents),
                names@,
            ) == Ok::<MemberView, CargoWorkspaceErrorView>(loaded@),
            Err(error) => read_member(
                workspace_path@,
                text::option_view(*member),
                text::string_ref_view(contents),
                names@,
            ) == Err::<MemberView, CargoWorkspaceErrorView>(error@),
        },
{
    let member = match member {
        Some(member) => member,
        None => {
            return Err(CargoWorkspaceError::Members);
        },
    };
    let path = manifest_path(workspace_path, member.as_str());
    let config = match VersionedFileConfig::new(path, None, names) {
        Ok(config) => config,
        Err(unknown) => {
            return Err(CargoWorkspaceError::UnknownFile(unknown));
        },
    };
    let contents = match contents {
        Some(contents) => contents,
        None => {
            return Err(CargoWorkspaceError::Fs(config.path));
        },
    };
    let document = match toml::parse_toml(contents.as_str()) {
        Ok(document) => document,
        Err(error) => {
            return Err(CargoWorkspaceError::Toml(error, config.path));
        },
    };
    let name = match cargo::name_from_document(&document) {
        Some(name) => name.clone(),
        None => {
            return Err(CargoWorkspaceError::NoPackageName(config.path));
        },
    };
    Ok(WorkspaceMember { path: config, name, document })
}

/// The packages of the members that the root manifest lists, whose manifests
/// hold `files`.
fn load_members(
    workspace_path: &str,
    members: &Vec<Option<String>>,
    files: &Vec<Option<String>>,
    names: &FileNames,
) -> (result: Result<Vec<WorkspaceMember>, CargoWorkspaceError>)
    ensures
        match result {
            Ok(loaded) => read_members_from(
                workspace_path@,
                contents_views(members@),
                contents_views(files@),
                0,
                names@,
            ) == Ok::<Seq<MemberView>, CargoWorkspaceErrorView>(member_views(loaded@)),
            Err(error) => read_members_from(
                workspace_path@,
                contents_views(members@),
                contents_views(files@),
                0,
                names@,
            ) == Err::<Seq<MemberView>, CargoWorkspaceErrorView>(error@),
        },
{
    let ghost views = contents_views(members@);
    let ghost texts = contents_views(files@);
    let mut loaded: Vec<WorkspaceMember> = Vec::new();
    let mut at: usize = 0;
    proof {
        assert(member_views(loaded@) =~= Seq::empty());
        workspace::lemma_prepend_empty(read_members_from(workspace_path@, views, texts, 0, names@));
    }
    while at < members.len()
        invariant
            at <= members.len(),
            views == contents_views(members@),
            texts == contents_views(files@),
            workspace::prepend(
                member_views(loaded@),
                read_members_from(workspace_path@, views, texts, at as nat, names@),
            ) == read_members_from(workspace_path@, views, texts, 0, names@),
        decreases members.len() - at,
    {
        let contents = if at < files.len() {
            files[at].as_ref()
        } else {
            None
        };
        assert(views[at as int] == text::option_view(members[at as int]));
        assert(contents_at(texts, at as int) == text::string_ref_view(contents));
        match load_member(workspace_path, &members[at], contents, names) {
            Ok(member) => {
                let ghost before = member_views(loaded@);
                loaded.push(member);
                proof {
                    assert(member_views(loaded@) =~= before + seq![member@]);
                    workspace::lemma_prepend_twice(
                        before,
                        seq![member@],
                        read_members_from(workspace_path@, views, texts, (at + 1) as nat, names@),
                    );
                }
            },
            Err(error) => {
                return Err(error);
            },
        }
        at = at + 1;
    }
    assert(member_views(loaded@) + Seq::empty() =~= member_views(loaded@));
    Ok(loaded)
}

/// The manifests that carry the version of the package `name`.
fn find_member_files(members: &Vec<WorkspaceMember>, name: &str) -> (files: Vec<
    VersionedFileConfig,
>)
    ensures
        versioned_file::file_views(files@) == member_files(
            member_views(members@),
            name@,
            members@.len(),
        ),
{
    let ghost views = member_views(members@);
    let mut files: Vec<VersionedFileConfig> = Vec::new();
    let mut at: usize = 0;
    assert(versioned_file::file_views(files@) =~= Seq::empty());
    while at < members.len()
        invariant
            at <= members.len(),
            views == member_views(members@),
            versioned_file::file_views(files@) == member_files(views, name@, at as nat),
        decreases members.len() - at,
    {
        let other = &members[at];
        assert(views[at as int] == other@);
        let ghost before = versioned_file::file_views(files@);
        if other.name.as_str().eq(name) {
            let file = other.path.clone();
            files.push(file);
            assert(versioned_file::file_views(files@) =~= before.push(other.path@));
        } else if cargo::contains_dependency(&other.document, name) {
            let file = VersionedFileConfig {
                path: other.path.path.clone(),
                dependency: Some(name.to_string()),
            };
            files.push(file);
            assert(versioned_file::file_views(files@) =~= before.push(file@));
        }
        at = at + 1;
    }
    files
}

/// The lock file of the workspace, where it exists and its format is known.
fn find_lock_file(cargo_lock: bool, names: &FileNames) -> (file: Option<VersionedFileConfig>)
    ensures
        match file {
            Some(file) => lock_files(cargo_lock, names@) == seq![file@],
            None => lock_files(cargo_lock, names@) == Seq::<FileView>::empty(),
        },
{
    proof {
        reveal_strlit("");
        assert(""@ =~= Seq::empty());
    }
    if cargo_lock {
        let path = path::join("", "Cargo.lock");
        match VersionedFileConfig::new(RelativePathBuf::from(path), None, names) {
            Ok(file) => Some(file),
            Err(_) => None,
        }
    } else {
        None
    }
}

/// The packages of the members of a workspace.
pub fn make_packages(
    root: &Toml,
    members: &Vec<WorkspaceMember>,
    cargo_lock: bool,
    names: &FileNames,
) -> (packages: Vec<Package>)
    ensures
        package::package_views(packages@) == member_packages(
            root@,
            member_views(members@),
            cargo_lock,
            names@,
        ),
{
    let ghost views = member_views(members@);
    let lock = find_lock_file(cargo_lock, names);
    let mut packages: Vec<Package> = Vec::new();
    let mut at: usize = 0;
    while at < members.len()
        invariant
            at <= members.len(),
            views == member_views(members@),
            match lock {
                Some(file) => lock_files(cargo_lock, names@) == seq![file@],
                None => lock_files(cargo_lock, names@) == Seq::<FileView>::empty(),
            },
            packages.len() == at,
            forall|i: int|
                0 <= i < at ==> (#[trigger] packages[i])@ == cargo_package(
                    root@,
                    views,
                    views[i].name,
                    cargo_lock,
                    names@,
                ),
        decreases members.len() - at,
    {
        let name = &members[at].name;
        assert(views[at as int].name == name@);
        let mut files = find_member_files(members, name.as_str());
        let ghost own = versioned_file::file_views(files@);
        if cargo::contains_dependency(root, name.as_str()) {
            let root_file = VersionedFileConfig::new(
                RelativePathBuf::from("Cargo.toml"),
                Some(name.clone()),
                names,
            );
            if let Ok(file) = root_file {
                files.push(file);
            }
        }
        assert(versioned_file::file_views(files@) =~= own + root_files(root@, name@, names@));
        let ghost front = versioned_file::file_views(files@);
        if let Some(file) = &lock {
            let copy = file.clone();
            files.push(copy);
        }
        assert(versioned_file::file_views(files@) =~= front + lock_files(cargo_lock, names@));
        packages.push(Package::member(name.clone(), files, None));
        at = at + 1;
    }
    assert(package::package_views(packages@) =~= member_packages(root@, views, cargo_lock, names@));
    packages
}

impl Package {
    /// The packages of the Cargo workspace whose root manifest holds
    /// `cargo_toml`.  `files` tells what the manifests of its members hold, in
    /// order, and `cargo_lock` whether there is a `Cargo.lock`.
    pub fn cargo_workspace_members(
        cargo_toml: Option<&str>,
        files: &Vec<Option<String>>,
        cargo_lock: bool,
        names: &FileNames,
    ) -> (result: Result<Vec<Package>, CargoWorkspaceError>)
        ensures
            outcome(result) == cargo_packages(
                text::str_view(cargo_toml),
                contents_views(files@),
                cargo_lock,
                names@,
            ),
    {
        let none: Vec<Package> = Vec::new();
        assert(package::package_views(none@) =~= Seq::empty());
        let contents = match cargo_toml {
            Some(contents) => contents,
            None => {
                return Ok(none);
            },
        };
        let root = match toml::parse_toml(contents) {
            Ok(root) => root,
            Err(error) => {
                return Err(CargoWorkspaceError::Toml(error, RelativePathBuf::from("Cargo.toml")));
            },
        };
        proof {
            lemma_root_directory();
        }
        let workspace_path = match path::parent("Cargo.toml") {
            Some(directory) => directory,
            None => {
                return Err(CargoWorkspaceError::Parent(RelativePathBuf::from("Cargo.toml")));
            },
        };
        let listed = match list_members(&root) {
            Some(listed) => listed,
            None => {
                return Ok(none);
            },
        };
        match load_members(workspace_path.as_str(), &listed, files, names) {
            Ok(members) => Ok(make_packages(&root, &members, cargo_lock, names)),
            Err(error) => Err(error),
        }
    }
}

/// The root manifest is in the working directory.
proof fn lemma_root_directory()
    ensures
        path::parent_in("Cargo.toml"@) == Some(Seq::<char>::empty()),
{
    reveal_strlit("Cargo.toml");
    path::lemma_parent_of_name("Cargo.toml"@);
}

/// There is one package for each member, in order, with its name, without a
/// changelog.
pub proof fn law_every_member_gives_a_package(
    root: TomlView,
    members: Seq<MemberView>,
    cargo_lock: bool,
    names: Seq<Seq<char>>,
)
    ensures
        ({
            let packages = member_packages(root, members, cargo_lock, names);
            &&& packages.len() == members.len()
            &&& forall|i: int|
                0 <= i < packages.len() ==> (#[trigger] packages[i]).name == Some(members[i].name)
                    && packages[i].scopes == Some(seq![members[i].name])
                    && packages[i].changelog is None
        }),
{
}

proof fn lemma_member_files(members: Seq<MemberView>, name: Seq<char>, count: nat)
    requires
        count <= members.len(),
    ensures
        forall|k: int|
            0 <= k < count && (#[trigger] members[k]).name == name ==> member_files(
                members,
                name,
                count,
            ).contains(members[k].path),
        forall|k: int|
            0 <= k < count && (#[trigger] members[k]).name != name && cargo::lists_dependency(
                members[k].document,
                name,
            ) ==> member_files(members, name, count).contains(
                FileView { path: members[k].path.path, dependency: Some(name) },
            ),
    decreases count,
{
    if count > 0 {
        lemma_member_files(members, name, (count - 1) as nat);
        let before = member_files(members, name, (count - 1) as nat);
        let files = member_files(members, name, count);
        assert forall|file: FileView| before.contains(file) implies files.contains(file) by {
            let i = choose|i: int| 0 <= i < before.len() && before[i] == file;
            assert(files[i] == file);
        }
        let last = members[count - 1];
        if last.name == name || cargo::lists_dependency(last.document, name) {
            assert(files.contains(files.last()));
        }
    }
}

/// The manifest of a package carries its version, and so does the manifest of
/// every member that depends on it, the root manifest where it lists it, and the
/// lock file.
pub proof fn law_version_is_kept_everywhere(
    root: TomlView,
    members: Seq<MemberView>,
    at: int,
    cargo_lock: bool,
    names: Seq<Seq<char>>,
)
    requires
        0 <= at < members.len(),
    ensures
        ({
            let name = members[at].name;
            let files = cargo_package(root, members, name, cargo_lock, names).versioned_files;
            &&& files.contains(members[at].path)
            &&& forall|k: int|
                0 <= k < members.len() && (#[trigger] members[k]).name != name
                    && cargo::lists_dependency(members[k].document, name) ==> files.contains(
                    FileView { path: members[k].path.path, dependency: Some(name) },
                )
            &&& cargo::lists_dependency(root, name) && versioned_file::is_known(
                "Cargo.toml"@,
                names,
            ) ==> files.contains(FileView { path: "Cargo.toml"@, dependency: Some(name) })
            &&& forall|i: int|
                0 <= i < lock_files(cargo_lock, names).len() ==> files.contains(
                    #[trigger] lock_files(cargo_lock, names)[i],
                )
        }),
{
    let name = members[at].name;
    let own = member_files(members, name, members.len());
    let listed = root_files(root, name, names);
    let lock = lock_files(cargo_lock, names);
    let files = own + listed + lock;
    lemma_member_files(members, name, members.len());
    assert forall|file: FileView|
        own.contains(file) || listed.contains(file) || lock.contains(
            file,
        ) implies #[trigger] files.contains(file) by {
        if own.contains(file) {
            let i = choose|i: int| 0 <= i < own.len() && own[i] == file;
            assert(files[i] == file);
        } else if listed.contains(file) {
            let i = choose|i: int| 0 <= i < listed.len() && listed[i] == file;
            assert(files[own.len() + i] == file);
        } else {
            let i = choose|i: int| 0 <= i < lock.len() && lock[i] == file;
            assert(files[own.len() + listed.len() + i] == file);
        }
    }
    assert forall|i: int| 0 <= i < lock.len() implies files.contains(#[trigger] lock[i]) by {
        assert(lock.contains(lock[i]));
    }
    if listed.len() > 0 {
        assert(listed.contains(listed[0]));
    }
}

/// The manifest of a member has a known format wherever `Cargo.toml` has.
pub proof fn law_member_manifests_are_known(member: Seq<char>, names: Seq<Seq<char>>)
    requires
        names.contains("Cargo.toml"@),
    ensures
        versioned_file::is_known(manifest_of(member), names),
{
    reveal_strlit("Cargo.toml");
    path::law_joined_name_is_found(path::joined(Seq::empty(), member), "Cargo.toml"@);
}

/// Every package of a Cargo workspace has a name, its name as its scope, and a
/// file that carries its version.
pub proof fn law_packages_are_members(
    cargo_toml: Option<Seq<char>>,
    files: Seq<Option<Seq<char>>>,
    cargo_lock: bool,
    names: Seq<Seq<char>>,
)
    ensures
        cargo_packages(cargo_toml, files, cargo_lock, names) matches Ok(packages)
            ==> package::all_members(packages),
{
    if let Ok(packages) = cargo_packages(cargo_toml, files, cargo_lock, names) {
        if packages.len() > 0 {
            let root = toml::toml_reading(cargo_toml->0)->Ok_0;
            let listed = listed_members(root)->0;
            let members = read_members_from(Seq::empty(), listed, files, 0, names)->Ok_0;
            assert forall|i: int| 0 <= i < packages.len() implies package::is_member(
                #[trigger] packages[i],
            ) by {
                law_version_is_kept_everywhere(root, members, i, cargo_lock, names);
                assert(packages[i].versioned_files.contains(members[i].path));
            }
        }
    }
}

/// The members of a workspace are listed by the array under `members` in the
/// table under `workspace`, one for each item, in order, whatever else the table
/// holds; without such an array nothing is listed.
pub proof fn law_members_are_those_of_the_array(
    root: TomlView,
    table: Seq<(Seq<char>, TomlView)>,
    items: Seq<TomlView>,
)
    ensures
        toml::lookup(root, "workspace"@) == Some(TomlView::Table(table)) && toml::entry(
            table,
            "members"@,
        ) == Some(TomlView::Array(items)) ==> {
            &&& listed_members(root) matches Some(listed)
            &&& listed.len() == items.len()
            &&& forall|i: int|
                0 <= i < items.len() && items[i] is Text ==> #[trigger] listed[i] == Some(
                    items[i]->Text_0,
                )
            &&& forall|i: int|
                0 <= i < items.len() && !(items[i] is Text) ==> (#[trigger] listed[i]) is None
        },
        !(toml::lookup(root, "workspace"@) is Some && toml::lookup(root, "workspace"@)->0 is Table)
            ==> listed_members(root) is None,
        toml::lookup(root, "workspace"@) == Some(TomlView::Table(table)) && !(toml::entry(
            table,
            "members"@,
        ) is Some && toml::entry(table, "members"@)->0 is Array) ==> listed_members(root) is None,
{
}

/// Whether the member at `at` can be used.
spec fn is_readable(
    directory: Seq<char>,
    members: Seq<Option<Seq<char>>>,
    files: Seq<Option<Seq<char>>>,
    at: int,
    names: Seq<Seq<char>>,
) -> bool {
    read_member(directory, members[at], contents_at(files, at), names) is Ok
}

/// The first member from `from` on that cannot be used is `at`.
spec fn member_fails_first(
    directory: Seq<char>,
    members: Seq<Option<Seq<char>>>,
    files: Seq<Option<Seq<char>>>,
    from: int,
    at: int,
    names: Seq<Seq<char>>,
    error: CargoWorkspaceErrorView,
) -> bool {
    &&& from <= at < members.len()
    &&& read_member(directory, members[at], contents_at(files, at), names) == Err::<
        MemberView,
        CargoWorkspaceErrorView,
    >(error)
    &&& forall|i: int|
        from <= i < at ==> #[trigger] is_readable(directory, members, files, i, names)
}

proof fn lemma_members_one_for_one(
    directory: Seq<char>,
    members: Seq<Option<Seq<char>>>,
    files: Seq<Option<Seq<char>>>,
    at: nat,
    names: Seq<Seq<char>>,
)
    requires
        at <= members.len(),
    ensures
        match read_members_from(directory, members, files, at, names) {
            Ok(read) => {
                &&& read.len() == members.len() - at
                &&& forall|i: int|
                    0 <= i < read.len() ==> read_member(
                        directory,
                        members[at + i],
                        contents_at(files, at + i),
                        names,
                    ) == Ok::<MemberView, CargoWorkspaceErrorView>(#[trigger] read[i])
            },
            Err(error) => exists|k: int| #[trigger]
                member_fails_first(directory, members, files, at as int, k, names, error),
        },
    decreases members.len() - at,
{
    if at < members.len() {
        lemma_members_one_for_one(directory, members, files, at + 1, names);
        let first = read_member(
            directory,
            members[at as int],
            contents_at(files, at as int),
            names,
        );
        match first {
            Ok(member) => {
                assert(is_readable(directory, members, files, at as int, names));
                match read_members_from(directory, members, files, at + 1, names) {
                    Ok(rest) => {
                        let read = seq![member] + rest;
                        assert forall|i: int| 0 <= i < read.len() implies read_member(
                            directory,
                            members[at + i],
                            contents_at(files, at + i),
                            names,
                        ) == Ok::<MemberView, CargoWorkspaceErrorView>(#[trigger] read[i]) by {
                            if i > 0 {
                                assert(read[i] == rest[i - 1]);
                                assert(at + i == at + 1 + (i - 1));
                            }
                        }
                    },
                    Err(error) => {
                        let k = choose|k: int| #[trigger]
                            member_fails_first(
                                directory,
                                members,
                                files,
                                (at + 1) as int,
                                k,
                                names,
                                error,
                            );
                        assert(member_fails_first(
                            directory,
                            members,
                            files,
                            at as int,
                            k,
                            names,
                            error,
                        ));
                    },
                }
            },
            Err(error) => {
                assert(member_fails_first(
                    directory,
                    members,
                    files,
                    at as int,
                    at as int,
                    names,
                    error,
                ));
            },
        }
    }
}

/// What a member gives: a package of the name under `package.name` of its own
/// manifest, which is `Cargo.toml` in the directory that is listed.  It has to be
/// listed as a string, the format of its manifest has to be known, and the
/// manifest has to be there, to hold TOML and to name a package, and the first of
/// these that fails is told.
pub proof fn law_member_is_read_from_its_manifest(
    directory: Seq<char>,
    member: Option<Seq<char>>,
    contents: Option<Seq<char>>,
    names: Seq<Seq<char>>,
)
    ensures
        ({
            let read = read_member(directory, member, contents, names);
            match member {
                None => read == Err::<MemberView, CargoWorkspaceErrorView>(
                    CargoWorkspaceErrorView::Members,
                ),
                Some(member) => {
                    let path = path::joined(path::joined(directory, member), "Cargo.toml"@);
                    if !versioned_file::is_known(path, names) {
                        read == Err::<MemberView, CargoWorkspaceErrorView>(
                            CargoWorkspaceErrorView::UnknownFile(path),
                        )
                    } else if contents is None {
                        read == Err::<MemberView, CargoWorkspaceErrorView>(
                            CargoWorkspaceErrorView::Fs(path),
                        )
                    } else {
                        match toml::toml_reading(contents->0) {
                            Err(error) => read == Err::<MemberView, CargoWorkspaceErrorView>(
                                CargoWorkspaceErrorView::Toml(error, path),
                            ),
                            Ok(document) => match cargo::package_name(document) {
                                None => read == Err::<MemberView, CargoWorkspaceErrorView>(
                                    CargoWorkspaceErrorView::NoPackageName(path),
                                ),
                                Some(name) => read matches Ok(found) && found.name == name
                                    && found.document == document && found.path.path == path
                                    && found.path.dependency is None,
                            },
                        }
                    }
                },
            }
        }),
{
}

/// The versioned files of the package `name` are the manifests of the members of
/// that name, and those of the members that list it as a dependency, all of them,
/// in the order of the members; then the root manifest where it lists it, then
/// `Cargo.lock` where there is one, the last two where their format is known.
pub proof fn law_cargo_package_files(
    root: TomlView,
    members: Seq<MemberView>,
    name: Seq<char>,
    cargo_lock: bool,
    names: Seq<Seq<char>>,
)
    ensures
        ({
            let package = cargo_package(root, members, name, cargo_lock, names);
            &&& package.name == Some(name)
            &&& package.scopes == Some(seq![name])
            &&& package.changelog is None
            &&& package.extra_changelog_sections.len() == 0
            &&& package.assets is None
            &&& !package.ignore_go_major_versioning
            &&& package.versioned_files == members.filter_map(
                |member: MemberView|
                    if member.name == name {
                        Some(member.path)
                    } else if cargo::lists_dependency(member.document, name) {
                        Some(FileView { path: member.path.path, dependency: Some(name) })
                    } else {
                        None
                    },
            ) + (if cargo::lists_dependency(root, name) && versioned_file::is_known(
                "Cargo.toml"@,
                names,
            ) {
                seq![FileView { path: "Cargo.toml"@, dependency: Some(name) }]
            } else {
                Seq::empty()
            }) + (if cargo_lock && versioned_file::is_known("Cargo.lock"@, names) {
                seq![FileView { path: "Cargo.lock"@, dependency: None }]
            } else {
                Seq::empty()
            })
        }),
{
    let give = |member: MemberView|
        if member.name == name {
            Some(member.path)
        } else if cargo::lists_dependency(member.document, name) {
            Some(FileView { path: member.path.path, dependency: Some(name) })
        } else {
            None
        };
    lemma_member_files_filter(members, name, members.len(), give);
    assert(members.take(members.len() as int) =~= members);
    reveal_strlit("Cargo.lock");
    assert(path::joined(Seq::empty(), "Cargo.lock"@) =~= "Cargo.lock"@);
}

proof fn lemma_member_files_filter(
    members: Seq<MemberView>,
    name: Seq<char>,
    count: nat,
    give: spec_fn(MemberView) -> Option<FileView>,
)
    requires
        count <= members.len(),
        forall|member: MemberView|
            #[trigger] give(member) == if member.name == name {
                Some(member.path)
            } else if cargo::lists_dependency(member.document, name) {
                Some(FileView { path: member.path.path, dependency: Some(name) })
            } else {
                None
            },
    ensures
        member_files(members, name, count) == members.take(count as int).filter_map(give),
    decreases count,
{
    if count > 0 {
        lemma_member_files_filter(members, name, (count - 1) as nat, give);
        let taken = members.take(count as int);
        assert(taken.drop_last() =~= members.take(count - 1));
        assert(taken.last() == members[count - 1]);
        assert(give(taken.last()) == give(members[count - 1]));
    }
}

/// A workspace that lists its members as strings, whose manifests are all there,
/// of a known format, hold TOML and name a package, has exactly one package for
/// each, in order: the package at `i` has the name that the manifest of the
/// `i`-th member gives, whatever else stands in the root manifest.
pub proof fn law_workspace_has_a_package_for_each_member(
    contents: Seq<char>,
    root: TomlView,
    workspace: Seq<(Seq<char>, TomlView)>,
    items: Seq<TomlView>,
    files: Seq<Option<Seq<char>>>,
    cargo_lock: bool,
    names: Seq<Seq<char>>,
)
    requires
        toml::toml_reading(contents) == Ok::<TomlView, toml_edit::TomlError>(root),
        toml::lookup(root, "workspace"@) == Some(TomlView::Table(workspace)),
        toml::entry(workspace, "members"@) == Some(TomlView::Array(items)),
        files.len() >= items.len(),
        forall|i: int|
            0 <= i < items.len() ==> {
                &&& (#[trigger] items[i]) is Text
                &&& versioned_file::is_known(
                    path::joined(path::joined(Seq::empty(), items[i]->Text_0), "Cargo.toml"@),
                    names,
                )
                &&& files[i] is Some
                &&& toml::toml_reading(files[i]->0) is Ok
                &&& cargo::package_name(toml::toml_reading(files[i]->0)->Ok_0) is Some
            },
    ensures
        ({
            let members = Seq::new(
                items.len(),
                |i: int|
                    MemberView {
                        path: FileView {
                            path: path::joined(
                                path::joined(Seq::empty(), items[i]->Text_0),
                                "Cargo.toml"@,
                            ),
                            dependency: None,
                        },
                        name: cargo::package_name(toml::toml_reading(files[i]->0)->Ok_0)->0,
                        document: toml::toml_reading(files[i]->0)->Ok_0,
                    },
            );
            cargo_packages(Some(contents), files, cargo_lock, names) matches Ok(packages)
                && packages.len() == items.len() && forall|i: int|
                0 <= i < items.len() ==> #[trigger] packages[i] == cargo_package(
                    root,
                    members,
                    cargo::package_name(toml::toml_reading(files[i]->0)->Ok_0)->0,
                    cargo_lock,
                    names,
                )
        }),
{
    let listed = listed_members(root)->0;
    let members = Seq::new(
        items.len(),
        |i: int|
            MemberView {
                path: FileView {
                    path: path::joined(
                        path::joined(Seq::empty(), items[i]->Text_0),
                        "Cargo.toml"@,
                    ),
                    dependency: None,
                },
                name: cargo::package_name(toml::toml_reading(files[i]->0)->Ok_0)->0,
                document: toml::toml_reading(files[i]->0)->Ok_0,
            },
    );
    law_members_are_those_of_the_array(root, workspace, items);
    lemma_members_one_for_one(Seq::empty(), listed, files, 0, names);
    assert forall|i: int| 0 <= i < items.len() implies read_member(
        Seq::empty(),
        listed[i],
        contents_at(files, i),
        names,
    ) == Ok::<MemberView, CargoWorkspaceErrorView>(#[trigger] members[i]) by {
        assert(items[i] is Text);
    }
    match read_members_from(Seq::empty(), listed, files, 0, names) {
        Ok(read) => {
            assert forall|i: int| 0 <= i < read.len() implies read[i] == members[i] by {
                assert(read_member(Seq::empty(), listed[0 + i], contents_at(files, 0 + i), names)
                    == Ok::<MemberView, CargoWorkspaceErrorView>(read[i]));
                assert(read_member(Seq::empty(), listed[i], contents_at(files, i), names) == Ok::<
                    MemberView,
                    CargoWorkspaceErrorView,
                >(members[i]));
            }
            assert(read =~= members);
        },
        Err(error) => {
            let k = choose|k: int| #[trigger]
                member_fails_first(Seq::empty(), listed, files, 0, k, names, error);
            assert(read_member(Seq::empty(), listed[k], contents_at(files, k), names) == Ok::<
                MemberView,
                CargoWorkspaceErrorView,
            >(members[k]));
        },
    }
}

/// Where a member cannot be used there are no packages, and what is told is the
/// error of the first such member; a root manifest that holds no TOML is an error
/// too, and one that lists no members, or is not there, gives no packages.
pub proof fn law_first_member_that_fails_is_told(
    cargo_toml: Option<Seq<char>>,
    files: Seq<Option<Seq<char>>>,
    cargo_lock: bool,
    names: Seq<Seq<char>>,
)
    ensures
        ({
            let found = cargo_packages(cargo_toml, files, cargo_lock, names);
            match cargo_toml {
                None => found == Ok::<Seq<PackageView>, CargoWorkspaceErrorView>(Seq::empty()),
                Some(contents) => match toml::toml_reading(contents) {
                    Err(error) => found == Err::<Seq<PackageView>, CargoWorkspaceErrorView>(
                        CargoWorkspaceErrorView::Toml(error, "Cargo.toml"@),
                    ),
                    Ok(root) => match listed_members(root) {
                        None => found == Ok::<Seq<PackageView>, CargoWorkspaceErrorView>(
                            Seq::empty(),
                        ),
                        Some(listed) => match found {
                            Ok(packages) => packages.len() == listed.len() && forall|i: int|
                                0 <= i < listed.len() ==> (read_member(
                                    Seq::empty(),
                                    #[trigger] listed[i],
                                    contents_at(files, i),
                                    names,
                                ) matches Ok(member) && packages[i].name == Some(member.name)),
                            Err(error) => exists|k: int|
                                0 <= k < listed.len() && read_member(
                                    Seq::empty(),
                                    #[trigger] listed[k],
                                    contents_at(files, k),
                                    names,
                                ) == Err::<MemberView, CargoWorkspaceErrorView>(error) && forall|
                                    i: int,
                                |
                                    0 <= i < k ==> read_member(
                                        Seq::empty(),
                                        #[trigger] listed[i],
                                        contents_at(files, i),
                                        names,
                                    ) is Ok,
                        },
                    },
                },
            }
        }),
{
    if let Some(contents) = cargo_toml {
        if let Ok(root) = toml::toml_reading(contents) {
            if let Some(listed) = listed_members(root) {
                lemma_members_one_for_one(Seq::empty(), listed, files, 0, names);
                match read_members_from(Seq::empty(), listed, files, 0, names) {
                    Ok(read) => {
                        let packages = member_packages(root, read, cargo_lock, names);
                        assert forall|i: int| 0 <= i < listed.len() implies (read_member(
                            Seq::empty(),
                            #[trigger] listed[i],
                            contents_at(files, i),
                            names,
                        ) matches Ok(member) && packages[i].name == Some(member.name)) by {
                            assert(read_member(
                                Seq::empty(),
                                listed[0 + i],
                                contents_at(files, 0 + i),
                                names,
                            ) == Ok::<MemberView, CargoWorkspaceErrorView>(read[i]));
                        }
                    },
                    Err(error) => {
                        let k = choose|k: int| #[trigger]
                            member_fails_first(Seq::empty(), listed, files, 0, k, names, error);
                        assert forall|i: int| 0 <= i < k implies read_member(
                            Seq::empty(),
                            #[trigger] listed[i],
                            contents_at(files, i),
                            names,
                        ) is Ok by {
                            assert(is_readable(Seq::empty(), listed, files, i, names));
                        }
                    },
                }
            }
        }
    }
}

/// What was read of the manifests goes with the members place by place; a member
/// behind the last of them has a manifest that is not there.
pub proof fn law_manifests_go_with_members_by_place(files: Seq<Option<Seq<char>>>, at: int)
    ensures
        0 <= at < files.len() ==> contents_at(files, at) == files[at],
        at >= files.len() ==> contents_at(files, at) is None,
{
}

} // verus!
