//! The packages in the working directory.

use vstd::prelude::*;

use crate::package;
use crate::package::cargo_workspace;
use crate::package::cargo_workspace::{CargoWorkspaceError, CargoWorkspaceErrorView};
use crate::package::deno_workspace;
use crate::package::deno_workspace::{DenoWorkspaceError, DenoWorkspaceErrorView};
use crate::package::npm_workspace;
use crate::package::npm_workspace::{NPMWorkspaceError, NPMWorkspaceErrorView};
use crate::package::workspace;
use crate::package::{Package, PackageView};
use crate::path::RelativePathBuf;
use crate::sequences;
use crate::versioned_file;
use crate::versioned_file::{FileView, VersionedFileConfig};

verus! {

/// Why the packages in the working directory could not be found.
#[derive(Debug)]
pub enum Error {
    CargoWorkspace(CargoWorkspaceError),
    NPMWorkspace(NPMWorkspaceError),
    DenoWorkspace(DenoWorkspaceError),
}

/// Why the packages in the working directory could not be found.
pub enum ErrorView {
    CargoWorkspace(CargoWorkspaceErrorView),
    NPMWorkspace(NPMWorkspaceErrorView),
    DenoWorkspace(DenoWorkspaceErrorView),
}

impl View for Error {
    type V = ErrorView;

    open spec fn view(&self) -> ErrorView {
        match *self {
            Error::CargoWorkspace(error) => ErrorView::CargoWorkspace(error@),
            Error::NPMWorkspace(error) => ErrorView::NPMWorkspace(error@),
            Error::DenoWorkspace(error) => ErrorView::DenoWorkspace(error@),
        }
    }
}

/// What the outcome of looking for packages stands for.
pub open spec fn outcome(result: Result<Vec<Package>, Error>) -> Result<
    Seq<PackageView>,
    ErrorView,
> {
    match result {
        Ok(packages) => Ok(package::package_views(packages@)),
        Err(error) => Err(error@),
    }
}

/// A file that carries the version of the only package of a directory, if it
/// exists.
#[derive(Debug)]
pub struct DefaultFile {
    pub file: VersionedFileConfig,
    pub exists: bool,
}

/// Those of `defaults` that exist.
pub open spec fn existing_files(defaults: Seq<DefaultFile>) -> Seq<FileView>
    decreases defaults.len(),
{
    if defaults.len() == 0 {
        Seq::empty()
    } else if defaults.last().exists {
        existing_files(defaults.drop_last()).push(defaults.last().file@)
    } else {
        existing_files(defaults.drop_last())
    }
}

/// The only package of a directory without workspaces; none where no file
/// carries its version.
pub open spec fn single_package(files: Seq<FileView>, changelog_exists: bool) -> Seq<PackageView> {
    if files.len() == 0 {
        Seq::empty()
    } else {
        seq![
            PackageView {
                versioned_files: files,
                changelog: if changelog_exists {
                    Some("CHANGELOG.md"@)
                } else {
                    None
                },
                ..package::default_package()
            },
        ]
    }
}

/// The packages of the working directory: those of its workspaces or, where
/// there are none, the only one.
pub open spec fn found_packages(
    cargo: Result<Seq<PackageView>, CargoWorkspaceErrorView>,
    npm: Result<Seq<PackageView>, NPMWorkspaceErrorView>,
    deno: Result<Seq<PackageView>, DenoWorkspaceErrorView>,
    files: Seq<FileView>,
    changelog_exists: bool,
) -> Result<Seq<PackageView>, ErrorView> {
    match (cargo, npm, deno) {
        (Err(error), _, _) => Err(ErrorView::CargoWorkspace(error)),
        (_, Err(error), _) => Err(ErrorView::NPMWorkspace(error)),
        (_, _, Err(error)) => Err(ErrorView::DenoWorkspace(error)),
        (Ok(cargo), Ok(npm), Ok(deno)) => {
            let members = cargo + npm + deno;
            if members.len() > 0 {
                Ok(members)
            } else {
                Ok(single_package(files, changelog_exists))
            }
        },
    }
}

/// Those of `defaults` that exist.
fn keep_existing(defaults: Vec<DefaultFile>) -> (files: Vec<VersionedFileConfig>)
    ensures
        versioned_file::file_views(files@) == existing_files(defaults@),
{
    let mut files: Vec<VersionedFileConfig> = Vec::new();
    assert(versioned_file::file_views(files@) =~= Seq::empty());
    for default in iter: defaults
        invariant
            iter.seq() == defaults@,
            versioned_file::file_views(files@) == existing_files(
                defaults@.take(iter.index() as int),
            ),
    {
        let ghost at = iter.index() as int;
        let ghost before = versioned_file::file_views(files@);
        assert(defaults@.take(at + 1).drop_last() =~= defaults@.take(at));
        assert(defaults@.take(at + 1).last() == default);
        if default.exists {
            files.push(default.file);
            assert(versioned_file::file_views(files@) =~= before.push(default.file@));
        }
    }
    assert(defaults@.take(defaults@.len() as int) =~= defaults@);
    files
}

impl Package {
    /// The packages of the working directory, from what was found of its
    /// workspaces.  `defaults` are the files that could carry the version of the
    /// only package there is, and `changelog_exists` tells whether there is a
    /// `CHANGELOG.md`.
    pub fn find_in_working_dir(
        cargo: Result<Vec<Package>, CargoWorkspaceError>,
        npm: Result<Vec<Package>, NPMWorkspaceError>,
        deno: Result<Vec<Package>, DenoWorkspaceError>,
        defaults: Vec<DefaultFile>,
        changelog_exists: bool,
    ) -> (result: Result<Vec<Package>, Error>)
        ensures
            outcome(result) == found_packages(
                cargo_workspace::outcome(cargo),
                npm_workspace::outcome(npm),
                deno_workspace::outcome(deno),
                existing_files(defaults@),
                changelog_exists,
            ),
    {
        let ghost cargo_views = cargo_workspace::outcome(cargo);
        let ghost npm_views = npm_workspace::outcome(npm);
        let ghost deno_views = deno_workspace::outcome(deno);
        let mut packages = match cargo {
            Ok(packages) => packages,
            Err(error) => {
                return Err(Error::CargoWorkspace(error));
            },
        };
        let mut npm = match npm {
            Ok(packages) => packages,
            Err(error) => {
                return Err(Error::NPMWorkspace(error));
            },
        };
        let mut deno = match deno {
            Ok(packages) => packages,
            Err(error) => {
                return Err(Error::DenoWorkspace(error));
            },
        };
        packages.append(&mut npm);
        packages.append(&mut deno);
        assert(package::package_views(packages@) =~= cargo_views->Ok_0 + npm_views->Ok_0
            + deno_views->Ok_0);
        if !packages.is_empty() {
            return Ok(packages);
        }
        let versioned_files = keep_existing(defaults);
        if versioned_files.is_empty() {
            assert(package::package_views(packages@) =~= Seq::empty());
            return Ok(packages);
        }
        let changelog = if changelog_exists {
            Some(RelativePathBuf::from("CHANGELOG.md"))
        } else {
            None
        };
        let mut package = Package::default();
        package.versioned_files = versioned_files;
        package.changelog = changelog;
        packages.push(package);
        assert(package::package_views(packages@) =~= single_package(
            existing_files(defaults@),
            changelog_exists,
        ));
        Ok(packages)
    }
}

/// The packages of workspaces hide the files of a single package.
pub proof fn law_workspaces_win(
    cargo: Seq<PackageView>,
    npm: Seq<PackageView>,
    deno: Seq<PackageView>,
    files: Seq<FileView>,
    changelog_exists: bool,
)
    requires
        cargo.len() > 0 || npm.len() > 0 || deno.len() > 0,
    ensures
        found_packages(Ok(cargo), Ok(npm), Ok(deno), files, changelog_exists) == Ok::<
            Seq<PackageView>,
            ErrorView,
        >(cargo + npm + deno),
{
}

/// A directory with neither workspaces nor versioned files has no packages.
pub proof fn law_nothing_found(changelog_exists: bool)
    ensures
        found_packages(
            Ok(Seq::empty()),
            Ok(Seq::empty()),
            Ok(Seq::empty()),
            Seq::empty(),
            changelog_exists,
        ) == Ok::<Seq<PackageView>, ErrorView>(Seq::empty()),
{
}

/// Every package that is found has a file that carries its version.  Where there
/// are two packages or more, each has a name, and its name as its scope; a package
/// without a name stands alone.  The three searches give such packages as
/// `law_packages_are_members` asks for here.
pub proof fn law_found_packages_are_told_apart(
    cargo: Result<Seq<PackageView>, CargoWorkspaceErrorView>,
    npm: Result<Seq<PackageView>, NPMWorkspaceErrorView>,
    deno: Result<Seq<PackageView>, DenoWorkspaceErrorView>,
    files: Seq<FileView>,
    changelog_exists: bool,
)
    requires
        cargo matches Ok(packages) ==> package::all_members(packages),
        npm matches Ok(packages) ==> package::all_members(packages),
        deno matches Ok(packages) ==> package::all_members(packages),
    ensures
        found_packages(cargo, npm, deno, files, changelog_exists) matches Ok(packages) ==> {
            &&& forall|i: int|
                0 <= i < packages.len() ==> (#[trigger] packages[i]).versioned_files.len() > 0
            &&& packages.len() >= 2 ==> package::all_members(packages)
            &&& forall|i: int|
                0 <= i < packages.len() && (#[trigger] packages[i]).name is None
                    ==> packages.len() == 1
        },
{
    if let (Ok(first), Ok(second), Ok(third)) = (cargo, npm, deno) {
        let members = first + second + third;
        assert forall|i: int| 0 <= i < members.len() implies package::is_member(
            #[trigger] members[i],
        ) by {
            if i < first.len() {
                assert(members[i] == first[i]);
            } else if i < first.len() + second.len() {
                assert(members[i] == second[i - first.len()]);
            } else {
                assert(members[i] == third[i - first.len() - second.len()]);
            }
        }
    }
}

/// The packages that the three searches find in a directory, from what its files
/// hold, are told apart in this way.
pub proof fn law_searches_tell_packages_apart(
    cargo_toml: Option<Seq<char>>,
    manifests: Seq<Option<Seq<char>>>,
    cargo_lock: bool,
    package_json: Option<Seq<char>>,
    npm_matches: Seq<workspace::PatternMatches<workspace::FoundFile>>,
    package_lock: bool,
    deno_root: Option<Seq<char>>,
    deno_matches: Seq<workspace::PatternMatches<Vec<workspace::FoundFile>>>,
    deno_lock: bool,
    names: Seq<Seq<char>>,
    files: Seq<FileView>,
    changelog_exists: bool,
)
    ensures
        ({
            let cargo = cargo_workspace::cargo_packages(cargo_toml, manifests, cargo_lock, names);
            let npm = npm_workspace::npm_packages(package_json, npm_matches, package_lock, names);
            let deno = deno_workspace::deno_packages(deno_root, deno_matches, deno_lock, names);
            found_packages(cargo, npm, deno, files, changelog_exists) matches Ok(packages) ==> {
                &&& forall|i: int|
                    0 <= i < packages.len() ==> (#[trigger] packages[i]).versioned_files.len() > 0
                &&& packages.len() >= 2 ==> package::all_members(packages)
                &&& forall|i: int|
                    0 <= i < packages.len() && (#[trigger] packages[i]).name is None
                        ==> packages.len() == 1
            }
        }),
{
    let cargo = cargo_workspace::cargo_packages(cargo_toml, manifests, cargo_lock, names);
    let npm = npm_workspace::npm_packages(package_json, npm_matches, package_lock, names);
    let deno = deno_workspace::deno_packages(deno_root, deno_matches, deno_lock, names);
    cargo_workspace::law_packages_are_members(cargo_toml, manifests, cargo_lock, names);
    npm_workspace::law_packages_are_members(package_json, npm_matches, package_lock, names);
    deno_workspace::law_packages_are_members(deno_root, deno_matches, deno_lock, names);
    law_found_packages_are_told_apart(cargo, npm, deno, files, changelog_exists);
}

proof fn lemma_existing_files(
    defaults: Seq<DefaultFile>,
    give: spec_fn(DefaultFile) -> Option<FileView>,
)
    requires
        forall|entry: DefaultFile|
            #[trigger] give(entry) == if entry.exists {
                Some(entry.file@)
            } else {
                None
            },
    ensures
        existing_files(defaults) == defaults.filter_map(give),
    decreases defaults.len(),
{
    if defaults.len() > 0 {
        lemma_existing_files(defaults.drop_last(), give);
        assert(give(defaults.last()) == if defaults.last().exists {
            Some(defaults.last().file@)
        } else {
            None
        });
    }
}

proof fn lemma_existing_count(defaults: Seq<DefaultFile>)
    ensures
        existing_files(defaults).len() == defaults.filter(
            |entry: DefaultFile| entry.exists,
        ).len(),
    decreases defaults.len(),
{
    reveal(Seq::filter);
    if defaults.len() > 0 {
        lemma_existing_count(defaults.drop_last());
    }
}

/// Where no workspace gives a package, the only package has every default file
/// that exists and no other file, in the order of the defaults; where none exists
/// there is no package.  Its changelog is `CHANGELOG.md`, exactly where that
/// exists, and nothing else is set.
pub proof fn law_single_package_has_all_files_that_exist(
    defaults: Seq<DefaultFile>,
    changelog_exists: bool,
)
    ensures
        ({
            let found = found_packages(
                Ok(Seq::empty()),
                Ok(Seq::empty()),
                Ok(Seq::empty()),
                existing_files(defaults),
                changelog_exists,
            );
            &&& found is Ok
            &&& (exists|i: int| 0 <= i < defaults.len() && (#[trigger] defaults[i]).exists) ==> {
                let package = found->Ok_0[0];
                &&& found->Ok_0.len() == 1
                &&& forall|i: int|
                    0 <= i < defaults.len() && (#[trigger] defaults[i]).exists
                        ==> package.versioned_files.contains(defaults[i].file@)
                &&& package.versioned_files.len() == defaults.filter(
                    |entry: DefaultFile| entry.exists,
                ).len()
                &&& package.versioned_files == defaults.filter_map(
                    |entry: DefaultFile|
                        if entry.exists {
                            Some(entry.file@)
                        } else {
                            None
                        },
                )
                &&& changelog_exists ==> package.changelog == Some("CHANGELOG.md"@)
                &&& !changelog_exists ==> package.changelog is None
                &&& package.name is None
                &&& package.scopes is None
                &&& package.extra_changelog_sections.len() == 0
                &&& package.assets is None
                &&& !package.ignore_go_major_versioning
            }
            &&& (forall|i: int| 0 <= i < defaults.len() ==> !(#[trigger] defaults[i]).exists)
                ==> found->Ok_0.len() == 0
        }),
{
    let give = |entry: DefaultFile|
        if entry.exists {
            Some(entry.file@)
        } else {
            None
        };
    lemma_existing_files(defaults, give);
    lemma_existing_count(defaults);
    let files = existing_files(defaults);
    assert forall|i: int| 0 <= i < defaults.len() && (
    #[trigger] defaults[i]).exists implies files.contains(defaults[i].file@) by {
        sequences::lemma_filter_map_keeps(defaults, give, i);
    }
    if files.len() > 0 {
        assert(files.contains(files[0]));
        defaults.lemma_filter_map_contains(give, files[0]);
        let default = choose|default: DefaultFile| #[trigger]
            defaults.contains(default) && give(default) == Some(files[0]);
        let i = choose|i: int| 0 <= i < defaults.len() && defaults[i] == default;
        assert(defaults[i].exists);
    }
}

/// An error in looking for workspaces is told, whatever else was found: that of
/// Cargo first, then that of npm, then that of Deno.
pub proof fn law_first_failing_search_is_told(
    cargo: Result<Seq<PackageView>, CargoWorkspaceErrorView>,
    npm: Result<Seq<PackageView>, NPMWorkspaceErrorView>,
    deno: Result<Seq<PackageView>, DenoWorkspaceErrorView>,
    files: Seq<FileView>,
    changelog_exists: bool,
)
    ensures
        ({
            let found = found_packages(cargo, npm, deno, files, changelog_exists);
            &&& found is Ok <==> cargo is Ok && npm is Ok && deno is Ok
            &&& cargo matches Err(error) ==> found == Err::<Seq<PackageView>, ErrorView>(
                ErrorView::CargoWorkspace(error),
            )
            &&& cargo is Ok ==> (npm matches Err(error) ==> found == Err::<
                Seq<PackageView>,
                ErrorView,
            >(ErrorView::NPMWorkspace(error)))
            &&& cargo is Ok && npm is Ok ==> (deno matches Err(error) ==> found == Err::<
                Seq<PackageView>,
                ErrorView,
            >(ErrorView::DenoWorkspace(error)))
        }),
{
}

/// The outcome of a search, and of all of them, has every package that was found,
/// in order.
pub proof fn law_outcome_has_every_package(packages: Vec<Package>)
    ensures
        ({
            let cargo = cargo_workspace::outcome(Ok(packages));
            let npm = npm_workspace::outcome(Ok(packages));
            let deno = deno_workspace::outcome(Ok(packages));
            let all = outcome(Ok(packages));
            &&& cargo is Ok && npm is Ok && deno is Ok && all is Ok
            &&& cargo->Ok_0.len() == packages@.len()
            &&& npm->Ok_0.len() == packages@.len()
            &&& deno->Ok_0.len() == packages@.len()
            &&& all->Ok_0.len() == packages@.len()
            &&& forall|i: int|
                0 <= i < packages@.len() ==> {
                    &&& cargo->Ok_0[i] == (#[trigger] packages@[i])@
                    &&& npm->Ok_0[i] == packages@[i]@
                    &&& deno->Ok_0[i] == packages@[i]@
                    &&& all->Ok_0[i] == packages@[i]@
                }
        }),
{
}

} // verus!
