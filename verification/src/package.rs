//! Packages and where they come from.

use vstd::prelude::*;

use crate::path;
use crate::path::RelativePathBuf;
use crate::text;
use crate::versioned_file;
use crate::versioned_file::{FileView, VersionedFileConfig};

pub mod cargo_workspace;
pub mod config;
pub mod deno_workspace;
pub mod discovery;
pub mod npm_workspace;
pub mod workspace;

verus! {

/// What a package is called.
#[derive(Debug, PartialEq, Eq)]
pub enum Name {
    /// The only package there is, which needs no name.
    Default,
    Custom(String),
}

/// The name of a package; the only package there is has none.
pub open spec fn name_view(name: Name) -> Option<Seq<char>> {
    match name {
        Name::Default => None,
        Name::Custom(name) => Some(name@),
    }
}

impl Clone for Name {
    fn clone(&self) -> (name: Name)
        ensures
            name_view(name) == name_view(*self),
    {
        match self {
            Name::Default => Name::Default,
            Name::Custom(name) => Name::Custom(name.clone()),
        }
    }
}

/// A section of a changelog, and the commit footers and the types of change sets
/// that belong in it.
#[derive(Debug, PartialEq, Eq)]
pub struct ChangelogSection {
    pub name: String,
    pub footers: Vec<String>,
    pub types: Vec<String>,
}

/// A section of a changelog, and what belongs in it.
pub struct ChangelogSectionView {
    pub name: Seq<char>,
    pub footers: Seq<Seq<char>>,
    pub types: Seq<Seq<char>>,
}

impl View for ChangelogSection {
    type V = ChangelogSectionView;

    open spec fn view(&self) -> ChangelogSectionView {
        ChangelogSectionView {
            name: self.name@,
            footers: text::string_views(self.footers@),
            types: text::string_views(self.types@),
        }
    }
}

/// What a sequence of sections stands for.
pub open spec fn section_views(sections: Seq<ChangelogSection>) -> Seq<ChangelogSectionView> {
    sections.map_values(|section: ChangelogSection| section@)
}

impl Clone for ChangelogSection {
    fn clone(&self) -> (section: ChangelogSection)
        ensures
            section@ == self@,
    {
        ChangelogSection {
            name: self.name.clone(),
            footers: text::copy_strings(&self.footers),
            types: text::copy_strings(&self.types),
        }
    }
}

/// A file that is attached to a release.
#[derive(Debug, PartialEq, Eq)]
pub struct Asset {
    pub path: RelativePathBuf,
    pub name: Option<String>,
}

/// The files that are attached to a release.
#[derive(Debug, PartialEq, Eq)]
pub enum Assets {
    Glob(String),
    List(Vec<Asset>),
}

/// A file that is attached to a release.
pub struct AssetView {
    pub path: Seq<char>,
    pub name: Option<Seq<char>>,
}

/// The files that are attached to a release.
pub enum AssetsView {
    Glob(Seq<char>),
    List(Seq<AssetView>),
}

impl View for Asset {
    type V = AssetView;

    open spec fn view(&self) -> AssetView {
        AssetView { path: self.path@, name: text::option_view(self.name) }
    }
}

impl View for Assets {
    type V = AssetsView;

    open spec fn view(&self) -> AssetsView {
        match *self {
            Assets::Glob(pattern) => AssetsView::Glob(pattern@),
            Assets::List(assets) => AssetsView::List(
                assets@.map_values(|asset: Asset| asset@),
            ),
        }
    }
}

/// The files that are attached to a release, if there are any.
pub open spec fn assets_view(assets: Option<Assets>) -> Option<AssetsView> {
    match assets {
        Some(assets) => Some(assets@),
        None => None,
    }
}

impl Clone for Asset {
    fn clone(&self) -> (asset: Asset)
        ensures
            asset@ == self@,
    {
        let name = match &self.name {
            Some(name) => Some(name.clone()),
            None => None,
        };
        Asset { path: self.path.clone(), name }
    }
}

impl Clone for Assets {
    fn clone(&self) -> (assets: Assets)
        ensures
            assets@ == self@,
    {
        match self {
            Assets::Glob(pattern) => Assets::Glob(pattern.clone()),
            Assets::List(assets) => {
                let mut copies: Vec<Asset> = Vec::new();
                let mut at: usize = 0;
                while at < assets.len()
                    invariant
                        at <= assets.len(),
                        copies.len() == at,
                        forall|i: int| 0 <= i < at ==> (#[trigger] copies[i])@ == assets[i]@,
                    decreases assets.len() - at,
                {
                    copies.push(assets[at].clone());
                    at = at + 1;
                }
                assert(copies@.map_values(|asset: Asset| asset@) =~= assets@.map_values(
                    |asset: Asset| asset@,
                ));
                Assets::List(copies)
            },
        }
    }
}

/// A package that is versioned and released.
#[derive(Debug, PartialEq, Eq)]
pub struct Package {
    pub name: Name,
    /// The files which define the current version of the package.
    pub versioned_files: Vec<VersionedFileConfig>,
    /// The path to the changelog, if there is one to be updated.
    pub changelog: Option<RelativePathBuf>,
    /// Scopes by which commits are told apart.
    pub scopes: Option<Vec<String>>,
    /// Sections that the changelog has besides the usual ones.
    pub extra_changelog_sections: Vec<ChangelogSection>,
    pub assets: Option<Assets>,
    pub ignore_go_major_versioning: bool,
}

/// A package that is versioned and released.
pub struct PackageView {
    pub name: Option<Seq<char>>,
    pub versioned_files: Seq<FileView>,
    pub changelog: Option<Seq<char>>,
    pub scopes: Option<Seq<Seq<char>>>,
    pub extra_changelog_sections: Seq<ChangelogSectionView>,
    pub assets: Option<AssetsView>,
    pub ignore_go_major_versioning: bool,
}

/// The scopes of a package, if it has any.
pub open spec fn scopes_view(scopes: Option<Vec<String>>) -> Option<Seq<Seq<char>>> {
    match scopes {
        Some(scopes) => Some(text::string_views(scopes@)),
        None => None,
    }
}

impl View for Package {
    type V = PackageView;

    open spec fn view(&self) -> PackageView {
        PackageView {
            name: name_view(self.name),
            versioned_files: versioned_file::file_views(self.versioned_files@),
            changelog: path::option_view(self.changelog),
            scopes: scopes_view(self.scopes),
            extra_changelog_sections: section_views(self.extra_changelog_sections@),
            assets: assets_view(self.assets),
            ignore_go_major_versioning: self.ignore_go_major_versioning,
        }
    }
}

/// The packages that a sequence stands for.
pub open spec fn package_views(packages: Seq<Package>) -> Seq<PackageView> {
    packages.map_values(|package: Package| package@)
}

/// A package with nothing set.
pub open spec fn default_package() -> PackageView {
    PackageView {
        name: None,
        versioned_files: Seq::empty(),
        changelog: None,
        scopes: None,
        extra_changelog_sections: Seq::empty(),
        assets: None,
        ignore_go_major_versioning: false,
    }
}

/// A package of a workspace: its commits have its name as their scope.
pub open spec fn member_package(
    name: Seq<char>,
    files: Seq<FileView>,
    changelog: Option<Seq<char>>,
) -> PackageView {
    PackageView {
        name: Some(name),
        versioned_files: files,
        changelog,
        scopes: Some(seq![name]),
        ..default_package()
    }
}

/// Whether a package has a name, its name as its only scope, and a file that
/// carries its version.
pub open spec fn is_member(package: PackageView) -> bool {
    &&& package.name is Some
    &&& package.scopes == Some(seq![package.name->0])
    &&& package.versioned_files.len() > 0
}

/// Whether all of `packages` are such packages.
pub open spec fn all_members(packages: Seq<PackageView>) -> bool {
    forall|i: int| 0 <= i < packages.len() ==> is_member(#[trigger] packages[i])
}

impl Default for Package {
    fn default() -> (package: Package)
        ensures
            package@ == default_package(),
    {
        let package = Package {
            name: Name::Default,
            versioned_files: Vec::new(),
            changelog: None,
            scopes: None,
            extra_changelog_sections: Vec::new(),
            assets: None,
            ignore_go_major_versioning: false,
        };
        assert(package@.versioned_files =~= Seq::empty());
        assert(package@.extra_changelog_sections =~= Seq::empty());
        package
    }
}

impl Clone for Package {
    fn clone(&self) -> (package: Package)
        ensures
            package@ == self@,
    {
        let mut extra_changelog_sections: Vec<ChangelogSection> = Vec::new();
        let mut at: usize = 0;
        while at < self.extra_changelog_sections.len()
            invariant
                at <= self.extra_changelog_sections.len(),
                extra_changelog_sections.len() == at,
                forall|i: int|
                    0 <= i < at ==> (#[trigger] extra_changelog_sections[i])@
                        == self.extra_changelog_sections[i]@,
            decreases self.extra_changelog_sections.len() - at,
        {
            extra_changelog_sections.push(self.extra_changelog_sections[at].clone());
            at = at + 1;
        }
        let package = Package {
            name: self.name.clone(),
            versioned_files: versioned_file::copy_files(&self.versioned_files),
            changelog: match &self.changelog {
                Some(changelog) => Some(changelog.clone()),
                None => None,
            },
            scopes: match &self.scopes {
                Some(scopes) => Some(text::copy_strings(scopes)),
                None => None,
            },
            extra_changelog_sections,
            assets: match &self.assets {
                Some(assets) => Some(assets.clone()),
                None => None,
            },
            ignore_go_major_versioning: self.ignore_go_major_versioning,
        };
        assert(package@.extra_changelog_sections =~= self@.extra_changelog_sections);
        package
    }
}

impl Package {
    /// A package of a workspace.
    pub(crate) fn member(
        name: String,
        versioned_files: Vec<VersionedFileConfig>,
        changelog: Option<RelativePathBuf>,
    ) -> (package: Package)
        ensures
            package@ == member_package(
                name@,
                versioned_file::file_views(versioned_files@),
                path::option_view(changelog),
            ),
    {
        let mut scopes: Vec<String> = Vec::new();
        scopes.push(name.clone());
        assert(text::string_views(scopes@) =~= seq![name@]);
        let package = Package {
            name: Name::Custom(name),
            versioned_files,
            changelog,
            scopes: Some(scopes),
            extra_changelog_sections: Vec::new(),
            assets: None,
            ignore_go_major_versioning: false,
        };
        assert(package@.extra_changelog_sections =~= Seq::empty());
        package
    }
}

/// A package with nothing set has no name, no files, no changelog, no scopes, no
/// sections and no assets, and goes by the major version of Go modules.
pub proof fn law_default_package_has_nothing()
    ensures
        default_package().name is None,
        default_package().versioned_files.len() == 0,
        default_package().changelog is None,
        default_package().scopes is None,
        default_package().extra_changelog_sections.len() == 0,
        default_package().assets is None,
        !default_package().ignore_go_major_versioning,
{
}

/// A package of a workspace has the name, the files and the changelog that it was
/// made of, its name as its only scope, and nothing else.
pub proof fn law_member_is_scoped_by_its_name(
    name: Seq<char>,
    files: Seq<FileView>,
    changelog: Option<Seq<char>>,
)
    ensures
        ({
            let package = member_package(name, files, changelog);
            &&& package.name == Some(name)
            &&& package.versioned_files == files
            &&& package.changelog == changelog
            &&& package.scopes matches Some(scopes)
            &&& scopes.len() == 1 && scopes[0] == name
            &&& package.extra_changelog_sections.len() == 0
            &&& package.assets is None
            &&& !package.ignore_go_major_versioning
        }),
{
}

/// What a package stands for has all that the package has: its name, every file
/// with its path and its dependency, in order, and every scope.
pub proof fn law_view_has_all_of_the_package(package: Package)
    ensures
        package.name matches Name::Custom(name) ==> package@.name == Some(name@),
        package.name is Default ==> package@.name is None,
        package@.versioned_files.len() == package.versioned_files@.len(),
        forall|i: int|
            0 <= i < package.versioned_files@.len() ==> {
                let file = #[trigger] package@.versioned_files[i];
                &&& file.path == package.versioned_files@[i].path.text@
                &&& file.dependency is Some <==> package.versioned_files@[i].dependency is Some
                &&& package.versioned_files@[i].dependency matches Some(dependency)
                    ==> file.dependency == Some(dependency@)
            },
        package@.changelog is Some <==> package.changelog is Some,
        package.changelog matches Some(changelog) ==> package@.changelog == Some(changelog.text@),
        package@.scopes is Some <==> package.scopes is Some,
        package.scopes matches Some(scopes) ==> package@.scopes->0.len() == scopes@.len()
            && forall|i: int|
            0 <= i < scopes@.len() ==> #[trigger] package@.scopes->0[i] == scopes@[i]@,
        package@.ignore_go_major_versioning == package.ignore_go_major_versioning,
{
}

} // verus!
