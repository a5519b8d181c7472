//! Packages as a configuration file describes them.

use std::ops::Range;

use vstd::prelude::*;

use crate::package;
use crate::package::workspace;
use crate::package::{Assets, ChangelogSection, Name, Package, PackageView};
use crate::path;
use crate::path::RelativePathBuf;
use crate::text;
use crate::versioned_file;
use crate::versioned_file::{FileNames, FileView, UnknownFile, VersionedFileConfig};

verus! {

/// A versioned file as a configuration file gives it.
#[derive(Debug, PartialEq, Eq)]
pub enum VersionedFile {
    /// A file that carries the version of the package.
    Simple(RelativePathBuf),
    /// A file that carries the version of a dependency.
    Dependency { path: RelativePathBuf, dependency: String },
}

/// A versioned file as a configuration file gives it.
pub open spec fn versioned_file_view(file: VersionedFile) -> FileView {
    match file {
        VersionedFile::Simple(path) => FileView { path: path@, dependency: None },
        VersionedFile::Dependency { path, dependency } => FileView {
            path: path@,
            dependency: Some(dependency@),
        },
    }
}

/// A versioned file and where it stands in the configuration file.
#[derive(Debug, PartialEq, Eq)]
pub struct Spanned {
    pub span: Range<usize>,
    pub value: VersionedFile,
}

/// The files that a sequence of entries stands for.
pub open spec fn spanned_views(files: Seq<Spanned>) -> Seq<FileView> {
    files.map_values(|file: Spanned| versioned_file_view(file.value))
}

/// A package as a configuration file describes it.
#[derive(Debug, PartialEq, Eq)]
pub struct PackageConfig {
    pub versioned_files: Vec<Spanned>,
    pub changelog: Option<RelativePathBuf>,
    pub scopes: Option<Vec<String>>,
    pub extra_changelog_sections: Vec<ChangelogSection>,
    pub assets: Option<Assets>,
    pub ignore_go_major_versioning: bool,
}

/// Why a package cannot have a versioned file that is configured.
#[derive(Debug, PartialEq, Eq)]
pub enum VersionedFileError {
    /// The format of the file is not known.
    UnknownFile { source: UnknownFile, source_code: String, span: Range<usize> },
    /// The file does not exist.
    Missing { path: String, source_code: String, span: Range<usize> },
}

/// Why a package cannot have a versioned file that is configured, and where the
/// file stands in the configuration file.
pub enum VersionedFileErrorView {
    UnknownFile(Seq<char>, Seq<char>, Range<usize>),
    Missing(Seq<char>, Seq<char>, Range<usize>),
}

impl View for VersionedFileError {
    type V = VersionedFileErrorView;

    open spec fn view(&self) -> VersionedFileErrorView {
        match *self {
            VersionedFileError::UnknownFile { source, source_code, span } => {
                VersionedFileErrorView::UnknownFile(source.path@, source_code@, span)
            },
            VersionedFileError::Missing { path, source_code, span } => {
                VersionedFileErrorView::Missing(path@, source_code@, span)
            },
        }
    }
}

/// The versioned files from `at` on, up to the first one that the package cannot
/// have.
pub open spec fn usable_files_from(
    files: Seq<Spanned>,
    exist: Seq<bool>,
    at: nat,
    source_code: Seq<char>,
    names: Seq<Seq<char>>,
) -> Result<Seq<FileView>, VersionedFileErrorView>
    decreases files.len() - at,
{
    if at >= files.len() {
        Ok(Seq::empty())
    } else {
        let file = versioned_file_view(files[at as int].value);
        let span = files[at as int].span;
        if !versioned_file::is_known(file.path, names) {
            Err(VersionedFileErrorView::UnknownFile(file.path, source_code, span))
        } else if at < exist.len() && exist[at as int] {
            workspace::prepend(
                seq![file],
                usable_files_from(files, exist, at + 1, source_code, names),
            )
        } else {
            Err(VersionedFileErrorView::Missing(file.path, source_code, span))
        }
    }
}

/// The package `name` that `config` describes.
pub open spec fn configured_package(
    name: Name,
    config: PackageConfig,
    exist: Seq<bool>,
    source_code: Seq<char>,
    names: Seq<Seq<char>>,
) -> Result<PackageView, VersionedFileErrorView> {
    match usable_files_from(config.versioned_files@, exist, 0, source_code, names) {
        Ok(files) => Ok(
            PackageView {
                name: package::name_view(name),
                versioned_files: files,
                changelog: path::option_view(config.changelog),
                scopes: package::scopes_view(config.scopes),
                extra_changelog_sections: package::section_views(
                    config.extra_changelog_sections@,
                ),
                assets: package::assets_view(config.assets),
                ignore_go_major_versioning: config.ignore_go_major_versioning,
            },
        ),
        Err(error) => Err(error),
    }
}

/// Whether `config` describes `package`, with no place in a configuration file
/// for its versioned files.
pub open spec fn describes(config: PackageConfig, package: PackageView) -> bool {
    &&& spanned_views(config.versioned_files@) == package.versioned_files
    &&& forall|i: int|
        0 <= i < config.versioned_files@.len() ==> (#[trigger] config.versioned_files@[i]).span
            == (Range { start: 0usize, end: 0usize })
    &&& path::option_view(config.changelog) == package.changelog
    &&& package::scopes_view(config.scopes) == package.scopes
    &&& package::section_views(config.extra_changelog_sections@)
        == package.extra_changelog_sections
    &&& package::assets_view(config.assets) == package.assets
    &&& config.ignore_go_major_versioning == package.ignore_go_major_versioning
}

impl VersionedFileConfig {
    /// The versioned file that a configuration file gives.
    pub fn try_from(file: VersionedFile, names: &FileNames) -> (result: Result<
        VersionedFileConfig,
        UnknownFile,
    >)
        ensures
            result is Ok <==> versioned_file::is_known(versioned_file_view(file).path, names@),
            match result {
                Ok(config) => config@ == versioned_file_view(file),
                Err(unknown) => unknown.path@ == versioned_file_view(file).path,
            },
    {
        match file {
            VersionedFile::Simple(path) => VersionedFileConfig::new(path, None, names),
            VersionedFile::Dependency { path, dependency } => VersionedFileConfig::new(
                path,
                Some(dependency),
                names,
            ),
        }
    }
}

/// A versioned file as a configuration file gives it.
fn to_versioned_file(file: VersionedFileConfig) -> (given: VersionedFile)
    ensures
        versioned_file_view(given) == file@,
{
    match file.dependency {
        Some(dependency) => VersionedFile::Dependency { path: file.path, dependency },
        None => VersionedFile::Simple(file.path),
    }
}

impl Package {
    /// The package `name` that `package` describes in the configuration file
    /// `source_code`.  `exist` tells, for each of its versioned files in order,
    /// whether it exists.
    pub fn from_toml(
        name: Name,
        package: PackageConfig,
        source_code: &str,
        exist: &Vec<bool>,
        names: &FileNames,
    ) -> (result: Result<Package, VersionedFileError>)
        ensures
            match result {
                Ok(made) => configured_package(name, package, exist@, source_code@, names@) == Ok::<
                    PackageView,
                    VersionedFileErrorView,
                >(made@),
                Err(error) => configured_package(name, package, exist@, source_code@, names@)
                    == Err::<PackageView, VersionedFileErrorView>(error@),
            },
    {
        let given = package.versioned_files;
        let ghost all = usable_files_from(given@, exist@, 0, source_code@, names@);
        let mut versioned_files: Vec<VersionedFileConfig> = Vec::new();
        let mut at: usize = 0;
        proof {
            assert(versioned_file::file_views(versioned_files@) =~= Seq::empty());
            workspace::lemma_prepend_empty(all);
        }
        for spanned in iter: given
            invariant
                iter.seq() == given@,
                at == iter.index(),
                at <= given@.len(),
                all == usable_files_from(given@, exist@, 0, source_code@, names@),
                all == usable_files_from(package.versioned_files@, exist@, 0, source_code@, names@),
                workspace::prepend(
                    versioned_file::file_views(versioned_files@),
                    usable_files_from(given@, exist@, at as nat, source_code@, names@),
                ) == all,
        {
            let span = spanned.span;
            assert(given@[at as int] == spanned);
            match VersionedFileConfig::try_from(spanned.value, names) {
                Ok(file) => {
                    let found = at < exist.len() && exist[at];
                    if !found {
                        return Err(
                            VersionedFileError::Missing {
                                path: file.path.text,
                                source_code: source_code.to_string(),
                                span,
                            },
                        );
                    }
                    let ghost before = versioned_file::file_views(versioned_files@);
                    versioned_files.push(file);
                    proof {
                        assert(versioned_file::file_views(versioned_files@) =~= before
                            + seq![file@]);
                        workspace::lemma_prepend_twice(
                            before,
                            seq![file@],
                            usable_files_from(
                                given@,
                                exist@,
                                (at + 1) as nat,
                                source_code@,
                                names@,
                            ),
                        );
                    }
                },
                Err(source) => {
                    return Err(
                        VersionedFileError::UnknownFile {
                            source,
                            source_code: source_code.to_string(),
                            span,
                        },
                    );
                },
            }
            at = at + 1;
        }
        assert(versioned_file::file_views(versioned_files@) + Seq::empty()
            =~= versioned_file::file_views(versioned_files@));
        Ok(
            Package {
                name,
                versioned_files,
                changelog: package.changelog,
                scopes: package.scopes,
                extra_changelog_sections: package.extra_changelog_sections,
                assets: package.assets,
                ignore_go_major_versioning: package.ignore_go_major_versioning,
            },
        )
    }
}

impl vstd::std_specs::convert::FromSpecImpl<Package> for PackageConfig {
    open spec fn obeys_from_spec() -> bool {
        false
    }

    open spec fn from_spec(package: Package) -> PackageConfig {
        arbitrary()
    }
}

impl From<Package> for PackageConfig {
    fn from(package: Package) -> (config: PackageConfig)
        ensures
            describes(config, package@),
    {
        let files = package.versioned_files;
        let ghost views = versioned_file::file_views(files@);
        let mut versioned_files: Vec<Spanned> = Vec::new();
        for file in iter: files
            invariant
                iter.seq() == files@,
                views == versioned_file::file_views(files@),
                spanned_views(versioned_files@) == views.take(iter.index() as int),
                forall|i: int|
                    0 <= i < versioned_files@.len() ==> (#[trigger] versioned_files@[i]).span
                        == (Range { start: 0usize, end: 0usize }),
        {
            let ghost before = spanned_views(versioned_files@);
            assert(views.take(iter.index() + 1) =~= views.take(iter.index() as int).push(file@));
            let value = to_versioned_file(file);
            versioned_files.push(Spanned { span: 0..0, value });
            assert(spanned_views(versioned_files@) =~= before.push(file@));
        }
        assert(views.take(views.len() as int) =~= views);
        PackageConfig {
            versioned_files,
            changelog: package.changelog,
            scopes: package.scopes,
            extra_changelog_sections: package.extra_changelog_sections,
            assets: package.assets,
            ignore_go_major_versioning: package.ignore_go_major_versioning,
        }
    }
}

proof fn lemma_usable_files(
    files: Seq<Spanned>,
    exist: Seq<bool>,
    at: nat,
    source_code: Seq<char>,
    names: Seq<Seq<char>>,
)
    requires
        at <= files.len(),
    ensures
        usable_files_from(files, exist, at, source_code, names) matches Ok(usable) ==> usable
            == spanned_views(files).skip(at as int),
        (forall|i: int|
            at <= i < files.len() ==> versioned_file::is_known(
                versioned_file_view((#[trigger] files[i]).value).path,
                names,
            ) && i < exist.len() && exist[i]) ==> usable_files_from(
            files,
            exist,
            at,
            source_code,
            names,
        ) is Ok,
    decreases files.len() - at,
{
    let views = spanned_views(files);
    if at < files.len() {
        lemma_usable_files(files, exist, at + 1, source_code, names);
        assert(views.skip(at as int) =~= seq![views[at as int]] + views.skip((at + 1) as int));
    } else {
        assert(views.skip(at as int) =~= Seq::empty());
    }
}

/// Writing the configuration of a package that was read from one gives what was
/// read, but for the places of the versioned files.
pub proof fn law_configuration_is_written_as_read(
    name: Name,
    read: PackageConfig,
    exist: Seq<bool>,
    source_code: Seq<char>,
    names: Seq<Seq<char>>,
    written: PackageConfig,
)
    requires
        configured_package(name, read, exist, source_code, names) is Ok,
        describes(written, configured_package(name, read, exist, source_code, names)->Ok_0),
    ensures
        spanned_views(written.versioned_files@) == spanned_views(read.versioned_files@),
        path::option_view(written.changelog) == path::option_view(read.changelog),
        package::scopes_view(written.scopes) == package::scopes_view(read.scopes),
        package::section_views(written.extra_changelog_sections@) == package::section_views(
            read.extra_changelog_sections@,
        ),
        package::assets_view(written.assets) == package::assets_view(read.assets),
        written.ignore_go_major_versioning == read.ignore_go_major_versioning,
{
    lemma_usable_files(read.versioned_files@, exist, 0, source_code, names);
    assert(spanned_views(read.versioned_files@).skip(0) =~= spanned_views(read.versioned_files@));
}

/// Reading the configuration that was written for a package gives the same
/// package where its versioned files exist and their formats are known.
pub proof fn law_package_is_read_as_written(
    name: Name,
    package: PackageView,
    written: PackageConfig,
    exist: Seq<bool>,
    source_code: Seq<char>,
    names: Seq<Seq<char>>,
)
    requires
        describes(written, package),
        package::name_view(name) == package.name,
        forall|i: int|
            0 <= i < package.versioned_files.len() ==> versioned_file::is_known(
                (#[trigger] package.versioned_files[i]).path,
                names,
            ) && i < exist.len() && exist[i],
    ensures
        configured_package(name, written, exist, source_code, names) == Ok::<
            PackageView,
            VersionedFileErrorView,
        >(package),
{
    let files = written.versioned_files@;
    assert forall|i: int| 0 <= i < files.len() implies versioned_file::is_known(
        versioned_file_view((#[trigger] files[i]).value).path,
        names,
    ) && i < exist.len() && exist[i] by {
        assert(spanned_views(files)[i] == versioned_file_view(files[i].value));
        assert(package.versioned_files[i] == versioned_file_view(files[i].value));
    }
    lemma_usable_files(files, exist, 0, source_code, names);
    assert(spanned_views(files).skip(0) =~= spanned_views(files));
}

/// The first file from `from` on that the package cannot have is `at`.
spec fn file_fails_first(
    files: Seq<Spanned>,
    exist: Seq<bool>,
    from: int,
    at: int,
    source_code: Seq<char>,
    names: Seq<Seq<char>>,
    error: VersionedFileErrorView,
) -> bool {
    &&& from <= at < files.len()
    &&& error == if versioned_file::is_known(versioned_file_view(files[at].value).path, names) {
        VersionedFileErrorView::Missing(
            versioned_file_view(files[at].value).path,
            source_code,
            files[at].span,
        )
    } else {
        VersionedFileErrorView::UnknownFile(
            versioned_file_view(files[at].value).path,
            source_code,
            files[at].span,
        )
    }
    &&& !is_there(files, exist, at, names)
    &&& forall|i: int| from <= i < at ==> #[trigger] is_there(files, exist, i, names)
}

/// Whether the package can have the file at `at`.
spec fn is_there(
    files: Seq<Spanned>,
    exist: Seq<bool>,
    at: int,
    names: Seq<Seq<char>>,
) -> bool {
    versioned_file::is_known(versioned_file_view(files[at].value).path, names) && at < exist.len()
        && exist[at]
}

proof fn lemma_file_fails_first(
    files: Seq<Spanned>,
    exist: Seq<bool>,
    at: nat,
    source_code: Seq<char>,
    names: Seq<Seq<char>>,
)
    requires
        at <= files.len(),
    ensures
        match usable_files_from(files, exist, at, source_code, names) {
            Ok(_) => forall|i: int|
                at <= i < files.len() ==> #[trigger] is_there(files, exist, i, names),
            Err(error) => exists|k: int| #[trigger]
                file_fails_first(files, exist, at as int, k, source_code, names, error),
        },
    decreases files.len() - at,
{
    if at < files.len() {
        lemma_file_fails_first(files, exist, at + 1, source_code, names);
        match usable_files_from(files, exist, at, source_code, names) {
            Ok(_) => {
                assert(is_there(files, exist, at as int, names));
            },
            Err(error) => {
                if is_there(files, exist, at as int, names) {
                    let k = choose|k: int| #[trigger]
                        file_fails_first(
                            files,
                            exist,
                            (at + 1) as int,
                            k,
                            source_code,
                            names,
                            error,
                        );
                    assert(file_fails_first(
                        files,
                        exist,
                        at as int,
                        k,
                        source_code,
                        names,
                        error,
                    ));
                } else {
                    assert(file_fails_first(
                        files,
                        exist,
                        at as int,
                        at as int,
                        source_code,
                        names,
                        error,
                    ));
                }
            },
        }
    }
}

/// What a package is made of: everything that its configuration gives, its
/// versioned files one for one and in order.
pub proof fn law_package_has_all_that_is_configured(
    name: Name,
    config: PackageConfig,
    exist: Seq<bool>,
    source_code: Seq<char>,
    names: Seq<Seq<char>>,
)
    ensures
        configured_package(name, config, exist, source_code, names) matches Ok(package) ==> {
            &&& package.name == match name {
                Name::Default => None,
                Name::Custom(name) => Some(name@),
            }
            &&& package.versioned_files.len() == config.versioned_files@.len()
            &&& forall|i: int|
                0 <= i < config.versioned_files@.len() ==> #[trigger] package.versioned_files[i]
                    == match config.versioned_files@[i].value {
                    VersionedFile::Simple(path) => FileView { path: path@, dependency: None },
                    VersionedFile::Dependency { path, dependency } => FileView {
                        path: path@,
                        dependency: Some(dependency@),
                    },
                }
            &&& package.changelog == match config.changelog {
                Some(changelog) => Some(changelog@),
                None => None,
            }
            &&& package.scopes is Some <==> config.scopes is Some
            &&& config.scopes matches Some(scopes) ==> package.scopes->0.len() == scopes@.len()
                && forall|i: int|
                0 <= i < scopes@.len() ==> #[trigger] package.scopes->0[i] == scopes@[i]@
            &&& package.extra_changelog_sections.len() == config.extra_changelog_sections@.len()
            &&& forall|i: int|
                0 <= i < config.extra_changelog_sections@.len()
                    ==> #[trigger] package.extra_changelog_sections[i]
                    == config.extra_changelog_sections@[i]@
            &&& package.assets == match config.assets {
                Some(assets) => Some(assets@),
                None => None,
            }
            &&& package.ignore_go_major_versioning == config.ignore_go_major_versioning
        },
{
    lemma_usable_files(config.versioned_files@, exist, 0, source_code, names);
    let views = spanned_views(config.versioned_files@);
    assert(views.skip(0) =~= views);
}

/// A package is made exactly where every one of its versioned files has a known
/// format and exists.  Otherwise the first one that lacks either is told, with
/// its place: as unknown where the format is not known, or else as missing.
pub proof fn law_every_configured_file_has_to_be_there(
    name: Name,
    config: PackageConfig,
    exist: Seq<bool>,
    source_code: Seq<char>,
    names: Seq<Seq<char>>,
)
    ensures
        ({
            let files = config.versioned_files@;
            match configured_package(name, config, exist, source_code, names) {
                Ok(_) => forall|i: int|
                    0 <= i < files.len() ==> versioned_file::is_known(
                        versioned_file_view((#[trigger] files[i]).value).path,
                        names,
                    ) && i < exist.len() && exist[i],
                Err(error) => exists|k: int|
                    #![trigger files[k]]
                    0 <= k < files.len() && (match error {
                        VersionedFileErrorView::UnknownFile(path, source, span) => {
                            &&& path == versioned_file_view(files[k].value).path
                            &&& source == source_code
                            &&& span == files[k].span
                            &&& !versioned_file::is_known(path, names)
                        },
                        VersionedFileErrorView::Missing(path, source, span) => {
                            &&& path == versioned_file_view(files[k].value).path
                            &&& source == source_code
                            &&& span == files[k].span
                            &&& versioned_file::is_known(path, names)
                            &&& !(k < exist.len() && exist[k])
                        },
                    }) && forall|i: int|
                        0 <= i < k ==> versioned_file::is_known(
                            versioned_file_view((#[trigger] files[i]).value).path,
                            names,
                        ) && i < exist.len() && exist[i],
            }
        }),
{
    let files = config.versioned_files@;
    lemma_file_fails_first(files, exist, 0, source_code, names);
    match usable_files_from(files, exist, 0, source_code, names) {
        Ok(_) => {
            assert forall|i: int| 0 <= i < files.len() implies versioned_file::is_known(
                versioned_file_view((#[trigger] files[i]).value).path,
                names,
            ) && i < exist.len() && exist[i] by {
                assert(is_there(files, exist, i, names));
            }
        },
        Err(error) => {
            let k = choose|k: int| #[trigger]
                file_fails_first(files, exist, 0, k, source_code, names, error);
            assert forall|i: int| 0 <= i < k implies versioned_file::is_known(
                versioned_file_view((#[trigger] files[i]).value).path,
                names,
            ) && i < exist.len() && exist[i] by {
                assert(is_there(files, exist, i, names));
            }
        },
    }
}

/// The configuration of a package gives every versioned file of it, one for one
/// and in order, and everything else that the package has.
pub proof fn law_configuration_has_all_of_the_package(
    config: PackageConfig,
    package: PackageView,
)
    requires
        describes(config, package),
    ensures
        config.versioned_files@.len() == package.versioned_files.len(),
        forall|i: int|
            0 <= i < package.versioned_files.len() ==> (
            match (#[trigger] config.versioned_files@[i]).value {
                VersionedFile::Simple(path) => package.versioned_files[i].path == path@
                    && package.versioned_files[i].dependency is None,
                VersionedFile::Dependency { path, dependency } => package.versioned_files[i].path
                    == path@ && package.versioned_files[i].dependency == Some(dependency@),
            }),
        forall|i: int|
            0 <= i < config.versioned_files@.len() ==> (
            #[trigger] config.versioned_files@[i]).span.start == 0
                && config.versioned_files@[i].span.end == 0,
        config.changelog is Some <==> package.changelog is Some,
        config.changelog matches Some(changelog) ==> package.changelog == Some(changelog@),
        config.scopes is Some <==> package.scopes is Some,
        config.scopes matches Some(scopes) ==> package.scopes->0.len() == scopes@.len() && forall|
            i: int,
        |
            0 <= i < scopes@.len() ==> #[trigger] package.scopes->0[i] == scopes@[i]@,
        config.extra_changelog_sections@.len() == package.extra_changelog_sections.len(),
        forall|i: int|
            0 <= i < config.extra_changelog_sections@.len() ==> (
            #[trigger] config.extra_changelog_sections@[i])@ == package.extra_changelog_sections[i],
        config.assets is Some <==> package.assets is Some,
        config.assets matches Some(assets) ==> package.assets == Some(assets@),
        config.ignore_go_major_versioning == package.ignore_go_major_versioning,
{
    let views = spanned_views(config.versioned_files@);
    assert forall|i: int| 0 <= i < package.versioned_files.len() implies (
    match (#[trigger] config.versioned_files@[i]).value {
        VersionedFile::Simple(path) => package.versioned_files[i].path == path@
            && package.versioned_files[i].dependency is None,
        VersionedFile::Dependency { path, dependency } => package.versioned_files[i].path == path@
            && package.versioned_files[i].dependency == Some(dependency@),
    }) by {
        assert(views[i] == package.versioned_files[i]);
    }
    let sections = package::section_views(config.extra_changelog_sections@);
    assert(sections == package.extra_changelog_sections);
}

} // verus!
