//! The files that carry the version of a package.

use vstd::prelude::*;

use crate::path;
use crate::path::RelativePathBuf;
use crate::text;

verus! {

/// The names of the files whose formats are known.
#[derive(Debug)]
pub struct FileNames {
    pub names: Vec<String>,
}

impl View for FileNames {
    type V = Seq<Seq<char>>;

    open spec fn view(&self) -> Seq<Seq<char>> {
        text::string_views(self.names@)
    }
}

/// Whether the file at `path` has a known name.
pub open spec fn is_known(path: Seq<char>, names: Seq<Seq<char>>) -> bool {
    path::name_in(path) matches Some(name) && names.contains(name)
}

impl FileNames {
    /// Whether the file at `path` has a known name.
    pub fn know(&self, path: &str) -> (known: bool)
        ensures
            known == is_known(path@, self@),
    {
        match path::file_name(path) {
            Some(name) => text::contains_string(&self.names, name.as_str()),
            None => false,
        }
    }
}

/// A file whose name says nothing of its format.
#[derive(Debug, PartialEq, Eq)]
pub struct UnknownFile {
    pub path: RelativePathBuf,
}

/// A file that carries the version of a package, or the version of it that
/// another package depends on.
#[derive(Debug, PartialEq, Eq)]
pub struct VersionedFileConfig {
    pub path: RelativePathBuf,
    /// The package whose version is meant, where it is a dependency of the
    /// package that the file belongs to.
    pub dependency: Option<String>,
}

/// A file that carries a version.
pub struct FileView {
    pub path: Seq<char>,
    pub dependency: Option<Seq<char>>,
}

impl View for VersionedFileConfig {
    type V = FileView;

    open spec fn view(&self) -> FileView {
        FileView { path: self.path@, dependency: text::option_view(self.dependency) }
    }
}

/// The files that a sequence of configurations stands for.
pub open spec fn file_views(files: Seq<VersionedFileConfig>) -> Seq<FileView> {
    files.map_values(|file: VersionedFileConfig| file@)
}

impl VersionedFileConfig {
    /// The file at `path`, for the package itself or for a dependency.
    pub fn new(
        path: RelativePathBuf,
        dependency: Option<String>,
        names: &FileNames,
    ) -> (result: Result<VersionedFileConfig, UnknownFile>)
        ensures
            result is Ok <==> is_known(path@, names@),
            match result {
                Ok(file) => file.path == path && file.dependency == dependency,
                Err(unknown) => unknown.path == path,
            },
    {
        if names.know(path.as_str()) {
            Ok(VersionedFileConfig { path, dependency })
        } else {
            Err(UnknownFile { path })
        }
    }
}

impl Clone for VersionedFileConfig {
    fn clone(&self) -> (file: VersionedFileConfig)
        ensures
            file@ == self@,
    {
        VersionedFileConfig { path: self.path.clone(), dependency: self.dependency.clone() }
    }
}

/// A copy of `files`.
pub fn copy_files(files: &Vec<VersionedFileConfig>) -> (copies: Vec<VersionedFileConfig>)
    ensures
        file_views(copies@) == file_views(files@),
{
    let mut copies: Vec<VersionedFileConfig> = Vec::new();
    let mut at: usize = 0;
    while at < files.len()
        invariant
            at <= files.len(),
            copies.len() == at,
            forall|i: int| 0 <= i < at ==> (#[trigger] copies[i])@ == files[i]@,
        decreases files.len() - at,
    {
        copies.push(files[at].clone());
        at = at + 1;
    }
    assert(file_views(copies@) =~= file_views(files@));
    copies
}

/// A file in any directory has a known format exactly where its name is among the
/// known ones.
pub proof fn law_file_is_known_by_its_name(
    directory: Seq<char>,
    name: Seq<char>,
    names: Seq<Seq<char>>,
)
    requires
        path::is_bare_name(name),
    ensures
        is_known(path::joined(directory, name), names) <==> exists|i: int|
            0 <= i < names.len() && #[trigger] names[i] == name,
        path::joined(Seq::empty(), name) == name,
{
    path::law_joined_name_is_found(directory, name);
    assert(path::joined(Seq::empty(), name) =~= name);
    if names.contains(name) {
        let i = choose|i: int| 0 <= i < names.len() && names[i] == name;
        assert(names[i] == name);
    }
}

} // verus!
