use knope::package::config::{PackageConfig, Spanned, VersionedFile, VersionedFileError};
use knope::package::{Asset, Assets, ChangelogSection, Name, Package};
use knope::versioned_file::{FileNames, VersionedFileConfig};

fn names() -> FileNames {
    FileNames {
        names: vec!["Cargo.toml".to_string(), "Cargo.lock".to_string()],
    }
}

fn config() -> PackageConfig {
    PackageConfig {
        versioned_files: vec![
            Spanned {
                span: 10..20,
                value: VersionedFile::Simple("a/Cargo.toml".into()),
            },
            Spanned {
                span: 30..45,
                value: VersionedFile::Dependency {
                    path: "Cargo.lock".into(),
                    dependency: "a".to_string(),
                },
            },
        ],
        changelog: Some("a/CHANGELOG.md".into()),
        scopes: Some(vec!["a".to_string()]),
        extra_changelog_sections: vec![ChangelogSection {
            name: "Notes".to_string(),
            footers: vec!["Note".to_string()],
            types: vec![],
        }],
        assets: Some(Assets::List(vec![Asset {
            path: "a.zip".into(),
            name: None,
        }])),
        ignore_go_major_versioning: true,
    }
}

fn read(exist: Vec<bool>, names: &FileNames) -> Result<Package, VersionedFileError> {
    let name = Name::Custom("a".to_string());
    Package::from_toml(name, config(), "the source", &exist, names)
}

#[test]
fn a_configured_package_is_read() {
    let package = read(vec![true, true], &names()).unwrap();
    assert_eq!(package.name, Name::Custom("a".to_string()));
    assert_eq!(
        package.versioned_files,
        vec![
            VersionedFileConfig {
                path: "a/Cargo.toml".into(),
                dependency: None
            },
            VersionedFileConfig {
                path: "Cargo.lock".into(),
                dependency: Some("a".to_string())
            },
        ]
    );
    assert_eq!(package.changelog, config().changelog);
    assert_eq!(package.scopes, config().scopes);
    assert_eq!(
        package.extra_changelog_sections,
        config().extra_changelog_sections
    );
    assert_eq!(package.assets, config().assets);
    assert!(package.ignore_go_major_versioning);
}

#[test]
fn a_missing_file_is_told_with_its_place() {
    assert_eq!(
        read(vec![true, false], &names()).unwrap_err(),
        VersionedFileError::Missing {
            path: "Cargo.lock".to_string(),
            source_code: "the source".to_string(),
            span: 30..45,
        }
    );
}

#[test]
fn an_unknown_file_is_told_with_its_place() {
    let names = FileNames {
        names: vec!["Cargo.lock".to_string()],
    };
    match read(vec![false, false], &names).unwrap_err() {
        VersionedFileError::UnknownFile {
            source,
            source_code,
            span,
        } => {
            assert_eq!(source.path.as_str(), "a/Cargo.toml");
            assert_eq!(source_code, "the source");
            assert_eq!(span, 10..20);
        }
        other => panic!("{:?}", other),
    }
}

#[test]
fn a_configuration_is_written_as_it_was_read() {
    let package = read(vec![true, true], &names()).unwrap();
    let mut expected = config();
    for file in expected.versioned_files.iter_mut() {
        file.span = 0..0;
    }
    assert_eq!(PackageConfig::from(package), expected);
}

#[test]
fn a_package_is_read_as_it_was_written() {
    let package = read(vec![true, true], &names()).unwrap();
    let written = PackageConfig::from(read(vec![true, true], &names()).unwrap());
    let name = Name::Custom("a".to_string());
    let again = Package::from_toml(name, written, "", &vec![true, true], &names()).unwrap();
    assert_eq!(again, package);
}

#[test]
fn file_names_are_the_last_components() {
    let known = names();
    for path in ["Cargo.toml", "a/Cargo.toml", "a/Cargo.toml/", "Cargo.toml/./", "//Cargo.lock"] {
        assert!(known.know(path), "{}", path);
    }
    for path in ["", ".", "a/..", "Cargo.toml/..", "Cargo.toml/a", "xCargo.toml", "cargo.toml"] {
        assert!(!known.know(path), "{}", path);
    }
}

#[test]
fn a_copy_of_a_package_is_the_package() {
    let package = read(vec![true, true], &names()).unwrap();
    assert_eq!(package.clone(), package);
    let copied = package.clone();
    assert_eq!(copied.extra_changelog_sections, config().extra_changelog_sections);
    assert_eq!(copied.assets, config().assets);
    let glob = Package {
        assets: Some(Assets::Glob("*.zip".to_string())),
        ..Package::default()
    };
    assert_eq!(glob.clone(), glob);
    assert_ne!(glob, package);
}

#[test]
fn paths_are_compared_by_their_components() {
    let config = |path: &str| VersionedFileConfig {
        path: path.into(),
        dependency: None,
    };
    assert_eq!(config("a//Cargo.toml/"), config("a/Cargo.toml"));
    assert_eq!(config("/a/Cargo.toml"), config("a/Cargo.toml"));
    assert_ne!(config("./a/Cargo.toml"), config("a/Cargo.toml"));
    assert_ne!(config("a/../Cargo.toml"), config("Cargo.toml"));
    let with_changelog = |path: &str| Package {
        changelog: Some(path.into()),
        ..Package::default()
    };
    assert_eq!(with_changelog("a//b.md"), with_changelog("a/b.md"));
    assert_ne!(with_changelog("a/b.md"), with_changelog("b.md"));
}
