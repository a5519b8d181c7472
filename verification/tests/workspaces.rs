use knope::json::{parse, Json};
use knope::package::cargo_workspace;
use knope::package::cargo_workspace::CargoWorkspaceError;
use knope::package::deno_workspace;
use knope::package::deno_workspace::DenoWorkspaceError;
use knope::package::discovery::{DefaultFile, Error};
use knope::package::npm_workspace;
use knope::package::npm_workspace::NPMWorkspaceError;
use knope::package::workspace::{FoundFile, PatternMatches, Workspace};
use knope::package::{Name, Package};
use knope::toml::parse_toml;
use knope::versioned_file::{FileNames, UnknownFile, VersionedFileConfig};

fn known() -> FileNames {
    FileNames {
        names: [
            "Cargo.toml",
            "Cargo.lock",
            "package.json",
            "package-lock.json",
            "deno.json",
            "deno.jsonc",
            "deno.lock",
        ]
        .iter()
        .map(|name| name.to_string())
        .collect(),
    }
}

fn known_but(missing: &str) -> FileNames {
    let mut names = known();
    names.names.retain(|name| name != missing);
    names
}

fn file(path: &str, dependency: Option<&str>) -> VersionedFileConfig {
    VersionedFileConfig {
        path: path.into(),
        dependency: dependency.map(|name| name.to_string()),
    }
}

fn found(path: &str, contents: &str) -> FoundFile {
    FoundFile::new(path.to_string(), Some(contents.to_string()))
}

fn unreadable(path: &str) -> FoundFile {
    FoundFile::new(path.to_string(), None)
}

fn matches_of<T>(pattern: &str, found: Vec<T>) -> PatternMatches<T> {
    PatternMatches {
        pattern: pattern.to_string(),
        found: Ok(found),
    }
}

fn bad_pattern<T>() -> PatternMatches<T> {
    PatternMatches {
        pattern: "***".to_string(),
        found: Err(glob::Pattern::new("***").unwrap_err()),
    }
}

fn workspace(path: &str, contents: &str) -> Workspace {
    Workspace {
        path: path.into(),
        value: parse(contents).unwrap(),
    }
}

fn member(name: &str, files: Vec<VersionedFileConfig>, changelog: Option<&str>) -> Package {
    Package {
        name: Name::Custom(name.to_string()),
        versioned_files: files,
        changelog: changelog.map(|path| path.into()),
        scopes: Some(vec![name.to_string()]),
        ..Package::default()
    }
}

#[test]
fn try_read_deno_config_file_supports_jsonc() {
    let file_path = "temp/deno.jsonc";
    let contents =
        "{\n  // comment\n  \"name\": \"@scope/package\",\n  \"version\": \"1.0.0\"\n}\n";

    let result = Package::try_read_deno_config_file(found(file_path, contents)).unwrap();
    let (path, json) = result.expect("file should parse");

    assert!(path.as_str().ends_with("deno.jsonc"));
    assert_eq!(
        json.get("name"),
        Some(&Json::Str("@scope/package".into()))
    );
}

#[test]
fn a_configuration_that_cannot_be_read_is_none() {
    assert!(Package::try_read_deno_config_file(unreadable("a/deno.json"))
        .unwrap()
        .is_none());
}

#[test]
fn a_configuration_that_is_no_json_is_an_error() {
    match Package::try_read_deno_config_file(found("a/deno.json", "{// \n")) {
        Err(DenoWorkspaceError::Json { path, source }) => {
            assert_eq!(path.as_str(), "a/deno.json");
            assert_eq!(source.line, 2);
        }
        other => panic!("{:?}", other),
    }
}

#[test]
fn a_configuration_that_is_not_below_the_working_directory_is_an_error() {
    let file = found("/a/deno.json", "{}");
    assert_eq!(file.relative, None);
    match Package::try_read_deno_config_file(file) {
        Err(DenoWorkspaceError::UnknownFile(unknown)) => assert_eq!(unknown.path.as_str(), "/a/deno.json"),
        other => panic!("{:?}", other),
    }
}

#[test]
fn paths_are_told_from_the_working_directory_on() {
    let told = |path: &str| found(path, "").relative.map(|path| path.text);
    assert_eq!(
        told("./a//b/./deno.json"),
        Some("a/b/deno.json".to_string())
    );
    assert_eq!(told("a/b.c"), Some("a/b.c".to_string()));
    assert_eq!(told("../a"), Some("../a".to_string()));
    assert_eq!(
        told("./package.json"),
        Some("package.json".to_string())
    );
    assert_eq!(
        told("a/../b/c/"),
        Some("a/../b/c".to_string())
    );
    assert_eq!(told("./../a"), Some("../a".to_string()));
    assert_eq!(told(".a/.../b"), Some(".a/.../b".to_string()));
    assert_eq!(told("."), Some(String::new()));
    assert_eq!(told("././/."), Some(String::new()));
    assert_eq!(told(""), Some("..".to_string()));
    assert_eq!(told("/"), None);
    assert_eq!(told("//a"), None);
}

#[test]
fn the_first_configuration_that_can_be_read_wins() {
    assert_eq!(
        deno_workspace::config_file_names(),
        vec!["deno.json", "deno.jsonc", "package.json"]
    );
    let (path, _) = Package::read_deno_config_files(vec![
        unreadable("a/deno.json"),
        found("a/deno.jsonc", "{}"),
        found("a/package.json", "no"),
    ])
    .unwrap()
    .unwrap();
    assert_eq!(path.as_str(), "a/deno.jsonc");
    assert!(Package::read_deno_config_files(vec![
        found("a/deno.json", "no"),
        found("a/deno.jsonc", "{}"),
    ])
    .is_err());
    assert!(Package::read_deno_config_files(vec![unreadable("a/deno.json")])
        .unwrap()
        .is_none());
}

#[test]
fn patterns_are_the_texts_in_the_array() {
    assert_eq!(
        npm_workspace::read_patterns(Some(r#"{"workspaces": ["a/*", 1, "b"]}"#)),
        Some(vec!["a/*".to_string(), "b".to_string()])
    );
    assert_eq!(
        npm_workspace::read_patterns(Some(r#"{"workspaces": {"packages": []}}"#)),
        None
    );
    assert_eq!(npm_workspace::read_patterns(Some("{} // x")), None);
    assert_eq!(npm_workspace::read_patterns(None), None);
    assert_eq!(
        deno_workspace::read_patterns(Some("{\"workspace\": [\"./a\"]} // x"), None),
        Some(vec!["./a".to_string()])
    );
    assert_eq!(
        deno_workspace::read_patterns(Some("{\"workspace\":"), None),
        None
    );
    assert_eq!(deno_workspace::read_patterns(Some("{}"), None), None);
    assert_eq!(deno_workspace::read_patterns(None, None), None);
}

#[test]
fn deno_json_wins_over_deno_jsonc() {
    let json = r#"{"workspace": ["a"]}"#;
    let jsonc = r#"{"workspace": ["b"]}"#;
    assert_eq!(
        deno_workspace::read_patterns(Some(json), Some(jsonc)),
        Some(vec!["a".to_string()])
    );
    assert_eq!(
        deno_workspace::read_patterns(None, Some(jsonc)),
        Some(vec!["b".to_string()])
    );
    assert_eq!(
        deno_workspace::read_patterns(Some("{}"), Some(jsonc)),
        None
    );
}

#[test]
fn npm_packages_know_their_dependents() {
    let packages = Package::npm_workspaces(
        Some(r#"{"workspaces": ["packages/*"]}"#),
        vec![matches_of(
            "packages/*",
            vec![
                found("packages/a/package.json", r#"{"name": "a"}"#),
                unreadable("packages/x/package.json"),
                found("packages/y/package.json", "no json"),
                found("/packages/z/package.json", r#"{"name": "z"}"#),
                found(
                    "packages/b/package.json",
                    r#"{"name": "b", "dependencies": {"a": "1"}}"#,
                ),
                found(
                    "packages/c/package.json",
                    r#"{"name": "c", "devDependencies": {"a": "1", "b": "2"}}"#,
                ),
            ],
        )],
        true,
        &known(),
    )
    .unwrap();
    assert_eq!(
        packages,
        vec![
            member(
                "a",
                vec![
                    file("packages/a/package.json", None),
                    file("package-lock.json", Some("a")),
                    file("packages/b/package.json", Some("a")),
                    file("packages/c/package.json", Some("a")),
                ],
                Some("packages/a/CHANGELOG.md"),
            ),
            member(
                "b",
                vec![
                    file("packages/b/package.json", None),
                    file("package-lock.json", Some("b")),
                    file("packages/c/package.json", Some("b")),
                ],
                Some("packages/b/CHANGELOG.md"),
            ),
            member(
                "c",
                vec![
                    file("packages/c/package.json", None),
                    file("package-lock.json", Some("c")),
                ],
                Some("packages/c/CHANGELOG.md"),
            ),
        ]
    );
}

#[test]
fn an_npm_package_needs_a_name() {
    let workspaces = vec![
        workspace("a/package.json", r#"{"name": "a"}"#),
        workspace("b/package.json", r#"{"name": 1}"#),
    ];
    match npm_workspace::make_packages(&workspaces, false, &known()) {
        Err(NPMWorkspaceError::NoName { path }) => assert_eq!(path.as_str(), "b/package.json"),
        other => panic!("{:?}", other),
    }
}

#[test]
fn npm_files_need_a_known_format() {
    let workspaces = vec![workspace("a/package.json", r#"{"name": "a"}"#)];
    match npm_workspace::make_packages(&workspaces, true, &known_but("package-lock.json")) {
        Err(NPMWorkspaceError::UnknownFile(unknown)) => {
            assert_eq!(unknown.path.as_str(), "package-lock.json")
        }
        other => panic!("{:?}", other),
    }
    assert_eq!(
        npm_workspace::make_packages(&workspaces, false, &known_but("package-lock.json"))
            .unwrap()
            .len(),
        1
    );
}

#[test]
fn a_bad_npm_pattern_is_an_error() {
    let root = Some(r#"{"workspaces": ["***"]}"#);
    match Package::npm_workspaces(root, vec![bad_pattern()], false, &known()) {
        Err(NPMWorkspaceError::Glob { pattern, .. }) => assert_eq!(pattern, "***"),
        other => panic!("{:?}", other),
    }
    assert_eq!(
        Package::npm_workspaces(Some("{}"), vec![bad_pattern()], false, &known()).unwrap(),
        vec![]
    );
}

#[test]
fn deno_packages_need_a_name_and_a_version() {
    let packages = Package::deno_workspaces(
        None,
        Some("{\"workspace\": [\"./*\"] /* all */}"),
        vec![matches_of(
            "./*",
            vec![
                vec![found("a/deno.json", r#"{"name": "@s/a", "version": "1.0.0"}"#)],
                vec![unreadable("b/deno.json"), unreadable("b/deno.jsonc")],
                vec![found(
                    "c/deno.json",
                    r#"{"name": "@s/c", "imports": {"@s/a": "jsr:@s/a@^1.0.0"}}"#,
                )],
                vec![found("d/deno.json", r#"{"version": "1.0.0"}"#)],
                vec![
                    unreadable("e/deno.json"),
                    found("e/deno.jsonc", "{\"name\": \"@s/e\", \"version\": \"1\"} //"),
                ],
            ],
        )],
        false,
        &known(),
    )
    .unwrap();
    assert_eq!(
        packages,
        vec![
            member(
                "@s/a",
                vec![
                    file("a/deno.json", None),
                    file("c/deno.json", Some("@s/a")),
                ],
                Some("a/CHANGELOG.md"),
            ),
            member("@s/e", vec![file("e/deno.jsonc", None)], Some("e/CHANGELOG.md")),
        ]
    );
}

#[test]
fn the_deno_lock_file_is_versioned() {
    let workspaces = vec![workspace(
        "deno.json",
        r#"{"name": "a", "version": "1.0.0"}"#,
    )];
    assert_eq!(
        deno_workspace::make_packages(&workspaces, true, &known()).unwrap(),
        vec![member(
            "a",
            vec![file("deno.json", None), file("deno.lock", Some("a"))],
            Some("CHANGELOG.md"),
        )]
    );
    match deno_workspace::make_packages(&workspaces, true, &known_but("deno.lock")) {
        Err(DenoWorkspaceError::UnknownFile(unknown)) => assert_eq!(unknown.path.as_str(), "deno.lock"),
        other => panic!("{:?}", other),
    }
}

#[test]
fn deno_stops_at_the_first_error() {
    let root = Some(r#"{"workspace": ["a", "***"]}"#);
    match Package::deno_workspaces(
        root,
        None,
        vec![
            matches_of("a", vec![vec![found("a/deno.json", "{")]]),
            bad_pattern(),
        ],
        false,
        &known(),
    ) {
        Err(DenoWorkspaceError::Json { path, .. }) => assert_eq!(path.as_str(), "a/deno.json"),
        other => panic!("{:?}", other),
    }
    match Package::deno_workspaces(root, None, vec![bad_pattern()], false, &known()) {
        Err(DenoWorkspaceError::Glob { pattern, .. }) => assert_eq!(pattern, "***"),
        other => panic!("{:?}", other),
    }
}

#[test]
fn a_root_without_workspaces_has_no_deno_packages() {
    for (deno_json, deno_jsonc) in [
        (None, None),
        (Some("{}"), None),
        (Some("{"), Some(r#"{"workspace": ["***"]}"#)),
    ] {
        assert_eq!(
            Package::deno_workspaces(deno_json, deno_jsonc, vec![bad_pattern()], true, &known())
                .unwrap(),
            vec![]
        );
    }
}

const ROOT: &str = "[workspace]\nmembers = [\"crates/a\", \"crates/b\", \"c/\"]\n\n[workspace.dependencies]\nb = { path = \"crates/b\" }\n";

fn cargo_files() -> Vec<Option<String>> {
    vec![
        Some("[package]\nname = \"a\"\n[dependencies]\nb = \"1\"\n".to_string()),
        Some("[package]\nname = \"b\"\n".to_string()),
        Some("package = { name = \"c\" }\n[dev-dependencies.a]\npath = \"x\"\n[build-dependencies]\nb = \"1\"\n".to_string()),
    ]
}

#[test]
fn cargo_packages_know_their_dependents() {
    let packages =
        Package::cargo_workspace_members(Some(ROOT), &cargo_files(), true, &known()).unwrap();
    assert_eq!(
        packages,
        vec![
            member(
                "a",
                vec![
                    file("crates/a/Cargo.toml", None),
                    file("c/Cargo.toml", Some("a")),
                    file("Cargo.lock", None),
                ],
                None,
            ),
            member(
                "b",
                vec![
                    file("crates/a/Cargo.toml", Some("b")),
                    file("crates/b/Cargo.toml", None),
                    file("c/Cargo.toml", Some("b")),
                    file("Cargo.toml", Some("b")),
                    file("Cargo.lock", None),
                ],
                None,
            ),
            member(
                "c",
                vec![file("c/Cargo.toml", None), file("Cargo.lock", None)],
                None,
            ),
        ]
    );
}

#[test]
fn a_cargo_lock_of_unknown_format_is_left_out() {
    for (exists, names) in [(false, known()), (true, known_but("Cargo.lock"))] {
        let packages =
            Package::cargo_workspace_members(Some(ROOT), &cargo_files(), exists, &names).unwrap();
        assert_eq!(packages[2].versioned_files, vec![file("c/Cargo.toml", None)]);
    }
}

#[test]
fn the_manifests_of_cargo_members_are_known() {
    let root = parse_toml(ROOT).unwrap();
    let members = cargo_workspace::list_members(&root).unwrap();
    let paths: Vec<String> = members
        .iter()
        .map(|member| cargo_workspace::member_manifest(member.as_ref().unwrap()).text)
        .collect();
    assert_eq!(
        paths,
        vec!["crates/a/Cargo.toml", "crates/b/Cargo.toml", "c/Cargo.toml"]
    );
    assert_eq!(
        cargo_workspace::member_manifest("/d").as_str(),
        "d/Cargo.toml"
    );
    assert!(paths.iter().all(|path| known().know(path)));
}

#[test]
fn a_directory_without_a_cargo_workspace_has_no_cargo_packages() {
    for root in [
        None,
        Some("[package]\nname = \"a\"\n"),
        Some("[workspace]\n"),
        Some("[workspace]\nmembers = \"a\"\n"),
        Some("workspace = { members = [\"a\"] }\n"),
    ] {
        assert_eq!(
            Package::cargo_workspace_members(root, &vec![], true, &known()).unwrap(),
            vec![]
        );
    }
}

#[test]
fn a_root_manifest_that_is_no_toml_is_an_error() {
    match Package::cargo_workspace_members(Some("[workspace"), &vec![], false, &known()) {
        Err(CargoWorkspaceError::Toml(_, path)) => assert_eq!(path.as_str(), "Cargo.toml"),
        other => panic!("{:?}", other),
    }
}

#[test]
fn cargo_stops_at_the_first_error() {
    let root = Some("[workspace]\nmembers = [\"a\", 1]\n");
    let text = |text: &str| vec![Some(text.to_string()), None];
    match Package::cargo_workspace_members(root, &vec![], false, &known()) {
        Err(CargoWorkspaceError::Fs(path)) => assert_eq!(path.as_str(), "a/Cargo.toml"),
        other => panic!("{:?}", other),
    }
    match Package::cargo_workspace_members(root, &text("["), false, &known()) {
        Err(CargoWorkspaceError::Toml(_, path)) => assert_eq!(path.as_str(), "a/Cargo.toml"),
        other => panic!("{:?}", other),
    }
    match Package::cargo_workspace_members(root, &text("[package]"), false, &known()) {
        Err(CargoWorkspaceError::NoPackageName(path)) => assert_eq!(path.as_str(), "a/Cargo.toml"),
        other => panic!("{:?}", other),
    }
    let named = text("package.name = \"a\"");
    assert!(matches!(
        Package::cargo_workspace_members(root, &named, false, &known()),
        Err(CargoWorkspaceError::Members)
    ));
    match Package::cargo_workspace_members(root, &named, false, &known_but("Cargo.toml")) {
        Err(CargoWorkspaceError::UnknownFile(unknown)) => {
            assert_eq!(unknown.path.as_str(), "a/Cargo.toml")
        }
        other => panic!("{:?}", other),
    }
}

fn default_file(path: &str, exists: bool) -> DefaultFile {
    DefaultFile {
        file: file(path, None),
        exists,
    }
}

#[test]
fn workspaces_hide_the_single_package() {
    let a = || member("a", vec![file("a/Cargo.toml", None)], None);
    let b = || member("b", vec![file("b/package.json", None)], None);
    let c = || member("c", vec![file("c/deno.json", None)], None);
    let packages = Package::find_in_working_dir(
        Ok(vec![a()]),
        Ok(vec![b()]),
        Ok(vec![c()]),
        vec![default_file("Cargo.toml", true)],
        true,
    );
    assert_eq!(packages.unwrap(), vec![a(), b(), c()]);
}

#[test]
fn the_single_package_has_the_files_that_exist() {
    let find = |exists, changelog| {
        Package::find_in_working_dir(
            Ok(vec![]),
            Ok(vec![]),
            Ok(vec![]),
            vec![
                default_file("Cargo.toml", exists),
                default_file("package.json", false),
            ],
            changelog,
        )
        .unwrap()
    };
    assert_eq!(find(false, true), vec![]);
    for (changelog, path) in [(true, Some("CHANGELOG.md".into())), (false, None)] {
        assert_eq!(
            find(true, changelog),
            vec![Package {
                versioned_files: vec![file("Cargo.toml", None)],
                changelog: path,
                ..Package::default()
            }]
        );
    }
}

#[test]
fn the_first_failing_workspace_is_told() {
    let unknown = || UnknownFile {
        path: "x".into(),
    };
    let npm = || Err(NPMWorkspaceError::UnknownFile(unknown()));
    let deno = || Err(DenoWorkspaceError::UnknownFile(unknown()));
    assert!(matches!(
        Package::find_in_working_dir(
            Err(CargoWorkspaceError::Members),
            npm(),
            deno(),
            vec![],
            false
        ),
        Err(Error::CargoWorkspace(CargoWorkspaceError::Members))
    ));
    assert!(matches!(
        Package::find_in_working_dir(Ok(vec![]), npm(), deno(), vec![], false),
        Err(Error::NPMWorkspace(_))
    ));
    assert!(matches!(
        Package::find_in_working_dir(Ok(vec![]), Ok(vec![]), deno(), vec![], false),
        Err(Error::DenoWorkspace(_))
    ));
}

#[test]
fn the_changelog_is_beside_the_manifest() {
    for (path, changelog) in [
        ("package.json", Some("CHANGELOG.md")),
        ("a/package.json", Some("a/CHANGELOG.md")),
        ("a//package.json/", Some("a/CHANGELOG.md")),
        ("../a/./package.json", Some("../a/./CHANGELOG.md")),
        ("a/package.json/./.", Some("a/CHANGELOG.md")),
    ] {
        let workspaces = vec![workspace(path, r#"{"name": "a"}"#)];
        let packages = npm_workspace::make_packages(&workspaces, false, &known()).unwrap();
        let found = packages[0].changelog.as_ref().map(|path| path.as_str());
        assert_eq!(found, changelog, "{}", path);
    }
}

#[test]
fn a_package_does_not_list_manifests_at_its_own_path() {
    let workspaces = vec![
        workspace("a/package.json", r#"{"name": "a"}"#),
        workspace("a/package.json", r#"{"name": "b", "dependencies": {"a": "1"}}"#),
    ];
    let packages = npm_workspace::make_packages(&workspaces, false, &known()).unwrap();
    assert_eq!(packages[0].versioned_files, vec![file("a/package.json", None)]);
    assert_eq!(packages[1].versioned_files, vec![file("a/package.json", None)]);
}

#[test]
fn a_package_knows_its_own_path_by_its_components() {
    let workspaces = vec![
        workspace("a//package.json", r#"{"name": "a"}"#),
        workspace("a/package.json", r#"{"name": "b", "dependencies": {"a": "1"}}"#),
        workspace("./a/package.json", r#"{"name": "c", "dependencies": {"a": "1"}}"#),
    ];
    let packages = npm_workspace::make_packages(&workspaces, false, &known()).unwrap();
    let paths: Vec<&str> = packages[0]
        .versioned_files
        .iter()
        .map(|file| file.path.as_str())
        .collect();
    assert_eq!(paths, vec!["a//package.json", "./a/package.json"]);
}
