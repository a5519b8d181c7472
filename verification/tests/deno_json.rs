use knope::action::Action;
use knope::deno_json::{DenoJson, Error};
use knope::json::JsonError;
use knope::semver::Version;
use serde::de::{Deserializer, Error as _, MapAccess, Visitor};
use serde::Deserialize;

fn open(content: &str) -> DenoJson {
    DenoJson::new("deno.json".into(), content.to_string()).unwrap()
}

fn version(text: &str) -> Version {
    Version::from_str(text).unwrap()
}

fn failure(content: &str) -> JsonError {
    match DenoJson::new("pkg/deno.json".into(), content.to_string()) {
        Ok(_) => panic!("{} was read", content),
        Err(Error::Deserialize { path, source }) => {
            assert_eq!(path.as_str(), "pkg/deno.json");
            source
        }
    }
}

fn written(file: DenoJson) -> (String, String, String) {
    match file.write() {
        Some(Action::WriteToFile {
            path,
            content,
            diff,
        }) => (path.text, content, diff),
        None => panic!("nothing to write"),
    }
}

#[test]
fn test_deno_json_with_version() {
    let content = r#"{"name": "@scope/package", "version": "1.0.0"}"#;
    let deno_json = DenoJson::new("deno.json".into(), content.to_string()).unwrap();
    assert_eq!(
        deno_json.get_version(),
        Some(&Version::from_str("1.0.0").unwrap())
    );
}

#[test]
fn test_deno_json_without_version() {
    let content = r#"{"name": "@scope/package", "tasks": {"dev": "deno run main.ts"}}"#;
    let deno_json = DenoJson::new("deno.json".into(), content.to_string()).unwrap();
    assert_eq!(deno_json.get_version(), None);
}

#[test]
fn test_set_version() {
    let content = r#"{"name": "@scope/package", "version": "1.0.0"}"#;
    let deno_json = DenoJson::new("deno.json".into(), content.to_string()).unwrap();
    let new_version = Version::from_str("1.1.0").unwrap();
    let updated = deno_json.set_version(&new_version, None).unwrap();
    assert_eq!(updated.get_version(), Some(&new_version));
}

#[test]
fn test_set_version_on_file_without_version() {
    let content = r#"{"name": "@scope/package", "tasks": {"dev": "deno run main.ts"}}"#;
    let deno_json = DenoJson::new("deno.json".into(), content.to_string()).unwrap();
    let new_version = Version::from_str("1.0.0").unwrap();
    let updated = deno_json.set_version(&new_version, None).unwrap();
    assert_eq!(updated.get_version(), Some(&new_version));
}

#[test]
fn the_path_is_kept() {
    let file = open("{}");
    assert_eq!(file.get_path().as_str(), "deno.json");
    let updated = file.set_version(&version("2.0.0"), None).unwrap();
    assert_eq!(updated.get_path().as_str(), "deno.json");
}

#[test]
fn a_null_version_is_none() {
    assert_eq!(open(r#"{"version": null}"#).get_version(), None);
}

#[test]
fn comments_are_read_over() {
    let file = open("{\n  // the version\n  \"version\": \"1.2.3\" /* of now */\n}\n");
    assert_eq!(file.get_version(), Some(&version("1.2.3")));
}

#[test]
fn markers_in_strings_are_no_comments() {
    let file = open(r#"{"name": "https://jsr.io/*", "version": "1.2.3"}"#);
    assert_eq!(file.get_version(), Some(&version("1.2.3")));
    assert!(file.write().is_none());
}

/// What reading `content` says where the members are read into a map.
fn map_failure(content: &str) -> serde_json::Error {
    serde_json::from_str::<serde_json::Map<String, serde_json::Value>>(content).unwrap_err()
}

fn assert_failure(content: &str, message: &str) {
    let error = failure(content);
    assert_eq!(error.message, message, "{}", content);
    let place = format!(" at line {} column {}", error.line, error.column);
    assert!(message.ends_with(&place), "{}", content);
}

#[test]
fn a_text_that_is_no_object_is_refused() {
    assert_failure(
        "[1, 2]",
        "invalid type: sequence, expected struct Json at line 1 column 0",
    );
    assert_failure(
        "\n  \"a map\"",
        "invalid type: string \"a map\", expected struct Json at line 2 column 9",
    );
    assert_failure(
        "[1, no",
        "invalid type: sequence, expected struct Json at line 1 column 0",
    );
    assert_failure("", "EOF while parsing a value at line 1 column 0");
    assert_failure("{", "EOF while parsing an object at line 1 column 1");
}

#[test]
fn an_error_behind_a_good_version_is_told_as_it_is() {
    for content in [
        "{\n  \"version\": }",
        "{\"version\": \"1.0.0\" \"a\"}",
        "{\"version\": \"1.0.0",
        "{\"version\": nul}",
        "{\"version\": -x}",
        "{\"version\": \"\\x\"}",
        "{\"version\" \"one\"}",
        "{\"version\": \"1.0.0\"} 2",
        "{\"version\": \"1.0.0\", \"n\": 1e999}",
        "{\"a\": [}, \"version\": 1}",
        "{\"a\" \"version\": 1}",
        "{\"a\": {\"version\": 1}",
    ] {
        let expected = map_failure(content);
        let error = failure(content);
        assert_eq!(error.message, expected.to_string(), "{}", content);
        assert_eq!(error.line, expected.line());
        assert_eq!(error.column, expected.column());
    }
}

#[test]
fn the_place_of_a_syntax_error_is_told() {
    let error = failure("{\n  \"version\": }");
    assert_eq!(error.line, 2);
    assert_eq!(error.column, 14);
    assert_eq!(error.message, "expected value at line 2 column 14");
}

#[test]
fn a_version_that_is_no_text_is_refused() {
    assert_failure(
        r#"{"version": 1}"#,
        "invalid type: integer `1`, expected a string at line 1 column 13",
    );
    assert_failure(
        "{\n\"é\": \"日\", \"version\": [no",
        "invalid type: sequence, expected a string at line 2 column 24",
    );
    assert_failure(
        r#"{"version": true, "version": 1, no"#,
        "invalid type: boolean `true`, expected a string at line 1 column 16",
    );
}

#[test]
fn a_version_that_is_no_version_is_refused() {
    assert_failure(
        r#"{"version": "one"}"#,
        "invalid version `one` at line 1 column 18",
    );
    assert_failure(
        "{\"v\": \"ü\",\n \"\\u0076ersion\" : \"\\u006fne\" \n , no",
        "invalid version `one` at line 3 column 1",
    );
}

#[test]
fn a_version_that_is_given_twice_is_refused() {
    assert_failure(
        r#"{"version": "1.0.0", "version": "2.0.0"}"#,
        "duplicate field `version` at line 1 column 30",
    );
    assert_failure(
        r#"{"version": "1.0.0", "a": ["version"], "\u0076ersion": null}"#,
        "duplicate field `version` at line 1 column 53",
    );
    assert_failure(
        "{\"version\": null, \"version\" : no",
        "duplicate field `version` at line 1 column 28",
    );
}

#[test]
fn other_names_may_be_repeated() {
    let content = r#"{"version": "1.0.0", "a": {"version": "2.0.0"}, "b": "version", "a": 1}"#;
    assert_eq!(open(content).get_version(), Some(&version("1.0.0")));
}

#[test]
fn an_unchanged_file_is_not_written() {
    assert!(open(r#"{"version": "1.0.0"}"#).write().is_none());
}

#[test]
fn a_new_version_is_written() {
    let file = open(r#"{"name": "a", "version": "1.0.0", "tasks": {}}"#);
    let (path, content, diff) = written(file.set_version(&version("1.1.0"), None).unwrap());
    assert_eq!(path, "deno.json");
    assert_eq!(
        content,
        "{\n  \"name\": \"a\",\n  \"version\": \"1.1.0\",\n  \"tasks\": {}\n}"
    );
    assert_eq!(diff, "version = 1.1.0");
}

#[test]
fn a_missing_version_is_added_at_the_end() {
    let file = open(r#"{"name": "a", "n": [1, -2, 0.5, true, null]}"#);
    let (_, content, diff) = written(file.set_version(&version("0.1.0"), None).unwrap());
    assert_eq!(
        content,
        "{\n  \"name\": \"a\",\n  \"n\": [\n    1,\n    -2,\n    0.5,\n    true,\n    null\n  ],\n  \"version\": \"0.1.0\"\n}"
    );
    assert_eq!(diff, "version = 0.1.0");
}

#[test]
fn a_written_version_is_read_back() {
    let file = open(r#"{"name": "a/b", "version": "1.0.0"}"#);
    let (path, content, _) = written(file.set_version(&version("3.0.0-rc.1"), None).unwrap());
    let again = DenoJson::new(path.into(), content).unwrap();
    assert_eq!(again.get_version(), Some(&version("3.0.0-rc.1")));
}

#[test]
fn the_last_version_wins() {
    let file = open(r#"{"version": "1.0.0"}"#);
    let once = file.clone().set_version(&version("3.0.0"), None).unwrap();
    let twice = file
        .set_version(&version("2.0.0"), None)
        .unwrap()
        .set_version(&version("3.0.0"), None)
        .unwrap();
    assert_eq!(once.get_version(), twice.get_version());
    let (_, content, diff) = written(twice);
    assert_eq!(content, written(once).1);
    assert_eq!(diff, "version = 2.0.0, version = 3.0.0");
}

#[test]
fn the_import_of_a_dependency_is_set() {
    let file = open(r#"{"version": "1.0.0", "imports": {"@s/a": "jsr:@s/a@^1.0.0", "b": 1}}"#);
    let updated = file.set_version(&version("2.0.0"), Some("@s/a")).unwrap();
    assert_eq!(updated.get_version(), Some(&version("2.0.0")));
    let (path, content, diff) = written(updated);
    assert_eq!(
        content,
        "{\n  \"version\": \"1.0.0\",\n  \"imports\": {\n    \"@s/a\": \"jsr:@s/a@^2.0.0\",\n    \"b\": 1\n  }\n}"
    );
    assert_eq!(diff, "imports.@s/a = ^2.0.0");
    let again = DenoJson::new(path.into(), content).unwrap();
    assert_eq!(again.get_version(), Some(&version("1.0.0")));
}

#[test]
fn an_unknown_dependency_changes_nothing() {
    for content in [
        r#"{"imports": {"b": "1"}}"#,
        r#"{"imports": ["a"]}"#,
        r#"{"name": "a"}"#,
    ] {
        let (_, text, diff) = written(
            open(content)
                .set_version(&version("2.0.0"), Some("a"))
                .unwrap(),
        );
        let before: serde_json::Value = serde_json::from_str(content).unwrap();
        let after: serde_json::Value = serde_json::from_str(&text).unwrap();
        assert_eq!(before, after);
        assert_eq!(diff, "");
    }
}

#[test]
fn a_change_behind_an_unknown_dependency_has_no_comma() {
    let file = open("{}")
        .set_version(&version("2.0.0"), Some("a"))
        .unwrap()
        .set_version(&version("2.0.0"), None)
        .unwrap();
    assert_eq!(written(file).2, "version = 2.0.0");
}

#[test]
fn a_file_with_comments_cannot_be_changed() {
    let file = open("{} // nothing\n");
    let error = file.set_version(&version("1.0.0"), None).unwrap_err();
    assert_eq!(error.line, 1);
}

#[test]
fn everything_else_in_a_file_reads_back() {
    let content = r#"{"z": "\u00e9\n\"\\/", "a": {"b": [], "c": {}}, "n": [0.1, 1e300, -7, 18446744073709551615], "t": true}"#;
    let (path, text, _) = written(open(content).set_version(&version("1.0.0"), None).unwrap());
    let mut before: serde_json::Value = serde_json::from_str(content).unwrap();
    let after: serde_json::Value = serde_json::from_str(&text).unwrap();
    before["version"] = serde_json::Value::String("1.0.0".to_string());
    assert_eq!(before, after);
    let names: Vec<&String> = after.as_object().unwrap().keys().collect();
    assert_eq!(names, vec!["z", "a", "n", "t", "version"]);
    let again = DenoJson::new(path.into(), text).unwrap();
    assert_eq!(again.get_version(), Some(&version("1.0.0")));
}

#[test]
fn files_are_compared_by_what_was_read_from_them() {
    let read = |content: &str| {
        open(content)
            .set_version(&version("2.0.0"), Some("a"))
            .unwrap()
    };
    let first = read(r#"{"version": "1.0.0", "imports": {"a": "jsr:a@^1.0.0"}}"#);
    let second = read(r#"{"version": "1.0.0", "imports": {"a": "jsr:a@^0.9.0"}}"#);
    assert_eq!(written(first.clone()), written(second.clone()));
    assert_ne!(first, second);
    let third = read(r#"{"version": "1.0.0", "imports": {"a": {"x": 1, "y": [0.0]}}}"#);
    let fourth = read(r#"{"version": "1.0.0", "imports": {"a": {"y": [-0.0], "x": 1}}}"#);
    assert_eq!(third, fourth);
    let path = |path: &str| DenoJson::new(path.into(), "{}".to_string()).unwrap();
    let numbers = open(r#"{"n": [1.5, -2, 7, {"m": 1e300}]}"#);
    assert_eq!(numbers.clone(), numbers);
    assert_eq!(path("a//deno.json"), path("a/deno.json"));
    assert_ne!(path("a/deno.json"), path("deno.json"));
}

#[test]
fn files_are_compared_by_what_they_hold() {
    let file = open(r#"{"version": "1.0.0"}"#);
    assert_eq!(file.clone(), file);
    let updated = file.clone().set_version(&version("1.0.0"), None).unwrap();
    assert_ne!(updated, file);
}

#[test]
fn a_file_with_the_largest_floats_is_changed_again_and_again() {
    for below in 0..500 {
        let largest = f64::from_bits(f64::MAX.to_bits() - below);
        let text = serde_json::to_string(&largest).unwrap();
        let mut file = open(&format!("{{\"n\": [{}, -{}]}}", text, text));
        for patch in 0..4 {
            let next = version(&format!("1.0.{}", patch));
            file = file.set_version(&next, None).unwrap();
            let (path, content, _) = written(file.clone());
            let again = DenoJson::new(path.into(), content).unwrap();
            assert_eq!(again.get_version(), Some(&next));
        }
    }
}

#[test]
fn a_changed_file_can_be_changed_again() {
    let file = open(r#"{"imports": {"a": "jsr:a@^1.0.0"}}"#)
        .set_version(&version("1.1.0"), Some("a"))
        .unwrap()
        .set_version(&version("2.0.0"), None)
        .unwrap()
        .set_version(&version("1.2.0"), Some("a"))
        .unwrap();
    let (_, content, diff) = written(file);
    assert_eq!(
        content,
        "{\n  \"imports\": {\n    \"a\": \"jsr:a@^1.2.0\"\n  },\n  \"version\": \"2.0.0\"\n}"
    );
    assert_eq!(
        diff,
        "imports.a = ^1.1.0, version = 2.0.0, imports.a = ^1.2.0"
    );
}

#[test]
fn the_text_without_comments_decides_whether_a_file_opens() {
    for content in [
        r#"{"version": "1.0.0", "a": "//"}"#,
        "{\"version\": /* \" */ \"1.0.0\"} // x",
        "{\"version\": 1} // x",
        "{\"version\": \"1.0.0\" / }",
        "[] /* */",
    ] {
        let stripped = knope::jsonc::strip_json_comments(content);
        let as_it_stands = DenoJson::new("deno.json".into(), content.to_string());
        let without = DenoJson::new("deno.json".into(), stripped);
        match (as_it_stands, without) {
            (Ok(left), Ok(right)) => assert_eq!(left.get_version(), right.get_version()),
            (left, right) => assert!(left.is_err() && right.is_err()),
        }
    }
}

/// A version as a deserializer reads it: a string that is then checked.
struct ReadVersion(String);

impl<'de> Deserialize<'de> for ReadVersion {
    fn deserialize<D: Deserializer<'de>>(deserializer: D) -> Result<Self, D::Error> {
        let text = String::deserialize(deserializer)?;
        match Version::from_str(&text) {
            Ok(_) => Ok(ReadVersion(text)),
            Err(invalid) => Err(D::Error::custom(format!(
                "invalid version `{}`",
                invalid.text
            ))),
        }
    }
}

/// A configuration as a deserializer reads it: members in order, the version once.
struct ReadConfiguration {
    version: Option<ReadVersion>,
}

struct ReadVisitor;

impl<'de> Visitor<'de> for ReadVisitor {
    type Value = ReadConfiguration;

    fn expecting(&self, formatter: &mut std::fmt::Formatter) -> std::fmt::Result {
        formatter.write_str("struct Json")
    }

    fn visit_map<A: MapAccess<'de>>(self, mut map: A) -> Result<ReadConfiguration, A::Error> {
        let mut version: Option<Option<ReadVersion>> = None;
        while let Some(name) = map.next_key::<String>()? {
            if name == "version" {
                if version.is_some() {
                    return Err(A::Error::duplicate_field("version"));
                }
                version = Some(map.next_value()?);
            } else {
                map.next_value::<serde_json::Value>()?;
            }
        }
        Ok(ReadConfiguration {
            version: version.unwrap_or(None),
        })
    }
}

impl<'de> Deserialize<'de> for ReadConfiguration {
    fn deserialize<D: Deserializer<'de>>(deserializer: D) -> Result<Self, D::Error> {
        deserializer.deserialize_map(ReadVisitor)
    }
}

fn assert_read_alike(content: &str) {
    let stripped = knope::jsonc::strip_json_comments(content);
    let expected = serde_json::from_str::<ReadConfiguration>(&stripped);
    match (DenoJson::new("deno.json".into(), content.to_string()), expected) {
        (Ok(file), Ok(expected)) => assert_eq!(
            file.get_version().map(|version| version.to_string()),
            expected.version.map(|version| version.0),
            "{}",
            content
        ),
        (Err(Error::Deserialize { source, .. }), Err(expected)) => {
            assert_eq!(source.message, expected.to_string(), "{}", content);
            assert_eq!(source.line, expected.line());
            assert_eq!(source.column, expected.column());
        }
        (Ok(_), Err(error)) => panic!("{}: {}", content, error),
        (Err(error), Ok(_)) => panic!("{}: {:?}", content, error),
    }
}

#[test]
fn texts_that_are_cut_or_mistyped_are_read_as_a_deserializer_reads_them() {
    for text in [
        r#"{"version": "1.0.0"}"#,
        r#"{"version": "one", "a": 1}"#,
        "{\n\"é\": [\"日\", {\"version\": 1}],\r\n\t\"version\" : 12.5e1 , \"b\": null}\n",
        r#"{"version": null, "version": "1.0.0"} "#,
        r#"{"\u0076ersion":"1.0.0","x\"version\"":{},"version":"x"}"#,
        r#"{"a": "version", "version": {"version": 1}, "version": []}"#,
        r#"[{"version": 1}]"#,
        r#" "version": 1 "#,
        "true",
        "-7.5",
    ] {
        let chars: Vec<char> = text.chars().collect();
        assert_read_alike(text);
        for at in 0..chars.len() {
            let front: String = chars[..at].iter().collect();
            let back: String = chars[at + 1..].iter().collect();
            assert_read_alike(&front);
            assert_read_alike(&format!("{}{}", front, back));
            for put in ["\"", "{", "}", "[", "]", ":", ",", "1", "n", "\\", "\n", " ", "ß", "v"] {
                assert_read_alike(&format!("{}{}{}", front, put, back));
                assert_read_alike(&format!("{}{}{}{}", front, put, chars[at], back));
            }
        }
    }
}
