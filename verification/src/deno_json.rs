//! The version in a `deno.json` or `deno.jsonc` file.

use vstd::prelude::*;

use crate::action::{Action, ActionView};
use crate::json;
use crate::json::{Json, JsonError, JsonErrorView, JsonView};
use crate::jsonc;
use crate::member_names;
use crate::path::RelativePathBuf;
use crate::semver;
use crate::semver::Version;
use crate::text;

pub mod reading;

use crate::deno_json::reading::{Configuration, ConfigurationView, VersionField};

verus! {

/// Why a Deno configuration file cannot be used.
#[derive(Debug)]
pub enum Error {
    /// The file at `path` could not be deserialized.
    Deserialize { path: RelativePathBuf, source: JsonError },
}

/// What stands in the file of a package for the import of another one.
pub open spec fn import_text(dependency: Seq<char>, version: Seq<char>) -> Seq<char> {
    "jsr:"@ + dependency + "@^"@ + version
}

/// The imports of an object, where they are an object that has `dependency`.
pub open spec fn imports_with(
    members: Seq<(Seq<char>, JsonView)>,
    dependency: Seq<char>,
) -> Option<Seq<(Seq<char>, JsonView)>> {
    match json::member(members, "imports"@) {
        Some(JsonView::Object(imports)) => if json::member(imports, dependency) is Some {
            Some(imports)
        } else {
            None
        },
        _ => None,
    }
}

/// The members of an object once its own version, or the version of a
/// dependency that it imports, is `version`.
pub open spec fn with_version(
    members: Seq<(Seq<char>, JsonView)>,
    version: Seq<char>,
    dependency: Option<Seq<char>>,
) -> Seq<(Seq<char>, JsonView)> {
    match dependency {
        None => json::with_member(members, "version"@, JsonView::Str(version)),
        Some(dependency) => match imports_with(members, dependency) {
            Some(imports) => json::with_member(
                members,
                "imports"@,
                JsonView::Object(
                    json::with_member(
                        imports,
                        dependency,
                        JsonView::Str(import_text(dependency, version)),
                    ),
                ),
            ),
            None => members,
        },
    }
}

/// What a person is told of the change that `with_version` makes.
pub open spec fn change_text(
    members: Seq<(Seq<char>, JsonView)>,
    version: Seq<char>,
    dependency: Option<Seq<char>>,
) -> Seq<char> {
    match dependency {
        None => "version = "@ + version,
        Some(dependency) => if imports_with(members, dependency) is Some {
            "imports."@ + dependency + " = ^"@ + version
        } else {
            Seq::empty()
        },
    }
}

/// What a person was told so far with one more change: changes are parted by a
/// comma.
pub open spec fn with_change(diff: Option<Seq<char>>, change: Seq<char>) -> Seq<char> {
    match diff {
        Some(diff) => if diff.len() > 0 {
            diff + ", "@ + change
        } else {
            change
        },
        None => change,
    }
}

/// Sets the version of an object, or of the dependency that it imports, and
/// tells what was changed.
pub fn set_version_in(
    members: &mut Vec<(String, Json)>,
    new_version: &Version,
    dependency: Option<&str>,
) -> (change: String)
    ensures
        json::member_views(final(members)@) == with_version(
            json::member_views(old(members)@),
            new_version@,
            text::str_view(dependency),
        ),
        change@ == change_text(
            json::member_views(old(members)@),
            new_version@,
            text::str_view(dependency),
        ),
{
    let version = new_version.to_string();
    let mut change = String::new();
    match dependency {
        None => {
            change.push_str("version = ");
            change.push_str(version.as_str());
            assert(change@ =~= "version = "@ + new_version@);
            json::set_member(members, "version", Json::Str(version));
        },
        Some(dependency) => {
            if set_import(members, version.as_str(), dependency) {
                change.push_str("imports.");
                change.push_str(dependency);
                change.push_str(" = ^");
                change.push_str(version.as_str());
                assert(change@ =~= "imports."@ + dependency@ + " = ^"@ + new_version@);
            }
        },
    }
    change
}

/// Sets the version of a dependency that an object imports, and tells whether
/// it imports it.
fn set_import(members: &mut Vec<(String, Json)>, version: &str, dependency: &str) -> (set: bool)
    ensures
        json::member_views(final(members)@) == with_version(
            json::member_views(old(members)@),
            version@,
            Some(dependency@),
        ),
        set == (imports_with(json::member_views(old(members)@), dependency@) is Some),
{
    let mut import = String::new();
    import.push_str("jsr:");
    import.push_str(dependency);
    import.push_str("@^");
    import.push_str(version);
    assert(import@ =~= import_text(dependency@, version@));
    json::replace_inner(members, "imports", dependency, Json::Str(import))
}

/// A `deno.json` or `deno.jsonc` file.
#[derive(Debug, PartialEq, Eq)]
pub struct DenoJson {
    path: RelativePathBuf,
    raw: String,
    parsed: Configuration,
    diff: Option<String>,
}

/// A Deno configuration file: where it is, what it holds, what was read from it
/// but for the version that was set since, and what was changed in it so far.
pub struct DenoJsonView {
    pub path: Seq<char>,
    pub raw: Seq<char>,
    pub parsed: ConfigurationView,
    pub diff: Option<Seq<char>>,
}

impl View for DenoJson {
    type V = DenoJsonView;

    closed spec fn view(&self) -> DenoJsonView {
        DenoJsonView {
            path: self.path@,
            raw: self.raw@,
            parsed: self.parsed@,
            diff: text::option_view(self.diff),
        }
    }
}

impl Clone for DenoJson {
    fn clone(&self) -> (file: DenoJson)
        ensures
            file@ == self@,
    {
        DenoJson {
            path: self.path.clone(),
            raw: self.raw.clone(),
            parsed: self.parsed.clone(),
            diff: self.diff.clone(),
        }
    }
}

/// The file at `path` that holds `content`, if a version or the lack of one can
/// be read from it.
pub open spec fn opened(path: Seq<char>, content: Seq<char>) -> Option<DenoJsonView> {
    match reading::read_commented(content) {
        Some(parsed) => Some(DenoJsonView { path, raw: content, parsed, diff: None }),
        None => None,
    }
}

/// What is to be written for a file: nothing where nothing was changed.
pub open spec fn to_write(file: DenoJsonView) -> Option<ActionView> {
    match file.diff {
        Some(diff) => Some(
            ActionView::WriteToFile { path: file.path, content: file.raw, diff },
        ),
        None => None,
    }
}

/// A file with another version of its own or of a dependency, if it holds a
/// JSON object.
pub open spec fn updated(
    file: DenoJsonView,
    version: Seq<char>,
    dependency: Option<Seq<char>>,
) -> Option<DenoJsonView> {
    match json::parsed(file.raw) {
        Some(JsonView::Object(members)) => Some(
            DenoJsonView {
                path: file.path,
                raw: json::pretty(with_version(members, version, dependency)),
                parsed: ConfigurationView { version: Some(version), other: file.parsed.other },
                diff: Some(with_change(file.diff, change_text(members, version, dependency))),
            },
        ),
        _ => None,
    }
}

impl DenoJson {
    /// Reads a file that holds `content`.  A text that is not JSON is read once
    /// more without its comments.  As JSON holds no comments, it is the text
    /// without its comments that decides whether the file can be read.
    pub fn new(path: RelativePathBuf, content: String) -> (result: Result<DenoJson, Error>)
        ensures
            match result {
                Ok(file) => {
                    &&& opened(path@, content@) == Some(file@)
                    &&& reading::read_configuration(jsonc::stripped(content@)) == Some(
                        file@.parsed,
                    )
                },
                Err(Error::Deserialize { path: failed, source }) => {
                    &&& opened(path@, content@) is None
                    &&& reading::read_configuration(jsonc::stripped(content@)) is None
                    &&& failed@ == path@
                    &&& reading::explains(source@, jsonc::stripped(content@))
                },
            },
    {
        let parsed = match reading::deserialize(content.as_str()) {
            Ok(parsed) => {
                proof {
                    jsonc::law_quoted_slashes_open_no_comment(content@);
                }
                parsed
            },
            Err(_) => {
                let stripped = Self::strip_json_comments(content.as_str());
                match reading::deserialize(stripped.as_str()) {
                    Ok(parsed) => parsed,
                    Err(source) => {
                        return Err(Error::Deserialize { path, source });
                    },
                }
            },
        };
        Ok(DenoJson { path, raw: content, parsed, diff: None })
    }

    /// Strips JSON comments (`//` and `/* */`) to make JSONC parseable as JSON.
    fn strip_json_comments(content: &str) -> (result: String)
        ensures
            result@ == jsonc::stripped(content@),
    {
        jsonc::strip_json_comments(content)
    }

    /// The version of the package.
    pub fn get_version(&self) -> (version: Option<&Version>)
        ensures
            match version {
                Some(version) => self@.parsed.version == Some(version@),
                None => self@.parsed.version is None,
            },
    {
        self.parsed.version.as_ref()
    }

    /// Where the file is.
    pub fn get_path(&self) -> (path: &RelativePathBuf)
        ensures
            path@ == self@.path,
    {
        &self.path
    }

    /// Gives the package, or the dependency that it imports, another version.
    /// The text of the file has to hold a JSON object without comments, whatever
    /// is set.  What was changed once can be changed again, and a file whose own
    /// version was set opens with that version.
    pub fn set_version(self, new_version: &Version, dependency: Option<&str>) -> (result: Result<
        DenoJson,
        JsonError,
    >)
        ensures
            match result {
                Ok(file) => updated(self@, new_version@, text::str_view(dependency)) == Some(file@),
                Err(error) => {
                    &&& updated(self@, new_version@, text::str_view(dependency)) is None
                    &&& json::object_reading(self@.raw) == Err::<
                        Seq<(Seq<char>, JsonView)>,
                        JsonErrorView,
                    >(error@)
                },
            },
            result is Ok <==> json::object_reading(self@.raw) is Ok,
            result is Ok ==> jsonc::comment_free(self@.raw),
            result matches Ok(file) ==> {
                &&& rereads(
                    json::parsed(self@.raw)->0->Object_0,
                    new_version@,
                    text::str_view(dependency),
                    file@.raw,
                )
                &&& forall|version: Seq<char>, other: Option<Seq<char>>|
                    (#[trigger] updated(file@, version, other)) is Some
                &&& dependency is None ==> (opened(file@.path, file@.raw) matches Some(again)
                    && again.parsed.version == Some(new_version@))
            },
    {
        let mut members = match json::parse_members(self.raw.as_str()) {
            Ok(members) => members,
            Err(error) => {
                return Err(error);
            },
        };
        let ghost before = json::member_views(members@);
        proof {
            jsonc::law_quoted_slashes_open_no_comment(self@.raw);
            lemma_with_version_printable(before, new_version@, text::str_view(dependency));
        }
        let mut diff = String::new();
        if let Some(earlier) = &self.diff {
            diff.push_str(earlier.as_str());
        }
        if !diff.as_str().is_empty() {
            diff.push_str(", ");
        }
        let change = set_version_in(&mut members, new_version, dependency);
        diff.push_str(change.as_str());
        assert(diff@ =~= with_change(self@.diff, change@));
        let version = new_version.clone();
        match json::print_members(members) {
            Ok(raw) => {
                proof {
                    lemma_rereads(before, new_version@, text::str_view(dependency), raw@);
                }
                let parsed = Configuration { version: Some(version), other: self.parsed.other };
                Ok(DenoJson { path: self.path, raw, parsed, diff: Some(diff) })
            },
            Err(error) => Err(error),
        }
    }

    /// The step that writes the file, if anything was changed in it.
    pub fn write(self) -> (action: Option<Action>)
        ensures
            match action {
                Some(action) => to_write(self@) == Some(action@),
                None => to_write(self@) is None,
            },
    {
        match self.diff {
            Some(diff) => Some(
                Action::WriteToFile { path: self.path, content: self.raw, diff },
            ),
            None => None,
        }
    }
}

/// What is known of the text `raw` that is written for `members` with another
/// version: it reads as the changed object, but for the digits of floats.  The
/// version of the package is the new one, or the import of the dependency is and
/// the version of the package is what it was.
pub open spec fn rereads(
    members: Seq<(Seq<char>, JsonView)>,
    version: Seq<char>,
    dependency: Option<Seq<char>>,
    raw: Seq<char>,
) -> bool {
    &&& json::parsed(raw) matches Some(read) && {
        &&& json::reads_back(
            JsonView::Object(with_version(members, version, dependency)),
            read,
        )
        &&& read is Object
        &&& match dependency {
            None => reading::read_version(raw) == Some(Some(version)),
            Some(dependency) => {
                &&& reading::version_field(members) matches VersionField::Version(own)
                    ==> reading::read_version(raw) == Some(own)
                &&& imports_with(members, dependency) is Some ==> {
                    &&& imports_with(read->Object_0, dependency) is Some
                    &&& json::member(
                        imports_with(read->Object_0, dependency)->0,
                        dependency,
                    ) == Some(JsonView::Str(import_text(dependency, version)))
                }
            },
        }
    }
}

proof fn lemma_rereads(
    members: Seq<(Seq<char>, JsonView)>,
    version: Seq<char>,
    dependency: Option<Seq<char>>,
    raw: Seq<char>,
)
    requires
        semver::is_semantic_version(version),
        json::parsed(raw) matches Some(read) && json::reads_back(
            JsonView::Object(with_version(members, version, dependency)),
            read,
        ),
        forall|name: Seq<char>| !#[trigger] member_names::named_twice(raw, name),
    ensures
        rereads(members, version, dependency, raw),
{
    let after = with_version(members, version, dependency);
    if let Some(read) = json::parsed(raw) {
        assert(read is Object);
        let again = read->Object_0;
        json::lemma_member_reads_back(after, again, "version"@);
        json::lemma_member_reads_back(after, again, "imports"@);
        assert(!member_names::named_twice(raw, "version"@));
        match dependency {
            None => {
                json::law_with_member_reads_back(
                    members,
                    "version"@,
                    JsonView::Str(version),
                    "version"@,
                );
            },
            Some(dependency) => {
                if let Some(imports) = imports_with(members, dependency) {
                    reveal_strlit("version");
                    reveal_strlit("imports");
                    assert("version"@[0] != "imports"@[0]);
                    let import = JsonView::Str(import_text(dependency, version));
                    let inner = json::with_member(imports, dependency, import);
                    json::law_with_member_reads_back(
                        members,
                        "imports"@,
                        JsonView::Object(inner),
                        "version"@,
                    );
                    json::law_with_member_reads_back(imports, dependency, import, dependency);
                    let read_imports = json::member(again, "imports"@)->0;
                    assert(json::reads_back(JsonView::Object(inner), read_imports));
                    assert(read_imports is Object);
                    json::lemma_member_reads_back(inner, read_imports->Object_0, dependency);
                }
            },
        }
    }
}

/// Another version keeps what makes an object printable.
proof fn lemma_with_version_printable(
    members: Seq<(Seq<char>, JsonView)>,
    version: Seq<char>,
    dependency: Option<Seq<char>>,
)
    requires
        json::distinct_names(JsonView::Object(members)),
        json::nested_at_most(JsonView::Object(members), json::readable_depth()),
    ensures
        json::distinct_names(JsonView::Object(with_version(members, version, dependency))),
        json::nested_at_most(
            JsonView::Object(with_version(members, version, dependency)),
            json::readable_depth(),
        ),
{
    let depth = json::readable_depth();
    match dependency {
        None => {
            let value = JsonView::Str(version);
            json::lemma_with_member_distinct(members, "version"@, value);
            json::lemma_with_member_nested(members, "version"@, value, depth);
        },
        Some(dependency) => {
            if let Some(imports) = imports_with(members, dependency) {
                json::lemma_member_parts(members, "imports"@, depth);
                let import = JsonView::Str(import_text(dependency, version));
                let value = JsonView::Object(json::with_member(imports, dependency, import));
                json::lemma_with_member_distinct(imports, dependency, import);
                json::lemma_with_member_distinct(members, "imports"@, value);
                json::lemma_with_member_nested(imports, dependency, import, (depth - 1) as nat);
                json::lemma_with_member_nested(members, "imports"@, value, depth);
            }
        },
    }
}

/// A text gives what it gives once its comments are gone.  One that can be read
/// as it stands has its slashes in string literals.
pub proof fn law_comments_are_read_over(text: Seq<char>)
    requires
        reading::read_configuration(text) is Some ==> jsonc::slashes_quoted(text),
    ensures
        reading::read_commented(text) == reading::read_commented(jsonc::stripped(text)),
        reading::read_commented(text) == reading::read_configuration(jsonc::stripped(text)),
{
    jsonc::law_stripping_is_idempotent(text);
    if jsonc::slashes_quoted(text) {
        jsonc::law_quoted_slashes_open_no_comment(text);
    }
}

/// A file that was opened and not changed is not written.
pub proof fn law_unchanged_file_is_not_written(path: Seq<char>, content: Seq<char>)
    requires
        opened(path, content) is Some,
    ensures
        to_write(opened(path, content)->0) is None,
{
}

/// A file whose version was set is written, at its own path, with the changed
/// text; its version is the one that was set.
pub proof fn law_changed_file_is_written(
    file: DenoJsonView,
    version: Seq<char>,
    dependency: Option<Seq<char>>,
)
    requires
        updated(file, version, dependency) is Some,
    ensures
        ({
            let changed = updated(file, version, dependency)->0;
            &&& changed.parsed.version == Some(version)
            &&& to_write(changed) matches Some(ActionView::WriteToFile { path, content, diff })
            &&& path == file.path
            &&& content == changed.raw
            &&& changed.diff == Some(diff)
        }),
{
}

/// What was told of earlier changes stays in front of what is told of later
/// ones.
pub proof fn law_earlier_changes_stay_told(
    file: DenoJsonView,
    version: Seq<char>,
    dependency: Option<Seq<char>>,
)
    requires
        updated(file, version, dependency) is Some,
        file.diff is Some,
    ensures
        file.diff->0.is_prefix_of(updated(file, version, dependency)->0.diff->0),
{
}

/// A dependency that a file does not import leaves the members of its object
/// alone, and nothing is told of it.
pub proof fn law_unknown_dependency_changes_nothing(
    members: Seq<(Seq<char>, JsonView)>,
    version: Seq<char>,
    dependency: Seq<char>,
)
    requires
        imports_with(members, dependency) is None,
    ensures
        with_version(members, version, Some(dependency)) == members,
        change_text(members, version, Some(dependency)).len() == 0,
{
}

/// Setting the version of a package leaves every other member of its object
/// alone.
pub proof fn law_other_members_stay(
    members: Seq<(Seq<char>, JsonView)>,
    version: Seq<char>,
    other: Seq<char>,
)
    requires
        other != "version"@,
    ensures
        json::member(with_version(members, version, None), other) == json::member(members, other),
{
    json::law_with_member_reads_back(members, "version"@, JsonView::Str(version), other);
}

/// A second version replaces the first: it is as if the first had not been set.
pub proof fn law_last_version_wins(
    members: Seq<(Seq<char>, JsonView)>,
    first: Seq<char>,
    second: Seq<char>,
)
    ensures
        with_version(with_version(members, first, None), second, None) == with_version(
            members,
            second,
            None,
        ),
{
    json::law_with_member_twice(
        members,
        "version"@,
        JsonView::Str(first),
        JsonView::Str(second),
    );
}

/// A file whose version is set twice holds the text that it would hold had only
/// the second version been set, where its object holds no float.
pub proof fn law_last_version_is_written(
    file: DenoJsonView,
    first: Seq<char>,
    second: Seq<char>,
)
    requires
        updated(file, first, None) is Some,
        json::float_free(json::parsed(file.raw)->0),
        rereads(
            json::parsed(file.raw)->0->Object_0,
            first,
            None,
            updated(file, first, None)->0.raw,
        ),
    ensures
        ({
            let once = updated(file, first, None)->0;
            &&& updated(once, second, None) is Some
            &&& updated(once, second, None)->0.raw == updated(file, second, None)->0.raw
        }),
{
    let members = json::parsed(file.raw)->0->Object_0;
    let once = updated(file, first, None)->0;
    let after = with_version(members, first, None);
    json::lemma_with_member_float_free(members, "version"@, JsonView::Str(first));
    json::lemma_float_free_reads_back(JsonView::Object(after), json::parsed(once.raw)->0);
    law_last_version_wins(members, first, second);
}

/// Setting the version of a package puts the whole version under `version`, and
/// a package that had no version has one more member then.
pub proof fn law_version_is_set_whole(members: Seq<(Seq<char>, JsonView)>, version: Seq<char>)
    ensures
        ({
            let after = with_version(members, version, None);
            &&& json::member(after, "version"@) matches Some(JsonView::Str(text))
            &&& text.len() == version.len()
            &&& forall|i: int| 0 <= i < version.len() ==> text[i] == version[i]
            &&& after.len() == members.len() + (if json::member(members, "version"@) is Some {
                0int
            } else {
                1int
            })
            &&& forall|i: int|
                0 <= i < members.len() ==> (#[trigger] after[i]).0 == members[i].0 && (
                members[i].0 != "version"@ ==> after[i] == members[i])
        }),
{
    let value = JsonView::Str(version);
    json::law_with_member_reads_back(members, "version"@, value, "version"@);
    json::law_with_member_changes_one_place(members, "version"@, value);
    let after = with_version(members, version, None);
    let at = choose|at: int|
        0 <= at < after.len() && #[trigger] after[at] == ("version"@, value) && forall|i: int|
            0 <= i < members.len() && i != at ==> #[trigger] after[i] == members[i];
    assert forall|i: int| 0 <= i < members.len() implies (#[trigger] after[i]).0 == members[i].0
        && (members[i].0 != "version"@ ==> after[i] == members[i]) by {
        assert(i != at ==> after[i] == members[i]);
    }
}

/// Setting the version of a dependency that a file imports puts `jsr:`, the name
/// of the dependency, `@^` and the whole version in the place of what stood under
/// its name, and leaves the other imports and all other members alone.
pub proof fn law_import_names_the_whole_version(
    members: Seq<(Seq<char>, JsonView)>,
    imports: Seq<(Seq<char>, JsonView)>,
    dependency: Seq<char>,
    version: Seq<char>,
    other: Seq<char>,
)
    requires
        json::member(members, "imports"@) == Some(JsonView::Object(imports)),
        json::member(imports, dependency) is Some,
    ensures
        ({
            let after = with_version(members, version, Some(dependency));
            let start = 6 + dependency.len();
            &&& json::member(after, "imports"@) matches Some(JsonView::Object(inner))
            &&& json::member(inner, dependency) matches Some(JsonView::Str(text))
            &&& text.len() == start + version.len()
            &&& text[0] == 'j' && text[1] == 's' && text[2] == 'r' && text[3] == ':'
            &&& text.subrange(4, 4 + dependency.len() as int) == dependency
            &&& text[4 + dependency.len() as int] == '@' && text[5 + dependency.len() as int] == '^'
            &&& text.skip(start as int) == version
            &&& other != dependency ==> json::member(inner, other) == json::member(imports, other)
            &&& inner.len() == imports.len()
            &&& other != "imports"@ ==> json::member(after, other) == json::member(members, other)
            &&& after.len() == members.len()
        }),
{
    let import = JsonView::Str(import_text(dependency, version));
    let inner = json::with_member(imports, dependency, import);
    json::law_with_member_reads_back(imports, dependency, import, dependency);
    json::law_with_member_reads_back(imports, dependency, import, other);
    json::law_with_member_changes_one_place(imports, dependency, import);
    json::law_with_member_reads_back(members, "imports"@, JsonView::Object(inner), "imports"@);
    json::law_with_member_reads_back(members, "imports"@, JsonView::Object(inner), other);
    json::law_with_member_changes_one_place(members, "imports"@, JsonView::Object(inner));
    reveal_strlit("jsr:");
    reveal_strlit("@^");
    let text = import_text(dependency, version);
    assert(text.subrange(4, 4 + dependency.len() as int) =~= dependency);
    assert(text.skip(6 + dependency.len() as int) =~= version);
}

/// A dependency is left alone where there is no object under `imports`, or it has
/// no member of that name.
pub proof fn law_only_imported_dependencies_are_set(
    members: Seq<(Seq<char>, JsonView)>,
    dependency: Seq<char>,
    version: Seq<char>,
)
    requires
        !(json::member(members, "imports"@) matches Some(JsonView::Object(imports))
            && json::member(imports, dependency) is Some),
    ensures
        with_version(members, version, Some(dependency)) == members,
        change_text(members, version, Some(dependency)).len() == 0,
{
}

/// A person is told of the whole version that was set: `version = ` and the
/// version, or `imports.`, the dependency, ` = ^` and the version.
pub proof fn law_change_is_told_whole(
    members: Seq<(Seq<char>, JsonView)>,
    imports: Seq<(Seq<char>, JsonView)>,
    dependency: Seq<char>,
    version: Seq<char>,
)
    ensures
        ({
            let told = change_text(members, version, None);
            &&& told.len() == 10 + version.len()
            &&& told.take(10) == seq!['v', 'e', 'r', 's', 'i', 'o', 'n', ' ', '=', ' ']
            &&& told.skip(10) == version
        }),
        json::member(members, "imports"@) == Some(JsonView::Object(imports)) && json::member(
            imports,
            dependency,
        ) is Some ==> {
            let told = change_text(members, version, Some(dependency));
            &&& told.len() == 12 + dependency.len() + version.len()
            &&& told.take(8) == seq!['i', 'm', 'p', 'o', 'r', 't', 's', '.']
            &&& told.subrange(8, 8 + dependency.len() as int) == dependency
            &&& told.subrange(8 + dependency.len() as int, 12 + dependency.len() as int) == seq![
                ' ',
                '=',
                ' ',
                '^',
            ]
            &&& told.skip(12 + dependency.len() as int) == version
        },
{
    reveal_strlit("version = ");
    reveal_strlit("imports.");
    reveal_strlit(" = ^");
    let own = change_text(members, version, None);
    assert(own.take(10) =~= seq!['v', 'e', 'r', 's', 'i', 'o', 'n', ' ', '=', ' ']);
    assert(own.skip(10) =~= version);
    if json::member(members, "imports"@) == Some(JsonView::Object(imports)) && json::member(
        imports,
        dependency,
    ) is Some {
        let told = change_text(members, version, Some(dependency));
        assert(told.take(8) =~= seq!['i', 'm', 'p', 'o', 'r', 't', 's', '.']);
        assert(told.subrange(8, 8 + dependency.len() as int) =~= dependency);
        assert(told.subrange(8 + dependency.len() as int, 12 + dependency.len() as int) =~= seq![
            ' ',
            '=',
            ' ',
            '^',
        ]);
        assert(told.skip(12 + dependency.len() as int) =~= version);
    }
}

/// Changes are told one after the other: the new one alone where nothing was told
/// yet, and behind what was told, a comma and a space where something was.
pub proof fn law_changes_are_told_one_after_the_other(
    file: DenoJsonView,
    version: Seq<char>,
    dependency: Option<Seq<char>>,
)
    requires
        updated(file, version, dependency) is Some,
    ensures
        ({
            let members = json::parsed(file.raw)->0->Object_0;
            let change = change_text(members, version, dependency);
            &&& updated(file, version, dependency)->0.diff matches Some(told)
            &&& (file.diff is None || file.diff->0.len() == 0) ==> told == change
            &&& file.diff matches Some(earlier) ==> earlier.len() > 0 ==> {
                &&& told.len() == earlier.len() + 2 + change.len()
                &&& told.take(earlier.len() as int) == earlier
                &&& told[earlier.len() as int] == ','
                &&& told[earlier.len() as int + 1] == ' '
                &&& told.skip(earlier.len() as int + 2) == change
            }
        }),
{
    reveal_strlit(", ");
    let members = json::parsed(file.raw)->0->Object_0;
    let change = change_text(members, version, dependency);
    let told = updated(file, version, dependency)->0.diff->0;
    if let Some(earlier) = file.diff {
        if earlier.len() > 0 {
            assert(told.take(earlier.len() as int) =~= earlier);
            assert(told.skip(earlier.len() as int + 2) =~= change);
        }
    }
}

/// A file can be changed exactly where its text holds a JSON object.  The changed
/// file is at the same path, has the version that was set, keeps what else was
/// read from it, and its text is that of the object with the version that was set.
pub proof fn law_change_keeps_what_was_not_set(
    file: DenoJsonView,
    version: Seq<char>,
    dependency: Option<Seq<char>>,
)
    ensures
        updated(file, version, dependency) is Some <==> json::parsed(file.raw) matches Some(
            JsonView::Object(_),
        ),
        updated(file, version, dependency) matches Some(changed) ==> {
            &&& changed.path == file.path
            &&& changed.parsed.version == Some(version)
            &&& changed.parsed.other == file.parsed.other
            &&& changed.raw == json::pretty(
                with_version(json::parsed(file.raw)->0->Object_0, version, dependency),
            )
        },
{
}

/// A file that was opened is at the path and holds the text that it was opened
/// with, and nothing was changed in it.
pub proof fn law_opened_file_is_as_it_was_found(path: Seq<char>, content: Seq<char>)
    ensures
        opened(path, content) is Some <==> reading::read_configuration(content) is Some
            || reading::read_configuration(jsonc::stripped(content)) is Some,
        opened(path, content) matches Some(file) ==> {
            &&& file.path == path
            &&& file.raw == content
            &&& file.diff is None
            &&& reading::read_configuration(content) matches Some(read) ==> file.parsed == read
            &&& reading::read_configuration(content) is None ==> Some(file.parsed)
                == reading::read_configuration(jsonc::stripped(content))
        },
{
}

/// A file is written exactly where something was told of a change, at its path,
/// with its text, and with all that was told.
pub proof fn law_file_is_written_with_what_was_told(file: DenoJsonView)
    ensures
        to_write(file) is Some <==> file.diff is Some,
        to_write(file) matches Some(ActionView::WriteToFile { path, content, diff }) ==> path
            == file.path && content == file.raw && Some(diff) == file.diff,
{
}

} // verus!
