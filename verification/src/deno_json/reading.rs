//! How the text of a Deno configuration is read, and why it cannot be.

use vstd::prelude::*;

use crate::json;
use crate::json::{Json, JsonError, JsonErrorView, JsonView};
use crate::jsonc;
use crate::member_names;
use crate::member_names::Name;
use crate::semver;
use crate::semver::Version;
use crate::text;

verus! {

/// What a Deno configuration holds: the version of the package, and the other
/// members.
#[derive(Debug, PartialEq, Eq)]
pub struct Configuration {
    pub version: Option<Version>,
    pub other: Json,
}

/// What a Deno configuration holds.
pub struct ConfigurationView {
    pub version: Option<Seq<char>>,
    pub other: JsonView,
}

impl View for Configuration {
    type V = ConfigurationView;

    open spec fn view(&self) -> ConfigurationView {
        ConfigurationView { version: version_view(self.version), other: self.other@ }
    }
}

impl Clone for Configuration {
    fn clone(&self) -> (copy: Configuration)
        ensures
            copy@ == self@,
    {
        let version = match &self.version {
            Some(version) => Some(version.clone()),
            None => None,
        };
        Configuration { version, other: self.other.clone() }
    }
}

/// The text of a version where there is one.
pub open spec fn version_view(version: Option<Version>) -> Option<Seq<char>> {
    match version {
        Some(version) => Some(version@),
        None => None,
    }
}

/// The version that an object gives: none where it has no version or a null
/// version.
pub enum VersionField {
    Version(Option<Seq<char>>),
    NotText,
    Invalid(Seq<char>),
}

/// The version that the members of an object give.
pub open spec fn version_field(members: Seq<(Seq<char>, JsonView)>) -> VersionField {
    match json::member(members, "version"@) {
        None => VersionField::Version(None),
        Some(JsonView::Null) => VersionField::Version(None),
        Some(JsonView::Str(text)) => if semver::is_semantic_version(text) {
            VersionField::Version(Some(text))
        } else {
            VersionField::Invalid(text)
        },
        Some(_) => VersionField::NotText,
    }
}

/// What a JSON text says of the version: nothing can be read from a text that
/// holds no object, that gives the version twice, or whose version is not one.
pub open spec fn read_version(text: Seq<char>) -> Option<Option<Seq<char>>> {
    match json::parsed(text) {
        Some(JsonView::Object(members)) => if member_names::named_twice(text, "version"@) {
            None
        } else {
            match version_field(members) {
                VersionField::Version(version) => Some(version),
                _ => None,
            }
        },
        _ => None,
    }
}

/// The configuration that a JSON text holds, if its version can be read.
pub open spec fn read_configuration(text: Seq<char>) -> Option<ConfigurationView> {
    match (read_version(text), json::parsed(text)) {
        (Some(version), Some(JsonView::Object(members))) => Some(
            ConfigurationView {
                version,
                other: JsonView::Object(json::without_member(members, "version"@)),
            },
        ),
        _ => None,
    }
}

/// The configuration that a JSON text or, failing that, a JSONC text holds.
pub open spec fn read_commented(text: Seq<char>) -> Option<ConfigurationView> {
    match read_configuration(text) {
        Some(configuration) => Some(configuration),
        None => read_configuration(jsonc::stripped(text)),
    }
}

/// What an error says of its place.
pub open spec fn place_text(line: nat, column: nat) -> Seq<char> {
    " at line "@ + text::decimal(line) + " column "@ + text::decimal(column)
}

/// An error that was met behind `front`: the line, counted from one, and the
/// number of bytes in front of it on that line.
pub open spec fn error_behind(front: Seq<char>, what: Seq<char>) -> JsonErrorView {
    let lines = text::pieces(front, '\n');
    let line = lines.len();
    let column = text::byte_count(lines.last());
    JsonErrorView { message: what + place_text(line, column), line, column }
}

/// `text` up to where a member was given up whose name or value ends where
/// `rest` begins: white space is passed over, and so is the end of the object.
pub open spec fn given_up(text: Seq<char>, rest: Seq<char>) -> Seq<char> {
    let behind = member_names::after_space(rest);
    if behind.len() > 0 && behind[0] == '}' {
        text.take(text.len() - behind.len() + 1)
    } else {
        text.take(text.len() - behind.len())
    }
}

/// What is said of a version that is none.
pub open spec fn invalid_version(version: Seq<char>) -> Seq<char> {
    "invalid version `"@ + version + "`"@
}

/// What is said of a second version.
pub open spec fn repeated_version() -> Seq<char> {
    "duplicate field `version`"@
}

/// Whether the name behind which `rest` begins is reached in `text`, which is
/// read from its beginning up to the first error.
pub open spec fn is_reached(text: Seq<char>, rest: Seq<char>) -> bool {
    json::object_reading(text) is Ok || json::object_reading(
        text.take(text.len() - rest.len()) + ":0}"@,
    ) is Ok
}

/// The error for a version that is given a second time from `from` on.
pub open spec fn repetition_error(text: Seq<char>, from: nat) -> Option<JsonErrorView> {
    let names = member_names::names_in(text);
    match member_names::named_from(names, "version"@, from) {
        Some(second) => if is_reached(text, names[second as int].rest) {
            Some(error_behind(given_up(text, names[second as int].rest), repeated_version()))
        } else {
            None
        },
        None => None,
    }
}

/// What is left of a text behind the string literal that its value is; `rest` is
/// what is left of it behind the name.
pub open spec fn behind_value(rest: Seq<char>) -> Seq<char> {
    let value = member_names::after_space(member_names::after_colon(rest)->0);
    if value.len() > 0 {
        member_names::after_literal(value.drop_first())
    } else {
        value
    }
}

/// The error for the version that a text gives, where that comes before any other
/// error: the value cannot be read as a string or null, the string is no version,
/// or the version is given again.
pub open spec fn version_error(text: Seq<char>) -> Option<JsonErrorView> {
    let names = member_names::names_in(text);
    match member_names::named_from(names, "version"@, 0) {
        Some(first) => {
            let rest = names[first as int].rest;
            if is_reached(text, rest) {
                match member_names::reading_behind(text, rest) {
                    Some(Err(error)) => Some(error),
                    Some(Ok(Some(version))) => if semver::is_semantic_version(version) {
                        repetition_error(text, first + 1)
                    } else {
                        Some(
                            error_behind(
                                given_up(text, behind_value(rest)),
                                invalid_version(version),
                            ),
                        )
                    },
                    _ => repetition_error(text, first + 1),
                }
            } else {
                None
            }
        },
        None => None,
    }
}

/// An error that says that a map was expected says that a `struct Json` was, as
/// a configuration is called.
pub open spec fn for_configuration(error: JsonErrorView) -> JsonErrorView {
    let place = place_text(error.line, error.column);
    let end = ", expected a map"@ + place;
    let front = error.message.len() - end.len();
    if front >= 0 && error.message.skip(front) == end {
        JsonErrorView {
            message: error.message.take(front) + ", expected struct Json"@ + place,
            ..error
        }
    } else {
        error
    }
}

/// Whether `error` is the first error in `text`.
pub open spec fn explains(error: JsonErrorView, text: Seq<char>) -> bool {
    match (version_error(text), json::object_reading(text)) {
        (Some(first), _) => error == first,
        (None, Err(other)) => error == for_configuration(other),
        (None, Ok(_)) => false,
    }
}

/// What an error says of its place.
fn tell_place(line: usize, column: usize) -> (place: String)
    ensures
        place@ == place_text(line as nat, column as nat),
{
    let mut place = String::new();
    place.push_str(" at line ");
    place.push_str(text::decimal_of(line).as_str());
    place.push_str(" column ");
    place.push_str(text::decimal_of(column).as_str());
    assert(place@ =~= place_text(line as nat, column as nat));
    place
}

/// An error that was met behind `chars[..end]`.
fn make_error(chars: &Vec<char>, end: usize, what: &str) -> (error: JsonError)
    requires
        end <= chars.len(),
    ensures
        error@ == error_behind(chars@.take(end as int), what@),
{
    let front = vstd::slice::slice_subrange(chars.as_slice(), 0, end);
    assert(front@ =~= chars@.take(end as int));
    let lines = text::pieces_of(front, '\n');
    let line = lines.len();
    let ghost views = text::char_views(lines@);
    assert(views == text::pieces(chars@.take(end as int), '\n'));
    let last = &lines[line - 1];
    assert(views.last() == last@);
    let written = text::string_between(last, 0, last.len());
    assert(written@ =~= last@);
    let column = text::count_bytes(written.as_str());
    let mut message = String::new();
    message.push_str(what);
    message.push_str(tell_place(line, column).as_str());
    assert(message@ =~= what@ + place_text(line as nat, column as nat));
    JsonError { message, line, column }
}

/// An error at a member that was given up, whose name or value ends in front of
/// `end`.
fn give_up(chars: &Vec<char>, end: usize, what: &str) -> (error: JsonError)
    requires
        end <= chars.len(),
    ensures
        error@ == error_behind(given_up(chars@, chars@.skip(end as int)), what@),
{
    let behind = member_names::space_end(chars, end);
    if behind < chars.len() && chars[behind] == '}' {
        make_error(chars, behind + 1, what)
    } else {
        make_error(chars, behind, what)
    }
}

/// Whether the name that ends in front of `end` is reached in `chars`; `readable`
/// tells whether all of it can be read.
fn check_reached(chars: &Vec<char>, end: usize, readable: bool) -> (reached: bool)
    requires
        end <= chars.len(),
        readable == (json::object_reading(chars@) is Ok),
    ensures
        reached == is_reached(chars@, chars@.skip(end as int)),
{
    if readable {
        return true;
    }
    let mut front = text::string_between(chars, 0, end);
    front.push_str(":0}");
    assert(front@ =~= chars@.take(end as int) + ":0}"@);
    json::parse_members(front.as_str()).is_ok()
}

/// The error for a version that is given a second time, from the name `from` on.
fn find_repetition(
    chars: &Vec<char>,
    found: &Vec<Name>,
    from: usize,
    readable: bool,
) -> (error: Option<JsonError>)
    requires
        readable == (json::object_reading(chars@) is Ok),
        member_names::name_views(found@, chars@) == member_names::names_in(chars@),
        forall|i: int| 0 <= i < found.len() ==> (#[trigger] found[i]).end <= chars.len(),
    ensures
        match error {
            Some(error) => repetition_error(chars@, from as nat) == Some(error@),
            None => repetition_error(chars@, from as nat) is None,
        },
{
    let ghost names = member_names::names_in(chars@);
    match member_names::find_named(chars, found, "version", from) {
        Some(second) => {
            let end = found[second].end;
            assert(names[second as int].rest == chars@.skip(end as int));
            if check_reached(chars, end, readable) {
                Some(give_up(chars, end, "duplicate field `version`"))
            } else {
                None
            }
        },
        None => None,
    }
}

/// The version that `content` gives, or the error for it, where that comes before
/// any other; `readable` tells whether `content` is a JSON object.
fn find_version(content: &str, readable: bool) -> (result: Result<Option<Version>, JsonError>)
    requires
        readable == (json::object_reading(content@) is Ok),
    ensures
        match result {
            Ok(version) => {
                &&& version_error(content@) is None
                &&& readable ==> version_view(version) == match member_names::value_reading(
                    content@,
                    "version"@,
                ) {
                    Some(Ok(read)) => read,
                    _ => None,
                }
            },
            Err(error) => version_error(content@) == Some(error@),
        },
{
    let chars = text::chars_of(content);
    let found = member_names::find_names(&chars);
    let ghost names = member_names::names_in(chars@);
    let first = match member_names::find_named(&chars, &found, "version", 0) {
        Some(first) => first,
        None => {
            return Ok(None);
        },
    };
    let end = found[first].end;
    assert(names[first as int].rest == chars@.skip(end as int));
    if !check_reached(&chars, end, readable) {
        return Ok(None);
    }
    let version = match member_names::read_behind(&chars, end) {
        Some(Err(error)) => {
            return Err(error);
        },
        Some(Ok(Some(read))) => match Version::from_str(read.as_str()) {
            Ok(version) => Some(version),
            Err(_) => {
                return Err(refuse_version(&chars, end, read.as_str()));
            },
        },
        _ => None,
    };
    match find_repetition(&chars, &found, first + 1, readable) {
        Some(error) => Err(error),
        None => Ok(version),
    }
}

/// The error for a version that is none, behind the name that ends in front of
/// `end`.
fn refuse_version(chars: &Vec<char>, end: usize, version: &str) -> (error: JsonError)
    requires
        end <= chars.len(),
        member_names::after_colon(chars@.skip(end as int)) is Some,
    ensures
        error@ == error_behind(
            given_up(chars@, behind_value(chars@.skip(end as int))),
            invalid_version(version@),
        ),
{
    let mut what = String::new();
    what.push_str("invalid version `");
    what.push_str(version);
    what.push_str("`");
    assert(what@ =~= invalid_version(version@));
    let colon = member_names::space_end(chars, end);
    assert(chars@.skip(colon as int).drop_first() =~= chars@.skip(colon + 1));
    let value = member_names::space_end(chars, colon + 1);
    let ghost left = chars@.skip(value as int);
    if value < chars.len() {
        assert(left.drop_first() =~= chars@.skip(value + 1));
        give_up(chars, member_names::literal_end(chars, value + 1), what.as_str())
    } else {
        give_up(chars, value, what.as_str())
    }
}

/// An error of reading a map as an error of reading a configuration.
fn tell_for_configuration(error: JsonError) -> (told: JsonError)
    ensures
        told@ == for_configuration(error@),
{
    let place = tell_place(error.line, error.column);
    let mut end = String::new();
    end.push_str(", expected a map");
    end.push_str(place.as_str());
    assert(end@ =~= ", expected a map"@ + place@);
    let message = text::chars_of(error.message.as_str());
    let wanted = text::chars_of(end.as_str());
    if message.len() < wanted.len() {
        return error;
    }
    let front = message.len() - wanted.len();
    let found = text::string_between(&message, front, message.len());
    assert(found@ =~= message@.skip(front as int));
    if !found.as_str().eq(end.as_str()) {
        return error;
    }
    let mut told = text::string_between(&message, 0, front);
    told.push_str(", expected struct Json");
    told.push_str(place.as_str());
    assert(told@ =~= message@.take(front as int) + ", expected struct Json"@ + place@);
    JsonError { message: told, line: error.line, column: error.column }
}

/// Reads a configuration from a JSON text.  The error is the first one in the
/// text.
pub fn deserialize(text: &str) -> (result: Result<Configuration, JsonError>)
    ensures
        match result {
            Ok(configuration) => {
                &&& read_configuration(text@) == Some(configuration@)
                &&& jsonc::slashes_quoted(text@)
            },
            Err(error) => read_configuration(text@) is None && explains(error@, text@),
        },
{
    let members = json::parse_members(text);
    let version = match find_version(text, members.is_ok()) {
        Ok(version) => version,
        Err(error) => {
            return Err(error);
        },
    };
    match members {
        Ok(members) => {
            let other = Json::Object(json::remove_member(members, "version"));
            proof {
                json::lemma_json_view(other);
                let reading = member_names::value_reading(text@, "version"@);
                assert(!member_names::named_twice(text@, "version"@));
                assert(member_names::stands_for(
                    reading,
                    json::member(json::member_views(members@), "version"@),
                ));
            }
            Ok(Configuration { version, other })
        },
        Err(error) => Err(tell_for_configuration(error)),
    }
}

/// The version of a configuration is the text under `version`, and it has none
/// where nothing or null stands there.  A text that is no semantic version, a
/// value that is no text, and a second version cannot be read.
pub proof fn law_version_is_what_stands_under_version(
    text: Seq<char>,
    members: Seq<(Seq<char>, JsonView)>,
    version: Seq<char>,
)
    requires
        json::parsed(text) == Some(JsonView::Object(members)),
    ensures
        member_names::named_twice(text, "version"@) ==> read_version(text) is None,
        !member_names::named_twice(text, "version"@) ==> {
            &&& read_version(text) == Some(Some(version)) <==> json::member(members, "version"@)
                == Some(JsonView::Str(version)) && semver::is_semantic_version(version)
            &&& read_version(text) == Some(None::<Seq<char>>) <==> json::member(
                members,
                "version"@,
            ) is None || json::member(members, "version"@) == Some(JsonView::Null)
            &&& json::member(members, "version"@) == Some(JsonView::Str(version))
                && !semver::is_semantic_version(version) ==> read_version(text) is None
            &&& json::member(members, "version"@) is Some && !(json::member(
                members,
                "version"@,
            )->0 is Null) && !(json::member(members, "version"@)->0 is Str) ==> read_version(
                text,
            ) is None
        },
{
}

/// No version is read from a text that holds no object.
pub proof fn law_version_is_that_of_an_object(text: Seq<char>)
    requires
        json::parsed(text) is None || !(json::parsed(text)->0 is Object),
    ensures
        read_version(text) is None,
{
}

/// What else a configuration holds are all members of its object but the version,
/// in order.
pub proof fn law_other_members_are_kept(text: Seq<char>)
    ensures
        read_configuration(text) is Some <==> read_version(text) is Some,
        read_configuration(text) matches Some(configuration) ==> {
            &&& Some(configuration.version) == read_version(text)
            &&& json::parsed(text) matches Some(JsonView::Object(members))
            &&& configuration.other == JsonView::Object(
                members.filter(|member: (Seq<char>, JsonView)| member.0 != "version"@),
            )
        },
{
    if let Some(JsonView::Object(members)) = json::parsed(text) {
        let name = "version"@;
        json::law_without_member_keeps_the_others(members, name);
        assert((|member: (Seq<char>, JsonView)| member.0 != name) =~= (|
            member: (Seq<char>, JsonView),
        | member.0 != "version"@));
    }
}

/// The place of an error is its line, which is one more behind a line break, and
/// the number of bytes in front of it on that line.
pub proof fn law_place_counts_lines_and_bytes(
    front: Seq<char>,
    line: Seq<char>,
    what: Seq<char>,
)
    requires
        forall|i: int| 0 <= i < line.len() ==> line[i] != '\n',
    ensures
        error_behind(line, what).line == 1,
        error_behind(line, what).column == text::byte_count(line),
        error_behind(front + seq!['\n'] + line, what).line == error_behind(front, what).line + 1,
        error_behind(front + seq!['\n'] + line, what).column == text::byte_count(line),
{
    text::law_text_without_the_mark_is_one_piece(line, '\n');
    text::law_pieces_in_front_and_behind(front, line, '\n');
    assert((text::pieces(front, '\n') + seq![line]).last() == line);
}

/// An error says what is wrong, then its line, then its column, in decimal digits.
pub proof fn law_error_says_what_and_where(front: Seq<char>, what: Seq<char>)
    ensures
        ({
            let error = error_behind(front, what);
            let line = text::decimal(error.line);
            let column = text::decimal(error.column);
            &&& error.message.len() == what.len() + 9 + line.len() + 8 + column.len()
            &&& error.message.take(what.len() as int) == what
            &&& error.message.subrange(what.len() as int, what.len() as int + 9) == " at line "@
            &&& error.message.subrange(what.len() as int + 9, what.len() as int + 9 + line.len()) == line
            &&& error.message.subrange(
                what.len() as int + 9 + line.len() as int,
                what.len() as int + 17 + line.len() as int,
            ) == " column "@
            &&& error.message.skip(what.len() as int + 17 + line.len() as int) == column
        }),
{
    reveal_strlit(" at line ");
    reveal_strlit(" column ");
    let error = error_behind(front, what);
    let line = text::decimal(error.line);
    let column = text::decimal(error.column);
    let message = error.message;
    assert(message.take(what.len() as int) =~= what);
    assert(message.subrange(what.len() as int, what.len() as int + 9) =~= " at line "@);
    assert(message.subrange(what.len() as int + 9, what.len() as int + 9 + line.len()) =~= line);
    assert(message.subrange(
        what.len() as int + 9 + line.len() as int,
        what.len() as int + 17 + line.len() as int,
    ) =~= " column "@);
    assert(message.skip(what.len() as int + 17 + line.len() as int) =~= column);
}

/// An error that says that a map was expected says instead that a `struct Json`
/// was, at the same place; any other error is told as it is.
pub proof fn law_expected_map_is_told_as_a_configuration(front: Seq<char>, line: nat, column: nat)
    ensures
        ({
            let error = JsonErrorView {
                message: front + ", expected a map"@ + place_text(line, column),
                line,
                column,
            };
            for_configuration(error) == JsonErrorView {
                message: front + ", expected struct Json"@ + place_text(line, column),
                line,
                column,
            }
        }),
        forall|error: JsonErrorView|
            (#[trigger] for_configuration(error)).line == error.line && for_configuration(
                error,
            ).column == error.column,
{
    let end = ", expected a map"@ + place_text(line, column);
    let message = front + ", expected a map"@ + place_text(line, column);
    assert(message =~= front + end);
    assert(message.skip(message.len() - end.len()) =~= end);
    assert(message.take(message.len() - end.len()) =~= front);
}

/// A member is given up behind the white space that follows it, and behind the
/// end of the object where that comes next.
pub proof fn law_member_is_given_up_behind_white_space(
    front: Seq<char>,
    space: Seq<char>,
    rest: Seq<char>,
)
    requires
        forall|i: int|
            0 <= i < space.len() ==> space[i] == ' ' || space[i] == '\n' || space[i] == '\t'
                || space[i] == '\r',
        rest.len() > 0 ==> rest[0] != ' ' && rest[0] != '\n' && rest[0] != '\t' && rest[0]
            != '\r',
    ensures
        rest.len() > 0 && rest[0] == '}' ==> given_up(front + space + rest, space + rest) == front
            + space + seq!['}'],
        !(rest.len() > 0 && rest[0] == '}') ==> given_up(front + space + rest, space + rest)
            == front + space,
{
    member_names::law_white_space_is_passed_over(space, rest);
    let text = front + space + rest;
    let read = text.len() - rest.len();
    assert(text.take(read) =~= front + space);
    if rest.len() > 0 && rest[0] == '}' {
        assert(text.take(read + 1) =~= front + space + seq!['}']);
    }
}

/// The value behind a name ends with the quotation mark of its string literal.
pub proof fn law_value_ends_with_its_quotation_mark(
    space: Seq<char>,
    content: Seq<char>,
    rest: Seq<char>,
)
    requires
        forall|i: int|
            0 <= i < space.len() ==> space[i] == ' ' || space[i] == '\n' || space[i] == '\t'
                || space[i] == '\r',
        forall|i: int| 0 <= i < content.len() ==> content[i] != '"' && content[i] != '\\',
    ensures
        behind_value(space + (seq![':'] + (space + (seq!['"'] + (content + seq!['"'] + rest)))))
            == rest,
{
    let literal = seq!['"'] + (content + seq!['"'] + rest);
    let value = space + literal;
    let colon = seq![':'] + value;
    member_names::law_white_space_is_passed_over(space, colon);
    assert(colon.drop_first() =~= value);
    member_names::law_white_space_is_passed_over(space, literal);
    assert(literal.drop_first() =~= content + seq!['"'] + rest);
    member_names::law_literal_ends_with_its_quotation_mark(content, '"', rest);
}

/// A version that is no semantic version is told, in its own words: it is the
/// only error for its text, whatever stands behind it.
pub proof fn law_invalid_version_is_told(text: Seq<char>, first: nat, version: Seq<char>)
    requires
        member_names::named_from(member_names::names_in(text), "version"@, 0) == Some(first),
        is_reached(text, member_names::names_in(text)[first as int].rest),
        member_names::reading_behind(text, member_names::names_in(text)[first as int].rest) == Some(
            Ok::<Option<Seq<char>>, JsonErrorView>(Some(version)),
        ),
        !semver::is_semantic_version(version),
    ensures
        ({
            let length = 18 + version.len() as int;
            &&& version_error(text) matches Some(error)
            &&& error.message.len() > length
            &&& error.message.take(17) == "invalid version `"@
            &&& error.message.subrange(17, length - 1) == version
            &&& error.message[length - 1] == '`'
            &&& error.message.skip(length) == place_text(error.line, error.column)
            &&& forall|other: JsonErrorView| #[trigger] explains(other, text) ==> other == error
        }),
{
    reveal_strlit("invalid version `");
    reveal_strlit("`");
    reveal_strlit(" at line ");
    let message = version_error(text)->0.message;
    let length = 18 + version.len() as int;
    assert(message.take(17) =~= "invalid version `"@);
    assert(message.subrange(17, length - 1) =~= version);
    assert(message.skip(length) =~= place_text(
        version_error(text)->0.line,
        version_error(text)->0.column,
    ));
}

/// A version that is given a second time is told where that is reached, if the
/// first one is in order.
pub proof fn law_second_version_is_told(text: Seq<char>, first: nat, second: nat)
    requires
        member_names::named_from(member_names::names_in(text), "version"@, 0) == Some(first),
        is_reached(text, member_names::names_in(text)[first as int].rest),
        match member_names::reading_behind(
            text,
            member_names::names_in(text)[first as int].rest,
        ) {
            Some(Ok(Some(version))) => semver::is_semantic_version(version),
            Some(Err(_)) => false,
            _ => true,
        },
        member_names::named_from(member_names::names_in(text), "version"@, first + 1) == Some(
            second,
        ),
        is_reached(text, member_names::names_in(text)[second as int].rest),
    ensures
        ({
            &&& version_error(text) matches Some(error)
            &&& error.message == "duplicate field `version`"@ + place_text(error.line, error.column)
            &&& forall|other: JsonErrorView| #[trigger] explains(other, text) ==> other == error
        }),
{
}

/// A version that can be read as no string and as no null is told as it was
/// found.
pub proof fn law_error_of_the_version_is_told(text: Seq<char>, first: nat, error: JsonErrorView)
    requires
        member_names::named_from(member_names::names_in(text), "version"@, 0) == Some(first),
        is_reached(text, member_names::names_in(text)[first as int].rest),
        member_names::reading_behind(text, member_names::names_in(text)[first as int].rest) == Some(
            Err::<Option<Seq<char>>, JsonErrorView>(error),
        ),
    ensures
        forall|other: JsonErrorView| #[trigger] explains(other, text) <==> other == error,
{
}

/// A name is reached where all of the text can be read, and where all up to the
/// name can be, with any value behind it; otherwise it is not.
pub proof fn law_name_is_reached_where_the_front_can_be_read(front: Seq<char>, rest: Seq<char>)
    ensures
        json::object_reading(front + rest) is Ok ==> is_reached(front + rest, rest),
        json::object_reading(front + seq![':', '0', '}']) is Ok ==> is_reached(front + rest, rest),
        json::object_reading(front + rest) is Err && json::object_reading(
            front + seq![':', '0', '}'],
        ) is Err ==> !is_reached(front + rest, rest),
{
    reveal_strlit(":0}");
    assert(":0}"@ =~= seq![':', '0', '}']);
    assert((front + rest).take((front + rest).len() - rest.len()) =~= front);
}

/// Where the version is in order, or there is none, the error of reading the
/// object is told, at its place; one that does not say that a map was expected is
/// told in its own words.
pub proof fn law_other_errors_are_told(text: Seq<char>, error: JsonErrorView, told: JsonErrorView)
    requires
        version_error(text) is None,
        json::object_reading(text) == Err::<Seq<(Seq<char>, JsonView)>, JsonErrorView>(error),
    ensures
        explains(told, text) ==> told.line == error.line && told.column == error.column,
        !(exists|front: Seq<char>|
            error.message == #[trigger] (front + (", expected a map"@ + place_text(
                error.line,
                error.column,
            )))) ==> (explains(told, text) <==> told == error),
        forall|front: Seq<char>|
            error.message == #[trigger] (front + (", expected a map"@ + place_text(
                error.line,
                error.column,
            ))) ==> (explains(told, text) <==> told == (JsonErrorView {
                message: front + (", expected struct Json"@ + place_text(
                    error.line,
                    error.column,
                )),
                line: error.line,
                column: error.column,
            })),
{
    let place = place_text(error.line, error.column);
    let end = ", expected a map"@ + place;
    let start = error.message.len() - end.len();
    if start >= 0 && error.message.skip(start) == end {
        assert(error.message =~= error.message.take(start) + end);
    }
    assert forall|front: Seq<char>| error.message == #[trigger] (front + end) implies (explains(
        told,
        text,
    ) <==> told == (JsonErrorView {
        message: front + (", expected struct Json"@ + place),
        line: error.line,
        column: error.column,
    })) by {
        assert((front + end).skip(start) =~= end);
        assert((front + end).take(start) =~= front);
        assert(front + ", expected struct Json"@ + place =~= front + (", expected struct Json"@
            + place));
    }
}

/// There is no error for a text whose version is in order and that can be read.
pub proof fn law_readable_text_has_no_error(text: Seq<char>, error: JsonErrorView)
    requires
        version_error(text) is None,
        json::object_reading(text) is Ok,
    ensures
        !explains(error, text),
{
}

} // verus!
