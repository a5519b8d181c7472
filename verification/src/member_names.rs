//! The names in the text of a JSON object, repeated ones included, and what
//! stands behind them.

use vstd::prelude::*;

use crate::json;
use crate::json::{Json, JsonError, JsonErrorView, JsonView};
use crate::text;

verus! {

/// What is left of `text` behind the string literal that it begins in.
pub open spec fn after_literal(text: Seq<char>) -> Seq<char>
    decreases text.len(),
{
    if text.len() == 0 {
        text
    } else if text[0] == '\\' && text.len() >= 2 {
        after_literal(text.skip(2))
    } else if text[0] == '"' {
        text.drop_first()
    } else {
        after_literal(text.drop_first())
    }
}

/// A name in the text of an object: the string literal, and what is left of the
/// text behind it.
pub struct NameView {
    pub literal: Seq<char>,
    pub rest: Seq<char>,
}

/// The names of the members of the outermost object, where `text` begins `depth`
/// arrays and objects deep and `name_due` tells whether a literal would be a
/// name.
pub open spec fn names_from(text: Seq<char>, depth: int, name_due: bool) -> Seq<NameView>
    decreases text.len(),
{
    if text.len() == 0 {
        Seq::empty()
    } else if text[0] == '"' {
        proof { lemma_after_literal_shrinks(text.drop_first()); }
        let rest = after_literal(text.drop_first());
        if depth == 1 && name_due {
            let literal = text.take(text.len() - rest.len());
            seq![NameView { literal, rest }] + names_from(rest, depth, false)
        } else {
            names_from(rest, depth, name_due)
        }
    } else if text[0] == '{' {
        names_from(text.drop_first(), depth + 1, depth == 0)
    } else if text[0] == '[' {
        names_from(text.drop_first(), depth + 1, false)
    } else if text[0] == '}' || text[0] == ']' {
        names_from(text.drop_first(), depth - 1, false)
    } else if text[0] == ',' {
        names_from(text.drop_first(), depth, depth == 1)
    } else {
        names_from(text.drop_first(), depth, name_due)
    }
}

/// The names of the members of the object that `text` holds, in order.
pub open spec fn names_in(text: Seq<char>) -> Seq<NameView> {
    names_from(text, 0, false)
}

/// Which one of `names`, from `from` on, is the first that spells `name`.
pub open spec fn named_from(names: Seq<NameView>, name: Seq<char>, from: nat) -> Option<nat>
    decreases names.len() - from,
{
    if from >= names.len() {
        None
    } else if json::parsed(names[from as int].literal) == Some(JsonView::Str(name)) {
        Some(from)
    } else {
        named_from(names, name, from + 1)
    }
}

/// Whether the object that `text` holds has two members called `name`.
pub open spec fn named_twice(text: Seq<char>, name: Seq<char>) -> bool {
    named_from(names_in(text), name, 0) matches Some(first) && named_from(
        names_in(text),
        name,
        first + 1,
    ) is Some
}

/// Whether `ch` is white space between the parts of a JSON text.
pub open spec fn is_space(ch: char) -> bool {
    ch == ' ' || ch == '\n' || ch == '\t' || ch == '\r'
}

/// What is left of `text` behind the white space at its beginning.
pub open spec fn after_space(text: Seq<char>) -> Seq<char>
    decreases text.len(),
{
    if text.len() > 0 && is_space(text[0]) {
        after_space(text.drop_first())
    } else {
        text
    }
}

/// What is left of `text` behind the colon that it begins with, if it begins
/// with one.
pub open spec fn after_colon(text: Seq<char>) -> Option<Seq<char>> {
    let behind = after_space(text);
    if behind.len() > 0 && behind[0] == ':' {
        Some(behind.drop_first())
    } else {
        None
    }
}

/// White space that takes the place of `ch`: as many bytes, and a line break for
/// a line break.
pub open spec fn blank(ch: char) -> Seq<char> {
    if ch == '\n' {
        seq!['\n']
    } else {
        Seq::new(text::byte_count(seq![ch]), |i: int| ' ')
    }
}

/// White space that takes the place of `text`.
pub open spec fn blanked(text: Seq<char>) -> Seq<char>
    decreases text.len(),
{
    if text.len() == 0 {
        text
    } else {
        blanked(text.drop_last()) + blank(text.last())
    }
}

/// What reading the value behind a name as a string or null gives; `rest` is
/// what is left of `text` behind the name.  White space takes the place of all
/// that stands in front of the value, so that an error tells its place in
/// `text`.
pub open spec fn reading_behind(text: Seq<char>, rest: Seq<char>) -> Option<
    Result<Option<Seq<char>>, JsonErrorView>,
> {
    match after_colon(rest) {
        Some(value) => Some(
            json::text_reading(blanked(text.take(text.len() - value.len())) + value),
        ),
        None => None,
    }
}

/// What reading the value of the first member called `name` as a string or null
/// gives.
pub open spec fn value_reading(text: Seq<char>, name: Seq<char>) -> Option<
    Result<Option<Seq<char>>, JsonErrorView>,
> {
    match named_from(names_in(text), name, 0) {
        Some(at) => reading_behind(text, names_in(text)[at as int].rest),
        None => None,
    }
}

/// Whether `value` is what `reading` found of it.
pub open spec fn stands_for(
    reading: Option<Result<Option<Seq<char>>, JsonErrorView>>,
    value: Option<JsonView>,
) -> bool {
    match value {
        None => reading is None,
        Some(JsonView::Null) => reading == Some(Ok::<Option<Seq<char>>, JsonErrorView>(None)),
        Some(JsonView::Str(text)) => reading == Some(
            Ok::<Option<Seq<char>>, JsonErrorView>(Some(text)),
        ),
        Some(_) => reading matches Some(Err(_)),
    }
}

pub proof fn lemma_after_literal_shrinks(text: Seq<char>)
    ensures
        after_literal(text).len() <= text.len(),
    decreases text.len(),
{
    if text.len() == 0 {
    } else if text[0] == '\\' && text.len() >= 2 {
        lemma_after_literal_shrinks(text.skip(2));
    } else if text[0] != '"' {
        lemma_after_literal_shrinks(text.drop_first());
    }
}

/// The index behind the string literal whose text begins at `start`.
pub fn literal_end(chars: &Vec<char>, start: usize) -> (end: usize)
    requires
        start <= chars.len(),
    ensures
        start <= end <= chars.len(),
        chars@.skip(end as int) == after_literal(chars@.skip(start as int)),
{
    let mut end: usize = start;
    while end < chars.len()
        invariant
            start <= end <= chars.len(),
            after_literal(chars@.skip(end as int)) == after_literal(chars@.skip(start as int)),
        decreases chars.len() - end,
    {
        let ghost left = chars@.skip(end as int);
        assert(left.drop_first() =~= chars@.skip(end + 1));
        if chars[end] == '\\' && chars.len() - end >= 2 {
            assert(left.skip(2) =~= chars@.skip(end + 2));
            end = end + 2;
        } else if chars[end] == '"' {
            return end + 1;
        } else {
            end = end + 1;
        }
    }
    end
}

/// The index behind the white space at `start`.
pub fn space_end(chars: &Vec<char>, start: usize) -> (end: usize)
    requires
        start <= chars.len(),
    ensures
        start <= end <= chars.len(),
        chars@.skip(end as int) == after_space(chars@.skip(start as int)),
{
    let mut end: usize = start;
    while end < chars.len() && (chars[end] == ' ' || chars[end] == '\n' || chars[end] == '\t'
        || chars[end] == '\r')
        invariant
            start <= end <= chars.len(),
            after_space(chars@.skip(end as int)) == after_space(chars@.skip(start as int)),
        decreases chars.len() - end,
    {
        assert(chars@.skip(end as int).drop_first() =~= chars@.skip(end + 1));
        end = end + 1;
    }
    end
}

/// A name in the text of an object, and the index behind it.
pub struct Name {
    pub literal: String,
    pub end: usize,
}

/// The names that `found` stands for in `chars`.
pub open spec fn name_views(found: Seq<Name>, chars: Seq<char>) -> Seq<NameView> {
    found.map_values(
        |name: Name| NameView { literal: name.literal@, rest: chars.skip(name.end as int) },
    )
}

/// The names of the members of the object that `chars` hold.
pub fn find_names(chars: &Vec<char>) -> (found: Vec<Name>)
    ensures
        name_views(found@, chars@) == names_in(chars@),
        forall|i: int| 0 <= i < found.len() ==> (#[trigger] found[i]).end <= chars.len(),
{
    let mut found: Vec<Name> = Vec::new();
    let mut depth: i128 = 0;
    let mut name_due = false;
    let mut next: usize = 0;
    assert(chars@.skip(0) =~= chars@);
    assert(name_views(found@, chars@) + names_in(chars@) =~= names_in(chars@));
    while next < chars.len()
        invariant
            next <= chars.len(),
            -next <= depth <= next,
            name_views(found@, chars@) + names_from(
                chars@.skip(next as int),
                depth as int,
                name_due,
            ) == names_in(chars@),
            forall|i: int| 0 <= i < found.len() ==> (#[trigger] found[i]).end <= chars.len(),
        decreases chars.len() - next,
    {
        let ghost left = chars@.skip(next as int);
        let ghost before = name_views(found@, chars@);
        let ch = chars[next];
        assert(left[0] == ch);
        assert(left.drop_first() =~= chars@.skip(next + 1));
        if ch == '"' {
            let end = literal_end(chars, next + 1);
            let ghost rest = chars@.skip(end as int);
            if depth == 1 && name_due {
                let literal = text::string_between(chars, next, end);
                assert(left.take(left.len() - rest.len()) =~= literal@);
                found.push(Name { literal, end });
                name_due = false;
                let ghost view = NameView { literal: literal@, rest };
                assert(name_views(found@, chars@) =~= before.push(view));
                assert(before.push(view) + names_from(rest, 1, false) =~= before + (seq![view]
                    + names_from(rest, 1, false)));
            }
            next = end;
        } else {
            if ch == '{' {
                name_due = depth == 0;
                depth = depth + 1;
            } else if ch == '[' {
                name_due = false;
                depth = depth + 1;
            } else if ch == '}' || ch == ']' {
                name_due = false;
                depth = depth - 1;
            } else if ch == ',' {
                name_due = depth == 1;
            }
            next = next + 1;
        }
    }
    assert(name_views(found@, chars@) + Seq::<NameView>::empty() =~= name_views(found@, chars@));
    found
}

/// Whether `literal` spells `name`.
fn check_spelling(literal: &str, name: &str) -> (same: bool)
    ensures
        same == (json::parsed(literal@) == Some(JsonView::Str(name@))),
{
    match json::parse(literal) {
        Ok(Json::Str(spelled)) => spelled.as_str().eq(name),
        Ok(_) => false,
        Err(_) => false,
    }
}

/// Which one of the names that were found in `chars`, from `from` on, is the
/// first that spells `name`.
pub fn find_named(chars: &Vec<char>, found: &Vec<Name>, name: &str, from: usize) -> (at: Option<
    usize,
>)
    ensures
        match at {
            Some(at) => {
                &&& from <= at < found.len()
                &&& named_from(name_views(found@, chars@), name@, from as nat) == Some(at as nat)
            },
            None => named_from(name_views(found@, chars@), name@, from as nat) is None,
        },
{
    let ghost views = name_views(found@, chars@);
    let mut at: usize = from;
    while at < found.len()
        invariant
            from <= at,
            views == name_views(found@, chars@),
            named_from(views, name@, at as nat) == named_from(views, name@, from as nat),
        decreases found.len() - at,
    {
        assert(views[at as int].literal == found[at as int].literal@);
        if check_spelling(found[at].literal.as_str(), name) {
            return Some(at);
        }
        at = at + 1;
    }
    None
}

/// White space that takes the place of `chars[..end]`.
fn blank_up_to(chars: &Vec<char>, end: usize) -> (space: String)
    requires
        end <= chars.len(),
    ensures
        space@ == blanked(chars@.take(end as int)),
{
    let mut space = String::new();
    let mut at: usize = 0;
    assert(chars@.take(0) =~= Seq::empty());
    while at < end
        invariant
            at <= end <= chars.len(),
            space@ == blanked(chars@.take(at as int)),
        decreases end - at,
    {
        let ch = chars[at];
        let ghost before = space@;
        assert(chars@.take(at + 1).drop_last() =~= chars@.take(at as int));
        assert(chars@.take(at + 1).last() == ch);
        if ch == '\n' {
            space.push('\n');
            assert(space@ =~= before + blank(ch));
        } else {
            let mut single = String::new();
            single.push(ch);
            assert(single@ =~= seq![ch]);
            let count = text::count_bytes(single.as_str());
            let mut pushed: usize = 0;
            while pushed < count
                invariant
                    pushed <= count,
                    space@ == before + Seq::new(pushed as nat, |i: int| ' '),
                decreases count - pushed,
            {
                space.push(' ');
                pushed = pushed + 1;
                assert(space@ =~= before + Seq::new(pushed as nat, |i: int| ' '));
            }
            assert(Seq::new(count as nat, |i: int| ' ') =~= blank(ch));
        }
        at = at + 1;
    }
    space
}

/// Reads the value behind a name that ends in front of `end`.
pub fn read_behind(chars: &Vec<char>, end: usize) -> (read: Option<
    Result<Option<String>, JsonError>,
>)
    requires
        end <= chars.len(),
    ensures
        match read {
            Some(Ok(read)) => reading_behind(chars@, chars@.skip(end as int)) == Some(
                Ok::<Option<Seq<char>>, JsonErrorView>(text::option_view(read)),
            ),
            Some(Err(error)) => reading_behind(chars@, chars@.skip(end as int)) == Some(
                Err::<Option<Seq<char>>, JsonErrorView>(error@),
            ),
            None => reading_behind(chars@, chars@.skip(end as int)) is None,
        },
{
    let colon = space_end(chars, end);
    let ghost behind = chars@.skip(colon as int);
    if colon >= chars.len() || chars[colon] != ':' {
        return None;
    }
    let value = colon + 1;
    assert(behind.drop_first() =~= chars@.skip(value as int));
    let mut content = blank_up_to(chars, value);
    let rest = text::string_between(chars, value, chars.len());
    assert(rest@ =~= chars@.skip(value as int));
    content.push_str(rest.as_str());
    Some(json::text_from_start(content.as_str()))
}

/// A string literal ends with the first quotation mark that no backslash stands
/// in front of: what stands behind a backslash never ends it.
pub proof fn law_literal_ends_with_its_quotation_mark(
    content: Seq<char>,
    escaped: char,
    rest: Seq<char>,
)
    requires
        forall|i: int| 0 <= i < content.len() ==> content[i] != '"' && content[i] != '\\',
    ensures
        after_literal(content + seq!['"'] + rest) == rest,
        after_literal(content + seq!['\\', escaped] + rest) == after_literal(rest),
    decreases content.len(),
{
    let plain = content + seq!['"'] + rest;
    let escape = content + seq!['\\', escaped] + rest;
    if content.len() == 0 {
        assert(plain.drop_first() =~= rest);
        assert(escape.skip(2) =~= rest);
    } else {
        law_literal_ends_with_its_quotation_mark(content.drop_first(), escaped, rest);
        assert(plain.drop_first() =~= content.drop_first() + seq!['"'] + rest);
        assert(escape.drop_first() =~= content.drop_first() + seq!['\\', escaped] + rest);
    }
}

proof fn lemma_plain_holds_no_names(value: Seq<char>, rest: Seq<char>, depth: int)
    requires
        forall|i: int|
            0 <= i < value.len() ==> value[i] != '"' && value[i] != '{' && value[i] != '['
                && value[i] != '}' && value[i] != ']' && value[i] != ',',
    ensures
        names_from(value + rest, depth, false) == names_from(rest, depth, false),
    decreases value.len(),
{
    if value.len() == 0 {
        assert(value + rest =~= rest);
    } else {
        lemma_plain_holds_no_names(value.drop_first(), rest, depth);
        assert((value + rest).drop_first() =~= value.drop_first() + rest);
    }
}

/// The names in the text of an object are the string literals in front of its
/// values, one after the other; a string literal that is a value is none, nor is
/// one inside of a value that is an object itself.
pub proof fn law_names_stand_in_front_of_values(
    name: Seq<char>,
    value: Seq<char>,
    rest: Seq<char>,
)
    requires
        forall|i: int| 0 <= i < name.len() ==> name[i] != '"' && name[i] != '\\',
        forall|i: int|
            0 <= i < value.len() ==> value[i] != '"' && value[i] != '{' && value[i] != '['
                && value[i] != '}' && value[i] != ']' && value[i] != ',',
    ensures
        ({
            let literal = seq!['"'] + name + seq!['"'];
            &&& names_in(seq!['{'] + literal + value + seq!['}']) == seq![
                NameView { literal, rest: value + seq!['}'] },
            ]
            &&& names_in(seq!['{'] + rest) == names_from(rest, 1, true)
            &&& names_from(literal + value + seq![','] + rest, 1, true) == seq![
                NameView { literal, rest: value + seq![','] + rest },
            ] + names_from(rest, 1, true)
            &&& names_from(literal + rest, 1, false) == names_from(rest, 1, false)
            &&& names_from(seq!['{'] + literal + value + seq!['}'] + rest, 1, false) == names_from(
                rest,
                1,
                false,
            )
        }),
{
    let literal = seq!['"'] + name + seq!['"'];
    assert forall|behind: Seq<char>| after_literal((#[trigger] (literal + behind)).drop_first())
        == behind && (literal + behind).take((literal + behind).len() - behind.len())
        == literal by {
        law_literal_ends_with_its_quotation_mark(name, '"', behind);
        assert((literal + behind).drop_first() =~= name + seq!['"'] + behind);
        assert((literal + behind).take(literal.len() as int) =~= literal);
    }
    let end = value + seq!['}'];
    let whole = seq!['{'] + literal + value + seq!['}'];
    assert(whole.drop_first() =~= literal + end);
    lemma_plain_holds_no_names(value, seq!['}'], 1);
    assert(seq!['}'].drop_first() =~= Seq::empty());
    assert(names_from(seq!['}'], 1, false) =~= Seq::empty()) by {
        assert(names_from(Seq::empty(), 0, false) =~= Seq::empty());
    }
    assert(names_from(literal + end, 1, true) =~= seq![NameView { literal, rest: end }]);
    assert((seq!['{'] + rest).drop_first() =~= rest);
    let next = value + seq![','] + rest;
    assert(literal + value + seq![','] + rest =~= literal + next);
    lemma_plain_holds_no_names(value, seq![','] + rest, 1);
    assert(value + (seq![','] + rest) =~= next);
    assert((seq![','] + rest).drop_first() =~= rest);
    let inner = literal + (value + (seq!['}'] + rest));
    let nested = seq!['{'] + literal + value + seq!['}'] + rest;
    assert(nested.drop_first() =~= inner);
    assert(names_from(nested, 1, false) == names_from(inner, 2, false));
    lemma_plain_holds_no_names(value, seq!['}'] + rest, 2);
    assert((seq!['}'] + rest).drop_first() =~= rest);
    assert(names_from(inner, 2, false) == names_from(rest, 1, false));
    assert(names_from(literal + next, 1, true) == seq![NameView { literal, rest: next }]
        + names_from(next, 1, false));
    assert(names_from(next, 1, false) == names_from(rest, 1, true));
    assert(names_from(whole, 0, false) == names_from(literal + end, 1, true));
    assert(names_from(seq!['{'] + rest, 0, false) == names_from(rest, 1, true));
    assert(names_from(literal + rest, 1, false) == names_from(rest, 1, false));
}

/// The first name that spells another is found, and no other.
pub proof fn law_first_spelling_is_found(names: Seq<NameView>, name: Seq<char>, from: nat, at: nat)
    ensures
        named_from(names, name, from) == Some(at) <==> from <= at < names.len() && json::parsed(
            names[at as int].literal,
        ) == Some(JsonView::Str(name)) && forall|i: int|
            from <= i < at ==> json::parsed((#[trigger] names[i]).literal) != Some(
                JsonView::Str(name),
            ),
        named_from(names, name, from) is None <==> forall|i: int|
            from <= i < names.len() ==> json::parsed((#[trigger] names[i]).literal) != Some(
                JsonView::Str(name),
            ),
    decreases names.len() - from,
{
    if from < names.len() {
        law_first_spelling_is_found(names, name, from + 1, at);
    }
}

/// An object has two members of a name exactly where two of the names in its text
/// spell it.
pub proof fn law_named_twice_is_spelled_twice(text: Seq<char>, name: Seq<char>)
    ensures
        named_twice(text, name) <==> exists|i: int, j: int|
            0 <= i < j < names_in(text).len() && json::parsed(
                (#[trigger] names_in(text)[i]).literal,
            ) == Some(JsonView::Str(name)) && json::parsed((#[trigger] names_in(text)[j]).literal)
                == Some(JsonView::Str(name)),
{
    let names = names_in(text);
    let first = named_from(names, name, 0);
    law_first_spelling_is_found(names, name, 0, first->0);
    if first is Some {
        let second = named_from(names, name, first->0 + 1);
        law_first_spelling_is_found(names, name, first->0 + 1, second->0);
        if second is Some {
            assert(json::parsed(names[first->0 as int].literal) == Some(JsonView::Str(name)));
            assert(json::parsed(names[second->0 as int].literal) == Some(JsonView::Str(name)));
        }
    }
}

/// White space that takes the place of a text has as many bytes, and as many
/// lines, the last of which has as many bytes too.
pub proof fn law_blank_keeps_the_place(text: Seq<char>)
    ensures
        text::byte_count(blanked(text)) == text::byte_count(text),
        text::pieces(blanked(text), '\n').len() == text::pieces(text, '\n').len(),
        text::byte_count(text::pieces(blanked(text), '\n').last()) == text::byte_count(
            text::pieces(text, '\n').last(),
        ),
        forall|i: int| 0 <= i < blanked(text).len() ==> is_space(#[trigger] blanked(text)[i]),
    decreases text.len(),
{
    if text.len() > 0 {
        let front = text.drop_last();
        let ch = text.last();
        law_blank_keeps_the_place(front);
        assert(text =~= front + seq![ch]);
        lemma_bytes_add(front, seq![ch]);
        lemma_bytes_add(blanked(front), blank(ch));
        if ch == '\n' {
            assert((blanked(front) + seq!['\n']).drop_last() =~= blanked(front));
        } else {
            let count = text::byte_count(seq![ch]);
            lemma_spaces(count);
            lemma_pieces_add_plain(blanked(front), blank(ch));
            text::law_no_piece_holds_the_mark(front, '\n');
            text::law_no_piece_holds_the_mark(blanked(front), '\n');
            let line = text::pieces(front, '\n').last();
            lemma_bytes_add(line, seq![ch]);
            assert(line.push(ch) =~= line + seq![ch]);
            lemma_bytes_add(text::pieces(blanked(front), '\n').last(), blank(ch));
        }
    }
}

proof fn lemma_bytes_add(front: Seq<char>, back: Seq<char>)
    ensures
        text::byte_count(front + back) == text::byte_count(front) + text::byte_count(back),
    decreases front.len(),
{
    if front.len() == 0 {
        assert(front + back =~= back);
    } else {
        lemma_bytes_add(front.drop_first(), back);
        assert((front + back).drop_first() =~= front.drop_first() + back);
    }
}

proof fn lemma_spaces(count: nat)
    ensures
        text::byte_count(Seq::new(count, |i: int| ' ')) == count,
{
    vstd::utf8::is_ascii_chars_encode_utf8(Seq::new(count, |i: int| ' '));
}

/// A text without a line break only makes the last line longer.
proof fn lemma_pieces_add_plain(front: Seq<char>, back: Seq<char>)
    requires
        forall|i: int| 0 <= i < back.len() ==> back[i] != '\n',
    ensures
        text::pieces(front, '\n').len() > 0,
        text::pieces(front + back, '\n').len() == text::pieces(front, '\n').len(),
        text::pieces(front + back, '\n').last() == text::pieces(front, '\n').last() + back,
    decreases back.len(),
{
    text::law_no_piece_holds_the_mark(front, '\n');
    let line = text::pieces(front, '\n').last();
    if back.len() == 0 {
        assert(front + back =~= front);
        assert(line + back =~= line);
    } else {
        lemma_pieces_add_plain(front, back.drop_last());
        assert((front + back).drop_last() =~= front + back.drop_last());
        assert((front + back).last() == back.last());
        assert((line + back.drop_last()).push(back.last()) =~= line + back);
    }
}

/// White space at the beginning is passed over, all of it and nothing else.
pub proof fn law_white_space_is_passed_over(space: Seq<char>, rest: Seq<char>)
    requires
        forall|i: int|
            0 <= i < space.len() ==> space[i] == ' ' || space[i] == '\n' || space[i] == '\t'
                || space[i] == '\r',
        rest.len() > 0 ==> rest[0] != ' ' && rest[0] != '\n' && rest[0] != '\t' && rest[0]
            != '\r',
    ensures
        after_space(space + rest) == rest,
        rest.len() > 0 && rest[0] == ':' ==> after_colon(space + rest) == Some(rest.drop_first()),
        !(rest.len() > 0 && rest[0] == ':') ==> after_colon(space + rest) is None,
    decreases space.len(),
{
    if space.len() == 0 {
        assert(space + rest =~= rest);
    } else {
        law_white_space_is_passed_over(space.drop_first(), rest);
        assert((space + rest).drop_first() =~= space.drop_first() + rest);
    }
}

} // verus!
