//! JSON with comments.

use vstd::prelude::*;

use crate::text;

verus! {

/// What is left of `text` from the end of the line on, the line break included.
pub open spec fn after_line(text: Seq<char>) -> Seq<char>
    decreases text.len(),
{
    if text.len() == 0 || text[0] == '\n' {
        text
    } else {
        after_line(text.drop_first())
    }
}

/// What is left of `text` behind the first `*/`; nothing where there is none.
pub open spec fn after_block(text: Seq<char>) -> Seq<char>
    decreases text.len(),
{
    if text.len() < 2 {
        Seq::empty()
    } else if text[0] == '*' && text[1] == '/' {
        text.skip(2)
    } else {
        after_block(text.drop_first())
    }
}

/// Whether `text` begins with `//`.
pub open spec fn opens_line(text: Seq<char>) -> bool {
    text.len() >= 2 && text[0] == '/' && text[1] == '/'
}

/// Whether `text` begins with `/*`.
pub open spec fn opens_block(text: Seq<char>) -> bool {
    text.len() >= 2 && text[0] == '/' && text[1] == '*'
}

/// `text` without its comments, where `text` begins inside a string literal
/// (`in_string`) or outside of any.  Inside a literal a backslash keeps the
/// character behind it from ending the literal.
pub open spec fn stripped_from(text: Seq<char>, in_string: bool) -> Seq<char>
    decreases text.len(),
{
    if text.len() == 0 {
        text
    } else if in_string && text[0] == '\\' && text.len() >= 2 {
        text.take(2) + stripped_from(text.skip(2), true)
    } else if text[0] == '"' {
        seq!['"'] + stripped_from(text.drop_first(), !in_string)
    } else if !in_string && opens_line(text) {
        proof { lemma_after_line_shrinks(text.skip(2)); }
        stripped_from(after_line(text.skip(2)), false)
    } else if !in_string && opens_block(text) {
        proof { lemma_after_block_shrinks(text.skip(2)); }
        stripped_from(after_block(text.skip(2)), false)
    } else {
        seq![text[0]] + stripped_from(text.drop_first(), in_string)
    }
}

/// A JSONC text without its comments.
pub open spec fn stripped(text: Seq<char>) -> Seq<char> {
    stripped_from(text, false)
}

pub proof fn lemma_after_line_shrinks(text: Seq<char>)
    ensures
        after_line(text).len() <= text.len(),
    decreases text.len(),
{
    if text.len() != 0 && text[0] != '\n' {
        lemma_after_line_shrinks(text.drop_first());
    }
}

pub proof fn lemma_after_block_shrinks(text: Seq<char>)
    ensures
        after_block(text).len() <= text.len(),
    decreases text.len(),
{
    if text.len() >= 2 && !(text[0] == '*' && text[1] == '/') {
        lemma_after_block_shrinks(text.drop_first());
    }
}

/// The index of the line break that ends the comment text at `start`, or the
/// number of characters where no line break follows.
fn line_end(chars: &Vec<char>, start: usize) -> (end: usize)
    requires
        start <= chars.len(),
    ensures
        start <= end <= chars.len(),
        chars@.skip(end as int) == after_line(chars@.skip(start as int)),
{
    let mut end: usize = start;
    while end < chars.len() && chars[end] != '\n'
        invariant
            start <= end <= chars.len(),
            after_line(chars@.skip(end as int)) == after_line(chars@.skip(start as int)),
        decreases chars.len() - end,
    {
        assert(chars@.skip(end as int).drop_first() =~= chars@.skip(end + 1));
        end = end + 1;
    }
    end
}

/// The index behind the first `*/` from `start` on, or the number of
/// characters where the comment is not closed.
fn block_end(chars: &Vec<char>, start: usize) -> (end: usize)
    requires
        start <= chars.len(),
    ensures
        start <= end <= chars.len(),
        chars@.skip(end as int) == after_block(chars@.skip(start as int)),
{
    let mut end: usize = start;
    while end < chars.len()
        invariant
            start <= end <= chars.len(),
            after_block(chars@.skip(end as int)) == after_block(chars@.skip(start as int)),
        decreases chars.len() - end,
    {
        let ghost left = chars@.skip(end as int);
        if chars.len() - end >= 2 && chars[end] == '*' && chars[end + 1] == '/' {
            assert(left.skip(2) =~= chars@.skip(end + 2));
            return end + 2;
        }
        proof {
            assert(left.drop_first() =~= chars@.skip(end + 1));
            if left.len() < 2 {
                assert(after_block(left.drop_first()) =~= Seq::<char>::empty());
            }
        }
        end = end + 1;
    }
    assert(chars@.skip(end as int) =~= Seq::<char>::empty());
    end
}

/// Removes the comments (`// ...` up to the end of the line and `/* ... */`)
/// of a JSONC text.  Comment markers inside string literals stay, and so does
/// the line break behind a line comment.  A block comment that is not closed
/// reaches to the end of the text.
pub fn strip_json_comments(content: &str) -> (result: String)
    ensures
        result@ == stripped(content@),
{
    let chars = text::chars_of(content);
    let mut result = String::new();
    let mut in_string = false;
    let mut next: usize = 0;
    assert(chars@.skip(0) =~= chars@);
    while next < chars.len()
        invariant
            next <= chars.len(),
            chars@ == content@,
            result@ + stripped_from(chars@.skip(next as int), in_string) == stripped(content@),
        decreases chars.len() - next,
    {
        let ghost left = chars@.skip(next as int);
        let ghost before = result@;
        let ch = chars[next];
        assert(left[0] == ch);
        assert(left.drop_first() =~= chars@.skip(next + 1));
        if next + 1 < chars.len() {
            assert(left[1] == chars@[next + 1]);
            assert(left.skip(2) =~= chars@.skip(next + 2));
        }
        if in_string && ch == '\\' && chars.len() - next >= 2 {
            result.push(ch);
            result.push(chars[next + 1]);
            assert(result@ + stripped_from(left.skip(2), true) =~= before + (left.take(2)
                + stripped_from(left.skip(2), true)));
            next = next + 2;
        } else if ch == '"' {
            result.push(ch);
            assert(result@ + stripped_from(left.drop_first(), !in_string) =~= before + (seq!['"']
                + stripped_from(left.drop_first(), !in_string)));
            in_string = !in_string;
            next = next + 1;
        } else if !in_string && ch == '/' && chars.len() - next >= 2 && chars[next + 1] == '/' {
            next = line_end(&chars, next + 2);
        } else if !in_string && ch == '/' && chars.len() - next >= 2 && chars[next + 1] == '*' {
            next = block_end(&chars, next + 2);
        } else {
            result.push(ch);
            assert(result@ + stripped_from(left.drop_first(), in_string) =~= before + (seq![ch]
                + stripped_from(left.drop_first(), in_string)));
            next = next + 1;
        }
    }
    assert(result@ + stripped_from(chars@.skip(next as int), in_string) =~= result@);
    result
}

/// Whether no comment begins in `text`, which itself begins inside a string
/// literal (`in_string`) or outside of any.
pub open spec fn comment_free_from(text: Seq<char>, in_string: bool) -> bool
    decreases text.len(),
{
    if text.len() == 0 {
        true
    } else if in_string && text[0] == '\\' && text.len() >= 2 {
        comment_free_from(text.skip(2), true)
    } else if text[0] == '"' {
        comment_free_from(text.drop_first(), !in_string)
    } else {
        &&& in_string || !opens_line(text) && !opens_block(text)
        &&& comment_free_from(text.drop_first(), in_string)
    }
}

/// Whether `text` holds no comment.
pub open spec fn comment_free(text: Seq<char>) -> bool {
    comment_free_from(text, false)
}

proof fn lemma_comment_free_unchanged(text: Seq<char>, in_string: bool)
    requires
        comment_free_from(text, in_string),
    ensures
        stripped_from(text, in_string) == text,
    decreases text.len(),
{
    if text.len() == 0 {
    } else if in_string && text[0] == '\\' && text.len() >= 2 {
        lemma_comment_free_unchanged(text.skip(2), true);
        assert(text.take(2) + text.skip(2) =~= text);
    } else {
        let next = if text[0] == '"' { !in_string } else { in_string };
        lemma_comment_free_unchanged(text.drop_first(), next);
        assert(seq![text[0]] + text.drop_first() =~= text);
    }
}

/// Stripping leaves a text that holds no comment as it is.
pub proof fn law_text_without_comments_is_unchanged(text: Seq<char>)
    requires
        comment_free(text),
    ensures
        stripped(text) == text,
{
    lemma_comment_free_unchanged(text, false);
}

/// Outside of string literals the first character of a text that does not
/// begin with a slash is kept.
proof fn lemma_first_char_kept(text: Seq<char>)
    requires
        text.len() > 0,
        text[0] != '/',
    ensures
        stripped_from(text, false).len() > 0,
        stripped_from(text, false)[0] == text[0],
{
}

proof fn lemma_stripped_comment_free(text: Seq<char>, in_string: bool)
    ensures
        comment_free_from(stripped_from(text, in_string), in_string),
    decreases text.len(),
{
    let out = stripped_from(text, in_string);
    if text.len() == 0 {
    } else if in_string && text[0] == '\\' && text.len() >= 2 {
        lemma_stripped_comment_free(text.skip(2), true);
        assert(out.skip(2) =~= stripped_from(text.skip(2), true));
    } else if text[0] == '"' {
        lemma_stripped_comment_free(text.drop_first(), !in_string);
        assert(out.drop_first() =~= stripped_from(text.drop_first(), !in_string));
    } else if !in_string && opens_line(text) {
        lemma_after_line_shrinks(text.skip(2));
        lemma_stripped_comment_free(after_line(text.skip(2)), false);
    } else if !in_string && opens_block(text) {
        lemma_after_block_shrinks(text.skip(2));
        lemma_stripped_comment_free(after_block(text.skip(2)), false);
    } else {
        let rest = text.drop_first();
        lemma_stripped_comment_free(rest, in_string);
        assert(out.drop_first() =~= stripped_from(rest, in_string));
        if !in_string && text[0] == '/' && rest.len() > 0 {
            lemma_first_char_kept(rest);
            assert(out[1] == text[1]);
        }
        if in_string && text[0] == '\\' {
            assert(out.len() == 1);
        }
    }
}

/// No comment is left in a stripped text.
pub proof fn law_stripped_text_holds_no_comment(text: Seq<char>)
    ensures
        comment_free(stripped(text)),
{
    lemma_stripped_comment_free(text, false);
}

/// Stripping a second time changes nothing.
pub proof fn law_stripping_is_idempotent(text: Seq<char>)
    ensures
        stripped(stripped(text)) == stripped(text),
{
    law_stripped_text_holds_no_comment(text);
    law_text_without_comments_is_unchanged(stripped(text));
}

proof fn lemma_stripped_shrinks(text: Seq<char>, in_string: bool)
    ensures
        stripped_from(text, in_string).len() <= text.len(),
    decreases text.len(),
{
    if text.len() == 0 {
    } else if in_string && text[0] == '\\' && text.len() >= 2 {
        lemma_stripped_shrinks(text.skip(2), true);
    } else if text[0] == '"' {
        lemma_stripped_shrinks(text.drop_first(), !in_string);
    } else if !in_string && opens_line(text) {
        lemma_after_line_shrinks(text.skip(2));
        lemma_stripped_shrinks(after_line(text.skip(2)), false);
    } else if !in_string && opens_block(text) {
        lemma_after_block_shrinks(text.skip(2));
        lemma_stripped_shrinks(after_block(text.skip(2)), false);
    } else {
        lemma_stripped_shrinks(text.drop_first(), in_string);
    }
}

/// Stripping never makes a text longer.
pub proof fn law_stripping_never_lengthens(text: Seq<char>)
    ensures
        stripped(text).len() <= text.len(),
{
    lemma_stripped_shrinks(text, false);
}

/// Whether every slash in `text`, which begins inside a string literal
/// (`in_string`) or outside of any, stands in a string literal.
pub open spec fn slashes_quoted_from(text: Seq<char>, in_string: bool) -> bool
    decreases text.len(),
{
    if text.len() == 0 {
        true
    } else if in_string && text[0] == '\\' && text.len() >= 2 {
        slashes_quoted_from(text.skip(2), true)
    } else if text[0] == '"' {
        slashes_quoted_from(text.drop_first(), !in_string)
    } else {
        &&& in_string || text[0] != '/'
        &&& slashes_quoted_from(text.drop_first(), in_string)
    }
}

/// Whether every slash in `text` stands in a string literal, as it does in JSON.
pub open spec fn slashes_quoted(text: Seq<char>) -> bool {
    slashes_quoted_from(text, false)
}

/// Whether `text`, which begins inside a string literal (`in_string`) or outside
/// of any, ends inside of one.
pub open spec fn ends_in_string_from(text: Seq<char>, in_string: bool) -> bool
    decreases text.len(),
{
    if text.len() == 0 {
        in_string
    } else if in_string && text[0] == '\\' && text.len() >= 2 {
        ends_in_string_from(text.skip(2), true)
    } else if text[0] == '"' {
        ends_in_string_from(text.drop_first(), !in_string)
    } else {
        ends_in_string_from(text.drop_first(), in_string)
    }
}

/// Whether `text` ends inside a string literal.
pub open spec fn ends_in_string(text: Seq<char>) -> bool {
    ends_in_string_from(text, false)
}

/// Whether the end of a block comment stands in `text`.
pub open spec fn closes_block(text: Seq<char>) -> bool {
    exists|i: int| 0 <= i < text.len() - 1 && #[trigger] text[i] == '*' && text[i + 1] == '/'
}

/// A block comment that holds `text`.
pub open spec fn block_comment(text: Seq<char>) -> Seq<char> {
    seq!['/', '*'] + text + seq!['*', '/']
}

/// A line comment that holds `text`.
pub open spec fn line_comment(text: Seq<char>) -> Seq<char> {
    seq!['/', '/'] + text
}

proof fn lemma_slashes_quoted_comment_free(text: Seq<char>, in_string: bool)
    requires
        slashes_quoted_from(text, in_string),
    ensures
        comment_free_from(text, in_string),
    decreases text.len(),
{
    if text.len() == 0 {
    } else if in_string && text[0] == '\\' && text.len() >= 2 {
        lemma_slashes_quoted_comment_free(text.skip(2), true);
    } else {
        let next = if text[0] == '"' { !in_string } else { in_string };
        lemma_slashes_quoted_comment_free(text.drop_first(), next);
    }
}

/// A text whose slashes all stand in string literals holds no comment, and
/// stripping leaves it as it is.
pub proof fn law_quoted_slashes_open_no_comment(text: Seq<char>)
    requires
        slashes_quoted(text),
    ensures
        comment_free(text),
        stripped(text) == text,
{
    lemma_slashes_quoted_comment_free(text, false);
    law_text_without_comments_is_unchanged(text);
}

/// What stands behind a text that ends outside of string literals is stripped on
/// its own.
proof fn lemma_stripped_behind(front: Seq<char>, back: Seq<char>, in_string: bool)
    requires
        slashes_quoted_from(front, in_string),
        !ends_in_string_from(front, in_string),
    ensures
        stripped_from(front + back, in_string) == front + stripped(back),
    decreases front.len(),
{
    let whole = front + back;
    if front.len() == 0 {
        assert(whole =~= back);
        assert(front + stripped(back) =~= stripped(back));
    } else if in_string && front[0] == '\\' && front.len() >= 2 {
        lemma_stripped_behind(front.skip(2), back, true);
        assert(whole.skip(2) =~= front.skip(2) + back);
        assert(whole.take(2) =~= front.take(2));
        assert(front.take(2) + (front.skip(2) + stripped(back)) =~= front + stripped(back));
    } else {
        if in_string && front[0] == '\\' {
            assert(ends_in_string_from(front.drop_first(), true));
        }
        let next = if front[0] == '"' { !in_string } else { in_string };
        lemma_stripped_behind(front.drop_first(), back, next);
        assert(whole.drop_first() =~= front.drop_first() + back);
        assert(seq![front[0]] + (front.drop_first() + stripped(back)) =~= front + stripped(back));
    }
}

/// Both parts of a text that is cut outside of string literals have their
/// slashes in string literals where the whole has.
proof fn lemma_slashes_quoted_parts(front: Seq<char>, back: Seq<char>, in_string: bool)
    requires
        !ends_in_string_from(front, in_string),
    ensures
        slashes_quoted_from(front + back, in_string) <==> slashes_quoted_from(front, in_string)
            && slashes_quoted(back),
    decreases front.len(),
{
    let whole = front + back;
    if front.len() == 0 {
        assert(whole =~= back);
    } else if in_string && front[0] == '\\' && front.len() >= 2 {
        lemma_slashes_quoted_parts(front.skip(2), back, true);
        assert(whole.skip(2) =~= front.skip(2) + back);
    } else {
        if in_string && front[0] == '\\' {
            assert(ends_in_string_from(front.drop_first(), true));
        }
        let next = if front[0] == '"' { !in_string } else { in_string };
        lemma_slashes_quoted_parts(front.drop_first(), back, next);
        assert(whole.drop_first() =~= front.drop_first() + back);
    }
}

proof fn lemma_after_block_behind(text: Seq<char>, back: Seq<char>)
    requires
        !closes_block(text),
    ensures
        after_block(text + seq!['*', '/'] + back) == back,
    decreases text.len(),
{
    let whole = text + seq!['*', '/'] + back;
    if text.len() == 0 {
        assert(whole.skip(2) =~= back);
    } else {
        let rest = text.drop_first();
        assert(whole[0] == text[0]);
        if text.len() == 1 {
            assert(whole[1] == '*');
        } else {
            assert(whole[1] == text[1]);
            assert(!(text[0] == '*' && text[1] == '/'));
        }
        assert(!closes_block(rest)) by {
            if closes_block(rest) {
                let i = choose|i: int|
                    0 <= i < rest.len() - 1 && #[trigger] rest[i] == '*' && rest[i + 1] == '/';
                assert(text[i + 1] == '*' && text[i + 1 + 1] == '/');
            }
        }
        lemma_after_block_behind(rest, back);
        assert(whole.drop_first() =~= rest + seq!['*', '/'] + back);
    }
}

proof fn lemma_after_line_behind(text: Seq<char>, back: Seq<char>)
    requires
        !text.contains('\n'),
        back.len() == 0 || back[0] == '\n',
    ensures
        after_line(text + back) == back,
    decreases text.len(),
{
    let whole = text + back;
    if text.len() == 0 {
        assert(whole =~= back);
    } else {
        let rest = text.drop_first();
        assert(text.contains(text[0]));
        assert(!rest.contains('\n')) by {
            if rest.contains('\n') {
                let i = choose|i: int| 0 <= i < rest.len() && rest[i] == '\n';
                assert(text[i + 1] == '\n');
            }
        }
        lemma_after_line_behind(rest, back);
        assert(whole.drop_first() =~= rest + back);
    }
}

/// A block comment that is put in outside of string literals is removed, up to
/// its end and no further: what is left is as if it had not been there.
pub proof fn law_block_comment_is_removed(front: Seq<char>, text: Seq<char>, back: Seq<char>)
    requires
        slashes_quoted(front),
        !ends_in_string(front),
        !closes_block(text),
    ensures
        stripped(front + block_comment(text) + back) == stripped(front + back),
{
    let behind = block_comment(text) + back;
    assert(front + block_comment(text) + back =~= front + behind);
    lemma_stripped_behind(front, behind, false);
    lemma_stripped_behind(front, back, false);
    assert(behind.skip(2) =~= text + seq!['*', '/'] + back);
    lemma_after_block_behind(text, back);
    assert(behind[0] == '/' && behind[1] == '*');
}

/// A line comment that is put in outside of string literals is removed, up to
/// the line break or the end of the text that ends it, which stays.
pub proof fn law_line_comment_is_removed(front: Seq<char>, text: Seq<char>, back: Seq<char>)
    requires
        slashes_quoted(front),
        !ends_in_string(front),
        !text.contains('\n'),
        back.len() == 0 || back[0] == '\n',
    ensures
        stripped(front + line_comment(text) + back) == stripped(front + back),
{
    let behind = line_comment(text) + back;
    assert(front + line_comment(text) + back =~= front + behind);
    lemma_stripped_behind(front, behind, false);
    lemma_stripped_behind(front, back, false);
    assert(behind.skip(2) =~= text + back);
    lemma_after_line_behind(text, back);
    assert(behind[0] == '/' && behind[1] == '/');
}

/// A block comment that is put into JSON outside of its string literals is
/// removed, and the JSON is as it was.
pub proof fn law_block_comment_in_json_is_removed(
    front: Seq<char>,
    text: Seq<char>,
    back: Seq<char>,
)
    requires
        slashes_quoted(front + back),
        !ends_in_string(front),
        !closes_block(text),
    ensures
        stripped(front + block_comment(text) + back) == stripped(front + back),
        stripped(front + back) == front + back,
{
    lemma_slashes_quoted_parts(front, back, false);
    law_block_comment_is_removed(front, text, back);
    law_quoted_slashes_open_no_comment(front + back);
}

/// A line comment that is put into JSON outside of its string literals is
/// removed, and the line break that ends it is all that it adds to the JSON.
pub proof fn law_line_comment_in_json_is_removed(
    front: Seq<char>,
    text: Seq<char>,
    back: Seq<char>,
)
    requires
        slashes_quoted(front + back),
        !ends_in_string(front),
        !text.contains('\n'),
    ensures
        stripped(front + line_comment(text) + seq!['\n'] + back) == stripped(
            front + seq!['\n'] + back,
        ),
        stripped(front + seq!['\n'] + back) == front + seq!['\n'] + back,
{
    let behind = seq!['\n'] + back;
    lemma_slashes_quoted_parts(front, back, false);
    assert(behind.drop_first() =~= back);
    lemma_slashes_quoted_parts(front, behind, false);
    law_line_comment_is_removed(front, text, behind);
    law_quoted_slashes_open_no_comment(front + behind);
    assert(front + line_comment(text) + seq!['\n'] + back =~= front + line_comment(text) + behind);
    assert(front + seq!['\n'] + back =~= front + behind);
}

/// What stands behind a text that holds no comment and ends neither in a string
/// literal nor with a slash is stripped on its own.
proof fn lemma_stripped_behind_free(front: Seq<char>, back: Seq<char>, in_string: bool)
    requires
        comment_free_from(front, in_string),
        !ends_in_string_from(front, in_string),
        front.len() > 0 ==> front.last() != '/',
    ensures
        stripped_from(front + back, in_string) == front + stripped(back),
    decreases front.len(),
{
    let whole = front + back;
    if front.len() == 0 {
        assert(whole =~= back);
        assert(front + stripped(back) =~= stripped(back));
    } else if in_string && front[0] == '\\' && front.len() >= 2 {
        lemma_stripped_behind_free(front.skip(2), back, true);
        assert(whole.skip(2) =~= front.skip(2) + back);
        assert(whole.take(2) =~= front.take(2));
        assert(front.take(2) + (front.skip(2) + stripped(back)) =~= front + stripped(back));
    } else {
        if in_string && front[0] == '\\' {
            assert(ends_in_string_from(front.drop_first(), true));
        }
        let next = if front[0] == '"' { !in_string } else { in_string };
        lemma_stripped_behind_free(front.drop_first(), back, next);
        assert(whole.drop_first() =~= front.drop_first() + back);
        assert(seq![front[0]] + (front.drop_first() + stripped(back)) =~= front + stripped(back));
        if !in_string && front[0] == '/' {
            assert(whole[1] == front[1]);
        }
    }
}

/// The first comment of a text is removed, and nothing else of it is: what stands
/// in front stays as it is, and what stands behind is stripped on its own.  A
/// block comment goes up to the first `*/`, or to the end of the text where there
/// is none; a line comment goes up to the line break, or to the end.
pub proof fn law_first_comment_is_removed(front: Seq<char>, text: Seq<char>, back: Seq<char>)
    requires
        comment_free(front),
        !ends_in_string(front),
        front.len() > 0 ==> front.last() != '/',
    ensures
        !closes_block(text) ==> stripped(front + block_comment(text) + back) == front + stripped(
            back,
        ),
        !closes_block(text) ==> stripped(front + seq!['/', '*'] + text) == front,
        !text.contains('\n') && (back.len() == 0 || back[0] == '\n') ==> stripped(
            front + line_comment(text) + back,
        ) == front + stripped(back),
{
    if !closes_block(text) {
        let behind = block_comment(text) + back;
        assert(front + block_comment(text) + back =~= front + behind);
        lemma_stripped_behind_free(front, behind, false);
        assert(behind.skip(2) =~= text + seq!['*', '/'] + back);
        lemma_after_block_behind(text, back);
        assert(behind[0] == '/' && behind[1] == '*');
        let open = seq!['/', '*'] + text;
        assert(front + seq!['/', '*'] + text =~= front + open);
        lemma_stripped_behind_free(front, open, false);
        assert(open.skip(2) =~= text);
        assert(open[0] == '/' && open[1] == '*');
        lemma_after_open_block(text);
        assert(stripped_from(Seq::empty(), false) =~= Seq::empty());
        assert(stripped(open) == stripped_from(after_block(open.skip(2)), false));
        assert(front + Seq::<char>::empty() =~= front);
    }
    if !text.contains('\n') && (back.len() == 0 || back[0] == '\n') {
        let behind = line_comment(text) + back;
        assert(front + line_comment(text) + back =~= front + behind);
        lemma_stripped_behind_free(front, behind, false);
        assert(behind.skip(2) =~= text + back);
        lemma_after_line_behind(text, back);
        assert(behind[0] == '/' && behind[1] == '/');
    }
}

proof fn lemma_after_open_block(text: Seq<char>)
    requires
        !closes_block(text),
    ensures
        after_block(text) == Seq::<char>::empty(),
    decreases text.len(),
{
    if text.len() >= 2 {
        let rest = text.drop_first();
        assert(!(text[0] == '*' && text[1] == '/'));
        assert(!closes_block(rest)) by {
            if closes_block(rest) {
                let i = choose|i: int|
                    0 <= i < rest.len() - 1 && #[trigger] rest[i] == '*' && rest[i + 1] == '/';
                assert(text[i + 1] == '*' && text[i + 1 + 1] == '/');
            }
        }
        lemma_after_open_block(rest);
    }
}

} // verus!
