//! Strings as sequences of characters.

use vstd::prelude::*;

verus! {

/// `String::push` appends one character.
pub assume_specification[ String::push ](string: &mut String, ch: char)
    ensures
        final(string)@ == old(string)@.push(ch),
;

/// `String::push_str` appends a string slice.
pub assume_specification[ String::push_str ](string: &mut String, other: &str)
    ensures
        final(string)@ == old(string)@ + other@,
;

/// `str`'s `==` compares the characters of two slices.
pub assume_specification[ <str as PartialEq>::eq ](left: &str, right: &str) -> (equal: bool)
    ensures
        equal == (left@ == right@),
;

/// The characters of `text`, in order.
pub fn chars_of(text: &str) -> (chars: Vec<char>)
    ensures
        chars@ == text@,
{
    let mut chars: Vec<char> = Vec::new();
    for ch in iter: text.chars()
        invariant
            chars@ == iter.seq().take(iter.index() as int),
            iter.seq() == text@,
    {
        chars.push(ch);
    }
    chars
}

/// The parts of `text` between its occurrences of `mark`.
pub open spec fn pieces(text: Seq<char>, mark: char) -> Seq<Seq<char>>
    decreases text.len(),
{
    if text.len() == 0 {
        seq![Seq::empty()]
    } else {
        let front = pieces(text.drop_last(), mark);
        if text.last() == mark {
            front.push(Seq::empty())
        } else {
            front.drop_last().push(front.last().push(text.last()))
        }
    }
}

/// The characters of each of `strings`.
pub open spec fn string_views(strings: Seq<String>) -> Seq<Seq<char>> {
    strings.map_values(|string: String| string@)
}

/// The characters of an optional string slice.
pub open spec fn str_view(string: Option<&str>) -> Option<Seq<char>> {
    match string {
        Some(string) => Some(string@),
        None => None,
    }
}

/// The characters of an optional reference to a string.
pub open spec fn string_ref_view(string: Option<&String>) -> Option<Seq<char>> {
    match string {
        Some(string) => Some(string@),
        None => None,
    }
}

/// The characters of an optional string.
pub open spec fn option_view(string: Option<String>) -> Option<Seq<char>> {
    match string {
        Some(string) => Some(string@),
        None => None,
    }
}

/// Whether one of `strings` is `wanted`.
pub fn contains_string(strings: &Vec<String>, wanted: &str) -> (found: bool)
    ensures
        found == string_views(strings@).contains(wanted@),
{
    let ghost views = string_views(strings@);
    let mut at: usize = 0;
    while at < strings.len()
        invariant
            at <= strings.len(),
            views == string_views(strings@),
            forall|i: int| 0 <= i < at ==> #[trigger] views[i] != wanted@,
        decreases strings.len() - at,
    {
        assert(views[at as int] == strings[at as int]@);
        if strings[at].as_str().eq(wanted) {
            return true;
        }
        at = at + 1;
    }
    false
}

/// A copy of `strings`.
pub fn copy_strings(strings: &Vec<String>) -> (copies: Vec<String>)
    ensures
        string_views(copies@) == string_views(strings@),
{
    let mut copies: Vec<String> = Vec::new();
    let mut at: usize = 0;
    while at < strings.len()
        invariant
            at <= strings.len(),
            copies.len() == at,
            forall|i: int| 0 <= i < at ==> (#[trigger] copies[i])@ == strings[i]@,
        decreases strings.len() - at,
    {
        copies.push(strings[at].clone());
        at = at + 1;
    }
    assert(string_views(copies@) =~= string_views(strings@));
    copies
}

/// The characters of each of `parts`.
pub open spec fn char_views(parts: Seq<Vec<char>>) -> Seq<Seq<char>> {
    parts.map_values(|part: Vec<char>| part@)
}

/// Splits `text` at every `mark`.
pub fn pieces_of(text: &[char], mark: char) -> (parts: Vec<Vec<char>>)
    ensures
        char_views(parts@) == pieces(text@, mark),
        parts.len() > 0,
{
    let mut parts: Vec<Vec<char>> = Vec::new();
    let mut part: Vec<char> = Vec::new();
    let mut next: usize = 0;
    assert(char_views(parts@).push(part@) =~= seq![Seq::<char>::empty()]);
    while next < text.len()
        invariant
            next <= text.len(),
            char_views(parts@).push(part@) == pieces(text@.take(next as int), mark),
        decreases text.len() - next,
    {
        let ch = text[next];
        let ghost front = char_views(parts@).push(part@);
        proof {
            let taken = text@.take(next + 1);
            assert(taken.drop_last() =~= text@.take(next as int));
            assert(taken.last() == ch);
            assert(front.drop_last() =~= char_views(parts@));
        }
        if ch == mark {
            parts.push(part);
            part = Vec::new();
            assert(char_views(parts@) =~= front);
        } else {
            part.push(ch);
        }
        next = next + 1;
    }
    assert(text@.take(next as int) =~= text@);
    let ghost front = char_views(parts@).push(part@);
    parts.push(part);
    assert(char_views(parts@) =~= front);
    parts
}

/// The string of `chars[start..end]`.
pub fn string_between(chars: &Vec<char>, start: usize, end: usize) -> (string: String)
    requires
        start <= end <= chars.len(),
    ensures
        string@ == chars@.subrange(start as int, end as int),
{
    let mut string = String::new();
    let mut next: usize = start;
    while next < end
        invariant
            start <= next <= end <= chars.len(),
            string@ == chars@.subrange(start as int, next as int),
        decreases end - next,
    {
        string.push(chars[next]);
        next = next + 1;
        assert(chars@.subrange(start as int, next as int) =~= chars@.subrange(
            start as int,
            next - 1,
        ).push(chars@[next - 1]));
    }
    string
}

/// The number of bytes that `text` takes in UTF-8.
pub open spec fn byte_count(text: Seq<char>) -> nat {
    vstd::utf8::encode_utf8(text).len()
}

/// The number of bytes that `text` takes.
pub fn count_bytes(text: &str) -> (count: usize)
    ensures
        count == byte_count(text@),
{
    text.as_bytes().len()
}

/// A digit.
pub open spec fn digit(value: nat) -> char {
    seq!['0', '1', '2', '3', '4', '5', '6', '7', '8', '9'][value as int]
}

/// A number in decimal digits.
pub open spec fn decimal(number: nat) -> Seq<char>
    decreases number,
{
    if number < 10 {
        seq![digit(number)]
    } else {
        decimal(number / 10).push(digit(number % 10))
    }
}

fn digit_of(value: usize) -> (ch: char)
    requires
        value < 10,
    ensures
        ch == digit(value as nat),
{
    match value {
        0 => '0',
        1 => '1',
        2 => '2',
        3 => '3',
        4 => '4',
        5 => '5',
        6 => '6',
        7 => '7',
        8 => '8',
        _ => '9',
    }
}

/// A number in decimal digits.
pub fn decimal_of(number: usize) -> (digits: String)
    ensures
        digits@ == decimal(number as nat),
    decreases number,
{
    if number < 10 {
        let mut digits = String::new();
        digits.push(digit_of(number));
        assert(digits@ =~= seq![digit(number as nat)]);
        digits
    } else {
        let mut digits = decimal_of(number / 10);
        digits.push(digit_of(number % 10));
        digits
    }
}

/// A text without the mark is in one piece.
pub proof fn law_text_without_the_mark_is_one_piece(text: Seq<char>, mark: char)
    requires
        forall|i: int| 0 <= i < text.len() ==> text[i] != mark,
    ensures
        pieces(text, mark) == seq![text],
    decreases text.len(),
{
    if text.len() > 0 {
        law_text_without_the_mark_is_one_piece(text.drop_last(), mark);
        let front = pieces(text.drop_last(), mark);
        assert(front.last().push(text.last()) =~= text);
        assert(front.drop_last().push(text) =~= seq![text]);
    } else {
        assert(text =~= Seq::empty());
    }
}

/// A mark parts a text: the pieces are those of what stands in front of it, and
/// then those of what stands behind it.
pub proof fn law_pieces_in_front_and_behind(front: Seq<char>, back: Seq<char>, mark: char)
    ensures
        pieces(front + seq![mark] + back, mark) == pieces(front, mark) + pieces(back, mark),
        pieces(back, mark).len() > 0,
    decreases back.len(),
{
    let whole = front + seq![mark] + back;
    if back.len() == 0 {
        assert(whole.drop_last() =~= front);
        assert(whole.last() == mark);
        assert(pieces(whole, mark) =~= pieces(front, mark) + pieces(back, mark));
    } else {
        law_pieces_in_front_and_behind(front, back.drop_last(), mark);
        assert(whole.drop_last() =~= front + seq![mark] + back.drop_last());
        assert(whole.last() == back.last());
        assert(pieces(whole, mark) =~= pieces(front, mark) + pieces(back, mark));
    }
}

/// No piece holds the mark.
pub proof fn law_no_piece_holds_the_mark(text: Seq<char>, mark: char)
    ensures
        pieces(text, mark).len() > 0,
        forall|i: int, j: int|
            0 <= i < pieces(text, mark).len() && 0 <= j < pieces(text, mark)[i].len()
                ==> #[trigger] pieces(text, mark)[i][j] != mark,
    decreases text.len(),
{
    if text.len() > 0 {
        law_no_piece_holds_the_mark(text.drop_last(), mark);
    }
}

/// Decimal digits count tens: a number below ten is one digit, and a digit behind
/// a number is the number ten times and the digit.
pub proof fn law_decimal_digits_count_tens(number: nat, last: nat)
    requires
        last < 10,
    ensures
        decimal(last).len() == 1,
        decimal(last)[0] as int == '0' as int + last,
        number > 0 ==> decimal(10 * number + last) == decimal(number) + decimal(last),
{
    if number > 0 {
        let whole: nat = 10 * number + last;
        assert(whole / 10 == number);
        assert(whole % 10 == last);
        assert(decimal(whole) =~= decimal(number) + decimal(last));
    }
}

} // verus!
