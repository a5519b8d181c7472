//! Semantic versions.

use vstd::prelude::*;
use vstd::slice::slice_subrange;

use crate::text;

verus! {

/// What stands in front of the first `mark` in `text`; all of `text` where
/// there is none.
pub open spec fn before_first(text: Seq<char>, mark: char) -> Seq<char>
    decreases text.len(),
{
    if text.len() == 0 || text[0] == mark {
        Seq::empty()
    } else {
        seq![text[0]] + before_first(text.drop_first(), mark)
    }
}

/// What stands behind the first `mark` in `text`, if there is one.
pub open spec fn after_first(text: Seq<char>, mark: char) -> Option<Seq<char>>
    decreases text.len(),
{
    if text.len() == 0 {
        None
    } else if text[0] == mark {
        Some(text.drop_first())
    } else {
        after_first(text.drop_first(), mark)
    }
}

/// `0` to `9`.
pub open spec fn is_digit(ch: char) -> bool {
    '0' <= ch <= '9'
}

/// The characters that an identifier is made of.
pub open spec fn is_identifier_char(ch: char) -> bool {
    is_digit(ch) || 'a' <= ch <= 'z' || 'A' <= ch <= 'Z' || ch == '-'
}

/// One or more digits.
pub open spec fn is_numeric(text: Seq<char>) -> bool {
    text.len() > 0 && forall|i: int| 0 <= i < text.len() ==> is_digit(#[trigger] text[i])
}

/// A number without leading zeros.
pub open spec fn is_number(text: Seq<char>) -> bool {
    is_numeric(text) && (text.len() > 1 ==> text[0] != '0')
}

/// One or more identifier characters.
pub open spec fn is_build_identifier(text: Seq<char>) -> bool {
    text.len() > 0 && forall|i: int|
        0 <= i < text.len() ==> is_identifier_char(#[trigger] text[i])
}

/// An identifier which, where it is made of digits alone, has no leading zeros.
pub open spec fn is_prerelease_identifier(text: Seq<char>) -> bool {
    is_build_identifier(text) && (is_numeric(text) ==> is_number(text))
}

/// Three numbers with dots between them.
pub open spec fn is_core(text: Seq<char>) -> bool {
    let parts = text::pieces(text, '.');
    parts.len() == 3 && is_number(parts[0]) && is_number(parts[1]) && is_number(parts[2])
}

/// Pre-release identifiers with dots between them.
pub open spec fn is_prerelease(text: Seq<char>) -> bool {
    let parts = text::pieces(text, '.');
    forall|i: int| 0 <= i < parts.len() ==> is_prerelease_identifier(#[trigger] parts[i])
}

/// Build identifiers with dots between them.
pub open spec fn is_build(text: Seq<char>) -> bool {
    let parts = text::pieces(text, '.');
    forall|i: int| 0 <= i < parts.len() ==> is_build_identifier(#[trigger] parts[i])
}

/// Whether `text` is a version in the sense of Semantic Versioning 2.0.0:
/// `MAJOR.MINOR.PATCH`, then `-` and a pre-release, then `+` and build
/// metadata, the last two where they are wanted.
pub open spec fn is_semantic_version(text: Seq<char>) -> bool {
    let release = before_first(text, '+');
    &&& is_core(before_first(release, '-'))
    &&& after_first(release, '-') matches Some(prerelease) ==> is_prerelease(prerelease)
    &&& after_first(text, '+') matches Some(build) ==> is_build(build)
}

/// Splits `text` at the first `mark`.
fn split_first(text: &[char], mark: char) -> (halves: (&[char], Option<&[char]>))
    ensures
        halves.0@ == before_first(text@, mark),
        match halves.1 {
            Some(after) => after_first(text@, mark) == Some(after@),
            None => after_first(text@, mark) is None,
        },
{
    let mut at: usize = 0;
    assert(text@.skip(0) =~= text@);
    assert(text@.take(0) + before_first(text@, mark) =~= before_first(text@, mark));
    while at < text.len()
        invariant
            at <= text.len(),
            text@.take(at as int) + before_first(text@.skip(at as int), mark) == before_first(
                text@,
                mark,
            ),
            after_first(text@.skip(at as int), mark) == after_first(text@, mark),
        decreases text.len() - at,
    {
        let ghost left = text@.skip(at as int);
        assert(left.drop_first() =~= text@.skip(at + 1));
        if text[at] == mark {
            assert(text@.take(at as int) + Seq::<char>::empty() =~= text@.subrange(0, at as int));
            assert(left.drop_first() =~= text@.subrange(at + 1, text@.len() as int));
            return (
                slice_subrange(text, 0, at),
                Some(slice_subrange(text, at + 1, text.len())),
            );
        }
        assert(text@.take(at + 1) + before_first(left.drop_first(), mark) =~= text@.take(at as int)
            + (seq![left[0]] + before_first(left.drop_first(), mark)));
        at = at + 1;
    }
    assert(text@.take(at as int) + Seq::<char>::empty() =~= text@);
    (text, None)
}

fn check_digit(ch: char) -> (valid: bool)
    ensures
        valid == is_digit(ch),
{
    '0' <= ch && ch <= '9'
}

fn check_numeric(text: &Vec<char>) -> (valid: bool)
    ensures
        valid == is_numeric(text@),
{
    let mut at: usize = 0;
    while at < text.len()
        invariant
            at <= text.len(),
            forall|i: int| 0 <= i < at ==> is_digit(#[trigger] text@[i]),
        decreases text.len() - at,
    {
        if !check_digit(text[at]) {
            return false;
        }
        at = at + 1;
    }
    text.len() > 0
}

fn check_number(text: &Vec<char>) -> (valid: bool)
    ensures
        valid == is_number(text@),
{
    check_numeric(text) && (text.len() == 1 || text[0] != '0')
}

fn check_build_identifier(text: &Vec<char>) -> (valid: bool)
    ensures
        valid == is_build_identifier(text@),
{
    let mut at: usize = 0;
    while at < text.len()
        invariant
            at <= text.len(),
            forall|i: int| 0 <= i < at ==> is_identifier_char(#[trigger] text@[i]),
        decreases text.len() - at,
    {
        let ch = text[at];
        if !(check_digit(ch) || 'a' <= ch && ch <= 'z' || 'A' <= ch && ch <= 'Z' || ch == '-') {
            return false;
        }
        at = at + 1;
    }
    text.len() > 0
}

fn check_prerelease(text: &[char]) -> (valid: bool)
    ensures
        valid == is_prerelease(text@),
{
    let parts = text::pieces_of(text, '.');
    let ghost views = text::pieces(text@, '.');
    let mut at: usize = 0;
    while at < parts.len()
        invariant
            at <= parts.len(),
            text::char_views(parts@) == views,
            views == text::pieces(text@, '.'),
            forall|i: int| 0 <= i < at ==> is_prerelease_identifier(#[trigger] views[i]),
        decreases parts.len() - at,
    {
        let part = &parts[at];
        assert(views[at as int] =~= part@);
        if !check_build_identifier(part) || check_numeric(part) && !check_number(part) {
            return false;
        }
        at = at + 1;
    }
    true
}

fn check_build(text: &[char]) -> (valid: bool)
    ensures
        valid == is_build(text@),
{
    let parts = text::pieces_of(text, '.');
    let ghost views = text::pieces(text@, '.');
    let mut at: usize = 0;
    while at < parts.len()
        invariant
            at <= parts.len(),
            text::char_views(parts@) == views,
            views == text::pieces(text@, '.'),
            forall|i: int| 0 <= i < at ==> is_build_identifier(#[trigger] views[i]),
        decreases parts.len() - at,
    {
        let part = &parts[at];
        assert(views[at as int] =~= part@);
        if !check_build_identifier(part) {
            return false;
        }
        at = at + 1;
    }
    true
}

fn check_core(text: &[char]) -> (valid: bool)
    ensures
        valid == is_core(text@),
{
    let parts = text::pieces_of(text, '.');
    let ghost views = text::pieces(text@, '.');
    if parts.len() != 3 {
        return false;
    }
    assert(views[0] =~= parts@[0]@ && views[1] =~= parts@[1]@ && views[2] =~= parts@[2]@);
    check_number(&parts[0]) && check_number(&parts[1]) && check_number(&parts[2])
}

fn check_semantic_version(text: &str) -> (valid: bool)
    ensures
        valid == is_semantic_version(text@),
{
    let chars = text::chars_of(text);
    let (release, build) = split_first(chars.as_slice(), '+');
    let (core, prerelease) = split_first(release, '-');
    if !check_core(core) {
        return false;
    }
    if let Some(prerelease) = prerelease {
        if !check_prerelease(prerelease) {
            return false;
        }
    }
    match build {
        Some(build) => check_build(build),
        None => true,
    }
}

/// A semantic version, kept as the text that it was read from.
#[derive(Debug, PartialEq, Eq)]
pub struct Version {
    text: String,
}

/// A text that is not a semantic version.
#[derive(Debug, PartialEq, Eq)]
pub struct InvalidVersion {
    pub text: String,
}

impl View for Version {
    type V = Seq<char>;

    closed spec fn view(&self) -> Seq<char> {
        self.text@
    }
}

impl Version {
    #[verifier::type_invariant]
    spec fn valid(self) -> bool {
        is_semantic_version(self.text@)
    }

    /// Reads a version from its text.
    pub fn from_str(text: &str) -> (result: Result<Version, InvalidVersion>)
        ensures
            result is Ok <==> is_semantic_version(text@),
            match result {
                Ok(version) => version@ == text@,
                Err(invalid) => invalid.text@ == text@,
            },
    {
        if check_semantic_version(text) {
            Ok(Version { text: text.to_string() })
        } else {
            Err(InvalidVersion { text: text.to_string() })
        }
    }

    /// The text of the version, which reads back as the same version.
    pub fn to_string(&self) -> (text: String)
        ensures
            text@ == self@,
            is_semantic_version(text@),
    {
        proof {
            use_type_invariant(self);
        }
        self.text.clone()
    }
}

impl Clone for Version {
    fn clone(&self) -> (version: Version)
        ensures
            version@ == self@,
            is_semantic_version(version@),
    {
        proof {
            use_type_invariant(self);
        }
        Version { text: self.text.clone() }
    }
}

proof fn lemma_parted_at(front: Seq<char>, back: Seq<char>, mark: char)
    requires
        forall|i: int| 0 <= i < front.len() ==> front[i] != mark,
    ensures
        before_first(front + seq![mark] + back, mark) == front,
        after_first(front + seq![mark] + back, mark) == Some(back),
        before_first(front, mark) == front,
        after_first(front, mark) is None,
    decreases front.len(),
{
    let whole = front + seq![mark] + back;
    if front.len() == 0 {
        assert(whole[0] == mark);
        assert(whole.drop_first() =~= back);
        assert(front =~= Seq::empty());
    } else {
        let rest = front.drop_first();
        lemma_parted_at(rest, back, mark);
        assert(whole.drop_first() =~= rest + seq![mark] + back);
        assert(seq![front[0]] + rest =~= front);
    }
}

/// Without a pre-release and build metadata a version is three numbers with dots
/// between them: digits, without a zero in front of others.
pub proof fn law_release_is_three_numbers(text: Seq<char>)
    requires
        forall|i: int| 0 <= i < text.len() ==> text[i] != '-' && text[i] != '+',
    ensures
        is_semantic_version(text) <==> {
            let parts = text::pieces(text, '.');
            &&& parts.len() == 3
            &&& forall|k: int|
                0 <= k < 3 ==> (#[trigger] parts[k]).len() > 0 && (parts[k].len() > 1
                    ==> parts[k][0] != '0')
            &&& forall|k: int, i: int|
                0 <= k < 3 && 0 <= i < parts[k].len() ==> '0' <= #[trigger] parts[k][i] <= '9'
        },
{
    lemma_parted_at(text, Seq::empty(), '+');
    lemma_parted_at(text, Seq::empty(), '-');
    let parts = text::pieces(text, '.');
    if is_semantic_version(text) {
        assert(is_number(parts[0]) && is_number(parts[1]) && is_number(parts[2]));
        assert forall|k: int, i: int|
            0 <= k < 3 && 0 <= i < parts[k].len() implies '0' <= #[trigger] parts[k][i] <= '9' by {
            assert(is_digit(parts[k][i]));
        }
    } else if parts.len() == 3 && (forall|k: int|
        0 <= k < 3 ==> (#[trigger] parts[k]).len() > 0 && (parts[k].len() > 1 ==> parts[k][0]
            != '0')) && (forall|k: int, i: int|
        0 <= k < 3 && 0 <= i < parts[k].len() ==> '0' <= #[trigger] parts[k][i] <= '9') {
        assert forall|k: int| 0 <= k < 3 implies is_number(#[trigger] parts[k]) by {
            assert forall|i: int| 0 <= i < parts[k].len() implies is_digit(
                #[trigger] parts[k][i],
            ) by {}
        }
        assert(is_number(parts[0]) && is_number(parts[1]) && is_number(parts[2]));
    }
}

/// A pre-release behind a dash is one or more identifiers with dots between them:
/// letters, digits and dashes, and no zero in front of others where all are
/// digits.
pub proof fn law_prerelease_is_made_of_identifiers(release: Seq<char>, prerelease: Seq<char>)
    requires
        forall|i: int| 0 <= i < release.len() ==> release[i] != '-' && release[i] != '+',
        forall|i: int| 0 <= i < prerelease.len() ==> prerelease[i] != '+',
    ensures
        is_semantic_version(release + seq!['-'] + prerelease) <==> is_semantic_version(release) && {
            let parts = text::pieces(prerelease, '.');
            forall|k: int|
                0 <= k < parts.len() ==> (#[trigger] parts[k]).len() > 0 && (forall|i: int|
                    0 <= i < parts[k].len() ==> is_identifier_char(#[trigger] parts[k][i])) && ((
                forall|i: int| 0 <= i < parts[k].len() ==> '0' <= #[trigger] parts[k][i] <= '9')
                    && parts[k].len() > 1 ==> parts[k][0] != '0')
        },
{
    let whole = release + seq!['-'] + prerelease;
    let parts = text::pieces(prerelease, '.');
    assert(forall|i: int| 0 <= i < whole.len() ==> whole[i] != '+');
    lemma_parted_at(whole, Seq::empty(), '+');
    lemma_parted_at(release, prerelease, '-');
    lemma_parted_at(release, Seq::empty(), '+');
    assert forall|k: int| 0 <= k < parts.len() implies is_prerelease_identifier(
        #[trigger] parts[k],
    ) == (parts[k].len() > 0 && (forall|i: int|
        0 <= i < parts[k].len() ==> is_identifier_char(#[trigger] parts[k][i])) && ((forall|i: int|
        0 <= i < parts[k].len() ==> '0' <= #[trigger] parts[k][i] <= '9') && parts[k].len() > 1
        ==> parts[k][0] != '0')) by {
        let part = parts[k];
        if is_numeric(part) {
            assert forall|i: int| 0 <= i < part.len() implies '0' <= #[trigger] part[i] <= '9' by {
                assert(is_digit(part[i]));
            }
        } else if part.len() > 0 {
            let i = choose|i: int| 0 <= i < part.len() && !is_digit(#[trigger] part[i]);
            assert(!('0' <= part[i] <= '9'));
        }
    }
}

/// Build metadata behind a plus sign is one or more identifiers with dots between
/// them: letters, digits and dashes.
pub proof fn law_build_is_made_of_identifiers(version: Seq<char>, build: Seq<char>)
    requires
        forall|i: int| 0 <= i < version.len() ==> version[i] != '+',
    ensures
        is_semantic_version(version + seq!['+'] + build) <==> is_semantic_version(version) && {
            let parts = text::pieces(build, '.');
            forall|k: int|
                0 <= k < parts.len() ==> (#[trigger] parts[k]).len() > 0 && forall|i: int|
                    0 <= i < parts[k].len() ==> is_identifier_char(#[trigger] parts[k][i])
        },
{
    lemma_parted_at(version, build, '+');
    let parts = text::pieces(build, '.');
    assert forall|k: int| 0 <= k < parts.len() implies is_build_identifier(#[trigger] parts[k])
        == (parts[k].len() > 0 && forall|i: int|
        0 <= i < parts[k].len() ==> is_identifier_char(#[trigger] parts[k][i])) by {}
}

/// Letters, digits and the dash make up identifiers.
pub proof fn law_identifiers_are_letters_digits_and_dashes(ch: char)
    ensures
        is_identifier_char(ch) <==> '0' <= ch <= '9' || 'a' <= ch <= 'z' || 'A' <= ch <= 'Z' || ch
            == '-',
{
}

} // verus!
