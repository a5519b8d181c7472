//! Relative paths, which part their components by `/` on every platform.

use vstd::prelude::*;

use crate::text;

verus! {

/// The components of `path`: its parts between separators that are not empty.
pub open spec fn components(path: Seq<char>) -> Seq<Seq<char>> {
    text::pieces(path, '/').filter(|part: Seq<char>| part.len() > 0)
}

/// `RelativePath`'s `==`, which compares the components of two paths.
#[verifier::external_body]
pub(crate) fn same_components(left: &str, right: &str) -> (same: bool)
    ensures
        same == (components(left@) == components(right@)),
{
    relative_path::RelativePath::new(left) == relative_path::RelativePath::new(right)
}

/// A relative path.  Two of them are equal where they have the same components,
/// however many separators stand between these.
#[derive(Debug)]
pub struct RelativePathBuf {
    pub text: String,
}

impl View for RelativePathBuf {
    type V = Seq<char>;

    open spec fn view(&self) -> Seq<char> {
        self.text@
    }
}

impl PartialEq for RelativePathBuf {
    fn eq(&self, other: &RelativePathBuf) -> (equal: bool) {
        same_components(self.text.as_str(), other.text.as_str())
    }
}

impl vstd::std_specs::cmp::PartialEqSpecImpl for RelativePathBuf {
    open spec fn obeys_eq_spec() -> bool {
        true
    }

    open spec fn eq_spec(&self, other: &RelativePathBuf) -> bool {
        components(self@) == components(other@)
    }
}

impl Eq for RelativePathBuf {

}

impl Clone for RelativePathBuf {
    fn clone(&self) -> (path: RelativePathBuf)
        ensures
            path@ == self@,
    {
        RelativePathBuf { text: self.text.clone() }
    }
}

impl vstd::std_specs::convert::FromSpecImpl<String> for RelativePathBuf {
    open spec fn obeys_from_spec() -> bool {
        true
    }

    open spec fn from_spec(text: String) -> RelativePathBuf {
        RelativePathBuf { text }
    }
}

impl From<String> for RelativePathBuf {
    fn from(text: String) -> (path: RelativePathBuf) {
        RelativePathBuf { text }
    }
}

impl<'a> vstd::std_specs::convert::FromSpecImpl<&'a str> for RelativePathBuf {
    open spec fn obeys_from_spec() -> bool {
        false
    }

    open spec fn from_spec(text: &'a str) -> RelativePathBuf {
        arbitrary()
    }
}

impl<'a> From<&'a str> for RelativePathBuf {
    fn from(text: &'a str) -> (path: RelativePathBuf)
        ensures
            path@ == text@,
    {
        RelativePathBuf { text: text.to_string() }
    }
}

impl RelativePathBuf {
    /// The text of the path.
    pub fn as_str(&self) -> (text: &str)
        ensures
            text@ == self@,
    {
        self.text.as_str()
    }
}

/// The text of an optional path.
pub open spec fn option_view(path: Option<RelativePathBuf>) -> Option<Seq<char>> {
    match path {
        Some(path) => Some(path@),
        None => None,
    }
}

/// `path` without the separators at its end.
pub open spec fn without_trailing(path: Seq<char>) -> Seq<char>
    decreases path.len(),
{
    if path.len() > 0 && path.last() == '/' {
        without_trailing(path.drop_last())
    } else {
        path
    }
}

/// Where the last component of `path` begins: behind the last separator.
pub open spec fn last_start(path: Seq<char>) -> nat
    decreases path.len(),
{
    if path.len() == 0 || path.last() == '/' {
        path.len()
    } else {
        last_start(path.drop_last())
    }
}

/// The last component of `path`; empty where `path` has none.
pub open spec fn last_component(path: Seq<char>) -> Seq<char> {
    let trimmed = without_trailing(path);
    trimmed.skip(last_start(trimmed) as int)
}

/// What stands in front of the last component of `path`.
pub open spec fn before_last(path: Seq<char>) -> Seq<char> {
    let trimmed = without_trailing(path);
    without_trailing(trimmed.take(last_start(trimmed) as int))
}

pub proof fn lemma_without_trailing_shrinks(path: Seq<char>)
    ensures
        without_trailing(path).len() <= path.len(),
    decreases path.len(),
{
    if path.len() > 0 && path.last() == '/' {
        lemma_without_trailing_shrinks(path.drop_last());
    }
}

pub proof fn lemma_last_start_within(path: Seq<char>)
    ensures
        last_start(path) <= path.len(),
    decreases path.len(),
{
    if path.len() > 0 && path.last() != '/' {
        lemma_last_start_within(path.drop_last());
    }
}

/// What stands in front of a component that is not empty is shorter.
pub proof fn lemma_before_last_shrinks(path: Seq<char>)
    ensures
        last_component(path).len() + before_last(path).len() <= path.len(),
{
    let trimmed = without_trailing(path);
    lemma_without_trailing_shrinks(path);
    lemma_last_start_within(trimmed);
    lemma_without_trailing_shrinks(trimmed.take(last_start(trimmed) as int));
}

/// `.`, which stands for the directory itself.
pub open spec fn is_current(component: Seq<char>) -> bool {
    component == seq!['.']
}

/// The name of what `path` leads to: its last component that is not `.`, unless
/// that is `..`.
pub open spec fn name_in(path: Seq<char>) -> Option<Seq<char>>
    decreases path.len(),
{
    let last = last_component(path);
    if is_current(last) {
        proof { lemma_before_last_shrinks(path); }
        name_in(before_last(path))
    } else if last.len() == 0 || last == seq!['.', '.'] {
        None
    } else {
        Some(last)
    }
}

/// `path` without its last component that is not `.`.
pub open spec fn leaving(path: Seq<char>) -> Seq<char>
    decreases path.len(),
{
    if is_current(last_component(path)) {
        proof { lemma_before_last_shrinks(path); }
        leaving(before_last(path))
    } else {
        before_last(path)
    }
}

/// The directory of what `path` leads to; the empty path has none.
pub open spec fn parent_in(path: Seq<char>) -> Option<Seq<char>> {
    if path.len() == 0 {
        None
    } else {
        Some(leaving(path))
    }
}

proof fn lemma_no_separator(path: Seq<char>)
    requires
        forall|i: int| 0 <= i < path.len() ==> path[i] != '/',
    ensures
        without_trailing(path) == path,
        last_start(path) == 0,
    decreases path.len(),
{
    if path.len() > 0 {
        lemma_no_separator(path.drop_last());
    }
}

/// A bare name is the name of a file in the empty path.
pub proof fn lemma_parent_of_name(name: Seq<char>)
    requires
        name.len() > 0,
        name[0] != '.',
        forall|i: int| 0 <= i < name.len() ==> name[i] != '/',
    ensures
        parent_in(name) == Some(Seq::<char>::empty()),
        name_in(name) == Some(name),
{
    lemma_no_separator(name);
    assert(last_component(name) =~= name);
    lemma_no_separator(Seq::empty());
    assert(name.take(0) =~= Seq::<char>::empty());
}

/// `base`, one separator, and `path`; no separator is put behind an empty
/// `base`, and one at the beginning of `path` is dropped.
pub open spec fn joined(base: Seq<char>, path: Seq<char>) -> Seq<char> {
    let front = if base.len() > 0 && base.last() != '/' {
        base.push('/')
    } else {
        base
    };
    let back = if path.len() > 0 && path[0] == '/' {
        path.drop_first()
    } else {
        path
    };
    front + back
}

/// `RelativePath::join`.
#[verifier::external_body]
pub(crate) fn join(base: &str, path: &str) -> (result: String)
    ensures
        result@ == joined(base@, path@),
{
    relative_path::RelativePath::new(base).join(path).into_string()
}

/// `RelativePath::parent`.
#[verifier::external_body]
pub(crate) fn parent(path: &str) -> (result: Option<String>)
    ensures
        match result {
            Some(parent) => parent_in(path@) == Some(parent@),
            None => parent_in(path@) is None,
        },
{
    relative_path::RelativePath::new(path).parent().map(|parent| parent.to_string())
}

/// `RelativePath::file_name`.
#[verifier::external_body]
pub(crate) fn file_name(path: &str) -> (result: Option<String>)
    ensures
        match result {
            Some(name) => name_in(path@) == Some(name@),
            None => name_in(path@) is None,
        },
{
    relative_path::RelativePath::new(path).file_name().map(|name| name.to_string())
}

/// Why a path could not be made relative.
#[verifier::external_type_specification]
#[verifier::external_body]
pub struct ExRelativeToError(relative_path::RelativeToError);

/// The parts of `path` that lead somewhere: those between its separators that
/// are neither empty nor `.`.
pub open spec fn leading_parts(path: Seq<char>) -> Seq<Seq<char>> {
    text::pieces(path, '/').filter(|part: Seq<char>| part.len() > 0 && !is_current(part))
}

/// `parts` with one separator between each two of them.
pub open spec fn parted(parts: Seq<Seq<char>>) -> Seq<char>
    decreases parts.len(),
{
    if parts.len() == 0 {
        Seq::empty()
    } else if parts.len() == 1 {
        parts[0]
    } else {
        parted(parts.drop_last()).push('/') + parts.last()
    }
}

/// `path`, told from the working directory on: the parts of it that lead
/// somewhere.  An absolute path cannot be told so, and the empty path, which has
/// not even the component `.`, is told as the directory above.
pub open spec fn told(path: Seq<char>) -> Option<Seq<char>> {
    if path.len() == 0 {
        Some(seq!['.', '.'])
    } else if path[0] == '/' {
        None
    } else {
        Some(parted(leading_parts(path)))
    }
}

/// `path` with a separator for each backslash.
pub open spec fn slashed(path: Seq<char>) -> Seq<char> {
    path.map_values(|ch: char| if ch == '\\' { '/' } else { ch })
}

/// Whether some platform tells `path` as `outcome` from the working directory
/// on.  A platform may part components at backslashes too, and may read what
/// stands in front of a colon as a drive, which makes a path absolute.
pub open spec fn may_be_told(path: Seq<char>, outcome: Option<Seq<char>>) -> bool {
    ||| outcome == told(path)
    ||| outcome == told(slashed(path))
    ||| outcome is None && path.contains(':')
}

/// Whether every platform reads `path` alike: it holds no backslash and no colon.
pub open spec fn is_portable(path: Seq<char>) -> bool {
    !path.contains('\\') && !path.contains(':')
}

/// `PathExt::relative_to`, with the working directory (`.`) as the root: an
/// error for a path with a prefix or a root, `..` for a path without components,
/// and for any other path its components but a leading `.`, joined by `/`.  By
/// `Path::components`, repeated separators and each `.` behind the beginning are
/// no components.  Which characters part components, and whether there are
/// prefixes, depends on the platform: what is said holds on every one.
#[verifier::external_body]
pub(crate) fn relative_to_working_dir(path: &str) -> (result: Result<
    String,
    relative_path::RelativeToError,
>)
    ensures
        match result {
            Ok(relative) => may_be_told(path@, Some(relative@)),
            Err(_) => may_be_told(path@, None),
        },
{
    relative_path::PathExt::relative_to(std::path::Path::new(path), ".").map(
        |relative| relative.into_string(),
    )
}

/// A path that every platform reads alike is told in one way.
pub proof fn law_portable_path_is_told_alike(path: Seq<char>, outcome: Option<Seq<char>>)
    requires
        is_portable(path),
    ensures
        may_be_told(path, outcome) <==> outcome == told(path),
{
    assert forall|i: int| 0 <= i < path.len() implies path[i] != '\\' by {
        assert(path.contains(path[i]));
    }
    assert(slashed(path) =~= path);
}

/// Whether `path` is made of components that lead somewhere, parted by single
/// separators, none of them at the beginning or at the end.
pub open spec fn is_plain(path: Seq<char>) -> bool {
    let parts = text::pieces(path, '/');
    forall|i: int|
        0 <= i < parts.len() ==> (#[trigger] parts[i]).len() > 0 && !is_current(parts[i])
}

proof fn lemma_parted_pieces(path: Seq<char>)
    ensures
        text::pieces(path, '/').len() > 0,
        parted(text::pieces(path, '/')) == path,
    decreases path.len(),
{
    if path.len() > 0 {
        let front = text::pieces(path.drop_last(), '/');
        let parts = text::pieces(path, '/');
        lemma_parted_pieces(path.drop_last());
        if path.last() == '/' {
            assert(parts.drop_last() =~= front);
            assert(parted(front).push('/') + Seq::<char>::empty() =~= path);
        } else if front.len() == 1 {
            assert(parts[0] =~= path);
        } else {
            let before = parted(front.drop_last()).push('/');
            assert(parts.drop_last() =~= front.drop_last());
            assert(parted(front) == before + front.last());
            assert(parts.last() == front.last().push(path.last()));
            assert(before + parts.last() =~= (before + front.last()).push(path.last()));
            assert(path.drop_last().push(path.last()) =~= path);
        }
    }
}

/// The part in front of a leading separator is empty.
proof fn lemma_leading_separator(path: Seq<char>)
    requires
        path.len() > 0,
        path[0] == '/',
    ensures
        text::pieces(path, '/').len() > 1,
        text::pieces(path, '/')[0].len() == 0,
    decreases path.len(),
{
    if path.len() > 1 {
        lemma_leading_separator(path.drop_last());
    } else {
        assert(text::pieces(path.drop_last(), '/') == seq![Seq::<char>::empty()]);
    }
}

proof fn lemma_filter_keeps_all(parts: Seq<Seq<char>>, kept: spec_fn(Seq<char>) -> bool)
    requires
        forall|i: int| 0 <= i < parts.len() ==> kept(#[trigger] parts[i]),
    ensures
        parts.filter(kept) == parts,
    decreases parts.len(),
{
    reveal(Seq::filter);
    if parts.len() > 0 {
        lemma_filter_keeps_all(parts.drop_last(), kept);
        assert(parts.drop_last().push(parts.last()) =~= parts);
    }
}

/// A plain path is already told from the working directory on.
pub proof fn law_plain_path_is_told_as_it_is(path: Seq<char>)
    requires
        is_plain(path),
    ensures
        told(path) == Some(path),
{
    let parts = text::pieces(path, '/');
    lemma_parted_pieces(path);
    assert(parts[0].len() > 0);
    if path.len() > 0 && path[0] == '/' {
        lemma_leading_separator(path);
    }
    lemma_filter_keeps_all(parts, |part: Seq<char>| part.len() > 0 && !is_current(part));
}

/// Whether `name` is one component that is neither empty nor begins with a dot.
pub open spec fn is_bare_name(name: Seq<char>) -> bool {
    &&& name.len() > 0
    &&& name[0] != '.'
    &&& forall|i: int| 0 <= i < name.len() ==> name[i] != '/'
}

proof fn lemma_last_start_behind(front: Seq<char>, name: Seq<char>)
    requires
        front.len() == 0 || front.last() == '/',
        forall|i: int| 0 <= i < name.len() ==> name[i] != '/',
    ensures
        last_start(front + name) == front.len(),
    decreases name.len(),
{
    let whole = front + name;
    if name.len() == 0 {
        assert(whole =~= front);
    } else {
        assert(whole.drop_last() =~= front + name.drop_last());
        assert(whole.last() == name.last());
        lemma_last_start_behind(front, name.drop_last());
    }
}

proof fn lemma_without_trailing_idempotent(path: Seq<char>)
    ensures
        without_trailing(without_trailing(path)) == without_trailing(path),
    decreases path.len(),
{
    if path.len() > 0 && path.last() == '/' {
        lemma_without_trailing_idempotent(path.drop_last());
    }
}

/// A file that is joined to a directory has the name that was joined, and is in
/// that directory.
pub proof fn law_joined_name_is_found(directory: Seq<char>, name: Seq<char>)
    requires
        is_bare_name(name),
    ensures
        name_in(joined(directory, name)) == Some(name),
        parent_in(joined(directory, name)) == Some(without_trailing(directory)),
{
    let front = if directory.len() > 0 && directory.last() != '/' {
        directory.push('/')
    } else {
        directory
    };
    let path = joined(directory, name);
    assert(path == front + name);
    assert(path.last() == name.last());
    assert(without_trailing(path) == path);
    lemma_last_start_behind(front, name);
    assert(last_component(path) =~= name);
    assert(path.take(front.len() as int) =~= front);
    if directory.len() > 0 && directory.last() != '/' {
        assert(front.drop_last() =~= directory);
        assert(without_trailing(front) == without_trailing(directory));
    }
}

/// A directory that a path is in ends in no separator.
pub proof fn lemma_leaving_is_trimmed(path: Seq<char>)
    ensures
        without_trailing(leaving(path)) == leaving(path),
    decreases path.len(),
{
    if is_current(last_component(path)) {
        lemma_before_last_shrinks(path);
        lemma_leaving_is_trimmed(before_last(path));
    } else {
        let trimmed = without_trailing(path);
        lemma_without_trailing_idempotent(trimmed.take(last_start(trimmed) as int));
    }
}

/// Joining puts the components of a path behind those of the directory.
pub proof fn law_joined_components(base: Seq<char>, path: Seq<char>)
    ensures
        components(joined(base, path)) == components(base) + components(path),
{
    let kept = |part: Seq<char>| part.len() > 0;
    let back = if path.len() > 0 && path[0] == '/' {
        path.drop_first()
    } else {
        path
    };
    lemma_components_behind(Seq::empty(), back);
    if path.len() > 0 && path[0] == '/' {
        assert(Seq::<char>::empty() + seq!['/'] + back =~= path);
    }
    lemma_no_components();
    assert(components(path) =~= components(back));
    if base.len() == 0 {
        assert(joined(base, path) =~= back);
        assert(base =~= Seq::empty());
    } else {
        let front = if base.last() != '/' {
            base
        } else {
            base.drop_last()
        };
        assert(joined(base, path) =~= front + seq!['/'] + back);
        lemma_components_behind(front, back);
        if base.last() == '/' {
            assert(front + seq!['/'] + Seq::<char>::empty() =~= base);
            lemma_components_behind(front, Seq::empty());
            assert(components(base) =~= components(front));
        }
    }
    assert(components(joined(base, path)) =~= components(base) + components(path));
}

proof fn lemma_no_components()
    ensures
        components(Seq::empty()) == Seq::<Seq<char>>::empty(),
{
    reveal_with_fuel(Seq::filter, 2);
    let none = seq![Seq::<char>::empty()];
    assert(text::pieces(Seq::empty(), '/') =~= none);
    assert(none.drop_last() =~= Seq::empty());
    assert(none.filter(|part: Seq<char>| part.len() > 0) =~= Seq::empty());
}

/// A separator parts the components of a path.
proof fn lemma_components_behind(front: Seq<char>, back: Seq<char>)
    ensures
        components(front + seq!['/'] + back) == components(front) + components(back),
{
    let kept = |part: Seq<char>| part.len() > 0;
    text::law_pieces_in_front_and_behind(front, back, '/');
    Seq::filter_distributes_over_add(text::pieces(front, '/'), text::pieces(back, '/'), kept);
}

proof fn lemma_pieces_of_parted(parts: Seq<Seq<char>>)
    requires
        parts.len() > 0,
        forall|i: int, j: int|
            0 <= i < parts.len() && 0 <= j < parts[i].len() ==> #[trigger] parts[i][j] != '/',
    ensures
        text::pieces(parted(parts), '/') == parts,
    decreases parts.len(),
{
    if parts.len() == 1 {
        text::law_text_without_the_mark_is_one_piece(parts[0], '/');
        assert(seq![parts[0]] =~= parts);
    } else {
        let front = parts.drop_last();
        lemma_pieces_of_parted(front);
        text::law_text_without_the_mark_is_one_piece(parts.last(), '/');
        text::law_pieces_in_front_and_behind(parted(front), parts.last(), '/');
        assert(parted(parts) =~= parted(front) + seq!['/'] + parts.last());
        assert(front + seq![parts.last()] =~= parts);
    }
}

proof fn lemma_filter_twice(
    parts: Seq<Seq<char>>,
    first: spec_fn(Seq<char>) -> bool,
    second: spec_fn(Seq<char>) -> bool,
    both: spec_fn(Seq<char>) -> bool,
)
    requires
        forall|part: Seq<char>| #[trigger] both(part) == (first(part) && second(part)),
    ensures
        parts.filter(both) == parts.filter(first).filter(second),
    decreases parts.len(),
{
    reveal(Seq::filter);
    if parts.len() > 0 {
        lemma_filter_twice(parts.drop_last(), first, second, both);
        assert(both(parts.last()) == (first(parts.last()) && second(parts.last())));
        let before = parts.drop_last().filter(first);
        assert(before.push(parts.last()).drop_last() =~= before);
    }
}

/// A path that is told from the working directory on has the components of the
/// path but `.`, in order.
pub proof fn law_told_path_has_the_same_components(path: Seq<char>)
    requires
        path.len() > 0,
        path[0] != '/',
    ensures
        told(path) matches Some(told) && components(told) == components(path).filter(
            |part: Seq<char>| part != seq!['.'],
        ),
{
    let parts = text::pieces(path, '/');
    let leading = leading_parts(path);
    let kept = |part: Seq<char>| part.len() > 0;
    let moving = |part: Seq<char>| part != seq!['.'];
    let both = |part: Seq<char>| part.len() > 0 && !is_current(part);
    lemma_filter_twice(parts, kept, moving, both);
    assert(leading == components(path).filter(moving));
    text::law_no_piece_holds_the_mark(path, '/');
    broadcast use Seq::lemma_filter_pred, Seq::lemma_filter_contains_rev;
    assert forall|i: int, j: int|
        0 <= i < leading.len() && 0 <= j < leading[i].len() implies #[trigger] leading[i][j]
        != '/' by {
        assert(leading.contains(leading[i]));
        assert(parts.contains(leading[i]));
        let k = choose|k: int| 0 <= k < parts.len() && parts[k] == leading[i];
        assert(parts[k][j] != '/');
    }
    if leading.len() == 0 {
        lemma_no_components();
        assert(parted(leading) =~= Seq::empty());
        assert(leading =~= Seq::empty());
    } else {
        lemma_pieces_of_parted(leading);
        assert forall|i: int| 0 <= i < leading.len() implies kept(#[trigger] leading[i]) by {
            assert(both(parts.filter(both)[i]));
        }
        lemma_filter_keeps_all(leading, kept);
    }
}

proof fn lemma_trimmed_components(path: Seq<char>)
    ensures
        components(without_trailing(path)) == components(path),
    decreases path.len(),
{
    if path.len() > 0 && path.last() == '/' {
        lemma_trimmed_components(path.drop_last());
        lemma_components_behind(path.drop_last(), Seq::empty());
        lemma_no_components();
        assert(path.drop_last() + seq!['/'] + Seq::<char>::empty() =~= path);
        assert(components(path.drop_last()) + Seq::<Seq<char>>::empty() =~= components(
            path.drop_last(),
        ));
    }
}

proof fn lemma_last_start_parts(path: Seq<char>)
    ensures
        last_start(path) <= path.len(),
        last_start(path) > 0 ==> path[last_start(path) - 1] == '/',
        forall|i: int| last_start(path) <= i < path.len() ==> path[i] != '/',
    decreases path.len(),
{
    if path.len() > 0 && path.last() != '/' {
        lemma_last_start_parts(path.drop_last());
        assert forall|i: int| last_start(path) <= i < path.len() implies path[i] != '/' by {
            if i < path.len() - 1 {
                assert(path.drop_last()[i] != '/');
            }
        }
    }
}

proof fn lemma_one_component(name: Seq<char>)
    requires
        name.len() > 0,
        forall|i: int| 0 <= i < name.len() ==> name[i] != '/',
    ensures
        components(name) == seq![name],
{
    text::law_text_without_the_mark_is_one_piece(name, '/');
    reveal_with_fuel(Seq::filter, 2);
    let kept = |part: Seq<char>| part.len() > 0;
    assert(seq![name].drop_last() =~= Seq::empty());
    assert(seq![name].filter(kept) =~= seq![name]);
}

proof fn lemma_last_of_components(path: Seq<char>)
    ensures
        components(path).len() == 0 <==> last_component(path).len() == 0,
        components(path).len() > 0 ==> last_component(path) == components(path).last()
            && components(before_last(path)) == components(path).drop_last(),
        components(path).len() == 0 ==> components(before_last(path)).len() == 0,
{
    let trimmed = without_trailing(path);
    lemma_trimmed_components(path);
    lemma_no_components();
    if trimmed.len() == 0 {
        assert(trimmed =~= Seq::empty());
        assert(trimmed.take(0) =~= Seq::empty());
    } else {
        lemma_without_trailing_end(path);
        let start = last_start(trimmed) as int;
        lemma_last_start_parts(trimmed);
        let name = last_component(path);
        let front = trimmed.take(start);
        lemma_one_component(name);
        lemma_trimmed_components(front);
        if start == 0 {
            assert(trimmed =~= name);
            assert(front =~= Seq::empty());
            assert(seq![name].drop_last() =~= Seq::empty());
        } else {
            let above = front.drop_last();
            assert(above + seq!['/'] + name =~= trimmed);
            lemma_components_behind(above, name);
            assert(above + seq!['/'] + Seq::<char>::empty() =~= front);
            lemma_components_behind(above, Seq::empty());
            assert(components(front) =~= components(above));
            assert((components(above) + seq![name]).drop_last() =~= components(above));
        }
    }
}

proof fn lemma_without_trailing_end(path: Seq<char>)
    ensures
        without_trailing(path).len() > 0 ==> without_trailing(path).last() != '/',
    decreases path.len(),
{
    if path.len() > 0 && path.last() == '/' {
        lemma_without_trailing_end(path.drop_last());
    }
}

/// A path leads to its last component that is not `.`, which is its name unless
/// it is `..`, and its directory has the components in front of that one.
pub proof fn law_path_leads_to_its_last_component(path: Seq<char>, at: int)
    requires
        0 <= at < components(path).len(),
        components(path)[at] != seq!['.'],
        forall|i: int| at < i < components(path).len() ==> components(path)[i] == seq!['.'],
    ensures
        components(path)[at] != seq!['.', '.'] ==> name_in(path) == Some(components(path)[at]),
        components(path)[at] == seq!['.', '.'] ==> name_in(path) is None,
        parent_in(path) matches Some(parent) && components(parent) == components(path).take(at),
    decreases path.len(),
{
    lemma_last_of_components(path);
    lemma_before_last_shrinks(path);
    let parts = components(path);
    if path.len() == 0 {
        lemma_no_components();
        assert(path =~= Seq::empty());
    }
    if at == parts.len() - 1 {
        assert(parts.drop_last() =~= parts.take(at));
    } else {
        assert(parts.last() == seq!['.']);
        let front = before_last(path);
        assert(parts.drop_last().take(at) =~= parts.take(at));
        assert(last_component(path).len() > 0);
        law_path_leads_to_its_last_component(front, at);
    }
}

} // verus!
