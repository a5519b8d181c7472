//! TOML documents.

use vstd::prelude::*;

verus! {

/// An item of `toml_edit`: a table, or a value in it.
#[verifier::external_type_specification]
#[verifier::external_body]
pub struct ExItem(toml_edit::Item);

/// Why `toml_edit` could not read a text.
#[verifier::external_type_specification]
#[verifier::external_body]
pub struct ExTomlError(toml_edit::TomlError);

/// A TOML document, as far as packages are described in one.
pub enum TomlView {
    Text(Seq<char>),
    Array(Seq<TomlView>),
    /// A table with a header of its own or made of dotted keys.
    Table(Seq<(Seq<char>, TomlView)>),
    /// A table between braces.
    InlineTable(Seq<(Seq<char>, TomlView)>),
    /// A number, a truth value, a time or an array of tables.
    Other,
}

/// What a `toml_edit::Item` holds.
pub uninterp spec fn toml_of(item: toml_edit::Item) -> TomlView;

/// What reading a TOML text gives: a document, or why there is none.
pub uninterp spec fn toml_reading(text: Seq<char>) -> Result<TomlView, toml_edit::TomlError>;

/// A TOML document as a tree, as far as packages are described in one.
#[derive(Debug)]
pub enum Toml {
    Text(String),
    Array(Vec<Toml>),
    /// A table with a header of its own or made of dotted keys.
    Table(Vec<(String, Toml)>),
    /// A table between braces.
    InlineTable(Vec<(String, Toml)>),
    /// A number, a truth value, a time or an array of tables.
    Other,
}

/// The document that a tree stands for.
pub open spec fn toml_view(toml: Toml) -> TomlView
    decreases toml,
{
    match toml {
        Toml::Text(text) => TomlView::Text(text@),
        Toml::Array(items) => TomlView::Array(
            Seq::new(
                items@.len(),
                |i: int|
                    if 0 <= i < items@.len() {
                        toml_view(items@[i])
                    } else {
                        TomlView::Other
                    },
            ),
        ),
        Toml::Table(entries) => TomlView::Table(
            Seq::new(
                entries@.len(),
                |i: int|
                    if 0 <= i < entries@.len() {
                        (entries@[i].0@, toml_view(entries@[i].1))
                    } else {
                        (Seq::empty(), TomlView::Other)
                    },
            ),
        ),
        Toml::InlineTable(entries) => TomlView::InlineTable(
            Seq::new(
                entries@.len(),
                |i: int|
                    if 0 <= i < entries@.len() {
                        (entries@[i].0@, toml_view(entries@[i].1))
                    } else {
                        (Seq::empty(), TomlView::Other)
                    },
            ),
        ),
        Toml::Other => TomlView::Other,
    }
}

impl View for Toml {
    type V = TomlView;

    open spec fn view(&self) -> TomlView {
        toml_view(*self)
    }
}

/// What a sequence of trees stands for.
pub open spec fn item_views(items: Seq<Toml>) -> Seq<TomlView> {
    items.map_values(|item: Toml| item@)
}

/// What a sequence of named trees stands for.
pub open spec fn entry_views(entries: Seq<(String, Toml)>) -> Seq<(Seq<char>, TomlView)> {
    entries.map_values(|entry: (String, Toml)| (entry.0@, entry.1@))
}

proof fn lemma_toml_view(toml: Toml)
    ensures
        toml matches Toml::Array(items) ==> toml@ == TomlView::Array(item_views(items@)),
        toml matches Toml::Table(entries) ==> toml@ == TomlView::Table(entry_views(entries@)),
        toml matches Toml::InlineTable(entries) ==> toml@ == TomlView::InlineTable(
            entry_views(entries@),
        ),
{
    match toml {
        Toml::Array(items) => {
            assert(toml@->Array_0 =~= item_views(items@));
        },
        Toml::Table(entries) => {
            assert(toml@->Table_0 =~= entry_views(entries@));
        },
        Toml::InlineTable(entries) => {
            assert(toml@->InlineTable_0 =~= entry_views(entries@));
        },
        _ => {},
    }
}

/// One level of a `toml_edit::Item`.
enum Node {
    Text(String),
    Array(Vec<toml_edit::Item>),
    Table(Vec<(String, toml_edit::Item)>),
    InlineTable(Vec<(String, toml_edit::Item)>),
    Other,
}

/// What a sequence of named items stands for.
spec fn named_item_views(entries: Seq<(String, toml_edit::Item)>) -> Seq<(Seq<char>, TomlView)> {
    entries.map_values(|entry: (String, toml_edit::Item)| (entry.0@, toml_of(entry.1)))
}

/// What one level of an item stands for.
spec fn node_view(node: Node) -> TomlView {
    match node {
        Node::Text(text) => TomlView::Text(text@),
        Node::Array(items) => TomlView::Array(
            items@.map_values(|item: toml_edit::Item| toml_of(item)),
        ),
        Node::Table(entries) => TomlView::Table(named_item_views(entries@)),
        Node::InlineTable(entries) => TomlView::InlineTable(named_item_views(entries@)),
        Node::Other => TomlView::Other,
    }
}

/// Opens one level of a `toml_edit::Item`: the variant and what it holds, the
/// entries of a table in the order of the table.
#[verifier::external_body]
fn unfold(item: toml_edit::Item) -> (node: Node)
    ensures
        node_view(node) == toml_of(item),
{
    match item {
        toml_edit::Item::Value(toml_edit::Value::String(text)) => Node::Text(text.into_value()),
        toml_edit::Item::Value(toml_edit::Value::Array(values)) => Node::Array(
            values.into_iter().map(toml_edit::Item::Value).collect(),
        ),
        toml_edit::Item::Value(toml_edit::Value::InlineTable(table)) => Node::InlineTable(
            table.into_iter().map(|entry| (entry.0, toml_edit::Item::Value(entry.1))).collect(),
        ),
        toml_edit::Item::Table(table) => Node::Table(table.into_iter().collect()),
        _ => Node::Other,
    }
}

/// `str::parse` for a `toml_edit::DocumentMut`, and the table that the document
/// is.  What it gives, the error included, is a function of the text.
#[verifier::external_body]
fn item_from_str(text: &str) -> (result: Result<toml_edit::Item, toml_edit::TomlError>)
    ensures
        match result {
            Ok(item) => toml_reading(text@) == Ok::<TomlView, toml_edit::TomlError>(
                toml_of(item),
            ),
            Err(error) => toml_reading(text@) == Err::<TomlView, toml_edit::TomlError>(error),
        },
{
    text.parse::<toml_edit::DocumentMut>().map(|document| document.into_item())
}

/// The tree of an item.
fn from_item(item: toml_edit::Item) -> (toml: Toml)
    ensures
        toml@ == toml_of(item),
    decreases toml_of(item), 0int,
{
    let ghost whole = toml_of(item);
    match unfold(item) {
        Node::Text(text) => Toml::Text(text),
        Node::Array(inner) => {
            let mut items: Vec<Toml> = Vec::new();
            for next in iter: inner
                invariant
                    iter.seq() == inner@,
                    whole == toml_of(item),
                    whole == node_view(Node::Array(inner)),
                    items.len() == iter.index(),
                    forall|i: int|
                        0 <= i < items.len() ==> (#[trigger] items[i])@ == toml_of(inner[i]),
            {
                assert(whole->Array_0[iter.index() as int] == toml_of(next));
                assert(decreases_to!(whole => whole->Array_0[iter.index() as int]));
                items.push(from_item(next));
            }
            let toml = Toml::Array(items);
            proof {
                lemma_toml_view(toml);
                assert(item_views(items@) =~= whole->Array_0);
            }
            toml
        },
        Node::Table(inner) => {
            assert(decreases_to!(whole => whole->Table_0));
            let toml = Toml::Table(from_entries(inner));
            proof {
                lemma_toml_view(toml);
            }
            toml
        },
        Node::InlineTable(inner) => {
            assert(decreases_to!(whole => whole->InlineTable_0));
            let toml = Toml::InlineTable(from_entries(inner));
            proof {
                lemma_toml_view(toml);
            }
            toml
        },
        Node::Other => Toml::Other,
    }
}

/// The trees of named items.
fn from_entries(inner: Vec<(String, toml_edit::Item)>) -> (entries: Vec<(String, Toml)>)
    ensures
        entry_views(entries@) == named_item_views(inner@),
    decreases named_item_views(inner@), 1int,
{
    let ghost views = named_item_views(inner@);
    let mut entries: Vec<(String, Toml)> = Vec::new();
    for next in iter: inner
        invariant
            iter.seq() == inner@,
            views == named_item_views(inner@),
            entries.len() == iter.index(),
            forall|i: int|
                0 <= i < entries.len() ==> (#[trigger] entries[i]).0@ == views[i].0
                    && entries[i].1@ == views[i].1,
    {
        assert(views[iter.index() as int] == (next.0@, toml_of(next.1)));
        assert(decreases_to!(views => views[iter.index() as int].1));
        entries.push((next.0, from_item(next.1)));
    }
    assert(entry_views(entries@) =~= views);
    entries
}

/// Reads a TOML text.
pub fn parse_toml(text: &str) -> (result: Result<Toml, toml_edit::TomlError>)
    ensures
        match result {
            Ok(toml) => toml_reading(text@) == Ok::<TomlView, toml_edit::TomlError>(toml@),
            Err(error) => toml_reading(text@) == Err::<TomlView, toml_edit::TomlError>(error),
        },
{
    match item_from_str(text) {
        Ok(item) => Ok(from_item(item)),
        Err(error) => Err(error),
    }
}

/// What the first entry called `name` holds.
pub open spec fn entry(entries: Seq<(Seq<char>, TomlView)>, name: Seq<char>) -> Option<TomlView>
    decreases entries.len(),
{
    if entries.len() == 0 {
        None
    } else if entries[0].0 == name {
        Some(entries[0].1)
    } else {
        entry(entries.drop_first(), name)
    }
}

/// The entries of a table of either kind.
pub open spec fn entries_of(toml: TomlView) -> Option<Seq<(Seq<char>, TomlView)>> {
    match toml {
        TomlView::Table(entries) => Some(entries),
        TomlView::InlineTable(entries) => Some(entries),
        _ => None,
    }
}

/// What `toml` holds under `name`, where it is a table that has it.
pub open spec fn lookup(toml: TomlView, name: Seq<char>) -> Option<TomlView> {
    match entries_of(toml) {
        Some(entries) => entry(entries, name),
        None => None,
    }
}

/// The text of `toml` where it is a string.
pub open spec fn text_of(toml: TomlView) -> Option<Seq<char>> {
    match toml {
        TomlView::Text(text) => Some(text),
        _ => None,
    }
}

/// What the first entry called `name` holds.
fn get_entry<'a>(entries: &'a Vec<(String, Toml)>, name: &str) -> (found: Option<&'a Toml>)
    ensures
        match found {
            Some(toml) => entry(entry_views(entries@), name@) == Some(toml@),
            None => entry(entry_views(entries@), name@) is None,
        },
{
    let ghost views = entry_views(entries@);
    let mut at: usize = 0;
    assert(views.skip(0) =~= views);
    while at < entries.len()
        invariant
            at <= entries.len(),
            views == entry_views(entries@),
            entry(views.skip(at as int), name@) == entry(views, name@),
        decreases entries.len() - at,
    {
        assert(views[at as int] == (entries[at as int].0@, entries[at as int].1@));
        assert(views.skip(at as int).drop_first() =~= views.skip(at + 1));
        if entries[at].0.as_str().eq(name) {
            return Some(&entries[at].1);
        }
        at = at + 1;
    }
    None
}

impl Toml {
    /// The entries, where this is a table of either kind.
    fn entries(&self) -> (found: Option<&Vec<(String, Toml)>>)
        ensures
            match found {
                Some(entries) => entries_of(self@) == Some(entry_views(entries@)),
                None => entries_of(self@) is None,
            },
    {
        proof {
            lemma_toml_view(*self);
        }
        match self {
            Toml::Table(entries) => Some(entries),
            Toml::InlineTable(entries) => Some(entries),
            _ => None,
        }
    }

    /// What this holds under `name`, where it is a table.
    pub fn get(&self, name: &str) -> (found: Option<&Toml>)
        ensures
            match found {
                Some(toml) => lookup(self@, name@) == Some(toml@),
                None => lookup(self@, name@) is None,
            },
    {
        match self.entries() {
            Some(entries) => get_entry(entries, name),
            None => None,
        }
    }

    /// Whether this is a table with a header of its own or made of dotted keys.
    pub fn is_table(&self) -> (table: bool)
        ensures
            table == (self@ is Table),
    {
        match self {
            Toml::Table(_) => true,
            _ => false,
        }
    }

    /// The text, where this is a string.
    pub fn as_str(&self) -> (text: Option<&String>)
        ensures
            match text {
                Some(text) => text_of(self@) == Some(text@),
                None => text_of(self@) is None,
            },
    {
        match self {
            Toml::Text(text) => Some(text),
            _ => None,
        }
    }

    /// The items, where this is an array.
    pub fn as_array(&self) -> (found: Option<&Vec<Toml>>)
        ensures
            match found {
                Some(items) => self@ == TomlView::Array(item_views(items@)),
                None => !(self@ is Array),
            },
    {
        proof {
            lemma_toml_view(*self);
        }
        match self {
            Toml::Array(items) => Some(items),
            _ => None,
        }
    }
}

/// What a table holds under a name is what its first entry of that name holds;
/// there is nothing exactly where no entry has the name.
pub proof fn law_entry_is_the_first_of_its_name(
    entries: Seq<(Seq<char>, TomlView)>,
    name: Seq<char>,
)
    ensures
        match entry(entries, name) {
            Some(value) => exists|at: int|
                0 <= at < entries.len() && #[trigger] entries[at] == (name, value) && forall|i: int|
                    0 <= i < at ==> (#[trigger] entries[i]).0 != name,
            None => forall|i: int| 0 <= i < entries.len() ==> (#[trigger] entries[i]).0 != name,
        },
    decreases entries.len(),
{
    if entries.len() > 0 {
        let rest = entries.drop_first();
        law_entry_is_the_first_of_its_name(rest, name);
        if entries[0].0 == name {
            assert(entries[0] == (name, entries[0].1));
        } else {
            match entry(rest, name) {
                Some(value) => {
                    let at = choose|at: int|
                        0 <= at < rest.len() && #[trigger] rest[at] == (name, value) && forall|
                            i: int,
                        |
                            0 <= i < at ==> (#[trigger] rest[i]).0 != name;
                    assert(entries[at + 1] == rest[at]);
                    assert forall|i: int| 0 <= i < at + 1 implies (
                    #[trigger] entries[i]).0 != name by {
                        if i > 0 {
                            assert(rest[i - 1] == entries[i]);
                        }
                    }
                },
                None => {
                    assert forall|i: int| 0 <= i < entries.len() implies (
                    #[trigger] entries[i]).0 != name by {
                        if i > 0 {
                            assert(rest[i - 1] == entries[i]);
                        }
                    }
                },
            }
        }
    }
}

/// Tables of either kind are looked into, and nothing else is.
pub proof fn law_tables_of_either_kind_are_looked_into(toml: TomlView, name: Seq<char>)
    ensures
        toml matches TomlView::Table(entries) ==> lookup(toml, name) == entry(entries, name),
        toml matches TomlView::InlineTable(entries) ==> lookup(toml, name) == entry(entries, name),
        !(toml is Table) && !(toml is InlineTable) ==> lookup(toml, name) is None,
{
}

} // verus!
