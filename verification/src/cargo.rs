//! What a `Cargo.toml` says of its package.

use vstd::prelude::*;

use crate::toml;
use crate::toml::{Toml, TomlView};

verus! {

/// What `document` holds under `outer` and then `inner`.
pub open spec fn nested(
    document: TomlView,
    outer: Seq<char>,
    inner: Seq<char>,
) -> Option<TomlView> {
    match toml::lookup(document, outer) {
        Some(found) => toml::lookup(found, inner),
        None => None,
    }
}

/// The name of the package that `document` describes.
pub open spec fn package_name(document: TomlView) -> Option<Seq<char>> {
    match nested(document, "package"@, "name"@) {
        Some(name) => toml::text_of(name),
        None => None,
    }
}

/// Whether `document` lists the package `name` as a dependency, of any kind, of
/// its package or of the members of its workspace.
pub open spec fn lists_dependency(document: TomlView, name: Seq<char>) -> bool {
    ||| nested(document, "dependencies"@, name) is Some
    ||| nested(document, "dev-dependencies"@, name) is Some
    ||| nested(document, "build-dependencies"@, name) is Some
    ||| nested(document, "workspace"@, "dependencies"@) matches Some(shared) && toml::lookup(
        shared,
        name,
    ) is Some
}

fn get_nested<'a>(document: &'a Toml, outer: &str, inner: &str) -> (found: Option<&'a Toml>)
    ensures
        match found {
            Some(toml) => nested(document@, outer@, inner@) == Some(toml@),
            None => nested(document@, outer@, inner@) is None,
        },
{
    match document.get(outer) {
        Some(found) => found.get(inner),
        None => None,
    }
}

/// The name of the package that `document` describes.
pub fn name_from_document(document: &Toml) -> (name: Option<&String>)
    ensures
        match name {
            Some(name) => package_name(document@) == Some(name@),
            None => package_name(document@) is None,
        },
{
    match get_nested(document, "package", "name") {
        Some(name) => name.as_str(),
        None => None,
    }
}

/// Whether `document` lists the package `name` as a dependency.
pub fn contains_dependency(document: &Toml, name: &str) -> (listed: bool)
    ensures
        listed == lists_dependency(document@, name@),
{
    if get_nested(document, "dependencies", name).is_some() || get_nested(
        document,
        "dev-dependencies",
        name,
    ).is_some() || get_nested(document, "build-dependencies", name).is_some() {
        return true;
    }
    match get_nested(document, "workspace", "dependencies") {
        Some(shared) => shared.get(name).is_some(),
        None => false,
    }
}

/// The name of a package is the text under `name` in what stands under `package`,
/// and a manifest without such a text names none.
pub proof fn law_package_is_named_under_package(document: TomlView)
    ensures
        match toml::lookup(document, "package"@) {
            Some(package) => match toml::lookup(package, "name"@) {
                Some(TomlView::Text(name)) => package_name(document) == Some(name),
                _ => package_name(document) is None,
            },
            None => package_name(document) is None,
        },
{
}

/// Each of the tables of dependencies makes a manifest depend on the packages
/// that it has an entry for, whatever the others hold: `dependencies`,
/// `dev-dependencies`, `build-dependencies` and the `dependencies` of the
/// `workspace`.  Nothing else does.
pub proof fn law_every_table_of_dependencies_counts(document: TomlView, name: Seq<char>)
    ensures
        (toml::lookup(document, "dependencies"@) matches Some(table) && toml::lookup(
            table,
            name,
        ) is Some) ==> lists_dependency(document, name),
        (toml::lookup(document, "dev-dependencies"@) matches Some(table) && toml::lookup(
            table,
            name,
        ) is Some) ==> lists_dependency(document, name),
        (toml::lookup(document, "build-dependencies"@) matches Some(table) && toml::lookup(
            table,
            name,
        ) is Some) ==> lists_dependency(document, name),
        (toml::lookup(document, "workspace"@) matches Some(workspace) && toml::lookup(
            workspace,
            "dependencies"@,
        ) matches Some(table) && toml::lookup(table, name) is Some) ==> lists_dependency(
            document,
            name,
        ),
        lists_dependency(document, name) ==> {
            ||| toml::lookup(document, "dependencies"@) matches Some(table) && toml::lookup(
                table,
                name,
            ) is Some
            ||| toml::lookup(document, "dev-dependencies"@) matches Some(table) && toml::lookup(
                table,
                name,
            ) is Some
            ||| toml::lookup(document, "build-dependencies"@) matches Some(table) && toml::lookup(
                table,
                name,
            ) is Some
            ||| toml::lookup(document, "workspace"@) matches Some(workspace) && toml::lookup(
                workspace,
                "dependencies"@,
            ) matches Some(table) && toml::lookup(table, name) is Some
        },
{
}

} // verus!
