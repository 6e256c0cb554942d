//! Small rules of the store front end: the display data of a queued
//! operation and the owner/project of a COPR repository.

use vstd::prelude::*;
use crate::appstream::{lookup, Catalog};
use crate::text::{after_last, after_last_vec, chars_of, splitn, splitn_char, string_of, views};

verus! {

/// The display name, icon path and icon URL of an app from the catalog;
/// without a record, the last dot-separated piece of its id as the name.
pub open spec fn app_info_spec(e: Seq<(Seq<char>, crate::appstream::AppInfo)>, id: Seq<char>) -> (
    Seq<char>,
    Seq<char>,
    Seq<char>,
) {
    match lookup(e, id) {
        Some(a) => (a.name@, a.icon_path@, a.icon_url@),
        None => (after_last(id, '.'), Seq::empty(), Seq::empty()),
    }
}

pub fn lookup_app_info(cat: &Catalog, id: &str) -> (r: (String, String, String))
    requires
        cat.wf(),
    ensures
        (r.0@, r.1@, r.2@) == app_info_spec(cat.view_entries(), id@),
{
    match cat.get(id) {
        Some(a) => (a.name.clone(), a.icon_path.clone(), a.icon_url.clone()),
        None => (string_of(&after_last_vec(&chars_of(id), '.')), String::new(), String::new()),
    }
}

/// The display data of an operation: what the caller supplied, each missing
/// piece filled from the catalog; with a name and an icon supplied, the
/// catalog is not consulted.
pub open spec fn display_info_spec(
    e: Seq<(Seq<char>, crate::appstream::AppInfo)>,
    id: Seq<char>,
    name: Seq<char>,
    icon_path: Seq<char>,
    icon_url: Seq<char>,
) -> (Seq<char>, Seq<char>, Seq<char>) {
    if name.len() > 0 && (icon_path.len() > 0 || icon_url.len() > 0) {
        (name, icon_path, icon_url)
    } else {
        let c = app_info_spec(e, id);
        (
            if name.len() == 0 { c.0 } else { name },
            if icon_path.len() == 0 { c.1 } else { icon_path },
            if icon_url.len() == 0 { c.2 } else { icon_url },
        )
    }
}

pub fn resolve_app_display_info(
    cat: &Catalog,
    id: &str,
    hint_name: String,
    hint_icon_path: String,
    hint_icon_url: String,
) -> (r: (String, String, String))
    requires
        cat.wf(),
    ensures
        (r.0@, r.1@, r.2@) == display_info_spec(
            cat.view_entries(),
            id@,
            hint_name@,
            hint_icon_path@,
            hint_icon_url@,
        ),
{
    let has_name = hint_name.unicode_len() > 0;
    let has_path = hint_icon_path.unicode_len() > 0;
    let has_url = hint_icon_url.unicode_len() > 0;
    if has_name && (has_path || has_url) {
        return (hint_name, hint_icon_path, hint_icon_url);
    }
    let (cache_name, cache_path, cache_url) = lookup_app_info(cat, id);
    let name = if has_name {
        hint_name
    } else {
        cache_name
    };
    let ip = if has_path {
        hint_icon_path
    } else {
        cache_path
    };
    let iu = if has_url {
        hint_icon_url
    } else {
        cache_url
    };
    (name, ip, iu)
}

/// `owner/project` of a COPR repository id
/// `copr:<host>:<owner>:<project>`; empty when the id has fewer parts.
pub open spec fn owner_project_spec(id: Seq<char>) -> Seq<char> {
    let parts = splitn_char(id, ':', 4);
    if parts.len() >= 4 {
        parts[2] + "/"@ + parts[3]
    } else {
        Seq::empty()
    }
}

pub fn repo_owner_project(id: &str) -> (r: String)
    ensures
        r@ == owner_project_spec(id@),
{
    let parts = splitn(&chars_of(id), ':', 4);
    assert(views(parts@).len() == parts@.len());
    if parts.len() >= 4 {
        assert(views(parts@)[2] == parts@[2]@ && views(parts@)[3] == parts@[3]@);
        let mut out = crate::text::concat(&parts[2], &chars_of("/"));
        out = crate::text::concat(&out, &parts[3]);
        string_of(&out)
    } else {
        String::new()
    }
}

} // verus!
