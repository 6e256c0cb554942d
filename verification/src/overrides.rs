//! Local corrections to the catalog: override patches that rewrite or add
//! records.
use vstd::prelude::*;
use crate::appimage::clone_strings;
use crate::appstream::{AppInfo, Catalog, entry_views, key_index, lemma_key_index, lemma_put_unique, lookup, put, same_record, take, unique_keys};
use crate::text::str_lowercase;
use crate::text::has_prefix;

verus! {

// ── Records compared by what they hold ──────────────────────────────────────

/// Two records hold the same text in every field.
pub open spec fn view_eq(n: AppInfo, o: AppInfo) -> bool {
    &&& n.id@ == o.id@ && n.name@ == o.name@ && n.summary@ == o.summary@
    &&& n.description@ == o.description@ && n.icon@ == o.icon@ && n.icon_url@ == o.icon_url@
    &&& n.icon_path@ == o.icon_path@ && n.categories@ == o.categories@
    &&& n.keywords@ == o.keywords@ && n.screenshots@ == o.screenshots@
    &&& n.source@ == o.source@ && n.package_name@ == o.package_name@ && n.version@ == o.version@
    &&& n.developer@ == o.developer@ && n.url_homepage@ == o.url_homepage@
    &&& n.url_bugtracker@ == o.url_bugtracker@ && n.url_donation@ == o.url_donation@
    &&& n.url_help@ == o.url_help@ && n.url_faq@ == o.url_faq@
    &&& n.url_vcs_browser@ == o.url_vcs_browser@ && n.url_contribute@ == o.url_contribute@
    &&& n.license@ == o.license@ && n.content_rating@ == o.content_rating@
    &&& n.is_addon == o.is_addon && n.extends@ == o.extends@
    &&& n.pkg_name_guessed == o.pkg_name_guessed && n.remotes@ == o.remotes@
    &&& n.component_type@ == o.component_type@ && n.updated@ == o.updated@
}

/// Two catalogs hold the same keys in the same order, with records that hold
/// the same text.
pub open spec fn same_entries(x: Seq<(Seq<char>, AppInfo)>, y: Seq<(Seq<char>, AppInfo)>) -> bool {
    &&& x.len() == y.len()
    &&& forall|i: int| 0 <= i < x.len() ==> (#[trigger] x[i]).0 == y[i].0 && view_eq(x[i].1, y[i].1)
}

pub proof fn lemma_same_entries_trans(
    x: Seq<(Seq<char>, AppInfo)>,
    y: Seq<(Seq<char>, AppInfo)>,
    z: Seq<(Seq<char>, AppInfo)>,
)
    requires
        same_entries(x, y),
        same_entries(y, z),
    ensures
        same_entries(x, z),
{
    assert forall|i: int| 0 <= i < x.len() implies (#[trigger] x[i]).0 == z[i].0 && view_eq(
        x[i].1,
        z[i].1,
    ) by {
        assert(y[i].0 == z[i].0);
    }
}

/// Catalogs with the same keys find a key at the same position.
pub proof fn lemma_same_keys(x: Seq<(Seq<char>, AppInfo)>, y: Seq<(Seq<char>, AppInfo)>, k: Seq<char>)
    requires
        same_entries(x, y),
        unique_keys(x),
    ensures
        unique_keys(y),
        key_index(x, k) == key_index(y, k),
{
    assert forall|p: int, q: int| 0 <= p < q < y.len() implies (#[trigger] y[p]).0 != (
    #[trigger] y[q]).0 by {
        assert(x[p].0 == y[p].0 && x[q].0 == y[q].0);
    }
    if exists|i: int| 0 <= i < x.len() && (#[trigger] x[i]).0 == k {
        let i = choose|i: int| 0 <= i < x.len() && (#[trigger] x[i]).0 == k;
        lemma_key_index(x, k, i);
        assert(y[i].0 == k);
        lemma_key_index(y, k, i);
    } else {
        assert forall|i: int| 0 <= i < y.len() implies (#[trigger] y[i]).0 != k by {
            assert(x[i].0 == y[i].0);
        }
    }
}

/// Writing records that hold the same text under one key into catalogs
/// with the same keys keeps them alike.
pub proof fn lemma_put_same(
    x: Seq<(Seq<char>, AppInfo)>,
    y: Seq<(Seq<char>, AppInfo)>,
    k: Seq<char>,
    a: AppInfo,
    b: AppInfo,
)
    requires
        same_entries(x, y),
        unique_keys(x),
        view_eq(a, b),
    ensures
        same_entries(put(x, k, a), put(y, k, b)),
        unique_keys(put(x, k, a)),
{
    lemma_same_keys(x, y, k);
    lemma_put_unique(x, k, a);
    let px = put(x, k, a);
    let py = put(y, k, b);
    match key_index(x, k) {
        Some(i) => {
            assert forall|j: int| 0 <= j < px.len() implies (#[trigger] px[j]).0 == py[j].0
                && view_eq(px[j].1, py[j].1) by {
                if j != i {
                    assert(px[j] == x[j] && py[j] == y[j]);
                }
            }
        },
        None => {
            assert forall|j: int| 0 <= j < px.len() implies (#[trigger] px[j]).0 == py[j].0
                && view_eq(px[j].1, py[j].1) by {
                if j < x.len() {
                    assert(px[j] == x[j] && py[j] == y[j]);
                }
            }
        },
    }
}

// ── Override patches ────────────────────────────────────────────────────────

/// The fields an override sets (`None`: left as it is).
#[derive(Debug, Clone)]
pub struct OverridePatch {
    pub name: Option<String>,
    pub summary: Option<String>,
    pub icon: Option<String>,
    pub icon_url: Option<String>,
    pub source: Option<String>,
    pub package_name: Option<String>,
    pub url_homepage: Option<String>,
    pub url_bugtracker: Option<String>,
    pub url_donation: Option<String>,
    pub url_help: Option<String>,
    pub url_faq: Option<String>,
    pub url_vcs_browser: Option<String>,
    pub url_contribute: Option<String>,
    pub categories: Option<Vec<String>>,
}

pub open spec fn or_old(cur: String, o: Option<String>) -> String {
    match o {
        Some(s) => s,
        None => cur,
    }
}

pub open spec fn or_old_list(cur: Vec<String>, o: Option<Vec<String>>) -> Vec<String> {
    match o {
        Some(s) => s,
        None => cur,
    }
}

/// A record with a patch applied to it.
pub open spec fn patched(a: AppInfo, p: OverridePatch) -> AppInfo {
    AppInfo {
        name: or_old(a.name, p.name),
        summary: or_old(a.summary, p.summary),
        icon: or_old(a.icon, p.icon),
        icon_url: or_old(a.icon_url, p.icon_url),
        source: or_old(a.source, p.source),
        package_name: or_old(a.package_name, p.package_name),
        url_homepage: or_old(a.url_homepage, p.url_homepage),
        url_bugtracker: or_old(a.url_bugtracker, p.url_bugtracker),
        url_donation: or_old(a.url_donation, p.url_donation),
        url_help: or_old(a.url_help, p.url_help),
        url_faq: or_old(a.url_faq, p.url_faq),
        url_vcs_browser: or_old(a.url_vcs_browser, p.url_vcs_browser),
        url_contribute: or_old(a.url_contribute, p.url_contribute),
        categories: or_old_list(a.categories, p.categories),
        ..a
    }
}

/// An empty string.
pub open spec fn empty_text() -> String {
    choose|s: String| s@.len() == 0
}

/// An empty list.
pub open spec fn empty_list() -> Vec<String> {
    choose|v: Vec<String>| v@.len() == 0
}

/// The record a patch makes for an id the catalog lacks: the id, with the
/// patch's name, summary, source, package name, links and categories
/// (its icon fields are not taken), everything else empty.
pub open spec fn fresh_info(id: String, p: OverridePatch) -> AppInfo {
    let e = empty_text();
    let l = empty_list();
    AppInfo {
        id: id,
        name: or_old(e, p.name),
        summary: or_old(e, p.summary),
        description: e,
        icon: e,
        icon_url: e,
        icon_path: e,
        categories: or_old_list(l, p.categories),
        keywords: l,
        screenshots: l,
        source: or_old(e, p.source),
        package_name: or_old(e, p.package_name),
        version: e,
        developer: e,
        url_homepage: or_old(e, p.url_homepage),
        url_bugtracker: or_old(e, p.url_bugtracker),
        url_donation: or_old(e, p.url_donation),
        url_help: or_old(e, p.url_help),
        url_faq: or_old(e, p.url_faq),
        url_vcs_browser: or_old(e, p.url_vcs_browser),
        url_contribute: or_old(e, p.url_contribute),
        license: e,
        content_rating: e,
        is_addon: false,
        extends: e,
        pkg_name_guessed: false,
        remotes: l,
        component_type: e,
        updated: e,
    }
}

/// The patch applied under the id itself: to the record there, or, when
/// there is none, a new record when the patch gives it a source or a name.
pub open spec fn override_key(e: Seq<(Seq<char>, AppInfo)>, id: String, p: OverridePatch) -> Seq<
    (Seq<char>, AppInfo),
> {
    match lookup(e, id@) {
        Some(a) => put(e, id@, patched(a, p)),
        None => {
            let f = fresh_info(id, p);
            if f.source@.len() > 0 || f.name@.len() > 0 {
                put(e, id@, f)
            } else {
                e
            }
        },
    }
}

/// The patch applied under `flatpak:<id>`, when that key is present.
pub open spec fn override_flatpak(e: Seq<(Seq<char>, AppInfo)>, id: String, p: OverridePatch) -> Seq<
    (Seq<char>, AppInfo),
> {
    let k = "flatpak:"@ + id@;
    match lookup(e, k) {
        Some(a) => put(e, k, patched(a, p)),
        None => e,
    }
}

/// One override: ids starting with `_` are comments; otherwise the patch is
/// applied under the id, then under `flatpak:<id>`.
pub open spec fn override_one(e: Seq<(Seq<char>, AppInfo)>, id: String, p: OverridePatch) -> Seq<
    (Seq<char>, AppInfo),
> {
    if has_prefix(id@, "_"@) {
        e
    } else {
        override_flatpak(override_key(e, id, p), id, p)
    }
}

/// Overrides applied in order.
pub open spec fn overrides_spec(e: Seq<(Seq<char>, AppInfo)>, ps: Seq<(String, OverridePatch)>) -> Seq<
    (Seq<char>, AppInfo),
>
    decreases ps.len(),
{
    if ps.len() == 0 {
        e
    } else {
        overrides_spec(override_one(e, ps[0].0, ps[0].1), ps.drop_first())
    }
}

/// An override whose id starts with `_` is a comment: it changes nothing.
pub proof fn law_comment_override_ignored(e: Seq<(Seq<char>, AppInfo)>, id: String, p: OverridePatch)
    requires
        has_prefix(id@, "_"@),
    ensures
        override_one(e, id, p) == e,
{
}

/// An override of a record present under its id leaves that record patched:
/// every field the patch sets takes the patch's value, the others stay.
pub proof fn law_override_patches_record(e: Seq<(Seq<char>, AppInfo)>, id: String, p: OverridePatch)
    requires
        unique_keys(e),
        !has_prefix(id@, "_"@),
        lookup(e, id@) is Some,
    ensures
        lookup(override_one(e, id, p), id@) == Some(patched(lookup(e, id@)->0, p)),
{
    let a = lookup(e, id@)->0;
    let e1 = put(e, id@, patched(a, p));
    lemma_put_unique(e, id@, patched(a, p));
    let k = "flatpak:"@ + id@;
    reveal_strlit("flatpak:");
    assert(k.len() > id@.len());
    match lookup(e1, k) {
        Some(b) => {
            crate::appstream::law_catalog_read_after_write(e1, k, patched(b, p), id@);
        },
        None => {},
    }
}

proof fn lemma_patched_same(a: AppInfo, b: AppInfo, p: OverridePatch)
    requires
        view_eq(a, b),
    ensures
        view_eq(patched(a, p), patched(b, p)),
{
}

proof fn lemma_lookup_same(x: Seq<(Seq<char>, AppInfo)>, y: Seq<(Seq<char>, AppInfo)>, k: Seq<char>)
    requires
        same_entries(x, y),
        unique_keys(x),
    ensures
        lookup(x, k) is Some <==> lookup(y, k) is Some,
        lookup(x, k) is Some ==> view_eq(lookup(x, k)->0, lookup(y, k)->0),
{
    lemma_same_keys(x, y, k);
    match key_index(x, k) {
        Some(i) => {
            assert(x[i].0 == y[i].0);
        },
        None => {},
    }
}

proof fn lemma_override_key_same(
    x: Seq<(Seq<char>, AppInfo)>,
    y: Seq<(Seq<char>, AppInfo)>,
    id: String,
    p: OverridePatch,
)
    requires
        same_entries(x, y),
        unique_keys(x),
    ensures
        same_entries(override_key(x, id, p), override_key(y, id, p)),
        unique_keys(override_key(x, id, p)),
{
    lemma_lookup_same(x, y, id@);
    lemma_same_keys(x, y, id@);
    match lookup(x, id@) {
        Some(a) => {
            let b = lookup(y, id@)->0;
            lemma_patched_same(a, b, p);
            lemma_put_same(x, y, id@, patched(a, p), patched(b, p));
        },
        None => {
            let f = fresh_info(id, p);
            if f.source@.len() > 0 || f.name@.len() > 0 {
                lemma_put_same(x, y, id@, f, f);
            }
        },
    }
}

proof fn lemma_override_flatpak_same(
    x: Seq<(Seq<char>, AppInfo)>,
    y: Seq<(Seq<char>, AppInfo)>,
    id: String,
    p: OverridePatch,
)
    requires
        same_entries(x, y),
        unique_keys(x),
    ensures
        same_entries(override_flatpak(x, id, p), override_flatpak(y, id, p)),
        unique_keys(override_flatpak(x, id, p)),
{
    let k = "flatpak:"@ + id@;
    lemma_lookup_same(x, y, k);
    lemma_same_keys(x, y, k);
    match lookup(x, k) {
        Some(a) => {
            let b = lookup(y, k)->0;
            lemma_patched_same(a, b, p);
            lemma_put_same(x, y, k, patched(a, p), patched(b, p));
        },
        None => {},
    }
}

fn pick_text(cur: &String, o: &Option<String>) -> (r: String)
    ensures
        r == or_old(*cur, *o),
{
    match o {
        Some(s) => s.clone(),
        None => cur.clone(),
    }
}

/// A copy of `a` with the patch applied.
fn patch_info(a: &AppInfo, p: &OverridePatch) -> (n: AppInfo)
    ensures
        view_eq(n, patched(*a, *p)),
{
    AppInfo {
        id: a.id.clone(),
        name: pick_text(&a.name, &p.name),
        summary: pick_text(&a.summary, &p.summary),
        description: a.description.clone(),
        icon: pick_text(&a.icon, &p.icon),
        icon_url: pick_text(&a.icon_url, &p.icon_url),
        icon_path: a.icon_path.clone(),
        categories: match &p.categories {
            Some(c) => clone_strings(c),
            None => clone_strings(&a.categories),
        },
        keywords: clone_strings(&a.keywords),
        screenshots: clone_strings(&a.screenshots),
        source: pick_text(&a.source, &p.source),
        package_name: pick_text(&a.package_name, &p.package_name),
        version: a.version.clone(),
        developer: a.developer.clone(),
        url_homepage: pick_text(&a.url_homepage, &p.url_homepage),
        url_bugtracker: pick_text(&a.url_bugtracker, &p.url_bugtracker),
        url_donation: pick_text(&a.url_donation, &p.url_donation),
        url_help: pick_text(&a.url_help, &p.url_help),
        url_faq: pick_text(&a.url_faq, &p.url_faq),
        url_vcs_browser: pick_text(&a.url_vcs_browser, &p.url_vcs_browser),
        url_contribute: pick_text(&a.url_contribute, &p.url_contribute),
        license: a.license.clone(),
        content_rating: a.content_rating.clone(),
        is_addon: a.is_addon,
        extends: a.extends.clone(),
        pkg_name_guessed: a.pkg_name_guessed,
        remotes: clone_strings(&a.remotes),
        component_type: a.component_type.clone(),
        updated: a.updated.clone(),
    }
}

fn text_or_empty(o: &Option<String>) -> (r: String)
    ensures
        r@ == or_old(empty_text(), *o)@,
{
    let e = String::new();
    assert(e@.len() == 0);
    match o {
        Some(s) => s.clone(),
        None => e,
    }
}

/// The record a patch makes for a new id (see `fresh_info`).
fn fresh_from(id: &String, p: &OverridePatch) -> (n: AppInfo)
    ensures
        view_eq(n, fresh_info(*id, *p)),
{
    let e = String::new();
    let l: Vec<String> = Vec::new();
    assert(e@.len() == 0);
    assert(l@.len() == 0);
    assert(empty_text()@ == Seq::<char>::empty());
    assert(empty_list()@ == Seq::<String>::empty());
    AppInfo {
        id: id.clone(),
        name: text_or_empty(&p.name),
        summary: text_or_empty(&p.summary),
        description: String::new(),
        icon: String::new(),
        icon_url: String::new(),
        icon_path: String::new(),
        categories: match &p.categories {
            Some(c) => clone_strings(c),
            None => Vec::new(),
        },
        keywords: Vec::new(),
        screenshots: Vec::new(),
        source: text_or_empty(&p.source),
        package_name: text_or_empty(&p.package_name),
        version: String::new(),
        developer: String::new(),
        url_homepage: text_or_empty(&p.url_homepage),
        url_bugtracker: text_or_empty(&p.url_bugtracker),
        url_donation: text_or_empty(&p.url_donation),
        url_help: text_or_empty(&p.url_help),
        url_faq: text_or_empty(&p.url_faq),
        url_vcs_browser: text_or_empty(&p.url_vcs_browser),
        url_contribute: text_or_empty(&p.url_contribute),
        license: String::new(),
        content_rating: String::new(),
        is_addon: false,
        extends: String::new(),
        pkg_name_guessed: false,
        remotes: Vec::new(),
        component_type: String::new(),
        updated: String::new(),
    }
}

/// Replace the record at position `i` by the patched one.
fn patch_at(cat: &mut Catalog, i: usize, p: &OverridePatch)
    requires
        old(cat).wf(),
        i < old(cat).entries@.len(),
    ensures
        final(cat).wf(),
        same_entries(
            final(cat).view_entries(),
            old(cat).view_entries().update(
                i as int,
                (old(cat).view_entries()[i as int].0, patched(old(cat).view_entries()[i as int].1, *p)),
            ),
        ),
{
    let ghost e = cat.view_entries();
    let n = patch_info(&cat.entries[i].1, p);
    let k = cat.entries[i].0.clone();
    cat.entries.set(i, (k, n));
    assert(cat.view_entries() =~= e.update(i as int, (e[i as int].0, n)));
    let ghost u = e.update(i as int, (e[i as int].0, patched(e[i as int].1, *p)));
    assert forall|j: int| 0 <= j < cat.view_entries().len() implies (#[trigger] cat.view_entries()[j]).0 == u[j].0
        && view_eq(cat.view_entries()[j].1, u[j].1) by {
        if j != i {
            assert(cat.view_entries()[j] == e[j]);
        }
    }
    assert forall|p1: int, q1: int| 0 <= p1 < q1 < cat.view_entries().len() implies (
    #[trigger] cat.view_entries()[p1]).0 != (#[trigger] cat.view_entries()[q1]).0 by {
        assert(cat.view_entries()[p1].0 == e[p1].0 && cat.view_entries()[q1].0 == e[q1].0);
    }
}

fn apply_key(cat: &mut Catalog, id: &String, p: &OverridePatch)
    requires
        old(cat).wf(),
    ensures
        final(cat).wf(),
        same_entries(final(cat).view_entries(), override_key(old(cat).view_entries(), *id, *p)),
{
    let ghost e = cat.view_entries();
    match cat.find(id.as_str()) {
        Some(i) => {
            proof {
                lemma_key_index(e, id@, i as int);
            }
            patch_at(cat, i, p);
        },
        None => {
            let f = fresh_from(id, p);
            if f.source.unicode_len() > 0 || f.name.unicode_len() > 0 {
                let ghost fr = fresh_info(*id, *p);
                cat.insert(id.clone(), f);
                proof {
                    lemma_put_same(e, e, id@, f, fr);
                    assert forall|j: int| 0 <= j < e.len() implies (#[trigger] e[j]).0 == e[j].0
                        && view_eq(e[j].1, e[j].1) by {}
                }
            } else {
                assert forall|j: int| 0 <= j < e.len() implies (#[trigger] e[j]).0 == e[j].0
                    && view_eq(e[j].1, e[j].1) by {}
            }
        },
    }
}

fn apply_flatpak(cat: &mut Catalog, id: &String, p: &OverridePatch)
    requires
        old(cat).wf(),
    ensures
        final(cat).wf(),
        same_entries(final(cat).view_entries(), override_flatpak(old(cat).view_entries(), *id, *p)),
{
    let ghost e = cat.view_entries();
    let mut kv = crate::text::chars_of("flatpak:");
    crate::text::push_str(&mut kv, id.as_str());
    let k = crate::text::string_of(&kv);
    assert(k@ == "flatpak:"@ + id@);
    match cat.find(k.as_str()) {
        Some(i) => {
            proof {
                lemma_key_index(e, k@, i as int);
            }
            patch_at(cat, i, p);
        },
        None => {
            assert forall|j: int| 0 <= j < e.len() implies (#[trigger] e[j]).0 == e[j].0
                && view_eq(e[j].1, e[j].1) by {}
        },
    }
}

/// Apply override patches in order (see `override_one`); the records that
/// result hold the same text as `overrides_spec` gives.
pub fn apply_overrides(cat: &mut Catalog, patches: &Vec<(String, OverridePatch)>)
    requires
        old(cat).wf(),
    ensures
        final(cat).wf(),
        same_entries(final(cat).view_entries(), overrides_spec(old(cat).view_entries(), patches@)),
{
    let ghost e0 = cat.view_entries();
    let ghost mut mid = e0;
    let mut i: usize = 0;
    assert(patches@.subrange(0, patches@.len() as int) =~= patches@);
    assert forall|j: int| 0 <= j < e0.len() implies (#[trigger] e0[j]).0 == e0[j].0 && view_eq(
        e0[j].1,
        e0[j].1,
    ) by {}
    while i < patches.len()
        invariant
            i <= patches@.len(),
            cat.wf(),
            unique_keys(mid),
            same_entries(cat.view_entries(), mid),
            overrides_spec(e0, patches@) == overrides_spec(
                mid,
                patches@.subrange(i as int, patches@.len() as int),
            ),
        decreases patches@.len() - i,
    {
        let ghost rest = patches@.subrange(i as int, patches@.len() as int);
        assert(rest[0] == patches@[i as int]);
        assert(rest.drop_first() =~= patches@.subrange(i + 1, patches@.len() as int));
        let id = &patches[i].0;
        let p = &patches[i].1;
        let ghost before = cat.view_entries();
        if crate::text::str_starts_with(id.as_str(), "_") {
            proof {
                assert(override_one(mid, *id, *p) == mid);
            }
        } else {
            apply_key(cat, id, p);
            let ghost after_key = cat.view_entries();
            proof {
                lemma_override_key_same(before, mid, *id, *p);
                lemma_override_key_same(mid, mid, *id, *p);
            }
            apply_flatpak(cat, id, p);
            proof {
                lemma_same_entries_trans(after_key, override_key(before, *id, *p), override_key(mid, *id, *p));
                lemma_override_flatpak_same(after_key, override_key(mid, *id, *p), *id, *p);
                lemma_same_entries_trans(
                    cat.view_entries(),
                    override_flatpak(after_key, *id, *p),
                    override_flatpak(override_key(mid, *id, *p), *id, *p),
                );
            }
        }
        proof {
            if !has_prefix(id@, "_"@) {
                lemma_override_key_same(mid, mid, *id, *p);
                lemma_override_flatpak_same(override_key(mid, *id, *p), override_key(mid, *id, *p), *id, *p);
            }
            mid = override_one(mid, *id, *p);
        }
        i = i + 1;
    }
    proof {
        assert(patches@.subrange(i as int, patches@.len() as int).len() == 0);
    }
}

// ── Package to Flatpak ──────────────────────────────────────────────────────

/// The first position from `j` on whose key is `k`.
pub open spec fn first_key_from(r: Seq<(Seq<char>, Seq<char>)>, k: Seq<char>, j: int) -> Option<int>
    decreases r.len() - j,
{
    if j < 0 || j >= r.len() {
        None
    } else if r[j].0 == k {
        Some(j)
    } else {
        first_key_from(r, k, j + 1)
    }
}

/// The Flatpak-to-package pairs turned around, as a map filled in their
/// order: one entry per package (in order of first appearance), holding
/// the Flatpak id of the last pair that names it.
pub open spec fn inverted_pairs(p: Seq<(Seq<char>, Seq<char>)>) -> Seq<(Seq<char>, Seq<char>)>
    decreases p.len(),
{
    if p.len() == 0 {
        Seq::empty()
    } else {
        let r = inverted_pairs(p.drop_last());
        let (fp, rpm) = p.last();
        match first_key_from(r, rpm, 0) {
            Some(i) => r.update(i, (rpm, fp)),
            None => r.push((rpm, fp)),
        }
    }
}

proof fn lemma_first_key_from(r: Seq<(Seq<char>, Seq<char>)>, k: Seq<char>, j: int)
    requires
        0 <= j,
    ensures
        match first_key_from(r, k, j) {
            Some(i) => j <= i < r.len() && r[i].0 == k,
            None => forall|q: int| j <= q < r.len() ==> (#[trigger] r[q]).0 != k,
        },
    decreases r.len() - j,
{
    if j < r.len() {
        lemma_first_key_from(r, k, j + 1);
    }
}

/// Each package appears once.
pub proof fn law_inverted_unique(p: Seq<(Seq<char>, Seq<char>)>)
    ensures
        forall|a: int, b: int| 0 <= a < b < inverted_pairs(p).len() ==> (#[trigger] inverted_pairs(p)[a]).0
            != (#[trigger] inverted_pairs(p)[b]).0,
    decreases p.len(),
{
    if p.len() > 0 {
        law_inverted_unique(p.drop_last());
        let r = inverted_pairs(p.drop_last());
        lemma_first_key_from(r, p.last().1, 0);
        let n = inverted_pairs(p);
        assert forall|a: int, b: int| 0 <= a < b < n.len() implies (#[trigger] n[a]).0 != (#[trigger] n[b]).0 by {
            if b < r.len() {
                assert(n[a].0 == r[a].0 && n[b].0 == r[b].0);
            } else {
                assert(n[a].0 == r[a].0);
            }
        }
    }
}

/// The package-to-Flatpak map of a Flatpak-to-package mapping (see
/// `inverted_pairs`).
pub fn rpm_to_flatpak(pairs: &Vec<(String, String)>) -> (r: Vec<(String, String)>)
    ensures
        rekey_views(r@) == inverted_pairs(rekey_views(pairs@)),
{
    let ghost pv = rekey_views(pairs@);
    let mut out: Vec<(String, String)> = Vec::new();
    let mut i: usize = 0;
    assert(pv.subrange(0, 0) =~= Seq::<(Seq<char>, Seq<char>)>::empty());
    while i < pairs.len()
        invariant
            i <= pairs@.len(),
            pv == rekey_views(pairs@),
            rekey_views(out@) == inverted_pairs(pv.subrange(0, i as int)),
        decreases pairs@.len() - i,
    {
        let ghost pre = pv.subrange(0, i + 1);
        assert(pre.drop_last() =~= pv.subrange(0, i as int));
        assert(pre.last() == (pairs@[i as int].0@, pairs@[i as int].1@));
        let ghost ov = rekey_views(out@);
        let fp = &pairs[i].0;
        let rpm = &pairs[i].1;
        let mut j: usize = 0;
        while j < out.len() && !crate::text::str_eq(out[j].0.as_str(), rpm.as_str())
            invariant
                j <= out@.len(),
                ov == rekey_views(out@),
                first_key_from(ov, rpm@, 0) == first_key_from(ov, rpm@, j as int),
            decreases out@.len() - j,
        {
            assert(ov[j as int].0 == out@[j as int].0@);
            j = j + 1;
        }
        proof {
            lemma_first_key_from(ov, rpm@, j as int);
        }
        if j < out.len() {
            assert(ov[j as int].0 == out@[j as int].0@);
            assert(first_key_from(ov, rpm@, j as int) == Some(j as int));
            let entry = (rpm.clone(), fp.clone());
            out.set(j, entry);
            assert(rekey_views(out@) =~= ov.update(j as int, (rpm@, fp@)));
        } else {
            out.push((rpm.clone(), fp.clone()));
            assert(rekey_views(out@) =~= ov.push((rpm@, fp@)));
        }
        i = i + 1;
    }
    assert(pv.subrange(0, pairs@.len() as int) =~= pv);
    out
}

// ── Native stubs for Flatpak-only apps ──────────────────────────────────────

/// The first position from `j` on of a Flatpak record whose id, in lower
/// case, is `lc`.
pub open spec fn flatpak_match_from(e: Seq<(Seq<char>, AppInfo)>, lc: Seq<char>, j: int) -> Option<int>
    decreases e.len() - j,
{
    if j < 0 || j >= e.len() {
        None
    } else if e[j].1.source@ == "flatpak"@ && str_lowercase(e[j].1.id@) == lc {
        Some(j)
    } else {
        flatpak_match_from(e, lc, j + 1)
    }
}

/// Some record not from Flatpak has this package name.
pub open spec fn has_native_pkg(e: Seq<(Seq<char>, AppInfo)>, rpm: Seq<char>) -> bool {
    exists|i: int|
        0 <= i < e.len() && (#[trigger] e[i]).1.source@ != "flatpak"@ && e[i].1.package_name@ == rpm
}

/// The first position from `j` on of a record not from Flatpak with this
/// package name, guessed.
pub open spec fn first_guessed_from(e: Seq<(Seq<char>, AppInfo)>, rpm: Seq<char>, j: int) -> Option<int>
    decreases e.len() - j,
{
    if j < 0 || j >= e.len() {
        None
    } else if e[j].1.source@ != "flatpak"@ && e[j].1.package_name@ == rpm && e[j].1.pkg_name_guessed {
        Some(j)
    } else {
        first_guessed_from(e, rpm, j + 1)
    }
}

/// A record whose package name is confirmed (no longer a guess).
pub open spec fn confirmed(a: AppInfo) -> AppInfo {
    AppInfo { pkg_name_guessed: false, ..a }
}

/// The text `native`.
pub open spec fn native_text() -> String {
    choose|s: String| #![trigger s@] s@ == "native"@
}

/// The native record made from a Flatpak record's metadata for a package.
pub open spec fn stub_of(f: AppInfo, rpm: String) -> AppInfo {
    AppInfo { source: native_text(), package_name: rpm, id: rpm, pkg_name_guessed: false, ..f }
}

/// One mapping from a Flatpak id to a package, applied to (records, stubs
/// to add, keys to rename): the Flatpak record found by its id in lower
/// case is to be renamed `flatpak:<id>` when that key is free; when a
/// native record already has the package name, the first guessed one is
/// confirmed, else a native stub `native:<package>` is to be added.
pub open spec fn stub_step(
    st: (Seq<(Seq<char>, AppInfo)>, Seq<(Seq<char>, AppInfo)>, Seq<(Seq<char>, Seq<char>)>),
    fp: String,
    rpm: String,
) -> (Seq<(Seq<char>, AppInfo)>, Seq<(Seq<char>, AppInfo)>, Seq<(Seq<char>, Seq<char>)>) {
    match flatpak_match_from(st.0, str_lowercase(fp@), 0) {
        None => st,
        Some(i) => {
            let fk = st.0[i].0;
            let fe = st.0[i].1;
            let pk = "flatpak:"@ + fe.id@;
            let r2 = if fk != pk && lookup(st.0, pk) is None {
                st.2.push((fk, pk))
            } else {
                st.2
            };
            if has_native_pkg(st.0, rpm@) {
                let e2 = match first_guessed_from(st.0, rpm@, 0) {
                    Some(g) => st.0.update(g, (st.0[g].0, confirmed(st.0[g].1))),
                    None => st.0,
                };
                (e2, st.1, r2)
            } else {
                (st.0, st.1.push(("native:"@ + rpm@, stub_of(fe, rpm))), r2)
            }
        },
    }
}

pub open spec fn stub_fold(
    st: (Seq<(Seq<char>, AppInfo)>, Seq<(Seq<char>, AppInfo)>, Seq<(Seq<char>, Seq<char>)>),
    ms: Seq<(String, String)>,
) -> (Seq<(Seq<char>, AppInfo)>, Seq<(Seq<char>, AppInfo)>, Seq<(Seq<char>, Seq<char>)>)
    decreases ms.len(),
{
    if ms.len() == 0 {
        st
    } else {
        stub_fold(stub_step(st, ms[0].0, ms[0].1), ms.drop_first())
    }
}

/// The stubs written in order.
pub open spec fn apply_stubs(e: Seq<(Seq<char>, AppInfo)>, s: Seq<(Seq<char>, AppInfo)>) -> Seq<(Seq<char>, AppInfo)>
    decreases s.len(),
{
    if s.len() == 0 {
        e
    } else {
        apply_stubs(put(e, s[0].0, s[0].1), s.drop_first())
    }
}

/// Each record present under an old key moved to its new key, in order.
pub open spec fn apply_rekeys(e: Seq<(Seq<char>, AppInfo)>, r: Seq<(Seq<char>, Seq<char>)>) -> Seq<(Seq<char>, AppInfo)>
    decreases r.len(),
{
    if r.len() == 0 {
        e
    } else {
        let e2 = match lookup(e, r[0].0) {
            Some(a) => put(take(e, r[0].0), r[0].1, a),
            None => e,
        };
        apply_rekeys(e2, r.drop_first())
    }
}

/// The catalog with native stubs injected for a Flatpak-to-package mapping.
pub open spec fn inject_spec(e: Seq<(Seq<char>, AppInfo)>, ms: Seq<(String, String)>) -> Seq<(Seq<char>, AppInfo)> {
    let st = stub_fold((e, seq![], seq![]), ms);
    apply_rekeys(apply_stubs(st.0, st.1), st.2)
}

pub open spec fn rekey_views(r: Seq<(String, String)>) -> Seq<(Seq<char>, Seq<char>)> {
    r.map_values(|x: (String, String)| (x.0@, x.1@))
}

/// Two states alike: records and stubs hold the same text, the same keys
/// are to be renamed.
pub open spec fn similar(
    a: (Seq<(Seq<char>, AppInfo)>, Seq<(Seq<char>, AppInfo)>, Seq<(Seq<char>, Seq<char>)>),
    b: (Seq<(Seq<char>, AppInfo)>, Seq<(Seq<char>, AppInfo)>, Seq<(Seq<char>, Seq<char>)>),
) -> bool {
    same_entries(a.0, b.0) && same_entries(a.1, b.1) && a.2 == b.2 && unique_keys(a.0)
}

proof fn lemma_flatpak_match_same(x: Seq<(Seq<char>, AppInfo)>, y: Seq<(Seq<char>, AppInfo)>, lc: Seq<char>, j: int)
    requires
        same_entries(x, y),
    ensures
        flatpak_match_from(x, lc, j) == flatpak_match_from(y, lc, j),
    decreases x.len() - j,
{
    if 0 <= j < x.len() {
        assert(x[j].0 == y[j].0 && view_eq(x[j].1, y[j].1));
        lemma_flatpak_match_same(x, y, lc, j + 1);
    }
}

proof fn lemma_first_guessed_same(x: Seq<(Seq<char>, AppInfo)>, y: Seq<(Seq<char>, AppInfo)>, rpm: Seq<char>, j: int)
    requires
        same_entries(x, y),
    ensures
        first_guessed_from(x, rpm, j) == first_guessed_from(y, rpm, j),
    decreases x.len() - j,
{
    if 0 <= j < x.len() {
        assert(x[j].0 == y[j].0 && view_eq(x[j].1, y[j].1));
        lemma_first_guessed_same(x, y, rpm, j + 1);
    }
}

proof fn lemma_has_native_same(x: Seq<(Seq<char>, AppInfo)>, y: Seq<(Seq<char>, AppInfo)>, rpm: Seq<char>)
    requires
        same_entries(x, y),
    ensures
        has_native_pkg(x, rpm) == has_native_pkg(y, rpm),
{
    if has_native_pkg(x, rpm) {
        let i = choose|i: int|
            0 <= i < x.len() && (#[trigger] x[i]).1.source@ != "flatpak"@ && x[i].1.package_name@ == rpm;
        assert(x[i].0 == y[i].0 && view_eq(x[i].1, y[i].1));
    }
    if has_native_pkg(y, rpm) {
        let i = choose|i: int|
            0 <= i < y.len() && (#[trigger] y[i]).1.source@ != "flatpak"@ && y[i].1.package_name@ == rpm;
        assert(x[i].0 == y[i].0 && view_eq(x[i].1, y[i].1));
    }
}

proof fn lemma_update_same(x: Seq<(Seq<char>, AppInfo)>, y: Seq<(Seq<char>, AppInfo)>, g: int, a: AppInfo, b: AppInfo)
    requires
        same_entries(x, y),
        unique_keys(x),
        0 <= g < x.len(),
        view_eq(a, b),
    ensures
        same_entries(x.update(g, (x[g].0, a)), y.update(g, (y[g].0, b))),
        unique_keys(x.update(g, (x[g].0, a))),
{
    let u = x.update(g, (x[g].0, a));
    let v = y.update(g, (y[g].0, b));
    assert forall|j: int| 0 <= j < u.len() implies (#[trigger] u[j]).0 == v[j].0 && view_eq(u[j].1, v[j].1) by {
        if j != g {
            assert(u[j] == x[j] && v[j] == y[j]);
        } else {
            assert(x[g].0 == y[g].0);
        }
    }
    assert forall|p: int, q: int| 0 <= p < q < u.len() implies (#[trigger] u[p]).0 != (#[trigger] u[q]).0 by {
        assert(u[p].0 == x[p].0 && u[q].0 == x[q].0);
    }
}

proof fn lemma_stub_step_same(
    a: (Seq<(Seq<char>, AppInfo)>, Seq<(Seq<char>, AppInfo)>, Seq<(Seq<char>, Seq<char>)>),
    b: (Seq<(Seq<char>, AppInfo)>, Seq<(Seq<char>, AppInfo)>, Seq<(Seq<char>, Seq<char>)>),
    fp: String,
    rpm: String,
)
    requires
        similar(a, b),
    ensures
        similar(stub_step(a, fp, rpm), stub_step(b, fp, rpm)),
{
    let lc = str_lowercase(fp@);
    lemma_flatpak_match_same(a.0, b.0, lc, 0);
    lemma_same_keys(a.0, b.0, "flatpak:"@);
    match flatpak_match_from(a.0, lc, 0) {
        None => {},
        Some(i) => {
            lemma_flatpak_lemma_range(a.0, lc, 0);
            assert(a.0[i].0 == b.0[i].0 && view_eq(a.0[i].1, b.0[i].1));
            let pk = "flatpak:"@ + a.0[i].1.id@;
            lemma_lookup_same(a.0, b.0, pk);
            lemma_has_native_same(a.0, b.0, rpm@);
            if has_native_pkg(a.0, rpm@) {
                lemma_first_guessed_same(a.0, b.0, rpm@, 0);
                match first_guessed_from(a.0, rpm@, 0) {
                    Some(g) => {
                        lemma_guessed_range(a.0, rpm@, 0);
                        assert(view_eq(a.0[g].1, b.0[g].1));
                        lemma_update_same(a.0, b.0, g, confirmed(a.0[g].1), confirmed(b.0[g].1));
                    },
                    None => {},
                }
            } else {
                let s1 = a.1.push(("native:"@ + rpm@, stub_of(a.0[i].1, rpm)));
                let s2 = b.1.push(("native:"@ + rpm@, stub_of(b.0[i].1, rpm)));
                assert forall|j: int| 0 <= j < s1.len() implies (#[trigger] s1[j]).0 == s2[j].0 && view_eq(s1[j].1, s2[j].1) by {
                    if j < a.1.len() {
                        assert(s1[j] == a.1[j] && s2[j] == b.1[j]);
                    }
                }
            }
        },
    }
}

proof fn lemma_flatpak_lemma_range(e: Seq<(Seq<char>, AppInfo)>, lc: Seq<char>, j: int)
    requires
        0 <= j,
    ensures
        match flatpak_match_from(e, lc, j) {
            Some(i) => j <= i < e.len() && e[i].1.source@ == "flatpak"@ && str_lowercase(e[i].1.id@) == lc,
            None => true,
        },
    decreases e.len() - j,
{
    if j < e.len() {
        lemma_flatpak_lemma_range(e, lc, j + 1);
    }
}

proof fn lemma_guessed_range(e: Seq<(Seq<char>, AppInfo)>, rpm: Seq<char>, j: int)
    requires
        0 <= j,
    ensures
        match first_guessed_from(e, rpm, j) {
            Some(i) => j <= i < e.len() && e[i].1.source@ != "flatpak"@ && e[i].1.package_name@ == rpm
                && e[i].1.pkg_name_guessed,
            None => true,
        },
    decreases e.len() - j,
{
    if j < e.len() {
        lemma_guessed_range(e, rpm, j + 1);
    }
}

fn find_flatpak(cat: &Catalog, lc: &str) -> (r: Option<usize>)
    ensures
        match r {
            Some(i) => flatpak_match_from(cat.view_entries(), lc@, 0) == Some(i as int),
            None => flatpak_match_from(cat.view_entries(), lc@, 0) is None,
        },
{
    let ghost e = cat.view_entries();
    let mut j: usize = 0;
    while j < cat.entries.len()
        invariant
            j <= cat.entries@.len(),
            e == cat.view_entries(),
            flatpak_match_from(e, lc@, 0) == flatpak_match_from(e, lc@, j as int),
        decreases cat.entries@.len() - j,
    {
        let a = &cat.entries[j].1;
        assert(e[j as int].1 == *a);
        if crate::text::str_eq(a.source.as_str(), "flatpak") {
            let l = crate::text::lowercase(a.id.as_str());
            if crate::text::str_eq(l.as_str(), lc) {
                return Some(j);
            }
        }
        j = j + 1;
    }
    None
}

fn has_native(cat: &Catalog, rpm: &str) -> (r: bool)
    ensures
        r == has_native_pkg(cat.view_entries(), rpm@),
{
    let ghost e = cat.view_entries();
    let mut j: usize = 0;
    while j < cat.entries.len()
        invariant
            j <= cat.entries@.len(),
            e == cat.view_entries(),
            forall|q: int| 0 <= q < j ==> !((#[trigger] e[q]).1.source@ != "flatpak"@ && e[q].1.package_name@ == rpm@),
        decreases cat.entries@.len() - j,
    {
        let a = &cat.entries[j].1;
        assert(e[j as int].1 == *a);
        if !crate::text::str_eq(a.source.as_str(), "flatpak") && crate::text::str_eq(a.package_name.as_str(), rpm) {
            return true;
        }
        j = j + 1;
    }
    false
}

fn find_guessed(cat: &Catalog, rpm: &str) -> (r: Option<usize>)
    ensures
        match r {
            Some(i) => first_guessed_from(cat.view_entries(), rpm@, 0) == Some(i as int),
            None => first_guessed_from(cat.view_entries(), rpm@, 0) is None,
        },
{
    let ghost e = cat.view_entries();
    let mut j: usize = 0;
    while j < cat.entries.len()
        invariant
            j <= cat.entries@.len(),
            e == cat.view_entries(),
            first_guessed_from(e, rpm@, 0) == first_guessed_from(e, rpm@, j as int),
        decreases cat.entries@.len() - j,
    {
        let a = &cat.entries[j].1;
        assert(e[j as int].1 == *a);
        if !crate::text::str_eq(a.source.as_str(), "flatpak") && crate::text::str_eq(a.package_name.as_str(), rpm)
            && a.pkg_name_guessed {
            return Some(j);
        }
        j = j + 1;
    }
    None
}

proof fn lemma_same_record_view_eq(a: AppInfo, b: AppInfo)
    requires
        same_record(a, b),
    ensures
        view_eq(a, b),
{
}

/// One mapping applied to the records, the stubs and the renames (see
/// `stub_step`).
fn stub_step_exec(
    cat: &mut Catalog,
    stubs: &mut Vec<(String, AppInfo)>,
    rekeys: &mut Vec<(String, String)>,
    fp: &String,
    rpm: &String,
)
    requires
        old(cat).wf(),
    ensures
        final(cat).wf(),
        similar(
            (final(cat).view_entries(), entry_views(final(stubs)@), rekey_views(final(rekeys)@)),
            stub_step((old(cat).view_entries(), entry_views(old(stubs)@), rekey_views(old(rekeys)@)), *fp, *rpm),
        ),
{
    let ghost e = cat.view_entries();
    let ghost s0 = entry_views(stubs@);
    let ghost r0 = rekey_views(rekeys@);
    let lc = crate::text::lowercase(fp.as_str());
    assert forall|j: int| 0 <= j < e.len() implies (#[trigger] e[j]).0 == e[j].0 && view_eq(e[j].1, e[j].1) by {}
    assert forall|j: int| 0 <= j < s0.len() implies (#[trigger] s0[j]).0 == s0[j].0 && view_eq(s0[j].1, s0[j].1) by {}
    match find_flatpak(cat, lc.as_str()) {
        None => {},
        Some(i) => {
            proof {
                lemma_flatpak_lemma_range(e, lc@, 0);
            }
            let fk = cat.entries[i].0.clone();
            let fe = cat.entries[i].1.clone_info();
            assert(e[i as int].1 == cat.entries@[i as int].1);
            proof {
                lemma_same_record_view_eq(fe, e[i as int].1);
            }
            let mut pkv = crate::text::chars_of("flatpak:");
            crate::text::push_str(&mut pkv, fe.id.as_str());
            let pk = crate::text::string_of(&pkv);
            assert(pk@ == "flatpak:"@ + e[i as int].1.id@);
            if !crate::text::str_eq(fk.as_str(), pk.as_str()) && cat.find(pk.as_str()).is_none() {
                let ghost o = rekey_views(rekeys@);
                rekeys.push((fk.clone(), pk.clone()));
                assert(rekey_views(rekeys@) =~= o.push((fk@, pk@)));
            }
            if has_native(cat, rpm.as_str()) {
                match find_guessed(cat, rpm.as_str()) {
                    Some(g) => {
                        proof {
                            lemma_guessed_range(e, rpm@, 0);
                        }
                        assert(e[g as int].1 == cat.entries@[g as int].1);
                        let mut a = cat.entries[g].1.clone_info();
                        a.pkg_name_guessed = false;
                        let k = cat.entries[g].0.clone();
                        cat.entries.set(g, (k, a));
                        assert(cat.view_entries() =~= e.update(g as int, (e[g as int].0, a)));
                        proof {
                            lemma_update_same(e, e, g as int, a, confirmed(e[g as int].1));
                        }
                    },
                    None => {},
                }
            } else {
                let mut st = fe;
                st.source = crate::text::string_of_str("native");
                st.package_name = rpm.clone();
                st.id = rpm.clone();
                st.pkg_name_guessed = false;
                assert(native_text()@ == "native"@);
                let mut kv = crate::text::chars_of("native:");
                crate::text::push_str(&mut kv, rpm.as_str());
                let key = crate::text::string_of(&kv);
                let ghost o = entry_views(stubs@);
                stubs.push((key, st));
                let ghost s1 = o.push(("native:"@ + rpm@, stub_of(e[i as int].1, *rpm)));
                assert(entry_views(stubs@) =~= o.push((key@, st)));
                assert forall|j: int| 0 <= j < s1.len() implies (#[trigger] entry_views(stubs@)[j]).0 == s1[j].0
                    && view_eq(entry_views(stubs@)[j].1, s1[j].1) by {
                    if j < o.len() {
                        assert(entry_views(stubs@)[j] == o[j]);
                    }
                }
            }
        },
    }
}

proof fn lemma_apply_stubs_same(
    x: Seq<(Seq<char>, AppInfo)>,
    y: Seq<(Seq<char>, AppInfo)>,
    s: Seq<(Seq<char>, AppInfo)>,
    t: Seq<(Seq<char>, AppInfo)>,
)
    requires
        same_entries(x, y),
        same_entries(s, t),
        unique_keys(x),
    ensures
        same_entries(apply_stubs(x, s), apply_stubs(y, t)),
        unique_keys(apply_stubs(x, s)),
    decreases s.len(),
{
    if s.len() > 0 {
        assert(s[0].0 == t[0].0 && view_eq(s[0].1, t[0].1));
        lemma_put_same(x, y, s[0].0, s[0].1, t[0].1);
        assert forall|j: int| 0 <= j < s.drop_first().len() implies (#[trigger] s.drop_first()[j]).0
            == t.drop_first()[j].0 && view_eq(s.drop_first()[j].1, t.drop_first()[j].1) by {
            assert(s.drop_first()[j] == s[j + 1] && t.drop_first()[j] == t[j + 1]);
        }
        lemma_apply_stubs_same(put(x, s[0].0, s[0].1), put(y, t[0].0, t[0].1), s.drop_first(), t.drop_first());
    }
}

proof fn lemma_take_same(x: Seq<(Seq<char>, AppInfo)>, y: Seq<(Seq<char>, AppInfo)>, k: Seq<char>)
    requires
        same_entries(x, y),
        unique_keys(x),
    ensures
        same_entries(take(x, k), take(y, k)),
        unique_keys(take(x, k)),
{
    lemma_same_keys(x, y, k);
    match key_index(x, k) {
        Some(i) => {
            let u = x.remove(i);
            let v = y.remove(i);
            assert forall|j: int| 0 <= j < u.len() implies (#[trigger] u[j]).0 == v[j].0 && view_eq(u[j].1, v[j].1) by {
                if j < i {
                    assert(u[j] == x[j] && v[j] == y[j]);
                } else {
                    assert(u[j] == x[j + 1] && v[j] == y[j + 1]);
                }
            }
            assert forall|p: int, q: int| 0 <= p < q < u.len() implies (#[trigger] u[p]).0 != (#[trigger] u[q]).0 by {
                if p < i {
                    assert(u[p] == x[p]);
                } else {
                    assert(u[p] == x[p + 1]);
                }
                if q < i {
                    assert(u[q] == x[q]);
                } else {
                    assert(u[q] == x[q + 1]);
                }
            }
        },
        None => {},
    }
}

proof fn lemma_apply_rekeys_same(
    x: Seq<(Seq<char>, AppInfo)>,
    y: Seq<(Seq<char>, AppInfo)>,
    r: Seq<(Seq<char>, Seq<char>)>,
)
    requires
        same_entries(x, y),
        unique_keys(x),
    ensures
        same_entries(apply_rekeys(x, r), apply_rekeys(y, r)),
        unique_keys(apply_rekeys(x, r)),
    decreases r.len(),
{
    if r.len() > 0 {
        lemma_lookup_same(x, y, r[0].0);
        match lookup(x, r[0].0) {
            Some(a) => {
                let b = lookup(y, r[0].0)->0;
                lemma_take_same(x, y, r[0].0);
                lemma_put_same(take(x, r[0].0), take(y, r[0].0), r[0].1, a, b);
                lemma_apply_rekeys_same(
                    put(take(x, r[0].0), r[0].1, a),
                    put(take(y, r[0].0), r[0].1, b),
                    r.drop_first(),
                );
            },
            None => {
                lemma_apply_rekeys_same(x, y, r.drop_first());
            },
        }
    }
}

/// Inject native stubs for a Flatpak-to-package mapping (see `stub_step`):
/// the stubs are written in order, then the renames are made. The records
/// that result hold the same text as `inject_spec` gives.
pub fn inject_native_stubs(cat: &mut Catalog, fp_to_rpm: &Vec<(String, String)>)
    requires
        old(cat).wf(),
    ensures
        final(cat).wf(),
        same_entries(final(cat).view_entries(), inject_spec(old(cat).view_entries(), fp_to_rpm@)),
{
    let ghost e0 = cat.view_entries();
    let ghost init: (Seq<(Seq<char>, AppInfo)>, Seq<(Seq<char>, AppInfo)>, Seq<(Seq<char>, Seq<char>)>) = (
        e0,
        seq![],
        seq![],
    );
    let ghost mut mid = init;
    let mut stubs: Vec<(String, AppInfo)> = Vec::new();
    let mut rekeys: Vec<(String, String)> = Vec::new();
    let mut i: usize = 0;
    assert(fp_to_rpm@.subrange(0, fp_to_rpm@.len() as int) =~= fp_to_rpm@);
    assert(entry_views(stubs@) =~= Seq::<(Seq<char>, AppInfo)>::empty());
    assert(rekey_views(rekeys@) =~= Seq::<(Seq<char>, Seq<char>)>::empty());
    assert forall|j: int| 0 <= j < e0.len() implies (#[trigger] e0[j]).0 == e0[j].0 && view_eq(e0[j].1, e0[j].1) by {}
    while i < fp_to_rpm.len()
        invariant
            i <= fp_to_rpm@.len(),
            cat.wf(),
            unique_keys(mid.0),
            similar((cat.view_entries(), entry_views(stubs@), rekey_views(rekeys@)), mid),
            stub_fold(init, fp_to_rpm@) == stub_fold(mid, fp_to_rpm@.subrange(i as int, fp_to_rpm@.len() as int)),
        decreases fp_to_rpm@.len() - i,
    {
        let ghost rest = fp_to_rpm@.subrange(i as int, fp_to_rpm@.len() as int);
        assert(rest[0] == fp_to_rpm@[i as int]);
        assert(rest.drop_first() =~= fp_to_rpm@.subrange(i + 1, fp_to_rpm@.len() as int));
        let ghost before = (cat.view_entries(), entry_views(stubs@), rekey_views(rekeys@));
        stub_step_exec(cat, &mut stubs, &mut rekeys, &fp_to_rpm[i].0, &fp_to_rpm[i].1);
        proof {
            lemma_stub_step_same(before, mid, fp_to_rpm@[i as int].0, fp_to_rpm@[i as int].1);
            let now = (cat.view_entries(), entry_views(stubs@), rekey_views(rekeys@));
            let sb = stub_step(before, fp_to_rpm@[i as int].0, fp_to_rpm@[i as int].1);
            let sm = stub_step(mid, fp_to_rpm@[i as int].0, fp_to_rpm@[i as int].1);
            lemma_same_entries_trans(now.0, sb.0, sm.0);
            lemma_same_entries_trans(now.1, sb.1, sm.1);
            lemma_stub_step_same(mid, mid, fp_to_rpm@[i as int].0, fp_to_rpm@[i as int].1);
            mid = sm;
        }
        i = i + 1;
    }
    assert(fp_to_rpm@.subrange(i as int, fp_to_rpm@.len() as int).len() == 0);
    // Write the stubs.
    let ghost es = mid.0;
    let ghost ss = mid.1;
    let ghost mut m2 = es;
    let mut k: usize = 0;
    assert(ss.subrange(0, ss.len() as int) =~= ss);
    while k < stubs.len()
        invariant
            k <= stubs@.len(),
            cat.wf(),
            unique_keys(m2),
            same_entries(cat.view_entries(), m2),
            same_entries(entry_views(stubs@), ss),
            apply_stubs(es, ss) == apply_stubs(m2, ss.subrange(k as int, ss.len() as int)),
        decreases stubs@.len() - k,
    {
        let ghost rest = ss.subrange(k as int, ss.len() as int);
        assert(rest.drop_first() =~= ss.subrange(k + 1, ss.len() as int));
        assert(entry_views(stubs@)[k as int].0 == ss[k as int].0 && view_eq(entry_views(stubs@)[k as int].1, ss[k as int].1));
        let ghost before = cat.view_entries();
        let key = stubs[k].0.clone();
        let a = stubs[k].1.clone_info();
        proof {
            lemma_same_record_view_eq(a, stubs@[k as int].1);
        }
        cat.insert(key, a);
        proof {
            lemma_put_same(before, m2, ss[k as int].0, a, ss[k as int].1);
            lemma_put_same(m2, m2, ss[k as int].0, ss[k as int].1, ss[k as int].1);
            m2 = put(m2, ss[k as int].0, ss[k as int].1);
        }
        k = k + 1;
    }
    assert(ss.subrange(k as int, ss.len() as int).len() == 0);
    // Make the renames.
    let ghost rs = mid.2;
    let ghost m3_start = m2;
    let ghost mut m3 = m2;
    let mut q: usize = 0;
    assert(rs.subrange(0, rs.len() as int) =~= rs);
    while q < rekeys.len()
        invariant
            q <= rekeys@.len(),
            cat.wf(),
            unique_keys(m3),
            same_entries(cat.view_entries(), m3),
            rekey_views(rekeys@) == rs,
            apply_rekeys(m3_start, rs) == apply_rekeys(m3, rs.subrange(q as int, rs.len() as int)),
        decreases rekeys@.len() - q,
    {
        let ghost rest = rs.subrange(q as int, rs.len() as int);
        assert(rest.drop_first() =~= rs.subrange(q + 1, rs.len() as int));
        assert(rest[0] == (rekeys@[q as int].0@, rekeys@[q as int].1@));
        let ghost before = cat.view_entries();
        let ghost ok = rekeys@[q as int].0@;
        let ghost nk = rekeys@[q as int].1@;
        proof {
            lemma_lookup_same(before, m3, ok);
            lemma_take_same(before, m3, ok);
        }
        match cat.remove(rekeys[q].0.as_str()) {
            Some(fp) => {
                let ghost taken = cat.view_entries();
                cat.insert(rekeys[q].1.clone(), fp);
                proof {
                    let b = lookup(m3, ok)->0;
                    lemma_put_same(taken, take(m3, ok), nk, fp, b);
                    m3 = put(take(m3, ok), nk, b);
                }
            },
            None => {},
        }
        q = q + 1;
    }
    assert(rs.subrange(q as int, rs.len() as int).len() == 0);
    proof {
        // The result is alike to the one computed from the spec's own state.
        lemma_apply_stubs_same(es, es, ss, ss);
    }
}

// ── The stub of one mapping ─────────────────────────────────────────────────

/// `y` is `x` with at most the package-name confirmations of the stub
/// steps: the same keys, ids, sources and package names, and Flatpak
/// records unchanged.
pub open spec fn confirmed_only(x: Seq<(Seq<char>, AppInfo)>, y: Seq<(Seq<char>, AppInfo)>) -> bool {
    &&& x.len() == y.len()
    &&& forall|j: int| 0 <= j < x.len() ==> {
        &&& (#[trigger] y[j]).0 == x[j].0
        &&& y[j].1.id == x[j].1.id && y[j].1.source == x[j].1.source && y[j].1.package_name
            == x[j].1.package_name
        &&& x[j].1.source@ == "flatpak"@ ==> y[j].1 == x[j].1
    }
}

/// No rename takes a record from, or puts one at, key `k`.
pub open spec fn rekeys_avoid(r: Seq<(Seq<char>, Seq<char>)>, k: Seq<char>) -> bool {
    forall|q: int| 0 <= q < r.len() ==> (#[trigger] r[q]).0 != k && r[q].1 != k
}

pub open spec fn native_key(rpm: Seq<char>) -> Seq<char> {
    "native:"@ + rpm
}

proof fn lemma_match_confirmed(x: Seq<(Seq<char>, AppInfo)>, y: Seq<(Seq<char>, AppInfo)>, lc: Seq<char>, j: int)
    requires
        confirmed_only(x, y),
    ensures
        flatpak_match_from(x, lc, j) == flatpak_match_from(y, lc, j),
    decreases x.len() - j,
{
    if 0 <= j < x.len() {
        assert(y[j].0 == x[j].0);
        lemma_match_confirmed(x, y, lc, j + 1);
    }
}

proof fn lemma_native_confirmed(x: Seq<(Seq<char>, AppInfo)>, y: Seq<(Seq<char>, AppInfo)>, rpm: Seq<char>)
    requires
        confirmed_only(x, y),
    ensures
        has_native_pkg(x, rpm) == has_native_pkg(y, rpm),
{
    if has_native_pkg(x, rpm) {
        let i = choose|i: int| 0 <= i < x.len() && (#[trigger] x[i]).1.source@ != "flatpak"@ && x[i].1.package_name@ == rpm;
        assert(y[i].0 == x[i].0);
    }
    if has_native_pkg(y, rpm) {
        let i = choose|i: int| 0 <= i < y.len() && (#[trigger] y[i]).1.source@ != "flatpak"@ && y[i].1.package_name@ == rpm;
        assert(y[i].0 == x[i].0);
    }
}

proof fn lemma_guessed_in_range(e: Seq<(Seq<char>, AppInfo)>, rpm: Seq<char>, j: int)
    requires
        0 <= j,
    ensures
        first_guessed_from(e, rpm, j) matches Some(g) ==> j <= g < e.len() && e[g].1.source@
            != "flatpak"@,
    decreases e.len() - j,
{
    if j < e.len() {
        lemma_guessed_in_range(e, rpm, j + 1);
    }
}

proof fn lemma_match_in_range(e: Seq<(Seq<char>, AppInfo)>, lc: Seq<char>, j: int)
    requires
        0 <= j,
    ensures
        flatpak_match_from(e, lc, j) matches Some(x) ==> j <= x < e.len() && e[x].1.source@
            == "flatpak"@,
    decreases e.len() - j,
{
    if j < e.len() {
        lemma_match_in_range(e, lc, j + 1);
    }
}

/// One stub step: records keep their keys and kinds, stubs and renames are
/// only added to; the renames added avoid `k` (a `native:` key no record has).
proof fn lemma_step_shape(
    e0: Seq<(Seq<char>, AppInfo)>,
    st: (Seq<(Seq<char>, AppInfo)>, Seq<(Seq<char>, AppInfo)>, Seq<(Seq<char>, Seq<char>)>),
    fp: String,
    rpm: String,
    k: Seq<char>,
    krpm: Seq<char>,
)
    requires
        confirmed_only(e0, st.0),
        lookup(e0, k) is None,
        k == native_key(krpm),
        rekeys_avoid(st.2, k),
    ensures
        ({
            let n = stub_step(st, fp, rpm);
            &&& confirmed_only(e0, n.0)
            &&& rekeys_avoid(n.2, k)
            &&& n.1.len() >= st.1.len() && n.1.subrange(0, st.1.len() as int) == st.1
            &&& forall|q: int| st.1.len() <= q < n.1.len() ==> (#[trigger] n.1[q]).0 == native_key(rpm@)
        }),
{
    reveal_strlit("native:");
    reveal_strlit("flatpak:");
    let n = stub_step(st, fp, rpm);
    lemma_match_in_range(st.0, str_lowercase(fp@), 0);
    match flatpak_match_from(st.0, str_lowercase(fp@), 0) {
        None => {
            assert(st.1.subrange(0, st.1.len() as int) =~= st.1);
        },
        Some(x) => {
            let fk = st.0[x].0;
            let pk = "flatpak:"@ + st.0[x].1.id@;
            assert(fk == e0[x].0);
            if fk == k {
                assert(lookup(e0, k) is Some);
            }
            assert((pk)[0] != (k)[0]);
            assert forall|q: int| 0 <= q < n.2.len() implies (#[trigger] n.2[q]).0 != k && n.2[q].1 != k by {
                if q < st.2.len() {
                    assert(n.2[q] == st.2[q]);
                }
            }
            if has_native_pkg(st.0, rpm@) {
                lemma_guessed_in_range(st.0, rpm@, 0);
                match first_guessed_from(st.0, rpm@, 0) {
                    Some(g) => {
                        let e2 = st.0.update(g, (st.0[g].0, confirmed(st.0[g].1)));
                        assert forall|j: int| 0 <= j < e0.len() implies {
                            &&& (#[trigger] e2[j]).0 == e0[j].0
                            &&& e2[j].1.id == e0[j].1.id && e2[j].1.source == e0[j].1.source
                                && e2[j].1.package_name == e0[j].1.package_name
                            &&& e0[j].1.source@ == "flatpak"@ ==> e2[j].1 == e0[j].1
                        } by {
                            assert(st.0[j].0 == e0[j].0);
                        }
                    },
                    None => {},
                }
                assert(st.1.subrange(0, st.1.len() as int) =~= st.1);
            } else {
                assert(n.1.subrange(0, st.1.len() as int) =~= st.1);
            }
        },
    }
}

proof fn lemma_fold_after(
    e0: Seq<(Seq<char>, AppInfo)>,
    st: (Seq<(Seq<char>, AppInfo)>, Seq<(Seq<char>, AppInfo)>, Seq<(Seq<char>, Seq<char>)>),
    ms: Seq<(String, String)>,
    k: Seq<char>,
    krpm: Seq<char>,
)
    requires
        confirmed_only(e0, st.0),
        lookup(e0, k) is None,
        k == native_key(krpm),
        rekeys_avoid(st.2, k),
    ensures
        ({
            let n = stub_fold(st, ms);
            &&& confirmed_only(e0, n.0)
            &&& rekeys_avoid(n.2, k)
            &&& n.1.len() >= st.1.len() && n.1.subrange(0, st.1.len() as int) == st.1
            &&& (forall|j: int| 0 <= j < ms.len() ==> (#[trigger] ms[j]).1@ != krpm) ==> forall|q: int|
                st.1.len() <= q < n.1.len() ==> (#[trigger] n.1[q]).0 != k
        }),
    decreases ms.len(),
{
    if ms.len() > 0 {
        let s1 = stub_step(st, ms[0].0, ms[0].1);
        lemma_step_shape(e0, st, ms[0].0, ms[0].1, k, krpm);
        lemma_fold_after(e0, s1, ms.drop_first(), k, krpm);
        let n = stub_fold(s1, ms.drop_first());
        assert(n.1.subrange(0, st.1.len() as int) =~= n.1.subrange(0, s1.1.len() as int).subrange(0, st.1.len() as int));
        if forall|j: int| 0 <= j < ms.len() ==> (#[trigger] ms[j]).1@ != krpm {
            assert forall|j: int| 0 <= j < ms.drop_first().len() implies (#[trigger] ms.drop_first()[j]).1@ != krpm by {
                assert(ms.drop_first()[j] == ms[j + 1]);
            }
            assert(ms[0].1@ != krpm);
            assert(native_key(ms[0].1@) != k) by {
                reveal_strlit("native:");
                assert(native_key(ms[0].1@).subrange(7, native_key(ms[0].1@).len() as int) =~= ms[0].1@);
                assert(k.subrange(7, k.len() as int) =~= krpm);
            }
            assert forall|q: int| st.1.len() <= q < n.1.len() implies (#[trigger] n.1[q]).0 != k by {
                if q < s1.1.len() {
                    assert(n.1[q] == n.1.subrange(0, s1.1.len() as int)[q]);
                    assert(s1.1[q].0 == native_key(ms[0].1@));
                }
            }
        }
    }
}

proof fn lemma_fold_split(
    st: (Seq<(Seq<char>, AppInfo)>, Seq<(Seq<char>, AppInfo)>, Seq<(Seq<char>, Seq<char>)>),
    ms: Seq<(String, String)>,
    i: int,
)
    requires
        0 <= i < ms.len(),
    ensures
        stub_fold(st, ms) == stub_fold(
            stub_step(stub_fold(st, ms.subrange(0, i)), ms[i].0, ms[i].1),
            ms.subrange(i + 1, ms.len() as int),
        ),
    decreases i,
{
    if i == 0 {
        assert(ms.subrange(0, 0).len() == 0);
        assert(ms.drop_first() =~= ms.subrange(1, ms.len() as int));
    } else {
        let s1 = stub_step(st, ms[0].0, ms[0].1);
        let rest = ms.drop_first();
        lemma_fold_split(s1, rest, i - 1);
        assert(rest.subrange(0, i - 1) =~= ms.subrange(0, i).drop_first());
        assert(ms.subrange(0, i)[0] == ms[0]);
        assert(rest[i - 1] == ms[i]);
        assert(rest.subrange(i, rest.len() as int) =~= ms.subrange(i + 1, ms.len() as int));
    }
}

proof fn lemma_apply_stubs_split(e: Seq<(Seq<char>, AppInfo)>, p: Seq<(Seq<char>, AppInfo)>, r: Seq<(Seq<char>, AppInfo)>)
    ensures
        apply_stubs(e, p + r) == apply_stubs(apply_stubs(e, p), r),
    decreases p.len(),
{
    if p.len() > 0 {
        assert((p + r).drop_first() =~= p.drop_first() + r);
        assert((p + r)[0] == p[0]);
        lemma_apply_stubs_split(put(e, p[0].0, p[0].1), p.drop_first(), r);
    } else {
        assert(p + r =~= r);
    }
}

proof fn lemma_apply_stubs_other(e: Seq<(Seq<char>, AppInfo)>, s: Seq<(Seq<char>, AppInfo)>, k: Seq<char>)
    requires
        unique_keys(e),
        forall|q: int| 0 <= q < s.len() ==> (#[trigger] s[q]).0 != k,
    ensures
        unique_keys(apply_stubs(e, s)),
        lookup(apply_stubs(e, s), k) == lookup(e, k),
    decreases s.len(),
{
    if s.len() > 0 {
        crate::appstream::lemma_put_other(e, s[0].0, s[0].1, k);
        assert forall|q: int| 0 <= q < s.drop_first().len() implies (#[trigger] s.drop_first()[q]).0 != k by {
            assert(s.drop_first()[q] == s[q + 1]);
        }
        lemma_apply_stubs_other(put(e, s[0].0, s[0].1), s.drop_first(), k);
    }
}

proof fn lemma_apply_stubs_unique(e: Seq<(Seq<char>, AppInfo)>, s: Seq<(Seq<char>, AppInfo)>)
    requires
        unique_keys(e),
    ensures
        unique_keys(apply_stubs(e, s)),
    decreases s.len(),
{
    if s.len() > 0 {
        lemma_put_unique(e, s[0].0, s[0].1);
        lemma_apply_stubs_unique(put(e, s[0].0, s[0].1), s.drop_first());
    }
}

proof fn lemma_apply_rekeys_other(e: Seq<(Seq<char>, AppInfo)>, r: Seq<(Seq<char>, Seq<char>)>, k: Seq<char>)
    requires
        unique_keys(e),
        rekeys_avoid(r, k),
    ensures
        lookup(apply_rekeys(e, r), k) == lookup(e, k),
    decreases r.len(),
{
    if r.len() > 0 {
        let e2 = match lookup(e, r[0].0) {
            Some(a) => put(take(e, r[0].0), r[0].1, a),
            None => e,
        };
        match lookup(e, r[0].0) {
            Some(a) => {
                crate::appstream::lemma_take_other(e, r[0].0, k);
                crate::appstream::lemma_put_other(take(e, r[0].0), r[0].1, a, k);
            },
            None => {},
        }
        assert forall|q: int| 0 <= q < r.drop_first().len() implies (#[trigger] r.drop_first()[q]).0 != k && r.drop_first()[q].1 != k by {
            assert(r.drop_first()[q] == r[q + 1]);
        }
        lemma_apply_rekeys_other(e2, r.drop_first(), k);
    }
}

/// A mapping from a Flatpak id to a package that no native record
/// provides, whose Flatpak record is in the catalog, leaves a native stub
/// under `native:<package>`: the Flatpak record's metadata with source
/// `native`, the package as id and package name, not guessed. (Left out: a
/// later mapping to the same package, whose stub takes the key, and a
/// catalog that already has a record under that key.)
pub proof fn law_inject_native_stub(e0: Seq<(Seq<char>, AppInfo)>, ms: Seq<(String, String)>, i: int)
    requires
        unique_keys(e0),
        0 <= i < ms.len(),
        flatpak_match_from(e0, str_lowercase(ms[i].0@), 0) is Some,
        !has_native_pkg(e0, ms[i].1@),
        lookup(e0, native_key(ms[i].1@)) is None,
        forall|j: int| i < j < ms.len() ==> (#[trigger] ms[j]).1@ != ms[i].1@,
    ensures
        ({
            let f = e0[flatpak_match_from(e0, str_lowercase(ms[i].0@), 0)->0].1;
            lookup(inject_spec(e0, ms), native_key(ms[i].1@)) matches Some(s) && view_eq(
                s,
                stub_of(f, ms[i].1),
            )
        }),
{
    let rpm = ms[i].1;
    let k = native_key(rpm@);
    let init: (Seq<(Seq<char>, AppInfo)>, Seq<(Seq<char>, AppInfo)>, Seq<(Seq<char>, Seq<char>)>) = (e0, seq![], seq![]);
    assert(confirmed_only(e0, e0));
    lemma_fold_after(e0, init, ms.subrange(0, i), k, rpm@);
    let sa = stub_fold(init, ms.subrange(0, i));
    let lc = str_lowercase(ms[i].0@);
    lemma_match_confirmed(e0, sa.0, lc, 0);
    lemma_native_confirmed(e0, sa.0, rpm@);
    lemma_match_in_range(e0, lc, 0);
    let x = flatpak_match_from(e0, lc, 0)->0;
    assert(sa.0[x].1 == e0[x].1);
    let si = stub_step(sa, ms[i].0, rpm);
    assert(si.1 == sa.1.push((k, stub_of(e0[x].1, rpm))));
    lemma_step_shape(e0, sa, ms[i].0, rpm, k, rpm@);
    let rest = ms.subrange(i + 1, ms.len() as int);
    assert forall|j: int| 0 <= j < rest.len() implies (#[trigger] rest[j]).1@ != rpm@ by {
        assert(rest[j] == ms[i + 1 + j]);
    }
    lemma_fold_after(e0, si, rest, k, rpm@);
    lemma_fold_split(init, ms, i);
    let fin = stub_fold(init, ms);
    assert(fin == stub_fold(si, rest));
    let p = fin.1.subrange(0, si.1.len() as int);
    let tail = fin.1.subrange(si.1.len() as int, fin.1.len() as int);
    assert(fin.1 =~= p + tail);
    assert(p == si.1);
    assert(p =~= sa.1 + seq![(k, stub_of(e0[x].1, rpm))]);
    lemma_apply_stubs_split(fin.0, p, tail);
    lemma_apply_stubs_split(fin.0, sa.1, seq![(k, stub_of(e0[x].1, rpm))]);
    // Uniqueness of the records after the fold.
    assert(unique_keys(fin.0)) by {
        assert forall|a: int, b: int| 0 <= a < b < fin.0.len() implies (#[trigger] fin.0[a]).0 != (#[trigger] fin.0[b]).0 by {
            assert(fin.0[a].0 == e0[a].0 && fin.0[b].0 == e0[b].0);
        }
    }
    lemma_apply_stubs_unique(fin.0, sa.1);
    let e1 = apply_stubs(fin.0, sa.1);
    let one: Seq<(Seq<char>, AppInfo)> = seq![(k, stub_of(e0[x].1, rpm))];
    assert(one.drop_first() =~= Seq::<(Seq<char>, AppInfo)>::empty());
    assert(one[0] == (k, stub_of(e0[x].1, rpm)));
    assert(apply_stubs(put(e1, k, stub_of(e0[x].1, rpm)), one.drop_first()) == put(e1, k, stub_of(e0[x].1, rpm)));
    assert(apply_stubs(e1, one) == put(e1, k, stub_of(e0[x].1, rpm)));
    crate::appstream::lemma_put_other(e1, k, stub_of(e0[x].1, rpm), k);
    let e2 = apply_stubs(e1, one);
    assert forall|q: int| 0 <= q < tail.len() implies (#[trigger] tail[q]).0 != k by {
        assert(tail[q] == fin.1[si.1.len() + q]);
    }
    lemma_apply_stubs_other(e2, tail, k);
    lemma_apply_rekeys_other(apply_stubs(e2, tail), fin.2, k);
    assert(view_eq(stub_of(e0[x].1, rpm), stub_of(e0[x].1, rpm)));
}

// ── The Flatpak record's own key ─────────────────────────────────────────────

/// Each rename moves a record of `e0` to `flatpak:<its id>`, a key free in
/// `e0` and not its own.
pub open spec fn renames_of(e0: Seq<(Seq<char>, AppInfo)>, r: Seq<(Seq<char>, Seq<char>)>) -> bool {
    forall|q: int| 0 <= q < r.len() ==> exists|x: int|
        0 <= x < e0.len() && (#[trigger] e0[x]).0 == (#[trigger] r[q]).0 && r[q].1 == "flatpak:"@
            + e0[x].1.id@ && r[q].0 != r[q].1 && lookup(e0, r[q].1) is None
}

proof fn lemma_none_confirmed(x: Seq<(Seq<char>, AppInfo)>, y: Seq<(Seq<char>, AppInfo)>, k: Seq<char>)
    requires
        confirmed_only(x, y),
    ensures
        (lookup(x, k) is None) == (lookup(y, k) is None),
{
    if lookup(x, k) is Some {
        let i = choose|i: int| 0 <= i < x.len() && (#[trigger] x[i]).0 == k;
        assert(y[i].0 == k);
    }
    if lookup(y, k) is Some {
        let i = choose|i: int| 0 <= i < y.len() && (#[trigger] y[i]).0 == k;
        assert(y[i].0 == x[i].0);
    }
}

proof fn lemma_renames_step(
    e0: Seq<(Seq<char>, AppInfo)>,
    st: (Seq<(Seq<char>, AppInfo)>, Seq<(Seq<char>, AppInfo)>, Seq<(Seq<char>, Seq<char>)>),
    fp: String,
    rpm: String,
)
    requires
        confirmed_only(e0, st.0),
        renames_of(e0, st.2),
    ensures
        renames_of(e0, stub_step(st, fp, rpm).2),
        st.2.len() <= stub_step(st, fp, rpm).2.len(),
        forall|q: int| 0 <= q < st.2.len() ==> stub_step(st, fp, rpm).2[q] == st.2[q],
{
    let n = stub_step(st, fp, rpm);
    lemma_match_in_range(st.0, str_lowercase(fp@), 0);
    match flatpak_match_from(st.0, str_lowercase(fp@), 0) {
        None => {},
        Some(x) => {
            let pk = "flatpak:"@ + st.0[x].1.id@;
            lemma_none_confirmed(e0, st.0, pk);
            assert(st.0[x].0 == e0[x].0 && st.0[x].1.id == e0[x].1.id);
            assert forall|q: int| 0 <= q < n.2.len() implies exists|y: int|
                0 <= y < e0.len() && (#[trigger] e0[y]).0 == (#[trigger] n.2[q]).0 && n.2[q].1 == "flatpak:"@
                    + e0[y].1.id@ && n.2[q].0 != n.2[q].1 && lookup(e0, n.2[q].1) is None by {
                if q < st.2.len() {
                    assert(n.2[q] == st.2[q]);
                } else {
                    assert(e0[x].0 == n.2[q].0);
                }
            }
        },
    }
}

proof fn lemma_renames_fold(
    e0: Seq<(Seq<char>, AppInfo)>,
    st: (Seq<(Seq<char>, AppInfo)>, Seq<(Seq<char>, AppInfo)>, Seq<(Seq<char>, Seq<char>)>),
    ms: Seq<(String, String)>,
)
    requires
        confirmed_only(e0, st.0),
        renames_of(e0, st.2),
    ensures
        renames_of(e0, stub_fold(st, ms).2),
        st.2.len() <= stub_fold(st, ms).2.len(),
        forall|q: int| 0 <= q < st.2.len() ==> stub_fold(st, ms).2[q] == st.2[q],
    decreases ms.len(),
{
    if ms.len() > 0 {
        let s1 = stub_step(st, ms[0].0, ms[0].1);
        lemma_renames_step(e0, st, ms[0].0, ms[0].1);
        lemma_match_in_range(st.0, str_lowercase(ms[0].0@), 0);
        assert(confirmed_only(e0, s1.0)) by {
            lemma_step_keeps(e0, st, ms[0].0, ms[0].1);
        }
        lemma_renames_fold(e0, s1, ms.drop_first());
    }
}

proof fn lemma_step_keeps(
    e0: Seq<(Seq<char>, AppInfo)>,
    st: (Seq<(Seq<char>, AppInfo)>, Seq<(Seq<char>, AppInfo)>, Seq<(Seq<char>, Seq<char>)>),
    fp: String,
    rpm: String,
)
    requires
        confirmed_only(e0, st.0),
    ensures
        confirmed_only(e0, stub_step(st, fp, rpm).0),
{
    let n = stub_step(st, fp, rpm);
    lemma_match_in_range(st.0, str_lowercase(fp@), 0);
    match flatpak_match_from(st.0, str_lowercase(fp@), 0) {
        None => {},
        Some(x) => {
            if has_native_pkg(st.0, rpm@) {
                lemma_guessed_in_range(st.0, rpm@, 0);
                match first_guessed_from(st.0, rpm@, 0) {
                    Some(g) => {
                        let e2 = st.0.update(g, (st.0[g].0, confirmed(st.0[g].1)));
                        assert forall|j: int| 0 <= j < e0.len() implies {
                            &&& (#[trigger] e2[j]).0 == e0[j].0
                            &&& e2[j].1.id == e0[j].1.id && e2[j].1.source == e0[j].1.source
                                && e2[j].1.package_name == e0[j].1.package_name
                            &&& e0[j].1.source@ == "flatpak"@ ==> e2[j].1 == e0[j].1
                        } by {
                            assert(st.0[j].0 == e0[j].0);
                        }
                    },
                    None => {},
                }
            }
        },
    }
}

proof fn lemma_apply_stubs_some(e: Seq<(Seq<char>, AppInfo)>, s: Seq<(Seq<char>, AppInfo)>, k: Seq<char>)
    requires
        unique_keys(e),
        lookup(e, k) is Some,
    ensures
        lookup(apply_stubs(e, s), k) is Some,
    decreases s.len(),
{
    if s.len() > 0 {
        crate::appstream::lemma_put_other(e, s[0].0, s[0].1, k);
        lemma_apply_stubs_some(put(e, s[0].0, s[0].1), s.drop_first(), k);
    }
}

/// Renames never taking a record from `pk` keep a record there once one is,
/// and a rename of a present `fk` to `pk` puts one there.
proof fn lemma_rekeys_reach(
    e: Seq<(Seq<char>, AppInfo)>,
    r: Seq<(Seq<char>, Seq<char>)>,
    fk: Seq<char>,
    pk: Seq<char>,
)
    requires
        unique_keys(e),
        forall|q: int| 0 <= q < r.len() ==> (#[trigger] r[q]).0 != pk,
        forall|q: int| 0 <= q < r.len() && (#[trigger] r[q]).0 == fk ==> r[q].1 == pk,
        lookup(e, pk) is Some || (lookup(e, fk) is Some && exists|q: int| 0 <= q < r.len() && #[trigger] r[q] == (fk, pk)),
    ensures
        lookup(apply_rekeys(e, r), pk) is Some,
    decreases r.len(),
{
    if r.len() > 0 {
        let (a0, b0) = r[0];
        let e2 = match lookup(e, a0) {
            Some(v) => put(take(e, a0), b0, v),
            None => e,
        };
        match lookup(e, a0) {
            Some(v) => {
                crate::appstream::lemma_take_unique(e, a0);
                if a0 != pk {
                    crate::appstream::lemma_take_other(e, a0, pk);
                }
                if a0 != fk {
                    crate::appstream::lemma_take_other(e, a0, fk);
                }
                crate::appstream::lemma_put_other(take(e, a0), b0, v, pk);
                crate::appstream::lemma_put_other(take(e, a0), b0, v, fk);
            },
            None => {},
        }
        let rest = r.drop_first();
        assert forall|q: int| 0 <= q < rest.len() implies (#[trigger] rest[q]).0 != pk by {
            assert(rest[q] == r[q + 1]);
        }
        assert forall|q: int| 0 <= q < rest.len() && (#[trigger] rest[q]).0 == fk implies rest[q].1 == pk by {
            assert(rest[q] == r[q + 1]);
        }
        if lookup(e, pk) is None {
            let q = choose|q: int| 0 <= q < r.len() && #[trigger] r[q] == (fk, pk);
            if q > 0 && a0 != fk {
                assert(rest[q - 1] == r[q]);
            }
        }
        lemma_rekeys_reach(e2, rest, fk, pk);
    }
}

/// The Flatpak record a mapping finds ends up under `flatpak:<its id>`
/// (or a record does): it is renamed there when that key is free, or it
/// already had it. (Left out: the key held by another record beforehand.)
pub proof fn law_inject_flatpak_key(e0: Seq<(Seq<char>, AppInfo)>, ms: Seq<(String, String)>, i: int)
    requires
        unique_keys(e0),
        0 <= i < ms.len(),
        flatpak_match_from(e0, str_lowercase(ms[i].0@), 0) is Some,
        ({
            let x = flatpak_match_from(e0, str_lowercase(ms[i].0@), 0)->0;
            e0[x].0 == "flatpak:"@ + e0[x].1.id@ || lookup(e0, "flatpak:"@ + e0[x].1.id@) is None
        }),
    ensures
        ({
            let f = e0[flatpak_match_from(e0, str_lowercase(ms[i].0@), 0)->0].1;
            lookup(inject_spec(e0, ms), "flatpak:"@ + f.id@) is Some
        }),
{
    reveal_strlit("native:");
    reveal_strlit("flatpak:");
    let init: (Seq<(Seq<char>, AppInfo)>, Seq<(Seq<char>, AppInfo)>, Seq<(Seq<char>, Seq<char>)>) = (e0, seq![], seq![]);
    assert(confirmed_only(e0, e0));
    let lc = str_lowercase(ms[i].0@);
    lemma_match_in_range(e0, lc, 0);
    let x = flatpak_match_from(e0, lc, 0)->0;
    let fk = e0[x].0;
    let pk = "flatpak:"@ + e0[x].1.id@;
    // The state before mapping i.
    lemma_renames_fold(e0, init, ms.subrange(0, i));
    let sa = stub_fold(init, ms.subrange(0, i));
    assert(confirmed_only(e0, sa.0)) by {
        lemma_fold_keeps(e0, init, ms.subrange(0, i));
    }
    lemma_match_confirmed(e0, sa.0, lc, 0);
    lemma_none_confirmed(e0, sa.0, pk);
    assert(sa.0[x].0 == fk && sa.0[x].1 == e0[x].1);
    let si = stub_step(sa, ms[i].0, ms[i].1);
    lemma_renames_step(e0, sa, ms[i].0, ms[i].1);
    lemma_step_keeps(e0, sa, ms[i].0, ms[i].1);
    let rest = ms.subrange(i + 1, ms.len() as int);
    lemma_renames_fold(e0, si, rest);
    lemma_fold_keeps(e0, si, rest);
    lemma_fold_split(init, ms, i);
    let fin = stub_fold(init, ms);
    assert(fin == stub_fold(si, rest));
    let r = fin.2;
    assert(unique_keys(fin.0)) by {
        assert forall|a: int, b: int| 0 <= a < b < fin.0.len() implies (#[trigger] fin.0[a]).0 != (#[trigger] fin.0[b]).0 by {
            assert(fin.0[a].0 == e0[a].0 && fin.0[b].0 == e0[b].0);
        }
    }
    let stubbed = apply_stubs(fin.0, fin.1);
    lemma_apply_stubs_unique(fin.0, fin.1);
    assert(fin.0[x].0 == fk);
    crate::appstream::lemma_key_index(fin.0, fk, x);
    lemma_apply_stubs_some(fin.0, fin.1, fk);
    // No rename takes a record from `pk`, and a rename from `fk` goes to `pk`.
    assert forall|q: int| 0 <= q < r.len() implies (#[trigger] r[q]).0 != pk by {
        let y = choose|y: int| 0 <= y < e0.len() && (#[trigger] e0[y]).0 == r[q].0 && r[q].1 == "flatpak:"@
            + e0[y].1.id@ && r[q].0 != r[q].1 && lookup(e0, r[q].1) is None;
        if r[q].0 == pk {
            crate::appstream::lemma_key_index(e0, pk, y);
            if fk == pk {
                crate::appstream::lemma_key_index(e0, fk, x);
                assert(x == y);
            }
        }
    }
    assert forall|q: int| 0 <= q < r.len() && (#[trigger] r[q]).0 == fk implies r[q].1 == pk by {
        let y = choose|y: int| 0 <= y < e0.len() && (#[trigger] e0[y]).0 == r[q].0 && r[q].1 == "flatpak:"@
            + e0[y].1.id@ && r[q].0 != r[q].1 && lookup(e0, r[q].1) is None;
        crate::appstream::lemma_key_index(e0, fk, x);
        crate::appstream::lemma_key_index(e0, fk, y);
    }
    if fk == pk {
        assert(lookup(stubbed, pk) is Some);
    } else {
        let q = sa.2.len() as int;
        assert(si.2[q] == (fk, pk));
        assert(r[q] == si.2[q]);
    }
    lemma_rekeys_reach(stubbed, r, fk, pk);
}

proof fn lemma_fold_keeps(
    e0: Seq<(Seq<char>, AppInfo)>,
    st: (Seq<(Seq<char>, AppInfo)>, Seq<(Seq<char>, AppInfo)>, Seq<(Seq<char>, Seq<char>)>),
    ms: Seq<(String, String)>,
)
    requires
        confirmed_only(e0, st.0),
    ensures
        confirmed_only(e0, stub_fold(st, ms).0),
    decreases ms.len(),
{
    if ms.len() > 0 {
        lemma_step_keeps(e0, st, ms[0].0, ms[0].1);
        lemma_fold_keeps(e0, stub_step(st, ms[0].0, ms[0].1), ms.drop_first());
    }
}

} // verus!
