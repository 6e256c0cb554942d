//! The home page: popular apps, editor's picks and the Flathub feeds, each
//! resolved against the AppStream catalog.
use vstd::prelude::*;
use crate::appimage::string_views;
use crate::appstream::{AppInfo, Catalog, lookup};
use crate::text::{chars_of, index_of, str_lowercase, string_of, string_of_str, trim, trim_end_str};

verus! {

/// The part of an application record the home page shows.
#[derive(Debug, Clone)]
pub struct HomeApp {
    pub id: String,
    pub name: String,
    pub summary: String,
    pub icon: String,
    pub icon_url: String,
    pub icon_path: String,
    pub source: String,
}

pub open spec fn home_of(a: AppInfo) -> HomeApp {
    HomeApp {
        id: a.id,
        name: a.name,
        summary: a.summary,
        icon: a.icon,
        icon_url: a.icon_url,
        icon_path: a.icon_path,
        source: a.source,
    }
}

impl HomeApp {
    pub fn from_info(a: &AppInfo) -> (h: HomeApp)
        ensures
            h == home_of(*a),
    {
        HomeApp {
            id: a.id.clone(),
            name: a.name.clone(),
            summary: a.summary.clone(),
            icon: a.icon.clone(),
            icon_url: a.icon_url.clone(),
            icon_path: a.icon_path.clone(),
            source: a.source.clone(),
        }
    }
}

// ── Fixed lists ─────────────────────────────────────────────────────────────

pub open spec fn popular_seed_spec() -> Seq<Seq<char>> {
    seq![
        "com.valvesoftware.Steam"@,
        "org.mozilla.firefox"@,
        "com.spotify.Client"@,
        "com.discordapp.Discord"@,
        "org.videolan.vlc"@,
        "com.obsproject.Studio"@,
        "org.gimp.GIMP"@,
        "org.inkscape.Inkscape"@,
        "org.libreoffice.LibreOffice"@,
        "org.kde.kdenlive"@,
        "org.blender.Blender"@,
        "com.google.Chrome"@,
        "org.signal.Signal"@,
        "net.lutris.Lutris"@,
        "com.heroicgameslauncher.hgl"@,
        "org.freedesktop.Piper"@,
        "org.gnome.Boxes"@,
        "io.github.celluloid_player.Celluloid"@,
        "com.github.tchx84.Flatseal"@,
        "org.kde.okular"@,
    ]
}

pub open spec fn fallback_picks_spec() -> Seq<Seq<char>> {
    seq![
        "com.valvesoftware.Steam"@,
        "com.obsproject.Studio"@,
        "org.kde.kdenlive"@,
        "org.gimp.GIMP"@,
        "net.lutris.Lutris"@,
        "com.heroicgameslauncher.hgl"@,
        "org.mozilla.firefox"@,
        "com.discordapp.Discord"@,
        "org.blender.Blender"@,
        "com.github.tchx84.Flatseal"@,
        "io.github.Faugus.faugus-launcher"@,
        "org.libreoffice.LibreOffice"@,
    ]
}

/// The app ids the popular section is made of, in order.
pub fn popular_seed() -> (r: Vec<String>)
    ensures
        string_views(r@) == popular_seed_spec(),
{
    let r = vec![
        string_of_str("com.valvesoftware.Steam"),
        string_of_str("org.mozilla.firefox"),
        string_of_str("com.spotify.Client"),
        string_of_str("com.discordapp.Discord"),
        string_of_str("org.videolan.vlc"),
        string_of_str("com.obsproject.Studio"),
        string_of_str("org.gimp.GIMP"),
        string_of_str("org.inkscape.Inkscape"),
        string_of_str("org.libreoffice.LibreOffice"),
        string_of_str("org.kde.kdenlive"),
        string_of_str("org.blender.Blender"),
        string_of_str("com.google.Chrome"),
        string_of_str("org.signal.Signal"),
        string_of_str("net.lutris.Lutris"),
        string_of_str("com.heroicgameslauncher.hgl"),
        string_of_str("org.freedesktop.Piper"),
        string_of_str("org.gnome.Boxes"),
        string_of_str("io.github.celluloid_player.Celluloid"),
        string_of_str("com.github.tchx84.Flatseal"),
        string_of_str("org.kde.okular"),
    ];
    assert(string_views(r@) =~= popular_seed_spec());
    r
}

/// The editor's picks used when the picks service gives none.
pub fn fallback_picks() -> (r: Vec<String>)
    ensures
        string_views(r@) == fallback_picks_spec(),
{
    let r = vec![
        string_of_str("com.valvesoftware.Steam"),
        string_of_str("com.obsproject.Studio"),
        string_of_str("org.kde.kdenlive"),
        string_of_str("org.gimp.GIMP"),
        string_of_str("net.lutris.Lutris"),
        string_of_str("com.heroicgameslauncher.hgl"),
        string_of_str("org.mozilla.firefox"),
        string_of_str("com.discordapp.Discord"),
        string_of_str("org.blender.Blender"),
        string_of_str("com.github.tchx84.Flatseal"),
        string_of_str("io.github.Faugus.faugus-launcher"),
        string_of_str("org.libreoffice.LibreOffice"),
    ];
    assert(string_views(r@) =~= fallback_picks_spec());
    r
}

// ── Resolving ids ───────────────────────────────────────────────────────────

/// An id without `.desktop`, in lower case.
pub open spec fn lower_clean(id: Seq<char>) -> Seq<char> {
    str_lowercase(trim_end_str(id, ".desktop"@))
}

/// The keys an id is looked up under, in order.
pub open spec fn id_candidates(id: Seq<char>) -> Seq<Seq<char>> {
    let lc = lower_clean(id);
    seq![lc, lc + ".desktop"@, "flatpak:"@ + lc, id, id + ".desktop"@, "flatpak:"@ + id]
}

/// The record under the first of `keys` that the catalog holds.
pub open spec fn first_lookup(e: Seq<(Seq<char>, AppInfo)>, keys: Seq<Seq<char>>) -> Option<AppInfo>
    decreases keys.len(),
{
    if keys.len() == 0 {
        None
    } else {
        match lookup(e, keys[0]) {
            Some(a) => Some(a),
            None => first_lookup(e, keys.drop_first()),
        }
    }
}

/// The first record from position `j` on whose id, without `.desktop` and in
/// lower case, is `lc`.
pub open spec fn scan_from(e: Seq<(Seq<char>, AppInfo)>, lc: Seq<char>, j: int) -> Option<AppInfo>
    decreases e.len() - j,
{
    if j < 0 || j >= e.len() {
        None
    } else if lower_clean(e[j].1.id@) == lc {
        Some(e[j].1)
    } else {
        scan_from(e, lc, j + 1)
    }
}

/// The record an id names: looked up under its candidate keys, else the
/// first record whose id matches it case-insensitively.
pub open spec fn resolve_spec(e: Seq<(Seq<char>, AppInfo)>, id: Seq<char>) -> Option<AppInfo> {
    match first_lookup(e, id_candidates(id)) {
        Some(a) => Some(a),
        None => scan_from(e, lower_clean(id), 0),
    }
}

fn suffixed(a: &Vec<char>, s: &str) -> (r: String)
    ensures
        r@ == a@ + s@,
{
    let mut v = a.clone();
    crate::text::push_str(&mut v, s);
    string_of(&v)
}

fn prefixed(s: &str, a: &Vec<char>) -> (r: String)
    ensures
        r@ == s@ + a@,
{
    let v = crate::text::concat(&chars_of(s), a);
    string_of(&v)
}

fn lower_clean_of(id: &str) -> (r: String)
    ensures
        r@ == lower_clean(id@),
{
    let clean = crate::text::trim_end_str_vec(&chars_of(id), &chars_of(".desktop"));
    let c = string_of(&clean);
    crate::text::lowercase(c.as_str())
}

/// The catalog record an id names (see `resolve_spec`).
pub fn resolve_one<'a>(id: &str, appstream: &'a Catalog) -> (r: Option<&'a AppInfo>)
    requires
        appstream.wf(),
    ensures
        match r {
            Some(a) => resolve_spec(appstream.view_entries(), id@) == Some(*a),
            None => resolve_spec(appstream.view_entries(), id@) is None,
        },
{
    let ghost e = appstream.view_entries();
    let lc_s = lower_clean_of(id);
    let lc = chars_of(lc_s.as_str());
    let idv = chars_of(id);
    let mut cands: Vec<String> = Vec::new();
    cands.push(lc_s.clone());
    cands.push(suffixed(&lc, ".desktop"));
    cands.push(prefixed("flatpak:", &lc));
    cands.push(string_of_str(id));
    cands.push(suffixed(&idv, ".desktop"));
    cands.push(prefixed("flatpak:", &idv));
    assert(string_views(cands@) =~= id_candidates(id@));
    assert(string_views(cands@).subrange(0, cands@.len() as int) =~= string_views(cands@));
    let mut i: usize = 0;
    while i < cands.len()
        invariant
            i <= cands@.len(),
            appstream.wf(),
            e == appstream.view_entries(),
            first_lookup(e, id_candidates(id@)) == first_lookup(
                e,
                string_views(cands@).subrange(i as int, cands@.len() as int),
            ),
        decreases cands@.len() - i,
    {
        let ghost rest = string_views(cands@).subrange(i as int, cands@.len() as int);
        assert(rest[0] == cands@[i as int]@);
        assert(rest.drop_first() =~= string_views(cands@).subrange(i + 1, cands@.len() as int));
        match appstream.get(cands[i].as_str()) {
            Some(a) => {
                return Some(a);
            },
            None => {},
        }
        i = i + 1;
    }
    assert(string_views(cands@).subrange(i as int, cands@.len() as int).len() == 0);
    let mut j: usize = 0;
    while j < appstream.entries.len()
        invariant
            j <= appstream.entries@.len(),
            e == appstream.view_entries(),
            lc_s@ == lower_clean(id@),
            first_lookup(e, id_candidates(id@)) is None,
            scan_from(e, lower_clean(id@), 0) == scan_from(e, lower_clean(id@), j as int),
        decreases appstream.entries@.len() - j,
    {
        let a = &appstream.entries[j].1;
        assert(e[j as int].1 == *a);
        let l = lower_clean_of(a.id.as_str());
        if crate::text::str_eq(l.as_str(), lc_s.as_str()) {
            return Some(a);
        }
        j = j + 1;
    }
    None
}

pub open spec fn home_ids(acc: Seq<HomeApp>) -> Seq<Seq<char>> {
    acc.map_values(|h: HomeApp| h.id@)
}

/// The home entries for `ids`, after those already in `acc`: each id
/// resolved, a record already shown skipped, until `limit` entries.
pub open spec fn resolve_ids_spec(
    e: Seq<(Seq<char>, AppInfo)>,
    ids: Seq<Seq<char>>,
    limit: int,
    acc: Seq<HomeApp>,
) -> Seq<HomeApp>
    decreases ids.len(),
{
    if ids.len() == 0 || acc.len() >= limit {
        acc
    } else {
        let next = match resolve_spec(e, ids[0]) {
            Some(a) => if home_ids(acc).contains(a.id@) {
                acc
            } else {
                acc.push(home_of(a))
            },
            None => acc,
        };
        resolve_ids_spec(e, ids.drop_first(), limit, next)
    }
}

fn shown(acc: &Vec<HomeApp>, id: &str) -> (r: bool)
    ensures
        r == home_ids(acc@).contains(id@),
{
    let mut k: usize = 0;
    while k < acc.len()
        invariant
            k <= acc@.len(),
            forall|q: int| 0 <= q < k ==> (#[trigger] home_ids(acc@)[q]) != id@,
        decreases acc@.len() - k,
    {
        if crate::text::str_eq(acc[k].id.as_str(), id) {
            assert(home_ids(acc@)[k as int] == id@);
            return true;
        }
        k = k + 1;
    }
    false
}

/// Up to `limit` home entries for `ids`, in order and without repeats.
pub fn resolve_ids(ids: &Vec<String>, appstream: &Catalog, limit: usize) -> (r: Vec<HomeApp>)
    requires
        appstream.wf(),
    ensures
        r@ == resolve_ids_spec(appstream.view_entries(), string_views(ids@), limit as int, seq![]),
{
    let ghost e = appstream.view_entries();
    let ghost all = string_views(ids@);
    let mut out: Vec<HomeApp> = Vec::new();
    let mut i: usize = 0;
    assert(all.subrange(0, all.len() as int) =~= all);
    assert(out@ =~= Seq::<HomeApp>::empty());
    while i < ids.len()
        invariant
            i <= ids@.len(),
            appstream.wf(),
            e == appstream.view_entries(),
            all == string_views(ids@),
            resolve_ids_spec(e, all, limit as int, seq![]) == resolve_ids_spec(
                e,
                all.subrange(i as int, all.len() as int),
                limit as int,
                out@,
            ),
        decreases ids@.len() - i,
    {
        if out.len() >= limit {
            return out;
        }
        let ghost rest = all.subrange(i as int, all.len() as int);
        assert(rest[0] == ids@[i as int]@);
        assert(rest.drop_first() =~= all.subrange(i + 1, all.len() as int));
        match resolve_one(ids[i].as_str(), appstream) {
            Some(a) => {
                if !shown(&out, a.id.as_str()) {
                    out.push(HomeApp::from_info(a));
                }
            },
            None => {},
        }
        i = i + 1;
    }
    out
}

/// The popular section: the fixed seed list, resolved, at most twenty.
pub fn get_popular(appstream: &Catalog) -> (r: Vec<HomeApp>)
    requires
        appstream.wf(),
    ensures
        r@ == resolve_ids_spec(appstream.view_entries(), popular_seed_spec(), 20, seq![]),
{
    let ids = popular_seed();
    resolve_ids(&ids, appstream, 20)
}

/// The ids of the editor's picks: those the picks service listed, or the
/// fixed fallback list when it gave no list.
pub open spec fn pick_ids_spec(fetched: Option<Vec<String>>) -> Seq<Seq<char>> {
    match fetched {
        Some(v) => string_views(v@),
        None => fallback_picks_spec(),
    }
}

/// The editor's picks: at most twelve, from what the picks service listed
/// (`None` when it could not be reached or gave no list).
pub fn get_picks(fetched: Option<Vec<String>>, appstream: &Catalog) -> (r: Vec<HomeApp>)
    requires
        appstream.wf(),
    ensures
        r@ == resolve_ids_spec(appstream.view_entries(), pick_ids_spec(fetched), 12, seq![]),
{
    let ids = match fetched {
        Some(v) => v,
        None => fallback_picks(),
    };
    resolve_ids(&ids, appstream, 12)
}

// ── Flathub feeds ───────────────────────────────────────────────────────────

/// Whether a character is alphabetic or numeric, as `char::is_alphanumeric`
/// decides it from the Unicode tables.
pub uninterp spec fn char_alphanumeric(c: char) -> bool;

/// `char::is_alphanumeric` (std): named by `char_alphanumeric`, a function of
/// the character alone.
#[verifier::external_body]
fn is_alphanumeric(c: char) -> (r: bool)
    ensures
        r == char_alphanumeric(c),
{
    c.is_alphanumeric()
}

pub open spec fn is_id_char(c: char) -> bool {
    char_alphanumeric(c) || c == '.' || c == '-' || c == '_'
}

/// The index of the first character from `i` on that cannot be part of an
/// app id (the length when there is none).
pub open spec fn id_end(s: Seq<char>, i: int) -> int
    decreases s.len() - i,
{
    if i < 0 || i >= s.len() {
        s.len() as int
    } else if !is_id_char(s[i]) {
        i
    } else {
        id_end(s, i + 1)
    }
}

/// The app id a feed chunk starts with.
pub open spec fn chunk_id(chunk: Seq<char>) -> Seq<char> {
    trim(chunk.subrange(0, id_end(chunk, 0)))
}

/// Ids from the chunks, after those in `acc`: each with a dot, not empty,
/// not seen before, until twenty.
pub open spec fn feed_ids_from(chunks: Seq<Seq<char>>, acc: Seq<Seq<char>>) -> Seq<Seq<char>>
    decreases chunks.len(),
{
    if chunks.len() == 0 || acc.len() >= 20 {
        acc
    } else {
        let id = chunk_id(chunks[0]);
        let next = if index_of(id, '.') >= 0 && id.len() > 0 && !acc.contains(id) {
            acc.push(id)
        } else {
            acc
        };
        feed_ids_from(chunks.drop_first(), next)
    }
}

/// The app ids a Flathub feed links to (`.../apps/<id>`), in order, at most
/// twenty.
pub open spec fn feed_ids_spec(text: Seq<char>) -> Seq<Seq<char>> {
    feed_ids_from(crate::text::split_str_from(text, "/apps/"@, 0).drop_first(), seq![])
}

proof fn lemma_id_end(s: Seq<char>, i: int)
    requires
        0 <= i <= s.len(),
    ensures
        i <= id_end(s, i) <= s.len(),
    decreases s.len() - i,
{
    if i < s.len() && is_id_char(s[i]) {
        lemma_id_end(s, i + 1);
    }
}

fn chunk_id_of(chunk: &Vec<char>) -> (r: Vec<char>)
    ensures
        r@ == chunk_id(chunk@),
{
    let mut k: usize = 0;
    while k < chunk.len() && (is_alphanumeric(chunk[k]) || chunk[k] == '.' || chunk[k] == '-'
        || chunk[k] == '_')
        invariant
            k <= chunk@.len(),
            id_end(chunk@, 0) == id_end(chunk@, k as int),
        decreases chunk@.len() - k,
    {
        k = k + 1;
    }
    let head = crate::text::subvec(chunk, 0, k);
    crate::text::trim_vec(&head)
}

fn seen_before(acc: &Vec<Vec<char>>, id: &Vec<char>) -> (r: bool)
    ensures
        r == crate::text::views(acc@).contains(id@),
{
    let mut k: usize = 0;
    while k < acc.len()
        invariant
            k <= acc@.len(),
            forall|q: int| 0 <= q < k ==> (#[trigger] crate::text::views(acc@)[q]) != id@,
        decreases acc@.len() - k,
    {
        if crate::text::eq(&acc[k], id) {
            assert(crate::text::views(acc@)[k as int] == id@);
            return true;
        }
        k = k + 1;
    }
    false
}

/// The app ids a Flathub feed links to (see `feed_ids_spec`).
pub fn feed_ids(text: &str) -> (r: Vec<String>)
    ensures
        string_views(r@) == feed_ids_spec(text@),
{
    proof {
        reveal_strlit("/apps/");
    }
    let chunks = crate::text::split_str(&chars_of(text), &chars_of("/apps/"));
    let ghost cv = crate::text::views(chunks@);
    let mut acc: Vec<Vec<char>> = Vec::new();
    let mut i: usize = 1;
    if chunks.len() == 0 {
        assert(cv.drop_first().len() == 0);
        return Vec::new();
    }
    assert(cv.drop_first() =~= cv.subrange(1, cv.len() as int));
    assert(crate::text::views(acc@) =~= Seq::<Seq<char>>::empty());
    while i < chunks.len() && acc.len() < 20
        invariant
            1 <= i <= chunks@.len(),
            cv == crate::text::views(chunks@),
            feed_ids_spec(text@) == feed_ids_from(
                cv.subrange(i as int, cv.len() as int),
                crate::text::views(acc@),
            ),
        decreases chunks@.len() - i,
    {
        let ghost rest = cv.subrange(i as int, cv.len() as int);
        assert(rest[0] == chunks@[i as int]@);
        assert(rest.drop_first() =~= cv.subrange(i + 1, cv.len() as int));
        let id = chunk_id_of(&chunks[i]);
        if crate::text::find_char(&id, '.').is_some() && id.len() > 0 && !seen_before(&acc, &id) {
            let ghost o = crate::text::views(acc@);
            acc.push(id);
            assert(crate::text::views(acc@) =~= o.push(acc@[acc@.len() - 1]@));
        }
        i = i + 1;
    }
    let mut out: Vec<String> = Vec::new();
    let mut k: usize = 0;
    while k < acc.len()
        invariant
            k <= acc@.len(),
            string_views(out@) == crate::text::views(acc@).subrange(0, k as int),
        decreases acc@.len() - k,
    {
        let ghost o = string_views(out@);
        let t = string_of(&acc[k]);
        out.push(t);
        assert(string_views(out@) =~= o.push(acc@[k as int]@));
        k = k + 1;
        assert(string_views(out@) =~= crate::text::views(acc@).subrange(0, k as int));
    }
    assert(crate::text::views(acc@).subrange(0, acc@.len() as int) =~= crate::text::views(acc@));
    out
}

/// A feed section: the apps a Flathub feed links to, resolved, at most
/// twenty.
pub fn feed_apps(text: &str, appstream: &Catalog) -> (r: Vec<HomeApp>)
    requires
        appstream.wf(),
    ensures
        r@ == resolve_ids_spec(appstream.view_entries(), feed_ids_spec(text@), 20, seq![]),
{
    let ids = feed_ids(text);
    resolve_ids(&ids, appstream, 20)
}

} // verus!
