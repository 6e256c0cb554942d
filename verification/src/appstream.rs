//! The AppStream catalog: application records merged from every catalog
//! file, the rules by which records of the same id combine, and where icons
//! are looked for.

use vstd::prelude::*;
use quick_xml::events::Event;
use crate::appimage::decode_lossy;
use crate::text::{chars_of, has_prefix, has_suffix, string_of, string_of_str, str_eq, str_starts_with};

verus! {

/// One application of the catalog.
#[derive(Debug, Clone, Default)]
pub struct AppInfo {
    pub id: String,
    pub name: String,
    pub summary: String,
    pub description: String,
    pub icon: String,
    pub icon_url: String,
    /// Resolved local file path of the icon (empty when not found).
    pub icon_path: String,
    pub categories: Vec<String>,
    pub keywords: Vec<String>,
    pub screenshots: Vec<String>,
    /// "native", "flatpak", "terra", ...
    pub source: String,
    pub package_name: String,
    pub version: String,
    pub developer: String,
    pub url_homepage: String,
    pub url_bugtracker: String,
    pub url_donation: String,
    pub url_help: String,
    pub url_faq: String,
    pub url_vcs_browser: String,
    pub url_contribute: String,
    pub license: String,
    pub content_rating: String,
    pub is_addon: bool,
    /// Parent application id of an add-on.
    pub extends: String,
    /// The package name was guessed from the id, not read from `<pkgname>`.
    pub pkg_name_guessed: bool,
    /// Every Flatpak remote the id was found in.
    pub remotes: Vec<String>,
    /// The AppStream component type ("desktop-application", "addon", ...).
    pub component_type: String,
    /// The newest release date (`YYYY-MM-DD`), empty when none.
    pub updated: String,
}


/// Two records hold the same text in every field.
pub open spec fn same_record(n: AppInfo, o: AppInfo) -> bool {
    &&& same_core(n, o) && same_links(n, o)
    &&& n.icon == o.icon && n.package_name == o.package_name && n.pkg_name_guessed
        == o.pkg_name_guessed
    &&& n.categories@ == o.categories@ && n.screenshots@ == o.screenshots@ && n.remotes@
        == o.remotes@
}

impl AppInfo {
    /// A copy of the record.
    pub fn clone_info(&self) -> (r: AppInfo)
        ensures
            same_record(r, *self),
    {
        AppInfo {
            id: self.id.clone(),
            name: self.name.clone(),
            summary: self.summary.clone(),
            description: self.description.clone(),
            icon: self.icon.clone(),
            icon_url: self.icon_url.clone(),
            icon_path: self.icon_path.clone(),
            categories: crate::appimage::clone_strings(&self.categories),
            keywords: crate::appimage::clone_strings(&self.keywords),
            screenshots: crate::appimage::clone_strings(&self.screenshots),
            source: self.source.clone(),
            package_name: self.package_name.clone(),
            version: self.version.clone(),
            developer: self.developer.clone(),
            url_homepage: self.url_homepage.clone(),
            url_bugtracker: self.url_bugtracker.clone(),
            url_donation: self.url_donation.clone(),
            url_help: self.url_help.clone(),
            url_faq: self.url_faq.clone(),
            url_vcs_browser: self.url_vcs_browser.clone(),
            url_contribute: self.url_contribute.clone(),
            license: self.license.clone(),
            content_rating: self.content_rating.clone(),
            is_addon: self.is_addon,
            extends: self.extends.clone(),
            pkg_name_guessed: self.pkg_name_guessed,
            remotes: crate::appimage::clone_strings(&self.remotes),
            component_type: self.component_type.clone(),
            updated: self.updated.clone(),
        }
    }
}

// ── Small rules ─────────────────────────────────────────────────────────────

/// Whether a file name is an AppStream catalog (`.xml` or `.xml.gz`).
pub open spec fn is_catalog_name(name: Seq<char>) -> bool {
    has_suffix(name, ".xml.gz"@) || has_suffix(name, ".xml"@)
}

/// Whether a path names an AppStream catalog file.
pub fn is_appstream_file(path: &str) -> (r: bool)
    ensures
        r == is_catalog_name(
            match crate::text::path_file_name(path@) {
                Some(f) => f,
                None => Seq::empty(),
            },
        ),
{
    let name = match crate::text::file_name_of(&chars_of(path)) {
        Some(f) => string_of(&f),
        None => String::new(),
    };
    crate::text::str_ends_with(name.as_str(), ".xml.gz") || crate::text::str_ends_with(
        name.as_str(),
        ".xml",
    )
}

/// `Path::extension` of a file name: the part after its last `.`, unless the
/// only `.` leads the name.
pub open spec fn name_extension(f: Seq<char>) -> Option<Seq<char>> {
    let k = crate::text::last_index_of(f, '.');
    if k <= 0 {
        None
    } else {
        Some(f.subrange(k + 1, f.len() as int))
    }
}

pub open spec fn path_extension(p: Seq<char>) -> Option<Seq<char>> {
    match crate::text::path_file_name(p) {
        Some(f) => name_extension(f),
        None => None,
    }
}

pub fn extension_of(p: &str) -> (r: Option<String>)
    ensures
        match r {
            Some(e) => path_extension(p@) == Some(e@),
            None => path_extension(p@) is None,
        },
{
    match crate::text::file_name_of(&chars_of(p)) {
        Some(f) => {
            let n = f.len();
            match crate::text::last_index(&f, '.') {
                Some(k) => if k == 0 {
                    None
                } else {
                    Some(string_of(&crate::text::subvec(&f, k + 1, n)))
                },
                None => None,
            }
        },
        None => None,
    }
}

/// A plain `.xml` file whose `.xml.gz` twin is also listed is dropped.
pub open spec fn dropped_for_gz(files: Seq<Seq<char>>, p: Seq<char>) -> bool {
    path_extension(p) == Some("xml"@) && exists|j: int|
        0 <= j < files.len() && gz_twin(#[trigger] files[j], p)
}

/// `q` is a `.gz` file whose path without `.gz` is `p`, component by component.
pub open spec fn gz_twin(q: Seq<char>, p: Seq<char>) -> bool {
    path_extension(q) == Some("gz"@) && has_suffix(q, ".gz"@) && same_path_spec(
        q.subrange(0, q.len() - 3),
        p,
    )
}

pub open spec fn kept_files(files: Seq<Seq<char>>, all: Seq<Seq<char>>) -> Seq<Seq<char>>
    decreases files.len(),
{
    if files.len() == 0 {
        Seq::empty()
    } else if dropped_for_gz(all, files.last()) {
        kept_files(files.drop_last(), all)
    } else {
        kept_files(files.drop_last(), all).push(files.last())
    }
}

/// Keep only the `.gz` copy when a directory ships both `appstream.xml` and
/// `appstream.xml.gz`; the order of the rest is kept.
pub fn dedup_prefer_gz(files: &Vec<String>) -> (r: Vec<String>)
    ensures
        crate::appimage::string_views(r@) == kept_files(
            crate::appimage::string_views(files@),
            crate::appimage::string_views(files@),
        ),
{
    let ghost all = crate::appimage::string_views(files@);
    let mut out: Vec<String> = Vec::new();
    let mut i: usize = 0;
    while i < files.len()
        invariant
            i <= files@.len(),
            all == crate::appimage::string_views(files@),
            crate::appimage::string_views(out@) == kept_files(all.subrange(0, i as int), all),
        decreases files@.len() - i,
    {
        let ghost pre = all.subrange(0, i + 1);
        assert(pre.drop_last() =~= all.subrange(0, i as int));
        assert(pre.last() == files@[i as int]@);
        let p = files[i].as_str();
        let is_xml = match extension_of(p) {
            Some(e) => str_eq(e.as_str(), "xml"),
            None => false,
        };
        let mut twin = false;
        if is_xml {
            let pc = chars_of(p);
            let gz = chars_of(".gz");
            let mut j: usize = 0;
            while j < files.len()
                invariant
                    j <= files@.len(),
                    all == crate::appimage::string_views(files@),
                    pc@ == files@[i as int]@,
                    gz@ == ".gz"@,
                    twin == exists|q: int| 0 <= q < j && gz_twin(#[trigger] all[q], pc@),
                decreases files@.len() - j,
            {
                let is_gz = match extension_of(files[j].as_str()) {
                    Some(e) => str_eq(e.as_str(), "gz"),
                    None => false,
                };
                assert(all[j as int] == files@[j as int]@);
                let fj = chars_of(files[j].as_str());
                if is_gz && crate::text::ends_with(&fj, &gz) {
                    proof {
                        reveal_strlit(".gz");
                    }
                    let base = crate::text::subvec(&fj, 0, fj.len() - 3);
                    if same_path(&base, &pc) {
                        twin = true;
                    }
                }
                j = j + 1;
            }
        }
        if !twin {
            let ghost o = crate::appimage::string_views(out@);
            out.push(files[i].clone());
            assert(crate::appimage::string_views(out@) =~= o.push(files@[i as int]@));
        }
        i = i + 1;
    }
    assert(all.subrange(0, files@.len() as int) =~= all);
    out
}

/// The components of a `/`-separated path that name something (empty and
/// `.` components dropped), as `Path::components` yields them.
pub open spec fn named_components(p: Seq<char>) -> Seq<Seq<char>> {
    split_char(p, '/').filter(|c: Seq<char>| c.len() > 0 && c != seq!['.'])
}

/// The first `i` with `flatpak` before it and something after it where
/// component `i` is `appstream`.
pub open spec fn remote_at(comps: Seq<Seq<char>>, i: int) -> Option<Seq<char>>
    decreases comps.len() - i,
{
    if i < 0 || i >= comps.len() {
        None
    } else if comps[i] == "appstream"@ && i > 0 && comps[i - 1] == "flatpak"@ && i + 1
        < comps.len() {
        Some(comps[i + 1])
    } else {
        remote_at(comps, i + 1)
    }
}

/// The Flatpak remote of an AppStream file, from the `…/flatpak/appstream/<remote>/…`
/// layout; empty when the path has another layout.
pub open spec fn flatpak_remote_of(p: Seq<char>) -> Seq<char> {
    match remote_at(named_components(p), 0) {
        Some(r) => r,
        None => Seq::empty(),
    }
}

use crate::text::split_char;

/// The named components of a path.
fn path_components(path: &Vec<char>) -> (r: Vec<Vec<char>>)
    ensures
        crate::text::views(r@) == named_components(path@),
{
    let pieces = crate::text::split(path, '/');
    let ghost ps = crate::text::views(pieces@);
    let ghost pred = |c: Seq<char>| c.len() > 0 && c != seq!['.'];
    let mut comps: Vec<Vec<char>> = Vec::new();
    let mut i: usize = 0;
    assert(ps.subrange(0, 0).filter(pred) =~= Seq::<Seq<char>>::empty());
    while i < pieces.len()
        invariant
            i <= pieces@.len(),
            ps == crate::text::views(pieces@),
            ps == split_char(path@, '/'),
            pred == (|c: Seq<char>| c.len() > 0 && c != seq!['.']),
            crate::text::views(comps@) == ps.subrange(0, i as int).filter(pred),
        decreases pieces@.len() - i,
    {
        proof {
            ps.subrange(0, i as int).lemma_filter_push(ps[i as int], pred);
            assert(ps.subrange(0, i + 1) =~= ps.subrange(0, i as int).push(ps[i as int]));
            assert(ps[i as int] == pieces@[i as int]@);
        }
        let c = &pieces[i];
        let dot = c.len() == 1 && c[0] == '.';
        proof {
            if dot {
                assert(c@ =~= seq!['.']);
            }
            if c@ == seq!['.'] {
                assert(c@.len() == 1 && c@[0] == '.');
            }
        }
        if c.len() > 0 && !dot {
            let ghost o = crate::text::views(comps@);
            comps.push(crate::text::subvec(c, 0, c.len()));
            assert(c@.subrange(0, c@.len() as int) =~= c@);
            assert(crate::text::views(comps@) =~= o.push(c@));
        }
        i = i + 1;
    }
    assert(ps.subrange(0, pieces@.len() as int) =~= ps);
    comps
}

/// A path as `Path` compares it: whether it is absolute, whether it starts
/// with a `.` component, and its named components.
pub open spec fn path_key(p: Seq<char>) -> (bool, bool, Seq<Seq<char>>) {
    let abs = p.len() > 0 && p[0] == '/';
    (abs, !abs && split_char(p, '/')[0] == seq!['.'], named_components(p))
}

/// Whether two paths name the same path, component by component.
pub open spec fn same_path_spec(a: Seq<char>, b: Seq<char>) -> bool {
    path_key(a) == path_key(b)
}

fn same_path(a: &Vec<char>, b: &Vec<char>) -> (r: bool)
    ensures
        r == same_path_spec(a@, b@),
{
    let abs_a = a.len() > 0 && a[0] == '/';
    let abs_b = b.len() > 0 && b[0] == '/';
    let pa = crate::text::split(a, '/');
    let pb = crate::text::split(b, '/');
    proof {
        crate::text::lemma_split_nonempty(a@, '/');
        crate::text::lemma_split_nonempty(b@, '/');
        assert(crate::text::views(pa@)[0] == pa@[0]@);
        assert(crate::text::views(pb@)[0] == pb@[0]@);
    }
    let dot = vec!['.'];
    let dot_a = !abs_a && crate::text::eq(&pa[0], &dot);
    let dot_b = !abs_b && crate::text::eq(&pb[0], &dot);
    assert(dot@ =~= seq!['.']);
    assert(abs_a == path_key(a@).0 && abs_b == path_key(b@).0);
    assert(dot_a == path_key(a@).1 && dot_b == path_key(b@).1);
    if abs_a != abs_b || dot_a != dot_b {
        return false;
    }
    let ca = path_components(a);
    let cb = path_components(b);
    let ghost va = crate::text::views(ca@);
    let ghost vb = crate::text::views(cb@);
    assert(va == path_key(a@).2 && vb == path_key(b@).2);
    if ca.len() != cb.len() {
        assert(va.len() != vb.len());
        return false;
    }
    let mut i: usize = 0;
    while i < ca.len()
        invariant
            i <= ca@.len(),
            ca@.len() == cb@.len(),
            va == crate::text::views(ca@),
            vb == crate::text::views(cb@),
            va == path_key(a@).2 && vb == path_key(b@).2,
            forall|k: int| 0 <= k < i ==> va[k] == vb[k],
        decreases ca@.len() - i,
    {
        assert(va[i as int] == ca@[i as int]@ && vb[i as int] == cb@[i as int]@);
        if !crate::text::eq(&ca[i], &cb[i]) {
            assert(va != vb);
            return false;
        }
        i = i + 1;
    }
    assert(va =~= vb);
    assert(path_key(a@) =~= path_key(b@));
    true
}

pub fn derive_flatpak_remote(path: &str) -> (r: String)
    ensures
        r@ == flatpak_remote_of(path@),
{
    let comps = path_components(&chars_of(path));
    let ghost cs = crate::text::views(comps@);
    let fp = chars_of("flatpak");
    let ap = chars_of("appstream");
    let mut k: usize = 0;
    while k < comps.len()
        invariant
            k <= comps@.len(),
            cs == crate::text::views(comps@),
            cs == named_components(path@),
            fp@ == "flatpak"@,
            ap@ == "appstream"@,
            remote_at(cs, 0) == remote_at(cs, k as int),
        decreases comps@.len() - k,
    {
        assert(cs[k as int] == comps@[k as int]@);
        if k > 0 {
            assert(cs[k - 1] == comps@[k - 1]@);
        }
        if k + 1 < comps.len() {
            assert(cs[k + 1] == comps@[k + 1]@);
        }
        if crate::text::eq(&comps[k], &ap) && k > 0 && crate::text::eq(&comps[k - 1], &fp) && k
            + 1 < comps.len() {
            return string_of(&comps[k + 1]);
        }
        k = k + 1;
    }
    String::new()
}

/// Where a catalog file's entries come from, by its lower-cased path.
pub open spec fn catalog_source_spec(lower: Seq<char>) -> Seq<char> {
    if crate::text::has_sub(lower, "flathub"@) || crate::text::has_sub(lower, "flatpak"@) {
        "flatpak"@
    } else if crate::text::has_sub(lower, "terra"@) {
        "terra"@
    } else {
        "native"@
    }
}

/// The source of the entries of a catalog file ("flatpak", "terra" or
/// "native"), from its path.
pub fn catalog_source(path: &str) -> (r: String)
    ensures
        r@ == catalog_source_spec(crate::text::str_lowercase(path@)),
{
    let lower = crate::text::lowercase(path);
    if crate::text::str_contains(lower.as_str(), "flathub") || crate::text::str_contains(
        lower.as_str(),
        "flatpak",
    ) {
        string_of_str("flatpak")
    } else if crate::text::str_contains(lower.as_str(), "terra") {
        string_of_str("terra")
    } else {
        string_of_str("native")
    }
}

/// The release of Fedora, from `/etc/os-release` (`VERSION_ID=`, quotes
/// removed); "44" when absent.
pub open spec fn fedora_version_spec(lines: Seq<Seq<char>>) -> Seq<char>
    decreases lines.len(),
{
    if lines.len() == 0 {
        "44"@
    } else if has_prefix(lines[0], "VERSION_ID="@) {
        crate::updates::unquoted(lines[0].subrange(11, lines[0].len() as int))
    } else {
        fedora_version_spec(lines.drop_first())
    }
}

pub fn fedora_version(os_release: &str) -> (r: String)
    ensures
        r@ == fedora_version_spec(crate::text::str_lines(os_release@)),
{
    let lines = crate::text::lines(&chars_of(os_release));
    let ghost ls = crate::text::views(lines@);
    let key = chars_of("VERSION_ID=");
    proof {
        reveal_strlit("VERSION_ID=");
    }
    let mut i: usize = 0;
    assert(ls.skip(0) =~= ls);
    while i < lines.len()
        invariant
            i <= lines@.len(),
            ls == crate::text::views(lines@),
            ls == crate::text::str_lines(os_release@),
            key@ == "VERSION_ID="@,
            key@.len() == 11,
            fedora_version_spec(ls) == fedora_version_spec(ls.skip(i as int)),
        decreases lines@.len() - i,
    {
        assert(ls.skip(i as int)[0] == lines@[i as int]@);
        assert(ls.skip(i as int).drop_first() =~= ls.skip(i + 1));
        if crate::text::starts_with(&lines[i], &key) {
            let rest = crate::text::subvec(&lines[i], 11, lines[i].len());
            let t = crate::text::trim_start_char_vec(&rest, '"');
            return string_of(&crate::text::trim_end_char_vec(&t, '"'));
        }
        i = i + 1;
    }
    string_of_str("44")
}

/// The icon directories that depend on the Fedora release.
pub open spec fn versioned_dirs_spec(v: Seq<char>) -> Seq<Seq<char>> {
    let base = "/usr/share/swcatalog/icons/"@;
    let terra = |suffix: Seq<char>, size: Seq<char>| base + "terra"@ + v + suffix + "/"@ + size;
    seq![
        base + "rpmfusion-free-"@ + v + "/64x64"@,
        base + "rpmfusion-nonfree-"@ + v + "/64x64"@,
        terra(Seq::empty(), "64x64"@),
        terra(Seq::empty(), "128x128"@),
        terra("-mesa"@, "64x64"@),
        terra("-mesa"@, "128x128"@),
        terra("-nvidia"@, "64x64"@),
        terra("-nvidia"@, "128x128"@),
        terra("-extras"@, "64x64"@),
        terra("-extras"@, "128x128"@),
        terra("-multimedia"@, "64x64"@),
        terra("-multimedia"@, "128x128"@),
    ]
}

/// `<base><a><v><suffix>/<size>`
fn icon_dir_text(a: &str, v: &str, suffix: &str, size: &str) -> (r: String)
    ensures
        r@ == "/usr/share/swcatalog/icons/"@ + a@ + v@ + suffix@ + "/"@ + size@,
{
    let mut out = chars_of("/usr/share/swcatalog/icons/");
    crate::text::push_str(&mut out, a);
    crate::text::push_str(&mut out, v);
    crate::text::push_str(&mut out, suffix);
    crate::text::push_str(&mut out, "/");
    crate::text::push_str(&mut out, size);
    string_of(&out)
}

/// The icon directories of the RPM Fusion and Terra catalogs of a Fedora
/// release.
pub fn versioned_icon_dirs(fedora_ver: &str) -> (r: Vec<String>)
    ensures
        crate::appimage::string_views(r@) == versioned_dirs_spec(fedora_ver@),
{
    proof {
        reveal_strlit("");
        reveal_strlit("/64x64");
        reveal_strlit("/");
        reveal_strlit("64x64");
    }
    let mut out: Vec<String> = Vec::new();
    out.push(icon_dir_text("rpmfusion-free-", fedora_ver, "", "64x64"));
    out.push(icon_dir_text("rpmfusion-nonfree-", fedora_ver, "", "64x64"));
    out.push(icon_dir_text("terra", fedora_ver, "", "64x64"));
    out.push(icon_dir_text("terra", fedora_ver, "", "128x128"));
    out.push(icon_dir_text("terra", fedora_ver, "-mesa", "64x64"));
    out.push(icon_dir_text("terra", fedora_ver, "-mesa", "128x128"));
    out.push(icon_dir_text("terra", fedora_ver, "-nvidia", "64x64"));
    out.push(icon_dir_text("terra", fedora_ver, "-nvidia", "128x128"));
    out.push(icon_dir_text("terra", fedora_ver, "-extras", "64x64"));
    out.push(icon_dir_text("terra", fedora_ver, "-extras", "128x128"));
    out.push(icon_dir_text("terra", fedora_ver, "-multimedia", "64x64"));
    out.push(icon_dir_text("terra", fedora_ver, "-multimedia", "128x128"));
    let ghost v = fedora_ver@;
    let ghost base = "/usr/share/swcatalog/icons/"@;
    assert(base + "rpmfusion-free-"@ + v + ""@ + "/"@ + "64x64"@ =~= base + "rpmfusion-free-"@ + v
        + "/64x64"@);
    assert(base + "rpmfusion-nonfree-"@ + v + ""@ + "/"@ + "64x64"@ =~= base
        + "rpmfusion-nonfree-"@ + v + "/64x64"@);
    assert(crate::appimage::string_views(out@) =~= versioned_dirs_spec(fedora_ver@));
    out
}


// ── The catalog ─────────────────────────────────────────────────────────────

/// Application records by key: the id, `flatpak:<id>` for a Flatpak entry
/// kept beside a native one, `native:<package>` for a native entry made
/// from a Flatpak's metadata.
#[derive(Debug, Clone, Default)]
pub struct Catalog {
    pub entries: Vec<(String, AppInfo)>,
}

pub open spec fn entry_views(e: Seq<(String, AppInfo)>) -> Seq<(Seq<char>, AppInfo)> {
    e.map_values(|x: (String, AppInfo)| (x.0@, x.1))
}

pub open spec fn unique_keys(e: Seq<(Seq<char>, AppInfo)>) -> bool {
    forall|i: int, j: int| 0 <= i < j < e.len() ==> (#[trigger] e[i]).0 != (#[trigger] e[j]).0
}

pub open spec fn key_index(e: Seq<(Seq<char>, AppInfo)>, k: Seq<char>) -> Option<int> {
    if exists|i: int| 0 <= i < e.len() && (#[trigger] e[i]).0 == k {
        Some(choose|i: int| 0 <= i < e.len() && (#[trigger] e[i]).0 == k)
    } else {
        None
    }
}

pub open spec fn lookup(e: Seq<(Seq<char>, AppInfo)>, k: Seq<char>) -> Option<AppInfo> {
    match key_index(e, k) {
        Some(i) => Some(e[i].1),
        None => None,
    }
}

/// The entries after `k` is set to `a`: in place when present, else at the end.
pub open spec fn put(e: Seq<(Seq<char>, AppInfo)>, k: Seq<char>, a: AppInfo) -> Seq<
    (Seq<char>, AppInfo),
> {
    match key_index(e, k) {
        Some(i) => e.update(i, (k, a)),
        None => e.push((k, a)),
    }
}

/// The entries after `k` is taken out (the others keep their order).
pub open spec fn take(e: Seq<(Seq<char>, AppInfo)>, k: Seq<char>) -> Seq<(Seq<char>, AppInfo)> {
    match key_index(e, k) {
        Some(i) => e.remove(i),
        None => e,
    }
}

pub proof fn lemma_key_index(e: Seq<(Seq<char>, AppInfo)>, k: Seq<char>, i: int)
    requires
        unique_keys(e),
        0 <= i < e.len(),
        e[i].0 == k,
    ensures
        key_index(e, k) == Some(i),
{
}

pub proof fn lemma_put_unique(e: Seq<(Seq<char>, AppInfo)>, k: Seq<char>, a: AppInfo)
    requires
        unique_keys(e),
    ensures
        unique_keys(put(e, k, a)),
        lookup(put(e, k, a), k) == Some(a),
{
    let r = put(e, k, a);
    match key_index(e, k) {
        Some(i) => {
            assert forall|p: int, q: int| 0 <= p < q < r.len() implies (#[trigger] r[p]).0 != (
            #[trigger] r[q]).0 by {
                if p != i && q != i {
                    assert(r[p] == e[p] && r[q] == e[q]);
                }
            }
            lemma_key_index(r, k, i);
        },
        None => {
            assert forall|p: int, q: int| 0 <= p < q < r.len() implies (#[trigger] r[p]).0 != (
            #[trigger] r[q]).0 by {
                if q == e.len() {
                    assert(r[p] == e[p]);
                } else {
                    assert(r[p] == e[p] && r[q] == e[q]);
                }
            }
            lemma_key_index(r, k, e.len() as int);
        },
    }
}

impl Catalog {
    pub open spec fn view_entries(&self) -> Seq<(Seq<char>, AppInfo)> {
        entry_views(self.entries@)
    }

    /// Keys are unique.
    pub open spec fn wf(&self) -> bool {
        unique_keys(self.view_entries())
    }

    pub fn new() -> (c: Catalog)
        ensures
            c.wf(),
            c.view_entries().len() == 0,
    {
        let c = Catalog { entries: Vec::new() };
        assert(c.view_entries() =~= Seq::<(Seq<char>, AppInfo)>::empty());
        c
    }

    /// The position of `key`.
    pub fn find(&self, key: &str) -> (r: Option<usize>)
        requires
            self.wf(),
        ensures
            match r {
                Some(i) => key_index(self.view_entries(), key@) == Some(i as int),
                None => key_index(self.view_entries(), key@) is None,
            },
    {
        let ghost e = self.view_entries();
        let mut i: usize = 0;
        while i < self.entries.len()
            invariant
                i <= self.entries@.len(),
                e == self.view_entries(),
                unique_keys(e),
                forall|j: int| 0 <= j < i ==> (#[trigger] e[j]).0 != key@,
            decreases self.entries@.len() - i,
        {
            assert(e[i as int].0 == self.entries@[i as int].0@);
            if str_eq(self.entries[i].0.as_str(), key) {
                proof {
                    lemma_key_index(e, key@, i as int);
                }
                return Some(i);
            }
            i = i + 1;
        }
        None
    }

    /// The record under `key`.
    pub fn get(&self, key: &str) -> (r: Option<&AppInfo>)
        requires
            self.wf(),
        ensures
            match r {
                Some(a) => lookup(self.view_entries(), key@) == Some(*a),
                None => lookup(self.view_entries(), key@) is None,
            },
    {
        match self.find(key) {
            Some(i) => Some(&self.entries[i].1),
            None => None,
        }
    }

    /// Set the record under `key`.
    pub fn insert(&mut self, key: String, app: AppInfo)
        requires
            old(self).wf(),
        ensures
            final(self).wf(),
            final(self).view_entries() == put(old(self).view_entries(), key@, app),
    {
        let ghost e = self.view_entries();
        proof {
            lemma_put_unique(e, key@, app);
        }
        match self.find(key.as_str()) {
            Some(i) => {
                let k2 = key;
                self.entries.set(i, (k2, app));
                assert(self.view_entries() =~= e.update(i as int, (key@, app)));
            },
            None => {
                let k2 = key;
                self.entries.push((k2, app));
                assert(self.view_entries() =~= e.push((key@, app)));
            },
        }
    }

    /// Take out the record under `key`.
    pub fn remove(&mut self, key: &str) -> (r: Option<AppInfo>)
        requires
            old(self).wf(),
        ensures
            final(self).wf(),
            r == lookup(old(self).view_entries(), key@),
            final(self).view_entries() == take(old(self).view_entries(), key@),
    {
        let ghost e = self.view_entries();
        match self.find(key) {
            Some(i) => {
                let (_, a) = self.entries.remove(i);
                assert(self.view_entries() =~= e.remove(i as int));
                assert forall|p: int, q: int|
                    0 <= p < q < e.remove(i as int).len() implies (#[trigger] e.remove(
                    i as int,
                )[p]).0 != (#[trigger] e.remove(i as int)[q]).0 by {
                    let r = e.remove(i as int);
                    if p < i {
                        assert(r[p] == e[p]);
                    } else {
                        assert(r[p] == e[p + 1]);
                    }
                    if q < i {
                        assert(r[q] == e[q]);
                    } else {
                        assert(r[q] == e[q + 1]);
                    }
                }
                Some(a)
            },
            None => None,
        }
    }
}


/// A read after a write gives back what was written; other keys are left
/// as they were.
pub proof fn law_catalog_read_after_write(
    e: Seq<(Seq<char>, AppInfo)>,
    k: Seq<char>,
    a: AppInfo,
    other: Seq<char>,
)
    requires
        unique_keys(e),
        other != k,
    ensures
        lookup(put(e, k, a), k) == Some(a),
        lookup(put(e, k, a), other) == lookup(e, other),
{
    lemma_put_unique(e, k, a);
    let r = put(e, k, a);
    match key_index(e, other) {
        Some(j) => {
            assert(r[j] == e[j]);
            lemma_key_index(r, other, j);
        },
        None => {
            if exists|q: int| 0 <= q < r.len() && (#[trigger] r[q]).0 == other {
                let q = choose|q: int| 0 <= q < r.len() && (#[trigger] r[q]).0 == other;
                if q < e.len() {
                    match key_index(e, k) {
                        Some(i) => {
                            if q != i {
                                assert(r[q] == e[q]);
                            }
                        },
                        None => {
                            assert(r[q] == e[q]);
                        },
                    }
                }
            }
        },
    }
}

/// A key taken out is no longer found.
pub proof fn law_catalog_take(e: Seq<(Seq<char>, AppInfo)>, k: Seq<char>)
    requires
        unique_keys(e),
    ensures
        lookup(take(e, k), k) is None,
{
    match key_index(e, k) {
        Some(i) => {
            let r = e.remove(i);
            if exists|q: int| 0 <= q < r.len() && (#[trigger] r[q]).0 == k {
                let q = choose|q: int| 0 <= q < r.len() && (#[trigger] r[q]).0 == k;
                if q < i {
                    assert(r[q] == e[q]);
                } else {
                    assert(r[q] == e[q + 1]);
                }
            }
        },
        None => {},
    }
}

// ── Record rules ────────────────────────────────────────────────────────────

/// Which link a `<url type=...>` names: 0 homepage, 1 bugtracker,
/// 2 donation, 3 help, 4 faq, 5 vcs-browser, 6 contribute, else 7.
pub open spec fn url_slot(t: Seq<char>) -> int {
    if t == "homepage"@ {
        0
    } else if t == "bugtracker"@ {
        1
    } else if t == "donation"@ {
        2
    } else if t == "help"@ {
        3
    } else if t == "faq"@ {
        4
    } else if t == "vcs-browser"@ {
        5
    } else if t == "contribute"@ {
        6
    } else {
        7
    }
}

pub open spec fn set_if(cond: bool, old: String, new: String) -> String {
    if cond && old@.len() == 0 {
        new
    } else {
        old
    }
}

/// Set the link of a `<url type=...>` element, unless the text is empty or
/// the link is already set.
pub fn set_app_url(app: &mut AppInfo, url_type: &str, text: String)
    ensures
        ({
            let o = *old(app);
            let n = *final(app);
            let k = url_slot(url_type@);
            let ok = text@.len() > 0;
            &&& n.url_homepage == set_if(ok && k == 0, o.url_homepage, text)
            &&& n.url_bugtracker == set_if(ok && k == 1, o.url_bugtracker, text)
            &&& n.url_donation == set_if(ok && k == 2, o.url_donation, text)
            &&& n.url_help == set_if(ok && k == 3, o.url_help, text)
            &&& n.url_faq == set_if(ok && k == 4, o.url_faq, text)
            &&& n.url_vcs_browser == set_if(ok && k == 5, o.url_vcs_browser, text)
            &&& n.url_contribute == set_if(ok && k == 6, o.url_contribute, text)
            &&& same_but_links(n, o)
        }),
{
    if text.as_str().is_empty() {
        return;
    }
    if str_eq(url_type, "homepage") {
        if app.url_homepage.as_str().is_empty() {
            app.url_homepage = text;
        }
    } else if str_eq(url_type, "bugtracker") {
        if app.url_bugtracker.as_str().is_empty() {
            app.url_bugtracker = text;
        }
    } else if str_eq(url_type, "donation") {
        if app.url_donation.as_str().is_empty() {
            app.url_donation = text;
        }
    } else if str_eq(url_type, "help") {
        if app.url_help.as_str().is_empty() {
            app.url_help = text;
        }
    } else if str_eq(url_type, "faq") {
        if app.url_faq.as_str().is_empty() {
            app.url_faq = text;
        }
    } else if str_eq(url_type, "vcs-browser") {
        if app.url_vcs_browser.as_str().is_empty() {
            app.url_vcs_browser = text;
        }
    } else if str_eq(url_type, "contribute") {
        if app.url_contribute.as_str().is_empty() {
            app.url_contribute = text;
        }
    }
}

/// Every field but the seven links is the same.
pub open spec fn same_but_links(n: AppInfo, o: AppInfo) -> bool {
    &&& n.id == o.id && n.name == o.name && n.summary == o.summary && n.description
        == o.description
    &&& n.icon == o.icon && n.icon_url == o.icon_url && n.icon_path == o.icon_path
    &&& n.categories == o.categories && n.keywords == o.keywords && n.screenshots
        == o.screenshots
    &&& n.source == o.source && n.package_name == o.package_name && n.version == o.version
    &&& n.developer == o.developer && n.license == o.license && n.content_rating
        == o.content_rating
    &&& n.is_addon == o.is_addon && n.extends == o.extends && n.pkg_name_guessed
        == o.pkg_name_guessed
    &&& n.remotes == o.remotes && n.component_type == o.component_type && n.updated
        == o.updated
}

pub open spec fn filled(t: String, s: String) -> String {
    if t@.len() == 0 {
        s
    } else {
        t
    }
}

/// Each link of `t` that is empty is taken from `s`.
pub open spec fn links_filled(n: AppInfo, t: AppInfo, s: AppInfo) -> bool {
    &&& n.url_homepage == filled(t.url_homepage, s.url_homepage)
    &&& n.url_bugtracker == filled(t.url_bugtracker, s.url_bugtracker)
    &&& n.url_donation == filled(t.url_donation, s.url_donation)
    &&& n.url_help == filled(t.url_help, s.url_help)
    &&& n.url_faq == filled(t.url_faq, s.url_faq)
    &&& n.url_vcs_browser == filled(t.url_vcs_browser, s.url_vcs_browser)
    &&& n.url_contribute == filled(t.url_contribute, s.url_contribute)
}

/// Take each link `target` lacks from `source`.
pub fn fill_missing_app_links(target: &mut AppInfo, source: &AppInfo)
    ensures
        links_filled(*final(target), *old(target), *source),
        same_but_links(*final(target), *old(target)),
{
    if target.url_homepage.as_str().is_empty() {
        target.url_homepage = source.url_homepage.clone();
    }
    if target.url_bugtracker.as_str().is_empty() {
        target.url_bugtracker = source.url_bugtracker.clone();
    }
    if target.url_donation.as_str().is_empty() {
        target.url_donation = source.url_donation.clone();
    }
    if target.url_help.as_str().is_empty() {
        target.url_help = source.url_help.clone();
    }
    if target.url_faq.as_str().is_empty() {
        target.url_faq = source.url_faq.clone();
    }
    if target.url_vcs_browser.as_str().is_empty() {
        target.url_vcs_browser = source.url_vcs_browser.clone();
    }
    if target.url_contribute.as_str().is_empty() {
        target.url_contribute = source.url_contribute.clone();
    }
}

/// `r` followed by each name of `extra` that it does not hold yet, in order.
pub open spec fn merged_remotes(r: Seq<Seq<char>>, extra: Seq<Seq<char>>) -> Seq<Seq<char>>
    decreases extra.len(),
{
    if extra.len() == 0 {
        r
    } else {
        let m = merged_remotes(r, extra.drop_last());
        if m.contains(extra.last()) {
            m
        } else {
            m.push(extra.last())
        }
    }
}

/// Add to `remotes` the remotes recorded under `key`, so that an app found
/// in several remotes keeps all of them.
pub fn merge_remotes(cat: &Catalog, key: &str, remotes: &mut Vec<String>)
    requires
        cat.wf(),
    ensures
        crate::appimage::string_views(final(remotes)@) == match lookup(cat.view_entries(), key@) {
            Some(ex) => merged_remotes(
                crate::appimage::string_views(old(remotes)@),
                crate::appimage::string_views(ex.remotes@),
            ),
            None => crate::appimage::string_views(old(remotes)@),
        },
{
    let ghost r0 = crate::appimage::string_views(remotes@);
    match cat.get(key) {
        Some(ex) => {
            let ghost xs = crate::appimage::string_views(ex.remotes@);
            let mut i: usize = 0;
            while i < ex.remotes.len()
                invariant
                    i <= ex.remotes@.len(),
                    xs == crate::appimage::string_views(ex.remotes@),
                    crate::appimage::string_views(remotes@) == merged_remotes(
                        r0,
                        xs.subrange(0, i as int),
                    ),
                decreases ex.remotes@.len() - i,
            {
                let ghost pre = xs.subrange(0, i + 1);
                assert(pre.drop_last() =~= xs.subrange(0, i as int));
                assert(pre.last() == ex.remotes@[i as int]@);
                let ghost cur = crate::appimage::string_views(remotes@);
                let mut found = false;
                let mut j: usize = 0;
                while j < remotes.len()
                    invariant
                        i < ex.remotes@.len(),
                        j <= remotes@.len(),
                        cur == crate::appimage::string_views(remotes@),
                        found == exists|q: int| 0 <= q < j && cur[q] == ex.remotes@[i as int]@,
                    decreases remotes@.len() - j,
                {
                    assert(cur[j as int] == remotes@[j as int]@);
                    if str_eq(remotes[j].as_str(), ex.remotes[i].as_str()) {
                        found = true;
                    }
                    j = j + 1;
                }
                if !found {
                    remotes.push(ex.remotes[i].clone());
                    assert(crate::appimage::string_views(remotes@) =~= cur.push(
                        ex.remotes@[i as int]@,
                    ));
                } else {
                    assert(cur.contains(ex.remotes@[i as int]@));
                }
                i = i + 1;
            }
            assert(xs.subrange(0, ex.remotes@.len() as int) =~= xs);
        },
        None => {},
    }
}


// ── Completing a component ──────────────────────────────────────────────────

/// A `<pkgname>` without the packaging-transition tails `-rename-…` and
/// `-cli-compat-…` (so "zed-rename-zeditor" gives "zed").
pub open spec fn clean_package_name_spec(t: Seq<char>) -> Seq<char> {
    let a = crate::text::find_sub(t, "-rename-"@);
    let b = crate::text::find_sub(t, "-cli-compat-"@);
    if a >= 0 {
        t.subrange(0, a)
    } else if b >= 0 {
        t.subrange(0, b)
    } else {
        t
    }
}

pub fn clean_package_name(text: String) -> (r: String)
    ensures
        r@ == clean_package_name_spec(text@),
{
    let v = chars_of(text.as_str());
    match crate::text::find_str(&v, &chars_of("-rename-")) {
        Some(k) => string_of(&crate::text::subvec(&v, 0, k)),
        None => match crate::text::find_str(&v, &chars_of("-cli-compat-")) {
            Some(k) => string_of(&crate::text::subvec(&v, 0, k)),
            None => text,
        },
    }
}

/// The package name guessed for a native entry without `<pkgname>`: the
/// last `.`-piece of its id (without `.desktop`), lower-cased.
pub open spec fn guessed_package(id: Seq<char>) -> Seq<char> {
    crate::text::str_lowercase(
        crate::text::after_last(crate::text::trim_end_str(id, ".desktop"@), '.'),
    )
}

/// Fields not touched when a record is completed or merged.
pub open spec fn same_core(n: AppInfo, o: AppInfo) -> bool {
    same_core_but_updated(n, o) && n.updated == o.updated
}

pub open spec fn same_core_but_updated(n: AppInfo, o: AppInfo) -> bool {
    &&& n.id == o.id && n.name == o.name && n.summary == o.summary && n.description
        == o.description
    &&& n.icon_url == o.icon_url && n.icon_path == o.icon_path
    &&& n.keywords@ == o.keywords@ && n.source == o.source && n.version == o.version
    &&& n.developer == o.developer && n.license == o.license && n.content_rating
        == o.content_rating
    &&& n.is_addon == o.is_addon && n.extends == o.extends && n.component_type
        == o.component_type
}

pub open spec fn same_links(n: AppInfo, o: AppInfo) -> bool {
    &&& n.url_homepage == o.url_homepage && n.url_bugtracker == o.url_bugtracker
    &&& n.url_donation == o.url_donation && n.url_help == o.url_help && n.url_faq == o.url_faq
    &&& n.url_vcs_browser == o.url_vcs_browser && n.url_contribute == o.url_contribute
}

/// A component at its closing tag: a Flatpak's icon is `<id>.png` and its
/// package name defaults to its id; a native entry without a package name
/// gets a guessed one.
pub open spec fn completed(n: AppInfo, a: AppInfo) -> bool {
    &&& same_core(n, a) && same_links(n, a)
    &&& n.categories@ == a.categories@ && n.screenshots@ == a.screenshots@ && n.remotes@
        == a.remotes@
    &&& if a.source@ == "flatpak"@ {
        &&& n.icon@ == a.id@ + ".png"@
        &&& n.package_name@ == (if a.package_name@.len() == 0 {
            a.id@
        } else {
            a.package_name@
        })
        &&& n.pkg_name_guessed == a.pkg_name_guessed
    } else if a.package_name@.len() == 0 {
        &&& n.icon == a.icon
        &&& n.package_name@ == guessed_package(a.id@)
        &&& n.pkg_name_guessed
    } else {
        &&& n.icon == a.icon && n.package_name == a.package_name
        &&& n.pkg_name_guessed == a.pkg_name_guessed
    }
}

pub fn complete_component(app: &mut AppInfo)
    ensures
        completed(*final(app), *old(app)),
{
    if str_eq(app.source.as_str(), "flatpak") {
        let mut icon = chars_of(app.id.as_str());
        crate::text::push_str(&mut icon, ".png");
        app.icon = string_of(&icon);
        if app.package_name.as_str().is_empty() {
            app.package_name = app.id.clone();
        }
    } else if app.package_name.as_str().is_empty() {
        let clean = crate::text::trim_end_str_vec(&chars_of(app.id.as_str()), &chars_of(".desktop"));
        let last = crate::text::after_last_vec(&clean, '.');
        app.package_name = crate::text::lowercase(string_of(&last).as_str());
        app.pkg_name_guessed = true;
    }
}

/// The key of a Flatpak entry kept beside a native one.
pub open spec fn flatpak_key(id: Seq<char>) -> Seq<char> {
    "flatpak:"@ + id
}

pub fn flatpak_key_of(id: &str) -> (r: String)
    ensures
        r@ == flatpak_key(id@),
{
    let mut k = chars_of("flatpak:");
    crate::text::push_str(&mut k, id);
    string_of(&k)
}

/// A native record enriched by the Flatpak record of the same id: the
/// Flatpak's screenshots when it has any, its icon when the native has none,
/// its links where the native lacks them.
pub open spec fn enriched_native(n: AppInfo, ex: AppInfo, fp: AppInfo) -> bool {
    &&& same_core(n, ex)
    &&& n.categories@ == ex.categories@ && n.remotes@ == ex.remotes@
    &&& n.package_name == ex.package_name && n.pkg_name_guessed == ex.pkg_name_guessed
    &&& n.screenshots@ == (if fp.screenshots@.len() > 0 {
        fp.screenshots@
    } else {
        ex.screenshots@
    })
    &&& n.icon == (if ex.icon@.len() == 0 && fp.icon@.len() > 0 {
        fp.icon
    } else {
        ex.icon
    })
    &&& links_filled(n, ex, fp)
}

/// `n` is `a` with the remotes recorded under `k` in `e` merged in.
pub open spec fn with_remotes_of(n: AppInfo, a: AppInfo, e: Seq<(Seq<char>, AppInfo)>, k: Seq<char>) -> bool {
    &&& same_core(n, a) && same_links(n, a)
    &&& n.categories@ == a.categories@ && n.screenshots@ == a.screenshots@
    &&& n.icon == a.icon && n.package_name == a.package_name && n.pkg_name_guessed
        == a.pkg_name_guessed
    &&& crate::appimage::string_views(n.remotes@) == match lookup(e, k) {
        Some(ex) => merged_remotes(
            crate::appimage::string_views(a.remotes@),
            crate::appimage::string_views(ex.remotes@),
        ),
        None => crate::appimage::string_views(a.remotes@),
    }
}

/// A record replacing one of the same source kind: an explicit package name
/// is never replaced by a guessed one, and categories and icon are kept when
/// the new record lacks them.
pub open spec fn same_kind_merge(n: AppInfo, a: AppInfo, ex: AppInfo) -> bool {
    let explicit = !ex.pkg_name_guessed && ex.package_name@.len() > 0;
    &&& same_core(n, a) && same_links(n, a) && n.screenshots@ == a.screenshots@
    &&& if a.pkg_name_guessed && explicit {
        n.package_name == ex.package_name && !n.pkg_name_guessed
    } else {
        n.package_name == a.package_name && n.pkg_name_guessed == a.pkg_name_guessed
    }
    &&& n.categories@ == (if a.categories@.len() == 0 && ex.categories@.len() > 0 {
        ex.categories@
    } else {
        a.categories@
    })
    &&& n.icon == (if a.icon@.len() == 0 && ex.icon@.len() > 0 {
        ex.icon
    } else {
        a.icon
    })
}

/// How a completed component enters the catalog.
pub open spec fn added(after: Seq<(Seq<char>, AppInfo)>, before: Seq<(Seq<char>, AppInfo)>, a: AppInfo) -> bool {
    let id = a.id@;
    let fk = flatpak_key(id);
    match lookup(before, id) {
        None => after == put(before, id, a),
        Some(ex) => if ex.source@ != "flatpak"@ && a.source@ == "flatpak"@ {
            exists|n: AppInfo, f: AppInfo|
                #![trigger enriched_native(n, ex, a), with_remotes_of(f, a, put(before, id, n), fk)]
                enriched_native(n, ex, a) && with_remotes_of(f, a, put(before, id, n), fk) && after
                    == put(put(before, id, n), fk, f)
        } else if ex.source@ == "flatpak"@ && a.source@ != "flatpak"@ {
            exists|f: AppInfo|
                #![trigger with_remotes_of(f, ex, put(take(before, id), id, a), fk)]
                with_remotes_of(f, ex, put(take(before, id), id, a), fk) && after == put(
                    put(take(before, id), id, a),
                    fk,
                    f,
                )
        } else {
            exists|m: AppInfo, n: AppInfo|
                #![trigger same_kind_merge(m, a, ex), with_remotes_of(n, m, before, id)]
                same_kind_merge(m, a, ex) && with_remotes_of(n, m, before, id) && after == put(
                    before,
                    id,
                    n,
                )
        },
    }
}

/// Enter a completed component into the catalog. A Flatpak record of an id
/// that has a native record enriches it and is kept under `flatpak:<id>`; a
/// native record of an id held by a Flatpak takes its place and moves the
/// Flatpak to `flatpak:<id>`; otherwise the new record replaces the old.
/// Remotes seen before for the same key are kept.
pub fn add_component(cat: &mut Catalog, app: AppInfo)
    requires
        old(cat).wf(),
    ensures
        final(cat).wf(),
        added(final(cat).view_entries(), old(cat).view_entries(), app),
{
    let ghost before = cat.view_entries();
    let id = app.id.clone();
    let fk = flatpak_key_of(id.as_str());
    let existing = match cat.get(id.as_str()) {
        Some(ex) => Some((str_eq(ex.source.as_str(), "flatpak"), ex.pkg_name_guessed, ex.package_name.clone())),
        None => None,
    };
    let app_fp = str_eq(app.source.as_str(), "flatpak");
    match existing {
        None => {
            cat.insert(id, app);
        },
        Some((ex_fp, ex_guessed, ex_pkg)) => {
            let ghost ex = lookup(before, id@)->0;
            if !ex_fp && app_fp {
                let i = cat.find(id.as_str()).unwrap();
                let mut n = cat.entries[i].1.clone_info();
                if app.screenshots.len() > 0 {
                    n.screenshots = crate::appimage::clone_strings(&app.screenshots);
                }
                if n.icon.as_str().is_empty() && !app.icon.as_str().is_empty() {
                    n.icon = app.icon.clone();
                }
                fill_missing_app_links(&mut n, &app);
                let ghost nn = n;
                cat.insert(id, n);
                let mut f = app;
                merge_remotes(cat, fk.as_str(), &mut f.remotes);
                let ghost ff = f;
                cat.insert(fk, f);
                assert(enriched_native(nn, ex, app));
                assert(with_remotes_of(ff, app, put(before, id@, nn), fk@));
            } else if ex_fp && !app_fp {
                let old_fp = cat.remove(id.as_str()).unwrap();
                cat.insert(id, app);
                let mut f = old_fp;
                merge_remotes(cat, fk.as_str(), &mut f.remotes);
                let ghost ff = f;
                cat.insert(fk, f);
                assert(with_remotes_of(ff, ex, put(take(before, id@), id@, app), fk@));
            } else {
                let mut m = app;
                if m.pkg_name_guessed && !ex_guessed && !ex_pkg.as_str().is_empty() {
                    m.package_name = ex_pkg;
                    m.pkg_name_guessed = false;
                }
                let i = cat.find(id.as_str()).unwrap();
                if m.categories.len() == 0 && cat.entries[i].1.categories.len() > 0 {
                    m.categories = crate::appimage::clone_strings(&cat.entries[i].1.categories);
                }
                if m.icon.as_str().is_empty() && !cat.entries[i].1.icon.as_str().is_empty() {
                    m.icon = cat.entries[i].1.icon.clone();
                }
                let ghost mm = m;
                merge_remotes(cat, id.as_str(), &mut m.remotes);
                let ghost n = m;
                cat.insert(id, m);
                assert(same_kind_merge(mm, app, ex));
                assert(with_remotes_of(n, mm, before, id@));
            }
        },
    }
}


// ── Catalogs built by several files ─────────────────────────────────────────

pub proof fn lemma_take_unique(e: Seq<(Seq<char>, AppInfo)>, x: Seq<char>)
    requires
        unique_keys(e),
    ensures
        unique_keys(take(e, x)),
{
    match key_index(e, x) {
        Some(i) => {
            let u = e.remove(i);
            assert forall|p: int, q: int| 0 <= p < q < u.len() implies (#[trigger] u[p]).0 != (
            #[trigger] u[q]).0 by {
                let pp = if p < i { p } else { p + 1 };
                let qq = if q < i { q } else { q + 1 };
                assert(u[p] == e[pp] && u[q] == e[qq]);
            }
        },
        None => {},
    }
}

/// Taking a key out leaves the others as they were.
pub proof fn lemma_take_other(e: Seq<(Seq<char>, AppInfo)>, x: Seq<char>, y: Seq<char>)
    requires
        unique_keys(e),
        x != y,
    ensures
        unique_keys(take(e, x)),
        lookup(take(e, x), y) == lookup(e, y),
{
    lemma_take_unique(e, x);
    match key_index(e, x) {
        Some(i) => {
            let u = e.remove(i);
            match key_index(e, y) {
                Some(j) => {
                    let jj = if j < i { j } else { j - 1 };
                    assert(u[jj] == e[j]);
                    lemma_key_index(u, y, jj);
                },
                None => {
                    if exists|q: int| 0 <= q < u.len() && (#[trigger] u[q]).0 == y {
                        let q = choose|q: int| 0 <= q < u.len() && (#[trigger] u[q]).0 == y;
                        let qq = if q < i { q } else { q + 1 };
                        assert(u[q] == e[qq]);
                    }
                },
            }
        },
        None => {},
    }
}

pub proof fn lemma_put_other(e: Seq<(Seq<char>, AppInfo)>, x: Seq<char>, a: AppInfo, y: Seq<char>)
    requires
        unique_keys(e),
    ensures
        unique_keys(put(e, x, a)),
        lookup(put(e, x, a), x) == Some(a),
        x != y ==> lookup(put(e, x, a), y) == lookup(e, y),
{
    lemma_put_unique(e, x, a);
    if x != y {
        law_catalog_read_after_write(e, x, a, y);
    }
}

proof fn lemma_flatpak_key_injective(a: Seq<char>, b: Seq<char>)
    ensures
        flatpak_key(a) == flatpak_key(b) ==> a == b,
        flatpak_key(a) != a,
{
    reveal_strlit("flatpak:");
    if flatpak_key(a) == flatpak_key(b) {
        assert(flatpak_key(a).subrange(8, flatpak_key(a).len() as int) =~= a);
        assert(flatpak_key(b).subrange(8, flatpak_key(b).len() as int) =~= b);
    }
    assert(flatpak_key(a).len() != a.len());
}

/// A catalog built by entering `apps` in turn: `es[t + 1]` is `es[t]` with
/// `apps[t]` entered (see `added`).
pub open spec fn catalog_run(es: Seq<Seq<(Seq<char>, AppInfo)>>, apps: Seq<AppInfo>) -> bool {
    es.len() == apps.len() + 1 && forall|t: int| 0 <= t < apps.len() ==> #[trigger] added(
        es[t + 1],
        es[t],
        apps[t],
    )
}

pub open spec fn is_fp(a: AppInfo) -> bool {
    a.source@ == "flatpak"@
}

/// What the catalog holds under `k` and `flatpak:<k>` once native records
/// (`nb`) or Flatpak records (`fb`) of id `k` have been entered.
spec fn kept_inv(e: Seq<(Seq<char>, AppInfo)>, k: Seq<char>, nb: bool, fb: bool) -> bool {
    &&& nb ==> (lookup(e, k) matches Some(x) && !is_fp(x))
    &&& (fb && !nb) ==> (lookup(e, k) matches Some(x) && is_fp(x))
    &&& (nb && fb) ==> (lookup(e, flatpak_key(k)) matches Some(x) && is_fp(x))
    &&& (lookup(e, k) matches Some(x) ==> if is_fp(x) {
        fb
    } else {
        nb
    })
}

proof fn lemma_kept_step(
    before: Seq<(Seq<char>, AppInfo)>,
    after: Seq<(Seq<char>, AppInfo)>,
    a: AppInfo,
    k: Seq<char>,
    nb: bool,
    fb: bool,
)
    requires
        unique_keys(before),
        added(after, before, a),
        a.id@ != flatpak_key(k),
        flatpak_key(a.id@) != k,
        kept_inv(before, k, nb, fb),
    ensures
        kept_inv(
            after,
            k,
            nb || (a.id@ == k && !is_fp(a)),
            fb || (a.id@ == k && is_fp(a)),
        ),
{
    let id = a.id@;
    let fk = flatpak_key(id);
    let kk = flatpak_key(k);
    lemma_flatpak_key_injective(id, k);
    lemma_flatpak_key_injective(k, k);
    reveal_strlit("flatpak");
    match lookup(before, id) {
        None => {
            lemma_put_other(before, id, a, k);
            lemma_put_other(before, id, a, kk);
        },
        Some(ex) => {
            if !is_fp(ex) && is_fp(a) {
                let (n, f) = choose|n: AppInfo, f: AppInfo|
                    enriched_native(n, ex, a) && with_remotes_of(f, a, put(before, id, n), fk)
                        && after == put(put(before, id, n), fk, f);
                let b1 = put(before, id, n);
                lemma_put_other(before, id, n, k);
                lemma_put_other(before, id, n, kk);
                lemma_put_other(b1, fk, f, k);
                lemma_put_other(b1, fk, f, kk);
                lemma_put_other(b1, fk, f, id);
            } else if is_fp(ex) && !is_fp(a) {
                let f = choose|f: AppInfo|
                    with_remotes_of(f, ex, put(take(before, id), id, a), fk) && after == put(
                        put(take(before, id), id, a),
                        fk,
                        f,
                    );
                let b0 = take(before, id);
                lemma_take_unique(before, id);
                if id != k {
                    lemma_take_other(before, id, k);
                }
                if id != kk {
                    lemma_take_other(before, id, kk);
                }
                let b1 = put(b0, id, a);
                lemma_put_other(b0, id, a, k);
                lemma_put_other(b0, id, a, kk);
                lemma_put_other(b1, fk, f, k);
                lemma_put_other(b1, fk, f, kk);
                lemma_put_other(b1, fk, f, id);
            } else {
                let (m, n) = choose|m: AppInfo, n: AppInfo|
                    same_kind_merge(m, a, ex) && with_remotes_of(n, m, before, id) && after == put(
                        before,
                        id,
                        n,
                    );
                lemma_put_other(before, id, n, k);
                lemma_put_other(before, id, n, kk);
            }
        },
    }
}

proof fn lemma_kept_run(
    es: Seq<Seq<(Seq<char>, AppInfo)>>,
    apps: Seq<AppInfo>,
    k: Seq<char>,
    t: int,
)
    requires
        catalog_run(es, apps),
        es[0].len() == 0,
        forall|u: int| 0 <= u < es.len() ==> unique_keys(#[trigger] es[u]),
        forall|u: int|
            0 <= u < apps.len() ==> (#[trigger] apps[u]).id@ != flatpak_key(k) && flatpak_key(
                apps[u].id@,
            ) != k,
        0 <= t <= apps.len(),
    ensures
        kept_inv(
            es[t],
            k,
            exists|i: int| 0 <= i < t && (#[trigger] apps[i]).id@ == k && !is_fp(apps[i]),
            exists|i: int| 0 <= i < t && (#[trigger] apps[i]).id@ == k && is_fp(apps[i]),
        ),
    decreases t,
{
    if t > 0 {
        lemma_kept_run(es, apps, k, t - 1);
        let nb = exists|i: int| 0 <= i < t - 1 && (#[trigger] apps[i]).id@ == k && !is_fp(apps[i]);
        let fb = exists|i: int| 0 <= i < t - 1 && (#[trigger] apps[i]).id@ == k && is_fp(apps[i]);
        let u = t - 1;
        assert(added(es[u + 1], es[u], apps[u]));
        assert(es[u + 1] == es[t]);
        lemma_kept_step(es[t - 1], es[t], apps[t - 1], k, nb, fb);
        let nb2 = exists|i: int| 0 <= i < t && (#[trigger] apps[i]).id@ == k && !is_fp(apps[i]);
        let fb2 = exists|i: int| 0 <= i < t && (#[trigger] apps[i]).id@ == k && is_fp(apps[i]);
        assert(nb2 == (nb || (apps[t - 1].id@ == k && !is_fp(apps[t - 1]))));
        assert(fb2 == (fb || (apps[t - 1].id@ == k && is_fp(apps[t - 1]))));
    } else {
        assert(lookup(es[0], k) is None);
    }
}

/// Across any number of catalog files, once a native record and a Flatpak
/// record of the same id have been entered, in either order, the native one
/// is found under the id and the Flatpak one under `flatpak:<id>`: neither is
/// dropped. (Ids that are themselves `flatpak:<id>`, or whose `flatpak:`
/// key is the id, are left out.)
pub proof fn law_catalog_keeps_native_and_flatpak(
    es: Seq<Seq<(Seq<char>, AppInfo)>>,
    apps: Seq<AppInfo>,
    k: Seq<char>,
    i: int,
    j: int,
)
    requires
        catalog_run(es, apps),
        es[0].len() == 0,
        forall|u: int| 0 <= u < es.len() ==> unique_keys(#[trigger] es[u]),
        0 <= i < apps.len() && apps[i].id@ == k && !is_fp(apps[i]),
        0 <= j < apps.len() && apps[j].id@ == k && is_fp(apps[j]),
        forall|u: int|
            0 <= u < apps.len() ==> (#[trigger] apps[u]).id@ != flatpak_key(k) && flatpak_key(
                apps[u].id@,
            ) != k,
    ensures
        lookup(es.last(), k) matches Some(x) && !is_fp(x),
        lookup(es.last(), flatpak_key(k)) matches Some(x) && is_fp(x),
{
    lemma_kept_run(es, apps, k, apps.len() as int);
    assert(apps[i].id@ == k && !is_fp(apps[i]));
    assert(apps[j].id@ == k && is_fp(apps[j]));
}

// ── Reading a catalog file ──────────────────────────────────────────────────

/// An event of an AppStream XML file: an element start with its attributes
/// (name and raw value), a text node (entities resolved, trimmed), or an
/// element end.
#[derive(Debug, Clone)]
pub enum XmlEvent {
    Start { name: String, attrs: Vec<(String, String)> },
    Text(String),
    End(String),
}

/// Which element the text that comes next belongs to.
#[derive(Debug, Clone, Copy, PartialEq, Eq, Structural, Default)]
pub struct Flags {
    pub id: bool,
    pub name: bool,
    pub summary: bool,
    pub description: bool,
    pub pkgname: bool,
    pub developer: bool,
    pub developer_block: bool,
    pub category: bool,
    pub keyword: bool,
    pub icon_cached: bool,
    pub icon_remote: bool,
    pub screenshot_image: bool,
    pub extends: bool,
    pub releases: bool,
}

pub open spec fn attr_views(a: Seq<(String, String)>) -> Seq<(Seq<char>, Seq<char>)> {
    a.map_values(|e: (String, String)| (e.0@, e.1@))
}

/// An attribute `xml:lang` is present (a translation, which is skipped).
pub open spec fn has_lang(a: Seq<(Seq<char>, Seq<char>)>) -> bool {
    exists|i: int| 0 <= i < a.len() && (#[trigger] a[i]).0 == "xml:lang"@
}

/// The value of the first attribute called `key`.
pub open spec fn first_attr(a: Seq<(Seq<char>, Seq<char>)>, key: Seq<char>) -> Option<Seq<char>>
    decreases a.len(),
{
    if a.len() == 0 {
        None
    } else if a[0].0 == key {
        Some(a[0].1)
    } else {
        first_attr(a.drop_first(), key)
    }
}

pub open spec fn is_local_icon_type(v: Seq<char>) -> bool {
    v == "cached"@ || v == "stock"@ || v == "local"@
}

/// Some `type` attribute names a local icon (`cached`, `stock`, `local`).
pub open spec fn local_icon(a: Seq<(Seq<char>, Seq<char>)>) -> bool {
    exists|i: int| 0 <= i < a.len() && (#[trigger] a[i]).0 == "type"@ && is_local_icon_type(a[i].1)
}

/// Some `type` attribute is `remote`.
pub open spec fn remote_icon(a: Seq<(Seq<char>, Seq<char>)>) -> bool {
    exists|i: int| 0 <= i < a.len() && (#[trigger] a[i]).0 == "type"@ && a[i].1 == "remote"@
}

pub open spec fn lowered(v: Option<Seq<char>>) -> Option<Seq<char>> {
    match v {
        Some(x) => Some(crate::text::str_lowercase(x)),
        None => None,
    }
}

/// The element kinds whose start sets a flag: 1 id, 2 name, 3 summary,
/// 4 description, 5 pkgname, 6 developer, 7 developer_name, 8 icon,
/// 9 category, 10 keyword, 11 image, 12 extends, 13 releases, else 0.
pub open spec fn element_slot(name: Seq<char>) -> int {
    if name == "id"@ {
        1
    } else if name == "name"@ {
        2
    } else if name == "summary"@ {
        3
    } else if name == "description"@ {
        4
    } else if name == "pkgname"@ {
        5
    } else if name == "developer"@ {
        6
    } else if name == "developer_name"@ {
        7
    } else if name == "icon"@ {
        8
    } else if name == "category"@ {
        9
    } else if name == "keyword"@ {
        10
    } else if name == "image"@ {
        11
    } else if name == "extends"@ {
        12
    } else if name == "releases"@ {
        13
    } else {
        0
    }
}

/// The flags after an element starts inside a component.
pub open spec fn start_flags(f: Flags, name: Seq<char>, a: Seq<(Seq<char>, Seq<char>)>) -> Flags {
    let lang_ok = !has_lang(a);
    let k = element_slot(name);
    if k == 1 {
        Flags { id: true, ..f }
    } else if k == 2 {
        if f.developer_block {
            Flags { developer: lang_ok, ..f }
        } else {
            Flags { name: lang_ok, ..f }
        }
    } else if k == 3 {
        Flags { summary: lang_ok, ..f }
    } else if k == 4 {
        Flags { description: lang_ok, ..f }
    } else if k == 5 {
        Flags { pkgname: true, ..f }
    } else if k == 6 {
        Flags { developer_block: true, ..f }
    } else if k == 7 {
        Flags { developer: lang_ok, ..f }
    } else if k == 8 {
        Flags { icon_cached: local_icon(a), icon_remote: remote_icon(a), ..f }
    } else if k == 9 {
        Flags { category: true, ..f }
    } else if k == 10 {
        Flags { keyword: lang_ok, ..f }
    } else if k == 11 {
        let t = lowered(first_attr(a, "type"@));
        Flags { screenshot_image: t is None || t == Some("source"@), ..f }
    } else if k == 12 {
        Flags { extends: true, ..f }
    } else if k == 13 {
        Flags { releases: true, ..f }
    } else {
        f
    }
}

fn element_slot_of(name: &str) -> (k: u8)
    ensures
        k as int == element_slot(name@),
{
    if str_eq(name, "id") {
        1
    } else if str_eq(name, "name") {
        2
    } else if str_eq(name, "summary") {
        3
    } else if str_eq(name, "description") {
        4
    } else if str_eq(name, "pkgname") {
        5
    } else if str_eq(name, "developer") {
        6
    } else if str_eq(name, "developer_name") {
        7
    } else if str_eq(name, "icon") {
        8
    } else if str_eq(name, "category") {
        9
    } else if str_eq(name, "keyword") {
        10
    } else if str_eq(name, "image") {
        11
    } else if str_eq(name, "extends") {
        12
    } else if str_eq(name, "releases") {
        13
    } else {
        0
    }
}

/// Every text flag cleared, as at the end of any element (the developer
/// block and the release list end only with their own elements).
pub open spec fn cleared(f: Flags) -> Flags {
    Flags {
        id: false,
        name: false,
        summary: false,
        description: false,
        pkgname: false,
        developer: false,
        category: false,
        keyword: false,
        icon_cached: false,
        icon_remote: false,
        screenshot_image: false,
        extends: false,
        ..f
    }
}

/// The release date an element `<release>` gives: its `date`, else its
/// `timestamp` read as seconds since the epoch.
pub open spec fn release_date(a: Seq<(Seq<char>, Seq<char>)>) -> Option<Seq<char>> {
    match first_attr(a, "date"@) {
        Some(d) => Some(d),
        None => match first_attr(a, "timestamp"@) {
            Some(t) => match crate::num::parse_i64_spec(t) {
                Some(ts) => Some(crate::date::epoch_date_spec(ts as int)),
                None => None,
            },
            None => None,
        },
    }
}

/// Lexicographic `>` on character sequences (the order of `String`).
pub open spec fn text_gt(a: Seq<char>, b: Seq<char>) -> bool
    decreases a.len(),
{
    if a.len() == 0 {
        false
    } else if b.len() == 0 {
        true
    } else if a[0] != b[0] {
        a[0] > b[0]
    } else {
        text_gt(a.drop_first(), b.drop_first())
    }
}

pub fn text_greater(a: &str, b: &str) -> (r: bool)
    ensures
        r == text_gt(a@, b@),
{
    let x = chars_of(a);
    let y = chars_of(b);
    let mut i: usize = 0;
    assert(x@.skip(0) =~= x@);
    assert(y@.skip(0) =~= y@);
    while i < x.len() && i < y.len()
        invariant
            i <= x@.len(),
            i <= y@.len(),
            x@ == a@,
            y@ == b@,
            text_gt(a@, b@) == text_gt(x@.skip(i as int), y@.skip(i as int)),
        decreases x@.len() - i,
    {
        if x[i] != y[i] {
            return x[i] > y[i];
        }
        assert(x@.skip(i as int).drop_first() =~= x@.skip(i + 1));
        assert(y@.skip(i as int).drop_first() =~= y@.skip(i + 1));
        i = i + 1;
    }
    i < x.len()
}

fn attrs_have_lang(a: &Vec<(String, String)>) -> (r: bool)
    ensures
        r == has_lang(attr_views(a@)),
{
    let ghost v = attr_views(a@);
    let mut i: usize = 0;
    while i < a.len()
        invariant
            i <= a@.len(),
            v == attr_views(a@),
            forall|j: int| 0 <= j < i ==> (#[trigger] v[j]).0 != "xml:lang"@,
        decreases a@.len() - i,
    {
        if str_eq(a[i].0.as_str(), "xml:lang") {
            assert(v[i as int].0 == "xml:lang"@);
            return true;
        }
        i = i + 1;
    }
    false
}

fn attr_value(a: &Vec<(String, String)>, key: &str) -> (r: Option<String>)
    ensures
        match r {
            Some(x) => first_attr(attr_views(a@), key@) == Some(x@),
            None => first_attr(attr_views(a@), key@) is None,
        },
{
    let ghost v = attr_views(a@);
    let mut i: usize = 0;
    assert(v.skip(0) =~= v);
    while i < a.len()
        invariant
            i <= a@.len(),
            v == attr_views(a@),
            first_attr(v, key@) == first_attr(v.skip(i as int), key@),
        decreases a@.len() - i,
    {
        assert(v.skip(i as int)[0] == v[i as int]);
        assert(v.skip(i as int).drop_first() =~= v.skip(i + 1));
        if str_eq(a[i].0.as_str(), key) {
            return Some(a[i].1.clone());
        }
        i = i + 1;
    }
    None
}

fn icon_types(a: &Vec<(String, String)>) -> (r: (bool, bool))
    ensures
        r.0 == local_icon(attr_views(a@)),
        r.1 == remote_icon(attr_views(a@)),
{
    let ghost v = attr_views(a@);
    let mut local = false;
    let mut remote = false;
    let mut i: usize = 0;
    while i < a.len()
        invariant
            i <= a@.len(),
            v == attr_views(a@),
            local == exists|j: int|
                0 <= j < i && (#[trigger] v[j]).0 == "type"@ && is_local_icon_type(v[j].1),
            remote == exists|j: int| 0 <= j < i && (#[trigger] v[j]).0 == "type"@ && v[j].1
                == "remote"@,
        decreases a@.len() - i,
    {
        assert(v[i as int] == (a@[i as int].0@, a@[i as int].1@));
        if str_eq(a[i].0.as_str(), "type") {
            let val = a[i].1.as_str();
            if str_eq(val, "cached") || str_eq(val, "stock") || str_eq(val, "local") {
                local = true;
            }
            if str_eq(val, "remote") {
                remote = true;
            }
        }
        i = i + 1;
    }
    (local, remote)
}


/// A fresh component record: from `source`, with the remote of its file,
/// an add-on when its type is `addon`.
pub open spec fn fresh_component(a: AppInfo, source: Seq<char>, remote: Seq<char>, kind: Seq<char>) -> bool {
    &&& a.id@.len() == 0 && a.name@.len() == 0 && a.summary@.len() == 0 && a.description@.len()
        == 0
    &&& a.icon@.len() == 0 && a.icon_url@.len() == 0 && a.icon_path@.len() == 0
    &&& a.categories@.len() == 0 && a.keywords@.len() == 0 && a.screenshots@.len() == 0
    &&& a.source@ == source && a.package_name@.len() == 0 && a.version@.len() == 0
    &&& a.developer@.len() == 0 && a.license@.len() == 0 && a.content_rating@.len() == 0
    &&& a.url_homepage@.len() == 0 && a.url_bugtracker@.len() == 0 && a.url_donation@.len()
        == 0 && a.url_help@.len() == 0
    &&& a.url_faq@.len() == 0 && a.url_vcs_browser@.len() == 0 && a.url_contribute@.len() == 0
    &&& a.is_addon == (kind == "addon"@) && a.component_type@ == kind
    &&& a.extends@.len() == 0 && !a.pkg_name_guessed && a.updated@.len() == 0
    &&& crate::appimage::string_views(a.remotes@) == (if remote.len() == 0 {
        Seq::empty()
    } else {
        seq![remote]
    })
}

/// The state of reading one catalog file.
pub struct CatalogParser {
    /// "flatpak", "terra" or "native", from the file's path.
    pub source: String,
    /// The Flatpak remote of the file (empty for other sources).
    pub remote: String,
    /// The component being read.
    pub current: Option<AppInfo>,
    pub flags: Flags,
    /// The `type` of the `<url>` element being read.
    pub url_type: Option<String>,
}

/// The parser after an element starts.
pub open spec fn started(n: CatalogParser, o: CatalogParser, name: Seq<char>, a: Seq<(Seq<char>, Seq<char>)>) -> bool {
    &&& n.source == o.source && n.remote == o.remote
    &&& if name == "component"@ {
        &&& n.flags == o.flags && n.url_type == o.url_type
        &&& n.current matches Some(c) && fresh_component(
            c,
            o.source@,
            o.remote@,
            match lowered(first_attr(a, "type"@)) {
                Some(k) => k,
                None => Seq::empty(),
            },
        )
    } else if o.current is None {
        n.current == o.current && n.flags == o.flags && n.url_type == o.url_type
    } else if name == "url"@ {
        &&& n.current == o.current && n.flags == o.flags
        &&& match (n.url_type, lowered(first_attr(a, "type"@))) {
            (Some(t), Some(u)) => t@ == u,
            (None, None) => true,
            _ => false,
        }
    } else if name == "release"@ && o.flags.releases {
        &&& n.flags == o.flags && n.url_type == o.url_type
        &&& (o.current matches Some(c) && n.current matches Some(m) && same_record_but_updated(
            m,
            c,
        ) && m.updated@ == match release_date(a) {
            Some(d) => if text_gt(d, c.updated@) {
                d
            } else {
                c.updated@
            },
            None => c.updated@,
        })
    } else {
        n.current == o.current && n.url_type == o.url_type && n.flags == start_flags(
            o.flags,
            name,
            a,
        )
    }
}

pub open spec fn same_record_but_updated(n: AppInfo, o: AppInfo) -> bool {
    &&& same_core_but_updated(n, o) && same_links(n, o)
    &&& n.icon == o.icon && n.package_name == o.package_name && n.pkg_name_guessed
        == o.pkg_name_guessed
    &&& n.categories@ == o.categories@ && n.screenshots@ == o.screenshots@ && n.remotes@
        == o.remotes@
}

impl CatalogParser {
    pub fn new(source: String, remote: String) -> (p: CatalogParser)
        ensures
            p.source == source && p.remote == remote && p.current is None,
            p.flags == Flags::default_flags() && p.url_type is None,
    {
        CatalogParser { source, remote, current: None, flags: Flags::none(), url_type: None }
    }

    /// An element starts.
    #[verifier::spinoff_prover]
    pub fn on_start(&mut self, name: &str, attrs: &Vec<(String, String)>)
        ensures
            started(*final(self), *old(self), name@, attr_views(attrs@)),
    {
        if str_eq(name, "component") {
            let c = new_component(&self.source, &self.remote, attrs);
            self.current = Some(c);
            return;
        }
        if self.current.is_none() {
            return;
        }
        if str_eq(name, "url") {
            self.url_type = match attr_value(attrs, "type") {
                Some(t) => Some(crate::text::lowercase(t.as_str())),
                None => None,
            };
            return;
        }
        if str_eq(name, "release") && self.flags.releases {
            let ghost o = *self;
            let c = self.current.take().unwrap();
            let ghost c0 = c;
            let m = with_release(c, attrs);
            self.current = Some(m);
            assert(o.current == Some(c0));
            return;
        }
        self.flags = next_flags(self.flags, name, attrs);
    }
}

fn new_component(source: &String, remote: &String, attrs: &Vec<(String, String)>) -> (c: AppInfo)
    ensures
        fresh_component(
            c,
            source@,
            remote@,
            match lowered(first_attr(attr_views(attrs@), "type"@)) {
                Some(k) => k,
                None => Seq::empty(),
            },
        ),
{
    let kind = match attr_value(attrs, "type") {
        Some(t) => crate::text::lowercase(t.as_str()),
        None => String::new(),
    };
    let mut remotes: Vec<String> = Vec::new();
    if !remote.as_str().is_empty() {
        remotes.push(remote.clone());
    }
    assert(crate::appimage::string_views(remotes@) =~= (if remote@.len() == 0 {
        Seq::<Seq<char>>::empty()
    } else {
        seq![remote@]
    }));
    AppInfo {
        id: String::new(),
        name: String::new(),
        summary: String::new(),
        description: String::new(),
        icon: String::new(),
        icon_url: String::new(),
        icon_path: String::new(),
        categories: Vec::new(),
        keywords: Vec::new(),
        screenshots: Vec::new(),
        source: source.clone(),
        package_name: String::new(),
        version: String::new(),
        developer: String::new(),
        url_homepage: String::new(),
        url_bugtracker: String::new(),
        url_donation: String::new(),
        url_help: String::new(),
        url_faq: String::new(),
        url_vcs_browser: String::new(),
        url_contribute: String::new(),
        license: String::new(),
        content_rating: String::new(),
        is_addon: str_eq(kind.as_str(), "addon"),
        extends: String::new(),
        pkg_name_guessed: false,
        remotes,
        component_type: kind,
        updated: String::new(),
    }
}

/// A component after a `<release>` element: its newest release date kept.
#[verifier::spinoff_prover]
#[verifier::rlimit(50)]
fn with_release(c: AppInfo, attrs: &Vec<(String, String)>) -> (m: AppInfo)
    ensures
        same_record_but_updated(m, c),
        m.updated@ == match release_date(attr_views(attrs@)) {
            Some(d) => if text_gt(d, c.updated@) {
                d
            } else {
                c.updated@
            },
            None => c.updated@,
        },
{
    let date = match attr_value(attrs, "date") {
        Some(d) => Some(d),
        None => match attr_value(attrs, "timestamp") {
            Some(t) => match crate::num::parse_i64(&chars_of(t.as_str())) {
                Some(ts) => crate::date::epoch_to_date(ts),
                None => None,
            },
            None => None,
        },
    };
    let mut c = c;
    match date {
        Some(d) => {
            if text_greater(d.as_str(), c.updated.as_str()) {
                c.updated = d;
            }
        },
        None => {},
    }
    c
}

#[verifier::spinoff_prover]
#[verifier::rlimit(100)]
fn next_flags(f: Flags, name: &str, attrs: &Vec<(String, String)>) -> (r: Flags)
    ensures
        r == start_flags(f, name@, attr_views(attrs@)),
{
    let mut f = f;
    let lang_ok = !attrs_have_lang(attrs);
    let k = element_slot_of(name);
    if k == 1 {
        f.id = true;
    } else if k == 2 {
        if f.developer_block {
            f.developer = lang_ok;
        } else {
            f.name = lang_ok;
        }
    } else if k == 3 {
        f.summary = lang_ok;
    } else if k == 4 {
        f.description = lang_ok;
    } else if k == 5 {
        f.pkgname = true;
    } else if k == 6 {
        f.developer_block = true;
    } else if k == 7 {
        f.developer = lang_ok;
    } else if k == 8 {
        let (local, remote) = icon_types(attrs);
        f.icon_cached = local;
        f.icon_remote = remote;
    } else if k == 9 {
        f.category = true;
    } else if k == 10 {
        f.keyword = lang_ok;
    } else if k == 11 {
        let t = match attr_value(attrs, "type") {
            Some(t) => Some(crate::text::lowercase(t.as_str())),
            None => None,
        };
        f.screenshot_image = match &t {
            None => true,
            Some(x) => str_eq(x.as_str(), "source"),
        };
    } else if k == 12 {
        f.extends = true;
    } else if k == 13 {
        f.releases = true;
    }
    f
}

impl Flags {
    pub open spec fn default_flags() -> Flags {
        Flags {
            id: false,
            name: false,
            summary: false,
            description: false,
            pkgname: false,
            developer: false,
            developer_block: false,
            category: false,
            keyword: false,
            icon_cached: false,
            icon_remote: false,
            screenshot_image: false,
            extends: false,
            releases: false,
        }
    }

    pub fn none() -> (f: Flags)
        ensures
            f == Flags::default_flags(),
    {
        Flags {
            id: false,
            name: false,
            summary: false,
            description: false,
            pkgname: false,
            developer: false,
            developer_block: false,
            category: false,
            keyword: false,
            icon_cached: false,
            icon_remote: false,
            screenshot_image: false,
            extends: false,
            releases: false,
        }
    }
}


/// Which field a text node fills: 1 id, 2 name, 3 summary, 4 description,
/// 5 package name, 6 developer, 7 icon, 8 icon URL, 9 category, 10 keyword,
/// 11 screenshot, 12 link, 13 extends, else 0 (the text is dropped).
pub open spec fn text_slot(c: AppInfo, f: Flags, has_url: bool, text: Seq<char>) -> int {
    if f.id && c.id@.len() == 0 {
        1
    } else if f.name && c.name@.len() == 0 {
        2
    } else if f.summary && c.summary@.len() == 0 {
        3
    } else if f.description && c.description@.len() == 0 {
        4
    } else if f.pkgname && c.package_name@.len() == 0 {
        5
    } else if f.developer && c.developer@.len() == 0 {
        6
    } else if f.icon_cached && c.icon@.len() == 0 {
        7
    } else if f.icon_remote && c.icon_url@.len() == 0 {
        8
    } else if f.category {
        9
    } else if f.keyword {
        10
    } else if f.screenshot_image && text.len() > 0 {
        11
    } else if has_url {
        12
    } else if f.extends && c.extends@.len() == 0 {
        13
    } else {
        0
    }
}

/// The record after a text node fills slot `k` (links aside).
pub open spec fn text_record(m: AppInfo, c: AppInfo, k: int, text: String) -> bool {
    &&& m.id == (if k == 1 {
        text
    } else {
        c.id
    })
    &&& m.name == (if k == 2 {
        text
    } else {
        c.name
    })
    &&& m.summary == (if k == 3 {
        text
    } else {
        c.summary
    })
    &&& m.description == (if k == 4 {
        text
    } else {
        c.description
    })
    &&& m.package_name@ == (if k == 5 {
        clean_package_name_spec(text@)
    } else {
        c.package_name@
    })
    &&& m.developer == (if k == 6 {
        text
    } else {
        c.developer
    })
    &&& m.icon == (if k == 7 {
        text
    } else {
        c.icon
    })
    &&& m.icon_url == (if k == 8 {
        text
    } else {
        c.icon_url
    })
    &&& m.categories@ == (if k == 9 {
        c.categories@.push(text)
    } else {
        c.categories@
    })
    &&& m.keywords@ == (if k == 10 {
        c.keywords@.push(text)
    } else {
        c.keywords@
    })
    &&& m.screenshots@ == (if k == 11 && has_prefix(text@, "http"@) {
        c.screenshots@.push(text)
    } else {
        c.screenshots@
    })
    &&& m.extends == (if k == 13 {
        text
    } else {
        c.extends
    })
    &&& m.icon_path == c.icon_path && m.source == c.source && m.version == c.version
    &&& m.license == c.license && m.content_rating == c.content_rating && m.is_addon
        == c.is_addon
    &&& m.pkg_name_guessed == c.pkg_name_guessed && m.remotes@ == c.remotes@
    &&& m.component_type == c.component_type && m.updated == c.updated
}

/// The flags after a text node fills slot `k`: that slot's flag is done.
pub open spec fn text_flags(f: Flags, k: int) -> Flags {
    if k == 1 {
        Flags { id: false, ..f }
    } else if k == 2 {
        Flags { name: false, ..f }
    } else if k == 3 {
        Flags { summary: false, ..f }
    } else if k == 4 {
        Flags { description: false, ..f }
    } else if k == 5 {
        Flags { pkgname: false, ..f }
    } else if k == 6 {
        Flags { developer: false, ..f }
    } else if k == 7 {
        Flags { icon_cached: false, ..f }
    } else if k == 8 {
        Flags { icon_remote: false, ..f }
    } else if k == 9 {
        Flags { category: false, ..f }
    } else if k == 10 {
        Flags { keyword: false, ..f }
    } else if k == 11 {
        Flags { screenshot_image: false, ..f }
    } else if k == 13 {
        Flags { extends: false, ..f }
    } else {
        f
    }
}

/// The parser after a text node.
pub open spec fn texted(n: CatalogParser, o: CatalogParser, text: String) -> bool {
    &&& n.source == o.source && n.remote == o.remote
    &&& match o.current {
        None => n.current is None && n.flags == o.flags && n.url_type == o.url_type,
        Some(c) => {
            let k = text_slot(c, o.flags, o.url_type is Some, text@);
            &&& n.flags == text_flags(o.flags, k)
            &&& n.url_type == (if k == 12 {
                None
            } else {
                o.url_type
            })
            &&& n.current matches Some(m) && text_record(m, c, k, text) && if k == 12 {
                let slot = url_slot(o.url_type->0@);
                let ok = text@.len() > 0;
                &&& m.url_homepage == set_if(ok && slot == 0, c.url_homepage, text)
                &&& m.url_bugtracker == set_if(ok && slot == 1, c.url_bugtracker, text)
                &&& m.url_donation == set_if(ok && slot == 2, c.url_donation, text)
                &&& m.url_help == set_if(ok && slot == 3, c.url_help, text)
                &&& m.url_faq == set_if(ok && slot == 4, c.url_faq, text)
                &&& m.url_vcs_browser == set_if(ok && slot == 5, c.url_vcs_browser, text)
                &&& m.url_contribute == set_if(ok && slot == 6, c.url_contribute, text)
            } else {
                same_links(m, c)
            }
        },
    }
}

fn text_slot_of(c: &AppInfo, f: Flags, has_url: bool, text: &str) -> (k: u8)
    ensures
        k as int == text_slot(*c, f, has_url, text@),
{
    if f.id && c.id.as_str().is_empty() {
        1
    } else if f.name && c.name.as_str().is_empty() {
        2
    } else if f.summary && c.summary.as_str().is_empty() {
        3
    } else if f.description && c.description.as_str().is_empty() {
        4
    } else if f.pkgname && c.package_name.as_str().is_empty() {
        5
    } else if f.developer && c.developer.as_str().is_empty() {
        6
    } else if f.icon_cached && c.icon.as_str().is_empty() {
        7
    } else if f.icon_remote && c.icon_url.as_str().is_empty() {
        8
    } else if f.category {
        9
    } else if f.keyword {
        10
    } else if f.screenshot_image && !text.is_empty() {
        11
    } else if has_url {
        12
    } else if f.extends && c.extends.as_str().is_empty() {
        13
    } else {
        0
    }
}

#[verifier::spinoff_prover]
#[verifier::rlimit(60)]
fn fill_text(c: &mut AppInfo, k: u8, text: String)
    requires
        k != 12,
    ensures
        text_record(*final(c), *old(c), k as int, text),
        same_links(*final(c), *old(c)),
{
    if k == 1 {
        c.id = text;
    } else if k == 2 {
        c.name = text;
    } else if k == 3 {
        c.summary = text;
    } else if k == 4 {
        c.description = text;
    } else if k == 5 {
        c.package_name = clean_package_name(text);
    } else if k == 6 {
        c.developer = text;
    } else if k == 7 {
        c.icon = text;
    } else if k == 8 {
        c.icon_url = text;
    } else if k == 9 {
        c.categories.push(text);
    } else if k == 10 {
        c.keywords.push(text);
    } else if k == 11 {
        if str_starts_with(text.as_str(), "http") {
            c.screenshots.push(text);
        }
    } else if k == 13 {
        c.extends = text;
    }
}

#[verifier::rlimit(50)]
fn done_flags(f: Flags, k: u8) -> (r: Flags)
    ensures
        r == text_flags(f, k as int),
{
    let mut f = f;
    if k == 1 {
        f.id = false;
    } else if k == 2 {
        f.name = false;
    } else if k == 3 {
        f.summary = false;
    } else if k == 4 {
        f.description = false;
    } else if k == 5 {
        f.pkgname = false;
    } else if k == 6 {
        f.developer = false;
    } else if k == 7 {
        f.icon_cached = false;
    } else if k == 8 {
        f.icon_remote = false;
    } else if k == 9 {
        f.category = false;
    } else if k == 10 {
        f.keyword = false;
    } else if k == 11 {
        f.screenshot_image = false;
    } else if k == 13 {
        f.extends = false;
    }
    f
}

/// The element kinds whose end matters: 1 developer, 2 releases,
/// 3 component, else 0.
pub open spec fn end_slot(name: Seq<char>) -> int {
    if name == "developer"@ {
        1
    } else if name == "releases"@ {
        2
    } else if name == "component"@ {
        3
    } else {
        0
    }
}

fn end_slot_of(name: &str) -> (k: u8)
    ensures
        k as int == end_slot(name@),
{
    if str_eq(name, "developer") {
        1
    } else if str_eq(name, "releases") {
        2
    } else if str_eq(name, "component") {
        3
    } else {
        0
    }
}

/// The parser after an element ends; a finished component enters `cat`.
pub open spec fn ended(
    n: CatalogParser,
    o: CatalogParser,
    name: Seq<char>,
    after: Seq<(Seq<char>, AppInfo)>,
    before: Seq<(Seq<char>, AppInfo)>,
) -> bool {
    let k = end_slot(name);
    let f = if k == 1 {
        Flags { developer_block: false, ..o.flags }
    } else if k == 2 {
        Flags { releases: false, ..o.flags }
    } else {
        o.flags
    };
    &&& n.source == o.source && n.remote == o.remote
    &&& n.flags == cleared(f) && n.url_type is None
    &&& if k == 3 {
        &&& n.current is None
        &&& match o.current {
            Some(c) => if c.id@.len() > 0 {
                exists|d: AppInfo| #![trigger completed(d, c)] completed(d, c) && added(after, before, d)
            } else {
                after == before
            },
            None => after == before,
        }
    } else {
        n.current == o.current && after == before
    }
}

impl CatalogParser {
    /// A text node.
    pub fn on_text(&mut self, text: String)
        ensures
            texted(*final(self), *old(self), text),
    {
        if self.current.is_none() {
            return;
        }
        let mut c = self.current.take().unwrap();
        let k = text_slot_of(&c, self.flags, self.url_type.is_some(), text.as_str());
        if k == 12 {
            let t = self.url_type.take().unwrap();
            set_app_url(&mut c, t.as_str(), text);
        } else {
            fill_text(&mut c, k, text);
        }
        self.flags = done_flags(self.flags, k);
        self.current = Some(c);
    }

    /// An element ends.
    pub fn on_end(&mut self, name: &str, cat: &mut Catalog)
        requires
            old(cat).wf(),
        ensures
            final(cat).wf(),
            ended(*final(self), *old(self), name@, final(cat).view_entries(), old(cat).view_entries()),
    {
        let k = end_slot_of(name);
        if k == 1 {
            self.flags.developer_block = false;
        } else if k == 2 {
            self.flags.releases = false;
        } else if k == 3 {
            match self.current.take() {
                Some(c) => {
                    if !c.id.as_str().is_empty() {
                        let ghost c0 = c;
                        let mut d = c;
                        complete_component(&mut d);
                        let ghost dd = d;
                        add_component(cat, d);
                        assert(completed(dd, c0));
                    }
                },
                None => {},
            }
        }
        self.flags = Flags {
            id: false,
            name: false,
            summary: false,
            description: false,
            pkgname: false,
            developer: false,
            category: false,
            keyword: false,
            icon_cached: false,
            icon_remote: false,
            screenshot_image: false,
            extends: false,
            ..self.flags
        };
        self.url_type = None;
    }

    /// Feed one event of the file.
    pub fn feed(&mut self, ev: XmlEvent, cat: &mut Catalog)
        requires
            old(cat).wf(),
        ensures
            final(cat).wf(),
            match ev {
                XmlEvent::Start { name, attrs } => started(*final(self), *old(self), name@, attr_views(attrs@))
                    && final(cat).view_entries() == old(cat).view_entries(),
                XmlEvent::Text(t) => texted(*final(self), *old(self), t)
                    && final(cat).view_entries() == old(cat).view_entries(),
                XmlEvent::End(name) => ended(
                    *final(self),
                    *old(self),
                    name@,
                    final(cat).view_entries(),
                    old(cat).view_entries(),
                ),
            },
    {
        match ev {
            XmlEvent::Start { name, attrs } => self.on_start(name.as_str(), &attrs),
            XmlEvent::Text(t) => self.on_text(t),
            XmlEvent::End(name) => self.on_end(name.as_str(), cat),
        }
    }
}


// ── Reading a catalog file's bytes ──────────────────────────────────────────

/// The bytes a gzip stream decodes to, as `flate2::read::GzDecoder` yields
/// them: up to its end, or up to the first error.
pub uninterp spec fn gunzip_of(d: Seq<u8>) -> Seq<u8>;

/// `flate2::read::GzDecoder` read to its end (`Read::read_to_end`): the
/// decoded bytes, named by `gunzip_of`; on a decoding error, those decoded
/// before it.
#[verifier::external_body]
fn gunzip(d: &[u8]) -> (r: Vec<u8>)
    ensures
        r@ == gunzip_of(d@),
{
    let mut out = Vec::new();
    let _ = std::io::Read::read_to_end(&mut flate2::read::GzDecoder::new(d), &mut out);
    out
}

/// The events `quick_xml` reads from a document with its text trimmed and
/// its empty elements expanded into a start and an end: element starts with
/// their attributes (name and raw value, read as UTF-8 with replacement),
/// text with entities resolved, element ends; up to the end of the
/// document or the first error. Other events are skipped.
pub uninterp spec fn xml_events_of(d: Seq<u8>) -> Seq<XmlEvent>;

/// `quick_xml::Reader` over the bytes (`trim_text`, `expand_empty_elements`),
/// each event converted into an `XmlEvent`; named by `xml_events_of`.
#[verifier::external_body]
fn xml_events(d: &[u8]) -> (r: Vec<XmlEvent>)
    ensures
        r@ == xml_events_of(d@),
{
    let mut rd = quick_xml::Reader::from_reader(d);
    let mut out = Vec::new();
    rd.config_mut().trim_text(true);
    rd.config_mut().expand_empty_elements = true;
    while let Ok(ev) = rd.read_event() {
        match ev {
            Event::Start(e) => out.push(XmlEvent::Start { name: decode_lossy(e.name().0), attrs: e.attributes().flatten().map(|a| (decode_lossy(a.key.0), decode_lossy(&a.value))).collect() }),
            Event::Text(e) => out.push(XmlEvent::Text(e.unescape().unwrap_or_default().into())),
            Event::End(e) => out.push(XmlEvent::End(decode_lossy(&e))),
            Event::Eof => break,
            _ => {}
        }
    }
    out
}

/// One step of the parser: what `feed` states of an event.
pub open spec fn parse_step(
    n: CatalogParser,
    o: CatalogParser,
    after: Seq<(Seq<char>, AppInfo)>,
    before: Seq<(Seq<char>, AppInfo)>,
    ev: XmlEvent,
) -> bool {
    match ev {
        XmlEvent::Start { name, attrs } => started(n, o, name@, attr_views(attrs@)) && after == before,
        XmlEvent::Text(t) => texted(n, o, t) && after == before,
        XmlEvent::End(name) => ended(n, o, name@, after, before),
    }
}

/// A run of the parser over events: `ps[i]` and `cs[i]` are the parser and
/// the catalog entries before event `i`, and after the last one at the end.
pub open spec fn parse_run(
    ps: Seq<CatalogParser>,
    cs: Seq<Seq<(Seq<char>, AppInfo)>>,
    evs: Seq<XmlEvent>,
) -> bool {
    &&& ps.len() == evs.len() + 1
    &&& cs.len() == evs.len() + 1
    &&& forall|i: int| 0 <= i < evs.len() ==> #[trigger] parse_step(ps[i + 1], ps[i], cs[i + 1], cs[i], evs[i])
}

/// Whether a catalog file is gzip-compressed, by its file name.
pub open spec fn gz_catalog(path: Seq<char>) -> bool {
    match crate::text::path_file_name(path) {
        Some(f) => has_suffix(f, ".xml.gz"@),
        None => false,
    }
}

/// The XML events of a catalog file's bytes (decompressed first when gzip).
pub open spec fn catalog_events(path: Seq<char>, data: Seq<u8>) -> Seq<XmlEvent> {
    xml_events_of(if gz_catalog(path) { gunzip_of(data) } else { data })
}

/// The parser a file starts with: its source from the path, and for a
/// Flatpak file the remote from the path.
pub open spec fn fresh_parser(p: CatalogParser, path: Seq<char>) -> bool {
    let source = catalog_source_spec(crate::text::str_lowercase(path));
    &&& p.source@ == source
    &&& p.remote@ == (if source == "flatpak"@ { flatpak_remote_of(path) } else { Seq::empty() })
    &&& p.current is None && p.flags == Flags::default_flags() && p.url_type is None
}

/// Read one catalog file's bytes into the catalog: every event of the file
/// is fed, in order, to a fresh parser for its path.
pub fn parse_catalog_bytes(path: &str, data: &[u8], cat: &mut Catalog)
    requires
        old(cat).wf(),
    ensures
        final(cat).wf(),
        exists|ps: Seq<CatalogParser>, cs: Seq<Seq<(Seq<char>, AppInfo)>>|
            #[trigger] parse_run(ps, cs, catalog_events(path@, data@)) && fresh_parser(ps[0], path@)
                && cs[0] == old(cat).view_entries() && cs.last() == final(cat).view_entries(),
{
    let source = catalog_source(path);
    let remote = if str_eq(source.as_str(), "flatpak") {
        derive_flatpak_remote(path)
    } else {
        String::new()
    };
    let gz = match crate::text::file_name_of(&chars_of(path)) {
        Some(f) => crate::text::ends_with(&f, &chars_of(".xml.gz")),
        None => false,
    };
    let mut events = if gz {
        xml_events(gunzip(data).as_slice())
    } else {
        xml_events(data)
    };
    let ghost evs = events@;
    assert(evs == catalog_events(path@, data@));
    let mut parser = CatalogParser::new(source, remote);
    // Reverse the events so that they can be taken in order from the end.
    let mut rest: Vec<XmlEvent> = Vec::new();
    while events.len() > 0
        invariant
            events@.len() <= evs.len(),
            rest@ == evs.subrange(events@.len() as int, evs.len() as int).reverse(),
            events@ == evs.subrange(0, events@.len() as int),
        decreases events@.len(),
    {
        let ghost k = events@.len();
        let ghost ev0 = events@;
        assert(ev0[k - 1] == evs[k - 1]);
        let e = events.pop().unwrap();
        assert(e == ev0[k - 1]);
        rest.push(e);
        assert(rest@ =~= evs.subrange(k - 1, evs.len() as int).reverse());
        assert(events@ =~= evs.subrange(0, k - 1));
    }
    assert(evs.subrange(0, evs.len() as int) =~= evs);
    let ghost mut ps: Seq<CatalogParser> = seq![parser];
    let ghost mut cs: Seq<Seq<(Seq<char>, AppInfo)>> = seq![cat.view_entries()];
    let ghost c0 = cat.view_entries();
    assert(fresh_parser(ps[0], path@));
    while rest.len() > 0
        invariant
            cat.wf(),
            rest@.len() <= evs.len(),
            rest@ == evs.subrange(evs.len() - rest@.len(), evs.len() as int).reverse(),
            parse_run(ps, cs, evs.subrange(0, evs.len() - rest@.len())),
            fresh_parser(ps[0], path@),
            cs[0] == c0,
            ps.last() == parser,
            cs.last() == cat.view_entries(),
        decreases rest@.len(),
    {
        let ghost i = evs.len() - rest@.len();
        let e = rest.pop().unwrap();
        assert(e == evs[i]);
        let ghost o = parser;
        let ghost before = cat.view_entries();
        parser.feed(e, cat);
        proof {
            let ps2 = ps.push(parser);
            let cs2 = cs.push(cat.view_entries());
            let ev2 = evs.subrange(0, i + 1);
            assert(parse_step(ps2[i + 1], ps2[i], cs2[i + 1], cs2[i], ev2[i]));
            assert forall|j: int| 0 <= j < ev2.len() implies #[trigger] parse_step(ps2[j + 1], ps2[j], cs2[j + 1], cs2[j], ev2[j]) by {
                if j < i {
                    assert(ps2[j + 1] == ps[j + 1] && ps2[j] == ps[j] && cs2[j + 1] == cs[j + 1] && cs2[j] == cs[j]);
                    assert(ev2[j] == evs.subrange(0, i)[j]);
                }
            }
            ps = ps2;
            cs = cs2;
        }
        assert(rest@ =~= evs.subrange(evs.len() - rest@.len(), evs.len() as int).reverse());
    }
    assert(evs.subrange(0, evs.len() as int) =~= evs);
}

// ── Icons ───────────────────────────────────────────────────────────────────

pub open spec fn ascii_lower(c: char) -> char {
    if 'A' <= c && c <= 'Z' {
        ((c as u32) + 32) as char
    } else {
        c
    }
}

/// `str::eq_ignore_ascii_case`.
pub open spec fn eq_ignore_ascii_case(a: Seq<char>, b: Seq<char>) -> bool {
    a.len() == b.len() && forall|i: int| 0 <= i < a.len() ==> ascii_lower(#[trigger] a[i]) == ascii_lower(b[i])
}

/// Whether `a` equals `lower` up to ASCII case, `lower` holding no ASCII
/// upper-case letter.
pub fn eq_ignore_case_lower(a: &str, lower: &str) -> (r: bool)
    requires
        forall|i: int| 0 <= i < lower@.len() ==> !('A' <= #[trigger] lower@[i] && lower@[i] <= 'Z'),
    ensures
        r == eq_ignore_ascii_case(a@, lower@),
{
    let x = chars_of(a);
    let y = chars_of(lower);
    if x.len() != y.len() {
        return false;
    }
    let mut i: usize = 0;
    while i < x.len()
        invariant
            i <= x@.len(),
            x@ == a@,
            y@ == lower@,
            x@.len() == y@.len(),
            forall|j: int| 0 <= j < lower@.len() ==> !('A' <= #[trigger] lower@[j] && lower@[j] <= 'Z'),
            forall|j: int| 0 <= j < i ==> ascii_lower(#[trigger] x@[j]) == ascii_lower(y@[j]),
        decreases x@.len() - i,
    {
        let c = x[i];
        let t = y[i];
        let same = c == t || ('A' <= c && c <= 'Z' && (c as u32) + 32 == (t as u32));
        assert(ascii_lower(t) == t);
        if !same {
            assert(ascii_lower(c) != ascii_lower(t));
            return false;
        }
        i = i + 1;
    }
    true
}

/// The id an icon URL is made from: without a leading `flatpak:` and a
/// trailing `.desktop` (each repeated).
pub open spec fn clean_icon_id(id: Seq<char>) -> Seq<char> {
    crate::text::trim_end_str(trim_start_str(id, "flatpak:"@), ".desktop"@)
}

/// `str::trim_start_matches` with a non-empty string pattern.
pub open spec fn trim_start_str(s: Seq<char>, p: Seq<char>) -> Seq<char>
    decreases s.len(),
{
    if p.len() > 0 && has_prefix(s, p) {
        trim_start_str(s.subrange(p.len() as int, s.len() as int), p)
    } else {
        s
    }
}

fn trim_start_str_vec(s: &Vec<char>, p: &Vec<char>) -> (r: Vec<char>)
    ensures
        r@ == trim_start_str(s@, p@),
{
    let n = s.len();
    let m = p.len();
    let mut start: usize = 0;
    assert(s@.subrange(0, n as int) =~= s@);
    while m > 0 && m <= n - start && crate::text::matches_at(s, p, start)
        invariant
            start <= n,
            n == s@.len(),
            m == p@.len(),
            trim_start_str(s@, p@) == trim_start_str(s@.subrange(start as int, n as int), p@),
        decreases n - start,
    {
        let ghost t = s@.subrange(start as int, n as int);
        assert(t.subrange(0, m as int) =~= s@.subrange(start as int, start + m));
        assert(t.subrange(m as int, t.len() as int) =~= s@.subrange(start + m, n as int));
        start = start + m;
    }
    proof {
        let t = s@.subrange(start as int, n as int);
        if m > 0 && m <= n - start {
            assert(t.subrange(0, m as int) =~= s@.subrange(start as int, start + m));
        }
    }
    crate::text::subvec(s, start, n)
}

/// The icon URL made up for a record without any icon: the KDE site for
/// `org.kde.*`, the Flathub CDN for a Flatpak offered by Flathub (or by no
/// remote in particular); other records get none.
pub open spec fn synthetic_icon_url(a: AppInfo) -> Option<Seq<char>> {
    let clean = clean_icon_id(a.id@);
    if has_prefix(clean, "org.kde."@) {
        Some("https://apps.kde.org/app-icons/"@ + clean + ".svg"@)
    } else if a.source@ == "flatpak"@ && (a.remotes@.len() == 0 || exists|i: int|
        0 <= i < a.remotes@.len() && eq_ignore_ascii_case((#[trigger] a.remotes@[i])@, "flathub"@)) {
        Some("https://dl.flathub.org/repo/appstream/x86_64/icons/128x128/"@ + clean + ".png"@)
    } else {
        None
    }
}

/// Give a record without a local icon or icon URL the made-up URL, if any.
pub fn fill_icon_url(app: &mut AppInfo)
    ensures
        ({
            let o = *old(app);
            let n = *final(app);
            &&& n.icon_url@ == (if o.icon_path@.len() == 0 && o.icon_url@.len() == 0 {
                match synthetic_icon_url(o) {
                    Some(u) => u,
                    None => o.icon_url@,
                }
            } else {
                o.icon_url@
            })
            &&& n.id == o.id && n.icon_path == o.icon_path && n.source == o.source && n.remotes@
                == o.remotes@
        }),
{
    if !(app.icon_path.as_str().is_empty() && app.icon_url.as_str().is_empty()) {
        return;
    }
    let a = trim_start_str_vec(&chars_of(app.id.as_str()), &chars_of("flatpak:"));
    let clean = crate::text::trim_end_str_vec(&a, &chars_of(".desktop"));
    if crate::text::starts_with(&clean, &chars_of("org.kde.")) {
        let mut u = chars_of("https://apps.kde.org/app-icons/");
        let cs = string_of(&clean);
        crate::text::push_str(&mut u, cs.as_str());
        crate::text::push_str(&mut u, ".svg");
        app.icon_url = string_of(&u);
        return;
    }
    if !str_eq(app.source.as_str(), "flatpak") {
        return;
    }
    let mut offered = app.remotes.len() == 0;
    let mut i: usize = 0;
    proof {
        reveal_strlit("flathub");
    }
    while i < app.remotes.len()
        invariant
            i <= app.remotes@.len(),
            offered == (app.remotes@.len() == 0 || exists|j: int|
                0 <= j < i && eq_ignore_ascii_case((#[trigger] app.remotes@[j])@, "flathub"@)),
        decreases app.remotes@.len() - i,
    {
        proof {
            reveal_strlit("flathub");
            assert forall|j: int| 0 <= j < "flathub"@.len() implies !('A' <= #[trigger] "flathub"@[j]
                && "flathub"@[j] <= 'Z') by {}
        }
        if eq_ignore_case_lower(app.remotes[i].as_str(), "flathub") {
            offered = true;
        }
        i = i + 1;
    }
    if offered {
        let mut u = chars_of("https://dl.flathub.org/repo/appstream/x86_64/icons/128x128/");
        let cs = string_of(&clean);
        crate::text::push_str(&mut u, cs.as_str());
        crate::text::push_str(&mut u, ".png");
        app.icon_url = string_of(&u);
    }
}


/// One place an icon may be found: a file path, or the deploy directories
/// of an installed Flatpak app (searched by the caller).
#[derive(Debug, Clone)]
pub enum IconProbe {
    Path(String),
    FlatpakDeploy(String),
}

pub open spec fn probe_view(p: IconProbe) -> (bool, Seq<char>) {
    match p {
        IconProbe::Path(s) => (false, s@),
        IconProbe::FlatpakDeploy(s) => (true, s@),
    }
}

pub open spec fn probe_views(p: Seq<IconProbe>) -> Seq<(bool, Seq<char>)> {
    p.map_values(|x: IconProbe| probe_view(x))
}

pub open spec fn paths(ps: Seq<Seq<char>>) -> Seq<(bool, Seq<char>)> {
    ps.map_values(|x: Seq<char>| (false, x))
}

/// `dir/name` for every directory, and within it every name, in order.
pub open spec fn dir_files(dirs: Seq<Seq<char>>, names: Seq<Seq<char>>) -> Seq<Seq<char>>
    decreases dirs.len(),
{
    if dirs.len() == 0 {
        Seq::empty()
    } else {
        dir_files(dirs.drop_last(), names) + names.map_values(
            |n: Seq<char>| dirs.last() + "/"@ + n,
        )
    }
}

pub open spec fn static_icon_dirs() -> Seq<Seq<char>> {
    seq![
        "/usr/share/software-center/appstream/icons"@,
        "/usr/share/swcatalog/icons/fedora/64x64"@,
        "/usr/share/swcatalog/icons/fedora/128x128"@,
        "/var/lib/flatpak/appstream/flathub/x86_64/active/icons/128x128"@,
        "/var/lib/flatpak/appstream/flathub/x86_64/active/icons/64x64"@,
        "/var/lib/flatpak/appstream/fedora-flatpaks/x86_64/active/icons/64x64"@,
        "/usr/share/app-info/icons"@,
        "/usr/share/icons/hicolor/256x256/apps"@,
        "/usr/share/icons/hicolor/scalable/apps"@,
        "/usr/share/icons/hicolor/128x128/apps"@,
        "/usr/share/icons/hicolor/64x64/apps"@,
        "/usr/share/icons/hicolor/48x48/apps"@,
        "/usr/share/pixmaps"@,
    ]
}

fn static_icon_dir(k: usize) -> (r: &'static str)
    requires
        k < 13,
    ensures
        r@ == static_icon_dirs()[k as int],
{
    match k {
        0 => "/usr/share/software-center/appstream/icons",
        1 => "/usr/share/swcatalog/icons/fedora/64x64",
        2 => "/usr/share/swcatalog/icons/fedora/128x128",
        3 => "/var/lib/flatpak/appstream/flathub/x86_64/active/icons/128x128",
        4 => "/var/lib/flatpak/appstream/flathub/x86_64/active/icons/64x64",
        5 => "/var/lib/flatpak/appstream/fedora-flatpaks/x86_64/active/icons/64x64",
        6 => "/usr/share/app-info/icons",
        7 => "/usr/share/icons/hicolor/256x256/apps",
        8 => "/usr/share/icons/hicolor/scalable/apps",
        9 => "/usr/share/icons/hicolor/128x128/apps",
        10 => "/usr/share/icons/hicolor/64x64/apps",
        11 => "/usr/share/icons/hicolor/48x48/apps",
        _ => "/usr/share/pixmaps",
    }
}

/// An icon name without a trailing `.png`, then `.svg`, then `.xpm` (each
/// repeated).
pub open spec fn icon_stem(icon: Seq<char>) -> Seq<char> {
    crate::text::trim_end_str(
        crate::text::trim_end_str(crate::text::trim_end_str(icon, ".png"@), ".svg"@),
        ".xpm"@,
    )
}

/// The home icon cache's file for an app.
pub open spec fn cached_icon(a: AppInfo, home: Seq<char>) -> Seq<char> {
    home + "/"@ + a.id@ + ".png"@
}

/// A Flatpak app's own places: three appstream icon caches, its deploy
/// directories, and the home icon cache.
pub open spec fn flatpak_probes(a: AppInfo, home: Seq<char>) -> Seq<(bool, Seq<char>)> {
    let png = a.id@ + ".png"@;
    if a.source@ == "flatpak"@ {
        paths(
            seq![
                "/var/lib/flatpak/appstream/flathub/x86_64/active/icons/128x128/"@ + png,
                "/var/lib/flatpak/appstream/flathub/x86_64/active/icons/64x64/"@ + png,
                "/var/lib/flatpak/appstream/fedora-flatpaks/x86_64/active/icons/64x64/"@ + png,
            ],
        ) + seq![(true, a.id@)] + (if home.len() > 0 {
            paths(seq![cached_icon(a, home)])
        } else {
            Seq::empty()
        })
    } else {
        Seq::empty()
    }
}

/// The named icon: its own path when absolute, then the icon and its stem
/// as `.png` and `.svg` in every directory.
pub open spec fn named_icon_probes(a: AppInfo, dirs: Seq<Seq<char>>) -> Seq<(bool, Seq<char>)> {
    let icon = a.icon@;
    let stem = icon_stem(icon);
    if icon.len() > 0 {
        (if has_prefix(icon, "/"@) {
            paths(seq![icon])
        } else {
            Seq::empty()
        }) + paths(dir_files(dirs, seq![icon, stem + ".png"@, stem + ".svg"@]))
    } else {
        Seq::empty()
    }
}

/// The name a native package's icon file is guessed to have.
pub open spec fn guessed_icon_name(a: AppInfo) -> Seq<char> {
    if a.package_name@.len() > 0 {
        a.package_name@
    } else {
        crate::text::after_last(crate::text::trim_end_str(a.id@, ".desktop"@), '.')
    }
}

pub open spec fn native_probes(a: AppInfo, dirs: Seq<Seq<char>>) -> Seq<(bool, Seq<char>)> {
    let guess = guessed_icon_name(a);
    if (a.source@ == "native"@ || a.source@ == "terra"@ || a.source@ == "local-rpm"@)
        && guess.len() > 0 {
        paths(dir_files(dirs, seq![guess + ".png"@, guess + ".svg"@, guess + ".xpm"@]))
    } else {
        Seq::empty()
    }
}

/// The places an app's icon is looked for, in order (the first that exists
/// wins; nothing found means no local icon).
pub open spec fn icon_probes_spec(a: AppInfo, home: Seq<char>, dynamic: Seq<Seq<char>>) -> Seq<(bool, Seq<char>)> {
    let dirs = static_icon_dirs() + dynamic;
    flatpak_probes(a, home) + named_icon_probes(a, dirs) + (if home.len() > 0 {
        paths(seq![cached_icon(a, home)])
    } else {
        Seq::empty()
    }) + native_probes(a, dirs)
}

fn push_path(out: &mut Vec<IconProbe>, p: Vec<char>)
    ensures
        probe_views(final(out)@) == probe_views(old(out)@).push((false, p@)),
{
    let ghost o = probe_views(out@);
    out.push(IconProbe::Path(string_of(&p)));
    assert(probe_views(out@) =~= o.push((false, p@)));
}

fn join_path(dir: &str, name: &Vec<char>) -> (r: Vec<char>)
    ensures
        r@ == dir@ + "/"@ + name@,
{
    let mut v = chars_of(dir);
    crate::text::push_str(&mut v, "/");
    let ghost o = v@;
    let mut k: usize = 0;
    while k < name.len()
        invariant
            k <= name@.len(),
            v@ == o + name@.subrange(0, k as int),
        decreases name@.len() - k,
    {
        v.push(name[k]);
        k = k + 1;
        assert(v@ =~= o + name@.subrange(0, k as int));
    }
    assert(name@.subrange(0, name@.len() as int) =~= name@);
    v
}

proof fn lemma_dir_files_push(dirs: Seq<Seq<char>>, d: Seq<char>, names: Seq<Seq<char>>)
    ensures
        dir_files(dirs.push(d), names) == dir_files(dirs, names) + names.map_values(
            |n: Seq<char>| d + "/"@ + n,
        ),
{
    assert(dirs.push(d).drop_last() =~= dirs);
}

/// Append the probes `dir/name` for each of `names`.
fn push_names(out: &mut Vec<IconProbe>, dir: &str, names: &Vec<Vec<char>>)
    ensures
        probe_views(final(out)@) == probe_views(old(out)@) + paths(
            crate::text::views(names@).map_values(|n: Seq<char>| dir@ + "/"@ + n),
        ),
{
    let ghost nv = crate::text::views(names@);
    let ghost before = probe_views(out@);
    let mut k: usize = 0;
    assert(paths(nv.subrange(0, 0).map_values(|n: Seq<char>| dir@ + "/"@ + n)) =~= Seq::<(bool, Seq<char>)>::empty());
    assert(before + Seq::<(bool, Seq<char>)>::empty() =~= before);
    while k < names.len()
        invariant
            k <= names@.len(),
            nv == crate::text::views(names@),
            probe_views(out@) == before + paths(nv.subrange(0, k as int).map_values(
                |n: Seq<char>| dir@ + "/"@ + n,
            )),
        decreases names@.len() - k,
    {
        let p = join_path(dir, &names[k]);
        push_path(out, p);
        assert(nv.subrange(0, k + 1).map_values(|n: Seq<char>| dir@ + "/"@ + n) =~= nv.subrange(
            0,
            k as int,
        ).map_values(|n: Seq<char>| dir@ + "/"@ + n).push(dir@ + "/"@ + nv[k as int]));
        assert(paths(nv.subrange(0, k + 1).map_values(|n: Seq<char>| dir@ + "/"@ + n)) =~= paths(
            nv.subrange(0, k as int).map_values(|n: Seq<char>| dir@ + "/"@ + n),
        ).push((false, dir@ + "/"@ + nv[k as int])));
        k = k + 1;
    }
    assert(nv.subrange(0, names@.len() as int) =~= nv);
}

proof fn lemma_paths_add(a: Seq<Seq<char>>, b: Seq<Seq<char>>)
    ensures
        paths(a + b) == paths(a) + paths(b),
{
    assert(paths(a + b) =~= paths(a) + paths(b));
}

/// Append the probes `dir/name` for each directory (the fixed ones, then
/// `dynamic`) and each of `names`.
fn push_dir_files(out: &mut Vec<IconProbe>, dynamic: &Vec<String>, names: &Vec<Vec<char>>)
    ensures
        probe_views(final(out)@) == probe_views(old(out)@) + paths(
            dir_files(
                static_icon_dirs() + crate::appimage::string_views(dynamic@),
                crate::text::views(names@),
            ),
        ),
{
    let ghost o = probe_views(out@);
    let ghost nv = crate::text::views(names@);
    let ghost all = static_icon_dirs() + crate::appimage::string_views(dynamic@);
    assert(all.subrange(0, 0) =~= Seq::<Seq<char>>::empty());
    assert(paths(Seq::<Seq<char>>::empty()) =~= Seq::<(bool, Seq<char>)>::empty());
    assert(o + Seq::<(bool, Seq<char>)>::empty() =~= o);
    let mut d: usize = 0;
    while d < 13
        invariant
            d <= 13,
            all.len() == 13 + dynamic@.len(),
            all == static_icon_dirs() + crate::appimage::string_views(dynamic@),
            nv == crate::text::views(names@),
            probe_views(out@) == o + paths(dir_files(all.subrange(0, d as int), nv)),
        decreases 13 - d,
    {
        let dir = static_icon_dir(d);
        assert(dir@ == all[d as int]);
        proof {
            lemma_dir_files_push(all.subrange(0, d as int), all[d as int], nv);
            assert(all.subrange(0, d + 1) =~= all.subrange(0, d as int).push(all[d as int]));
        }
        let ghost mid = probe_views(out@);
        push_names(out, dir, names);
        proof {
            lemma_paths_add(dir_files(all.subrange(0, d as int), nv), nv.map_values(|n: Seq<char>| all[d as int] + "/"@ + n));
        }
        d = d + 1;
    }
    let mut e: usize = 0;
    while e < dynamic.len()
        invariant
            e <= dynamic@.len(),
            all.len() == 13 + dynamic@.len(),
            all == static_icon_dirs() + crate::appimage::string_views(dynamic@),
            nv == crate::text::views(names@),
            probe_views(out@) == o + paths(dir_files(all.subrange(0, 13 + e), nv)),
        decreases dynamic@.len() - e,
    {
        let dir = dynamic[e].as_str();
        assert(dir@ == all[13 + e]);
        proof {
            lemma_dir_files_push(all.subrange(0, 13 + e), all[13 + e], nv);
            assert(all.subrange(0, 13 + e + 1) =~= all.subrange(0, 13 + e).push(all[13 + e]));
        }
        push_names(out, dir, names);
        proof {
            lemma_paths_add(dir_files(all.subrange(0, 13 + e), nv), nv.map_values(|n: Seq<char>| all[13 + e] + "/"@ + n));
        }
        e = e + 1;
    }
    assert(all.subrange(0, all.len() as int) =~= all);
}

fn with_suffix(a: &Vec<char>, suffix: &str) -> (r: Vec<char>)
    ensures
        r@ == a@ + suffix@,
{
    let mut r = a.clone();
    crate::text::push_str(&mut r, suffix);
    r
}

/// The places where an app's local icon may be, in the order in which they
/// are tried: for a Flatpak app its three appstream icon caches, its deploy
/// directories and the home icon cache; then, when the app names an icon,
/// that path if absolute and the icon (as is, and as `.png` and `.svg` of its
/// stem) in every fixed and extra icon directory; the home icon cache; and
/// for a native package its name with `.png`, `.svg`, `.xpm` in the same
/// directories.
pub fn icon_probes(app: &AppInfo, home_icon_cache: &str, dynamic_dirs: &Vec<String>) -> (r: Vec<IconProbe>)
    ensures
        probe_views(r@) == icon_probes_spec(*app, home_icon_cache@, crate::appimage::string_views(dynamic_dirs@)),
{
    let ghost spec = icon_probes_spec(*app, home_icon_cache@, crate::appimage::string_views(dynamic_dirs@));
    let mut out: Vec<IconProbe> = Vec::new();
    let id = crate::text::chars_of_string(&app.id);
    let png = with_suffix(&id, ".png");
    let mut cached = chars_of(home_icon_cache);
    crate::text::push_str(&mut cached, "/");
    let cached = crate::text::concat(&cached, &png);
    assert(cached@ =~= cached_icon(*app, home_icon_cache@));
    let has_home = home_icon_cache.unicode_len() > 0;
    proof {
        reveal_strlit("flatpak");
        reveal_strlit("native");
        reveal_strlit("terra");
        reveal_strlit("local-rpm");
    }
    assert(probe_views(out@) =~= Seq::<(bool, Seq<char>)>::empty());
    if crate::text::str_eq(app.source.as_str(), "flatpak") {
        let mut a = chars_of("/var/lib/flatpak/appstream/flathub/x86_64/active/icons/128x128/");
        a = crate::text::concat(&a, &png);
        push_path(&mut out, a);
        let mut b = chars_of("/var/lib/flatpak/appstream/flathub/x86_64/active/icons/64x64/");
        b = crate::text::concat(&b, &png);
        push_path(&mut out, b);
        let mut c = chars_of("/var/lib/flatpak/appstream/fedora-flatpaks/x86_64/active/icons/64x64/");
        c = crate::text::concat(&c, &png);
        push_path(&mut out, c);
        let ghost o = probe_views(out@);
        out.push(IconProbe::FlatpakDeploy(app.id.clone()));
        assert(probe_views(out@) =~= o.push((true, app.id@)));
        let ghost three = probe_views(out@);
        assert(three =~= paths(
            seq![
                "/var/lib/flatpak/appstream/flathub/x86_64/active/icons/128x128/"@ + png@,
                "/var/lib/flatpak/appstream/flathub/x86_64/active/icons/64x64/"@ + png@,
                "/var/lib/flatpak/appstream/fedora-flatpaks/x86_64/active/icons/64x64/"@ + png@,
            ],
        ) + seq![(true, app.id@)]);
        if has_home {
            push_path(&mut out, cached.clone());
            assert(probe_views(out@) =~= three + paths(seq![cached_icon(*app, home_icon_cache@)]));
        } else {
            assert(probe_views(out@) =~= three + Seq::<(bool, Seq<char>)>::empty());
        }
    }
    assert(probe_views(out@) =~= flatpak_probes(*app, home_icon_cache@));
    let ghost after_flatpak = probe_views(out@);
    let ghost dirs = static_icon_dirs() + crate::appimage::string_views(dynamic_dirs@);
    let icon = crate::text::chars_of_string(&app.icon);
    if icon.len() > 0 {
        if crate::text::starts_with(&icon, &chars_of("/")) {
            push_path(&mut out, icon.clone());
        }
        let t1 = crate::text::trim_end_str_vec(&icon, &chars_of(".png"));
        let t2 = crate::text::trim_end_str_vec(&t1, &chars_of(".svg"));
        let stem = crate::text::trim_end_str_vec(&t2, &chars_of(".xpm"));
        let mut names: Vec<Vec<char>> = Vec::new();
        names.push(icon.clone());
        names.push(with_suffix(&stem, ".png"));
        names.push(with_suffix(&stem, ".svg"));
        push_dir_files(&mut out, dynamic_dirs, &names);
        assert(crate::text::views(names@) =~= seq![icon@, stem@ + ".png"@, stem@ + ".svg"@]);
    }
    assert(probe_views(out@) =~= after_flatpak + named_icon_probes(*app, dirs));
    let ghost after_named = probe_views(out@);
    if has_home {
        push_path(&mut out, cached.clone());
        assert(probe_views(out@) =~= after_named + paths(seq![cached_icon(*app, home_icon_cache@)]));
    }
    assert(probe_views(out@) =~= after_named + (if home_icon_cache@.len() > 0 {
        paths(seq![cached_icon(*app, home_icon_cache@)])
    } else {
        Seq::empty()
    }));
    let ghost after_home = probe_views(out@);
    let src = app.source.as_str();
    if crate::text::str_eq(src, "native") || crate::text::str_eq(src, "terra")
        || crate::text::str_eq(src, "local-rpm") {
        let guess = if app.package_name.unicode_len() > 0 {
            crate::text::chars_of_string(&app.package_name)
        } else {
            let clean = crate::text::trim_end_str_vec(&id, &chars_of(".desktop"));
            crate::text::after_last_vec(&clean, '.')
        };
        if guess.len() > 0 {
            let mut names: Vec<Vec<char>> = Vec::new();
            names.push(with_suffix(&guess, ".png"));
            names.push(with_suffix(&guess, ".svg"));
            names.push(with_suffix(&guess, ".xpm"));
            push_dir_files(&mut out, dynamic_dirs, &names);
            assert(crate::text::views(names@) =~= seq![guess@ + ".png"@, guess@ + ".svg"@, guess@ + ".xpm"@]);
        }
    }
    assert(probe_views(out@) =~= after_home + native_probes(*app, dirs));
    assert(probe_views(out@) =~= spec);
    out
}

/// What a probe found: a plain path is its own result; the deploy
/// directories yield whatever icon file was found there.
pub open spec fn probe_result(p: IconProbe, found: Option<String>) -> Option<Seq<char>> {
    match found {
        None => None,
        Some(f) => match p {
            IconProbe::Path(s) => Some(s@),
            IconProbe::FlatpakDeploy(_) => Some(f@),
        },
    }
}

/// The first probe (from `i` on) that found something, or the empty path.
pub open spec fn first_found(probes: Seq<IconProbe>, found: Seq<Option<String>>, i: int) -> Seq<char>
    decreases probes.len() - i,
{
    if i < 0 || i >= probes.len() || i >= found.len() {
        Seq::empty()
    } else {
        match probe_result(probes[i], found[i]) {
            Some(r) => r,
            None => first_found(probes, found, i + 1),
        }
    }
}

/// The local icon path: the result of the first probe that found something
/// (`found[i]` is what probe `i` found), or the empty string.
pub fn resolve_icon_path(probes: &Vec<IconProbe>, found: &Vec<Option<String>>) -> (r: String)
    ensures
        r@ == first_found(probes@, found@, 0),
{
    let mut i: usize = 0;
    while i < probes.len() && i < found.len()
        invariant
            i <= probes@.len(),
            first_found(probes@, found@, 0) == first_found(probes@, found@, i as int),
        decreases probes@.len() - i,
    {
        match &found[i] {
            Some(f) => {
                return match &probes[i] {
                    IconProbe::Path(s) => s.clone(),
                    IconProbe::FlatpakDeploy(_) => f.clone(),
                };
            },
            None => {},
        }
        i = i + 1;
    }
    String::new()
}

} // verus!
