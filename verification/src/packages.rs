//! Native packages (dnf5 through pkexec): the records the store shows, the
//! install sources of an app, and the package command lines.

use vstd::prelude::*;
use crate::appstream::{AppInfo, lookup};
use crate::appimage::{clone_strings, string_views};
use crate::stream::{StreamCommand, command, push_arg};
use crate::text::{
    chars_of, has_suffix, lowercase, split, split_char, str_eq, str_lowercase, string_of,
    string_of_str, trim, trim_vec, views,
};

verus! {

/// One installable source for an app (the native package or a Flatpak
/// remote), with the display data of that source.
#[derive(Debug, Clone, Default)]
pub struct SourceOption {
    /// The package name for native sources, the app id for Flatpak.
    pub id: String,
    /// "native", "flatpak", "terra"
    pub source: String,
    pub package_name: String,
    pub installed: bool,
    pub label: String,
    pub remote: String,
    pub user_remote: bool,
    pub summary: String,
    pub description: String,
    pub version: String,
    pub developer: String,
    pub url_homepage: String,
    pub url_bugtracker: String,
    pub url_donation: String,
    pub url_help: String,
    pub url_faq: String,
    pub url_vcs_browser: String,
    pub url_contribute: String,
    pub license: String,
    pub screenshots: Vec<String>,
    pub icon_path: String,
    pub icon_url: String,
}

#[derive(Debug, Clone, Default)]
pub struct NativeApp {
    pub id: String,
    pub name: String,
    pub summary: String,
    pub description: String,
    pub version: String,
    pub package_name: String,
    pub icon: String,
    pub icon_url: String,
    pub icon_path: String,
    pub categories: Vec<String>,
    pub keywords: Vec<String>,
    pub screenshots: Vec<String>,
    pub developer: String,
    pub url_homepage: String,
    pub url_bugtracker: String,
    pub url_donation: String,
    pub url_help: String,
    pub url_faq: String,
    pub url_vcs_browser: String,
    pub url_contribute: String,
    pub license: String,
    pub source: String,
    pub installed: bool,
    pub is_addon: bool,
    pub pkg_name_guessed: bool,
    pub update_source: String,
    pub update_url: String,
    pub update_pattern: String,
    pub sources: Vec<SourceOption>,
    pub remotes: Vec<String>,
}

/// An installed Flatpak runtime or add-on.
#[derive(Debug, Clone, Default)]
pub struct FlatpakRuntime {
    pub app_id: String,
    pub name: String,
    pub version: String,
    pub origin: String,
}

impl NativeApp {
    /// The store record of a catalog entry (not installed, no sources yet).
    pub fn from_info(a: &AppInfo) -> (r: NativeApp)
        ensures
            r.id == a.id && r.name == a.name && r.summary == a.summary && r.description
                == a.description && r.version == a.version,
            r.package_name == a.package_name && r.icon == a.icon && r.icon_url == a.icon_url
                && r.icon_path == a.icon_path,
            r.categories@ == a.categories@ && r.keywords@ == a.keywords@ && r.screenshots@
                == a.screenshots@,
            r.developer == a.developer && r.license == a.license && r.source == a.source,
            r.url_homepage == a.url_homepage && r.url_bugtracker == a.url_bugtracker
                && r.url_donation == a.url_donation && r.url_help == a.url_help && r.url_faq
                == a.url_faq && r.url_vcs_browser == a.url_vcs_browser && r.url_contribute
                == a.url_contribute,
            !r.installed && r.is_addon == a.is_addon && r.pkg_name_guessed == a.pkg_name_guessed,
            r.update_source@.len() == 0 && r.update_url@.len() == 0 && r.update_pattern@.len()
                == 0,
            r.sources@.len() == 0 && r.remotes@ == a.remotes@,
    {
        NativeApp {
            id: a.id.clone(),
            name: a.name.clone(),
            summary: a.summary.clone(),
            description: a.description.clone(),
            version: a.version.clone(),
            package_name: a.package_name.clone(),
            icon: a.icon.clone(),
            icon_url: a.icon_url.clone(),
            icon_path: a.icon_path.clone(),
            categories: clone_strings(&a.categories),
            keywords: clone_strings(&a.keywords),
            screenshots: clone_strings(&a.screenshots),
            developer: a.developer.clone(),
            url_homepage: a.url_homepage.clone(),
            url_bugtracker: a.url_bugtracker.clone(),
            url_donation: a.url_donation.clone(),
            url_help: a.url_help.clone(),
            url_faq: a.url_faq.clone(),
            url_vcs_browser: a.url_vcs_browser.clone(),
            url_contribute: a.url_contribute.clone(),
            license: a.license.clone(),
            source: a.source.clone(),
            installed: false,
            is_addon: a.is_addon,
            pkg_name_guessed: a.pkg_name_guessed,
            update_source: String::new(),
            update_url: String::new(),
            update_pattern: String::new(),
            sources: Vec::new(),
            remotes: clone_strings(&a.remotes),
        }
    }
}

// ── Browsing ────────────────────────────────────────────────────────────────

/// The categories under which an add-on is still shown on its own.
pub open spec fn is_standalone_category(c: Seq<char>) -> bool {
    c == "game"@ || c == "network"@ || c == "audiovideo"@ || c == "audio"@ || c == "video"@ || c
        == "graphics"@ || c == "office"@ || c == "development"@ || c == "education"@ || c
        == "science"@ || c == "accessibility"@
}

/// Whether an app is listed when browsing and searching: it has a package
/// name that was not guessed, and an add-on only with a stand-alone category.
pub open spec fn browseable(a: NativeApp) -> bool {
    if a.package_name@.len() == 0 || a.pkg_name_guessed {
        false
    } else if a.is_addon {
        exists|i: int|
            0 <= i < a.categories@.len() && is_standalone_category(
                str_lowercase(#[trigger] a.categories@[i]@),
            )
    } else {
        true
    }
}

fn standalone(c: &str) -> (r: bool)
    ensures
        r == is_standalone_category(c@),
{
    str_eq(c, "game") || str_eq(c, "network") || str_eq(c, "audiovideo") || str_eq(c, "audio")
        || str_eq(c, "video") || str_eq(c, "graphics") || str_eq(c, "office") || str_eq(
        c,
        "development",
    ) || str_eq(c, "education") || str_eq(c, "science") || str_eq(c, "accessibility")
}

pub fn is_browseable(a: &NativeApp) -> (r: bool)
    ensures
        r == browseable(*a),
{
    if a.package_name.as_str().is_empty() || a.pkg_name_guessed {
        return false;
    }
    if a.is_addon {
        let mut i: usize = 0;
        while i < a.categories.len()
            invariant
                i <= a.categories@.len(),
                a.package_name@.len() > 0,
                !a.pkg_name_guessed,
                a.is_addon,
                forall|j: int|
                    0 <= j < i ==> !is_standalone_category(
                        str_lowercase(#[trigger] a.categories@[j]@),
                    ),
            decreases a.categories@.len() - i,
        {
            if standalone(lowercase(a.categories[i].as_str()).as_str()) {
                assert(is_standalone_category(str_lowercase(a.categories@[i as int]@)));
                return true;
            }
            i = i + 1;
        }
        return false;
    }
    true
}

// ── Flatpak ids ─────────────────────────────────────────────────────────────

/// A Flatpak id without the `.desktop` suffix that AppStream ids may carry.
pub open spec fn bare_id(id: Seq<char>) -> Seq<char> {
    if has_suffix(id, ".desktop"@) {
        id.subrange(0, id.len() - 8)
    } else {
        id
    }
}

pub fn fp_bare(id: &str) -> (r: String)
    ensures
        r@ == bare_id(id@),
{
    let v = chars_of(id);
    proof {
        reveal_strlit(".desktop");
    }
    if crate::text::ends_with(&v, &chars_of(".desktop")) {
        string_of(&crate::text::subvec(&v, 0, v.len() - 8))
    } else {
        string_of(&v)
    }
}

/// Whether a Flatpak id (with or without `.desktop`) is among the installed.
pub fn fp_installed(installed: &Vec<String>, id: &str) -> (r: bool)
    ensures
        r == exists|i: int| 0 <= i < installed@.len() && (#[trigger] installed@[i])@ == bare_id(id@),
{
    let b = fp_bare(id);
    let mut i: usize = 0;
    while i < installed.len()
        invariant
            i <= installed@.len(),
            b@ == bare_id(id@),
            forall|j: int| 0 <= j < i ==> (#[trigger] installed@[j])@ != b@,
        decreases installed@.len() - i,
    {
        if str_eq(installed[i].as_str(), b.as_str()) {
            return true;
        }
        i = i + 1;
    }
    false
}

// ── Source labels ───────────────────────────────────────────────────────────

/// The upper-case mapping of a character, as `char::to_uppercase` yields it.
pub uninterp spec fn char_uppercase(c: char) -> Seq<char>;

/// `char::to_uppercase` (std), collected: named by `char_uppercase`, a
/// function of the character alone.
#[verifier::external_body]
fn upper_char(c: char) -> (r: String)
    ensures
        r@ == char_uppercase(c),
{
    c.to_uppercase().collect()
}

/// A piece with its first character in upper case.
pub open spec fn capitalized(p: Seq<char>) -> Seq<char> {
    if p.len() == 0 {
        Seq::empty()
    } else {
        char_uppercase(p[0]) + p.drop_first()
    }
}

/// The pieces of a remote name between `-`, each capitalized, joined by `-`
/// ("fedora-flatpaks" gives "Fedora-Flatpaks").
pub open spec fn remote_title(pieces: Seq<Seq<char>>) -> Seq<char>
    decreases pieces.len(),
{
    if pieces.len() == 0 {
        Seq::empty()
    } else if pieces.len() == 1 {
        capitalized(pieces[0])
    } else {
        remote_title(pieces.drop_last()) + "-"@ + capitalized(pieces.last())
    }
}

/// The label shown for an install source.
pub open spec fn source_label_spec(source: Seq<char>, remote: Seq<char>, user_remote: bool) -> Seq<
    char,
> {
    if source == "native"@ || source == "terra"@ {
        "RakuOS Linux"@
    } else if source == "flatpak"@ {
        let base = if remote.len() == 0 {
            "Flathub"@
        } else {
            remote_title(split_char(remote, '-'))
        };
        if user_remote {
            base + " (User)"@
        } else {
            base
        }
    } else {
        source
    }
}

fn capitalize(p: &Vec<char>) -> (r: Vec<char>)
    ensures
        r@ == capitalized(p@),
{
    if p.len() == 0 {
        return Vec::new();
    }
    let mut out = chars_of(upper_char(p[0]).as_str());
    let mut k: usize = 1;
    let ghost o = out@;
    while k < p.len()
        invariant
            1 <= k <= p@.len(),
            out@ == o + p@.subrange(1, k as int),
        decreases p@.len() - k,
    {
        out.push(p[k]);
        k = k + 1;
        assert(out@ =~= o + p@.subrange(1, k as int));
    }
    assert(p@.subrange(1, p@.len() as int) =~= p@.drop_first());
    out
}

/// The title made of a remote name (see `remote_title`).
#[verifier::spinoff_prover]
fn title_of_remote(remote: &str) -> (base: Vec<char>)
    ensures
        base@ == remote_title(split_char(remote@, '-')),
{
    let mut base: Vec<char> = Vec::new();
    let pieces = split(&chars_of(remote), '-');
    let ghost ps = views(pieces@);
    let mut i: usize = 0;
    while i < pieces.len()
        invariant
            i <= pieces@.len(),
            ps == views(pieces@),
            ps == split_char(remote@, '-'),
            base@ == remote_title(ps.subrange(0, i as int)),
        decreases pieces@.len() - i,
    {
        let ghost pre = ps.subrange(0, i + 1);
        assert(pre.drop_last() =~= ps.subrange(0, i as int));
        assert(pre.last() == pieces@[i as int]@);
        let ghost b_prev = base@;
        if i > 0 {
            base.push('-');
        }
        let c = capitalize(&pieces[i]);
        let ghost b0 = base@;
        let mut k: usize = 0;
        while k < c.len()
            invariant
                k <= c@.len(),
                base@ == b0 + c@.subrange(0, k as int),
            decreases c@.len() - k,
        {
            base.push(c[k]);
            k = k + 1;
            assert(base@ =~= b0 + c@.subrange(0, k as int));
        }
        assert(c@.subrange(0, c@.len() as int) =~= c@);
        proof {
            if i > 0 {
                reveal_strlit("-");
                assert(b0 =~= b_prev + "-"@);
                assert(base@ =~= b_prev + "-"@ + capitalized(pieces@[i as int]@));
            } else {
                assert(base@ =~= capitalized(pieces@[i as int]@));
            }
        }
        i = i + 1;
    }
    assert(ps.subrange(0, pieces@.len() as int) =~= ps);
    base
}

/// The label shown for an install source.
pub fn source_label(source: &str, remote: &str, user_remote: bool) -> (r: String)
    ensures
        r@ == source_label_spec(source@, remote@, user_remote),
{
    if str_eq(source, "native") || str_eq(source, "terra") {
        return string_of_str("RakuOS Linux");
    }
    if !str_eq(source, "flatpak") {
        return string_of_str(source);
    }
    let mut base: Vec<char> = if remote.is_empty() {
        chars_of("Flathub")
    } else {
        title_of_remote(remote)
    };
    if user_remote {
        crate::text::push_str(&mut base, " (User)");
    }
    string_of(&base)
}

// ── Package commands ────────────────────────────────────────────────────────

/// `pkexec dnf5 <sub> -y <target>`.
pub open spec fn dnf_words(sub: Seq<char>, target: Seq<char>) -> (Seq<char>, Seq<Seq<char>>) {
    ("pkexec"@, seq!["dnf5"@, sub, "-y"@, target])
}

fn dnf(sub: &str, target: &str) -> (c: StreamCommand)
    ensures
        c.words() == dnf_words(sub@, target@),
{
    let mut a: Vec<String> = Vec::new();
    push_arg(&mut a, "dnf5");
    push_arg(&mut a, sub);
    push_arg(&mut a, "-y");
    push_arg(&mut a, target);
    let c = command("pkexec", a);
    assert(c.words().1 =~= dnf_words(sub@, target@).1);
    c
}

/// Install a native package.
pub fn install_stream(package_name: &str) -> (c: StreamCommand)
    ensures
        c.words() == dnf_words("install"@, package_name@),
{
    dnf("install", package_name)
}

/// Remove a native package.
pub fn remove_stream(package_name: &str) -> (c: StreamCommand)
    ensures
        c.words() == dnf_words("remove"@, package_name@),
{
    dnf("remove", package_name)
}

/// Install a local `.rpm` file.
pub fn install_local_rpm_stream(path: &str) -> (c: StreamCommand)
    ensures
        c.words() == dnf_words("install"@, path@),
{
    dnf("install", path)
}

/// Reinstall a local `.rpm`: remove the installed package, then install the
/// file; the two commands run in that order.
pub fn reinstall_local_rpm_stream(pkg_name: &str, path: &str) -> (c: (StreamCommand, StreamCommand))
    ensures
        c.0.words() == dnf_words("remove"@, pkg_name@),
        c.1.words() == dnf_words("install"@, path@),
{
    (remove_stream(pkg_name), install_local_rpm_stream(path))
}

/// The lines shown for a reinstall: a heading, the removal's output without
/// its end marker lines, a heading, the installation's output.
pub open spec fn reinstall_lines_spec(removed: Seq<Seq<char>>, installed: Seq<Seq<char>>) -> Seq<
    Seq<char>,
> {
    seq!["[Removing previous version...]"@] + removed.filter(
        |l: Seq<char>| !crate::text::has_prefix(l, "__done__"@),
    ) + seq!["[Installing new version...]"@] + installed
}

pub fn reinstall_lines(removed: &Vec<String>, installed: &Vec<String>) -> (r: Vec<String>)
    ensures
        string_views(r@) == reinstall_lines_spec(string_views(removed@), string_views(installed@)),
{
    let ghost rv = string_views(removed@);
    let mut out: Vec<String> = Vec::new();
    out.push(string_of_str("[Removing previous version...]"));
    let mut i: usize = 0;
    let done = chars_of("__done__");
    assert(rv.subrange(0, 0).filter(|l: Seq<char>| !crate::text::has_prefix(l, "__done__"@))
        =~= Seq::<Seq<char>>::empty());
    while i < removed.len()
        invariant
            i <= removed@.len(),
            rv == string_views(removed@),
            done@ == "__done__"@,
            string_views(out@) == seq!["[Removing previous version...]"@] + rv.subrange(
                0,
                i as int,
            ).filter(|l: Seq<char>| !crate::text::has_prefix(l, "__done__"@)),
        decreases removed@.len() - i,
    {
        let ghost pre = rv.subrange(0, i + 1);
        assert(pre.drop_last() =~= rv.subrange(0, i as int));
        assert(pre.last() == removed@[i as int]@);
        proof {
            rv.subrange(0, i as int).lemma_filter_push(
                removed@[i as int]@,
                |l: Seq<char>| !crate::text::has_prefix(l, "__done__"@),
            );
            assert(pre =~= rv.subrange(0, i as int).push(removed@[i as int]@));
        }
        if !crate::text::starts_with(&chars_of(removed[i].as_str()), &done) {
            let ghost o = string_views(out@);
            out.push(removed[i].clone());
            assert(string_views(out@) =~= o.push(removed@[i as int]@));
        }
        i = i + 1;
    }
    assert(rv.subrange(0, removed@.len() as int) =~= rv);
    let ghost mid = string_views(out@);
    out.push(string_of_str("[Installing new version...]"));
    let mut k: usize = 0;
    while k < installed.len()
        invariant
            k <= installed@.len(),
            string_views(out@) == mid + seq!["[Installing new version...]"@] + string_views(
                installed@,
            ).subrange(0, k as int),
        decreases installed@.len() - k,
    {
        let ghost o = string_views(out@);
        out.push(installed[k].clone());
        assert(string_views(out@) =~= o.push(installed@[k as int]@));
        assert(string_views(installed@).subrange(0, k + 1) =~= string_views(installed@).subrange(
            0,
            k as int,
        ).push(installed@[k as int]@));
        k = k + 1;
    }
    assert(string_views(installed@).subrange(0, installed@.len() as int) =~= string_views(
        installed@,
    ));
    out
}

/// What installing a local `.rpm` means: a fresh install, a reinstall of the
/// same version, or an upgrade (or downgrade) of another.
pub fn install_action(installed: bool, version: &str, installed_version: &str) -> (r: &'static str)
    ensures
        r@ == (if !installed {
            "install"@
        } else if version@ == installed_version@ {
            "reinstall"@
        } else {
            "upgrade"@
        }),
{
    if !installed {
        "install"
    } else if str_eq(version, installed_version) {
        "reinstall"
    } else {
        "upgrade"
    }
}

/// A `Key: value` line of `rpm --queryformat` output, split at the first
/// `": "`: the key trimmed and in lower case, the value trimmed.
pub open spec fn rpm_field(line: Seq<char>) -> Option<(Seq<char>, Seq<char>)> {
    let k = crate::text::find_sub(line, ": "@);
    if k < 0 {
        None
    } else {
        Some((str_lowercase(trim(line.take(k))), trim(line.skip(k + 2))))
    }
}

/// The value of a field: that of the last line that sets it.
pub open spec fn rpm_field_value(lines: Seq<Seq<char>>, key: Seq<char>) -> Option<Seq<char>>
    decreases lines.len(),
{
    if lines.len() == 0 {
        None
    } else {
        match rpm_field(lines.last()) {
            Some((k, v)) if k == key => Some(v),
            _ => rpm_field_value(lines.drop_last(), key),
        }
    }
}

fn rpm_field_of(lines: &Vec<Vec<char>>, key: &str) -> (r: Option<String>)
    ensures
        match r {
            Some(v) => rpm_field_value(views(lines@), key@) == Some(v@),
            None => rpm_field_value(views(lines@), key@) is None,
        },
{
    proof {
        reveal_strlit(": ");
    }
    let ghost ls = views(lines@);
    let sep = chars_of(": ");
    let mut j: usize = lines.len();
    assert(ls.subrange(0, j as int) =~= ls);
    while j > 0
        invariant
            j <= lines@.len(),
            ls == views(lines@),
            sep@ == ": "@,
            sep@.len() == 2,
            rpm_field_value(ls, key@) == rpm_field_value(ls.subrange(0, j as int), key@),
        decreases j,
    {
        let line = &lines[j - 1];
        assert(ls.subrange(0, j as int).last() == line@);
        assert(ls.subrange(0, j as int).drop_last() =~= ls.subrange(0, j - 1));
        match crate::text::find_str(line, &sep) {
            Some(k) => {
                let n = line.len();
                let head = crate::text::subvec(line, 0, k);
                assert(head@ =~= line@.take(k as int));
                let kl = lowercase(string_of(&trim_vec(&head)).as_str());
                if str_eq(kl.as_str(), key) {
                    let v = crate::text::subvec(line, k + 2, n);
                    assert(v@ =~= line@.skip(k + 2));
                    return Some(string_of(&trim_vec(&v)));
                }
            },
            None => {},
        }
        j = j - 1;
    }
    None
}

/// What `rpm -qp` says of a local package file.
#[derive(Debug, Clone, Default)]
pub struct LocalRpmInfo {
    pub name: String,
    pub version: String,
    pub summary: String,
    pub description: String,
    pub url: String,
    pub size: i64,
    pub license: String,
    pub arch: String,
}

pub open spec fn field_or_empty(lines: Seq<Seq<char>>, key: Seq<char>) -> Seq<char> {
    match rpm_field_value(lines, key) {
        Some(v) => v,
        None => Seq::empty(),
    }
}

/// The fields of a local package from the output of its `rpm --queryformat`
/// query (`Name:`, `Version:`, `Summary:`, `Description:`, `URL:`,
/// `License:`, `Size:`, `Arch:` lines): the name defaults to the file's
/// stem, a URL of `(none)` counts as none, and a size that does not parse
/// as 0.
pub open spec fn local_rpm_info_ok(r: LocalRpmInfo, path: Seq<char>, lines: Seq<Seq<char>>) -> bool {
    &&& r.name@ == (match rpm_field_value(lines, "name"@) {
        Some(v) => v,
        None => match crate::text::path_file_stem(path) {
            Some(s) => s,
            None => Seq::empty(),
        },
    })
    &&& r.version@ == field_or_empty(lines, "version"@)
    &&& r.summary@ == field_or_empty(lines, "summary"@)
    &&& r.description@ == field_or_empty(lines, "description"@)
    &&& r.url@ == (if field_or_empty(lines, "url"@) == "(none)"@ {
        Seq::empty()
    } else {
        field_or_empty(lines, "url"@)
    })
    &&& r.size == (match rpm_field_value(lines, "size"@) {
        Some(v) => match crate::num::parse_i64_spec(v) {
            Some(n) => n,
            None => 0,
        },
        None => 0,
    })
    &&& r.license@ == field_or_empty(lines, "license"@)
    &&& r.arch@ == field_or_empty(lines, "arch"@)
}

fn field_text(lines: &Vec<Vec<char>>, key: &str) -> (r: String)
    ensures
        r@ == field_or_empty(views(lines@), key@),
{
    match rpm_field_of(lines, key) {
        Some(v) => v,
        None => String::new(),
    }
}

/// Read the fields of a local package file at `path` from its query output.
pub fn parse_local_rpm_info(path: &str, query: &str) -> (r: LocalRpmInfo)
    ensures
        local_rpm_info_ok(r, path@, crate::text::str_lines(query@)),
{
    proof {
        reveal_strlit("(none)");
    }
    let lines = crate::text::lines(&chars_of(query));
    let name = match rpm_field_of(&lines, "name") {
        Some(v) => v,
        None => match crate::text::file_stem_of(&chars_of(path)) {
            Some(s) => string_of(&s),
            None => String::new(),
        },
    };
    let url = field_text(&lines, "url");
    let url = if str_eq(url.as_str(), "(none)") {
        String::new()
    } else {
        url
    };
    let size: i64 = match rpm_field_of(&lines, "size") {
        Some(v) => match crate::num::parse_i64(&chars_of(v.as_str())) {
            Some(n) => n,
            None => 0,
        },
        None => 0,
    };
    LocalRpmInfo {
        name,
        version: field_text(&lines, "version"),
        summary: field_text(&lines, "summary"),
        description: field_text(&lines, "description"),
        url,
        size,
        license: field_text(&lines, "license"),
        arch: field_text(&lines, "arch"),
    }
}

fn ascii_lower_char(c: char) -> (r: char)
    ensures
        r == crate::appstream::ascii_lower(c),
{
    if 'A' <= c && c <= 'Z' {
        ((c as u8) + 32) as char
    } else {
        c
    }
}

/// `str::eq_ignore_ascii_case`.
pub fn eq_ignore_ascii(a: &str, b: &str) -> (r: bool)
    ensures
        r == crate::appstream::eq_ignore_ascii_case(a@, b@),
{
    let x = chars_of(a);
    let y = chars_of(b);
    if x.len() != y.len() {
        return false;
    }
    let mut i: usize = 0;
    while i < x.len()
        invariant
            i <= x@.len(),
            x@ == a@,
            y@ == b@,
            x@.len() == y@.len(),
            forall|j: int| 0 <= j < i ==> crate::appstream::ascii_lower(#[trigger] x@[j]) == crate::appstream::ascii_lower(y@[j]),
        decreases x@.len() - i,
    {
        if ascii_lower_char(x[i]) != ascii_lower_char(y[i]) {
            return false;
        }
        i = i + 1;
    }
    true
}

/// Whether a catalog record describes a local package by this name: its
/// package name or id is the name, or its display name is, ignoring ASCII
/// case.
pub open spec fn describes_package(a: AppInfo, name: Seq<char>) -> bool {
    a.package_name@ == name || a.id@ == name || crate::appstream::eq_ignore_ascii_case(a.name@, name)
}

pub open spec fn first_describing(e: Seq<(Seq<char>, AppInfo)>, name: Seq<char>, j: int) -> Option<AppInfo>
    decreases e.len() - j,
{
    if j < 0 || j >= e.len() {
        None
    } else if describes_package(e[j].1, name) {
        Some(e[j].1)
    } else {
        first_describing(e, name, j + 1)
    }
}

/// The icon path and icon URL of the first catalog record describing a local
/// package (empty when there is none).
pub fn local_rpm_icon(cat: &crate::appstream::Catalog, name: &str) -> (r: (String, String))
    ensures
        match first_describing(cat.view_entries(), name@, 0) {
            Some(a) => r.0 == a.icon_path && r.1 == a.icon_url,
            None => r.0@.len() == 0 && r.1@.len() == 0,
        },
{
    let ghost e = cat.view_entries();
    let mut j: usize = 0;
    while j < cat.entries.len()
        invariant
            j <= cat.entries@.len(),
            e == cat.view_entries(),
            first_describing(e, name@, 0) == first_describing(e, name@, j as int),
        decreases cat.entries@.len() - j,
    {
        let a = &cat.entries[j].1;
        assert(e[j as int].1 == *a);
        if str_eq(a.package_name.as_str(), name) || str_eq(a.id.as_str(), name) || eq_ignore_ascii(
            a.name.as_str(),
            name,
        ) {
            return (a.icon_path.clone(), a.icon_url.clone());
        }
        j = j + 1;
    }
    (String::new(), String::new())
}

// ── Reading `flatpak list --runtime` ────────────────────────────────────────

/// The runtime a line of `flatpak list --runtime
/// --columns=application,name,version,origin` names, if any.
pub open spec fn runtime_from_line(r: FlatpakRuntime, line: Seq<char>) -> bool {
    let cols = crate::text::splitn_char(line, '\t', 4);
    let id = trim(cols[0]);
    let name = crate::flatpak::col(cols, 1);
    &&& r.app_id@ == id
    &&& r.name@ == (if name.len() == 0 {
        id
    } else {
        name
    })
    &&& r.version@ == crate::flatpak::col(cols, 2)
    &&& r.origin@ == (if cols.len() > 3 {
        trim(cols[3])
    } else {
        "flathub"@
    })
}

pub open spec fn runtime_lines(lines: Seq<Seq<char>>) -> Seq<Seq<char>>
    decreases lines.len(),
{
    if lines.len() == 0 {
        Seq::empty()
    } else if trim(crate::text::splitn_char(lines.last(), '\t', 4)[0]).len() > 0 {
        runtime_lines(lines.drop_last()).push(lines.last())
    } else {
        runtime_lines(lines.drop_last())
    }
}

pub fn parse_runtimes(text: &str) -> (r: Vec<FlatpakRuntime>)
    ensures
        r@.len() == runtime_lines(crate::text::str_lines(text@)).len(),
        forall|k: int|
            0 <= k < r@.len() ==> runtime_from_line(
                #[trigger] r@[k],
                runtime_lines(crate::text::str_lines(text@))[k],
            ),
{
    let lines = crate::text::lines(&chars_of(text));
    let ghost ls = views(lines@);
    let mut out: Vec<FlatpakRuntime> = Vec::new();
    let mut i: usize = 0;
    while i < lines.len()
        invariant
            i <= lines@.len(),
            ls == views(lines@),
            ls == crate::text::str_lines(text@),
            out@.len() == runtime_lines(ls.subrange(0, i as int)).len(),
            forall|k: int|
                0 <= k < out@.len() ==> runtime_from_line(
                    #[trigger] out@[k],
                    runtime_lines(ls.subrange(0, i as int))[k],
                ),
        decreases lines@.len() - i,
    {
        let ghost pre = ls.subrange(0, i + 1);
        assert(pre.drop_last() =~= ls.subrange(0, i as int));
        assert(pre.last() == lines@[i as int]@);
        let cols = crate::text::splitn(&lines[i], '\t', 4);
        let id = trim_vec(&cols[0]);
        if id.len() > 0 {
            let name = if cols.len() > 1 {
                trim_vec(&cols[1])
            } else {
                Vec::new()
            };
            let version = if cols.len() > 2 {
                trim_vec(&cols[2])
            } else {
                Vec::new()
            };
            let origin = if cols.len() > 3 {
                string_of(&trim_vec(&cols[3]))
            } else {
                string_of_str("flathub")
            };
            let id_s = string_of(&id);
            let name_s = if name.len() == 0 {
                string_of(&id)
            } else {
                string_of(&name)
            };
            out.push(
                FlatpakRuntime { app_id: id_s, name: name_s, version: string_of(&version), origin },
            );
            assert(runtime_lines(pre) == runtime_lines(ls.subrange(0, i as int)).push(
                lines@[i as int]@,
            ));
        } else {
            assert(runtime_lines(pre) == runtime_lines(ls.subrange(0, i as int)));
        }
        i = i + 1;
    }
    assert(ls.subrange(0, lines@.len() as int) =~= ls);
    out
}


// ── Install sources ─────────────────────────────────────────────────────────

/// The display data of a source option equals that of its record.
pub open spec fn option_display_ok(
    o: SourceOption,
    summary: String,
    description: String,
    version: String,
    developer: String,
    license: String,
    screenshots: Seq<String>,
    icon_path: String,
    icon_url: String,
) -> bool {
    &&& o.summary == summary && o.description == description && o.version == version
    &&& o.developer == developer && o.license == license && o.screenshots@ == screenshots
    &&& o.icon_path == icon_path && o.icon_url == icon_url
}

/// The remote a store record is offered from: its first remote for a
/// Flatpak (Flathub when it has none), none for a native package.
pub open spec fn app_remote(app: NativeApp) -> Seq<char> {
    if app.source@ == "flatpak"@ {
        if app.remotes@.len() > 0 {
            app.remotes@[0]@
        } else {
            "flathub"@
        }
    } else {
        Seq::empty()
    }
}

/// The install source that a store record stands for.
pub fn source_option_from_native_app(app: &NativeApp) -> (o: SourceOption)
    ensures
        o.id@ == (if app.source@ == "flatpak"@ {
            bare_id(app.id@)
        } else {
            app.id@
        }),
        o.source == app.source && o.package_name == app.package_name && o.installed
            == app.installed,
        o.label@ == source_label_spec(app.source@, app_remote(*app), false),
        o.remote@ == app_remote(*app) && !o.user_remote,
        o.url_homepage == app.url_homepage && o.url_bugtracker == app.url_bugtracker
            && o.url_donation == app.url_donation && o.url_help == app.url_help && o.url_faq
            == app.url_faq && o.url_vcs_browser == app.url_vcs_browser && o.url_contribute
            == app.url_contribute,
        option_display_ok(
            o,
            app.summary,
            app.description,
            app.version,
            app.developer,
            app.license,
            app.screenshots@,
            app.icon_path,
            app.icon_url,
        ),
{
    let is_fp = str_eq(app.source.as_str(), "flatpak");
    let remote = if is_fp {
        if app.remotes.len() > 0 {
            app.remotes[0].clone()
        } else {
            string_of_str("flathub")
        }
    } else {
        String::new()
    };
    SourceOption {
        id: if is_fp {
            fp_bare(app.id.as_str())
        } else {
            app.id.clone()
        },
        source: app.source.clone(),
        package_name: app.package_name.clone(),
        installed: app.installed,
        label: source_label(app.source.as_str(), remote.as_str(), false),
        remote,
        user_remote: false,
        summary: app.summary.clone(),
        description: app.description.clone(),
        version: app.version.clone(),
        developer: app.developer.clone(),
        url_homepage: app.url_homepage.clone(),
        url_bugtracker: app.url_bugtracker.clone(),
        url_donation: app.url_donation.clone(),
        url_help: app.url_help.clone(),
        url_faq: app.url_faq.clone(),
        url_vcs_browser: app.url_vcs_browser.clone(),
        url_contribute: app.url_contribute.clone(),
        license: app.license.clone(),
        screenshots: clone_strings(&app.screenshots),
        icon_path: app.icon_path.clone(),
        icon_url: app.icon_url.clone(),
    }
}

/// The install source that a catalog entry stands for, from `remote`.
pub fn source_option_from_app_info(
    info: &AppInfo,
    installed: bool,
    remote: &str,
    user_remote: bool,
) -> (o: SourceOption)
    ensures
        o.id@ == (if info.source@ == "flatpak"@ {
            bare_id(info.id@)
        } else {
            info.id@
        }),
        o.source == info.source && o.package_name == info.package_name && o.installed
            == installed,
        o.label@ == source_label_spec(info.source@, remote@, user_remote),
        o.remote@ == remote@ && o.user_remote == user_remote,
        o.url_homepage == info.url_homepage && o.url_bugtracker == info.url_bugtracker
            && o.url_donation == info.url_donation && o.url_help == info.url_help && o.url_faq
            == info.url_faq && o.url_vcs_browser == info.url_vcs_browser && o.url_contribute
            == info.url_contribute,
        option_display_ok(
            o,
            info.summary,
            info.description,
            info.version,
            info.developer,
            info.license,
            info.screenshots@,
            info.icon_path,
            info.icon_url,
        ),
{
    let is_fp = str_eq(info.source.as_str(), "flatpak");
    SourceOption {
        id: if is_fp {
            fp_bare(info.id.as_str())
        } else {
            info.id.clone()
        },
        source: info.source.clone(),
        package_name: info.package_name.clone(),
        installed,
        label: source_label(info.source.as_str(), remote, user_remote),
        remote: string_of_str(remote),
        user_remote,
        summary: info.summary.clone(),
        description: info.description.clone(),
        version: info.version.clone(),
        developer: info.developer.clone(),
        url_homepage: info.url_homepage.clone(),
        url_bugtracker: info.url_bugtracker.clone(),
        url_donation: info.url_donation.clone(),
        url_help: info.url_help.clone(),
        url_faq: info.url_faq.clone(),
        url_vcs_browser: info.url_vcs_browser.clone(),
        url_contribute: info.url_contribute.clone(),
        license: info.license.clone(),
        screenshots: clone_strings(&info.screenshots),
        icon_path: info.icon_path.clone(),
        icon_url: info.icon_url.clone(),
    }
}

/// The members of a group of same-named records in the order they are
/// offered: native and other non-Flatpak records first, each part in its
/// order as given.
pub open spec fn offer_order(group: Seq<NativeApp>) -> Seq<NativeApp> {
    group.filter(|a: NativeApp| a.source@ != "flatpak"@) + group.filter(
        |a: NativeApp| a.source@ == "flatpak"@,
    )
}

/// The screenshots of the primary record after each alternative is seen in
/// turn: a Flatpak's non-empty list always wins, another's only fills an
/// empty one.
pub open spec fn merged_screenshots(primary: Seq<String>, alts: Seq<NativeApp>) -> Seq<String>
    decreases alts.len(),
{
    if alts.len() == 0 {
        primary
    } else {
        let before = merged_screenshots(primary, alts.drop_last());
        let alt = alts.last();
        if alt.source@ == "flatpak"@ && alt.screenshots@.len() > 0 {
            alt.screenshots@
        } else if before.len() == 0 && alt.screenshots@.len() > 0 {
            alt.screenshots@
        } else {
            before
        }
    }
}

/// The description after each alternative is seen: the first non-empty one.
pub open spec fn merged_description(primary: Seq<char>, alts: Seq<NativeApp>) -> Seq<char>
    decreases alts.len(),
{
    if alts.len() == 0 {
        primary
    } else {
        let before = merged_description(primary, alts.drop_last());
        if before.len() == 0 && alts.last().description@.len() > 0 {
            alts.last().description@
        } else {
            before
        }
    }
}

/// Put the records of one group in offer order (see `offer_order`).
pub fn order_group(group: Vec<NativeApp>) -> (r: Vec<NativeApp>)
    ensures
        r@ == offer_order(group@),
{
    let ghost g = group@;
    let ghost nonfp = |a: NativeApp| a.source@ != "flatpak"@;
    let ghost isfp = |a: NativeApp| a.source@ == "flatpak"@;
    let mut first: Vec<NativeApp> = Vec::new();
    let mut second: Vec<NativeApp> = Vec::new();
    let mut rest = group;
    let ghost mut i: int = 0;
    assert(g.subrange(0, 0).filter(nonfp) =~= Seq::<NativeApp>::empty());
    assert(g.subrange(0, 0).filter(isfp) =~= Seq::<NativeApp>::empty());
    assert(g.subrange(0, g.len() as int) =~= g);
    while rest.len() > 0
        invariant
            0 <= i <= g.len(),
            rest@ == g.subrange(i, g.len() as int),
            first@ == g.subrange(0, i).filter(nonfp),
            second@ == g.subrange(0, i).filter(isfp),
            nonfp == (|a: NativeApp| a.source@ != "flatpak"@),
            isfp == (|a: NativeApp| a.source@ == "flatpak"@),
        decreases rest@.len(),
    {
        let a = rest.remove(0);
        proof {
            assert(a == g[i]);
            g.subrange(0, i).lemma_filter_push(g[i], nonfp);
            g.subrange(0, i).lemma_filter_push(g[i], isfp);
            assert(g.subrange(0, i + 1) =~= g.subrange(0, i).push(g[i]));
            assert(rest@ =~= g.subrange(i + 1, g.len() as int));
        }
        if str_eq(a.source.as_str(), "flatpak") {
            second.push(a);
        } else {
            first.push(a);
        }
        proof {
            i = i + 1;
        }
    }
    assert(g.subrange(0, i) =~= g);
    first.append(&mut second);
    first
}

proof fn lemma_offer_order_len(g: Seq<NativeApp>)
    ensures
        offer_order(g).len() == g.len(),
    decreases g.len(),
{
    if g.len() > 0 {
        let nf = |a: NativeApp| a.source@ != "flatpak"@;
        let f = |a: NativeApp| a.source@ == "flatpak"@;
        lemma_offer_order_len(g.drop_last());
        g.drop_last().lemma_filter_push(g.last(), nf);
        g.drop_last().lemma_filter_push(g.last(), f);
        assert(g.drop_last().push(g.last()) =~= g);
    } else {
        assert(offer_order(g).len() == 0);
    }
}

/// A source option stands for a store record (see
/// `source_option_from_native_app`).
pub open spec fn option_of_app(o: SourceOption, app: NativeApp) -> bool {
    &&& o.id@ == (if app.source@ == "flatpak"@ {
        bare_id(app.id@)
    } else {
        app.id@
    })
    &&& o.source == app.source && o.package_name == app.package_name && o.installed
        == app.installed
    &&& o.label@ == source_label_spec(app.source@, app_remote(app), false)
    &&& o.remote@ == app_remote(app) && !o.user_remote
    &&& option_display_ok(
        o,
        app.summary,
        app.description,
        app.version,
        app.developer,
        app.license,
        app.screenshots@,
        app.icon_path,
        app.icon_url,
    )
}

/// Fields a merged record keeps from its primary.
pub open spec fn keeps_identity(r: NativeApp, p: NativeApp) -> bool {
    &&& r.id == p.id && r.name == p.name && r.summary == p.summary && r.version == p.version
    &&& r.package_name == p.package_name && r.icon == p.icon && r.icon_url == p.icon_url
    &&& r.icon_path == p.icon_path && r.categories@ == p.categories@ && r.keywords@ == p.keywords@
    &&& r.developer == p.developer && r.license == p.license && r.source == p.source
    &&& r.is_addon == p.is_addon && r.pkg_name_guessed == p.pkg_name_guessed
    &&& r.remotes@ == p.remotes@
    &&& r.url_bugtracker == p.url_bugtracker && r.url_donation == p.url_donation
    &&& r.url_help == p.url_help && r.url_faq == p.url_faq && r.url_vcs_browser == p.url_vcs_browser
    &&& r.url_contribute == p.url_contribute && r.update_url == p.update_url
    &&& r.update_pattern == p.update_pattern
}

/// Merge records of the same name from different sources into one: the
/// first in offer order is primary; every member becomes one of its
/// sources; screenshots and description are filled from the others; it is
/// installed when any source is.
pub fn merge_group(group: Vec<NativeApp>) -> (r: NativeApp)
    requires
        group@.len() >= 2,
    ensures
        ({
            let ord = offer_order(group@);
            &&& keeps_identity(r, ord[0])
            &&& r.screenshots@ == merged_screenshots(ord[0].screenshots@, ord.drop_first())
            &&& r.description@ == merged_description(ord[0].description@, ord.drop_first())
            &&& r.sources@.len() == ord.len()
            &&& forall|k: int| 0 <= k < ord.len() ==> option_of_app(#[trigger] r.sources@[k], ord[k])
            &&& r.installed == exists|k: int| 0 <= k < ord.len() && (#[trigger] ord[k]).installed
            &&& r.url_homepage == ord[0].url_homepage && r.update_source == ord[0].update_source
        }),
{
    let ghost g0 = group@;
    let mut ord = order_group(group);
    let ghost o = ord@;
    proof {
        lemma_offer_order_len(g0);
    }
    let mut primary = ord.remove(0);
    assert(ord@ =~= o.drop_first());
    let mut sources: Vec<SourceOption> = Vec::new();
    sources.push(source_option_from_native_app(&primary));
    let mut k: usize = 0;
    while k < ord.len()
        invariant
            k <= ord@.len(),
            ord@ == o.drop_first(),
            o.len() == ord@.len() + 1,
            keeps_identity(primary, o[0]),
            primary.screenshots@ == merged_screenshots(o[0].screenshots@, ord@.subrange(0, k as int)),
            primary.description@ == merged_description(o[0].description@, ord@.subrange(0, k as int)),
            primary.installed == o[0].installed,
            primary.url_homepage == o[0].url_homepage,
            primary.update_source == o[0].update_source,
            sources@.len() == k + 1,
            forall|q: int| 0 <= q <= k ==> option_of_app(#[trigger] sources@[q], o[q]),
        decreases ord@.len() - k,
    {
        let alt = &ord[k];
        assert(ord@[k as int] == o[k + 1]);
        let opt = source_option_from_native_app(alt);
        assert(option_of_app(opt, o[k + 1]));
        let ghost s0 = sources@;
        sources.push(opt);
        assert(forall|q: int| 0 <= q <= k ==> sources@[q] == s0[q]);
        let ghost pre = ord@.subrange(0, k + 1);
        assert(pre.drop_last() =~= ord@.subrange(0, k as int));
        if str_eq(alt.source.as_str(), "flatpak") && alt.screenshots.len() > 0 {
            primary.screenshots = clone_strings(&alt.screenshots);
        } else if primary.screenshots.len() == 0 && alt.screenshots.len() > 0 {
            primary.screenshots = clone_strings(&alt.screenshots);
        }
        if primary.description.as_str().is_empty() && !alt.description.as_str().is_empty() {
            primary.description = alt.description.clone();
        }
        k = k + 1;
    }
    assert(ord@.subrange(0, ord@.len() as int) =~= ord@);
    let mut installed = false;
    let mut q: usize = 0;
    while q < sources.len()
        invariant
            q <= sources@.len(),
            sources@.len() == o.len(),
            forall|j: int| 0 <= j < o.len() ==> option_of_app(#[trigger] sources@[j], o[j]),
            installed == exists|j: int| 0 <= j < q && (#[trigger] o[j]).installed,
        decreases sources@.len() - q,
    {
        assert(option_of_app(sources@[q as int], o[q as int]));
        if sources[q].installed {
            installed = true;
        }
        q = q + 1;
    }
    primary.sources = sources;
    primary.installed = installed;
    primary
}

// ── Catalog queries ─────────────────────────────────────────────────────────

/// Whether a list of names holds `x`.
pub fn in_list(list: &Vec<String>, x: &str) -> (r: bool)
    ensures
        r == string_views(list@).contains(x@),
{
    let mut i: usize = 0;
    while i < list.len()
        invariant
            i <= list@.len(),
            forall|j: int| 0 <= j < i ==> (#[trigger] list@[j])@ != x@,
        decreases list@.len() - i,
    {
        if str_eq(list[i].as_str(), x) {
            assert(string_views(list@)[i as int] == x@);
            return true;
        }
        i = i + 1;
    }
    assert forall|j: int| 0 <= j < string_views(list@).len() implies string_views(list@)[j] != x@ by {
        assert(string_views(list@)[j] == list@[j]@);
    }
    false
}

/// Whether a catalog record is installed: a Flatpak when its id without
/// `.desktop` is among the installed Flatpaks, another when its package
/// name is among the installed packages.
pub open spec fn installed_in(a: AppInfo, rpm: Seq<Seq<char>>, fp: Seq<Seq<char>>) -> bool {
    if a.source@ == "flatpak"@ {
        fp.contains(bare_id(a.id@))
    } else {
        rpm.contains(a.package_name@)
    }
}

pub fn installed_flag(a: &AppInfo, rpm: &Vec<String>, fp: &Vec<String>) -> (r: bool)
    ensures
        r == installed_in(*a, string_views(rpm@), string_views(fp@)),
{
    if str_eq(a.source.as_str(), "flatpak") {
        let b = fp_bare(a.id.as_str());
        in_list(fp, b.as_str())
    } else {
        in_list(rpm, a.package_name.as_str())
    }
}

/// A store record holds what a catalog entry holds (see
/// `NativeApp::from_info`), apart from whether it is installed.
pub open spec fn native_of(r: NativeApp, a: AppInfo) -> bool {
    &&& r.id == a.id && r.name == a.name && r.summary == a.summary && r.description == a.description
    &&& r.version == a.version && r.package_name == a.package_name && r.icon == a.icon
    &&& r.icon_url == a.icon_url && r.icon_path == a.icon_path
    &&& r.categories@ == a.categories@ && r.keywords@ == a.keywords@ && r.screenshots@ == a.screenshots@
    &&& r.developer == a.developer && r.license == a.license && r.source == a.source
    &&& r.url_homepage == a.url_homepage && r.url_bugtracker == a.url_bugtracker
    &&& r.url_donation == a.url_donation && r.url_help == a.url_help && r.url_faq == a.url_faq
    &&& r.url_vcs_browser == a.url_vcs_browser && r.url_contribute == a.url_contribute
    &&& r.is_addon == a.is_addon && r.pkg_name_guessed == a.pkg_name_guessed
    &&& r.update_source@.len() == 0 && r.update_url@.len() == 0 && r.update_pattern@.len() == 0
    &&& r.sources@.len() == 0 && r.remotes@ == a.remotes@
}

/// The store record of a catalog entry, marked installed as `installed_in`
/// says.
pub fn listed_app(a: &AppInfo, rpm: &Vec<String>, fp: &Vec<String>) -> (r: NativeApp)
    ensures
        native_of(r, *a),
        r.installed == installed_in(*a, string_views(rpm@), string_views(fp@)),
{
    let mut r = NativeApp::from_info(a);
    r.installed = installed_flag(a, rpm, fp);
    r
}

/// The catalog records that have a package name, in catalog order.
pub open spec fn with_package(e: Seq<(Seq<char>, AppInfo)>) -> Seq<AppInfo>
    decreases e.len(),
{
    if e.len() == 0 {
        Seq::empty()
    } else if e.last().1.package_name@.len() > 0 {
        with_package(e.drop_last()).push(e.last().1)
    } else {
        with_package(e.drop_last())
    }
}

/// Every catalog record that has a package name, as a store record marked
/// installed or not.
pub fn get_available(cat: &crate::appstream::Catalog, rpm: &Vec<String>, fp: &Vec<String>) -> (r: Vec<NativeApp>)
    ensures
        r@.len() == with_package(cat.view_entries()).len(),
        forall|k: int| 0 <= k < r@.len() ==> {
            let a = with_package(cat.view_entries())[k];
            &&& native_of(#[trigger] r@[k], a)
            &&& r@[k].installed == installed_in(a, string_views(rpm@), string_views(fp@))
        },
{
    let ghost e = cat.view_entries();
    let mut out: Vec<NativeApp> = Vec::new();
    let mut j: usize = 0;
    assert(e.subrange(0, 0) =~= Seq::<(Seq<char>, AppInfo)>::empty());
    while j < cat.entries.len()
        invariant
            j <= cat.entries@.len(),
            e == cat.view_entries(),
            out@.len() == with_package(e.subrange(0, j as int)).len(),
            forall|k: int| 0 <= k < out@.len() ==> {
                let a = with_package(e.subrange(0, j as int))[k];
                &&& native_of(#[trigger] out@[k], a)
                &&& out@[k].installed == installed_in(a, string_views(rpm@), string_views(fp@))
            },
        decreases cat.entries@.len() - j,
    {
        let a = &cat.entries[j].1;
        assert(e[j as int].1 == *a);
        assert(e.subrange(0, j + 1).drop_last() =~= e.subrange(0, j as int));
        assert(e.subrange(0, j + 1).last() == e[j as int]);
        if a.package_name.unicode_len() > 0 {
            let ghost before = out@;
            out.push(listed_app(a, rpm, fp));
            assert forall|k: int| 0 <= k < out@.len() implies {
                let b = with_package(e.subrange(0, j + 1))[k];
                &&& native_of(#[trigger] out@[k], b)
                &&& out@[k].installed == installed_in(b, string_views(rpm@), string_views(fp@))
            } by {
                if k < before.len() {
                    assert(out@[k] == before[k]);
                }
            }
        }
        j = j + 1;
    }
    assert(e.subrange(0, e.len() as int) =~= e);
    out
}

/// An add-on of an app, as the details page lists it.
#[derive(Debug, Clone)]
pub struct AddonInfo {
    pub id: String,
    pub name: String,
    pub summary: String,
    pub source: String,
    pub package_name: String,
    pub installed: bool,
}

/// The catalog's add-ons of `app_id` that fit the selected source: Flatpak
/// add-ons for a Flatpak, the others for any other source.
pub open spec fn addons_spec(
    e: Seq<(Seq<char>, AppInfo)>,
    app_id: Seq<char>,
    flatpak: bool,
    rpm: Seq<Seq<char>>,
    fp: Seq<Seq<char>>,
) -> Seq<AddonInfo>
    decreases e.len(),
{
    if e.len() == 0 {
        Seq::empty()
    } else {
        let a = e.last().1;
        let rest = addons_spec(e.drop_last(), app_id, flatpak, rpm, fp);
        if a.is_addon && a.extends@ == app_id && (a.source@ == "flatpak"@) == flatpak {
            rest.push(
                AddonInfo {
                    id: a.id,
                    name: a.name,
                    summary: a.summary,
                    source: a.source,
                    package_name: a.package_name,
                    installed: installed_in(a, rpm, fp),
                },
            )
        } else {
            rest
        }
    }
}

/// The add-ons of an app for the selected source type (see `addons_spec`),
/// ordered by name.
pub fn get_addons_for_app(
    app_id: &str,
    source_type: &str,
    cat: &crate::appstream::Catalog,
    rpm: &Vec<String>,
    fp: &Vec<String>,
) -> (r: Vec<AddonInfo>)
    ensures
        r@ == crate::order::stable_sorted(
            addons_spec(
                cat.view_entries(),
                app_id@,
                source_type@ == "flatpak"@,
                string_views(rpm@),
                string_views(fp@),
            ),
            |x: AddonInfo| x.name@,
        ),
        crate::order::sorted_by(r@, |x: AddonInfo| x.name@),
{
    let ghost e = cat.view_entries();
    let flatpak = str_eq(source_type, "flatpak");
    let mut out: Vec<AddonInfo> = Vec::new();
    let mut keys: Vec<Vec<char>> = Vec::new();
    let mut j: usize = 0;
    assert(e.subrange(0, 0) =~= Seq::<(Seq<char>, AppInfo)>::empty());
    while j < cat.entries.len()
        invariant
            j <= cat.entries@.len(),
            e == cat.view_entries(),
            flatpak == (source_type@ == "flatpak"@),
            out@ == addons_spec(e.subrange(0, j as int), app_id@, flatpak, string_views(rpm@), string_views(fp@)),
            keys@.len() == out@.len(),
            forall|q: int| 0 <= q < out@.len() ==> (#[trigger] keys@[q])@ == out@[q].name@,
        decreases cat.entries@.len() - j,
    {
        let a = &cat.entries[j].1;
        assert(e[j as int].1 == *a);
        assert(e.subrange(0, j + 1).drop_last() =~= e.subrange(0, j as int));
        assert(e.subrange(0, j + 1).last() == e[j as int]);
        if a.is_addon && str_eq(a.extends.as_str(), app_id) && str_eq(a.source.as_str(), "flatpak") == flatpak {
            let installed = installed_flag(a, rpm, fp);
            let ghost ko = keys@;
            out.push(AddonInfo {
                id: a.id.clone(),
                name: a.name.clone(),
                summary: a.summary.clone(),
                source: a.source.clone(),
                package_name: a.package_name.clone(),
                installed,
            });
            keys.push(chars_of(a.name.as_str()));
            assert forall|q: int| 0 <= q < out@.len() implies (#[trigger] keys@[q])@ == out@[q].name@ by {
                if q < ko.len() {
                    assert(keys@[q] == ko[q]);
                }
            }
        }
        j = j + 1;
    }
    assert(e.subrange(0, e.len() as int) =~= e);
    crate::order::sort_keyed(out, keys, Ghost(|x: AddonInfo| x.name@))
}

// ── Install sources of an app ───────────────────────────────────────────────

/// A source option stands for a catalog entry offered from `remote` (see
/// `source_option_from_app_info`).
pub open spec fn option_of_info(o: SourceOption, info: AppInfo, installed: bool, remote: Seq<char>, user_remote: bool) -> bool {
    &&& o.id@ == (if info.source@ == "flatpak"@ {
        bare_id(info.id@)
    } else {
        info.id@
    })
    &&& o.source == info.source && o.package_name == info.package_name && o.installed == installed
    &&& o.label@ == source_label_spec(info.source@, remote, user_remote)
    &&& o.remote@ == remote && o.user_remote == user_remote
    &&& o.url_homepage == info.url_homepage && o.url_bugtracker == info.url_bugtracker
    &&& o.url_donation == info.url_donation && o.url_help == info.url_help && o.url_faq == info.url_faq
    &&& o.url_vcs_browser == info.url_vcs_browser && o.url_contribute == info.url_contribute
    &&& option_display_ok(
        o,
        info.summary,
        info.description,
        info.version,
        info.developer,
        info.license,
        info.screenshots@,
        info.icon_path,
        info.icon_url,
    )
}

/// The first catalog record from position `j` on that is not from Flatpak,
/// has the name `lc` (in lower case) and a package name that was not
/// guessed.
pub open spec fn native_by_name(e: Seq<(Seq<char>, AppInfo)>, lc: Seq<char>, j: int) -> Option<AppInfo>
    decreases e.len() - j,
{
    if j < 0 || j >= e.len() {
        None
    } else if e[j].1.source@ != "flatpak"@ && str_lowercase(e[j].1.name@) == lc && e[j].1.package_name@.len() > 0
        && !e[j].1.pkg_name_guessed {
        Some(e[j].1)
    } else {
        native_by_name(e, lc, j + 1)
    }
}

/// The first Flatpak record from position `j` on with the name `lc` (in
/// lower case) and a package name.
pub open spec fn flatpak_by_name(e: Seq<(Seq<char>, AppInfo)>, lc: Seq<char>, j: int) -> Option<AppInfo>
    decreases e.len() - j,
{
    if j < 0 || j >= e.len() {
        None
    } else if e[j].1.source@ == "flatpak"@ && str_lowercase(e[j].1.name@) == lc && e[j].1.package_name@.len() > 0 {
        Some(e[j].1)
    } else {
        flatpak_by_name(e, lc, j + 1)
    }
}

/// The first record from position `j` on not from Flatpak with this
/// package name.
pub open spec fn native_by_package(e: Seq<(Seq<char>, AppInfo)>, pkg: Seq<char>, j: int) -> Option<AppInfo>
    decreases e.len() - j,
{
    if j < 0 || j >= e.len() {
        None
    } else if e[j].1.source@ != "flatpak"@ && e[j].1.package_name@ == pkg {
        Some(e[j].1)
    } else {
        native_by_package(e, pkg, j + 1)
    }
}

/// The Flatpak id a package maps to (the first pair with that package).
pub open spec fn mapped_flatpak(m: Seq<(Seq<char>, Seq<char>)>, pkg: Seq<char>) -> Option<Seq<char>>
    decreases m.len(),
{
    if m.len() == 0 {
        None
    } else if m[0].0 == pkg {
        Some(m[0].1)
    } else {
        mapped_flatpak(m.drop_first(), pkg)
    }
}

pub open spec fn pair_views(m: Seq<(String, String)>) -> Seq<(Seq<char>, Seq<char>)> {
    m.map_values(|x: (String, String)| (x.0@, x.1@))
}

/// The Flatpak counterpart of a native record: the record under
/// `flatpak:<id>`, else the one under `flatpak:<mapped id>` for its
/// package, else the first Flatpak of the same name.
pub open spec fn flatpak_alt(
    e: Seq<(Seq<char>, AppInfo)>,
    id: Seq<char>,
    pkg: Seq<char>,
    name: Seq<char>,
    m: Seq<(Seq<char>, Seq<char>)>,
) -> Option<AppInfo> {
    match lookup(e, "flatpak:"@ + id) {
        Some(a) => Some(a),
        None => match mapped_flatpak(m, pkg) {
            Some(f) if lookup(e, "flatpak:"@ + f) is Some => lookup(e, "flatpak:"@ + f),
            _ => flatpak_by_name(e, str_lowercase(name), 0),
        },
    }
}

fn find_native_by_name(cat: &crate::appstream::Catalog, lc: &str) -> (r: Option<usize>)
    ensures
        match r {
            Some(j) => j < cat.entries@.len() && native_by_name(cat.view_entries(), lc@, 0) == Some(cat.entries@[j as int].1),
            None => native_by_name(cat.view_entries(), lc@, 0) is None,
        },
{
    let ghost e = cat.view_entries();
    let mut j: usize = 0;
    while j < cat.entries.len()
        invariant
            j <= cat.entries@.len(),
            e == cat.view_entries(),
            native_by_name(e, lc@, 0) == native_by_name(e, lc@, j as int),
        decreases cat.entries@.len() - j,
    {
        let a = &cat.entries[j].1;
        assert(e[j as int].1 == *a);
        if !str_eq(a.source.as_str(), "flatpak") && a.package_name.unicode_len() > 0 && !a.pkg_name_guessed {
            if str_eq(lowercase(a.name.as_str()).as_str(), lc) {
                return Some(j);
            }
        }
        j = j + 1;
    }
    None
}

fn find_flatpak_by_name(cat: &crate::appstream::Catalog, lc: &str) -> (r: Option<usize>)
    ensures
        match r {
            Some(j) => j < cat.entries@.len() && flatpak_by_name(cat.view_entries(), lc@, 0) == Some(cat.entries@[j as int].1),
            None => flatpak_by_name(cat.view_entries(), lc@, 0) is None,
        },
{
    let ghost e = cat.view_entries();
    let mut j: usize = 0;
    while j < cat.entries.len()
        invariant
            j <= cat.entries@.len(),
            e == cat.view_entries(),
            flatpak_by_name(e, lc@, 0) == flatpak_by_name(e, lc@, j as int),
        decreases cat.entries@.len() - j,
    {
        let a = &cat.entries[j].1;
        assert(e[j as int].1 == *a);
        if str_eq(a.source.as_str(), "flatpak") && a.package_name.unicode_len() > 0 {
            if str_eq(lowercase(a.name.as_str()).as_str(), lc) {
                return Some(j);
            }
        }
        j = j + 1;
    }
    None
}

fn find_native_by_package(cat: &crate::appstream::Catalog, pkg: &str) -> (r: Option<usize>)
    ensures
        match r {
            Some(j) => j < cat.entries@.len() && native_by_package(cat.view_entries(), pkg@, 0) == Some(cat.entries@[j as int].1),
            None => native_by_package(cat.view_entries(), pkg@, 0) is None,
        },
{
    let ghost e = cat.view_entries();
    let mut j: usize = 0;
    while j < cat.entries.len()
        invariant
            j <= cat.entries@.len(),
            e == cat.view_entries(),
            native_by_package(e, pkg@, 0) == native_by_package(e, pkg@, j as int),
        decreases cat.entries@.len() - j,
    {
        let a = &cat.entries[j].1;
        assert(e[j as int].1 == *a);
        if !str_eq(a.source.as_str(), "flatpak") && str_eq(a.package_name.as_str(), pkg) {
            return Some(j);
        }
        j = j + 1;
    }
    None
}

/// The Flatpak id a package maps to.
pub fn mapped_flatpak_of(m: &Vec<(String, String)>, pkg: &str) -> (r: Option<String>)
    ensures
        match r {
            Some(f) => mapped_flatpak(pair_views(m@), pkg@) == Some(f@),
            None => mapped_flatpak(pair_views(m@), pkg@) is None,
        },
{
    let ghost mv = pair_views(m@);
    let mut i: usize = 0;
    assert(mv.subrange(0, mv.len() as int) =~= mv);
    while i < m.len()
        invariant
            i <= m@.len(),
            mv == pair_views(m@),
            mapped_flatpak(mv, pkg@) == mapped_flatpak(mv.subrange(i as int, mv.len() as int), pkg@),
        decreases m@.len() - i,
    {
        let ghost rest = mv.subrange(i as int, mv.len() as int);
        assert(rest[0] == mv[i as int]);
        assert(rest.drop_first() =~= mv.subrange(i + 1, mv.len() as int));
        if str_eq(m[i].0.as_str(), pkg) {
            return Some(m[i].1.clone());
        }
        i = i + 1;
    }
    None
}

fn prefixed_key(prefix: &str, s: &str) -> (r: String)
    ensures
        r@ == prefix@ + s@,
{
    let mut v = chars_of(prefix);
    crate::text::push_str(&mut v, s);
    string_of(&v)
}

/// The Flatpak counterpart of a native record (see `flatpak_alt`).
pub fn find_flatpak_alt<'a>(
    cat: &'a crate::appstream::Catalog,
    id: &str,
    pkg: &str,
    name: &str,
    m: &Vec<(String, String)>,
) -> (r: Option<&'a AppInfo>)
    requires
        cat.wf(),
    ensures
        match r {
            Some(a) => flatpak_alt(cat.view_entries(), id@, pkg@, name@, pair_views(m@)) == Some(*a),
            None => flatpak_alt(cat.view_entries(), id@, pkg@, name@, pair_views(m@)) is None,
        },
{
    proof {
        reveal_strlit("flatpak:");
    }
    let k = prefixed_key("flatpak:", id);
    match cat.get(k.as_str()) {
        Some(a) => {
            return Some(a);
        },
        None => {},
    }
    match mapped_flatpak_of(m, pkg) {
        Some(f) => {
            let k2 = prefixed_key("flatpak:", f.as_str());
            match cat.get(k2.as_str()) {
                Some(a) => {
                    return Some(a);
                },
                None => {},
            }
        },
        None => {},
    }
    let lc = lowercase(name);
    match find_flatpak_by_name(cat, lc.as_str()) {
        Some(j) => {
            assert(cat.view_entries()[j as int].1 == cat.entries@[j as int].1);
            Some(&cat.entries[j].1)
        },
        None => None,
    }
}

/// A record with its sources and installed flag replaced, all else kept.
pub open spec fn with_sources(a: NativeApp, sources: Vec<SourceOption>, installed: bool) -> NativeApp {
    NativeApp { sources: sources, installed: installed, ..a }
}

/// What enriching does to one record: a record with no sources yet, that
/// has a counterpart of the other kind in the catalog, gets two sources
/// (the native one first) and is installed when either is.
pub open spec fn enriched(
    r: NativeApp,
    a: NativeApp,
    e: Seq<(Seq<char>, AppInfo)>,
    rpm: Seq<Seq<char>>,
    fp: Seq<Seq<char>>,
    m: Seq<(Seq<char>, Seq<char>)>,
) -> bool {
    if a.sources@.len() > 0 {
        r == a
    } else if a.source@ == "flatpak"@ {
        match native_by_name(e, str_lowercase(a.name@), 0) {
            None => r == a,
            Some(n) => {
                &&& r == with_sources(a, r.sources, r.installed)
                &&& r.sources@.len() == 2
                &&& option_of_info(r.sources@[0], n, rpm.contains(n.package_name@), Seq::empty(), false)
                &&& option_of_app(r.sources@[1], a)
                &&& r.installed == (r.sources@[0].installed || r.sources@[1].installed)
            },
        }
    } else {
        match flatpak_alt(e, a.id@, a.package_name@, a.name@, m) {
            None => r == a,
            Some(f) => {
                &&& r == with_sources(a, r.sources, r.installed)
                &&& r.sources@.len() == 2
                &&& option_of_app(r.sources@[0], a)
                &&& option_of_info(r.sources@[1], f, fp.contains(bare_id(f.id@)), "flathub"@, false)
                &&& r.installed == (r.sources@[0].installed || r.sources@[1].installed)
            },
        }
    }
}

fn enrich_one(
    app: NativeApp,
    cat: &crate::appstream::Catalog,
    rpm: &Vec<String>,
    fp: &Vec<String>,
    m: &Vec<(String, String)>,
) -> (r: NativeApp)
    requires
        cat.wf(),
    ensures
        enriched(r, app, cat.view_entries(), string_views(rpm@), string_views(fp@), pair_views(m@)),
{
    if app.sources.len() > 0 {
        return app;
    }
    proof {
        reveal_strlit("flathub");
        reveal_strlit("");
    }
    if str_eq(app.source.as_str(), "flatpak") {
        let lc = lowercase(app.name.as_str());
        match find_native_by_name(cat, lc.as_str()) {
            None => app,
            Some(j) => {
                let native = &cat.entries[j].1;
                let nat_installed = in_list(rpm, native.package_name.as_str());
                let fp_src = source_option_from_native_app(&app);
                let nat_src = source_option_from_app_info(native, nat_installed, "", false);
                let installed = nat_src.installed || fp_src.installed;
                let mut sources: Vec<SourceOption> = Vec::new();
                sources.push(nat_src);
                sources.push(fp_src);
                let ghost a0 = app;
                let mut r = app;
                r.sources = sources;
                r.installed = installed;
                assert(native_by_name(cat.view_entries(), str_lowercase(a0.name@), 0) == Some(*native));
                assert(r.sources@[0] == nat_src);
                assert(nat_src.remote@ == Seq::<char>::empty());
                assert(nat_src.label@ == source_label_spec(native.source@, Seq::<char>::empty(), false));
                assert(nat_src.installed == string_views(rpm@).contains(native.package_name@));
                assert(option_of_info(r.sources@[0], *native, string_views(rpm@).contains(native.package_name@), Seq::empty(), false));
                assert(option_of_app(r.sources@[1], a0));
                assert(r == with_sources(a0, r.sources, r.installed));
                r
            },
        }
    } else {
        match find_flatpak_alt(cat, app.id.as_str(), app.package_name.as_str(), app.name.as_str(), m) {
            None => app,
            Some(f) => {
                let b = fp_bare(f.id.as_str());
                let f_installed = in_list(fp, b.as_str());
                let nat_src = source_option_from_native_app(&app);
                let fp_src = source_option_from_app_info(f, f_installed, "flathub", false);
                let installed = nat_src.installed || fp_src.installed;
                let mut sources: Vec<SourceOption> = Vec::new();
                sources.push(nat_src);
                sources.push(fp_src);
                let mut r = app;
                r.sources = sources;
                r.installed = installed;
                r
            },
        }
    }
}

/// Give every record that has no sources yet its two sources when the
/// catalog has a counterpart of the other kind (see `enriched`); `m` maps
/// package names to Flatpak ids.
pub fn enrich_sources(
    apps: &mut Vec<NativeApp>,
    cat: &crate::appstream::Catalog,
    rpm: &Vec<String>,
    fp: &Vec<String>,
    m: &Vec<(String, String)>,
)
    requires
        cat.wf(),
    ensures
        final(apps)@.len() == old(apps)@.len(),
        forall|k: int| 0 <= k < final(apps)@.len() ==> enriched(
            #[trigger] final(apps)@[k],
            old(apps)@[k],
            cat.view_entries(),
            string_views(rpm@),
            string_views(fp@),
            pair_views(m@),
        ),
{
    let ghost orig = apps@;
    let mut k: usize = 0;
    while k < apps.len()
        invariant
            k <= apps@.len(),
            apps@.len() == orig.len(),
            cat.wf(),
            forall|q: int| k <= q < orig.len() ==> #[trigger] apps@[q] == orig[q],
            forall|q: int| 0 <= q < k ==> enriched(
                #[trigger] apps@[q],
                orig[q],
                cat.view_entries(),
                string_views(rpm@),
                string_views(fp@),
                pair_views(m@),
            ),
        decreases apps@.len() - k,
    {
        let ghost before = apps@;
        let a = apps.remove(k);
        let r = enrich_one(a, cat, rpm, fp, m);
        apps.insert(k, r);
        assert forall|q: int| 0 <= q < apps@.len() && q != k implies #[trigger] apps@[q] == before[q] by {
            if q < k {
                assert(apps@[q] == before[q]);
            } else {
                assert(apps@[q] == before[q]);
            }
        }
        k = k + 1;
    }
}

/// A source option stands for a catalog entry offered from `remote`, with
/// the given installed flag and label.
pub open spec fn info_opt(
    o: SourceOption,
    info: AppInfo,
    installed: bool,
    remote: Seq<char>,
    user_remote: bool,
    label: Seq<char>,
) -> bool {
    &&& o.id@ == (if info.source@ == "flatpak"@ {
        bare_id(info.id@)
    } else {
        info.id@
    })
    &&& o.source@ == info.source@ && o.package_name@ == info.package_name@ && o.installed == installed
    &&& o.label@ == label && o.remote@ == remote && o.user_remote == user_remote
    &&& o.url_homepage@ == info.url_homepage@ && o.url_bugtracker@ == info.url_bugtracker@
    &&& o.url_donation@ == info.url_donation@ && o.url_help@ == info.url_help@
    &&& o.url_faq@ == info.url_faq@ && o.url_vcs_browser@ == info.url_vcs_browser@
    &&& o.url_contribute@ == info.url_contribute@
    &&& o.summary@ == info.summary@ && o.description@ == info.description@ && o.version@ == info.version@
    &&& o.developer@ == info.developer@ && o.license@ == info.license@ && o.screenshots@ == info.screenshots@
    &&& o.icon_path@ == info.icon_path@ && o.icon_url@ == info.icon_url@
}

/// The remote a catalog entry is offered from by default: its first remote
/// for a Flatpak (Flathub when it has none), none otherwise.
pub open spec fn default_remote(a: AppInfo) -> Seq<char> {
    if a.source@ == "flatpak"@ {
        if a.remotes@.len() > 0 {
            a.remotes@[0]@
        } else {
            "flathub"@
        }
    } else {
        Seq::empty()
    }
}

/// The native counterpart of a Flatpak: the stub under `native:<package>`,
/// else the first native record with its package name, else the first
/// with its name and a confirmed package name.
pub open spec fn native_alt(e: Seq<(Seq<char>, AppInfo)>, a: AppInfo) -> Option<AppInfo> {
    match lookup(e, "native:"@ + a.package_name@) {
        Some(n) => Some(n),
        None => match native_by_package(e, a.package_name@, 0) {
            Some(n) => Some(n),
            None => native_by_name(e, str_lowercase(a.name@), 0),
        },
    }
}

/// The remotes a Flatpak is offered from (Flathub when it lists none).
pub open spec fn offered_remotes(f: AppInfo) -> Seq<Seq<char>> {
    if f.remotes@.len() == 0 {
        seq!["flathub"@]
    } else {
        string_views(f.remotes@)
    }
}

/// The system and the user variant of a Flatpak counterpart from its
/// `i`-th remote, at positions `1 + 2i` and `2 + 2i`.
pub open spec fn remote_pair_ok(
    raw: Seq<SourceOption>,
    i: int,
    f: AppInfo,
    rs: Seq<Seq<char>>,
    sys: Seq<Seq<char>>,
    usr: Seq<Seq<char>>,
) -> bool {
    &&& info_opt(
        raw[1 + 2 * i],
        f,
        sys.contains(bare_id(f.id@)),
        rs[i],
        false,
        source_label_spec(f.source@, rs[i], false) + " (System)"@,
    )
    &&& info_opt(
        raw[2 + 2 * i],
        f,
        usr.contains(bare_id(f.id@)),
        rs[i],
        true,
        source_label_spec(f.source@, rs[i], true),
    )
}

/// The sources of an app before ordering: its own (for a Flatpak, a system
/// and a user variant, each installed as that installation says), then its
/// counterpart of the other kind (for a Flatpak counterpart, a system and
/// a user variant per remote).
pub open spec fn raw_sources_ok(
    raw: Seq<SourceOption>,
    a: AppInfo,
    installed: bool,
    app_id: Seq<char>,
    e: Seq<(Seq<char>, AppInfo)>,
    rpm: Seq<Seq<char>>,
    sys: Seq<Seq<char>>,
    usr: Seq<Seq<char>>,
    m: Seq<(Seq<char>, Seq<char>)>,
) -> bool {
    if a.source@ == "flatpak"@ {
        let base = source_label_spec(a.source@, default_remote(a), false);
        &&& info_opt(raw[0], a, sys.contains(bare_id(a.id@)), default_remote(a), false, base + " (System)"@)
        &&& info_opt(raw[1], a, usr.contains(bare_id(a.id@)), default_remote(a), true, base + " (User)"@)
        &&& match native_alt(e, a) {
            Some(n) => raw.len() == 3 && info_opt(
                raw[2],
                n,
                rpm.contains(n.package_name@),
                Seq::empty(),
                false,
                source_label_spec(n.source@, Seq::empty(), false),
            ),
            None => raw.len() == 2,
        }
    } else {
        &&& info_opt(raw[0], a, installed, default_remote(a), false, source_label_spec(a.source@, default_remote(a), false))
        &&& match flatpak_alt(e, app_id, a.package_name@, a.name@, m) {
            Some(f) => {
                let rs = offered_remotes(f);
                &&& raw.len() == 1 + 2 * rs.len()
                &&& forall|i: int| 0 <= i < rs.len() ==> #[trigger] remote_pair_ok(raw, i, f, rs, sys, usr)
            },
            None => raw.len() == 1,
        }
    }
}

/// Options in offer order: those not from Flatpak first, each part in its
/// order as given.
pub open spec fn options_in_order(s: Seq<SourceOption>) -> Seq<SourceOption> {
    s.filter(|o: SourceOption| o.source@ != "flatpak"@) + s.filter(|o: SourceOption| o.source@ == "flatpak"@)
}

fn order_options(v: Vec<SourceOption>) -> (r: Vec<SourceOption>)
    ensures
        r@ == options_in_order(v@),
{
    let ghost g = v@;
    let ghost nonfp = |o: SourceOption| o.source@ != "flatpak"@;
    let ghost isfp = |o: SourceOption| o.source@ == "flatpak"@;
    let mut first: Vec<SourceOption> = Vec::new();
    let mut second: Vec<SourceOption> = Vec::new();
    let mut rest = v;
    let ghost mut i: int = 0;
    assert(g.subrange(0, 0).filter(nonfp) =~= Seq::<SourceOption>::empty());
    assert(g.subrange(0, 0).filter(isfp) =~= Seq::<SourceOption>::empty());
    assert(g.subrange(0, g.len() as int) =~= g);
    while rest.len() > 0
        invariant
            0 <= i <= g.len(),
            rest@ == g.subrange(i, g.len() as int),
            first@ == g.subrange(0, i).filter(nonfp),
            second@ == g.subrange(0, i).filter(isfp),
            nonfp == (|o: SourceOption| o.source@ != "flatpak"@),
            isfp == (|o: SourceOption| o.source@ == "flatpak"@),
        decreases rest@.len(),
    {
        let o = rest.remove(0);
        proof {
            assert(o == g[i]);
            g.subrange(0, i).lemma_filter_push(g[i], nonfp);
            g.subrange(0, i).lemma_filter_push(g[i], isfp);
            assert(g.subrange(0, i + 1) =~= g.subrange(0, i).push(g[i]));
            assert(rest@ =~= g.subrange(i + 1, g.len() as int));
        }
        if str_eq(o.source.as_str(), "flatpak") {
            second.push(o);
        } else {
            first.push(o);
        }
        proof {
            i = i + 1;
        }
    }
    assert(g.subrange(0, i) =~= g);
    first.append(&mut second);
    first
}

fn relabeled(o: SourceOption, suffix: &str) -> (r: SourceOption)
    ensures
        r == (SourceOption { label: r.label, ..o }),
        r.label@ == o.label@ + suffix@,
{
    let mut r = o;
    let mut l = chars_of(r.label.as_str());
    crate::text::push_str(&mut l, suffix);
    r.label = string_of(&l);
    r
}

fn find_native_alt<'a>(cat: &'a crate::appstream::Catalog, a: &AppInfo) -> (r: Option<&'a AppInfo>)
    requires
        cat.wf(),
    ensures
        match r {
            Some(n) => native_alt(cat.view_entries(), *a) == Some(*n),
            None => native_alt(cat.view_entries(), *a) is None,
        },
{
    proof {
        reveal_strlit("native:");
    }
    let k = prefixed_key("native:", a.package_name.as_str());
    match cat.get(k.as_str()) {
        Some(n) => {
            return Some(n);
        },
        None => {},
    }
    match find_native_by_package(cat, a.package_name.as_str()) {
        Some(j) => {
            return Some(&cat.entries[j].1);
        },
        None => {},
    }
    let lc = lowercase(a.name.as_str());
    match find_native_by_name(cat, lc.as_str()) {
        Some(j) => Some(&cat.entries[j].1),
        None => None,
    }
}

/// The install sources offered for an app (see `raw_sources_ok`), in offer
/// order. `installed` is whether the app itself is installed; `sys` and
/// `usr` are the Flatpaks installed system-wide and for the user; `m` maps
/// package names to Flatpak ids.
pub fn build_sources(
    a: &AppInfo,
    installed: bool,
    app_id: &str,
    cat: &crate::appstream::Catalog,
    rpm: &Vec<String>,
    sys: &Vec<String>,
    usr: &Vec<String>,
    m: &Vec<(String, String)>,
) -> (r: Vec<SourceOption>)
    requires
        cat.wf(),
    ensures
        exists|raw: Seq<SourceOption>|
            #![trigger options_in_order(raw)]
            r@ == options_in_order(raw) && raw_sources_ok(
                raw,
                *a,
                installed,
                app_id@,
                cat.view_entries(),
                string_views(rpm@),
                string_views(sys@),
                string_views(usr@),
                pair_views(m@),
            ),
{
    proof {
        reveal_strlit("flatpak");
        reveal_strlit("flathub");
        reveal_strlit("");
    }
    let mut raw: Vec<SourceOption> = Vec::new();
    let is_fp = str_eq(a.source.as_str(), "flatpak");
    let remote = if is_fp {
        if a.remotes.len() > 0 {
            a.remotes[0].clone()
        } else {
            string_of_str("flathub")
        }
    } else {
        String::new()
    };
    assert(remote@ == default_remote(*a));
    if is_fp {
        let b = fp_bare(a.id.as_str());
        let in_sys = in_list(sys, b.as_str());
        let in_usr = in_list(usr, b.as_str());
        let s1 = relabeled(source_option_from_app_info(a, in_sys, remote.as_str(), false), " (System)");
        let mut u0 = source_option_from_app_info(a, in_usr, remote.as_str(), false);
        u0.user_remote = true;
        let s2 = relabeled(u0, " (User)");
        raw.push(s1);
        raw.push(s2);
        let ghost base = source_label_spec(a.source@, default_remote(*a), false);
        assert(info_opt(raw@[0], *a, string_views(sys@).contains(bare_id(a.id@)), default_remote(*a), false, base + " (System)"@));
        assert(info_opt(raw@[1], *a, string_views(usr@).contains(bare_id(a.id@)), default_remote(*a), true, base + " (User)"@));
        match find_native_alt(cat, a) {
            Some(n) => {
                let n_inst = in_list(rpm, n.package_name.as_str());
                let no = source_option_from_app_info(n, n_inst, "", false);
                assert(no.remote@ == Seq::<char>::empty());
                assert(no.label@ == source_label_spec(n.source@, Seq::<char>::empty(), false));
                assert(info_opt(no, *n, string_views(rpm@).contains(n.package_name@), Seq::empty(), false, source_label_spec(n.source@, Seq::empty(), false)));
                raw.push(no);
                assert(raw@[0] == s1 && raw@[1] == s2 && raw@[2] == no);
            },
            None => {},
        }
        assert(raw_sources_ok(
            raw@,
            *a,
            installed,
            app_id@,
            cat.view_entries(),
            string_views(rpm@),
            string_views(sys@),
            string_views(usr@),
            pair_views(m@),
        ));
    } else {
        let mut own = source_option_from_app_info(a, installed, remote.as_str(), false);
        raw.push(own);
        match find_flatpak_alt(cat, app_id, a.package_name.as_str(), a.name.as_str(), m) {
            Some(f) => {
                let fb = fp_bare(f.id.as_str());
                let in_sys = in_list(sys, fb.as_str());
                let in_usr = in_list(usr, fb.as_str());
                let remotes: Vec<String> = if f.remotes.len() == 0 {
                    vec![string_of_str("flathub")]
                } else {
                    clone_strings(&f.remotes)
                };
                let ghost rs = offered_remotes(*f);
                assert(string_views(remotes@) =~= rs);
                let mut i: usize = 0;
                while i < remotes.len()
                    invariant
                        i <= remotes@.len(),
                        string_views(remotes@) == rs,
                        in_sys == string_views(sys@).contains(bare_id(f.id@)),
                        in_usr == string_views(usr@).contains(bare_id(f.id@)),
                        raw@.len() == 1 + 2 * i,
                        info_opt(raw@[0], *a, installed, default_remote(*a), false, source_label_spec(a.source@, default_remote(*a), false)),
                        forall|q: int| 0 <= q < i ==> #[trigger] remote_pair_ok(raw@, q, *f, rs, string_views(sys@), string_views(usr@)),
                    decreases remotes@.len() - i,
                {
                    assert(rs[i as int] == remotes@[i as int]@);
                    let s1 = relabeled(source_option_from_app_info(f, in_sys, remotes[i].as_str(), false), " (System)");
                    let s2 = source_option_from_app_info(f, in_usr, remotes[i].as_str(), true);
                    let ghost before = raw@;
                    raw.push(s1);
                    raw.push(s2);
                    assert(info_opt(s1, *f, string_views(sys@).contains(bare_id(f.id@)), rs[i as int], false, source_label_spec(f.source@, rs[i as int], false) + " (System)"@));
                    assert(info_opt(s2, *f, string_views(usr@).contains(bare_id(f.id@)), rs[i as int], true, source_label_spec(f.source@, rs[i as int], true)));
                    assert forall|q: int| 0 <= q < i + 1 implies #[trigger] remote_pair_ok(raw@, q, *f, rs, string_views(sys@), string_views(usr@)) by {
                        if q < i {
                            assert(remote_pair_ok(before, q, *f, rs, string_views(sys@), string_views(usr@)));
                            assert(raw@[1 + 2 * q] == before[1 + 2 * q]);
                            assert(raw@[2 + 2 * q] == before[2 + 2 * q]);
                        } else {
                            assert(raw@[1 + 2 * q] == s1);
                            assert(raw@[2 + 2 * q] == s2);
                        }
                    }
                    assert(raw@[0] == before[0]);
                    i = i + 1;
                }
            },
            None => {},
        }
        assert(raw_sources_ok(
            raw@,
            *a,
            installed,
            app_id@,
            cat.view_entries(),
            string_views(rpm@),
            string_views(sys@),
            string_views(usr@),
            pair_views(m@),
        ));
    }
    let ghost rv = raw@;
    let r = order_options(raw);
    assert(r@ == options_in_order(rv));
    r
}

/// The catalog record an id names: under the id, else `native:<id>`, else
/// `flatpak:<id>`.
pub open spec fn app_lookup(e: Seq<(Seq<char>, AppInfo)>, id: Seq<char>) -> Option<AppInfo> {
    match lookup(e, id) {
        Some(a) => Some(a),
        None => match lookup(e, "native:"@ + id) {
            Some(a) => Some(a),
            None => lookup(e, "flatpak:"@ + id),
        },
    }
}

/// A store record holds a catalog entry's fields (its sources and
/// screenshots aside).
pub open spec fn native_fields(r: NativeApp, a: AppInfo) -> bool {
    &&& r.id == a.id && r.name == a.name && r.summary == a.summary && r.description == a.description
    &&& r.version == a.version && r.package_name == a.package_name && r.icon == a.icon
    &&& r.icon_url == a.icon_url && r.icon_path == a.icon_path
    &&& r.categories@ == a.categories@ && r.keywords@ == a.keywords@
    &&& r.developer == a.developer && r.license == a.license && r.source == a.source
    &&& r.url_homepage == a.url_homepage && r.url_bugtracker == a.url_bugtracker
    &&& r.url_donation == a.url_donation && r.url_help == a.url_help && r.url_faq == a.url_faq
    &&& r.url_vcs_browser == a.url_vcs_browser && r.url_contribute == a.url_contribute
    &&& r.is_addon == a.is_addon && r.pkg_name_guessed == a.pkg_name_guessed
    &&& r.update_source@.len() == 0 && r.update_url@.len() == 0 && r.update_pattern@.len() == 0
    &&& r.remotes@ == a.remotes@
}

/// The first Flatpak option from position `j` on.
pub open spec fn first_flatpak_option(s: Seq<SourceOption>, j: int) -> Option<SourceOption>
    decreases s.len() - j,
{
    if j < 0 || j >= s.len() {
        None
    } else if s[j].source@ == "flatpak"@ {
        Some(s[j])
    } else {
        first_flatpak_option(s, j + 1)
    }
}

/// The screenshots an app shows: for a native app, those of its first
/// Flatpak source when that has any.
pub open spec fn shown_screenshots(a: AppInfo, sources: Seq<SourceOption>) -> Seq<String> {
    if a.source@ != "flatpak"@ {
        match first_flatpak_option(sources, 0) {
            Some(o) if o.screenshots@.len() > 0 => o.screenshots@,
            _ => a.screenshots@,
        }
    } else {
        a.screenshots@
    }
}

fn first_flatpak_index(s: &Vec<SourceOption>) -> (r: Option<usize>)
    ensures
        match r {
            Some(j) => j < s@.len() && first_flatpak_option(s@, 0) == Some(s@[j as int]),
            None => first_flatpak_option(s@, 0) is None,
        },
{
    let mut j: usize = 0;
    while j < s.len()
        invariant
            j <= s@.len(),
            first_flatpak_option(s@, 0) == first_flatpak_option(s@, j as int),
        decreases s@.len() - j,
    {
        if str_eq(s[j].source.as_str(), "flatpak") {
            return Some(j);
        }
        j = j + 1;
    }
    None
}

/// One app with its install sources for the details page (see
/// `app_lookup`, `build_sources` and `shown_screenshots`).
pub fn get_app_by_id(
    app_id: &str,
    cat: &crate::appstream::Catalog,
    rpm: &Vec<String>,
    fp: &Vec<String>,
    sys: &Vec<String>,
    usr: &Vec<String>,
    m: &Vec<(String, String)>,
) -> (r: Option<NativeApp>)
    requires
        cat.wf(),
    ensures
        match r {
            None => app_lookup(cat.view_entries(), app_id@) is None,
            Some(app) => {
                let a = app_lookup(cat.view_entries(), app_id@)->0;
                &&& app_lookup(cat.view_entries(), app_id@) is Some
                &&& native_fields(app, a)
                &&& app.installed == installed_in(a, string_views(rpm@), string_views(fp@))
                &&& exists|raw: Seq<SourceOption>|
                    #![trigger options_in_order(raw)]
                    app.sources@ == options_in_order(raw) && raw_sources_ok(
                        raw,
                        a,
                        app.installed,
                        app_id@,
                        cat.view_entries(),
                        string_views(rpm@),
                        string_views(sys@),
                        string_views(usr@),
                        pair_views(m@),
                    )
                &&& app.screenshots@ == shown_screenshots(a, app.sources@)
            },
        },
{
    proof {
        reveal_strlit("native:");
        reveal_strlit("flatpak:");
    }
    let a = match cat.get(app_id) {
        Some(a) => a,
        None => {
            let k = prefixed_key("native:", app_id);
            match cat.get(k.as_str()) {
                Some(a) => a,
                None => {
                    let k2 = prefixed_key("flatpak:", app_id);
                    match cat.get(k2.as_str()) {
                        Some(a) => a,
                        None => {
                            return None;
                        },
                    }
                },
            }
        },
    };
    assert(app_lookup(cat.view_entries(), app_id@) == Some(*a));
    let mut app = listed_app(a, rpm, fp);
    let sources = build_sources(a, app.installed, app_id, cat, rpm, sys, usr, m);
    let mut shots: Option<Vec<String>> = None;
    if !str_eq(a.source.as_str(), "flatpak") {
        match first_flatpak_index(&sources) {
            Some(j) => {
                if sources[j].screenshots.len() > 0 {
                    shots = Some(clone_strings(&sources[j].screenshots));
                }
            },
            None => {},
        }
    }
    match shots {
        Some(v) => {
            app.screenshots = v;
        },
        None => {},
    }
    app.sources = sources;
    Some(app)
}

// ── Grouping records of the same name ───────────────────────────────────────

/// The key records are grouped and ordered by: the name in lower case.
pub open spec fn app_key(a: NativeApp) -> Seq<char> {
    str_lowercase(a.name@)
}

/// The position of the group whose records have key `k`.
pub open spec fn group_index(gs: Seq<Seq<NativeApp>>, k: Seq<char>, j: int) -> Option<int>
    decreases gs.len() - j,
{
    if j < 0 || j >= gs.len() {
        None
    } else if gs[j].len() > 0 && app_key(gs[j][0]) == k {
        Some(j)
    } else {
        group_index(gs, k, j + 1)
    }
}

/// The records grouped by key, groups in order of first appearance, each in
/// the records' order.
pub open spec fn name_groups(apps: Seq<NativeApp>) -> Seq<Seq<NativeApp>>
    decreases apps.len(),
{
    if apps.len() == 0 {
        Seq::empty()
    } else {
        let gs = name_groups(apps.drop_last());
        let a = apps.last();
        match group_index(gs, app_key(a), 0) {
            Some(i) => gs.update(i, gs[i].push(a)),
            None => gs.push(seq![a]),
        }
    }
}

/// What `merge_group` makes of a group.
pub open spec fn merged_ok(r: NativeApp, group: Seq<NativeApp>) -> bool {
    let ord = offer_order(group);
    &&& keeps_identity(r, ord[0])
    &&& r.screenshots@ == merged_screenshots(ord[0].screenshots@, ord.drop_first())
    &&& r.description@ == merged_description(ord[0].description@, ord.drop_first())
    &&& r.sources@.len() == ord.len()
    &&& forall|k: int| 0 <= k < ord.len() ==> option_of_app(#[trigger] r.sources@[k], ord[k])
    &&& r.installed == exists|k: int| 0 <= k < ord.len() && (#[trigger] ord[k]).installed
    &&& r.url_homepage == ord[0].url_homepage && r.update_source == ord[0].update_source
}

pub open spec fn vec_views<T>(v: Seq<Vec<T>>) -> Seq<Seq<T>> {
    v.map_values(|x: Vec<T>| x@)
}

proof fn lemma_group_index(gs: Seq<Seq<NativeApp>>, k: Seq<char>, j: int)
    requires
        0 <= j,
    ensures
        match group_index(gs, k, j) {
            Some(i) => j <= i < gs.len() && gs[i].len() > 0 && app_key(gs[i][0]) == k,
            None => forall|q: int| j <= q < gs.len() ==> !(gs[q].len() > 0 && app_key(#[trigger] gs[q][0]) == k),
        },
    decreases gs.len() - j,
{
    if j < gs.len() {
        lemma_group_index(gs, k, j + 1);
    }
}

/// Group records by name (see `name_groups`).
pub fn group_by_name(apps: Vec<NativeApp>) -> (r: Vec<Vec<NativeApp>>)
    ensures
        vec_views(r@) == name_groups(apps@),
        forall|g: int| 0 <= g < r@.len() ==> (#[trigger] r@[g])@.len() > 0,
{
    let ghost all = apps@;
    let mut rest = apps;
    let mut groups: Vec<Vec<NativeApp>> = Vec::new();
    let mut keys: Vec<Vec<char>> = Vec::new();
    let ghost mut k: int = 0;
    assert(all.subrange(0, 0) =~= Seq::<NativeApp>::empty());
    assert(all.subrange(0, all.len() as int) =~= all);
    assert(vec_views(groups@) =~= Seq::<Seq<NativeApp>>::empty());
    while rest.len() > 0
        invariant
            0 <= k <= all.len(),
            rest@ == all.subrange(k, all.len() as int),
            vec_views(groups@) == name_groups(all.subrange(0, k)),
            keys@.len() == groups@.len(),
            forall|g: int| 0 <= g < groups@.len() ==> (#[trigger] groups@[g])@.len() > 0,
            forall|g: int| 0 <= g < groups@.len() ==> (#[trigger] keys@[g])@ == app_key(groups@[g]@[0]),
        decreases rest@.len(),
    {
        let a = rest.remove(0);
        assert(a == all[k]);
        let key = chars_of(lowercase(a.name.as_str()).as_str());
        let ghost gv = vec_views(groups@);
        assert(all.subrange(0, k + 1).drop_last() =~= all.subrange(0, k));
        assert(all.subrange(0, k + 1).last() == a);
        let mut i: usize = 0;
        while i < keys.len() && !crate::text::eq(&keys[i], &key)
            invariant
                i <= keys@.len(),
                keys@.len() == groups@.len(),
                gv == vec_views(groups@),
                forall|g: int| 0 <= g < groups@.len() ==> (#[trigger] groups@[g])@.len() > 0,
                forall|g: int| 0 <= g < groups@.len() ==> (#[trigger] keys@[g])@ == app_key(groups@[g]@[0]),
                group_index(gv, key@, 0) == group_index(gv, key@, i as int),
            decreases keys@.len() - i,
        {
            assert(gv[i as int] == groups@[i as int]@);
            i = i + 1;
        }
        proof {
            lemma_group_index(gv, key@, i as int);
        }
        let ghost gkeys = keys@;
        if i < keys.len() {
            assert(gv[i as int] == groups@[i as int]@);
            assert(group_index(gv, key@, 0) == Some(i as int));
            let mut g = groups.remove(i);
            g.push(a);
            groups.insert(i, g);
            assert(vec_views(groups@) =~= gv.update(i as int, gv[i as int].push(a)));
            assert forall|q: int| 0 <= q < groups@.len() implies (#[trigger] keys@[q])@ == app_key(groups@[q]@[0]) by {
                if q != i {
                    assert(groups@[q]@ == gv[q]);
                }
            }
        } else {
            assert(group_index(gv, key@, 0) is None);
            let mut g: Vec<NativeApp> = Vec::new();
            g.push(a);
            groups.push(g);
            keys.push(key);
            assert(vec_views(groups@) =~= gv.push(seq![a]));
            assert forall|q: int| 0 <= q < groups@.len() implies (#[trigger] keys@[q])@ == app_key(groups@[q]@[0]) by {
                if q < gv.len() {
                    assert(groups@[q]@ == gv[q]);
                    assert(keys@[q] == gkeys[q]);
                }
            }
        }
        proof {
            assert(rest@ =~= all.subrange(k + 1, all.len() as int));
            k = k + 1;
        }
    }
    groups
}

/// Merge records of the same name (see `name_groups`): a group of one is
/// kept as it is, a larger group merged (see `merged_ok`).
pub fn merge_multi_source(apps: Vec<NativeApp>) -> (r: Vec<NativeApp>)
    ensures
        r@.len() == name_groups(apps@).len(),
        forall|g: int| 0 <= g < r@.len() ==> {
            let grp = name_groups(apps@)[g];
            &&& grp.len() == 1 ==> #[trigger] r@[g] == grp[0]
            &&& grp.len() >= 2 ==> merged_ok(r@[g], grp)
        },
{
    let ghost gs = name_groups(apps@);
    let groups = group_by_name(apps);
    let ghost gv = vec_views(groups@);
    let mut rest = groups;
    let mut out: Vec<NativeApp> = Vec::new();
    let ghost mut k: int = 0;
    assert(groups@.subrange(0, groups@.len() as int) =~= groups@);
    while rest.len() > 0
        invariant
            0 <= k <= gv.len(),
            gv == gs,
            gv.len() == groups@.len(),
            vec_views(rest@) == gv.subrange(k, gv.len() as int),
            forall|g: int| 0 <= g < gv.len() ==> (#[trigger] gv[g]).len() > 0,
            out@.len() == k,
            forall|g: int| 0 <= g < k ==> {
                let grp = gv[g];
                &&& grp.len() == 1 ==> #[trigger] out@[g] == grp[0]
                &&& grp.len() >= 2 ==> merged_ok(out@[g], grp)
            },
        decreases rest@.len(),
    {
        let ghost rv = vec_views(rest@);
        let ghost r0 = rest@;
        assert(rv.len() == r0.len());
        assert(rv[0] == r0[0]@);
        let mut g = rest.remove(0);
        assert(g == r0[0]);
        assert(g@ == gv[k]);
        assert(rest@ == r0.subrange(1, r0.len() as int));
        assert forall|q: int| 0 <= q < rest@.len() implies #[trigger] vec_views(rest@)[q] == gv.subrange(k + 1, gv.len() as int)[q] by {
            assert(vec_views(rest@)[q] == rest@[q]@);
            assert(rest@[q] == r0[q + 1]);
            assert(rv[q + 1] == r0[q + 1]@);
            assert(rv[q + 1] == gv[k + 1 + q]);
        }
        assert(vec_views(rest@) =~= gv.subrange(k + 1, gv.len() as int));
        let ghost before = out@;
        if g.len() == 1 {
            let x = g.remove(0);
            out.push(x);
        } else {
            let x = merge_group(g);
            out.push(x);
        }
        assert forall|q: int| 0 <= q < k + 1 implies {
            let grp = gv[q];
            &&& grp.len() == 1 ==> #[trigger] out@[q] == grp[0]
            &&& grp.len() >= 2 ==> merged_ok(out@[q], grp)
        } by {
            if q < k {
                assert(out@[q] == before[q]);
            }
        }
        proof {
            k = k + 1;
        }
    }
    out
}

// ── Laws of merging by name ─────────────────────────────────────────────────

/// The records whose key is `k`.
pub open spec fn key_is(k: Seq<char>) -> spec_fn(NativeApp) -> bool {
    |a: NativeApp| app_key(a) == k
}

pub open spec fn is_flatpak_app(a: NativeApp) -> bool {
    a.source@ == "flatpak"@
}

/// Each group is every record of its key, in order; keys differ between
/// groups; every record is in a group.
proof fn lemma_name_groups(apps: Seq<NativeApp>)
    ensures
        ({
            let gs = name_groups(apps);
            &&& forall|g: int| 0 <= g < gs.len() ==> (#[trigger] gs[g]).len() > 0 && gs[g]
                == apps.filter(key_is(app_key(gs[g][0])))
            &&& forall|g1: int, g2: int|
                0 <= g1 < g2 < gs.len() ==> app_key((#[trigger] gs[g1])[0]) != app_key(
                    (#[trigger] gs[g2])[0],
                )
            &&& forall|i: int|
                0 <= i < apps.len() ==> exists|g: int|
                    0 <= g < gs.len() && app_key((#[trigger] gs[g])[0]) == app_key(#[trigger] apps[i])
        }),
    decreases apps.len(),
{
    if apps.len() > 0 {
        let rest = apps.drop_last();
        let a = apps.last();
        let k = app_key(a);
        lemma_name_groups(rest);
        let gs0 = name_groups(rest);
        let gs = name_groups(apps);
        assert(apps =~= rest.push(a));
        lemma_group_index(gs0, k, 0);
        assert forall|q: Seq<char>| #[trigger] apps.filter(key_is(q)) == if app_key(a) == q {
            rest.filter(key_is(q)).push(a)
        } else {
            rest.filter(key_is(q))
        } by {
            rest.lemma_filter_push(a, key_is(q));
        }
        match group_index(gs0, k, 0) {
            Some(i) => {
                assert(gs == gs0.update(i, gs0[i].push(a)));
                assert forall|g: int| 0 <= g < gs.len() implies (#[trigger] gs[g]).len() > 0 && gs[g]
                    == apps.filter(key_is(app_key(gs[g][0]))) by {
                    if g == i {
                        assert(gs[g][0] == gs0[i][0]);
                    } else {
                        assert(gs[g] == gs0[g]);
                        assert(app_key(gs0[g][0]) != app_key(gs0[i][0]));
                    }
                }
                assert forall|g1: int, g2: int|
                    0 <= g1 < g2 < gs.len() implies app_key((#[trigger] gs[g1])[0]) != app_key(
                    (#[trigger] gs[g2])[0],
                ) by {
                    assert(gs[g1][0] == gs0[g1][0]);
                    assert(gs[g2][0] == gs0[g2][0]);
                    assert(app_key(gs0[g1][0]) != app_key(gs0[g2][0]));
                }
                assert forall|j: int| 0 <= j < apps.len() implies exists|g: int|
                    0 <= g < gs.len() && app_key((#[trigger] gs[g])[0]) == app_key(
                    #[trigger] apps[j],
                ) by {
                    if j < rest.len() {
                        assert(apps[j] == rest[j]);
                        let g = choose|g: int|
                            0 <= g < gs0.len() && app_key((#[trigger] gs0[g])[0]) == app_key(rest[j]);
                        assert(gs[g][0] == gs0[g][0]);
                    } else {
                        assert(gs[i][0] == gs0[i][0]);
                    }
                }
            },
            None => {
                assert(gs == gs0.push(seq![a]));
                let f0 = rest.filter(key_is(k));
                if f0.len() > 0 {
                    rest.lemma_filter_pred(key_is(k), 0);
                    assert(f0.contains(f0[0]));
                    rest.lemma_filter_contains_rev(key_is(k), f0[0]);
                    let j = choose|j: int| 0 <= j < rest.len() && rest[j] == f0[0];
                    let g = choose|g: int|
                        0 <= g < gs0.len() && app_key((#[trigger] gs0[g])[0]) == app_key(rest[j]);
                    assert(gs0[g].len() > 0);
                    assert(false);
                }
                assert(f0 =~= Seq::<NativeApp>::empty());
                assert(apps.filter(key_is(k)) =~= seq![a]);
                assert forall|g: int| 0 <= g < gs.len() implies (#[trigger] gs[g]).len() > 0 && gs[g]
                    == apps.filter(key_is(app_key(gs[g][0]))) by {
                    if g < gs0.len() {
                        assert(gs[g] == gs0[g]);
                    }
                }
                assert forall|g1: int, g2: int|
                    0 <= g1 < g2 < gs.len() implies app_key((#[trigger] gs[g1])[0]) != app_key(
                    (#[trigger] gs[g2])[0],
                ) by {
                    assert(gs[g1] == gs0[g1]);
                    if g2 < gs0.len() {
                        assert(gs[g2] == gs0[g2]);
                    }
                }
                assert forall|j: int| 0 <= j < apps.len() implies exists|g: int|
                    0 <= g < gs.len() && app_key((#[trigger] gs[g])[0]) == app_key(
                    #[trigger] apps[j],
                ) by {
                    if j < rest.len() {
                        assert(apps[j] == rest[j]);
                        let g = choose|g: int|
                            0 <= g < gs0.len() && app_key((#[trigger] gs0[g])[0]) == app_key(rest[j]);
                        assert(gs[g] == gs0[g]);
                    } else {
                        assert(gs[gs0.len() as int][0] == a);
                    }
                }
            },
        }
    }
}

proof fn lemma_split_len(s: Seq<NativeApp>, p: spec_fn(NativeApp) -> bool)
    ensures
        s.filter(p).len() + s.filter(|a: NativeApp| !p(a)).len() == s.len(),
    decreases s.len(),
{
    if s.len() > 0 {
        lemma_split_len(s.drop_last(), p);
        assert(s =~= s.drop_last().push(s.last()));
        s.drop_last().lemma_filter_len_push(p, s.last());
        s.drop_last().lemma_filter_len_push(|a: NativeApp| !p(a), s.last());
    }
}

/// Offer order holds every record of the group once, natives first.
proof fn lemma_offer_order(grp: Seq<NativeApp>)
    ensures
        offer_order(grp).len() == grp.len(),
        (exists|x: int| 0 <= x < grp.len() && !is_flatpak_app(#[trigger] grp[x])) ==> !is_flatpak_app(
            offer_order(grp)[0],
        ),
        forall|x: int| 0 <= x < offer_order(grp).len() ==> grp.contains(#[trigger] offer_order(grp)[x]),
        forall|x: int| 0 <= x < grp.len() ==> offer_order(grp).contains(#[trigger] grp[x]),
{
    let pn = |a: NativeApp| a.source@ != "flatpak"@;
    let pf = |a: NativeApp| a.source@ == "flatpak"@;
    let natives = grp.filter(pn);
    let fps = grp.filter(pf);
    lemma_split_len(grp, pn);
    assert(grp.filter(|a: NativeApp| !pn(a)) =~= fps) by {
        assert((|a: NativeApp| !pn(a)) =~= pf);
    }
    let ord = offer_order(grp);
    assert(ord == natives + fps);
    if exists|x: int| 0 <= x < grp.len() && !is_flatpak_app(#[trigger] grp[x]) {
        let x = choose|x: int| 0 <= x < grp.len() && !is_flatpak_app(#[trigger] grp[x]);
        grp.lemma_filter_contains(pn, x);
        grp.lemma_filter_pred(pn, 0);
        assert(ord[0] == natives[0]);
    }
    assert forall|x: int| 0 <= x < ord.len() implies grp.contains(#[trigger] ord[x]) by {
        if x < natives.len() {
            assert(ord[x] == natives[x]);
            assert(natives.contains(natives[x]));
            grp.lemma_filter_contains_rev(pn, natives[x]);
        } else {
            assert(ord[x] == fps[x - natives.len()]);
            assert(fps.contains(fps[x - natives.len()]));
            grp.lemma_filter_contains_rev(pf, fps[x - natives.len()]);
        }
    }
    assert forall|x: int| 0 <= x < grp.len() implies ord.contains(#[trigger] grp[x]) by {
        if pn(grp[x]) {
            grp.lemma_filter_contains(pn, x);
            let q = choose|q: int| 0 <= q < natives.len() && natives[q] == grp[x];
            assert(ord[q] == natives[q]);
        } else {
            grp.lemma_filter_contains(pf, x);
            let q = choose|q: int| 0 <= q < fps.len() && fps[q] == grp[x];
            assert(ord[natives.len() + q] == fps[q]);
        }
    }
}

/// Merging by name gives one record per lower-cased name of the input, each
/// name once: a name held by one record keeps that record; a name held by
/// several gives one record with one source per record, primary a native
/// one when there is any, installed when any of them is.
pub proof fn law_merge_multi_source(apps: Seq<NativeApp>, r: Seq<NativeApp>)
    requires
        r.len() == name_groups(apps).len(),
        forall|g: int| 0 <= g < r.len() ==> {
            let grp = name_groups(apps)[g];
            &&& grp.len() == 1 ==> #[trigger] r[g] == grp[0]
            &&& grp.len() >= 2 ==> merged_ok(r[g], grp)
        },
    ensures
        forall|g1: int, g2: int| 0 <= g1 < g2 < r.len() ==> app_key(#[trigger] r[g1]) != app_key(
            #[trigger] r[g2],
        ),
        forall|i: int|
            0 <= i < apps.len() ==> exists|g: int|
                0 <= g < r.len() && app_key(#[trigger] r[g]) == app_key(#[trigger] apps[i]),
        forall|g: int|
            0 <= g < r.len() ==> {
                let grp = apps.filter(key_is(app_key(#[trigger] r[g])));
                &&& grp.len() >= 1
                &&& grp.len() == 1 ==> r[g] == grp[0]
                &&& grp.len() >= 2 ==> {
                    &&& r[g].sources@.len() == grp.len()
                    &&& (exists|x: int| 0 <= x < grp.len() && !is_flatpak_app(#[trigger] grp[x]))
                        ==> !is_flatpak_app(r[g])
                    &&& r[g].installed == exists|x: int| 0 <= x < grp.len() && (#[trigger] grp[x]).installed
                }
            },
{
    lemma_name_groups(apps);
    let gs = name_groups(apps);
    assert forall|g: int| 0 <= g < r.len() implies app_key(#[trigger] r[g]) == app_key(gs[g][0]) by {
        let grp = gs[g];
        if grp.len() >= 2 {
            lemma_offer_order(grp);
            let o0 = offer_order(grp)[0];
            assert(grp.contains(o0));
            let x = choose|x: int| 0 <= x < grp.len() && grp[x] == o0;
            assert(grp == apps.filter(key_is(app_key(grp[0]))));
            apps.lemma_filter_pred(key_is(app_key(grp[0])), x);
        }
    }
    assert forall|g1: int, g2: int| 0 <= g1 < g2 < r.len() implies app_key(#[trigger] r[g1]) != app_key(
        #[trigger] r[g2],
    ) by {
        assert(app_key(gs[g1][0]) != app_key(gs[g2][0]));
    }
    assert forall|i: int| 0 <= i < apps.len() implies exists|g: int|
        0 <= g < r.len() && app_key(#[trigger] r[g]) == app_key(#[trigger] apps[i]) by {
        let g = choose|g: int| 0 <= g < gs.len() && app_key((#[trigger] gs[g])[0]) == app_key(apps[i]);
        assert(app_key(r[g]) == app_key(gs[g][0]));
    }
    assert forall|g: int| 0 <= g < r.len() implies {
        let grp = apps.filter(key_is(app_key(#[trigger] r[g])));
        &&& grp.len() >= 1
        &&& grp.len() == 1 ==> r[g] == grp[0]
        &&& grp.len() >= 2 ==> {
            &&& r[g].sources@.len() == grp.len()
            &&& (exists|x: int| 0 <= x < grp.len() && !is_flatpak_app(#[trigger] grp[x])) ==> !is_flatpak_app(r[g])
            &&& r[g].installed == exists|x: int| 0 <= x < grp.len() && (#[trigger] grp[x]).installed
        }
    } by {
        let grp = gs[g];
        assert(app_key(r[g]) == app_key(gs[g][0]));
        assert(grp == apps.filter(key_is(app_key(r[g]))));
        if grp.len() >= 2 {
            lemma_offer_order(grp);
            let ord = offer_order(grp);
            assert(keeps_identity(r[g], ord[0]));
            if exists|x: int| 0 <= x < grp.len() && (#[trigger] grp[x]).installed {
                let x = choose|x: int| 0 <= x < grp.len() && (#[trigger] grp[x]).installed;
                assert(ord.contains(grp[x]));
                let q = choose|q: int| 0 <= q < ord.len() && ord[q] == grp[x];
                assert(ord[q].installed);
            }
            if exists|q: int| 0 <= q < ord.len() && (#[trigger] ord[q]).installed {
                let q = choose|q: int| 0 <= q < ord.len() && (#[trigger] ord[q]).installed;
                assert(grp.contains(ord[q]));
                let x = choose|x: int| 0 <= x < grp.len() && grp[x] == ord[q];
                assert(grp[x].installed);
            }
        }
    }
}

// ── Browsing by category ────────────────────────────────────────────────────

/// `browseable` on a catalog entry.
pub open spec fn info_browseable(a: AppInfo) -> bool {
    if a.package_name@.len() == 0 || a.pkg_name_guessed {
        false
    } else if a.is_addon {
        exists|i: int|
            0 <= i < a.categories@.len() && is_standalone_category(
                str_lowercase(#[trigger] a.categories@[i]@),
            )
    } else {
        true
    }
}

/// The entry lists a category that is `cl` in lower case.
pub open spec fn in_category(a: AppInfo, cl: Seq<char>) -> bool {
    exists|i: int| 0 <= i < a.categories@.len() && str_lowercase(#[trigger] a.categories@[i]@) == cl
}

/// The browseable catalog entries of a category, in catalog order.
pub open spec fn category_infos(e: Seq<(Seq<char>, AppInfo)>, cl: Seq<char>) -> Seq<AppInfo>
    decreases e.len(),
{
    if e.len() == 0 {
        Seq::empty()
    } else {
        let a = e.last().1;
        let rest = category_infos(e.drop_last(), cl);
        if info_browseable(a) && in_category(a, cl) {
            rest.push(a)
        } else {
            rest
        }
    }
}

/// Store records for entries, in order, each marked installed or not.
pub open spec fn listed_all(r: Seq<NativeApp>, infos: Seq<AppInfo>, rpm: Seq<Seq<char>>, fp: Seq<Seq<char>>) -> bool {
    &&& r.len() == infos.len()
    &&& forall|k: int| 0 <= k < r.len() ==> native_of(#[trigger] r[k], infos[k]) && r[k].installed
        == installed_in(infos[k], rpm, fp)
}

/// Records merged by name (see `merge_multi_source`).
pub open spec fn merged_all(r: Seq<NativeApp>, apps: Seq<NativeApp>) -> bool {
    &&& r.len() == name_groups(apps).len()
    &&& forall|g: int| 0 <= g < r.len() ==> {
        let grp = name_groups(apps)[g];
        &&& grp.len() == 1 ==> #[trigger] r[g] == grp[0]
        &&& grp.len() >= 2 ==> merged_ok(r[g], grp)
    }
}

/// Records enriched one by one (see `enriched`).
pub open spec fn enriched_all(
    r: Seq<NativeApp>,
    apps: Seq<NativeApp>,
    e: Seq<(Seq<char>, AppInfo)>,
    rpm: Seq<Seq<char>>,
    fp: Seq<Seq<char>>,
    m: Seq<(Seq<char>, Seq<char>)>,
) -> bool {
    &&& r.len() == apps.len()
    &&& forall|k: int| 0 <= k < r.len() ==> enriched(#[trigger] r[k], apps[k], e, rpm, fp, m)
}

fn has_category(a: &AppInfo, cl: &str) -> (r: bool)
    ensures
        r == in_category(*a, cl@),
{
    let mut i: usize = 0;
    while i < a.categories.len()
        invariant
            i <= a.categories@.len(),
            forall|j: int| 0 <= j < i ==> str_lowercase(#[trigger] a.categories@[j]@) != cl@,
        decreases a.categories@.len() - i,
    {
        if str_eq(lowercase(a.categories[i].as_str()).as_str(), cl) {
            return true;
        }
        i = i + 1;
    }
    false
}

fn sort_by_app_key(apps: Vec<NativeApp>) -> (r: Vec<NativeApp>)
    ensures
        r@ == crate::order::stable_sorted(apps@, |a: NativeApp| app_key(a)),
        crate::order::sorted_by(r@, |a: NativeApp| app_key(a)),
        r@.to_multiset() == apps@.to_multiset(),
{
    let mut keys: Vec<Vec<char>> = Vec::new();
    let mut i: usize = 0;
    while i < apps.len()
        invariant
            i <= apps@.len(),
            keys@.len() == i,
            forall|q: int| 0 <= q < i ==> (#[trigger] keys@[q])@ == app_key(apps@[q]),
        decreases apps@.len() - i,
    {
        keys.push(chars_of(lowercase(apps[i].name.as_str()).as_str()));
        i = i + 1;
    }
    crate::order::sort_keyed(apps, keys, Ghost(|a: NativeApp| app_key(a)))
}

/// The apps of a category (case-insensitive): browseable entries, records
/// of the same name merged, each enriched with its counterpart, ordered by
/// name ignoring case.
pub fn get_by_category(
    category: &str,
    cat: &crate::appstream::Catalog,
    rpm: &Vec<String>,
    fp: &Vec<String>,
    m: &Vec<(String, String)>,
) -> (r: Vec<NativeApp>)
    requires
        cat.wf(),
    ensures
        exists|raw: Seq<NativeApp>, merged: Seq<NativeApp>, enr: Seq<NativeApp>|
            #![trigger listed_all(raw, category_infos(cat.view_entries(), str_lowercase(category@)), string_views(rpm@), string_views(fp@)), merged_all(merged, raw), enriched_all(enr, merged, cat.view_entries(), string_views(rpm@), string_views(fp@), pair_views(m@))]
            listed_all(raw, category_infos(cat.view_entries(), str_lowercase(category@)), string_views(rpm@), string_views(fp@))
            && merged_all(merged, raw) && enriched_all(
                enr,
                merged,
                cat.view_entries(),
                string_views(rpm@),
                string_views(fp@),
                pair_views(m@),
            ) && r@ == crate::order::stable_sorted(enr, |a: NativeApp| app_key(a)),
{
    let ghost e = cat.view_entries();
    let lc = lowercase(category);
    let mut raw: Vec<NativeApp> = Vec::new();
    let mut j: usize = 0;
    assert(e.subrange(0, 0) =~= Seq::<(Seq<char>, AppInfo)>::empty());
    while j < cat.entries.len()
        invariant
            j <= cat.entries@.len(),
            e == cat.view_entries(),
            lc@ == str_lowercase(category@),
            listed_all(raw@, category_infos(e.subrange(0, j as int), lc@), string_views(rpm@), string_views(fp@)),
        decreases cat.entries@.len() - j,
    {
        let a = &cat.entries[j].1;
        assert(e[j as int].1 == *a);
        assert(e.subrange(0, j + 1).drop_last() =~= e.subrange(0, j as int));
        assert(e.subrange(0, j + 1).last() == e[j as int]);
        let app = listed_app(a, rpm, fp);
        if is_browseable(&app) && has_category(a, lc.as_str()) {
            let ghost before = raw@;
            raw.push(app);
            assert forall|k: int| 0 <= k < raw@.len() implies native_of(#[trigger] raw@[k], category_infos(e.subrange(0, j + 1), lc@)[k])
                && raw@[k].installed == installed_in(category_infos(e.subrange(0, j + 1), lc@)[k], string_views(rpm@), string_views(fp@)) by {
                if k < before.len() {
                    assert(raw@[k] == before[k]);
                }
            }
        }
        j = j + 1;
    }
    assert(e.subrange(0, e.len() as int) =~= e);
    let ghost rawv = raw@;
    let mut merged = merge_multi_source(raw);
    let ghost mv = merged@;
    enrich_sources(&mut merged, cat, rpm, fp, m);
    let ghost ev = merged@;
    let r = sort_by_app_key(merged);
    assert(listed_all(rawv, category_infos(e, lc@), string_views(rpm@), string_views(fp@)));
    assert(merged_all(mv, rawv));
    assert(enriched_all(ev, mv, e, string_views(rpm@), string_views(fp@), pair_views(m@)));
    r
}

// ── Installed native packages ───────────────────────────────────────────────

/// A locally installed RPM: its package, the name `rpm` gives it and its
/// icon (empty when none was found).
#[derive(Debug, Clone)]
pub struct LocalRpm {
    pub package: String,
    pub display_name: String,
    pub icon_path: String,
}

/// The first entry from position `j` on that is not an add-on and has
/// this package name.
pub open spec fn package_meta(e: Seq<(Seq<char>, AppInfo)>, pkg: Seq<char>, j: int) -> Option<AppInfo>
    decreases e.len() - j,
{
    if j < 0 || j >= e.len() {
        None
    } else if !e[j].1.is_addon && e[j].1.package_name@.len() > 0 && e[j].1.package_name@ == pkg {
        Some(e[j].1)
    } else {
        package_meta(e, pkg, j + 1)
    }
}

/// The first Flatpak entry from position `j` on whose name, or the last
/// dot-separated piece of whose id, is `k` in lower case.
pub open spec fn flatpak_named(e: Seq<(Seq<char>, AppInfo)>, k: Seq<char>, j: int) -> Option<AppInfo>
    decreases e.len() - j,
{
    if j < 0 || j >= e.len() {
        None
    } else if e[j].1.source@ == "flatpak"@ && (str_lowercase(e[j].1.name@) == k || (
    crate::text::after_last(e[j].1.id@, '.').len() > 0 && str_lowercase(crate::text::after_last(e[j].1.id@, '.')) == k)) {
        Some(e[j].1)
    } else {
        flatpak_named(e, k, j + 1)
    }
}

/// A record built from a catalog entry for an installed package.
pub open spec fn from_meta(r: NativeApp, meta: AppInfo, id: Seq<char>, pkg: Seq<char>, icon: Seq<char>) -> bool {
    &&& r.name == meta.name && r.summary == meta.summary && r.description == meta.description
    &&& r.version == meta.version && r.icon == meta.icon && r.icon_url == meta.icon_url
    &&& r.categories@ == meta.categories@ && r.keywords@ == meta.keywords@ && r.screenshots@ == meta.screenshots@
    &&& r.developer == meta.developer && r.license == meta.license
    &&& r.url_homepage == meta.url_homepage && r.url_bugtracker == meta.url_bugtracker
    &&& r.url_donation == meta.url_donation && r.url_help == meta.url_help && r.url_faq == meta.url_faq
    &&& r.url_vcs_browser == meta.url_vcs_browser && r.url_contribute == meta.url_contribute
    &&& r.is_addon == meta.is_addon && r.pkg_name_guessed == meta.pkg_name_guessed
    &&& r.update_source@.len() == 0 && r.update_url@.len() == 0 && r.update_pattern@.len() == 0
    &&& r.sources@.len() == 0 && r.remotes@ == meta.remotes@
    &&& r.id@ == id && r.package_name@ == pkg && r.source@ == "native"@ && r.installed
    &&& r.icon_path@ == (if meta.icon_path@.len() == 0 {
        icon
    } else {
        meta.icon_path@
    })
}

/// A record made without catalog data: the given fields, everything else
/// empty, installed.
pub open spec fn plain_record(
    r: NativeApp,
    id: Seq<char>,
    name: Seq<char>,
    summary: Seq<char>,
    pkg: Seq<char>,
    source: Seq<char>,
    icon_path: Seq<char>,
) -> bool {
    &&& r.id@ == id && r.name@ == name && r.summary@ == summary && r.package_name@ == pkg
    &&& r.source@ == source && r.icon_path@ == icon_path && r.installed
    &&& r.description@.len() == 0 && r.version@.len() == 0 && r.icon@.len() == 0 && r.icon_url@.len() == 0
    &&& r.categories@.len() == 0 && r.keywords@.len() == 0 && r.screenshots@.len() == 0
    &&& r.developer@.len() == 0 && r.license@.len() == 0
    &&& r.url_homepage@.len() == 0 && r.url_bugtracker@.len() == 0 && r.url_donation@.len() == 0
    &&& r.url_help@.len() == 0 && r.url_faq@.len() == 0 && r.url_vcs_browser@.len() == 0
    &&& r.url_contribute@.len() == 0
    &&& !r.is_addon && !r.pkg_name_guessed
    &&& r.update_source@.len() == 0 && r.update_url@.len() == 0 && r.update_pattern@.len() == 0
    &&& r.sources@.len() == 0 && r.remotes@.len() == 0
}

/// The record of an installed package from the user's list: the catalog
/// entry with its package name, else a Flatpak entry of its name, else a
/// plain record; `icon` is the package's local icon.
pub open spec fn overlay_record_ok(r: NativeApp, pkg: Seq<char>, icon: Seq<char>, e: Seq<(Seq<char>, AppInfo)>) -> bool {
    match package_meta(e, pkg, 0) {
        Some(meta) => from_meta(r, meta, meta.id@, meta.package_name@, icon),
        None => match flatpak_named(e, str_lowercase(pkg), 0) {
            Some(meta) => from_meta(r, meta, pkg, pkg, icon),
            None => plain_record(r, pkg, pkg, "Installed package"@, pkg, "native"@, Seq::empty()),
        },
    }
}

pub open spec fn local_views(l: Seq<LocalRpm>) -> Seq<(Seq<char>, Seq<char>, Seq<char>)> {
    l.map_values(|x: LocalRpm| (x.package@, x.display_name@, x.icon_path@))
}

/// The local RPMs not already among the user's packages, in order.
pub open spec fn kept_local(l: Seq<(Seq<char>, Seq<char>, Seq<char>)>, overlay: Seq<Seq<char>>) -> Seq<(Seq<char>, Seq<char>, Seq<char>)> {
    l.filter(|x: (Seq<char>, Seq<char>, Seq<char>)| !overlay.contains(x.0))
}

/// The records of the installed packages before ordering: one per package
/// of the user's list, then one per kept local RPM.
pub open spec fn installed_records_ok(
    recs: Seq<NativeApp>,
    overlay: Seq<Seq<char>>,
    icons: Seq<Seq<char>>,
    local: Seq<(Seq<char>, Seq<char>, Seq<char>)>,
    e: Seq<(Seq<char>, AppInfo)>,
) -> bool {
    let kept = kept_local(local, overlay);
    &&& recs.len() == overlay.len() + kept.len()
    &&& forall|k: int| 0 <= k < overlay.len() ==> overlay_record_ok(#[trigger] recs[k], overlay[k], icons[k], e)
    &&& forall|k: int| 0 <= k < kept.len() ==> plain_record(
        #[trigger] recs[overlay.len() + k],
        kept[k].0,
        kept[k].1,
        "Locally installed RPM"@,
        kept[k].0,
        "local-rpm"@,
        kept[k].2,
    )
}

fn find_package_meta(cat: &crate::appstream::Catalog, pkg: &str) -> (r: Option<usize>)
    ensures
        match r {
            Some(j) => j < cat.entries@.len() && package_meta(cat.view_entries(), pkg@, 0) == Some(cat.entries@[j as int].1),
            None => package_meta(cat.view_entries(), pkg@, 0) is None,
        },
{
    let ghost e = cat.view_entries();
    let mut j: usize = 0;
    while j < cat.entries.len()
        invariant
            j <= cat.entries@.len(),
            e == cat.view_entries(),
            package_meta(e, pkg@, 0) == package_meta(e, pkg@, j as int),
        decreases cat.entries@.len() - j,
    {
        let a = &cat.entries[j].1;
        assert(e[j as int].1 == *a);
        if !a.is_addon && a.package_name.unicode_len() > 0 && str_eq(a.package_name.as_str(), pkg) {
            return Some(j);
        }
        j = j + 1;
    }
    None
}

fn find_flatpak_named(cat: &crate::appstream::Catalog, k: &str) -> (r: Option<usize>)
    ensures
        match r {
            Some(j) => j < cat.entries@.len() && flatpak_named(cat.view_entries(), k@, 0) == Some(cat.entries@[j as int].1),
            None => flatpak_named(cat.view_entries(), k@, 0) is None,
        },
{
    let ghost e = cat.view_entries();
    let mut j: usize = 0;
    while j < cat.entries.len()
        invariant
            j <= cat.entries@.len(),
            e == cat.view_entries(),
            flatpak_named(e, k@, 0) == flatpak_named(e, k@, j as int),
        decreases cat.entries@.len() - j,
    {
        let a = &cat.entries[j].1;
        assert(e[j as int].1 == *a);
        if str_eq(a.source.as_str(), "flatpak") {
            let n = lowercase(a.name.as_str());
            let seg = crate::text::after_last_vec(&chars_of(a.id.as_str()), '.');
            let seg_l = lowercase(string_of(&seg).as_str());
            if str_eq(n.as_str(), k) || (seg.len() > 0 && str_eq(seg_l.as_str(), k)) {
                return Some(j);
            }
        }
        j = j + 1;
    }
    None
}

fn plain(id: &str, name: &str, summary: &str, pkg: &str, source: &str, icon_path: &str) -> (r: NativeApp)
    ensures
        plain_record(r, id@, name@, summary@, pkg@, source@, icon_path@),
{
    NativeApp {
        id: string_of_str(id),
        name: string_of_str(name),
        summary: string_of_str(summary),
        description: String::new(),
        version: String::new(),
        package_name: string_of_str(pkg),
        icon: String::new(),
        icon_url: String::new(),
        icon_path: string_of_str(icon_path),
        categories: Vec::new(),
        keywords: Vec::new(),
        screenshots: Vec::new(),
        developer: String::new(),
        url_homepage: String::new(),
        url_bugtracker: String::new(),
        url_donation: String::new(),
        url_help: String::new(),
        url_faq: String::new(),
        url_vcs_browser: String::new(),
        url_contribute: String::new(),
        license: String::new(),
        source: string_of_str(source),
        installed: true,
        is_addon: false,
        pkg_name_guessed: false,
        update_source: String::new(),
        update_url: String::new(),
        update_pattern: String::new(),
        sources: Vec::new(),
        remotes: Vec::new(),
    }
}

fn record_from_meta(meta: &AppInfo, id: &str, pkg: &str, icon: &str) -> (r: NativeApp)
    ensures
        from_meta(r, *meta, id@, pkg@, icon@),
{
    let mut r = NativeApp::from_info(meta);
    r.installed = true;
    r.source = string_of_str("native");
    r.id = string_of_str(id);
    r.package_name = string_of_str(pkg);
    if r.icon_path.unicode_len() == 0 {
        r.icon_path = string_of_str(icon);
    }
    r
}

fn overlay_record(cat: &crate::appstream::Catalog, pkg: &str, icon: &str) -> (r: NativeApp)
    ensures
        overlay_record_ok(r, pkg@, icon@, cat.view_entries()),
{
    proof {
        reveal_strlit("Installed package");
        reveal_strlit("");
    }
    match find_package_meta(cat, pkg) {
        Some(j) => {
            let meta = &cat.entries[j].1;
            record_from_meta(meta, meta.id.as_str(), meta.package_name.as_str(), icon)
        },
        None => {
            let k = lowercase(pkg);
            match find_flatpak_named(cat, k.as_str()) {
                Some(j) => record_from_meta(&cat.entries[j].1, pkg, pkg, icon),
                None => {
                    let r = plain(pkg, pkg, "Installed package", pkg, "native", "");
                    assert(r.icon_path@ == Seq::<char>::empty());
                    r
                },
            }
        },
    }
}

/// The user's installed packages: one record per package of the user's
/// list (`overlay`, with its local icon in `icons`), then the local RPMs
/// not among them (see `installed_records_ok`), ordered by name ignoring
/// case, each enriched with its counterpart.
pub fn get_installed(
    overlay: &Vec<String>,
    icons: &Vec<String>,
    local: &Vec<LocalRpm>,
    cat: &crate::appstream::Catalog,
    rpm: &Vec<String>,
    fp: &Vec<String>,
    m: &Vec<(String, String)>,
) -> (r: Vec<NativeApp>)
    requires
        cat.wf(),
        icons@.len() == overlay@.len(),
    ensures
        exists|recs: Seq<NativeApp>|
            #![trigger installed_records_ok(recs, string_views(overlay@), string_views(icons@), local_views(local@), cat.view_entries())]
            installed_records_ok(recs, string_views(overlay@), string_views(icons@), local_views(local@), cat.view_entries())
            && enriched_all(
                r@,
                crate::order::stable_sorted(recs, |a: NativeApp| app_key(a)),
                cat.view_entries(),
                string_views(rpm@),
                string_views(fp@),
                pair_views(m@),
            ),
{
    proof {
        reveal_strlit("Locally installed RPM");
    }
    let ghost e = cat.view_entries();
    let ghost ov = string_views(overlay@);
    let ghost lv = local_views(local@);
    let ghost keep = |x: (Seq<char>, Seq<char>, Seq<char>)| !ov.contains(x.0);
    let mut recs: Vec<NativeApp> = Vec::new();
    let mut i: usize = 0;
    while i < overlay.len()
        invariant
            i <= overlay@.len(),
            icons@.len() == overlay@.len(),
            e == cat.view_entries(),
            recs@.len() == i,
            forall|k: int| 0 <= k < i ==> overlay_record_ok(#[trigger] recs@[k], overlay@[k]@, icons@[k]@, e),
        decreases overlay@.len() - i,
    {
        let ghost before = recs@;
        let rec = overlay_record(cat, overlay[i].as_str(), icons[i].as_str());
        recs.push(rec);
        assert forall|k: int| 0 <= k < i + 1 implies overlay_record_ok(#[trigger] recs@[k], overlay@[k]@, icons@[k]@, e) by {
            if k < i {
                assert(recs@[k] == before[k]);
            }
        }
        i = i + 1;
    }
    let n = recs.len();
    let mut q: usize = 0;
    assert(lv.subrange(0, 0).filter(keep) =~= Seq::<(Seq<char>, Seq<char>, Seq<char>)>::empty());
    while q < local.len()
        invariant
            q <= local@.len(),
            n == overlay@.len(),
            lv == local_views(local@),
            ov == string_views(overlay@),
            keep == (|x: (Seq<char>, Seq<char>, Seq<char>)| !ov.contains(x.0)),
            recs@.len() == n + lv.subrange(0, q as int).filter(keep).len(),
            forall|k: int| 0 <= k < n ==> overlay_record_ok(#[trigger] recs@[k], overlay@[k]@, icons@[k]@, e),
            forall|k: int| 0 <= k < lv.subrange(0, q as int).filter(keep).len() ==> plain_record(
                #[trigger] recs@[n + k],
                lv.subrange(0, q as int).filter(keep)[k].0,
                lv.subrange(0, q as int).filter(keep)[k].1,
                "Locally installed RPM"@,
                lv.subrange(0, q as int).filter(keep)[k].0,
                "local-rpm"@,
                lv.subrange(0, q as int).filter(keep)[k].2,
            ),
        decreases local@.len() - q,
    {
        let l = &local[q];
        assert(lv[q as int] == (l.package@, l.display_name@, l.icon_path@));
        proof {
            lv.subrange(0, q as int).lemma_filter_push(lv[q as int], keep);
            assert(lv.subrange(0, q + 1) =~= lv.subrange(0, q as int).push(lv[q as int]));
        }
        let ghost before = recs@;
        let ghost fb = lv.subrange(0, q as int).filter(keep);
        if !in_list(overlay, l.package.as_str()) {
            let rec = plain(l.package.as_str(), l.display_name.as_str(), "Locally installed RPM", l.package.as_str(), "local-rpm", l.icon_path.as_str());
            recs.push(rec);
            let ghost fa = lv.subrange(0, q + 1).filter(keep);
            assert(fa == fb.push(lv[q as int]));
            assert forall|k: int| 0 <= k < fa.len() implies plain_record(
                #[trigger] recs@[n + k],
                fa[k].0,
                fa[k].1,
                "Locally installed RPM"@,
                fa[k].0,
                "local-rpm"@,
                fa[k].2,
            ) by {
                if k < fb.len() {
                    assert(recs@[n + k] == before[n + k]);
                }
            }
            assert forall|k: int| 0 <= k < n implies overlay_record_ok(#[trigger] recs@[k], overlay@[k]@, icons@[k]@, e) by {
                assert(recs@[k] == before[k]);
            }
        }
        q = q + 1;
    }
    assert(lv.subrange(0, local@.len() as int) =~= lv);
    let ghost rv = recs@;
    assert(installed_records_ok(rv, ov, string_views(icons@), lv, e)) by {
        assert forall|k: int| 0 <= k < ov.len() implies overlay_record_ok(#[trigger] rv[k], ov[k], string_views(icons@)[k], e) by {
            assert(ov[k] == overlay@[k]@);
            assert(string_views(icons@)[k] == icons@[k]@);
        }
    }
    let mut sorted = sort_by_app_key(recs);
    let ghost sv = sorted@;
    enrich_sources(&mut sorted, cat, rpm, fp, m);
    assert(enriched_all(sorted@, sv, e, string_views(rpm@), string_views(fp@), pair_views(m@)));
    sorted
}

// ── Lists the store reads ───────────────────────────────────────────────────

/// The entries of a package list: each line trimmed, blank lines and `#`
/// comments skipped.
pub open spec fn list_entries(lines: Seq<Seq<char>>) -> Seq<Seq<char>>
    decreases lines.len(),
{
    if lines.len() == 0 {
        Seq::empty()
    } else {
        let rest = list_entries(lines.drop_last());
        let t = trim(lines.last());
        if t.len() > 0 && !crate::text::has_prefix(t, "#"@) {
            rest.push(t)
        } else {
            rest
        }
    }
}

/// The packages of a package list file (see `list_entries`).
pub fn parse_package_list(text: &str) -> (r: Vec<String>)
    ensures
        string_views(r@) == list_entries(crate::text::str_lines(text@)),
{
    proof {
        reveal_strlit("#");
    }
    let lines = crate::text::lines(&chars_of(text));
    let ghost ls = views(lines@);
    let mut out: Vec<String> = Vec::new();
    let mut i: usize = 0;
    assert(ls.subrange(0, 0) =~= Seq::<Seq<char>>::empty());
    while i < lines.len()
        invariant
            i <= lines@.len(),
            ls == views(lines@),
            ls == crate::text::str_lines(text@),
            string_views(out@) == list_entries(ls.subrange(0, i as int)),
        decreases lines@.len() - i,
    {
        assert(ls.subrange(0, i + 1).drop_last() =~= ls.subrange(0, i as int));
        assert(ls.subrange(0, i + 1).last() == lines@[i as int]@);
        let t = trim_vec(&lines[i]);
        if t.len() > 0 && !crate::text::starts_with(&t, &chars_of("#")) {
            let ghost o = string_views(out@);
            out.push(string_of(&t));
            assert(string_views(out@) =~= o.push(t@));
        }
        i = i + 1;
    }
    assert(ls.subrange(0, ls.len() as int) =~= ls);
    out
}

/// The provider names `rpm -q --whatprovides` printed: each line trimmed,
/// blank lines and `no package` messages skipped.
pub open spec fn provider_lines(lines: Seq<Seq<char>>) -> Seq<Seq<char>>
    decreases lines.len(),
{
    if lines.len() == 0 {
        Seq::empty()
    } else {
        let rest = provider_lines(lines.drop_last());
        let t = trim(lines.last());
        if t.len() > 0 && !crate::text::has_prefix(t, "no package"@) {
            rest.push(t)
        } else {
            rest
        }
    }
}

pub fn parse_providers(text: &str) -> (r: Vec<String>)
    ensures
        string_views(r@) == provider_lines(crate::text::str_lines(text@)),
{
    let lines = crate::text::lines(&chars_of(text));
    let ghost ls = views(lines@);
    let mut out: Vec<String> = Vec::new();
    let mut i: usize = 0;
    assert(ls.subrange(0, 0) =~= Seq::<Seq<char>>::empty());
    while i < lines.len()
        invariant
            i <= lines@.len(),
            ls == views(lines@),
            ls == crate::text::str_lines(text@),
            string_views(out@) == provider_lines(ls.subrange(0, i as int)),
        decreases lines@.len() - i,
    {
        assert(ls.subrange(0, i + 1).drop_last() =~= ls.subrange(0, i as int));
        assert(ls.subrange(0, i + 1).last() == lines@[i as int]@);
        let t = trim_vec(&lines[i]);
        if t.len() > 0 && !crate::text::starts_with(&t, &chars_of("no package")) {
            let ghost o = string_views(out@);
            out.push(string_of(&t));
            assert(string_views(out@) =~= o.push(t@));
        }
        i = i + 1;
    }
    assert(ls.subrange(0, ls.len() as int) =~= ls);
    out
}

/// The icon name a desktop file gives: the text after the first line's
/// `Icon=`, trimmed (`None` when no line starts with it).
pub open spec fn desktop_icon_of(lines: Seq<Seq<char>>) -> Option<Seq<char>>
    decreases lines.len(),
{
    if lines.len() == 0 {
        None
    } else if crate::text::has_prefix(lines[0], "Icon="@) {
        Some(trim(lines[0].subrange(5, lines[0].len() as int)))
    } else {
        desktop_icon_of(lines.drop_first())
    }
}

/// Whether a package name carries an architecture (`.i686`, `.x86_64`,
/// `.noarch`), which `rpm --whatprovides` does not match.
pub open spec fn arch_qualified(pkg: Seq<char>) -> bool {
    has_suffix(pkg, ".i686"@) || has_suffix(pkg, ".x86_64"@) || has_suffix(pkg, ".noarch"@)
}

/// The `rpm` query that tells whether a package is installed: a direct
/// query for an architecture-qualified name, else one by what it provides
/// (so that a virtual name resolves).
pub fn installed_query(pkg: &str) -> (c: StreamCommand)
    ensures
        c.words() == ("rpm"@, if arch_qualified(pkg@) {
            seq!["-q"@, "--quiet"@, pkg@]
        } else {
            seq!["-q"@, "--quiet"@, "--whatprovides"@, pkg@]
        }),
{
    let mut a: Vec<String> = Vec::new();
    push_arg(&mut a, "-q");
    push_arg(&mut a, "--quiet");
    if !(crate::text::str_ends_with(pkg, ".i686") || crate::text::str_ends_with(pkg, ".x86_64")
        || crate::text::str_ends_with(pkg, ".noarch")) {
        push_arg(&mut a, "--whatprovides");
    }
    push_arg(&mut a, pkg);
    let c = command("rpm", a);
    proof {
        if arch_qualified(pkg@) {
            assert(c.words().1 =~= seq!["-q"@, "--quiet"@, pkg@]);
        } else {
            assert(c.words().1 =~= seq!["-q"@, "--quiet"@, "--whatprovides"@, pkg@]);
        }
    }
    c
}


pub fn desktop_icon_name(text: &str) -> (r: Option<String>)
    ensures
        match r {
            Some(n) => desktop_icon_of(crate::text::str_lines(text@)) == Some(n@),
            None => desktop_icon_of(crate::text::str_lines(text@)) is None,
        },
{
    proof {
        reveal_strlit("Icon=");
    }
    let lines = crate::text::lines(&chars_of(text));
    let ghost ls = views(lines@);
    let mut i: usize = 0;
    assert(ls.subrange(0, ls.len() as int) =~= ls);
    while i < lines.len()
        invariant
            i <= lines@.len(),
            ls == views(lines@),
            ls == crate::text::str_lines(text@),
            desktop_icon_of(ls) == desktop_icon_of(ls.subrange(i as int, ls.len() as int)),
        decreases lines@.len() - i,
    {
        let ghost rest = ls.subrange(i as int, ls.len() as int);
        assert(rest[0] == lines@[i as int]@);
        assert(rest.drop_first() =~= ls.subrange(i + 1, ls.len() as int));
        if crate::text::starts_with(&lines[i], &chars_of("Icon=")) {
            proof {
                reveal_strlit("Icon=");
            }
            assert("Icon="@.len() == 5);
            let tail = crate::text::subvec(&lines[i], 5, lines[i].len());
            return Some(string_of(&trim_vec(&tail)));
        }
        i = i + 1;
    }
    None
}

/// Where a local RPM's icon is looked for, in order: the hicolor theme in
/// five sizes (each as `.png`, `.svg`, `.xpm`), the pixmaps (same three),
/// then the scalable hicolor icon.
pub open spec fn rpm_icon_candidates_spec(name: Seq<char>) -> Seq<Seq<char>> {
    let sizes = seq!["256x256"@, "128x128"@, "64x64"@, "48x48"@, "32x32"@];
    let exts = seq!["png"@, "svg"@, "xpm"@];
    Seq::new(15, |i: int| "/usr/share/icons/hicolor/"@ + sizes[i / 3] + "/apps/"@ + name + "."@ + exts[i % 3])
        + Seq::new(3, |i: int| "/usr/share/pixmaps/"@ + name + "."@ + exts[i])
        + seq!["/usr/share/icons/hicolor/scalable/apps/"@ + name + ".svg"@]
}

fn size_dir(k: usize) -> (r: &'static str)
    requires
        k < 5,
    ensures
        r@ == seq!["256x256"@, "128x128"@, "64x64"@, "48x48"@, "32x32"@][k as int],
{
    match k {
        0 => "256x256",
        1 => "128x128",
        2 => "64x64",
        3 => "48x48",
        _ => "32x32",
    }
}

fn ext_name(k: usize) -> (r: &'static str)
    requires
        k < 3,
    ensures
        r@ == seq!["png"@, "svg"@, "xpm"@][k as int],
{
    match k {
        0 => "png",
        1 => "svg",
        _ => "xpm",
    }
}

/// The icon files tried for a local RPM (see `rpm_icon_candidates_spec`);
/// the icon name is the desktop file's, else the package name.
pub fn rpm_icon_candidates(name: &str) -> (r: Vec<String>)
    ensures
        string_views(r@) == rpm_icon_candidates_spec(name@),
{
    let ghost spec = rpm_icon_candidates_spec(name@);
    let ghost sizes = seq!["256x256"@, "128x128"@, "64x64"@, "48x48"@, "32x32"@];
    let ghost exts = seq!["png"@, "svg"@, "xpm"@];
    let ghost p1 = Seq::new(15, |i: int| "/usr/share/icons/hicolor/"@ + sizes[i / 3] + "/apps/"@ + name@ + "."@ + exts[i % 3]);
    let ghost p2 = Seq::new(3, |i: int| "/usr/share/pixmaps/"@ + name@ + "."@ + exts[i]);
    let ghost p3 = seq!["/usr/share/icons/hicolor/scalable/apps/"@ + name@ + ".svg"@];
    assert(spec == p1 + p2 + p3);
    assert(spec.len() == 19);
    let mut out: Vec<String> = Vec::new();
    let mut i: usize = 0;
    while i < 15
        invariant
            i <= 15,
            spec == p1 + p2 + p3,
            p1 == Seq::new(15, |i: int| "/usr/share/icons/hicolor/"@ + sizes[i / 3] + "/apps/"@ + name@ + "."@ + exts[i % 3]),
            p2 == Seq::new(3, |i: int| "/usr/share/pixmaps/"@ + name@ + "."@ + exts[i]),
            p3 == seq!["/usr/share/icons/hicolor/scalable/apps/"@ + name@ + ".svg"@],
            sizes == seq!["256x256"@, "128x128"@, "64x64"@, "48x48"@, "32x32"@],
            exts == seq!["png"@, "svg"@, "xpm"@],
            string_views(out@) == spec.subrange(0, i as int),
        decreases 15 - i,
    {
        let mut v = chars_of("/usr/share/icons/hicolor/");
        crate::text::push_str(&mut v, size_dir(i / 3));
        crate::text::push_str(&mut v, "/apps/");
        crate::text::push_str(&mut v, name);
        crate::text::push_str(&mut v, ".");
        crate::text::push_str(&mut v, ext_name(i % 3));
        let ghost o = string_views(out@);
        out.push(string_of(&v));
        assert(spec[i as int] == p1[i as int]);
        assert(v@ == p1[i as int]);
        assert(string_views(out@) =~= o.push(v@));
        assert(spec.subrange(0, i + 1) =~= spec.subrange(0, i as int).push(spec[i as int]));
        assert(string_views(out@) =~= spec.subrange(0, i + 1));
        i = i + 1;
    }
    let mut j: usize = 0;
    while j < 3
        invariant
            j <= 3,
            spec == p1 + p2 + p3,
            p1 == Seq::new(15, |i: int| "/usr/share/icons/hicolor/"@ + sizes[i / 3] + "/apps/"@ + name@ + "."@ + exts[i % 3]),
            p2 == Seq::new(3, |i: int| "/usr/share/pixmaps/"@ + name@ + "."@ + exts[i]),
            p3 == seq!["/usr/share/icons/hicolor/scalable/apps/"@ + name@ + ".svg"@],
            sizes == seq!["256x256"@, "128x128"@, "64x64"@, "48x48"@, "32x32"@],
            exts == seq!["png"@, "svg"@, "xpm"@],
            string_views(out@) == spec.subrange(0, 15 + j),
        decreases 3 - j,
    {
        let mut v = chars_of("/usr/share/pixmaps/");
        crate::text::push_str(&mut v, name);
        crate::text::push_str(&mut v, ".");
        crate::text::push_str(&mut v, ext_name(j));
        let ghost o = string_views(out@);
        out.push(string_of(&v));
        assert(spec[15 + j] == p2[j as int]);
        assert(v@ == p2[j as int]);
        assert(string_views(out@) =~= o.push(v@));
        assert(spec.subrange(0, 15 + j + 1) =~= spec.subrange(0, 15 + j).push(spec[15 + j]));
        assert(string_views(out@) =~= spec.subrange(0, 15 + j + 1));
        j = j + 1;
    }
    let mut v = chars_of("/usr/share/icons/hicolor/scalable/apps/");
    crate::text::push_str(&mut v, name);
    crate::text::push_str(&mut v, ".svg");
    let ghost o = string_views(out@);
    out.push(string_of(&v));
    assert(spec[18] == p3[0]);
    assert(string_views(out@) =~= o.push(v@));
    assert(spec =~= spec.subrange(0, 18).push(spec[18]));
    assert(string_views(out@) =~= spec);
    out
}

// ── Installed Flatpaks ──────────────────────────────────────────────────────

/// One row of `flatpak list --app --columns=application,name,version,description,origin`.
#[derive(Debug, Clone)]
pub struct InstalledFlatpak {
    pub app_id: String,
    pub name: String,
    pub version: String,
    pub summary: String,
    pub origin: String,
}

/// Column `k` of a row as it is (empty when missing).
pub open spec fn raw_col(parts: Seq<Seq<char>>, k: int) -> Seq<char> {
    if 0 <= k < parts.len() {
        parts[k]
    } else {
        Seq::empty()
    }
}

pub open spec fn installed_fp_row(line: Seq<char>) -> Option<(Seq<char>, Seq<char>, Seq<char>, Seq<char>, Seq<char>)> {
    let parts = split_char(line, '\t');
    if parts.len() == 0 || parts[0].len() == 0 {
        None
    } else {
        Some((parts[0], raw_col(parts, 1), raw_col(parts, 2), raw_col(parts, 3), if parts.len() > 4 {
            parts[4]
        } else {
            "flathub"@
        }))
    }
}

/// The rows of the listing with an application id, in order.
pub open spec fn installed_fp_rows(lines: Seq<Seq<char>>) -> Seq<(Seq<char>, Seq<char>, Seq<char>, Seq<char>, Seq<char>)>
    decreases lines.len(),
{
    if lines.len() == 0 {
        Seq::empty()
    } else {
        let rest = installed_fp_rows(lines.drop_last());
        match installed_fp_row(lines.last()) {
            Some(r) => rest.push(r),
            None => rest,
        }
    }
}

pub open spec fn fp_row_views(v: Seq<InstalledFlatpak>) -> Seq<(Seq<char>, Seq<char>, Seq<char>, Seq<char>, Seq<char>)> {
    v.map_values(|x: InstalledFlatpak| (x.app_id@, x.name@, x.version@, x.summary@, x.origin@))
}

fn raw_col_of(parts: &Vec<Vec<char>>, k: usize) -> (r: String)
    ensures
        r@ == raw_col(views(parts@), k as int),
{
    if k < parts.len() {
        string_of(&parts[k])
    } else {
        String::new()
    }
}

/// The installed Flatpak apps a listing names (see `installed_fp_rows`).
pub fn parse_installed_flatpaks(text: &str) -> (r: Vec<InstalledFlatpak>)
    ensures
        fp_row_views(r@) == installed_fp_rows(crate::text::str_lines(text@)),
{
    let lines = crate::text::lines(&chars_of(text));
    let ghost ls = views(lines@);
    let mut out: Vec<InstalledFlatpak> = Vec::new();
    let mut i: usize = 0;
    assert(ls.subrange(0, 0) =~= Seq::<Seq<char>>::empty());
    while i < lines.len()
        invariant
            i <= lines@.len(),
            ls == views(lines@),
            ls == crate::text::str_lines(text@),
            fp_row_views(out@) == installed_fp_rows(ls.subrange(0, i as int)),
        decreases lines@.len() - i,
    {
        assert(ls.subrange(0, i + 1).drop_last() =~= ls.subrange(0, i as int));
        assert(ls.subrange(0, i + 1).last() == lines@[i as int]@);
        let parts = split(&lines[i], '\t');
        if parts.len() > 0 && parts[0].len() > 0 {
            let origin = if parts.len() > 4 {
                string_of(&parts[4])
            } else {
                string_of_str("flathub")
            };
            let row = InstalledFlatpak {
                app_id: string_of(&parts[0]),
                name: raw_col_of(&parts, 1),
                version: raw_col_of(&parts, 2),
                summary: raw_col_of(&parts, 3),
                origin,
            };
            let ghost o = fp_row_views(out@);
            out.push(row);
            assert(fp_row_views(out@) =~= o.push((row.app_id@, row.name@, row.version@, row.summary@, row.origin@)));
        }
        i = i + 1;
    }
    assert(ls.subrange(0, ls.len() as int) =~= ls);
    out
}

/// The catalog entry of an installed Flatpak: under its id when that is a
/// Flatpak entry, else under `flatpak:<id>`, `flatpak:<id>.desktop`, or
/// `<id>.desktop` when that is a Flatpak entry.
pub open spec fn installed_fp_meta(e: Seq<(Seq<char>, AppInfo)>, id: Seq<char>) -> Option<AppInfo> {
    match lookup(e, id) {
        Some(a) if a.source@ == "flatpak"@ => Some(a),
        _ => match lookup(e, "flatpak:"@ + id) {
            Some(a) => Some(a),
            None => match lookup(e, "flatpak:"@ + id + ".desktop"@) {
                Some(a) => Some(a),
                None => match lookup(e, id + ".desktop"@) {
                    Some(a) if a.source@ == "flatpak"@ => Some(a),
                    _ => None,
                },
            },
        },
    }
}

/// The record of an installed Flatpak: its catalog entry under its real id
/// (with the installed version when known), else one made from the
/// listing.
pub open spec fn installed_fp_record_ok(r: NativeApp, row: (Seq<char>, Seq<char>, Seq<char>, Seq<char>, Seq<char>), e: Seq<(Seq<char>, AppInfo)>) -> bool {
    match installed_fp_meta(e, row.0) {
        Some(meta) => {
            &&& r.name == meta.name && r.summary == meta.summary && r.description == meta.description
            &&& r.icon == meta.icon && r.icon_url == meta.icon_url && r.icon_path == meta.icon_path
            &&& r.categories@ == meta.categories@ && r.keywords@ == meta.keywords@ && r.screenshots@ == meta.screenshots@
            &&& r.developer == meta.developer && r.license == meta.license && r.source == meta.source
            &&& r.url_homepage == meta.url_homepage && r.url_bugtracker == meta.url_bugtracker
            &&& r.url_donation == meta.url_donation && r.url_help == meta.url_help && r.url_faq == meta.url_faq
            &&& r.url_vcs_browser == meta.url_vcs_browser && r.url_contribute == meta.url_contribute
            &&& r.is_addon == meta.is_addon && r.pkg_name_guessed == meta.pkg_name_guessed
            &&& r.update_source@.len() == 0 && r.update_url@.len() == 0 && r.update_pattern@.len() == 0
            &&& r.sources@.len() == 0 && r.remotes@ == meta.remotes@
            &&& r.id@ == row.0 && r.package_name@ == row.0 && r.installed
            &&& r.version@ == (if row.2.len() > 0 {
                row.2
            } else {
                meta.version@
            })
        },
        None => {
            &&& r.id@ == row.0 && r.name@ == row.1 && r.summary@ == row.3 && r.version@ == row.2
            &&& r.package_name@ == row.0 && r.source@ == "flatpak"@ && r.installed
            &&& r.icon@ == row.0 + ".png"@ && r.icon_path@.len() == 0 && r.icon_url@.len() == 0
            &&& r.description@.len() == 0 && r.categories@.len() == 0 && r.keywords@.len() == 0
            &&& r.screenshots@.len() == 0 && r.developer@.len() == 0 && r.license@.len() == 0
            &&& r.url_homepage@.len() == 0 && r.url_bugtracker@.len() == 0 && r.url_donation@.len() == 0
            &&& r.url_help@.len() == 0 && r.url_faq@.len() == 0 && r.url_vcs_browser@.len() == 0
            &&& r.url_contribute@.len() == 0 && !r.is_addon && !r.pkg_name_guessed
            &&& r.update_source@.len() == 0 && r.update_url@.len() == 0 && r.update_pattern@.len() == 0
            &&& r.sources@.len() == 0 && r.remotes@.len() == 0
        },
    }
}

fn find_installed_fp_meta<'a>(cat: &'a crate::appstream::Catalog, id: &str) -> (r: Option<&'a AppInfo>)
    requires
        cat.wf(),
    ensures
        match r {
            Some(a) => installed_fp_meta(cat.view_entries(), id@) == Some(*a),
            None => installed_fp_meta(cat.view_entries(), id@) is None,
        },
{
    proof {
        reveal_strlit("flatpak:");
        reveal_strlit(".desktop");
    }
    match cat.get(id) {
        Some(a) => {
            if str_eq(a.source.as_str(), "flatpak") {
                return Some(a);
            }
        },
        None => {},
    }
    let k1 = prefixed_key("flatpak:", id);
    match cat.get(k1.as_str()) {
        Some(a) => {
            return Some(a);
        },
        None => {},
    }
    let mut k2v = chars_of("flatpak:");
    crate::text::push_str(&mut k2v, id);
    crate::text::push_str(&mut k2v, ".desktop");
    let k2 = string_of(&k2v);
    match cat.get(k2.as_str()) {
        Some(a) => {
            return Some(a);
        },
        None => {},
    }
    let mut k3v = chars_of(id);
    crate::text::push_str(&mut k3v, ".desktop");
    let k3 = string_of(&k3v);
    match cat.get(k3.as_str()) {
        Some(a) => {
            if str_eq(a.source.as_str(), "flatpak") {
                Some(a)
            } else {
                None
            }
        },
        None => None,
    }
}

fn installed_fp_record(row: &InstalledFlatpak, cat: &crate::appstream::Catalog) -> (r: NativeApp)
    requires
        cat.wf(),
    ensures
        installed_fp_record_ok(r, (row.app_id@, row.name@, row.version@, row.summary@, row.origin@), cat.view_entries()),
{
    match find_installed_fp_meta(cat, row.app_id.as_str()) {
        Some(meta) => {
            let mut r = NativeApp::from_info(meta);
            r.installed = true;
            r.id = row.app_id.clone();
            r.package_name = row.app_id.clone();
            if row.version.unicode_len() > 0 {
                r.version = row.version.clone();
            }
            r
        },
        None => {
            let mut icon = chars_of(row.app_id.as_str());
            crate::text::push_str(&mut icon, ".png");
            NativeApp {
                id: row.app_id.clone(),
                name: row.name.clone(),
                summary: row.summary.clone(),
                description: String::new(),
                version: row.version.clone(),
                package_name: row.app_id.clone(),
                icon: string_of(&icon),
                icon_url: String::new(),
                icon_path: String::new(),
                categories: Vec::new(),
                keywords: Vec::new(),
                screenshots: Vec::new(),
                developer: String::new(),
                url_homepage: String::new(),
                url_bugtracker: String::new(),
                url_donation: String::new(),
                url_help: String::new(),
                url_faq: String::new(),
                url_vcs_browser: String::new(),
                url_contribute: String::new(),
                license: String::new(),
                source: string_of_str("flatpak"),
                installed: true,
                is_addon: false,
                pkg_name_guessed: false,
                update_source: String::new(),
                update_url: String::new(),
                update_pattern: String::new(),
                sources: Vec::new(),
                remotes: Vec::new(),
            }
        },
    }
}

/// The installed Flatpak apps with their catalog data (see
/// `installed_fp_record_ok`), each enriched with its native counterpart.
pub fn get_installed_flatpaks_enriched(
    rows: &Vec<InstalledFlatpak>,
    cat: &crate::appstream::Catalog,
    rpm: &Vec<String>,
    fp: &Vec<String>,
    m: &Vec<(String, String)>,
) -> (r: Vec<NativeApp>)
    requires
        cat.wf(),
    ensures
        exists|recs: Seq<NativeApp>|
            #![trigger enriched_all(r@, recs, cat.view_entries(), string_views(rpm@), string_views(fp@), pair_views(m@))]
            recs.len() == rows@.len() && (forall|k: int|
                0 <= k < recs.len() ==> installed_fp_record_ok(
                    #[trigger] recs[k],
                    fp_row_views(rows@)[k],
                    cat.view_entries(),
                )) && enriched_all(r@, recs, cat.view_entries(), string_views(rpm@), string_views(fp@), pair_views(m@)),
{
    let ghost e = cat.view_entries();
    let mut out: Vec<NativeApp> = Vec::new();
    let mut i: usize = 0;
    while i < rows.len()
        invariant
            i <= rows@.len(),
            cat.wf(),
            e == cat.view_entries(),
            out@.len() == i,
            forall|k: int| 0 <= k < i ==> installed_fp_record_ok(#[trigger] out@[k], fp_row_views(rows@)[k], e),
        decreases rows@.len() - i,
    {
        let ghost before = out@;
        let rec = installed_fp_record(&rows[i], cat);
        out.push(rec);
        assert forall|k: int| 0 <= k < i + 1 implies installed_fp_record_ok(#[trigger] out@[k], fp_row_views(rows@)[k], e) by {
            if k < i {
                assert(out@[k] == before[k]);
            }
        }
        i = i + 1;
    }
    let ghost recs = out@;
    enrich_sources(&mut out, cat, rpm, fp, m);
    assert(enriched_all(out@, recs, e, string_views(rpm@), string_views(fp@), pair_views(m@)));
    out
}

// ── Search ──────────────────────────────────────────────────────────────────

/// How well an entry matches a lower-case query: its name starts with it
/// (6), its name holds it (5), its id or package name does (4), its
/// summary does (3), a keyword does (2); 0 when nothing does.
pub open spec fn match_score(a: AppInfo, q: Seq<char>) -> int {
    let n = str_lowercase(a.name@);
    if crate::text::has_prefix(n, q) {
        6
    } else if crate::text::has_sub(n, q) {
        5
    } else if crate::text::has_sub(str_lowercase(a.id@), q) || crate::text::has_sub(str_lowercase(a.package_name@), q) {
        4
    } else if crate::text::has_sub(str_lowercase(a.summary@), q) {
        3
    } else if exists|k: int| 0 <= k < a.keywords@.len() && crate::text::has_sub(str_lowercase(#[trigger] a.keywords@[k]@), q) {
        2
    } else {
        0
    }
}

pub fn score_of(a: &AppInfo, q: &str) -> (r: u8)
    ensures
        r == match_score(*a, q@),
{
    let n = lowercase(a.name.as_str());
    if crate::text::str_starts_with(n.as_str(), q) {
        return 6;
    }
    if crate::text::str_contains(n.as_str(), q) {
        return 5;
    }
    if crate::text::str_contains(lowercase(a.id.as_str()).as_str(), q) || crate::text::str_contains(
        lowercase(a.package_name.as_str()).as_str(),
        q,
    ) {
        return 4;
    }
    if crate::text::str_contains(lowercase(a.summary.as_str()).as_str(), q) {
        return 3;
    }
    let mut k: usize = 0;
    while k < a.keywords.len()
        invariant
            k <= a.keywords@.len(),
            !crate::text::has_prefix(str_lowercase(a.name@), q@),
            !crate::text::has_sub(str_lowercase(a.name@), q@),
            !(crate::text::has_sub(str_lowercase(a.id@), q@) || crate::text::has_sub(str_lowercase(a.package_name@), q@)),
            !crate::text::has_sub(str_lowercase(a.summary@), q@),
            forall|j: int| 0 <= j < k ==> !crate::text::has_sub(str_lowercase(#[trigger] a.keywords@[j]@), q@),
        decreases a.keywords@.len() - k,
    {
        if crate::text::str_contains(lowercase(a.keywords[k].as_str()).as_str(), q) {
            assert(crate::text::has_sub(str_lowercase(a.keywords@[k as int]@), q@));
            return 2;
        }
        k = k + 1;
    }
    0
}

/// The browseable entries that match a query, with their scores, in
/// catalog order.
pub open spec fn scored_infos(e: Seq<(Seq<char>, AppInfo)>, q: Seq<char>) -> Seq<(int, AppInfo)>
    decreases e.len(),
{
    if e.len() == 0 {
        Seq::empty()
    } else {
        let a = e.last().1;
        let rest = scored_infos(e.drop_last(), q);
        if info_browseable(a) && match_score(a, q) > 0 {
            rest.push((match_score(a, q), a))
        } else {
            rest
        }
    }
}

/// Scored store records for scored entries.
pub open spec fn scored_ok(r: Seq<(u8, NativeApp)>, infos: Seq<(int, AppInfo)>, rpm: Seq<Seq<char>>, fp: Seq<Seq<char>>) -> bool {
    &&& r.len() == infos.len()
    &&& forall|k: int| 0 <= k < r.len() ==> (#[trigger] r[k]).0 == infos[k].0 && native_of(r[k].1, infos[k].1)
        && r[k].1.installed == installed_in(infos[k].1, rpm, fp)
}

/// Per name (in lower case, groups in order of first appearance): the best
/// score, the record that first reached it, and the other records in the
/// order they gave way.
pub open spec fn best_by_name(items: Seq<(u8, NativeApp)>) -> Seq<(u8, NativeApp, Seq<NativeApp>)>
    decreases items.len(),
{
    if items.len() == 0 {
        Seq::empty()
    } else {
        let st = best_by_name(items.drop_last());
        let (s, a) = items.last();
        match best_index(st, app_key(a), 0) {
            Some(i) => if s > st[i].0 {
                st.update(i, (s, a, st[i].2.push(st[i].1)))
            } else {
                st.update(i, (st[i].0, st[i].1, st[i].2.push(a)))
            },
            None => st.push((s, a, Seq::empty())),
        }
    }
}

pub open spec fn best_index(st: Seq<(u8, NativeApp, Seq<NativeApp>)>, k: Seq<char>, j: int) -> Option<int>
    decreases st.len() - j,
{
    if j < 0 || j >= st.len() {
        None
    } else if app_key(st[j].1) == k {
        Some(j)
    } else {
        best_index(st, k, j + 1)
    }
}

/// A record that gained sources: its own first, then those of the records
/// that gave way, in offer order; installed when any is.
pub open spec fn finished_ok(r: NativeApp, p: NativeApp, others: Seq<NativeApp>) -> bool {
    if others.len() == 0 {
        r == p
    } else {
        &&& r == with_sources(p, r.sources, r.installed)
        &&& exists|raw: Seq<SourceOption>|
            #![trigger options_in_order(raw)]
            {
                &&& r.sources@ == options_in_order(raw)
                &&& raw.len() == others.len() + 1
                &&& option_of_app(raw[0], p)
                &&& forall|k: int| 0 <= k < others.len() ==> option_of_app(#[trigger] raw[k + 1], others[k])
                &&& r.installed == exists|k: int| 0 <= k < raw.len() && (#[trigger] raw[k]).installed
            }
    }
}

pub open spec fn search_merged_ok(r: Seq<(u8, NativeApp)>, items: Seq<(u8, NativeApp)>) -> bool {
    let st = best_by_name(items);
    &&& r.len() == st.len()
    &&& forall|g: int| 0 <= g < r.len() ==> (#[trigger] r[g]).0 == st[g].0 && finished_ok(r[g].1, st[g].1, st[g].2)
}

/// The order of results: better scores first, then by name.
pub open spec fn rank_char(s: u8) -> char {
    if s >= 6 {
        '3'
    } else if s == 5 {
        '4'
    } else if s == 4 {
        '5'
    } else if s == 3 {
        '6'
    } else {
        '7'
    }
}

pub open spec fn rank_key(p: (u8, NativeApp)) -> Seq<char> {
    seq![rank_char(p.0)] + p.1.name@
}

pub open spec fn seconds(s: Seq<(u8, NativeApp)>) -> Seq<NativeApp> {
    s.map_values(|p: (u8, NativeApp)| p.1)
}

fn finish_group(p: NativeApp, opts: Vec<SourceOption>, Ghost(others): Ghost<Seq<NativeApp>>) -> (r: NativeApp)
    requires
        opts@.len() == others.len(),
        forall|k: int| 0 <= k < others.len() ==> option_of_app(#[trigger] opts@[k], others[k]),
    ensures
        finished_ok(r, p, others),
{
    if opts.len() == 0 {
        return p;
    }
    let mut raw: Vec<SourceOption> = Vec::new();
    raw.push(source_option_from_native_app(&p));
    let mut rest = opts;
    let ghost ov = rest@;
    let ghost mut k: int = 0;
    while rest.len() > 0
        invariant
            0 <= k <= ov.len(),
            ov.len() == others.len(),
            rest@ == ov.subrange(k, ov.len() as int),
            raw@.len() == k + 1,
            option_of_app(raw@[0], p),
            forall|q: int| 0 <= q < ov.len() ==> option_of_app(#[trigger] ov[q], others[q]),
            forall|q: int| 0 <= q < k ==> option_of_app(#[trigger] raw@[q + 1], others[q]),
        decreases rest@.len(),
    {
        let o = rest.remove(0);
        assert(o == ov[k]);
        let ghost before = raw@;
        raw.push(o);
        assert forall|q: int| 0 <= q < k + 1 implies option_of_app(#[trigger] raw@[q + 1], others[q]) by {
            if q < k {
                assert(raw@[q + 1] == before[q + 1]);
            }
        }
        proof {
            assert(rest@ =~= ov.subrange(k + 1, ov.len() as int));
            k = k + 1;
        }
    }
    let mut installed = false;
    let mut q: usize = 0;
    while q < raw.len()
        invariant
            q <= raw@.len(),
            installed == exists|j: int| 0 <= j < q && (#[trigger] raw@[j]).installed,
        decreases raw@.len() - q,
    {
        if raw[q].installed {
            installed = true;
        }
        q = q + 1;
    }
    let ghost rv = raw@;
    let sources = order_options(raw);
    let mut r = p;
    r.sources = sources;
    r.installed = installed;
    assert(r.sources@ == options_in_order(rv));
    r
}

fn rank_char_of(s: u8) -> (c: char)
    ensures
        c == rank_char(s),
{
    if s >= 6 {
        '3'
    } else if s == 5 {
        '4'
    } else if s == 4 {
        '5'
    } else if s == 3 {
        '6'
    } else {
        '7'
    }
}

/// Search the catalog (see `match_score`): matching browseable entries,
/// merged by name keeping the best score (see `best_by_name` and
/// `finished_ok`), ordered by score then name, each enriched with its
/// counterpart.
pub fn search(
    query: &str,
    cat: &crate::appstream::Catalog,
    rpm: &Vec<String>,
    fp: &Vec<String>,
    m: &Vec<(String, String)>,
) -> (r: Vec<NativeApp>)
    requires
        cat.wf(),
    ensures
        exists|scored: Seq<(u8, NativeApp)>, merged: Seq<(u8, NativeApp)>|
            #![trigger scored_ok(scored, scored_infos(cat.view_entries(), str_lowercase(query@)), string_views(rpm@), string_views(fp@)), search_merged_ok(merged, scored)]
            scored_ok(scored, scored_infos(cat.view_entries(), str_lowercase(query@)), string_views(rpm@), string_views(fp@))
            && search_merged_ok(merged, scored) && enriched_all(
                r@,
                seconds(crate::order::stable_sorted(merged, |p: (u8, NativeApp)| rank_key(p))),
                cat.view_entries(),
                string_views(rpm@),
                string_views(fp@),
                pair_views(m@),
            ),
{
    let ghost e = cat.view_entries();
    let q = lowercase(query);
    // Score the entries.
    let mut scored: Vec<(u8, NativeApp)> = Vec::new();
    let mut j: usize = 0;
    assert(e.subrange(0, 0) =~= Seq::<(Seq<char>, AppInfo)>::empty());
    while j < cat.entries.len()
        invariant
            j <= cat.entries@.len(),
            e == cat.view_entries(),
            q@ == str_lowercase(query@),
            scored_ok(scored@, scored_infos(e.subrange(0, j as int), q@), string_views(rpm@), string_views(fp@)),
        decreases cat.entries@.len() - j,
    {
        let a = &cat.entries[j].1;
        assert(e[j as int].1 == *a);
        assert(e.subrange(0, j + 1).drop_last() =~= e.subrange(0, j as int));
        assert(e.subrange(0, j + 1).last() == e[j as int]);
        let app = listed_app(a, rpm, fp);
        if is_browseable(&app) {
            let sc = score_of(a, q.as_str());
            if sc > 0 {
                let ghost before = scored@;
                scored.push((sc, app));
                let ghost infos = scored_infos(e.subrange(0, j + 1), q@);
                assert forall|k: int| 0 <= k < scored@.len() implies (#[trigger] scored@[k]).0 == infos[k].0 && native_of(scored@[k].1, infos[k].1)
                    && scored@[k].1.installed == installed_in(infos[k].1, string_views(rpm@), string_views(fp@)) by {
                    if k < before.len() {
                        assert(scored@[k] == before[k]);
                    }
                }
            }
        }
        j = j + 1;
    }
    assert(e.subrange(0, e.len() as int) =~= e);
    let ghost sv = scored@;
    // Keep the best record per name.
    let mut best: Vec<(u8, NativeApp)> = Vec::new();
    let mut opts: Vec<Vec<SourceOption>> = Vec::new();
    let mut keys: Vec<Vec<char>> = Vec::new();
    let ghost mut others: Seq<Seq<NativeApp>> = Seq::empty();
    let mut rest = scored;
    let ghost mut k: int = 0;
    assert(sv.subrange(0, 0) =~= Seq::<(u8, NativeApp)>::empty());
    assert(sv.subrange(0, sv.len() as int) =~= sv);
    while rest.len() > 0
        invariant
            0 <= k <= sv.len(),
            rest@ == sv.subrange(k, sv.len() as int),
            best@.len() == opts@.len(),
            best@.len() == keys@.len(),
            best@.len() == others.len(),
            best_by_name(sv.subrange(0, k)).len() == best@.len(),
            forall|g: int| 0 <= g < best@.len() ==> {
                let st = #[trigger] best_by_name(sv.subrange(0, k))[g];
                &&& st.0 == best@[g].0 && st.1 == best@[g].1 && st.2 == others[g]
            },
            forall|g: int| 0 <= g < best@.len() ==> (#[trigger] keys@[g])@ == app_key(best@[g].1),
            forall|g: int| 0 <= g < best@.len() ==> (#[trigger] opts@[g])@.len() == others[g].len(),
            forall|g: int, t: int| 0 <= g < best@.len() && 0 <= t < others[g].len() ==> option_of_app(
                #[trigger] opts@[g]@[t],
                others[g][t],
            ),
        decreases rest@.len(),
    {
        let (s, a) = rest.remove(0);
        assert((s, a) == sv[k]);
        let ghost st0 = best_by_name(sv.subrange(0, k));
        assert(sv.subrange(0, k + 1).drop_last() =~= sv.subrange(0, k));
        assert(sv.subrange(0, k + 1).last() == sv[k]);
        let key = chars_of(lowercase(a.name.as_str()).as_str());
        let mut i: usize = 0;
        while i < keys.len() && !crate::text::eq(&keys[i], &key)
            invariant
                i <= keys@.len(),
                keys@.len() == best@.len(),
                st0.len() == best@.len(),
                forall|g: int| 0 <= g < best@.len() ==> (#[trigger] keys@[g])@ == app_key(best@[g].1),
                forall|g: int| 0 <= g < best@.len() ==> (#[trigger] st0[g]).1 == best@[g].1,
                best_index(st0, key@, 0) == best_index(st0, key@, i as int),
            decreases keys@.len() - i,
        {
            assert(st0[i as int].1 == best@[i as int].1);
            i = i + 1;
        }
        let ghost bo = best@;
        let ghost oo = opts@;
        let ghost ko = keys@;
        if i < keys.len() {
            assert(st0[i as int].1 == best@[i as int].1);
            assert(best_index(st0, key@, 0) == Some(i as int));
            let (bs, ba) = best.remove(i);
            let mut og = opts.remove(i);
            if s > bs {
                og.push(source_option_from_native_app(&ba));
                best.insert(i, (s, a));
                proof {
                    others = others.update(i as int, others[i as int].push(ba));
                }
            } else {
                og.push(source_option_from_native_app(&a));
                best.insert(i, (bs, ba));
                proof {
                    others = others.update(i as int, others[i as int].push(a));
                }
            }
            opts.insert(i, og);
            assert forall|g: int| 0 <= g < best@.len() && g != i implies best@[g] == bo[g] && opts@[g] == oo[g] by {}
            assert forall|g: int, t: int| 0 <= g < best@.len() && 0 <= t < others[g].len() implies option_of_app(
                #[trigger] opts@[g]@[t],
                others[g][t],
            ) by {
                if g != i {
                    assert(opts@[g] == oo[g]);
                } else if t < oo[g]@.len() {
                    assert(opts@[g]@[t] == oo[g]@[t]);
                }
            }
        } else {
            assert(best_index(st0, key@, i as int) is None);
            best.push((s, a));
            opts.push(Vec::new());
            keys.push(key);
            proof {
                others = others.push(Seq::empty());
            }
            assert forall|g: int| 0 <= g < best@.len() implies (#[trigger] keys@[g])@ == app_key(best@[g].1) by {
                if g < bo.len() {
                    assert(keys@[g] == ko[g] && best@[g] == bo[g]);
                }
            }
            assert forall|g: int, t: int| 0 <= g < best@.len() && 0 <= t < others[g].len() implies option_of_app(
                #[trigger] opts@[g]@[t],
                others[g][t],
            ) by {
                if g < bo.len() {
                    assert(opts@[g] == oo[g]);
                }
            }
        }
        proof {
            assert(rest@ =~= sv.subrange(k + 1, sv.len() as int));
            k = k + 1;
        }
    }
    // Give the records that gained sources their source lists.
    let ghost stf = best_by_name(sv);
    let mut merged: Vec<(u8, NativeApp)> = Vec::new();
    let mut mkeys: Vec<Vec<char>> = Vec::new();
    let ghost bv = best@;
    let ghost ov = opts@;
    let mut brest = best;
    let mut orest = opts;
    let ghost mut g: int = 0;
    while brest.len() > 0
        invariant
            0 <= g <= bv.len(),
            bv.len() == ov.len(),
            bv.len() == others.len(),
            stf.len() == bv.len(),
            brest@ == bv.subrange(g, bv.len() as int),
            orest@ == ov.subrange(g, ov.len() as int),
            forall|h: int| 0 <= h < bv.len() ==> {
                let st = #[trigger] stf[h];
                &&& st.0 == bv[h].0 && st.1 == bv[h].1 && st.2 == others[h]
            },
            forall|h: int| 0 <= h < bv.len() ==> (#[trigger] ov[h])@.len() == others[h].len(),
            forall|h: int, t: int| 0 <= h < bv.len() && 0 <= t < others[h].len() ==> option_of_app(
                #[trigger] ov[h]@[t],
                others[h][t],
            ),
            merged@.len() == g,
            mkeys@.len() == g,
            forall|h: int| 0 <= h < g ==> (#[trigger] merged@[h]).0 == stf[h].0 && finished_ok(merged@[h].1, stf[h].1, stf[h].2),
            forall|h: int| 0 <= h < g ==> (#[trigger] mkeys@[h])@ == rank_key(merged@[h]),
        decreases brest@.len(),
    {
        let (s, p) = brest.remove(0);
        let o = orest.remove(0);
        assert((s, p) == bv[g] && o == ov[g]);
        let fin = finish_group(p, o, Ghost(others[g]));
        let mut kv: Vec<char> = Vec::new();
        kv.push(rank_char_of(s));
        let nm = chars_of(fin.name.as_str());
        let kv = crate::text::concat(&kv, &nm);
        let ghost mb = merged@;
        let ghost kb = mkeys@;
        merged.push((s, fin));
        mkeys.push(kv);
        assert(fin.name == bv[g].1.name);
        assert forall|h: int| 0 <= h < g + 1 implies (#[trigger] merged@[h]).0 == stf[h].0 && finished_ok(merged@[h].1, stf[h].1, stf[h].2) by {
            if h < g {
                assert(merged@[h] == mb[h]);
            }
        }
        assert forall|h: int| 0 <= h < g + 1 implies (#[trigger] mkeys@[h])@ == rank_key(merged@[h]) by {
            if h < g {
                assert(merged@[h] == mb[h] && mkeys@[h] == kb[h]);
            } else {
                assert(kv@ =~= seq![rank_char(s)] + fin.name@);
            }
        }
        proof {
            assert(brest@ =~= bv.subrange(g + 1, bv.len() as int));
            assert(orest@ =~= ov.subrange(g + 1, ov.len() as int));
            g = g + 1;
        }
    }
    let ghost mv = merged@;
    assert(search_merged_ok(mv, sv));
    let ranked = crate::order::sort_keyed(merged, mkeys, Ghost(|p: (u8, NativeApp)| rank_key(p)));
    let ghost rk = ranked@;
    let mut out: Vec<NativeApp> = Vec::new();
    let mut rr = ranked;
    let ghost mut t: int = 0;
    while rr.len() > 0
        invariant
            0 <= t <= rk.len(),
            rr@ == rk.subrange(t, rk.len() as int),
            out@ == seconds(rk.subrange(0, t)),
        decreases rr@.len(),
    {
        let (_, app) = rr.remove(0);
        proof {
            assert(seconds(rk.subrange(0, t + 1)) =~= seconds(rk.subrange(0, t)).push(rk[t].1));
        }
        out.push(app);
        proof {
            assert(rr@ =~= rk.subrange(t + 1, rk.len() as int));
            t = t + 1;
        }
    }
    assert(rk.subrange(0, t) =~= rk);
    let ghost sec = out@;
    enrich_sources(&mut out, cat, rpm, fp, m);
    assert(enriched_all(out@, sec, e, string_views(rpm@), string_views(fp@), pair_views(m@)));
    out
}


// ── Laws of search ──────────────────────────────────────────────────────────

/// `match_score` read off a store record.
pub open spec fn app_match_score(n: NativeApp, q: Seq<char>) -> int {
    let nm = str_lowercase(n.name@);
    if crate::text::has_prefix(nm, q) {
        6
    } else if crate::text::has_sub(nm, q) {
        5
    } else if crate::text::has_sub(str_lowercase(n.id@), q) || crate::text::has_sub(str_lowercase(n.package_name@), q) {
        4
    } else if crate::text::has_sub(str_lowercase(n.summary@), q) {
        3
    } else if exists|k: int| 0 <= k < n.keywords@.len() && crate::text::has_sub(str_lowercase(#[trigger] n.keywords@[k]@), q) {
        2
    } else {
        0
    }
}

/// `r` is `a` with other sources or installed mark.
pub open spec fn same_but_sources(r: NativeApp, a: NativeApp) -> bool {
    r == with_sources(a, r.sources, r.installed)
}

proof fn lemma_same_but_sources(r: NativeApp, a: NativeApp, q: Seq<char>)
    requires
        same_but_sources(r, a),
    ensures
        r.name == a.name,
        app_match_score(r, q) == app_match_score(a, q),
        browseable(r) == browseable(a),
{
    let w = with_sources(a, r.sources, r.installed);
    assert(w.name == a.name && w.id == a.id && w.package_name == a.package_name);
    assert(w.summary == a.summary && w.keywords == a.keywords && w.categories == a.categories);
    assert(w.is_addon == a.is_addon && w.pkg_name_guessed == a.pkg_name_guessed);
}

proof fn lemma_scored_infos(e: Seq<(Seq<char>, AppInfo)>, q: Seq<char>)
    ensures
        forall|k: int| 0 <= k < scored_infos(e, q).len() ==> {
            let x = #[trigger] scored_infos(e, q)[k];
            &&& x.0 == match_score(x.1, q) && x.0 > 0 && info_browseable(x.1)
        },
    decreases e.len(),
{
    if e.len() > 0 {
        lemma_scored_infos(e.drop_last(), q);
        let rest = scored_infos(e.drop_last(), q);
        let all = scored_infos(e, q);
        assert forall|k: int| 0 <= k < all.len() implies {
            let x = #[trigger] all[k];
            &&& x.0 == match_score(x.1, q) && x.0 > 0 && info_browseable(x.1)
        } by {
            if k < rest.len() {
                assert(all[k] == rest[k]);
            }
        }
    }
}

proof fn lemma_best_index(st: Seq<(u8, NativeApp, Seq<NativeApp>)>, k: Seq<char>, j: int)
    requires
        0 <= j,
    ensures
        match best_index(st, k, j) {
            Some(i) => j <= i < st.len() && app_key(st[i].1) == k,
            None => forall|q: int| j <= q < st.len() ==> app_key((#[trigger] st[q]).1) != k,
        },
    decreases st.len() - j,
{
    if j < st.len() {
        lemma_best_index(st, k, j + 1);
    }
}

/// Each name's best record is one of the scored ones, with its score; the
/// names differ.
proof fn lemma_best_by_name(items: Seq<(u8, NativeApp)>)
    ensures
        forall|g: int| 0 <= g < best_by_name(items).len() ==> exists|i: int|
            0 <= i < items.len() && (#[trigger] items[i]).0 == (#[trigger] best_by_name(items)[g]).0
                && items[i].1 == best_by_name(items)[g].1,
        forall|g1: int, g2: int| 0 <= g1 < g2 < best_by_name(items).len() ==> app_key(
            (#[trigger] best_by_name(items)[g1]).1,
        ) != app_key((#[trigger] best_by_name(items)[g2]).1),
    decreases items.len(),
{
    if items.len() > 0 {
        let rest = items.drop_last();
        lemma_best_by_name(rest);
        let st0 = best_by_name(rest);
        let st = best_by_name(items);
        let (sc, a) = items.last();
        lemma_best_index(st0, app_key(a), 0);
        let last = items.len() - 1;
        assert forall|g: int| 0 <= g < st.len() implies exists|i: int|
            0 <= i < items.len() && (#[trigger] items[i]).0 == (#[trigger] st[g]).0 && items[i].1 == st[g].1 by {
            if g < st0.len() && (st[g].0 == st0[g].0 && st[g].1 == st0[g].1) {
                let i = choose|i: int| 0 <= i < rest.len() && (#[trigger] rest[i]).0 == st0[g].0
                    && rest[i].1 == st0[g].1;
                assert(items[i] == rest[i]);
            } else {
                assert(items[last].0 == st[g].0 && items[last].1 == st[g].1);
            }
        }
        assert forall|g1: int, g2: int| 0 <= g1 < g2 < st.len() implies app_key(
            (#[trigger] st[g1]).1,
        ) != app_key((#[trigger] st[g2]).1) by {
            if g2 < st0.len() {
                assert(app_key(st[g1].1) == app_key(st0[g1].1));
                assert(app_key(st[g2].1) == app_key(st0[g2].1));
            } else {
                assert(app_key(st[g1].1) == app_key(st0[g1].1));
            }
        }
    }
}

proof fn lemma_enriched_same(
    r: NativeApp,
    a: NativeApp,
    e: Seq<(Seq<char>, AppInfo)>,
    rpm: Seq<Seq<char>>,
    fp: Seq<Seq<char>>,
    m: Seq<(Seq<char>, Seq<char>)>,
)
    requires
        enriched(r, a, e, rpm, fp, m),
    ensures
        same_but_sources(r, a),
{
    assert(with_sources(a, a.sources, a.installed) == a);
}

proof fn lemma_rank_order(a: (u8, NativeApp), b: (u8, NativeApp))
    requires
        2 <= a.0 <= 6,
        2 <= b.0 <= 6,
        crate::daemon::text_le(rank_key(a), rank_key(b)),
    ensures
        a.0 >= b.0,
        a.0 == b.0 ==> crate::daemon::text_le(a.1.name@, b.1.name@),
{
    assert(rank_key(a)[0] == rank_char(a.0));
    assert(rank_key(b)[0] == rank_char(b.0));
    assert(rank_key(a).drop_first() =~= a.1.name@);
    assert(rank_key(b).drop_first() =~= b.1.name@);
}

/// Every search hit is a browseable record that matches the query (lower
/// case) by name, id, package name, summary or a keyword; hits come by
/// score, best first, then by name; no two hits share a name in lower case.
pub proof fn law_search(
    q: Seq<char>,
    e: Seq<(Seq<char>, AppInfo)>,
    rpm: Seq<Seq<char>>,
    fp: Seq<Seq<char>>,
    m: Seq<(Seq<char>, Seq<char>)>,
    r: Seq<NativeApp>,
)
    requires
        exists|scored: Seq<(u8, NativeApp)>, merged: Seq<(u8, NativeApp)>|
            #![trigger scored_ok(scored, scored_infos(e, q), rpm, fp), search_merged_ok(merged, scored)]
            scored_ok(scored, scored_infos(e, q), rpm, fp) && search_merged_ok(merged, scored)
                && enriched_all(
                r,
                seconds(crate::order::stable_sorted(merged, |p: (u8, NativeApp)| rank_key(p))),
                e,
                rpm,
                fp,
                m,
            ),
    ensures
        forall|k: int| 0 <= k < r.len() ==> browseable(#[trigger] r[k]) && app_match_score(r[k], q) > 0,
        forall|i: int, j: int|
            0 <= i < j < r.len() ==> app_match_score(#[trigger] r[i], q) >= app_match_score(
                #[trigger] r[j],
                q,
            ) && (app_match_score(r[i], q) == app_match_score(r[j], q) ==> crate::daemon::text_le(
                r[i].name@,
                r[j].name@,
            )),
        forall|i: int, j: int| 0 <= i < j < r.len() ==> app_key(#[trigger] r[i]) != app_key(#[trigger] r[j]),
{
    let (scored, merged) = choose|scored: Seq<(u8, NativeApp)>, merged: Seq<(u8, NativeApp)>|
        scored_ok(scored, scored_infos(e, q), rpm, fp) && search_merged_ok(merged, scored)
            && enriched_all(
            r,
            seconds(crate::order::stable_sorted(merged, |p: (u8, NativeApp)| rank_key(p))),
            e,
            rpm,
            fp,
            m,
        );
    let rk = |p: (u8, NativeApp)| rank_key(p);
    let fk = |p: (u8, NativeApp)| app_key(p.1);
    let infos = scored_infos(e, q);
    lemma_scored_infos(e, q);
    lemma_best_by_name(scored);
    let st = best_by_name(scored);
    let good = |x: (u8, NativeApp)| 2 <= x.0 <= 6 && x.0 == app_match_score(x.1, q) && browseable(x.1);
    assert forall|g: int| 0 <= g < merged.len() implies #[trigger] good(merged[g]) && app_key(merged[g].1) == app_key(st[g].1) by {
        assert(merged[g].0 == st[g].0 && finished_ok(merged[g].1, st[g].1, st[g].2));
        assert(with_sources(st[g].1, st[g].1.sources, st[g].1.installed) == st[g].1);
        assert(same_but_sources(merged[g].1, st[g].1));
        let i = choose|i: int| 0 <= i < scored.len() && (#[trigger] scored[i]).0 == st[g].0
            && scored[i].1 == st[g].1;
        assert(scored[i].0 == infos[i].0 && native_of(scored[i].1, infos[i].1));
        let x = infos[i];
        assert(x.0 == match_score(x.1, q) && x.0 > 0 && info_browseable(x.1));
        assert(app_match_score(scored[i].1, q) == match_score(x.1, q));
        assert(browseable(scored[i].1) == info_browseable(x.1));
        assert(st[g].1 == scored[i].1);
        lemma_same_but_sources(merged[g].1, st[g].1, q);
        assert(2 <= merged[g].0 <= 6);
        assert(merged[g].0 == app_match_score(merged[g].1, q));
        assert(browseable(merged[g].1));
    }
    assert(crate::order::distinct_by(merged, fk)) by {
        assert forall|g1: int, g2: int| 0 <= g1 < g2 < merged.len() implies fk(#[trigger] merged[g1]) != fk(
            #[trigger] merged[g2],
        ) by {
            assert(good(merged[g1]) && good(merged[g2]));
        }
    }
    crate::order::lemma_stable_sorted(merged, rk, fk);
    let sorted = crate::order::stable_sorted(merged, rk);
    assert forall|k: int| 0 <= k < sorted.len() implies #[trigger] good(sorted[k]) by {
        assert(sorted.contains(sorted[k]));
        assert(merged.contains(sorted[k]));
        let g = choose|g: int| 0 <= g < merged.len() && merged[g] == sorted[k];
        assert(good(merged[g]));
    }
    let apps = seconds(sorted);
    assert forall|k: int| 0 <= k < r.len() implies same_but_sources(#[trigger] r[k], sorted[k].1) by {
        assert(enriched(r[k], apps[k], e, rpm, fp, m));
        lemma_enriched_same(r[k], apps[k], e, rpm, fp, m);
    }
    assert forall|k: int| 0 <= k < r.len() implies browseable(#[trigger] r[k]) && app_match_score(r[k], q) > 0 by {
        assert(good(sorted[k]));
        lemma_same_but_sources(r[k], sorted[k].1, q);
    }
    assert forall|i: int, j: int| 0 <= i < j < r.len() implies app_match_score(#[trigger] r[i], q)
        >= app_match_score(#[trigger] r[j], q) && (app_match_score(r[i], q) == app_match_score(r[j], q)
        ==> crate::daemon::text_le(r[i].name@, r[j].name@)) by {
        assert(good(sorted[i]) && good(sorted[j]));
        lemma_same_but_sources(r[i], sorted[i].1, q);
        lemma_same_but_sources(r[j], sorted[j].1, q);
        assert(crate::daemon::text_le(rk(sorted[i]), rk(sorted[j])));
        lemma_rank_order(sorted[i], sorted[j]);
    }
    assert forall|i: int, j: int| 0 <= i < j < r.len() implies app_key(#[trigger] r[i]) != app_key(#[trigger] r[j]) by {
        lemma_same_but_sources(r[i], sorted[i].1, q);
        lemma_same_but_sources(r[j], sorted[j].1, q);
        assert(fk(sorted[i]) != fk(sorted[j]));
    }
}

} // verus!
