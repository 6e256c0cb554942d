//! AppImage bookkeeping: default update sources, update-information parsing,
//! version and architecture checks, and the records kept beside each
//! installed AppImage.

use vstd::prelude::*;
use crate::text::{
    chars_of, has_prefix, has_sub, has_suffix, lowercase, path_file_name, file_name_of,
    replace_all, split, split_char, str_contains, str_ends_with, str_eq, str_lowercase,
    str_replace, string_of, string_of_str, trim_end_char, trim_start_char, trim_end_char_vec,
    trim_start_char_vec, views, starts_with, eq, replace_vec,
};

verus! {

pub const GITHUB_API: &'static str = "https://api.github.com/repos/{owner}/{repo}/releases/latest";

pub const GITLAB_API: &'static str = "https://gitlab.com/api/v4/projects/{project}/releases";

// ── Known update sources ────────────────────────────────────────────────────

/// A default update source for an AppImage that ships no update metadata.
#[derive(Debug, Clone, Copy)]
pub struct KnownSource {
    pub source: &'static str,
    pub url: &'static str,
    pub pattern: &'static str,
    pub allow_prerelease: bool,
    /// Compare release dates instead of version strings (for repositories
    /// whose release tag is not a version).
    pub compare_by_date: bool,
}

/// The table of default sources, keyed by installed AppImage id.
pub open spec fn known_source_spec(id: Seq<char>) -> Option<KnownSource> {
    if id == "rpcs3"@ {
        Some(
            KnownSource {
                source: "github",
                url: "https://api.github.com/repos/RPCS3/rpcs3-binaries-linux/releases/latest",
                pattern: "rpcs3-v*_linux64.AppImage",
                allow_prerelease: false,
                compare_by_date: true,
            },
        )
    } else if id == "eden"@ {
        Some(
            KnownSource {
                source: "forgejo",
                url: "https://git.eden-emu.dev/api/v1/repos/eden-ci/nightly/releases",
                pattern: "Eden-Linux-*-amd64-clang-pgo.AppImage",
                allow_prerelease: false,
                compare_by_date: false,
            },
        )
    } else if id == "duckstation"@ {
        Some(
            KnownSource {
                source: "github",
                url: "https://api.github.com/repos/stenzek/duckstation/releases/latest",
                pattern: "DuckStation-x64.AppImage",
                allow_prerelease: false,
                compare_by_date: true,
            },
        )
    } else if id == "pcsx2"@ {
        Some(
            KnownSource {
                source: "github",
                url: "https://api.github.com/repos/PCSX2/pcsx2/releases/latest",
                pattern: "pcsx2-*-linux-appimage-x64-Qt.AppImage",
                allow_prerelease: false,
                compare_by_date: false,
            },
        )
    } else if id == "youwee"@ {
        Some(
            KnownSource {
                source: "github",
                url: "https://api.github.com/repos/vanloctech/youwee/releases/latest",
                pattern: "Youwee-Linux.AppImage",
                allow_prerelease: false,
                compare_by_date: false,
            },
        )
    } else {
        None
    }
}

/// Look up the default source for an installed AppImage id.
pub fn known_source_for(id: &str) -> (r: Option<KnownSource>)
    ensures
        r == known_source_spec(id@),
{
    if str_eq(id, "rpcs3") {
        Some(
            KnownSource {
                source: "github",
                url: "https://api.github.com/repos/RPCS3/rpcs3-binaries-linux/releases/latest",
                pattern: "rpcs3-v*_linux64.AppImage",
                allow_prerelease: false,
                compare_by_date: true,
            },
        )
    } else if str_eq(id, "eden") {
        Some(
            KnownSource {
                source: "forgejo",
                url: "https://git.eden-emu.dev/api/v1/repos/eden-ci/nightly/releases",
                pattern: "Eden-Linux-*-amd64-clang-pgo.AppImage",
                allow_prerelease: false,
                compare_by_date: false,
            },
        )
    } else if str_eq(id, "duckstation") {
        Some(
            KnownSource {
                source: "github",
                url: "https://api.github.com/repos/stenzek/duckstation/releases/latest",
                pattern: "DuckStation-x64.AppImage",
                allow_prerelease: false,
                compare_by_date: true,
            },
        )
    } else if str_eq(id, "pcsx2") {
        Some(
            KnownSource {
                source: "github",
                url: "https://api.github.com/repos/PCSX2/pcsx2/releases/latest",
                pattern: "pcsx2-*-linux-appimage-x64-Qt.AppImage",
                allow_prerelease: false,
                compare_by_date: false,
            },
        )
    } else if str_eq(id, "youwee") {
        Some(
            KnownSource {
                source: "github",
                url: "https://api.github.com/repos/vanloctech/youwee/releases/latest",
                pattern: "Youwee-Linux.AppImage",
                allow_prerelease: false,
                compare_by_date: false,
            },
        )
    } else {
        None
    }
}

/// Every entry of the table names a source, a URL and an asset pattern.
pub proof fn law_known_sources_filled(id: Seq<char>)
    ensures
        known_source_spec(id) matches Some(k) ==> k.source@.len() > 0 && k.url@.len() > 0
            && k.pattern@.len() > 0,
{
    reveal_strlit("github");
    reveal_strlit("forgejo");
    reveal_strlit("https://api.github.com/repos/RPCS3/rpcs3-binaries-linux/releases/latest");
    reveal_strlit("rpcs3-v*_linux64.AppImage");
    reveal_strlit("https://git.eden-emu.dev/api/v1/repos/eden-ci/nightly/releases");
    reveal_strlit("Eden-Linux-*-amd64-clang-pgo.AppImage");
    reveal_strlit("https://api.github.com/repos/stenzek/duckstation/releases/latest");
    reveal_strlit("DuckStation-x64.AppImage");
    reveal_strlit("https://api.github.com/repos/PCSX2/pcsx2/releases/latest");
    reveal_strlit("pcsx2-*-linux-appimage-x64-Qt.AppImage");
    reveal_strlit("https://api.github.com/repos/vanloctech/youwee/releases/latest");
    reveal_strlit("Youwee-Linux.AppImage");
}

/// The whole table of default sources, as `(id, source)` pairs.
pub fn known_sources() -> (r: Vec<(&'static str, KnownSource)>)
    ensures
        r@.len() == 5,
        forall|i: int| 0 <= i < r@.len() ==> known_source_spec((#[trigger] r@[i]).0@) == Some(r@[i].1),
        forall|id: Seq<char>| #[trigger] known_source_spec(id) is Some ==> exists|i: int|
            0 <= i < r@.len() && (#[trigger] r@[i]).0@ == id,
{
    proof {
        reveal_strlit("rpcs3");
        reveal_strlit("eden");
        reveal_strlit("duckstation");
        reveal_strlit("pcsx2");
        reveal_strlit("youwee");
    }
    let ids: [&'static str; 5] = ["rpcs3", "eden", "duckstation", "pcsx2", "youwee"];
    let mut out: Vec<(&'static str, KnownSource)> = Vec::new();
    let mut i: usize = 0;
    while i < 5
        invariant
            i <= 5,
            ids@ == seq!["rpcs3", "eden", "duckstation", "pcsx2", "youwee"],
            out@.len() == i,
            forall|q: int| 0 <= q < i ==> (#[trigger] out@[q]).0 == ids@[q] && known_source_spec(out@[q].0@) == Some(out@[q].1),
        decreases 5 - i,
    {
        let id = ids[i];
        match known_source_for(id) {
            Some(k) => {
                out.push((id, k));
            },
            None => {
                assert(false);
            },
        }
        i = i + 1;
    }
    assert forall|id: Seq<char>| #[trigger] known_source_spec(id) is Some implies exists|q: int|
        0 <= q < out@.len() && (#[trigger] out@[q]).0@ == id by {
        if id == "rpcs3"@ {
            assert(out@[0].0@ == id);
        } else if id == "eden"@ {
            assert(out@[1].0@ == id);
        } else if id == "duckstation"@ {
            assert(out@[2].0@ == id);
        } else if id == "pcsx2"@ {
            assert(out@[3].0@ == id);
        } else {
            assert(out@[4].0@ == id);
        }
    }
    out
}

// ── Records ─────────────────────────────────────────────────────────────────

/// An installed AppImage, as recorded in its sidecar file.
#[derive(Debug, Clone, Default)]
pub struct AppImage {
    pub id: String,
    pub name: String,
    pub version: String,
    pub summary: String,
    pub description: String,
    pub installed_path: String,
    pub desktop_path: String,
    pub icon_path: String,
    pub categories: Vec<String>,
    /// "github" | "gitlab" | "codeberg" | "forgejo" | "url" | "none"
    pub update_source: String,
    pub update_url: String,
    pub update_pattern: String,
    /// Include pre-releases when checking for updates.
    pub allow_prerelease: bool,
    pub installed_at: String,
    pub last_checked: String,
    pub source: String,
    pub installed: bool,
}

/// Metadata read out of an AppImage (for display or install confirmation).
#[derive(Debug, Clone, Default)]
pub struct AppImageInfo {
    pub name: String,
    pub version: String,
    pub summary: String,
    pub description: String,
    pub icon_data: Option<Vec<u8>>,
    pub icon_ext: String,
    pub categories: Vec<String>,
    pub update_source: String,
    pub update_url: String,
    pub update_pattern: String,
}

/// Whether the record carries an update source of its own.
pub open spec fn has_manual_source(app: AppImage) -> bool {
    app.update_source@.len() > 0 && app.update_source@ != "none"@
}

/// The effective `(update_source, update_url, update_pattern)` of a record.
pub open spec fn resolved_source(app: AppImage) -> (Seq<char>, Seq<char>, Seq<char>) {
    if has_manual_source(app) {
        (app.update_source@, app.update_url@, app.update_pattern@)
    } else {
        match known_source_spec(app.id@) {
            Some(k) => (k.source@, k.url@, k.pattern@),
            None => (app.update_source@, app.update_url@, app.update_pattern@),
        }
    }
}

/// Resolve the effective update source for an AppImage: settings of its own
/// win, else the known-sources table, else what the record holds.
pub fn resolve_source(app: &AppImage) -> (r: (String, String, String))
    ensures
        (r.0@, r.1@, r.2@) == resolved_source(*app),
{
    if !app.update_source.as_str().is_empty() && !str_eq(app.update_source.as_str(), "none") {
        return (app.update_source.clone(), app.update_url.clone(), app.update_pattern.clone());
    }
    match known_source_for(app.id.as_str()) {
        Some(spec) => (
            string_of_str(spec.source),
            string_of_str(spec.url),
            string_of_str(spec.pattern),
        ),
        None => (app.update_source.clone(), app.update_url.clone(), app.update_pattern.clone()),
    }
}

/// Settings of a record's own always win over the known-sources table.
pub proof fn law_manual_source_wins(app: AppImage)
    requires
        has_manual_source(app),
    ensures
        resolved_source(app) == (app.update_source@, app.update_url@, app.update_pattern@),
{
}

/// A record without settings of its own and with a known id gets the table's
/// source.
pub proof fn law_known_source_fallback(app: AppImage)
    requires
        !has_manual_source(app),
        known_source_spec(app.id@).is_some(),
    ensures
        resolved_source(app) == ({
            let k = known_source_spec(app.id@).unwrap();
            (k.source@, k.url@, k.pattern@)
        }),
{
}


// ── Archives, architectures, ids ────────────────────────────────────────────

/// Whether a lower-cased file name ends in an archive suffix.
pub open spec fn has_archive_suffix(lower: Seq<char>) -> bool {
    ||| has_suffix(lower, ".tar.gz"@)
    ||| has_suffix(lower, ".tgz"@)
    ||| has_suffix(lower, ".tar.bz2"@)
    ||| has_suffix(lower, ".tbz2"@)
    ||| has_suffix(lower, ".tar.xz"@)
    ||| has_suffix(lower, ".txz"@)
    ||| has_suffix(lower, ".tar.zst"@)
    ||| has_suffix(lower, ".tzst"@)
    ||| has_suffix(lower, ".tar.lz"@)
    ||| has_suffix(lower, ".tar.lzma"@)
    ||| has_suffix(lower, ".zip"@)
    ||| has_suffix(lower, ".7z"@)
    ||| has_suffix(lower, ".tar"@)
}

/// The archive test on an already lower-cased path.
pub fn lowered_is_archive(lower: &str) -> (r: bool)
    ensures
        r == has_archive_suffix(lower@),
{
    str_ends_with(lower, ".tar.gz") || str_ends_with(lower, ".tgz") || str_ends_with(
        lower,
        ".tar.bz2",
    ) || str_ends_with(lower, ".tbz2") || str_ends_with(lower, ".tar.xz") || str_ends_with(
        lower,
        ".txz",
    ) || str_ends_with(lower, ".tar.zst") || str_ends_with(lower, ".tzst") || str_ends_with(
        lower,
        ".tar.lz",
    ) || str_ends_with(lower, ".tar.lzma") || str_ends_with(lower, ".zip") || str_ends_with(
        lower,
        ".7z",
    ) || str_ends_with(lower, ".tar")
}

/// Whether a path names an archive that may hold an AppImage (case-insensitive).
pub fn is_archive(path: &str) -> (r: bool)
    ensures
        r == has_archive_suffix(str_lowercase(path@)),
{
    let lower = lowercase(path);
    lowered_is_archive(lower.as_str())
}

pub open spec fn mentions_x86(lower: Seq<char>) -> bool {
    has_sub(lower, "x86_64"@) || has_sub(lower, "amd64"@) || has_sub(lower, "i686"@) || has_sub(
        lower,
        "i386"@,
    )
}

pub open spec fn mentions_arm(lower: Seq<char>) -> bool {
    has_sub(lower, "aarch64"@) || has_sub(lower, "arm64"@) || has_sub(lower, "armhf"@) || has_sub(
        lower,
        "armv7"@,
    )
}

pub open spec fn is_x86_host(host: Seq<char>) -> bool {
    host == "x86_64"@ || host == "amd64"@
}

pub open spec fn is_arm_host(host: Seq<char>) -> bool {
    host == "aarch64"@ || host == "arm64"@
}

/// A lower-cased file name does not clearly target an architecture other
/// than `host`.
pub open spec fn arch_ok(lower: Seq<char>, host: Seq<char>) -> bool {
    if is_x86_host(host) {
        !(mentions_arm(lower) && !mentions_x86(lower))
    } else if is_arm_host(host) {
        !(mentions_x86(lower) && !mentions_arm(lower))
    } else {
        true
    }
}

/// The architecture test on an already lower-cased file name.
pub fn lowered_matches_arch(lower: &str, host: &str) -> (r: bool)
    ensures
        r == arch_ok(lower@, host@),
{
    let has_x86 = str_contains(lower, "x86_64") || str_contains(lower, "amd64") || str_contains(
        lower,
        "i686",
    ) || str_contains(lower, "i386");
    let has_arm = str_contains(lower, "aarch64") || str_contains(lower, "arm64") || str_contains(
        lower,
        "armhf",
    ) || str_contains(lower, "armv7");
    if str_eq(host, "x86_64") || str_eq(host, "amd64") {
        !(has_arm && !has_x86)
    } else if str_eq(host, "aarch64") || str_eq(host, "arm64") {
        !(has_x86 && !has_arm)
    } else {
        true
    }
}

/// True when a release-asset file name does not clearly target another
/// architecture (case-insensitive).
pub fn name_matches_arch(name: &str, host: &str) -> (r: bool)
    ensures
        r == arch_ok(str_lowercase(name@), host@),
{
    let lower = lowercase(name);
    lowered_matches_arch(lower.as_str(), host)
}

/// A name that mentions no architecture suits every host.
pub proof fn law_neutral_name_matches_any_host(lower: Seq<char>, host: Seq<char>)
    requires
        !mentions_x86(lower),
        !mentions_arm(lower),
    ensures
        arch_ok(lower, host),
{
}

pub open spec fn is_ascii_alnum(c: char) -> bool {
    ('a' <= c && c <= 'z') || ('A' <= c && c <= 'Z') || ('0' <= c && c <= '9')
}

pub open spec fn id_char(c: char) -> char {
    if is_ascii_alnum(c) || c == '-' {
        c
    } else {
        '-'
    }
}

/// The id made of a lower-cased name: every character that is not ASCII
/// alphanumeric becomes `-`, then leading and trailing `-` go.
pub open spec fn id_of_lowered(lower: Seq<char>) -> Seq<char> {
    trim_end_char(trim_start_char(lower.map_values(|c: char| id_char(c)), '-'), '-')
}

proof fn lemma_trim_start_char_suffix(s: Seq<char>, c: char)
    ensures
        exists|k: int| 0 <= k <= s.len() && trim_start_char(s, c) == s.subrange(k, s.len() as int),
        trim_start_char(s, c).len() > 0 ==> trim_start_char(s, c)[0] != c,
    decreases s.len(),
{
    if s.len() > 0 && s[0] == c {
        lemma_trim_start_char_suffix(s.drop_first(), c);
        let k = choose|k: int|
            0 <= k <= s.drop_first().len() && trim_start_char(s.drop_first(), c)
                == s.drop_first().subrange(k, s.drop_first().len() as int);
        assert(s.drop_first().subrange(k, s.drop_first().len() as int) =~= s.subrange(
            k + 1,
            s.len() as int,
        ));
    } else {
        assert(s.subrange(0, s.len() as int) =~= s);
    }
}

proof fn lemma_trim_end_char_prefix(s: Seq<char>, c: char)
    ensures
        exists|k: int| 0 <= k <= s.len() && trim_end_char(s, c) == s.subrange(0, k),
        trim_end_char(s, c).len() > 0 ==> trim_end_char(s, c).last() != c,
        trim_end_char(s, c).len() > 0 && s.len() > 0 && s[0] != c ==> trim_end_char(s, c)[0] == s[0],
    decreases s.len(),
{
    if s.len() > 0 && s.last() == c {
        lemma_trim_end_char_prefix(s.drop_last(), c);
        let k = choose|k: int|
            0 <= k <= s.drop_last().len() && trim_end_char(s.drop_last(), c)
                == s.drop_last().subrange(0, k);
        assert(s.drop_last().subrange(0, k) =~= s.subrange(0, k));
    } else {
        assert(s.subrange(0, s.len() as int) =~= s);
    }
}

/// Every character of an id is ASCII alphanumeric or `-`, and an id neither
/// starts nor ends with `-`.
pub proof fn law_id_charset(lower: Seq<char>)
    ensures
        forall|i: int|
            0 <= i < id_of_lowered(lower).len() ==> is_ascii_alnum(#[trigger] id_of_lowered(lower)[i])
                || id_of_lowered(lower)[i] == '-',
        id_of_lowered(lower).len() > 0 ==> id_of_lowered(lower)[0] != '-',
        id_of_lowered(lower).len() > 0 ==> id_of_lowered(lower).last() != '-',
{
    let m = lower.map_values(|c: char| id_char(c));
    assert forall|i: int| 0 <= i < m.len() implies is_ascii_alnum(#[trigger] m[i]) || m[i] == '-' by {}
    lemma_trim_start_char_suffix(m, '-');
    let t = trim_start_char(m, '-');
    let k1 = choose|k: int| 0 <= k <= m.len() && t == m.subrange(k, m.len() as int);
    lemma_trim_end_char_prefix(t, '-');
    let u = trim_end_char(t, '-');
    let k2 = choose|k: int| 0 <= k <= t.len() && u == t.subrange(0, k);
    assert forall|i: int| 0 <= i < u.len() implies is_ascii_alnum(#[trigger] u[i]) || u[i] == '-' by {
        assert(u[i] == m[k1 + i]);
    }
}

/// The id of a lower-cased name (see `id_of_lowered`).
pub fn id_from_lowered(lower: &str) -> (r: String)
    ensures
        r@ == id_of_lowered(lower@),
{
    let v = chars_of(lower);
    let mut m: Vec<char> = Vec::new();
    let mut i: usize = 0;
    while i < v.len()
        invariant
            i <= v@.len(),
            v@ == lower@,
            m@ == v@.subrange(0, i as int).map_values(|c: char| id_char(c)),
        decreases v@.len() - i,
    {
        let c = v[i];
        let d = if ('a' <= c && c <= 'z') || ('A' <= c && c <= 'Z') || ('0' <= c && c <= '9') || c
            == '-' {
            c
        } else {
            '-'
        };
        m.push(d);
        i = i + 1;
        assert(m@ =~= v@.subrange(0, i as int).map_values(|c: char| id_char(c)));
    }
    assert(v@.subrange(0, v@.len() as int) =~= v@);
    let t = trim_start_char_vec(&m, '-');
    let u = trim_end_char_vec(&t, '-');
    string_of(&u)
}

/// The id under which an AppImage named `name` is installed.
pub fn sanitize_id(name: &str) -> (r: String)
    ensures
        r@ == id_of_lowered(str_lowercase(name@)),
{
    let lower = lowercase(name);
    id_from_lowered(lower.as_str())
}

/// `/` written as `%2F`, as a GitLab project path goes into a URL.
pub fn urlencoded(s: &str) -> (r: String)
    ensures
        r@ == replace_all(s@, "/"@, "%2F"@),
{
    proof {
        reveal_strlit("/");
    }
    str_replace(s, "/", "%2F")
}

/// The file name that holds an AppImage's record.
pub open spec fn sidecar_name(id: Seq<char>) -> Seq<char> {
    id + ".json"@
}

/// Whether an AppImage is installed, given the names of the files in the
/// install directory.
pub fn is_installed(id: &str, files: &Vec<String>) -> (r: bool)
    ensures
        r == exists|i: int| 0 <= i < files@.len() && (#[trigger] files@[i])@ == sidecar_name(id@),
{
    let mut want = chars_of(id);
    crate::text::push_str(&mut want, ".json");
    let mut i: usize = 0;
    while i < files.len()
        invariant
            i <= files@.len(),
            want@ == sidecar_name(id@),
            forall|j: int| 0 <= j < i ==> (#[trigger] files@[j])@ != sidecar_name(id@),
        decreases files@.len() - i,
    {
        if eq(&chars_of(files[i].as_str()), &want) {
            return true;
        }
        i = i + 1;
    }
    false
}


// ── X-AppImage-UpdateInformation ────────────────────────────────────────────

pub open spec fn no_zsync(s: Seq<char>) -> Seq<char> {
    replace_all(s, ".zsync"@, Seq::empty())
}

/// The asset pattern of an update-information field: the piece at `k` with
/// `.zsync` removed, or `*.AppImage` when there is none.
pub open spec fn pattern_at(parts: Seq<Seq<char>>, k: int) -> Seq<char> {
    if k < parts.len() {
        no_zsync(parts[k])
    } else {
        "*.AppImage"@
    }
}

pub open spec fn none_source() -> (Seq<char>, Seq<char>, Seq<char>) {
    ("none"@, Seq::empty(), Seq::empty())
}

/// `(update_source, update_url, update_pattern)` of an update-information
/// field that is neither empty nor `none`.
pub open spec fn update_fields_spec(u: Seq<char>) -> (Seq<char>, Seq<char>, Seq<char>) {
    let parts = split_char(u, '|');
    if has_prefix(parts[0], "gh-releases"@) {
        if parts.len() >= 4 {
            (
                "github"@,
                replace_all(replace_all(GITHUB_API@, "{owner}"@, parts[1]), "{repo}"@, parts[2]),
                pattern_at(parts, 4),
            )
        } else {
            none_source()
        }
    } else if has_prefix(parts[0], "gl-releases"@) {
        if parts.len() >= 3 {
            (
                "gitlab"@,
                replace_all(GITLAB_API@, "{project}"@, replace_all(parts[1], "/"@, "%2F"@)),
                pattern_at(parts, 3),
            )
        } else {
            none_source()
        }
    } else if parts[0] == "zsync"@ && parts.len() >= 2 {
        (
            "url"@,
            no_zsync(parts[1]),
            no_zsync(
                match path_file_name(parts[1]) {
                    Some(f) => f,
                    None => "*.AppImage"@,
                },
            ),
        )
    } else {
        none_source()
    }
}

/// The whole reading of the field, given its lower-cased form.
pub open spec fn update_info_spec(u: Seq<char>, lower: Seq<char>) -> (
    Seq<char>,
    Seq<char>,
    Seq<char>,
) {
    if u.len() == 0 || lower == "none"@ {
        none_source()
    } else {
        update_fields_spec(u)
    }
}

fn strip_zsync(s: &str) -> (r: String)
    ensures
        r@ == no_zsync(s@),
{
    proof {
        reveal_strlit(".zsync");
        reveal_strlit("");
        assert(""@.len() == 0);
        assert(""@ =~= Seq::<char>::empty());
    }
    str_replace(s, ".zsync", "")
}

fn pattern_piece(parts: &Vec<Vec<char>>, k: usize) -> (r: String)
    ensures
        r@ == pattern_at(views(parts@), k as int),
{
    if k < parts.len() {
        strip_zsync(string_of(&parts[k]).as_str())
    } else {
        string_of_str("*.AppImage")
    }
}

fn none_triple() -> (r: (String, String, String))
    ensures
        (r.0@, r.1@, r.2@) == none_source(),
{
    (string_of_str("none"), String::new(), String::new())
}

/// Read an update-information field that is neither empty nor `none`:
/// `gh-releases-zsync|owner|repo|tag|pattern`,
/// `gl-releases-zsync|namespace/repo|tag|pattern` or `zsync|url`.
pub fn parse_update_fields(update_info: &str) -> (r: (String, String, String))
    ensures
        (r.0@, r.1@, r.2@) == update_fields_spec(update_info@),
{
    let parts = split(&chars_of(update_info), '|');
    let ghost ps = views(parts@);
    assert(ps.len() >= 1);
    assert(ps[0] == parts@[0]@);
    if starts_with(&parts[0], &chars_of("gh-releases")) {
        if parts.len() >= 4 {
            let owner = string_of(&parts[1]);
            let repo = string_of(&parts[2]);
            proof {
                reveal_strlit("{owner}");
                reveal_strlit("{repo}");
            }
            let u1 = str_replace(GITHUB_API, "{owner}", owner.as_str());
            let url = str_replace(u1.as_str(), "{repo}", repo.as_str());
            let pattern = pattern_piece(&parts, 4);
            return (string_of_str("github"), url, pattern);
        }
    } else if starts_with(&parts[0], &chars_of("gl-releases")) {
        if parts.len() >= 3 {
            let project = urlencoded(string_of(&parts[1]).as_str());
            proof {
                reveal_strlit("{project}");
            }
            let url = str_replace(GITLAB_API, "{project}", project.as_str());
            let pattern = pattern_piece(&parts, 3);
            return (string_of_str("gitlab"), url, pattern);
        }
    } else if eq(&parts[0], &chars_of("zsync")) && parts.len() >= 2 {
        let url = strip_zsync(string_of(&parts[1]).as_str());
        let name = match file_name_of(&parts[1]) {
            Some(f) => string_of(&f),
            None => string_of_str("*.AppImage"),
        };
        let pattern = strip_zsync(name.as_str());
        return (string_of_str("url"), url, pattern);
    }
    none_triple()
}

/// Read the `X-AppImage-UpdateInformation` field of a desktop entry.
/// Returns `(update_source, update_url, update_pattern)`.
pub fn parse_update_info(update_info: &str) -> (r: (String, String, String))
    ensures
        (r.0@, r.1@, r.2@) == update_info_spec(update_info@, str_lowercase(update_info@)),
{
    if update_info.is_empty() {
        return none_triple();
    }
    let lower = lowercase(update_info);
    if str_eq(lower.as_str(), "none") {
        return none_triple();
    }
    parse_update_fields(update_info)
}


// ── Version comparison ──────────────────────────────────────────────────────

/// The matches of the regular expression `\d+` in `s`, left to right: the
/// maximal runs of Unicode decimal digits, as the `regex` crate finds them.
pub uninterp spec fn digit_runs(s: Seq<char>) -> Seq<Seq<char>>;

/// `Regex::new(r"\d+")` and `Regex::find_iter` (regex crate): the text of
/// every match, in order. The result is named by `digit_runs`; the crate
/// decides it from `s` alone.
#[verifier::external_body]
fn decimal_runs(s: &str) -> (r: Vec<String>)
    ensures
        r@.map_values(|x: String| x@) == digit_runs(s@),
{
    match regex::Regex::new(r"\d+") {
        Ok(re) => re.find_iter(s).map(|m| m.as_str().to_string()).collect(),
        Err(_) => Vec::new(),
    }
}

/// The runs that parse as `u64`, as numbers, in order (others are dropped).
pub open spec fn version_numbers(runs: Seq<Seq<char>>) -> Seq<u64>
    decreases runs.len(),
{
    if runs.len() == 0 {
        Seq::empty()
    } else {
        let init = version_numbers(runs.drop_last());
        match crate::num::parse_u64_spec(runs.last()) {
            Some(v) => init.push(v),
            None => init,
        }
    }
}

/// Lexicographic `>` on number sequences (the order of `Vec<u64>`).
pub open spec fn lex_gt(a: Seq<u64>, b: Seq<u64>) -> bool
    decreases a.len(),
{
    if a.len() == 0 {
        false
    } else if b.len() == 0 {
        true
    } else if a[0] != b[0] {
        a[0] > b[0]
    } else {
        lex_gt(a.drop_first(), b.drop_first())
    }
}

/// `new` is newer than `current`, given the digit runs of each.
pub open spec fn version_newer_spec(
    new: Seq<char>,
    current: Seq<char>,
    new_runs: Seq<Seq<char>>,
    cur_runs: Seq<Seq<char>>,
) -> bool {
    if current.len() == 0 {
        true
    } else if new == current {
        false
    } else {
        lex_gt(version_numbers(new_runs), version_numbers(cur_runs))
    }
}

proof fn lemma_lex_gt_asym(a: Seq<u64>, b: Seq<u64>)
    ensures
        lex_gt(a, b) ==> !lex_gt(b, a),
    decreases a.len(),
{
    if a.len() > 0 && b.len() > 0 && a[0] == b[0] {
        lemma_lex_gt_asym(a.drop_first(), b.drop_first());
    }
}

proof fn lemma_lex_gt_trans(a: Seq<u64>, b: Seq<u64>, c: Seq<u64>)
    requires
        lex_gt(a, b),
        lex_gt(b, c),
    ensures
        lex_gt(a, c),
    decreases a.len(),
{
    if c.len() > 0 && a[0] == b[0] && b[0] == c[0] {
        lemma_lex_gt_trans(a.drop_first(), b.drop_first(), c.drop_first());
    }
}

/// A version is never newer than itself.
pub proof fn law_version_not_newer_than_itself(v: Seq<char>, runs: Seq<Seq<char>>)
    requires
        v.len() > 0,
    ensures
        !version_newer_spec(v, v, runs, runs),
{
}

/// Of two different non-empty versions, at most one is newer than the other.
pub proof fn law_version_newer_asymmetric(
    a: Seq<char>,
    b: Seq<char>,
    ra: Seq<Seq<char>>,
    rb: Seq<Seq<char>>,
)
    requires
        a.len() > 0,
        b.len() > 0,
        version_newer_spec(a, b, ra, rb),
    ensures
        !version_newer_spec(b, a, rb, ra),
{
    lemma_lex_gt_asym(version_numbers(ra), version_numbers(rb));
}

/// Being newer is transitive among non-empty versions.
pub proof fn law_version_newer_transitive(
    a: Seq<char>,
    b: Seq<char>,
    c: Seq<char>,
    ra: Seq<Seq<char>>,
    rb: Seq<Seq<char>>,
    rc: Seq<Seq<char>>,
)
    requires
        b.len() > 0,
        c.len() > 0,
        a != c,
        version_newer_spec(a, b, ra, rb),
        version_newer_spec(b, c, rb, rc),
    ensures
        version_newer_spec(a, c, ra, rc),
{
    lemma_lex_gt_trans(version_numbers(ra), version_numbers(rb), version_numbers(rc));
}

/// The numbers of the digit runs that fit in `u64`.
pub fn numbers_of_runs(runs: &Vec<String>) -> (r: Vec<u64>)
    ensures
        r@ == version_numbers(runs@.map_values(|x: String| x@)),
{
    let ghost all = runs@.map_values(|x: String| x@);
    let mut out: Vec<u64> = Vec::new();
    let mut i: usize = 0;
    while i < runs.len()
        invariant
            i <= runs@.len(),
            all == runs@.map_values(|x: String| x@),
            out@ == version_numbers(all.subrange(0, i as int)),
        decreases runs@.len() - i,
    {
        let ghost pre = all.subrange(0, i + 1);
        assert(pre.drop_last() =~= all.subrange(0, i as int));
        assert(pre.last() == runs@[i as int]@);
        match crate::num::parse_u64(&chars_of(runs[i].as_str())) {
            Some(v) => out.push(v),
            None => {},
        }
        i = i + 1;
    }
    assert(all.subrange(0, runs@.len() as int) =~= all);
    out
}

/// Lexicographic `>` on number sequences.
pub fn numbers_greater(a: &Vec<u64>, b: &Vec<u64>) -> (r: bool)
    ensures
        r == lex_gt(a@, b@),
{
    let mut i: usize = 0;
    assert(a@.skip(0) =~= a@);
    assert(b@.skip(0) =~= b@);
    while i < a.len() && i < b.len()
        invariant
            i <= a@.len(),
            i <= b@.len(),
            lex_gt(a@, b@) == lex_gt(a@.skip(i as int), b@.skip(i as int)),
        decreases a@.len() - i,
    {
        if a[i] != b[i] {
            return a[i] > b[i];
        }
        assert(a@.skip(i as int).drop_first() =~= a@.skip(i + 1));
        assert(b@.skip(i as int).drop_first() =~= b@.skip(i + 1));
        i = i + 1;
    }
    i < a.len()
}

/// Whether `new` is a newer version than `current`: an empty `current`
/// always loses, equal strings never differ, and otherwise the numbers in
/// each string are compared left to right.
pub fn version_newer(new: &str, current: &str) -> (r: bool)
    ensures
        r == version_newer_spec(new@, current@, digit_runs(new@), digit_runs(current@)),
{
    if current.is_empty() {
        return true;
    }
    if str_eq(new, current) {
        return false;
    }
    runs_newer(&decimal_runs(new), &decimal_runs(current))
}

/// Compare two versions by their digit runs: the numbers of the runs, left
/// to right, lexicographically.
pub fn runs_newer(new_runs: &Vec<String>, cur_runs: &Vec<String>) -> (r: bool)
    ensures
        r == lex_gt(
            version_numbers(new_runs@.map_values(|x: String| x@)),
            version_numbers(cur_runs@.map_values(|x: String| x@)),
        ),
{
    let a = numbers_of_runs(new_runs);
    let b = numbers_of_runs(cur_runs);
    numbers_greater(&a, &b)
}


// ── ELF header and architecture checks ──────────────────────────────────────

/// Why the first bytes of a download are not an ELF executable.
#[derive(Debug, Clone, Copy, PartialEq, Eq, Structural)]
pub enum ElfError {
    TooSmall,
    NotElf,
}

/// The ELF `e_machine` of a file, given the (up to 20) bytes read from its
/// start.
pub open spec fn elf_machine_spec(h: Seq<u8>) -> Result<u16, ElfError> {
    if h.len() < 20 {
        Err(ElfError::TooSmall)
    } else if !(h[0] == 0x7f && h[1] == 0x45 && h[2] == 0x4c && h[3] == 0x46) {
        Err(ElfError::NotElf)
    } else {
        Ok((h[18] as int + 256 * h[19] as int) as u16)
    }
}

pub fn elf_machine(header: &[u8]) -> (r: Result<u16, ElfError>)
    ensures
        r == elf_machine_spec(header@),
{
    if header.len() < 20 {
        return Err(ElfError::TooSmall);
    }
    if !(header[0] == 0x7f && header[1] == 0x45 && header[2] == 0x4c && header[3] == 0x46) {
        return Err(ElfError::NotElf);
    }
    let lo = header[18] as u16;
    let hi = header[19] as u16;
    Ok(lo + 256 * hi)
}

pub open spec fn machine_name_spec(m: Result<u16, ElfError>) -> &'static str {
    match m {
        Ok(3) => "i386",
        Ok(62) => "x86_64",
        Ok(183) => "aarch64",
        _ => "unknown-arch",
    }
}

/// The architecture name of a file's ELF header.
pub fn machine_name_of(header: &[u8]) -> (r: &'static str)
    ensures
        r == machine_name_spec(elf_machine_spec(header@)),
{
    match elf_machine(header) {
        Ok(3) => "i386",
        Ok(62) => "x86_64",
        Ok(183) => "aarch64",
        _ => "unknown-arch",
    }
}

/// Why a download was refused as an AppImage for this machine.
#[derive(Debug, Clone)]
pub enum ArchError {
    Elf(ElfError),
    /// The ELF header names another machine than the host.
    MachineMismatch { host: String, machine: &'static str },
    /// The file name targets another architecture than the host.
    NameMismatch { host: String, file_name: String },
}

pub open spec fn machine_fits_host(host: Seq<char>, m: u16) -> bool {
    if is_x86_host(host) {
        m == 62
    } else if is_arm_host(host) {
        m == 183
    } else {
        true
    }
}

/// The lower-cased file name of `path` (empty when it has none).
pub open spec fn lowered_file_name(path: Seq<char>) -> Seq<char> {
    str_lowercase(
        match path_file_name(path) {
            Some(f) => f,
            None => Seq::empty(),
        },
    )
}

/// Verify that a download is an ELF executable for the host: the ELF
/// `e_machine` first, the file name as a second hint.
pub fn check_elf_and_arch(header: &[u8], path: &str, host: &str) -> (r: Result<(), ArchError>)
    ensures
        match elf_machine_spec(header@) {
            Err(e) => r matches Err(ArchError::Elf(x)) && x == e,
            Ok(m) => if !machine_fits_host(host@, m) {
                r matches Err(ArchError::MachineMismatch { host: h, machine: n }) && h@ == host@
                    && n == machine_name_spec(Ok(m))
            } else if !arch_ok(lowered_file_name(path@), host@) {
                r matches Err(ArchError::NameMismatch { host: h, file_name: f }) && h@ == host@
                    && f@ == lowered_file_name(path@)
            } else {
                r is Ok
            },
        },
{
    let machine = match elf_machine(header) {
        Ok(m) => m,
        Err(e) => return Err(ArchError::Elf(e)),
    };
    let machine_ok = if str_eq(host, "x86_64") || str_eq(host, "amd64") {
        machine == 62
    } else if str_eq(host, "aarch64") || str_eq(host, "arm64") {
        machine == 183
    } else {
        true
    };
    if !machine_ok {
        return Err(
            ArchError::MachineMismatch { host: string_of_str(host), machine: machine_name_of(header) },
        );
    }
    let fname = match file_name_of(&chars_of(path)) {
        Some(f) => string_of(&f),
        None => String::new(),
    };
    let lower = lowercase(fname.as_str());
    if !lowered_matches_arch(lower.as_str(), host) {
        return Err(ArchError::NameMismatch { host: string_of_str(host), file_name: lower });
    }
    Ok(())
}

impl ArchError {
    pub open spec fn message_spec(&self) -> Seq<char> {
        match self {
            ArchError::Elf(ElfError::TooSmall) => "Downloaded file is too small to be an AppImage."@,
            ArchError::Elf(ElfError::NotElf) => "Downloaded file is not an ELF executable (AppImage)."@,
            ArchError::MachineMismatch { host, machine } => "Architecture mismatch: host is "@
                + host@ + ", downloaded AppImage is "@ + machine@ + "."@,
            ArchError::NameMismatch { host, file_name } => "Architecture mismatch: host is "@
                + host@
                + ", but the downloaded file name targets another architecture ("@ + file_name@
                + ")."@,
        }
    }

    /// The text shown for the error.
    pub fn message(&self) -> (r: String)
        ensures
            r@ == self.message_spec(),
    {
        let mut out: Vec<char> = Vec::new();
        match self {
            ArchError::Elf(ElfError::TooSmall) => {
                crate::text::push_str(&mut out, "Downloaded file is too small to be an AppImage.");
            },
            ArchError::Elf(ElfError::NotElf) => {
                crate::text::push_str(
                    &mut out,
                    "Downloaded file is not an ELF executable (AppImage).",
                );
            },
            ArchError::MachineMismatch { host, machine } => {
                crate::text::push_str(&mut out, "Architecture mismatch: host is ");
                crate::text::push_str(&mut out, host.as_str());
                crate::text::push_str(&mut out, ", downloaded AppImage is ");
                crate::text::push_str(&mut out, machine);
                crate::text::push_str(&mut out, ".");
            },
            ArchError::NameMismatch { host, file_name } => {
                crate::text::push_str(&mut out, "Architecture mismatch: host is ");
                crate::text::push_str(&mut out, host.as_str());
                crate::text::push_str(
                    &mut out,
                    ", but the downloaded file name targets another architecture (",
                );
                crate::text::push_str(&mut out, file_name.as_str());
                crate::text::push_str(&mut out, ").");
            },
        }
        assert(out@ =~= self.message_spec());
        string_of(&out)
    }
}

// ── Icon format sniffing ────────────────────────────────────────────────────

/// `String::from_utf8_lossy`: the characters of a byte string, each invalid
/// UTF-8 sequence replaced by U+FFFD. Named by its bytes alone.
pub uninterp spec fn utf8_lossy(b: Seq<u8>) -> Seq<char>;

/// `String::from_utf8_lossy` (std), owned.
#[verifier::external_body]
pub(crate) fn decode_lossy(b: &[u8]) -> (r: String)
    ensures
        r@ == utf8_lossy(b@),
{
    String::from_utf8_lossy(b).into_owned()
}

/// The extension that a lower-cased text sniff points to.
pub open spec fn sniff_ext(lower: Seq<char>, fallback: Seq<char>) -> Seq<char> {
    if has_sub(lower, "<svg"@) || has_sub(lower, "<?xml"@) {
        "svg"@
    } else if has_sub(lower, "xpm"@) {
        "xpm"@
    } else {
        fallback
    }
}

pub open spec fn is_png(d: Seq<u8>) -> bool {
    d.len() >= 8 && d[0] == 0x89 && d[1] == 0x50 && d[2] == 0x4e && d[3] == 0x47 && d[4] == 0x0d
        && d[5] == 0x0a && d[6] == 0x1a && d[7] == 0x0a
}

pub open spec fn is_jpeg(d: Seq<u8>) -> bool {
    d.len() >= 3 && d[0] == 0xff && d[1] == 0xd8 && d[2] == 0xff
}

pub open spec fn is_webp(d: Seq<u8>) -> bool {
    d.len() >= 12 && d[0] == 0x52 && d[1] == 0x49 && d[2] == 0x46 && d[3] == 0x46 && d[8] == 0x57
        && d[9] == 0x45 && d[10] == 0x42 && d[11] == 0x50
}

/// The file extension for icon bytes: by signature, else by a look at the
/// first 512 bytes as text, else `fallback`.
pub open spec fn icon_ext_spec(d: Seq<u8>, fallback: Seq<char>) -> Seq<char> {
    if is_png(d) {
        "png"@
    } else if is_jpeg(d) {
        "jpg"@
    } else if is_webp(d) {
        "webp"@
    } else {
        sniff_ext(
            str_lowercase(utf8_lossy(d.subrange(0, if d.len() < 512 { d.len() as int } else { 512 }))),
            fallback,
        )
    }
}

/// The extension that a lower-cased text sniff points to.
pub fn sniffed_extension(lower: &str, fallback: &str) -> (r: String)
    ensures
        r@ == sniff_ext(lower@, fallback@),
{
    if str_contains(lower, "<svg") || str_contains(lower, "<?xml") {
        string_of_str("svg")
    } else if str_contains(lower, "xpm") {
        string_of_str("xpm")
    } else {
        string_of_str(fallback)
    }
}

/// The file extension for icon bytes.
pub fn icon_extension_from_data(data: &[u8], fallback: &str) -> (r: String)
    ensures
        r@ == icon_ext_spec(data@, fallback@),
{
    let n = data.len();
    if n >= 8 && data[0] == 0x89 && data[1] == 0x50 && data[2] == 0x4e && data[3] == 0x47
        && data[4] == 0x0d && data[5] == 0x0a && data[6] == 0x1a && data[7] == 0x0a {
        return string_of_str("png");
    }
    if n >= 3 && data[0] == 0xff && data[1] == 0xd8 && data[2] == 0xff {
        return string_of_str("jpg");
    }
    if n >= 12 && data[0] == 0x52 && data[1] == 0x49 && data[2] == 0x46 && data[3] == 0x46
        && data[8] == 0x57 && data[9] == 0x45 && data[10] == 0x42 && data[11] == 0x50 {
        return string_of_str("webp");
    }
    let sniff_len: usize = if n < 512 {
        n
    } else {
        512
    };
    let mut head: Vec<u8> = Vec::new();
    let mut i: usize = 0;
    while i < sniff_len
        invariant
            i <= sniff_len <= data@.len(),
            head@ == data@.subrange(0, i as int),
        decreases sniff_len - i,
    {
        head.push(data[i]);
        i = i + 1;
        assert(head@ =~= data@.subrange(0, i as int));
    }
    let text = decode_lossy(head.as_slice());
    let lower = lowercase(text.as_str());
    sniffed_extension(lower.as_str(), fallback)
}


// ── Desktop entries ─────────────────────────────────────────────────────────

pub open spec fn pair_views(p: Seq<(String, String)>) -> Seq<(Seq<char>, Seq<char>)> {
    p.map_values(|e: (String, String)| (e.0@, e.1@))
}

/// The `key=value` pairs of the `[Desktop Entry]` group, read from the lines
/// `ls`, each trimmed; `in_entry` tells whether the group has begun.
pub open spec fn desktop_pairs_from(ls: Seq<Seq<char>>, in_entry: bool) -> Seq<
    (Seq<char>, Seq<char>),
>
    decreases ls.len(),
{
    if ls.len() == 0 {
        Seq::empty()
    } else {
        let line = crate::text::trim(ls[0]);
        let rest = ls.drop_first();
        if line == "[Desktop Entry]"@ {
            desktop_pairs_from(rest, true)
        } else if has_prefix(line, "["@) && in_entry {
            Seq::empty()
        } else if in_entry && has_sub(line, "="@) && !has_prefix(line, "#"@) {
            match crate::text::split_once(line, '=') {
                Some((k, v)) => seq![(crate::text::trim(k), crate::text::trim(v))]
                    + desktop_pairs_from(rest, true),
                None => desktop_pairs_from(rest, true),
            }
        } else {
            desktop_pairs_from(rest, in_entry)
        }
    }
}

/// The pairs of a desktop file's text (its lines are the pieces between
/// newlines; surrounding whitespace, a carriage return included, is trimmed).
pub open spec fn desktop_pairs(text: Seq<char>) -> Seq<(Seq<char>, Seq<char>)> {
    desktop_pairs_from(crate::text::str_lines(text), false)
}

/// The value of the last pair with `key`: a later line overrides an earlier.
pub open spec fn desktop_get(pairs: Seq<(Seq<char>, Seq<char>)>, key: Seq<char>) -> Option<
    Seq<char>,
>
    decreases pairs.len(),
{
    if pairs.len() == 0 {
        None
    } else if pairs.last().0 == key {
        Some(pairs.last().1)
    } else {
        desktop_get(pairs.drop_last(), key)
    }
}

/// Read the `[Desktop Entry]` group of a desktop file into its pairs, in
/// file order.
pub fn parse_desktop_file(text: &str) -> (r: Vec<(String, String)>)
    ensures
        pair_views(r@) == desktop_pairs(text@),
{
    let lines = crate::text::lines(&chars_of(text));
    let ghost ls = views(lines@);
    let mut out: Vec<(String, String)> = Vec::new();
    let mut in_entry = false;
    let mut i: usize = 0;
    let header = chars_of("[Desktop Entry]");
    let open = chars_of("[");
    let eqs = chars_of("=");
    let hash = chars_of("#");
    assert(ls.skip(0) =~= ls);
    while i < lines.len()
        invariant
            i <= lines@.len(),
            ls == views(lines@),
            ls == crate::text::str_lines(text@),
            header@ == "[Desktop Entry]"@,
            open@ == "["@,
            eqs@ == "="@,
            hash@ == "#"@,
            pair_views(out@) + desktop_pairs_from(ls.skip(i as int), in_entry) == desktop_pairs(
                text@,
            ),
        decreases lines@.len() - i,
    {
        let ghost t = ls.skip(i as int);
        assert(t[0] == lines@[i as int]@);
        assert(t.drop_first() =~= ls.skip(i + 1));
        let line = crate::text::trim_vec(&lines[i]);
        if eq(&line, &header) {
            in_entry = true;
        } else if starts_with(&line, &open) && in_entry {
            assert(pair_views(out@) + Seq::<(Seq<char>, Seq<char>)>::empty() =~= pair_views(out@));
            return out;
        } else if in_entry && crate::text::contains(&line, &eqs) && !starts_with(&line, &hash) {
            match crate::text::split_once_vec(&line, '=') {
                Some((k, v)) => {
                    let kt = crate::text::trim_vec(&k);
                    let vt = crate::text::trim_vec(&v);
                    let ghost o = pair_views(out@);
                    out.push((string_of(&kt), string_of(&vt)));
                    assert(pair_views(out@) =~= o.push((kt@, vt@)));
                    assert(pair_views(out@) + desktop_pairs_from(ls.skip(i + 1), true) =~= o + (
                    seq![(kt@, vt@)] + desktop_pairs_from(ls.skip(i + 1), true)));
                },
                None => {},
            }
        }
        i = i + 1;
    }
    assert(ls.skip(lines@.len() as int) =~= Seq::<Seq<char>>::empty());
    assert(pair_views(out@) + Seq::<(Seq<char>, Seq<char>)>::empty() =~= pair_views(out@));
    out
}

/// The value recorded for `key` (the last one wins).
pub fn desktop_value(pairs: &Vec<(String, String)>, key: &str) -> (r: Option<String>)
    ensures
        match r {
            Some(v) => desktop_get(pair_views(pairs@), key@) == Some(v@),
            None => desktop_get(pair_views(pairs@), key@).is_none(),
        },
{
    let ghost all = pair_views(pairs@);
    let mut k: usize = pairs.len();
    assert(all.subrange(0, k as int) =~= all);
    while k > 0
        invariant
            k <= pairs@.len(),
            all == pair_views(pairs@),
            desktop_get(all.subrange(0, k as int), key@) == desktop_get(all, key@),
        decreases k,
    {
        let ghost pre = all.subrange(0, k as int);
        assert(pre.drop_last() =~= all.subrange(0, k - 1));
        assert(pre.last() == (pairs@[k - 1].0@, pairs@[k - 1].1@));
        if str_eq(pairs[k - 1].0.as_str(), key) {
            return Some(pairs[k - 1].1.clone());
        }
        k = k - 1;
    }
    None
}

/// The non-empty trimmed pieces of a `;`-separated list.
pub open spec fn category_list(pieces: Seq<Seq<char>>) -> Seq<Seq<char>>
    decreases pieces.len(),
{
    if pieces.len() == 0 {
        Seq::empty()
    } else {
        let init = category_list(pieces.drop_last());
        let t = crate::text::trim(pieces.last());
        if t.len() > 0 {
            init.push(t)
        } else {
            init
        }
    }
}

pub open spec fn string_views(v: Seq<String>) -> Seq<Seq<char>> {
    v.map_values(|x: String| x@)
}

/// Split a `Categories=` value into its entries.
pub fn split_categories(s: &str) -> (r: Vec<String>)
    ensures
        string_views(r@) == category_list(split_char(s@, ';')),
{
    let pieces = split(&chars_of(s), ';');
    let ghost ps = views(pieces@);
    let mut out: Vec<String> = Vec::new();
    let mut i: usize = 0;
    while i < pieces.len()
        invariant
            i <= pieces@.len(),
            ps == views(pieces@),
            ps == split_char(s@, ';'),
            string_views(out@) == category_list(ps.subrange(0, i as int)),
        decreases pieces@.len() - i,
    {
        let ghost pre = ps.subrange(0, i + 1);
        assert(pre.drop_last() =~= ps.subrange(0, i as int));
        assert(pre.last() == pieces@[i as int]@);
        let t = crate::text::trim_vec(&pieces[i]);
        if t.len() > 0 {
            let ghost o = string_views(out@);
            out.push(string_of(&t));
            assert(string_views(out@) =~= o.push(t@));
        }
        i = i + 1;
    }
    assert(ps.subrange(0, pieces@.len() as int) =~= ps);
    out
}

pub open spec fn value_or_empty(v: Option<Seq<char>>) -> Seq<char> {
    match v {
        Some(x) => x,
        None => Seq::empty(),
    }
}

/// What a desktop entry and the AppImage's file name tell of it: the name
/// (else the file stem, else the file name), comment, version, categories
/// and update information.
pub open spec fn info_fields_ok(
    info: AppImageInfo,
    pairs: Seq<(Seq<char>, Seq<char>)>,
    filename: Seq<char>,
) -> bool {
    let stem = match crate::text::path_file_stem(filename) {
        Some(s) => s,
        None => filename,
    };
    &&& info.name@ == (match desktop_get(pairs, "Name"@) {
        Some(n) => n,
        None => stem,
    })
    &&& info.summary@ == value_or_empty(desktop_get(pairs, "Comment"@))
    &&& info.description@ == info.summary@
    &&& info.version@ == value_or_empty(desktop_get(pairs, "X-AppImage-Version"@))
    &&& string_views(info.categories@) == category_list(
        split_char(value_or_empty(desktop_get(pairs, "Categories"@)), ';'),
    )
    &&& (info.update_source@, info.update_url@, info.update_pattern@) == (match desktop_get(
        pairs,
        "X-AppImage-UpdateInformation"@,
    ) {
        Some(u) => update_info_spec(u, str_lowercase(u)),
        None => (Seq::empty(), Seq::empty(), Seq::empty()),
    })
}

/// The metadata of an extracted AppImage, from its desktop entry, its file
/// name and the icon found for it.
pub fn info_from_desktop(
    pairs: &Vec<(String, String)>,
    filename: &str,
    icon_data: Option<Vec<u8>>,
    icon_ext: String,
) -> (info: AppImageInfo)
    ensures
        info_fields_ok(info, pair_views(pairs@), filename@),
        info.icon_data == icon_data,
        info.icon_ext == icon_ext,
{
    let stem = match crate::text::file_stem_of(&chars_of(filename)) {
        Some(s) => string_of(&s),
        None => string_of_str(filename),
    };
    let name = match desktop_value(pairs, "Name") {
        Some(n) => n,
        None => stem,
    };
    let summary = match desktop_value(pairs, "Comment") {
        Some(c) => c,
        None => String::new(),
    };
    let version = match desktop_value(pairs, "X-AppImage-Version") {
        Some(v) => v,
        None => String::new(),
    };
    let cats = match desktop_value(pairs, "Categories") {
        Some(c) => c,
        None => String::new(),
    };
    let categories = split_categories(cats.as_str());
    let (update_source, update_url, update_pattern) = match desktop_value(
        pairs,
        "X-AppImage-UpdateInformation",
    ) {
        Some(u) => parse_update_info(u.as_str()),
        None => (String::new(), String::new(), String::new()),
    };
    let description = summary.clone();
    AppImageInfo {
        name,
        version,
        summary,
        description,
        icon_data,
        icon_ext,
        categories,
        update_source,
        update_url,
        update_pattern,
    }
}


/// `parts` joined with `sep` between neighbours.
pub open spec fn join_with(parts: Seq<Seq<char>>, sep: Seq<char>) -> Seq<char>
    decreases parts.len(),
{
    if parts.len() == 0 {
        Seq::empty()
    } else if parts.len() == 1 {
        parts[0]
    } else {
        join_with(parts.drop_last(), sep) + sep + parts.last()
    }
}

pub fn join_strings(parts: &Vec<String>, sep: &str) -> (r: Vec<char>)
    ensures
        r@ == join_with(string_views(parts@), sep@),
{
    let ghost ps = string_views(parts@);
    let mut out: Vec<char> = Vec::new();
    let mut i: usize = 0;
    while i < parts.len()
        invariant
            i <= parts@.len(),
            ps == string_views(parts@),
            out@ == join_with(ps.subrange(0, i as int), sep@),
        decreases parts@.len() - i,
    {
        let ghost pre = ps.subrange(0, i + 1);
        assert(pre.drop_last() =~= ps.subrange(0, i as int));
        assert(pre.last() == parts@[i as int]@);
        if i > 0 {
            crate::text::push_str(&mut out, sep);
        }
        crate::text::push_str(&mut out, parts[i].as_str());
        i = i + 1;
    }
    assert(ps.subrange(0, parts@.len() as int) =~= ps);
    out
}

/// The desktop entry written for an installed AppImage.
pub open spec fn desktop_entry_spec(
    app_id: Seq<char>,
    name: Seq<char>,
    exec_path: Seq<char>,
    icon_path: Seq<char>,
    summary: Seq<char>,
    categories: Seq<Seq<char>>,
) -> Seq<char> {
    let cats = if categories.len() == 0 {
        "Utility;"@
    } else {
        join_with(categories, ";"@) + ";"@
    };
    let icon = if icon_path.len() == 0 {
        "application-x-executable"@
    } else {
        icon_path
    };
    "[Desktop Entry]\nName="@ + name + "\nComment="@ + summary + "\nExec=\""@ + exec_path
        + "\" %U\nIcon="@ + icon + "\nTerminal=false\nType=Application\nCategories="@ + cats
        + "\nStartupNotify=true\nX-SoftwareCenter-AppImage=true\nX-SoftwareCenter-AppImage-ID="@
        + app_id + "\n"@
}

/// The text of the desktop entry for an installed AppImage.
pub fn desktop_entry_text(
    app_id: &str,
    name: &str,
    exec_path: &str,
    icon_path: &str,
    info: &AppImageInfo,
) -> (r: String)
    ensures
        r@ == desktop_entry_spec(
            app_id@,
            name@,
            exec_path@,
            icon_path@,
            info.summary@,
            string_views(info.categories@),
        ),
{
    let mut out: Vec<char> = Vec::new();
    crate::text::push_str(&mut out, "[Desktop Entry]\nName=");
    crate::text::push_str(&mut out, name);
    crate::text::push_str(&mut out, "\nComment=");
    crate::text::push_str(&mut out, info.summary.as_str());
    crate::text::push_str(&mut out, "\nExec=\"");
    crate::text::push_str(&mut out, exec_path);
    crate::text::push_str(&mut out, "\" %U\nIcon=");
    if icon_path.is_empty() {
        crate::text::push_str(&mut out, "application-x-executable");
    } else {
        crate::text::push_str(&mut out, icon_path);
    }
    crate::text::push_str(&mut out, "\nTerminal=false\nType=Application\nCategories=");
    if info.categories.len() == 0 {
        crate::text::push_str(&mut out, "Utility;");
    } else {
        let j = join_strings(&info.categories, ";");
        let mut k: usize = 0;
        let ghost o = out@;
        while k < j.len()
            invariant
                k <= j@.len(),
                out@ == o + j@.subrange(0, k as int),
            decreases j@.len() - k,
        {
            out.push(j[k]);
            k = k + 1;
            assert(out@ =~= o + j@.subrange(0, k as int));
        }
        assert(j@.subrange(0, j@.len() as int) =~= j@);
        crate::text::push_str(&mut out, ";");
    }
    crate::text::push_str(
        &mut out,
        "\nStartupNotify=true\nX-SoftwareCenter-AppImage=true\nX-SoftwareCenter-AppImage-ID=",
    );
    crate::text::push_str(&mut out, app_id);
    crate::text::push_str(&mut out, "\n");
    let ghost cats = if info.categories@.len() == 0 {
        "Utility;"@
    } else {
        join_with(string_views(info.categories@), ";"@) + ";"@
    };
    assert(out@ =~= desktop_entry_spec(
        app_id@,
        name@,
        exec_path@,
        icon_path@,
        info.summary@,
        string_views(info.categories@),
    ));
    string_of(&out)
}

/// The file name of the desktop entry of an installed AppImage.
pub fn desktop_file_name(app_id: &str) -> (r: String)
    ensures
        r@ == "sc-appimage-"@ + app_id@ + ".desktop"@,
{
    let mut out: Vec<char> = Vec::new();
    crate::text::push_str(&mut out, "sc-appimage-");
    crate::text::push_str(&mut out, app_id);
    crate::text::push_str(&mut out, ".desktop");
    string_of(&out)
}


// ── Release selection ───────────────────────────────────────────────────────

/// An available update.
#[derive(Debug, Clone)]
pub struct UpdateResult {
    pub id: String,
    pub name: String,
    pub current_version: String,
    pub new_version: String,
    pub download_url: String,
    pub icon_path: String,
    /// The update was found through the known-sources table.
    pub default_source: bool,
}

/// A release asset as the GitHub / Gitea API describes it.
#[derive(Debug, Clone, Default)]
pub struct ReleaseAsset {
    pub name: Option<String>,
    pub browser_download_url: Option<String>,
}

/// A release as the GitHub / Gitea API describes it.
#[derive(Debug, Clone, Default)]
pub struct Release {
    pub tag_name: Option<String>,
    pub published_at: Option<String>,
    pub draft: bool,
    pub assets: Option<Vec<ReleaseAsset>>,
}

pub open spec fn opt_view(o: Option<String>) -> Seq<char> {
    match o {
        Some(s) => s@,
        None => Seq::empty(),
    }
}

/// Bytes of the UTF-8 encoding of `c`.
pub open spec fn utf8_len(c: char) -> int {
    if (c as u32) < 0x80 {
        1
    } else if (c as u32) < 0x800 {
        2
    } else if (c as u32) < 0x10000 {
        3
    } else {
        4
    }
}

/// The leading characters of `s` that take exactly `n` bytes in UTF-8
/// (`str::get(0..n)`), if such a prefix exists.
pub open spec fn byte_prefix(s: Seq<char>, n: int) -> Option<Seq<char>>
    decreases s.len(),
{
    if n == 0 {
        Some(Seq::empty())
    } else if s.len() == 0 || n < 0 {
        None
    } else {
        match byte_prefix(s.drop_first(), n - utf8_len(s[0])) {
            Some(t) => Some(seq![s[0]] + t),
            None => None,
        }
    }
}

/// `s.get(0..10)`, or the empty string when byte 10 is not a character
/// boundary of `s`.
pub fn date_part(s: &str) -> (r: String)
    ensures
        r@ == value_or_empty(byte_prefix(s@, 10)),
{
    let v = chars_of(s);
    let mut i: usize = 0;
    let mut acc: u32 = 0;
    assert(v@.subrange(0, 0) =~= Seq::<char>::empty());
    assert(v@.skip(0) =~= v@);
    while acc < 10 && i < v.len()
        invariant
            i <= v@.len(),
            v@ == s@,
            acc <= 13,
            byte_prefix(s@, 10) == (match byte_prefix(v@.skip(i as int), 10 - acc) {
                Some(t) => Some(v@.subrange(0, i as int) + t),
                None => None,
            }),
        decreases v@.len() - i,
    {
        let c = v[i];
        let l: u32 = if (c as u32) < 0x80 {
            1
        } else if (c as u32) < 0x800 {
            2
        } else if (c as u32) < 0x10000 {
            3
        } else {
            4
        };
        assert(v@.skip(i as int).drop_first() =~= v@.skip(i + 1));
        assert(v@.skip(i as int)[0] == c);
        let ghost rest = byte_prefix(v@.skip(i + 1), 10 - acc - l);
        assert(forall|t: Seq<char>|
            v@.subrange(0, i as int) + (seq![c] + t) =~= v@.subrange(0, i + 1) + t);
        acc = acc + l;
        i = i + 1;
    }
    if acc == 10 {
        assert(v@.subrange(0, i as int) + Seq::<char>::empty() =~= v@.subrange(0, i as int));
        string_of(&crate::text::subvec(&v, 0, i))
    } else {
        String::new()
    }
}

pub open spec fn release_version_spec(rel: Release, by_date: bool) -> Seq<char> {
    if by_date {
        value_or_empty(byte_prefix(opt_view(rel.published_at), 10))
    } else {
        trim_start_char(opt_view(rel.tag_name), 'v')
    }
}

/// The version shown for a release: its date (`YYYY-MM-DD`) when releases
/// are compared by date, else its tag without a leading `v`.
pub fn release_version(rel: &Release, compare_by_date: bool) -> (r: String)
    ensures
        r@ == release_version_spec(*rel, compare_by_date),
{
    if compare_by_date {
        match &rel.published_at {
            Some(p) => date_part(p.as_str()),
            None => String::new(),
        }
    } else {
        let tag = match &rel.tag_name {
            Some(t) => chars_of(t.as_str()),
            None => Vec::new(),
        };
        string_of(&trim_start_char_vec(&tag, 'v'))
    }
}

pub open spec fn release_is_newer_spec(
    app: AppImage,
    rel: Release,
    by_date: bool,
    new_version: Seq<char>,
) -> bool {
    if by_date {
        crate::date::release_newer_spec(opt_view(rel.published_at), app.installed_at@)
    } else {
        version_newer_spec(
            new_version,
            app.version@,
            digit_runs(new_version),
            digit_runs(app.version@),
        )
    }
}

/// Whether a release is newer than the installed AppImage.
pub fn release_is_newer(app: &AppImage, rel: &Release, compare_by_date: bool, new_version: &str) -> (r:
    bool)
    requires
        compare_by_date && app.installed_at@.len() > 0 ==> crate::date::rfc_fits(
            opt_view(rel.published_at),
        ) && crate::date::rfc_fits(app.installed_at@),
    ensures
        r == release_is_newer_spec(*app, *rel, compare_by_date, new_version@),
{
    if compare_by_date {
        let p = match &rel.published_at {
            Some(p) => p.clone(),
            None => String::new(),
        };
        crate::date::release_newer_than(p.as_str(), app.installed_at.as_str())
    } else {
        version_newer(new_version, app.version.as_str())
    }
}

pub open spec fn asset_fits(a: ReleaseAsset, host: Seq<char>) -> bool {
    arch_ok(str_lowercase(opt_view(a.name)), host)
}

/// The first asset from `i` on that matched the pattern (and, with `arch`,
/// suits the host).
pub open spec fn first_asset(
    assets: Seq<ReleaseAsset>,
    matched: Seq<bool>,
    host: Seq<char>,
    i: int,
    arch: bool,
) -> Option<int>
    decreases assets.len() - i,
{
    if i < 0 || i >= assets.len() {
        None
    } else if i < matched.len() && matched[i] && (!arch || asset_fits(assets[i], host)) {
        Some(i)
    } else {
        first_asset(assets, matched, host, i + 1, arch)
    }
}

/// The asset to download: the first one that matched the pattern and suits
/// the host, else the first one that matched.
pub open spec fn pick_asset_spec(assets: Seq<ReleaseAsset>, matched: Seq<bool>, host: Seq<char>) -> Option<
    int,
> {
    match first_asset(assets, matched, host, 0, true) {
        Some(i) => Some(i),
        None => first_asset(assets, matched, host, 0, false),
    }
}

proof fn lemma_first_asset_range(
    assets: Seq<ReleaseAsset>,
    matched: Seq<bool>,
    host: Seq<char>,
    i: int,
    arch: bool,
)
    ensures
        first_asset(assets, matched, host, i, arch) matches Some(k) ==> i <= k < assets.len() && k
            < matched.len() && matched[k],
    decreases assets.len() - i,
{
    if 0 <= i < assets.len() {
        lemma_first_asset_range(assets, matched, host, i + 1, arch);
    }
}

fn first_asset_exec(
    assets: &Vec<ReleaseAsset>,
    matched: &Vec<bool>,
    host: &str,
    arch: bool,
) -> (r: Option<usize>)
    ensures
        match r {
            Some(k) => first_asset(assets@, matched@, host@, 0, arch) == Some(k as int),
            None => first_asset(assets@, matched@, host@, 0, arch).is_none(),
        },
{
    let mut i: usize = 0;
    while i < assets.len()
        invariant
            i <= assets@.len(),
            first_asset(assets@, matched@, host@, 0, arch) == first_asset(
                assets@,
                matched@,
                host@,
                i as int,
                arch,
            ),
        decreases assets@.len() - i,
    {
        if i < matched.len() && matched[i] {
            let fits = if arch {
                let n = match &assets[i].name {
                    Some(n) => n.clone(),
                    None => String::new(),
                };
                name_matches_arch(n.as_str(), host)
            } else {
                true
            };
            if fits {
                return Some(i);
            }
        }
        i = i + 1;
    }
    None
}

/// Pick the asset for this machine among those whose name matched the
/// release pattern (`matched[i]` for asset `i`).
pub fn pick_asset_index(assets: &Vec<ReleaseAsset>, matched: &Vec<bool>, host: &str) -> (r: Option<
    usize,
>)
    ensures
        match r {
            Some(k) => pick_asset_spec(assets@, matched@, host@) == Some(k as int),
            None => pick_asset_spec(assets@, matched@, host@).is_none(),
        },
{
    match first_asset_exec(assets, matched, host, true) {
        Some(k) => Some(k),
        None => first_asset_exec(assets, matched, host, false),
    }
}

pub open spec fn make_result_spec(
    r: UpdateResult,
    app: AppImage,
    new_version: Seq<char>,
    download_url: Seq<char>,
) -> bool {
    &&& r.id@ == app.id@
    &&& r.name@ == app.name@
    &&& r.current_version@ == app.version@
    &&& r.new_version@ == new_version
    &&& r.download_url@ == download_url
    &&& r.icon_path@ == app.icon_path@
    &&& !r.default_source
}

/// The update record for `app` and the chosen asset.
pub fn make_result(app: &AppImage, new_version: String, asset: &ReleaseAsset) -> (r: UpdateResult)
    ensures
        make_result_spec(r, *app, new_version@, opt_view(asset.browser_download_url)),
{
    UpdateResult {
        id: app.id.clone(),
        name: app.name.clone(),
        current_version: app.version.clone(),
        new_version,
        download_url: match &asset.browser_download_url {
            Some(u) => u.clone(),
            None => String::new(),
        },
        icon_path: app.icon_path.clone(),
        default_source: false,
    }
}

/// Every release date involved can be read as RFC 3339 within range, so the
/// date comparison is defined.
pub open spec fn dates_fit(app: AppImage, releases: Seq<Release>, by_date: bool) -> bool {
    by_date && app.installed_at@.len() > 0 ==> crate::date::rfc_fits(app.installed_at@) && forall|
        i: int,
    |
        0 <= i < releases.len() ==> crate::date::rfc_fits(opt_view(#[trigger] releases[i].published_at))
}

/// Whether release `i` offers an update: it is not a skipped draft, it is
/// newer, and it has an asset to pick.
pub open spec fn release_offers(
    app: AppImage,
    rel: Release,
    matched: Seq<bool>,
    by_date: bool,
    host: Seq<char>,
    skip_drafts: bool,
) -> bool {
    &&& !(skip_drafts && rel.draft)
    &&& release_is_newer_spec(app, rel, by_date, release_version_spec(rel, by_date))
    &&& rel.assets is Some
    &&& pick_asset_spec(rel.assets->0@, matched, host) is Some
}

/// The update found by walking `releases` in order (newest first): the
/// first release that offers one, with its picked asset.
pub open spec fn select_release_ok(
    r: Option<UpdateResult>,
    app: AppImage,
    releases: Seq<Release>,
    matched: Seq<Seq<bool>>,
    by_date: bool,
    host: Seq<char>,
    skip_drafts: bool,
) -> bool {
    match r {
        Some(u) => exists|i: int|
            #![trigger releases[i]]
            0 <= i < releases.len() && i < matched.len() && release_offers(
                app,
                releases[i],
                matched[i],
                by_date,
                host,
                skip_drafts,
            ) && (forall|j: int|
                0 <= j < i ==> !release_offers(
                    app,
                    #[trigger] releases[j],
                    matched[j],
                    by_date,
                    host,
                    skip_drafts,
                )) && make_result_spec(
                u,
                app,
                release_version_spec(releases[i], by_date),
                opt_view(
                    releases[i].assets->0@[pick_asset_spec(
                        releases[i].assets->0@,
                        matched[i],
                        host,
                    )->0].browser_download_url,
                ),
            ),
        None => forall|j: int|
            0 <= j < releases.len() && j < matched.len() ==> !release_offers(
                app,
                #[trigger] releases[j],
                matched[j],
                by_date,
                host,
                skip_drafts,
            ),
    }
}

/// Releases come newest first, so the update chosen is the newest release
/// that offers one: when release `k` offers an update and none before it
/// does, the result is release `k`'s version with the URL of its picked
/// asset; and there is no update exactly when no release offers one.
pub proof fn law_select_release_newest(
    r: Option<UpdateResult>,
    app: AppImage,
    releases: Seq<Release>,
    matched: Seq<Seq<bool>>,
    by_date: bool,
    host: Seq<char>,
    skip_drafts: bool,
    k: int,
)
    requires
        select_release_ok(r, app, releases, matched, by_date, host, skip_drafts),
        0 <= k < releases.len(),
        k < matched.len(),
        release_offers(app, releases[k], matched[k], by_date, host, skip_drafts),
        forall|j: int| 0 <= j < k ==> !release_offers(app, #[trigger] releases[j], matched[j], by_date, host, skip_drafts),
    ensures
        r matches Some(u) && u.new_version@ == release_version_spec(releases[k], by_date)
            && u.download_url@ == opt_view(
            releases[k].assets->0@[pick_asset_spec(releases[k].assets->0@, matched[k], host)->0].browser_download_url,
        ) && u.id@ == app.id@ && u.current_version@ == app.version@,
{
    match r {
        Some(u) => {
            let i = choose|i: int|
                #![trigger releases[i]]
                0 <= i < releases.len() && i < matched.len() && release_offers(
                    app,
                    releases[i],
                    matched[i],
                    by_date,
                    host,
                    skip_drafts,
                ) && (forall|j: int|
                    0 <= j < i ==> !release_offers(
                        app,
                        #[trigger] releases[j],
                        matched[j],
                        by_date,
                        host,
                        skip_drafts,
                    )) && make_result_spec(
                    u,
                    app,
                    release_version_spec(releases[i], by_date),
                    opt_view(
                        releases[i].assets->0@[pick_asset_spec(
                            releases[i].assets->0@,
                            matched[i],
                            host,
                        )->0].browser_download_url,
                    ),
                );
            if i < k {
                assert(!release_offers(app, releases[i], matched[i], by_date, host, skip_drafts));
            }
            if k < i {
                assert(!release_offers(app, releases[k], matched[k], by_date, host, skip_drafts));
            }
        },
        None => {
            assert(!release_offers(app, releases[k], matched[k], by_date, host, skip_drafts));
        },
    }
}

/// No update is found exactly when no release offers one.
pub proof fn law_select_release_none(
    r: Option<UpdateResult>,
    app: AppImage,
    releases: Seq<Release>,
    matched: Seq<Seq<bool>>,
    by_date: bool,
    host: Seq<char>,
    skip_drafts: bool,
)
    requires
        select_release_ok(r, app, releases, matched, by_date, host, skip_drafts),
        matched.len() == releases.len(),
    ensures
        r is None <==> forall|j: int| 0 <= j < releases.len() ==> !release_offers(
            app,
            #[trigger] releases[j],
            matched[j],
            by_date,
            host,
            skip_drafts,
        ),
{
}

/// Walk the releases (newest first) for the first one that is newer than
/// the installed AppImage and has an asset for this machine; `matched[i][k]`
/// tells whether asset `k` of release `i` matched the release pattern.
pub fn select_release(
    app: &AppImage,
    releases: &Vec<Release>,
    matched: &Vec<Vec<bool>>,
    compare_by_date: bool,
    host: &str,
    skip_drafts: bool,
) -> (r: Option<UpdateResult>)
    requires
        dates_fit(*app, releases@, compare_by_date),
        matched@.len() == releases@.len(),
    ensures
        select_release_ok(
            r,
            *app,
            releases@,
            matched@.map_values(|m: Vec<bool>| m@),
            compare_by_date,
            host@,
            skip_drafts,
        ),
{
    let ghost ms = matched@.map_values(|m: Vec<bool>| m@);
    let mut i: usize = 0;
    while i < releases.len()
        invariant
            i <= releases@.len(),
            matched@.len() == releases@.len(),
            ms == matched@.map_values(|m: Vec<bool>| m@),
            dates_fit(*app, releases@, compare_by_date),
            forall|j: int|
                0 <= j < i ==> !release_offers(
                    *app,
                    #[trigger] releases@[j],
                    ms[j],
                    compare_by_date,
                    host@,
                    skip_drafts,
                ),
        decreases releases@.len() - i,
    {
        let rel = &releases[i];
        if !(skip_drafts && rel.draft) {
            let new_version = release_version(rel, compare_by_date);
            proof {
                if compare_by_date && app.installed_at@.len() > 0 {
                    assert(crate::date::rfc_fits(opt_view(releases@[i as int].published_at)));
                }
            }
            if release_is_newer(app, rel, compare_by_date, new_version.as_str()) {
                match &rel.assets {
                    Some(assets) => {
                        match pick_asset_index(assets, &matched[i], host) {
                            Some(k) => {
                                proof {
                                    lemma_first_asset_range(assets@, ms[i as int], host@, 0, true);
                                    lemma_first_asset_range(assets@, ms[i as int], host@, 0, false);
                                }
                                let res = make_result(app, new_version, &assets[k]);
                                assert(release_offers(
                                    *app,
                                    releases@[i as int],
                                    ms[i as int],
                                    compare_by_date,
                                    host@,
                                    skip_drafts,
                                ));
                                return Some(res);
                            },
                            None => {},
                        }
                    },
                    None => {},
                }
            }
        }
        i = i + 1;
    }
    None
}


// ── Release patterns (regex crate) ──────────────────────────────────────────

#[verifier::external_type_specification]
#[verifier::external_body]
pub struct ExRegex(regex::Regex);

pub open spec fn is_meta(c: char) -> bool {
    c == '\\' || c == '.' || c == '+' || c == '*' || c == '?' || c == '(' || c == ')' || c == '|'
        || c == '[' || c == ']' || c == '{' || c == '}' || c == '^' || c == '$' || c == '#' || c
        == '&' || c == '-' || c == '~'
}

/// `regex::escape`: a backslash before every meta character.
pub open spec fn escape_spec(s: Seq<char>) -> Seq<char>
    decreases s.len(),
{
    if s.len() == 0 {
        Seq::empty()
    } else {
        let init = escape_spec(s.drop_last());
        if is_meta(s.last()) {
            init + seq!['\\', s.last()]
        } else {
            init.push(s.last())
        }
    }
}

/// `regex::escape` (regex crate): each meta character
/// `\ . + * ? ( ) | [ ] { } ^ $ # & - ~` gets a backslash in front.
#[verifier::external_body]
fn regex_escape(s: &str) -> (r: String)
    ensures
        r@ == escape_spec(s@),
{
    regex::escape(s)
}

/// Whether the `regex` crate accepts a pattern (its syntax, and the default
/// size limits of `Regex::new`): decided by the pattern alone.
pub uninterp spec fn regex_compiles(src: Seq<char>) -> bool;

/// `Regex::new` (regex crate); `None` when the pattern is refused, which is
/// named by `regex_compiles`. Nothing is stated of the compiled value, which
/// only the crate can read.
#[verifier::external_body]
fn regex_compile(src: &str) -> (r: Option<regex::Regex>)
    ensures
        r is Some == regex_compiles(src@),
{
    regex::Regex::new(src).ok()
}

/// Whether a regular expression, given by its text, matches somewhere in a
/// text, as the `regex` crate decides it (`Regex::is_match`): a function of
/// the two texts alone.
pub uninterp spec fn regex_matches(src: Seq<char>, hay: Seq<char>) -> bool;

/// A compiled release pattern beside the text it was compiled from. Only
/// `glob_to_regex` makes one, from `Regex::new` on that very text.
#[derive(Debug)]
pub struct ReleasePattern {
    text: String,
    regex: regex::Regex,
}

impl ReleasePattern {
    /// The text the pattern was compiled from.
    pub closed spec fn text_view(&self) -> Seq<char> {
        self.text@
    }

    /// The pattern's text (what `Regex::as_str` gives).
    pub fn as_str(&self) -> (r: &str)
        ensures
            r@ == self.text_view(),
    {
        self.text.as_str()
    }
}

/// `Regex::is_match` (regex crate) on the compiled pattern, whose text is
/// `p.text_view()`: the answer is named by `regex_matches` over that text.
#[verifier::external_body]
fn regex_is_match(p: &ReleasePattern, hay: &str) -> (r: bool)
    ensures
        r == regex_matches(p.text_view(), hay@),
{
    p.regex.is_match(hay)
}

/// The regular expression a glob pattern stands for: case-insensitive,
/// anchored, with `*` matching anything.
pub open spec fn glob_source(pattern: Seq<char>) -> Seq<char> {
    "(?i)^"@ + replace_all(escape_spec(pattern), "\\*"@, ".*"@) + "$"@
}

/// The text of the regular expression for a glob pattern.
pub fn glob_regex_source(pattern: &str) -> (r: String)
    ensures
        r@ == glob_source(pattern@),
{
    let escaped = regex_escape(pattern);
    proof {
        reveal_strlit("\\*");
    }
    let body = str_replace(escaped.as_str(), "\\*", ".*");
    let mut out: Vec<char> = Vec::new();
    crate::text::push_str(&mut out, "(?i)^");
    crate::text::push_str(&mut out, body.as_str());
    crate::text::push_str(&mut out, "$");
    string_of(&out)
}

/// Compile a glob pattern (see `glob_source`); if that is refused, the
/// expression `.*`; `None` only when both are refused.
pub fn glob_to_regex(pattern: &str) -> (r: Option<ReleasePattern>)
    ensures
        regex_compiles(glob_source(pattern@)) ==> (r matches Some(p) && p.text_view()
            == glob_source(pattern@)),
        !regex_compiles(glob_source(pattern@)) && regex_compiles(".*"@) ==> (r matches Some(p)
            && p.text_view() == ".*"@),
        !regex_compiles(glob_source(pattern@)) && !regex_compiles(".*"@) ==> r is None,
{
    let src = glob_regex_source(pattern);
    match regex_compile(src.as_str()) {
        Some(re) => Some(ReleasePattern { text: src, regex: re }),
        None => match regex_compile(".*") {
            Some(re) => Some(ReleasePattern { text: string_of_str(".*"), regex: re }),
            None => None,
        },
    }
}

/// Whether an asset's name matches a pattern text (an asset without a name
/// never does).
pub open spec fn asset_match(a: ReleaseAsset, src: Seq<char>) -> bool {
    match a.name {
        Some(n) => regex_matches(src, n@),
        None => false,
    }
}

pub open spec fn asset_flags(assets: Seq<ReleaseAsset>, src: Seq<char>) -> Seq<bool> {
    Seq::new(assets.len(), |k: int| asset_match(assets[k], src))
}

/// The match flags of every release's assets (none for a release without
/// an asset list).
pub open spec fn release_flags(rels: Seq<Release>, src: Seq<char>) -> Seq<Seq<bool>> {
    Seq::new(
        rels.len(),
        |i: int|
            match rels[i].assets {
                Some(a) => asset_flags(a@, src),
                None => Seq::empty(),
            },
    )
}

/// Which assets' names match the release pattern (an asset without a name
/// never does).
pub fn asset_matches(assets: &Vec<ReleaseAsset>, pattern: &ReleasePattern) -> (r: Vec<bool>)
    ensures
        r@ == asset_flags(assets@, pattern.text_view()),
{
    let mut out: Vec<bool> = Vec::new();
    let mut k: usize = 0;
    while k < assets.len()
        invariant
            k <= assets@.len(),
            out@ == asset_flags(assets@, pattern.text_view()).subrange(0, k as int),
        decreases assets@.len() - k,
    {
        let m = match &assets[k].name {
            Some(n) => regex_is_match(pattern, n.as_str()),
            None => false,
        };
        out.push(m);
        k = k + 1;
        assert(out@ =~= asset_flags(assets@, pattern.text_view()).subrange(0, k as int));
    }
    assert(asset_flags(assets@, pattern.text_view()).subrange(0, k as int) =~= asset_flags(
        assets@,
        pattern.text_view(),
    ));
    out
}

/// Whether the date comparison is defined on every date involved.
pub fn dates_in_range(app: &AppImage, releases: &Vec<Release>, compare_by_date: bool) -> (r: bool)
    ensures
        r == dates_fit(*app, releases@, compare_by_date),
{
    if !compare_by_date || app.installed_at.as_str().is_empty() {
        return true;
    }
    if !crate::date::rfc_in_range(app.installed_at.as_str()) {
        return false;
    }
    let mut i: usize = 0;
    while i < releases.len()
        invariant
            i <= releases@.len(),
            compare_by_date,
            app.installed_at@.len() > 0,
            crate::date::rfc_fits(app.installed_at@),
            forall|j: int|
                0 <= j < i ==> crate::date::rfc_fits(opt_view(#[trigger] releases@[j].published_at)),
        decreases releases@.len() - i,
    {
        let ok = match &releases[i].published_at {
            Some(p) => crate::date::rfc_in_range(p.as_str()),
            None => {
                proof {
                    reveal_strlit("");
                    assert(opt_view(releases@[i as int].published_at) =~= ""@);
                }
                crate::date::rfc_in_range("")
            },
        };
        assert(ok == crate::date::rfc_fits(opt_view(releases@[i as int].published_at)));
        if !ok {
            assert(!(forall|j: int|
                0 <= j < releases@.len() ==> crate::date::rfc_fits(
                    opt_view(#[trigger] releases@[j].published_at),
                )));
            return false;
        }
        i = i + 1;
    }
    true
}

/// Look through the releases of a GitHub / Gitea / Forgejo repository
/// (newest first) for an update of `app`, with the assets matched against
/// `pattern`. `None` when a date involved is out of the range that the date
/// comparison can handle.
pub fn check_releases(
    app: &AppImage,
    releases: &Vec<Release>,
    pattern: &ReleasePattern,
    compare_by_date: bool,
    host: &str,
    skip_drafts: bool,
) -> (r: Option<UpdateResult>)
    ensures
        !dates_fit(*app, releases@, compare_by_date) ==> r is None,
        dates_fit(*app, releases@, compare_by_date) ==> select_release_ok(
            r,
            *app,
            releases@,
            release_flags(releases@, pattern.text_view()),
            compare_by_date,
            host@,
            skip_drafts,
        ),
{
    if !dates_in_range(app, releases, compare_by_date) {
        return None;
    }
    let ghost flags = release_flags(releases@, pattern.text_view());
    let mut matched: Vec<Vec<bool>> = Vec::new();
    let mut i: usize = 0;
    while i < releases.len()
        invariant
            i <= releases@.len(),
            flags == release_flags(releases@, pattern.text_view()),
            matched@.len() == i,
            forall|j: int| 0 <= j < i ==> (#[trigger] matched@[j])@ == flags[j],
        decreases releases@.len() - i,
    {
        let m = match &releases[i].assets {
            Some(a) => asset_matches(a, pattern),
            None => Vec::new(),
        };
        matched.push(m);
        i = i + 1;
    }
    let r = select_release(app, releases, &matched, compare_by_date, host, skip_drafts);
    assert(matched@.map_values(|m: Vec<bool>| m@) =~= flags);
    r
}


// ── GitLab releases ─────────────────────────────────────────────────────────

/// A release as the GitLab API describes it (`assets.links[].url`).
#[derive(Debug, Clone, Default)]
pub struct GitlabRelease {
    pub upcoming_release: bool,
    pub tag_name: Option<String>,
    pub links: Option<Vec<Option<String>>>,
}

/// The last `/`-separated piece of a link URL (`rsplit('/').next()`).
pub open spec fn link_file_name(url: Seq<char>) -> Seq<char> {
    let k = crate::text::last_index_of(url, '/');
    if k < 0 {
        url
    } else {
        url.subrange(k + 1, url.len() as int)
    }
}

/// A GitLab link seen as a release asset: named by its file name.
pub open spec fn link_asset_ok(a: ReleaseAsset, url: Option<String>) -> bool {
    &&& a.name matches Some(n) && n@ == link_file_name(opt_view(url))
    &&& a.browser_download_url matches Some(u) && u@ == opt_view(url)
}

pub open spec fn first_current(rels: Seq<GitlabRelease>, i: int) -> Option<int>
    decreases rels.len() - i,
{
    if i < 0 || i >= rels.len() {
        None
    } else if !rels[i].upcoming_release {
        Some(i)
    } else {
        first_current(rels, i + 1)
    }
}

/// The release of a GitLab project to compare against: the first one that
/// is not upcoming, when it has a tag, with its links as assets.
pub open spec fn gitlab_candidate_ok(r: Option<Release>, rels: Seq<GitlabRelease>) -> bool {
    match first_current(rels, 0) {
        None => r is None,
        Some(i) => match rels[i].tag_name {
            None => r is None,
            Some(t) => r matches Some(rel) && rel.tag_name == Some(t) && rel.published_at is None
                && !rel.draft && match rels[i].links {
                None => rel.assets is None,
                Some(ls) => rel.assets matches Some(assets) && assets@.len() == ls@.len() && forall|
                    k: int,
                |
                    0 <= k < ls@.len() ==> link_asset_ok(#[trigger] assets@[k], ls@[k]),
            },
        },
    }
}

pub fn link_asset(url: &Option<String>) -> (a: ReleaseAsset)
    ensures
        link_asset_ok(a, *url),
{
    let u = match url {
        Some(u) => u.clone(),
        None => String::new(),
    };
    let v = chars_of(u.as_str());
    let n = v.len();
    let li = crate::text::last_index(&v, '/');
    let name = match li {
        Some(k) => crate::text::subvec(&v, k + 1, n),
        None => v,
    };
    ReleaseAsset { name: Some(string_of(&name)), browser_download_url: Some(u) }
}

pub fn gitlab_candidate(rels: &Vec<GitlabRelease>) -> (r: Option<Release>)
    ensures
        gitlab_candidate_ok(r, rels@),
{
    let mut i: usize = 0;
    while i < rels.len()
        invariant
            i <= rels@.len(),
            first_current(rels@, 0) == first_current(rels@, i as int),
        decreases rels@.len() - i,
    {
        if !rels[i].upcoming_release {
            let tag = match &rels[i].tag_name {
                Some(t) => t.clone(),
                None => return None,
            };
            let assets = match &rels[i].links {
                Some(ls) => {
                    let mut out: Vec<ReleaseAsset> = Vec::new();
                    let mut k: usize = 0;
                    while k < ls.len()
                        invariant
                            k <= ls@.len(),
                            out@.len() == k,
                            forall|j: int| 0 <= j < k ==> link_asset_ok(#[trigger] out@[j], ls@[j]),
                        decreases ls@.len() - k,
                    {
                        out.push(link_asset(&ls[k]));
                        k = k + 1;
                    }
                    Some(out)
                },
                None => None,
            };
            return Some(Release { tag_name: Some(tag), published_at: None, draft: false, assets });
        }
        i = i + 1;
    }
    None
}

// ── Planning a check ────────────────────────────────────────────────────────

/// Which release API answers for a source.
#[derive(Debug, Clone, Copy, PartialEq, Eq, Structural)]
pub enum CheckKind {
    Github,
    Gitlab,
    Gitea,
    Url,
    Skip,
}

pub open spec fn check_kind_spec(source: Seq<char>) -> CheckKind {
    if source == "github"@ {
        CheckKind::Github
    } else if source == "gitlab"@ {
        CheckKind::Gitlab
    } else if source == "codeberg"@ || source == "forgejo"@ {
        CheckKind::Gitea
    } else if source == "url"@ {
        CheckKind::Url
    } else {
        CheckKind::Skip
    }
}

/// How to check one AppImage for an update.
#[derive(Debug, Clone)]
pub struct UpdatePlan {
    /// The record with its effective update source filled in.
    pub effective: AppImage,
    pub kind: CheckKind,
    pub compare_by_date: bool,
    /// The source came from the known-sources table.
    pub used_fallback: bool,
}

pub fn clone_strings(v: &Vec<String>) -> (r: Vec<String>)
    ensures
        r@ == v@,
{
    let mut out: Vec<String> = Vec::new();
    let mut i: usize = 0;
    while i < v.len()
        invariant
            i <= v@.len(),
            out@ == v@.subrange(0, i as int),
        decreases v@.len() - i,
    {
        out.push(v[i].clone());
        i = i + 1;
        assert(out@ =~= v@.subrange(0, i as int));
    }
    assert(v@.subrange(0, v@.len() as int) =~= v@);
    out
}

/// `app` with every field equal except the three update-source fields.
pub open spec fn same_but_source(e: AppImage, app: AppImage) -> bool {
    &&& e.id == app.id
    &&& e.name == app.name
    &&& e.version == app.version
    &&& e.summary == app.summary
    &&& e.description == app.description
    &&& e.installed_path == app.installed_path
    &&& e.desktop_path == app.desktop_path
    &&& e.icon_path == app.icon_path
    &&& e.categories@ == app.categories@
    &&& e.allow_prerelease == app.allow_prerelease
    &&& e.installed_at == app.installed_at
    &&& e.last_checked == app.last_checked
    &&& e.source == app.source
    &&& e.installed == app.installed
}

pub open spec fn plan_ok(p: UpdatePlan, app: AppImage) -> bool {
    let (s, u, pat) = resolved_source(app);
    &&& same_but_source(p.effective, app)
    &&& p.effective.update_source@ == s
    &&& p.effective.update_url@ == u
    &&& p.effective.update_pattern@ == pat
    &&& p.used_fallback == !has_manual_source(app)
    &&& p.compare_by_date == (!has_manual_source(app) && (match known_source_spec(app.id@) {
        Some(k) => k.compare_by_date,
        None => false,
    }))
    &&& p.kind == check_kind_spec(s)
}

/// Decide how to check `app` for an update: its effective source, which API
/// to ask, and whether to compare by release date.
pub fn plan_update_check(app: &AppImage) -> (p: UpdatePlan)
    ensures
        plan_ok(p, *app),
{
    let (source, url, pattern) = resolve_source(app);
    let used_fallback = app.update_source.as_str().is_empty() || str_eq(
        app.update_source.as_str(),
        "none",
    );
    let compare_by_date = if used_fallback {
        match known_source_for(app.id.as_str()) {
            Some(k) => k.compare_by_date,
            None => false,
        }
    } else {
        false
    };
    let kind = if str_eq(source.as_str(), "github") {
        CheckKind::Github
    } else if str_eq(source.as_str(), "gitlab") {
        CheckKind::Gitlab
    } else if str_eq(source.as_str(), "codeberg") || str_eq(source.as_str(), "forgejo") {
        CheckKind::Gitea
    } else if str_eq(source.as_str(), "url") {
        CheckKind::Url
    } else {
        CheckKind::Skip
    };
    let effective = AppImage {
        id: app.id.clone(),
        name: app.name.clone(),
        version: app.version.clone(),
        summary: app.summary.clone(),
        description: app.description.clone(),
        installed_path: app.installed_path.clone(),
        desktop_path: app.desktop_path.clone(),
        icon_path: app.icon_path.clone(),
        categories: clone_strings(&app.categories),
        update_source: source,
        update_url: url,
        update_pattern: pattern,
        allow_prerelease: app.allow_prerelease,
        installed_at: app.installed_at.clone(),
        last_checked: app.last_checked.clone(),
        source: app.source.clone(),
        installed: app.installed,
    };
    UpdatePlan { effective, kind, compare_by_date, used_fallback }
}

/// An update found by a check, marked as coming from the known-sources
/// table when the plan used it.
pub fn finish_check(plan: &UpdatePlan, found: Option<UpdateResult>) -> (r: Option<UpdateResult>)
    ensures
        match (found, r) {
            (None, None) => true,
            (Some(f), Some(u)) => u.id == f.id && u.name == f.name && u.current_version
                == f.current_version && u.new_version == f.new_version && u.download_url
                == f.download_url && u.icon_path == f.icon_path && u.default_source
                == plan.used_fallback,
            _ => false,
        },
{
    match found {
        Some(mut f) => {
            f.default_source = plan.used_fallback;
            Some(f)
        },
        None => None,
    }
}

// ── Plain-URL sources, downloads ────────────────────────────────────────────

/// Whether the `ETag` / `Last-Modified` headers of a plain download URL show
/// a new file against the values stored in the record.
pub open spec fn url_changed(
    etag: Seq<char>,
    last_mod: Seq<char>,
    stored_etag: Seq<char>,
    stored_mod: Seq<char>,
) -> bool {
    (etag.len() > 0 && etag != stored_etag) || (last_mod.len() > 0 && last_mod != stored_mod)
}

/// The update offered by a plain download URL whose headers changed.
pub fn url_update(
    app: &AppImage,
    etag: &str,
    last_mod: &str,
    stored_etag: &str,
    stored_mod: &str,
) -> (r: Option<UpdateResult>)
    ensures
        url_changed(etag@, last_mod@, stored_etag@, stored_mod@) ==> (r matches Some(u) && u.id
            == app.id && u.name == app.name && u.current_version == app.version
            && u.new_version@ == "new version"@ && u.download_url == app.update_url && u.icon_path
            == app.icon_path && !u.default_source),
        !url_changed(etag@, last_mod@, stored_etag@, stored_mod@) ==> r is None,
{
    let changed = (!etag.is_empty() && !str_eq(etag, stored_etag)) || (!last_mod.is_empty()
        && !str_eq(last_mod, stored_mod));
    if changed {
        Some(
            UpdateResult {
                id: app.id.clone(),
                name: app.name.clone(),
                current_version: app.version.clone(),
                new_version: string_of_str("new version"),
                download_url: app.update_url.clone(),
                icon_path: app.icon_path.clone(),
                default_source: false,
            },
        )
    } else {
        None
    }
}

/// The percentage of a download, when a progress line is due: the share of
/// `total` downloaded (100 when the product overflows), capped at 100, sent
/// when it grew past `last_pct` or the download is complete. Nothing is
/// sent while the total is unknown (0).
pub open spec fn progress_spec(downloaded: u64, total: u64, last_pct: u64) -> Option<u64> {
    if total == 0 {
        None
    } else {
        let raw = if downloaded * 100 <= u64::MAX {
            (downloaded * 100) / (total as int)
        } else {
            100
        };
        let pct = if raw < 100 {
            raw
        } else {
            100
        };
        if pct > last_pct || downloaded >= total {
            Some(pct as u64)
        } else {
            None
        }
    }
}

// ── Delta updates with zsync ────────────────────────────────────────────────

/// The text of a regular expression with every match replaced, as the
/// `regex` crate gives it (`Regex::new`, then `Regex::replace_all`); `None`
/// when the pattern does not compile. A function of the three texts alone.
pub uninterp spec fn regex_replaced_of(pattern: Seq<char>, text: Seq<char>, rep: Seq<char>) -> Option<Seq<char>>;

/// `Regex::new` and `Regex::replace_all` (regex crate), named by
/// `regex_replaced_of`.
#[verifier::external_body]
fn regex_replace_all(pattern: &str, text: &str, rep: &str) -> (r: Option<String>)
    ensures
        match r {
            Some(v) => regex_replaced_of(pattern@, text@, rep@) == Some(v@),
            None => regex_replaced_of(pattern@, text@, rep@) is None,
        },
{
    let re = regex::Regex::new(pattern).ok()?;
    Some(re.replace_all(text, rep).to_string())
}

/// A hex hash segment in a file name (`-` and six or more hex digits).
pub open spec fn hash_segment_pattern() -> Seq<char> {
    "-([0-9a-fA-F]{6,})"@
}

/// Where the `.zsync` control file of a download may be: beside it, and,
/// when the file name carries a hash segment, beside it without that segment.
pub open spec fn zsync_candidates_spec(url: Seq<char>) -> Seq<Seq<char>> {
    let first = url + ".zsync"@;
    let k = crate::text::last_index_of(url, '/');
    if k < 0 {
        seq![first]
    } else {
        let dir = url.subrange(0, k);
        let file = url.subrange(k + 1, url.len() as int);
        match regex_replaced_of(hash_segment_pattern(), file, Seq::empty()) {
            Some(nh) => if nh != file {
                seq![first, dir + "/"@ + nh + ".zsync"@]
            } else {
                seq![first]
            },
            None => seq![first],
        }
    }
}

/// The candidate URLs of the `.zsync` control file of a download.
pub fn zsync_candidates(url: &str) -> (r: Vec<String>)
    ensures
        crate::appimage::string_views(r@) == zsync_candidates_spec(url@),
{
    let u = chars_of(url);
    let mut first = chars_of(url);
    crate::text::push_str(&mut first, ".zsync");
    let mut out: Vec<String> = Vec::new();
    out.push(string_of(&first));
    proof {
        reveal_strlit("-([0-9a-fA-F]{6,})");
    }
    match crate::text::last_index(&u, '/') {
        None => {
            assert(crate::appimage::string_views(out@) =~= seq![url@ + ".zsync"@]);
        },
        Some(k) => {
            let n = u.len();
            assert(k < n);
            let dir = crate::text::subvec(&u, 0, k);
            let file = string_of(&crate::text::subvec(&u, k + 1, n));
            match regex_replace_all("-([0-9a-fA-F]{6,})", file.as_str(), "") {
                Some(nh) => {
                    if !crate::text::str_eq(nh.as_str(), file.as_str()) {
                        let mut second = dir;
                        crate::text::push_str(&mut second, "/");
                        crate::text::push_str(&mut second, nh.as_str());
                        crate::text::push_str(&mut second, ".zsync");
                        out.push(string_of(&second));
                    }
                },
                None => {},
            }
            proof {
                assert(""@ =~= Seq::<char>::empty()) by {
                    reveal_strlit("");
                }
            }
            assert(crate::appimage::string_views(out@) =~= zsync_candidates_spec(url@));
        },
    }
    out
}

/// The line that announces a delta update.
pub fn zsync_start_line(url: &str) -> (r: String)
    ensures
        r@ == "Delta update via zsync: "@ + url@,
{
    let mut l = chars_of("Delta update via zsync: ");
    crate::text::push_str(&mut l, url);
    string_of(&l)
}

/// A percentage in zsync's progress output (`12%` or `12.5%`).
pub open spec fn zsync_percent_pattern() -> Seq<char> {
    "(\\d{1,3}(?:\\.\\d+)?)%"@
}

/// The whole part of the percentage zsync reports on a line of its output:
/// the digits of the first match before any `.`.
pub open spec fn zsync_percent_spec(line: Seq<char>) -> Option<u64> {
    match regex_captures_of(zsync_percent_pattern(), line) {
        None => None,
        Some(c) => {
            let g = group(c, 1);
            let k = crate::text::index_of(g, '.');
            crate::num::parse_u64_spec(if k < 0 { g } else { g.subrange(0, k) })
        },
    }
}

/// The download percentage to show for a line of zsync's output: its
/// percentage when that is above the last one shown.
pub fn zsync_progress(line: &str, last: u64) -> (r: Option<u64>)
    ensures
        r == match zsync_percent_spec(line@) {
            Some(p) => if p > last {
                Some(p)
            } else {
                None
            },
            None => None,
        },
{
    proof {
        reveal_strlit("(\\d{1,3}(?:\\.\\d+)?)%");
    }
    let caps = match regex_captures("(\\d{1,3}(?:\\.\\d+)?)%", line) {
        Some(c) => c,
        None => return None,
    };
    let ghost cv = caps@.map_values(|x: String| x@);
    let g: Vec<char> = if caps.len() > 1 {
        assert(cv[1] == caps@[1]@);
        chars_of(caps[1].as_str())
    } else {
        Vec::new()
    };
    assert(g@ == group(cv, 1));
    let whole = match crate::text::find_char(&g, '.') {
        Some(k) => crate::text::subvec(&g, 0, k),
        None => g,
    };
    match crate::num::parse_u64(&whole) {
        Some(p) => if p > last {
            Some(p)
        } else {
            None
        },
        None => None,
    }
}


pub fn download_progress(downloaded: u64, total: u64, last_pct: u64) -> (r: Option<u64>)
    ensures
        r == progress_spec(downloaded, total, last_pct),
{
    if total == 0 {
        return None;
    }
    let raw: u64 = match downloaded.checked_mul(100) {
        Some(v) => v / total,
        None => 100,
    };
    let pct = if raw < 100 {
        raw
    } else {
        100
    };
    if pct > last_pct || downloaded >= total {
        Some(pct)
    } else {
        None
    }
}

/// The version recorded after an update: the one read from the new file,
/// else the hint from the update check, else the old one.
pub fn updated_version(read: &str, hint: &str, old: &str) -> (r: String)
    ensures
        r@ == (if read@.len() > 0 {
            read@
        } else if hint@.len() > 0 {
            hint@
        } else {
            old@
        }),
{
    if !read.is_empty() {
        string_of_str(read)
    } else if !hint.is_empty() {
        string_of_str(hint)
    } else {
        string_of_str(old)
    }
}

/// A setting kept from the previous record when it had one, else the one
/// read from the AppImage.
pub fn or_meta(prev_val: &str, meta_val: &str) -> (r: String)
    ensures
        r@ == (if prev_val@.len() == 0 {
            meta_val@
        } else {
            prev_val@
        }),
{
    if prev_val.is_empty() {
        string_of_str(meta_val)
    } else {
        string_of_str(prev_val)
    }
}

/// The record of a freshly installed AppImage. Update settings of a previous
/// record of the same id are kept; those read from the AppImage fill the rest.
pub fn installed_record(
    app_id: &str,
    name: &str,
    info: &AppImageInfo,
    installed_path: &str,
    desktop_path: &str,
    icon_path: &str,
    now: &str,
    prev: &Option<AppImage>,
) -> (a: AppImage)
    ensures
        a.id@ == app_id@,
        a.name@ == name@,
        a.version == info.version,
        a.summary == info.summary,
        a.description == info.description,
        a.installed_path@ == installed_path@,
        a.desktop_path@ == desktop_path@,
        a.icon_path@ == icon_path@,
        a.categories@ == info.categories@,
        a.update_source@ == (match prev {
            Some(p) if p.update_source@.len() > 0 => p.update_source@,
            _ => info.update_source@,
        }),
        a.update_url@ == (match prev {
            Some(p) if p.update_url@.len() > 0 => p.update_url@,
            _ => info.update_url@,
        }),
        a.update_pattern@ == (match prev {
            Some(p) if p.update_pattern@.len() > 0 => p.update_pattern@,
            _ => info.update_pattern@,
        }),
        a.allow_prerelease == (match prev {
            Some(p) => p.allow_prerelease,
            None => false,
        }),
        a.installed_at@ == now@,
        a.last_checked@.len() == 0,
        a.source@ == "appimage"@,
        a.installed,
{
    let (ps, pu, pp, pa) = match prev {
        Some(p) => (p.update_source.as_str(), p.update_url.as_str(), p.update_pattern.as_str(), p.allow_prerelease),
        None => ("", "", "", false),
    };
    proof {
        reveal_strlit("");
    }
    AppImage {
        id: string_of_str(app_id),
        name: string_of_str(name),
        version: info.version.clone(),
        summary: info.summary.clone(),
        description: info.description.clone(),
        installed_path: string_of_str(installed_path),
        desktop_path: string_of_str(desktop_path),
        icon_path: string_of_str(icon_path),
        categories: clone_strings(&info.categories),
        update_source: or_meta(ps, info.update_source.as_str()),
        update_url: or_meta(pu, info.update_url.as_str()),
        update_pattern: or_meta(pp, info.update_pattern.as_str()),
        allow_prerelease: pa,
        installed_at: string_of_str(now),
        last_checked: String::new(),
        source: string_of_str("appimage"),
        installed: true,
    }
}

// ── Release API endpoints ───────────────────────────────────────────────────

/// A GitHub repository page: owner and repository.
pub const GITHUB_REPO_RE: &'static str = r"https?://github\.com/([^/]+)/([^/]+)";

/// A GitLab project page: `owner/project`.
pub const GITLAB_PROJECT_RE: &'static str = r"https?://gitlab\.com/([^/]+/[^/]+)";

/// A Gitea / Forgejo repository page: host, owner and repository.
pub const GITEA_REPO_RE: &'static str = r"https?://([^/]+)/([^/]+)/([^/]+)";

/// The capture groups of the first match of a regular expression in a text
/// (group 0 the whole match; a group that took part in no match is empty),
/// or `None` when the pattern does not compile or does not match.
pub uninterp spec fn regex_captures_of(pattern: Seq<char>, text: Seq<char>) -> Option<Seq<Seq<char>>>;

/// `Regex::new` and `Regex::captures` (regex crate): the groups of the
/// first match, named by `regex_captures_of`; the crate decides them from
/// the pattern and the text alone.
#[verifier::external_body]
fn regex_captures(pattern: &str, text: &str) -> (r: Option<Vec<String>>)
    ensures
        match r {
            Some(v) => regex_captures_of(pattern@, text@) == Some(v@.map_values(|x: String| x@)),
            None => regex_captures_of(pattern@, text@) is None,
        },
{
    let re = regex::Regex::new(pattern).ok()?;
    let caps = re.captures(text)?;
    Some(caps.iter().map(|m| m.map(|m| m.as_str().to_string()).unwrap_or_default()).collect())
}

/// Group `k` of a match (empty when there is no such group).
pub open spec fn group(c: Seq<Seq<char>>, k: int) -> Seq<char> {
    if 0 <= k < c.len() {
        c[k]
    } else {
        Seq::empty()
    }
}

fn group_of(c: &Vec<String>, k: usize) -> (r: String)
    ensures
        r@ == group(c@.map_values(|x: String| x@), k as int),
{
    if k < c.len() {
        c[k].clone()
    } else {
        String::new()
    }
}

/// The release endpoint of a GitHub update URL, from the match of
/// `GITHUB_REPO_RE` in it: API URLs are kept, repository pages become the
/// latest-release endpoint, anything else is kept.
pub open spec fn github_api_spec(url: Seq<char>, caps: Option<Seq<Seq<char>>>) -> Seq<char> {
    if has_sub(url, "api.github.com"@) {
        url
    } else {
        match caps {
            Some(c) => replace_all(replace_all(GITHUB_API@, "{owner}"@, group(c, 1)), "{repo}"@, group(c, 2)),
            None => url,
        }
    }
}

pub open spec fn gitlab_api_spec(url: Seq<char>, caps: Option<Seq<Seq<char>>>) -> Seq<char> {
    if has_sub(url, "/api/v4/"@) {
        url
    } else {
        match caps {
            Some(c) => replace_all(GITLAB_API@, "{project}"@, replace_all(group(c, 1), "/"@, "%2F"@)),
            None => url,
        }
    }
}

pub open spec fn gitea_api_spec(url: Seq<char>, allow_prerelease: bool, caps: Option<Seq<Seq<char>>>) -> Seq<char> {
    if has_sub(url, "/api/v1/"@) {
        url
    } else {
        match caps {
            Some(c) => (if has_prefix(url, "https://"@) {
                "https"@
            } else {
                "http"@
            }) + "://"@ + group(c, 1) + "/api/v1/repos/"@ + group(c, 2) + "/"@ + group(c, 3) + "/"@ + (
            if allow_prerelease {
                "releases?limit=10"@
            } else {
                "releases/latest"@
            }),
            None => url,
        }
    }
}

/// `github_api_spec` for a given match.
pub fn github_api_from(url: &str, caps: Option<Vec<String>>) -> (r: String)
    ensures
        r@ == github_api_spec(url@, match caps {
            Some(v) => Some(v@.map_values(|x: String| x@)),
            None => None,
        }),
{
    if str_contains(url, "api.github.com") {
        return string_of_str(url);
    }
    match caps {
        Some(c) => {
            proof {
                reveal_strlit("{owner}");
                reveal_strlit("{repo}");
            }
            let owner = group_of(&c, 1);
            let repo = group_of(&c, 2);
            let u1 = str_replace(GITHUB_API, "{owner}", owner.as_str());
            str_replace(u1.as_str(), "{repo}", repo.as_str())
        },
        None => string_of_str(url),
    }
}

/// `gitlab_api_spec` for a given match.
pub fn gitlab_api_from(url: &str, caps: Option<Vec<String>>) -> (r: String)
    ensures
        r@ == gitlab_api_spec(url@, match caps {
            Some(v) => Some(v@.map_values(|x: String| x@)),
            None => None,
        }),
{
    if str_contains(url, "/api/v4/") {
        return string_of_str(url);
    }
    match caps {
        Some(c) => {
            proof {
                reveal_strlit("{project}");
            }
            let project = urlencoded(group_of(&c, 1).as_str());
            str_replace(GITLAB_API, "{project}", project.as_str())
        },
        None => string_of_str(url),
    }
}

/// `gitea_api_spec` for a given match.
pub fn gitea_api_from(url: &str, allow_prerelease: bool, caps: Option<Vec<String>>) -> (r: String)
    ensures
        r@ == gitea_api_spec(url@, allow_prerelease, match caps {
            Some(v) => Some(v@.map_values(|x: String| x@)),
            None => None,
        }),
{
    if str_contains(url, "/api/v1/") {
        return string_of_str(url);
    }
    match caps {
        Some(c) => {
            let mut out = if crate::text::str_starts_with(url, "https://") {
                chars_of("https")
            } else {
                chars_of("http")
            };
            crate::text::push_str(&mut out, "://");
            crate::text::push_str(&mut out, group_of(&c, 1).as_str());
            crate::text::push_str(&mut out, "/api/v1/repos/");
            crate::text::push_str(&mut out, group_of(&c, 2).as_str());
            crate::text::push_str(&mut out, "/");
            crate::text::push_str(&mut out, group_of(&c, 3).as_str());
            crate::text::push_str(&mut out, "/");
            if allow_prerelease {
                crate::text::push_str(&mut out, "releases?limit=10");
            } else {
                crate::text::push_str(&mut out, "releases/latest");
            }
            string_of(&out)
        },
        None => string_of_str(url),
    }
}

/// The GitHub release endpoint of an update URL (see `github_api_spec`).
pub fn normalize_github_url(url: &str) -> (r: String)
    ensures
        r@ == github_api_spec(url@, regex_captures_of(GITHUB_REPO_RE@, url@)),
{
    github_api_from(url, regex_captures(GITHUB_REPO_RE, url))
}

/// The GitLab release endpoint of an update URL (see `gitlab_api_spec`).
pub fn normalize_gitlab_url(url: &str) -> (r: String)
    ensures
        r@ == gitlab_api_spec(url@, regex_captures_of(GITLAB_PROJECT_RE@, url@)),
{
    gitlab_api_from(url, regex_captures(GITLAB_PROJECT_RE, url))
}

/// The Gitea / Forgejo release endpoint of an update URL (see
/// `gitea_api_spec`).
pub fn normalize_gitea_url(url: &str, allow_prerelease: bool) -> (r: String)
    ensures
        r@ == gitea_api_spec(url@, allow_prerelease, regex_captures_of(GITEA_REPO_RE@, url@)),
{
    gitea_api_from(url, allow_prerelease, regex_captures(GITEA_REPO_RE, url))
}

/// The GitHub endpoint to ask: with prereleases allowed, the list of recent
/// releases in place of the latest one.
pub fn github_releases_url(app: &AppImage) -> (r: String)
    ensures
        r@ == (if app.allow_prerelease {
            replace_all(
                github_api_spec(app.update_url@, regex_captures_of(GITHUB_REPO_RE@, app.update_url@)),
                "releases/latest"@,
                "releases?per_page=10"@,
            )
        } else {
            github_api_spec(app.update_url@, regex_captures_of(GITHUB_REPO_RE@, app.update_url@))
        }),
{
    let base = normalize_github_url(app.update_url.as_str());
    if app.allow_prerelease {
        proof {
            reveal_strlit("releases/latest");
        }
        str_replace(base.as_str(), "releases/latest", "releases?per_page=10")
    } else {
        base
    }
}

} // verus!
