//! System updates through dnf5: the upgrade commands, the reading of
//! `dnf5` listings and of `/etc/os-release`, and the icon and name data
//! gathered for the packages that have updates.

use vstd::prelude::*;
use crate::stream::{StreamCommand, command, push_arg};
use crate::text::{
    chars_of, has_prefix, has_suffix, has_sub, split_whitespace, str_eq,
    string_of, string_of_str, trim, trim_vec, views, words,
};

verus! {

#[derive(Debug, Clone, Default)]
pub struct SystemStatus {
    pub os: String,
    pub version: String,
    pub kernel: String,
    pub error: Option<String>,
}

#[derive(Debug, Clone, Default)]
pub struct UpdateInfo {
    pub available: bool,
    /// A package upgrade is running right now.
    pub upgrade_running: bool,
    pub count: usize,
    pub error: Option<String>,
}

/// One package with an update, as `dnf5 check-update` lists it.
#[derive(Debug, Clone, Default)]
pub struct PackageUpdate {
    pub name: String,
    pub current_version: String,
    pub available_version: String,
    pub repo: String,
}

// ── Commands ────────────────────────────────────────────────────────────────

/// Upgrade every package.
pub fn upgrade_packages_stream() -> (c: StreamCommand)
    ensures
        c.words() == ("pkexec"@, seq!["dnf5"@, "upgrade"@, "-y"@]),
{
    let mut a: Vec<String> = Vec::new();
    push_arg(&mut a, "dnf5");
    push_arg(&mut a, "upgrade");
    push_arg(&mut a, "-y");
    let c = command("pkexec", a);
    assert(c.words().1 =~= seq!["dnf5"@, "upgrade"@, "-y"@]);
    c
}

/// Upgrade one package.
pub fn upgrade_single_package_stream(name: &str) -> (c: StreamCommand)
    ensures
        c.words() == ("pkexec"@, seq!["dnf5"@, "upgrade"@, "-y"@, name@]),
{
    let mut a: Vec<String> = Vec::new();
    push_arg(&mut a, "dnf5");
    push_arg(&mut a, "upgrade");
    push_arg(&mut a, "-y");
    push_arg(&mut a, name);
    let c = command("pkexec", a);
    assert(c.words().1 =~= seq!["dnf5"@, "upgrade"@, "-y"@, name@]);
    c
}

// ── /etc/os-release ─────────────────────────────────────────────────────────

/// `s` without every leading and trailing `"`.
pub open spec fn unquoted(s: Seq<char>) -> Seq<char> {
    crate::text::trim_end_char(crate::text::trim_start_char(s, '"'), '"')
}

/// The value of the first line `KEY=value` of an os-release text, quotes
/// removed; empty when no line starts with `KEY=`.
pub open spec fn os_release_value(lines: Seq<Seq<char>>, key: Seq<char>) -> Seq<char>
    decreases lines.len(),
{
    if lines.len() == 0 {
        Seq::empty()
    } else if has_prefix(lines[0], key + "="@) {
        match crate::text::split_once(lines[0], '=') {
            Some((_, v)) => unquoted(v),
            None => Seq::empty(),
        }
    } else {
        os_release_value(lines.drop_first(), key)
    }
}

pub fn os_release_field(text: &str, key: &str) -> (r: String)
    ensures
        r@ == os_release_value(crate::text::str_lines(text@), key@),
{
    let lines = crate::text::lines(&chars_of(text));
    let ghost ls = views(lines@);
    let mut prefix = chars_of(key);
    crate::text::push_str(&mut prefix, "=");
    let mut i: usize = 0;
    assert(ls.skip(0) =~= ls);
    while i < lines.len()
        invariant
            i <= lines@.len(),
            ls == views(lines@),
            ls == crate::text::str_lines(text@),
            prefix@ == key@ + "="@,
            os_release_value(ls, key@) == os_release_value(ls.skip(i as int), key@),
        decreases lines@.len() - i,
    {
        assert(ls.skip(i as int)[0] == lines@[i as int]@);
        assert(ls.skip(i as int).drop_first() =~= ls.skip(i + 1));
        if crate::text::starts_with(&lines[i], &prefix) {
            return match crate::text::split_once_vec(&lines[i], '=') {
                Some((_, v)) => {
                    let t = crate::text::trim_start_char_vec(&v, '"');
                    string_of(&crate::text::trim_end_char_vec(&t, '"'))
                },
                None => String::new(),
            };
        }
        i = i + 1;
    }
    String::new()
}

// ── The daemon's update cache ───────────────────────────────────────────────

pub open spec fn opt_text(o: Option<String>) -> Option<Seq<char>> {
    match o {
        Some(s) => Some(s@),
        None => None,
    }
}

/// Which entries of a section of the update cache stay when one item is
/// removed from it: `ids[k]` is entry `k`'s identity field (`None` when it
/// has none that is a string); an entry stays unless that field is `id`.
pub fn kept_entries(ids: &Vec<Option<String>>, id: &str) -> (r: Vec<bool>)
    ensures
        r@.len() == ids@.len(),
        forall|k: int| 0 <= k < ids@.len() ==> r@[k] == (opt_text(#[trigger] ids@[k]) != Some(id@)),
{
    let mut out: Vec<bool> = Vec::new();
    let mut k: usize = 0;
    while k < ids.len()
        invariant
            k <= ids@.len(),
            out@.len() == k,
            forall|j: int| 0 <= j < k ==> out@[j] == (opt_text(#[trigger] ids@[j]) != Some(id@)),
        decreases ids@.len() - k,
    {
        let keep = match &ids[k] {
            Some(v) => !str_eq(v.as_str(), id),
            None => true,
        };
        out.push(keep);
        k = k + 1;
    }
    out
}

/// The cache's total once an item is removed: the entries left in its
/// package, Flatpak and AppImage sections; `None` when none is left (the
/// cache is then deleted, so that the page shows the system as up to date).
pub fn remaining_total(packages: usize, flatpak: usize, appimages: usize) -> (r: Option<usize>)
    requires
        packages + flatpak + appimages <= usize::MAX,
    ensures
        packages + flatpak + appimages == 0 ==> r is None,
        packages + flatpak + appimages > 0 ==> r == Some((packages + flatpak + appimages) as usize),
{
    let total = packages + flatpak + appimages;
    if total == 0 {
        None
    } else {
        Some(total)
    }
}

/// Whether the output of `pgrep dnf5` lists a process other than this one
/// (`own_pid`): a listed id that differs from it.
pub fn lists_other_process(pgrep_out: &str, own_pid: u32) -> (r: bool)
    ensures
        r == exists|i: int|
            0 <= i < words(pgrep_out@).len() && #[trigger] words(pgrep_out@)[i] != crate::num::dec_digits(
                own_pid as nat,
            ),
{
    let ws = split_whitespace(&chars_of(pgrep_out));
    let own = crate::num::fmt_u64(own_pid as u64);
    let ghost w = views(ws@);
    let mut i: usize = 0;
    while i < ws.len()
        invariant
            i <= ws@.len(),
            w == views(ws@),
            w == words(pgrep_out@),
            own@ == crate::num::dec_digits(own_pid as nat),
            forall|j: int| 0 <= j < i ==> #[trigger] w[j] == own@,
        decreases ws@.len() - i,
    {
        assert(w[i as int] == ws@[i as int]@);
        if !crate::text::eq(&ws[i], &own) {
            return true;
        }
        i = i + 1;
    }
    false
}

/// The system status from the os-release text and `uname -r` output.
pub fn system_status(os_release: &str, uname: &str) -> (s: SystemStatus)
    ensures
        s.os@ == os_release_value(crate::text::str_lines(os_release@), "NAME"@),
        s.version@ == os_release_value(crate::text::str_lines(os_release@), "VERSION"@),
        s.kernel@ == trim(uname@),
        s.error is None,
{
    SystemStatus {
        os: os_release_field(os_release, "NAME"),
        version: os_release_field(os_release, "VERSION"),
        kernel: string_of(&trim_vec(&chars_of(uname))),
        error: None,
    }
}

// ── Package names ───────────────────────────────────────────────────────────

pub open spec fn arch_suffix(a: Seq<char>) -> Seq<char> {
    "."@ + a
}

/// `name.arch` without its architecture, for the architectures known;
/// other names are kept whole.
pub open spec fn strip_arch_spec(s: Seq<char>) -> Seq<char> {
    strip_first_suffix(s, known_archs())
}

pub open spec fn strip_first_suffix(s: Seq<char>, archs: Seq<Seq<char>>) -> Seq<char>
    decreases archs.len(),
{
    if archs.len() == 0 {
        s
    } else if has_suffix(s, arch_suffix(archs[0])) {
        s.subrange(0, s.len() - arch_suffix(archs[0]).len())
    } else {
        strip_first_suffix(s, archs.drop_first())
    }
}

fn strip_suffix_step(s: &Vec<char>, arch: &str) -> (r: Option<Vec<char>>)
    ensures
        match r {
            Some(b) => has_suffix(s@, arch_suffix(arch@)) && b@ == s@.subrange(
                0,
                s@.len() - arch_suffix(arch@).len(),
            ),
            None => !has_suffix(s@, arch_suffix(arch@)),
        },
{
    let mut suf = chars_of(".");
    crate::text::push_str(&mut suf, arch);
    if crate::text::ends_with(s, &suf) {
        Some(crate::text::subvec(s, 0, s.len() - suf.len()))
    } else {
        None
    }
}

pub open spec fn known_archs() -> Seq<Seq<char>> {
    seq![
        "x86_64"@,
        "i686"@,
        "aarch64"@,
        "armv7hl"@,
        "armv6hl"@,
        "ppc64le"@,
        "s390x"@,
        "noarch"@,
        "i386"@,
    ]
}

fn arch_name(k: usize) -> (r: &'static str)
    requires
        k < 9,
    ensures
        r@ == known_archs()[k as int],
{
    match k {
        0 => "x86_64",
        1 => "i686",
        2 => "aarch64",
        3 => "armv7hl",
        4 => "armv6hl",
        5 => "ppc64le",
        6 => "s390x",
        7 => "noarch",
        _ => "i386",
    }
}

pub fn strip_arch(name_arch: &str) -> (r: String)
    ensures
        r@ == strip_arch_spec(name_arch@),
{
    let s = chars_of(name_arch);
    let ghost archs = known_archs();
    assert(strip_arch_spec(name_arch@) == strip_first_suffix(s@, archs.skip(0))) by {
        assert(archs.skip(0) =~= archs);
    }
    let mut k: usize = 0;
    while k < 9
        invariant
            k <= 9,
            archs == known_archs(),
            s@ == name_arch@,
            strip_arch_spec(name_arch@) == strip_first_suffix(s@, archs.skip(k as int)),
        decreases 9 - k,
    {
        assert(archs.skip(k as int)[0] == archs[k as int]);
        assert(archs.skip(k as int).drop_first() =~= archs.skip(k + 1));
        if let Some(b) = strip_suffix_step(&s, arch_name(k)) {
            return string_of(&b);
        }
        k = k + 1;
    }
    assert(archs.skip(9) =~= Seq::<Seq<char>>::empty());
    string_of(&s)
}

// ── dnf5 listings ───────────────────────────────────────────────────────────

/// `(name, version)` of the lines of `dnf5 -q list installed` that have at
/// least three columns and a name; a later line for a name overrides.
pub open spec fn installed_lines(lines: Seq<Seq<char>>) -> Seq<(Seq<char>, Seq<char>)>
    decreases lines.len(),
{
    if lines.len() == 0 {
        Seq::empty()
    } else {
        let init = installed_lines(lines.drop_last());
        let cols = words(lines.last());
        if cols.len() >= 3 && strip_arch_spec(cols[0]).len() > 0 {
            init.push((strip_arch_spec(cols[0]), cols[1]))
        } else {
            init
        }
    }
}

pub fn parse_installed_evr(text: &str) -> (r: Vec<(String, String)>)
    ensures
        crate::flatpak::pairs_view(r@) == installed_lines(crate::text::str_lines(text@)),
{
    let lines = crate::text::lines(&chars_of(text));
    let ghost ls = views(lines@);
    let mut out: Vec<(String, String)> = Vec::new();
    let mut i: usize = 0;
    while i < lines.len()
        invariant
            i <= lines@.len(),
            ls == views(lines@),
            ls == crate::text::str_lines(text@),
            crate::flatpak::pairs_view(out@) == installed_lines(ls.subrange(0, i as int)),
        decreases lines@.len() - i,
    {
        let ghost pre = ls.subrange(0, i + 1);
        assert(pre.drop_last() =~= ls.subrange(0, i as int));
        assert(pre.last() == lines@[i as int]@);
        let cols = split_whitespace(&lines[i]);
        if cols.len() >= 3 {
            let name = strip_arch(string_of(&cols[0]).as_str());
            if !name.as_str().is_empty() {
                let ghost o = crate::flatpak::pairs_view(out@);
                out.push((name, string_of(&cols[1])));
                assert(crate::flatpak::pairs_view(out@) =~= o.push((
                    strip_arch_spec(cols@[0]@),
                    cols@[1]@,
                )));
            }
        }
        i = i + 1;
    }
    assert(ls.subrange(0, lines@.len() as int) =~= ls);
    out
}

/// Whether a line of `dnf5 -q check-update` names an update: three columns,
/// not an installed entry, a version with a release part, a name.
pub open spec fn check_line_ok(line: Seq<char>) -> bool {
    let cols = words(line);
    cols.len() >= 3 && cols[2] != "installed"@ && has_sub(cols[1], "-"@) && strip_arch_spec(
        cols[0],
    ).len() > 0
}

pub open spec fn check_lines(lines: Seq<Seq<char>>) -> Seq<Seq<char>>
    decreases lines.len(),
{
    if lines.len() == 0 {
        Seq::empty()
    } else if check_line_ok(lines.last()) {
        check_lines(lines.drop_last()).push(lines.last())
    } else {
        check_lines(lines.drop_last())
    }
}

pub open spec fn update_of_line(
    u: PackageUpdate,
    line: Seq<char>,
    installed: Seq<(Seq<char>, Seq<char>)>,
) -> bool {
    let cols = words(line);
    let name = strip_arch_spec(cols[0]);
    &&& u.name@ == name
    &&& u.current_version@ == crate::flatpak::installed_version(installed, name)
    &&& u.available_version@ == cols[1]
    &&& u.repo@ == cols[2]
}

/// The updates listed by `dnf5 -q check-update`, in listing order, with the
/// installed versions from `dnf5 -q list installed`.
pub fn parse_check_update(text: &str, installed: &Vec<(String, String)>) -> (r: Vec<
    PackageUpdate,
>)
    ensures
        r@.len() == check_lines(crate::text::str_lines(text@)).len(),
        forall|k: int|
            0 <= k < r@.len() ==> update_of_line(
                #[trigger] r@[k],
                check_lines(crate::text::str_lines(text@))[k],
                crate::flatpak::pairs_view(installed@),
            ),
{
    let lines = crate::text::lines(&chars_of(text));
    let ghost ls = views(lines@);
    let mut out: Vec<PackageUpdate> = Vec::new();
    let mut i: usize = 0;
    while i < lines.len()
        invariant
            i <= lines@.len(),
            ls == views(lines@),
            ls == crate::text::str_lines(text@),
            out@.len() == check_lines(ls.subrange(0, i as int)).len(),
            forall|k: int|
                0 <= k < out@.len() ==> update_of_line(
                    #[trigger] out@[k],
                    check_lines(ls.subrange(0, i as int))[k],
                    crate::flatpak::pairs_view(installed@),
                ),
        decreases lines@.len() - i,
    {
        let ghost pre = ls.subrange(0, i + 1);
        assert(pre.drop_last() =~= ls.subrange(0, i as int));
        assert(pre.last() == lines@[i as int]@);
        let cols = split_whitespace(&lines[i]);
        let mut taken = false;
        if cols.len() >= 3 {
            let repo = string_of(&cols[2]);
            let evr = string_of(&cols[1]);
            if !str_eq(repo.as_str(), "installed") && crate::text::str_contains(evr.as_str(), "-") {
                let name = strip_arch(string_of(&cols[0]).as_str());
                if !name.as_str().is_empty() {
                    let current = crate::flatpak::lookup_version(installed, name.as_str());
                    out.push(
                        PackageUpdate { name, current_version: current, available_version: evr, repo },
                    );
                    taken = true;
                }
            }
        }
        if taken {
            assert(check_lines(pre) == check_lines(ls.subrange(0, i as int)).push(
                lines@[i as int]@,
            ));
        } else {
            assert(check_lines(pre) == check_lines(ls.subrange(0, i as int)));
        }
        i = i + 1;
    }
    assert(ls.subrange(0, lines@.len() as int) =~= ls);
    out
}

// ── Icon and name data of packages with updates ─────────────────────────────

/// `(icon_path, icon_url, display_name)` of a package.
pub type PkgMeta = (String, String, String);

pub open spec fn meta_views(m: Seq<(String, PkgMeta)>) -> Seq<
    (Seq<char>, (Seq<char>, Seq<char>, Seq<char>)),
> {
    m.map_values(|e: (String, PkgMeta)| (e.0@, (e.1.0@, e.1.1@, e.1.2@)))
}

/// The data kept for a key after one more source offers `(path, url, name)`:
/// a new key takes it whole; icons fill in when none or only the path was
/// missing; a display name other than the key replaces a missing one or one
/// that only repeats the key.
pub open spec fn meta_update(
    old: Option<(Seq<char>, Seq<char>, Seq<char>)>,
    key: Seq<char>,
    path: Seq<char>,
    url: Seq<char>,
    name: Seq<char>,
) -> (Seq<char>, Seq<char>, Seq<char>) {
    let e = match old {
        Some(e) => e,
        None => (path, url, name),
    };
    let (p1, u1) = if e.0.len() == 0 && e.1.len() == 0 {
        (path, url)
    } else if e.0.len() == 0 && path.len() > 0 {
        (path, e.1)
    } else {
        (e.0, e.1)
    };
    let n1 = if name.len() > 0 && name != key && (e.2.len() == 0 || e.2 == key) {
        name
    } else {
        e.2
    };
    (p1, u1, n1)
}

/// The position of `key` in the list, if present.
pub open spec fn meta_index(m: Seq<(Seq<char>, (Seq<char>, Seq<char>, Seq<char>))>, key: Seq<char>) -> Option<int> {
    if exists|i: int| 0 <= i < m.len() && (#[trigger] m[i]).0 == key {
        Some(choose|i: int| 0 <= i < m.len() && (#[trigger] m[i]).0 == key)
    } else {
        None
    }
}

pub open spec fn keys_unique(m: Seq<(Seq<char>, (Seq<char>, Seq<char>, Seq<char>))>) -> bool {
    forall|i: int, j: int| 0 <= i < j < m.len() ==> (#[trigger] m[i]).0 != (#[trigger] m[j]).0
}

/// Record what one more source says of a package (see `meta_update`);
/// an empty key is ignored. Keys stay unique.
pub fn insert_pkg_meta(
    map: &mut Vec<(String, PkgMeta)>,
    key: &str,
    icon_path: &str,
    icon_url: &str,
    display_name: &str,
)
    requires
        keys_unique(meta_views(old(map)@)),
    ensures
        keys_unique(meta_views(final(map)@)),
        key@.len() == 0 ==> final(map)@ == old(map)@,
        key@.len() > 0 ==> ({
            let before = meta_views(old(map)@);
            let after = meta_views(final(map)@);
            match meta_index(before, key@) {
                Some(i) => after == before.update(
                    i,
                    (key@, meta_update(Some(before[i].1), key@, icon_path@, icon_url@, display_name@)),
                ),
                None => after == before.push(
                    (key@, meta_update(None, key@, icon_path@, icon_url@, display_name@)),
                ),
            }
        }),
{
    if key.is_empty() {
        return;
    }
    let ghost before = meta_views(map@);
    let mut i: usize = 0;
    while i < map.len()
        invariant
            i <= map@.len(),
            before == meta_views(map@),
            before == meta_views(old(map)@),
            keys_unique(before),
            key@.len() > 0,
            forall|j: int| 0 <= j < i ==> (#[trigger] before[j]).0 != key@,
        decreases map@.len() - i,
    {
        if str_eq(map[i].0.as_str(), key) {
            let (p0, u0, n0) = (map[i].1.0.clone(), map[i].1.1.clone(), map[i].1.2.clone());
            let (p1, u1) = if p0.as_str().is_empty() && u0.as_str().is_empty() {
                (string_of_str(icon_path), string_of_str(icon_url))
            } else if p0.as_str().is_empty() && !icon_path.is_empty() {
                (string_of_str(icon_path), u0)
            } else {
                (p0, u0)
            };
            let n1 = if !display_name.is_empty() && !str_eq(display_name, key) && (
            n0.as_str().is_empty() || str_eq(n0.as_str(), key)) {
                string_of_str(display_name)
            } else {
                n0
            };
            proof {
                assert(before[i as int].0 == key@);
                assert(meta_index(before, key@) is Some);
                let c = meta_index(before, key@)->0;
                assert(0 <= c < before.len() && before[c].0 == key@);
                assert(c == i);
                assert(meta_index(before, key@) == Some(i as int));
            }
            map.set(i, (string_of_str(key), (p1, u1, n1)));
            assert(meta_views(map@) =~= before.update(
                i as int,
                (key@, meta_update(Some(before[i as int].1), key@, icon_path@, icon_url@, display_name@)),
            ));
            return;
        }
        i = i + 1;
    }
    map.push(
        (
            string_of_str(key),
            (string_of_str(icon_path), string_of_str(icon_url), string_of_str(display_name)),
        ),
    );
    assert(meta_views(map@) =~= before.push(
        (key@, meta_update(None, key@, icon_path@, icon_url@, display_name@)),
    ));
}

/// What one source says of a package: (key, icon path, icon URL, name).
pub open spec fn meta_insert(
    m: Seq<(Seq<char>, (Seq<char>, Seq<char>, Seq<char>))>,
    src: (Seq<char>, Seq<char>, Seq<char>, Seq<char>),
) -> Seq<(Seq<char>, (Seq<char>, Seq<char>, Seq<char>))> {
    if src.0.len() == 0 {
        m
    } else {
        match meta_index(m, src.0) {
            Some(i) => m.update(i, (src.0, meta_update(Some(m[i].1), src.0, src.1, src.2, src.3))),
            None => m.push((src.0, meta_update(None, src.0, src.1, src.2, src.3))),
        }
    }
}

/// The package data after the sources, in order.
pub open spec fn meta_fold(
    m: Seq<(Seq<char>, (Seq<char>, Seq<char>, Seq<char>))>,
    srcs: Seq<(Seq<char>, Seq<char>, Seq<char>, Seq<char>)>,
) -> Seq<(Seq<char>, (Seq<char>, Seq<char>, Seq<char>))>
    decreases srcs.len(),
{
    if srcs.len() == 0 {
        m
    } else {
        meta_fold(meta_insert(m, srcs[0]), srcs.drop_first())
    }
}

proof fn lemma_meta_fold_push(
    m: Seq<(Seq<char>, (Seq<char>, Seq<char>, Seq<char>))>,
    a: Seq<(Seq<char>, Seq<char>, Seq<char>, Seq<char>)>,
    x: (Seq<char>, Seq<char>, Seq<char>, Seq<char>),
)
    ensures
        meta_fold(m, a.push(x)) == meta_insert(meta_fold(m, a), x),
    decreases a.len(),
{
    if a.len() == 0 {
        assert(a.push(x).drop_first() =~= Seq::<(Seq<char>, Seq<char>, Seq<char>, Seq<char>)>::empty());
        assert(a.push(x)[0] == x);
        assert(meta_fold(meta_insert(m, x), a.push(x).drop_first()) == meta_insert(m, x));
    } else {
        assert(a.push(x).drop_first() =~= a.drop_first().push(x));
        assert(a.push(x)[0] == a[0]);
        lemma_meta_fold_push(meta_insert(m, a[0]), a.drop_first(), x);
    }
}

/// An installed package's data, under its package name and under its id.
pub open spec fn installed_sources(v: Seq<crate::packages::NativeApp>) -> Seq<(Seq<char>, Seq<char>, Seq<char>, Seq<char>)>
    decreases v.len(),
{
    if v.len() == 0 {
        Seq::empty()
    } else {
        let a = v.last();
        installed_sources(v.drop_last()).push((a.package_name@, a.icon_path@, a.icon_url@, a.name@)).push(
            (a.id@, a.icon_path@, a.icon_url@, a.name@),
        )
    }
}

/// The name a catalog record offers: its name, unless empty or only the
/// package name.
pub open spec fn friendly_name(a: crate::appstream::AppInfo) -> Seq<char> {
    if a.name@.len() > 0 && a.name@ != a.package_name@ {
        a.name@
    } else {
        Seq::empty()
    }
}

/// Every catalog record with a package name, under that name and its id.
pub open spec fn catalog_sources(e: Seq<(Seq<char>, crate::appstream::AppInfo)>) -> Seq<(Seq<char>, Seq<char>, Seq<char>, Seq<char>)>
    decreases e.len(),
{
    if e.len() == 0 {
        Seq::empty()
    } else {
        let a = e.last().1;
        let rest = catalog_sources(e.drop_last());
        if a.package_name@.len() > 0 {
            rest.push((a.package_name@, a.icon_path@, a.icon_url@, friendly_name(a))).push(
                (a.id@, a.icon_path@, a.icon_url@, friendly_name(a)),
            )
        } else {
            rest
        }
    }
}

fn insert_step(map: &mut Vec<(String, PkgMeta)>, key: &str, icon_path: &str, icon_url: &str, name: &str)
    requires
        keys_unique(meta_views(old(map)@)),
    ensures
        keys_unique(meta_views(final(map)@)),
        meta_views(final(map)@) == meta_insert(meta_views(old(map)@), (key@, icon_path@, icon_url@, name@)),
{
    let ghost before = meta_views(map@);
    insert_pkg_meta(map, key, icon_path, icon_url, name);
    proof {
        if key@.len() == 0 {
            assert(meta_views(map@) == before);
        }
    }
}

/// The icon and name data of packages: first from the installed packages,
/// then from the catalog's records (see `meta_update` for how a key's data
/// combine).
pub fn package_meta(installed: &Vec<crate::packages::NativeApp>, cat: &crate::appstream::Catalog) -> (r: Vec<(String, PkgMeta)>)
    ensures
        keys_unique(meta_views(r@)),
        meta_views(r@) == meta_fold(seq![], installed_sources(installed@) + catalog_sources(cat.view_entries())),
{
    let mut map: Vec<(String, PkgMeta)> = Vec::new();
    let ghost e = cat.view_entries();
    assert(meta_views(map@) =~= Seq::<(Seq<char>, (Seq<char>, Seq<char>, Seq<char>))>::empty());
    let mut i: usize = 0;
    assert(installed@.subrange(0, 0) =~= Seq::<crate::packages::NativeApp>::empty());
    while i < installed.len()
        invariant
            i <= installed@.len(),
            keys_unique(meta_views(map@)),
            meta_views(map@) == meta_fold(seq![], installed_sources(installed@.subrange(0, i as int))),
        decreases installed@.len() - i,
    {
        let a = &installed[i];
        let ghost pre = installed_sources(installed@.subrange(0, i as int));
        assert(installed@.subrange(0, i + 1).drop_last() =~= installed@.subrange(0, i as int));
        assert(installed@.subrange(0, i + 1).last() == *a);
        insert_step(&mut map, a.package_name.as_str(), a.icon_path.as_str(), a.icon_url.as_str(), a.name.as_str());
        proof {
            lemma_meta_fold_push(seq![], pre, (a.package_name@, a.icon_path@, a.icon_url@, a.name@));
        }
        insert_step(&mut map, a.id.as_str(), a.icon_path.as_str(), a.icon_url.as_str(), a.name.as_str());
        proof {
            lemma_meta_fold_push(
                seq![],
                pre.push((a.package_name@, a.icon_path@, a.icon_url@, a.name@)),
                (a.id@, a.icon_path@, a.icon_url@, a.name@),
            );
        }
        i = i + 1;
    }
    assert(installed@.subrange(0, installed@.len() as int) =~= installed@);
    let ghost base = installed_sources(installed@);
    let mut j: usize = 0;
    assert(e.subrange(0, 0) =~= Seq::<(Seq<char>, crate::appstream::AppInfo)>::empty());
    assert(base + catalog_sources(e.subrange(0, 0)) =~= base);
    while j < cat.entries.len()
        invariant
            j <= cat.entries@.len(),
            e == cat.view_entries(),
            base == installed_sources(installed@),
            keys_unique(meta_views(map@)),
            meta_views(map@) == meta_fold(seq![], base + catalog_sources(e.subrange(0, j as int))),
        decreases cat.entries@.len() - j,
    {
        let a = &cat.entries[j].1;
        assert(e[j as int].1 == *a);
        let ghost pre = base + catalog_sources(e.subrange(0, j as int));
        assert(e.subrange(0, j + 1).drop_last() =~= e.subrange(0, j as int));
        assert(e.subrange(0, j + 1).last() == e[j as int]);
        if a.package_name.unicode_len() > 0 {
            let friendly = if a.name.unicode_len() > 0 && !str_eq(a.name.as_str(), a.package_name.as_str()) {
                a.name.clone()
            } else {
                String::new()
            };
            assert(friendly@ == friendly_name(*a));
            insert_step(&mut map, a.package_name.as_str(), a.icon_path.as_str(), a.icon_url.as_str(), friendly.as_str());
            proof {
                lemma_meta_fold_push(seq![], pre, (a.package_name@, a.icon_path@, a.icon_url@, friendly@));
            }
            insert_step(&mut map, a.id.as_str(), a.icon_path.as_str(), a.icon_url.as_str(), friendly.as_str());
            proof {
                lemma_meta_fold_push(
                    seq![],
                    pre.push((a.package_name@, a.icon_path@, a.icon_url@, friendly@)),
                    (a.id@, a.icon_path@, a.icon_url@, friendly@),
                );
                assert(base + catalog_sources(e.subrange(0, j + 1)) =~= pre.push(
                    (a.package_name@, a.icon_path@, a.icon_url@, friendly@),
                ).push((a.id@, a.icon_path@, a.icon_url@, friendly@)));
            }
        } else {
            assert(base + catalog_sources(e.subrange(0, j + 1)) =~= pre);
        }
        j = j + 1;
    }
    assert(e.subrange(0, e.len() as int) =~= e);
    map
}

/// A package update with what the package data say of it.
#[derive(Debug, Clone)]
pub struct EnrichedUpdate {
    pub update: PackageUpdate,
    /// The package has application data (an icon or a display name entry).
    pub gui: bool,
    pub icon_path: Option<String>,
    pub icon_url: Option<String>,
    pub display_name: Option<String>,
}

pub open spec fn some_if_set(s: Seq<char>) -> Option<Seq<char>> {
    if s.len() > 0 {
        Some(s)
    } else {
        None
    }
}

pub open spec fn opt_view(o: Option<String>) -> Option<Seq<char>> {
    match o {
        Some(s) => Some(s@),
        None => None,
    }
}

fn nonempty_text(s: &String) -> (o: Option<String>)
    ensures
        opt_view(o) == some_if_set(s@),
{
    if s.unicode_len() > 0 {
        Some(s.clone())
    } else {
        None
    }
}

/// An update marked as an application when the package data hold its name,
/// with the icon path, icon URL and display name that are set there.
pub fn enrich_update(u: PackageUpdate, meta: &Vec<(String, PkgMeta)>) -> (r: EnrichedUpdate)
    requires
        keys_unique(meta_views(meta@)),
    ensures
        r.update == u,
        r.gui == meta_index(meta_views(meta@), u.name@) is Some,
        match meta_index(meta_views(meta@), u.name@) {
            Some(i) => {
                let m = meta_views(meta@)[i].1;
                &&& opt_view(r.icon_path) == some_if_set(m.0)
                &&& opt_view(r.icon_url) == some_if_set(m.1)
                &&& opt_view(r.display_name) == some_if_set(m.2)
            },
            None => r.icon_path is None && r.icon_url is None && r.display_name is None,
        },
{
    let ghost mv = meta_views(meta@);
    let mut i: usize = 0;
    while i < meta.len()
        invariant
            i <= meta@.len(),
            mv == meta_views(meta@),
            keys_unique(mv),
            forall|j: int| 0 <= j < i ==> (#[trigger] mv[j]).0 != u.name@,
        decreases meta@.len() - i,
    {
        if str_eq(meta[i].0.as_str(), u.name.as_str()) {
            proof {
                assert(mv[i as int].0 == u.name@);
                let c = meta_index(mv, u.name@)->0;
                assert(0 <= c < mv.len() && mv[c].0 == u.name@);
                assert(c == i);
            }
            let (p, l, n) = (&meta[i].1.0, &meta[i].1.1, &meta[i].1.2);
            let ip = nonempty_text(p);
            let iu = nonempty_text(l);
            let dn = nonempty_text(n);
            return EnrichedUpdate { update: u, gui: true, icon_path: ip, icon_url: iu, display_name: dn };
        }
        i = i + 1;
    }
    EnrichedUpdate { update: u, gui: false, icon_path: None, icon_url: None, display_name: None }
}

// ── Ordering updates by name ────────────────────────────────────────────────

pub open spec fn update_key(u: PackageUpdate) -> Seq<char> {
    crate::text::str_lowercase(u.name@)
}

pub open spec fn updates_sorted(s: Seq<PackageUpdate>) -> bool {
    forall|i: int, j: int|
        0 <= i < j < s.len() ==> crate::daemon::text_le(update_key(#[trigger] s[i]), update_key(#[trigger] s[j]))
}

/// Package updates ordered by name, ignoring case (equal names keep their
/// order): the same updates, sorted.
pub fn sort_updates(updates: Vec<PackageUpdate>) -> (r: Vec<PackageUpdate>)
    ensures
        r@ == crate::order::stable_sorted(updates@, |u: PackageUpdate| update_key(u)),
        updates_sorted(r@),
        r@.to_multiset() == updates@.to_multiset(),
{
    let mut keys: Vec<Vec<char>> = Vec::new();
    let mut i: usize = 0;
    while i < updates.len()
        invariant
            i <= updates@.len(),
            keys@.len() == i,
            forall|q: int| 0 <= q < i ==> (#[trigger] keys@[q])@ == update_key(updates@[q]),
        decreases updates@.len() - i,
    {
        keys.push(chars_of(crate::text::lowercase(updates[i].name.as_str()).as_str()));
        i = i + 1;
    }
    let r = crate::order::sort_keyed(updates, keys, Ghost(|u: PackageUpdate| update_key(u)));
    assert(updates_sorted(r@)) by {
        assert forall|p: int, q: int| 0 <= p < q < r@.len() implies crate::daemon::text_le(update_key(#[trigger] r@[p]), update_key(#[trigger] r@[q])) by {
            assert(crate::order::sorted_by(r@, |u: PackageUpdate| update_key(u)));
        }
    }
    r
}

// ── Laws of package names ───────────────────────────────────────────────────

pub open spec fn no_dot(a: Seq<char>) -> bool {
    forall|i: int| 0 <= i < a.len() ==> a[i] != '.'
}

/// `n.b` never ends with `.a` for another dot-free architecture `a`.
proof fn lemma_other_suffix(n: Seq<char>, a: Seq<char>, b: Seq<char>)
    requires
        no_dot(a),
        no_dot(b),
        a != b,
    ensures
        !has_suffix(n + ("."@ + b), "."@ + a),
{
    reveal_strlit(".");
    let s = n + ("."@ + b);
    let sa = "."@ + a;
    let sb = "."@ + b;
    if has_suffix(s, sa) {
        let off = s.len() - sa.len();
        if a.len() < b.len() {
            // The dot of `.a` falls inside `b`.
            assert(s[off] == sa[0]);
            assert(s[off] == b[off - n.len() - 1]);
        } else if a.len() > b.len() {
            // The dot of `.b` falls inside `a`.
            let q = n.len() - off;
            assert(s[n.len() as int] == '.');
            assert(s.subrange(off, s.len() as int)[q] == sa[q]);
            assert(sa[q] == a[q - 1]);
        } else {
            assert forall|i: int| 0 <= i < a.len() implies a[i] == b[i] by {
                assert(s.subrange(off, s.len() as int)[i + 1] == sa[i + 1]);
                assert(s[off + i + 1] == sb[i + 1]);
            }
            assert(a =~= b);
        }
    }
}

proof fn lemma_strip_at(n: Seq<char>, b: Seq<char>, archs: Seq<Seq<char>>, k: int)
    requires
        0 <= k < archs.len(),
        archs[k] == b,
        no_dot(b),
        forall|j: int| 0 <= j < k ==> no_dot(#[trigger] archs[j]) && archs[j] != b,
    ensures
        strip_first_suffix(n + ("."@ + b), archs) == n,
    decreases k,
{
    reveal_strlit(".");
    let s = n + ("."@ + b);
    if k == 0 {
        assert(s.subrange(s.len() - ("."@ + b).len(), s.len() as int) =~= "."@ + b);
        assert(s.subrange(0, s.len() - ("."@ + b).len()) =~= n);
    } else {
        lemma_other_suffix(n, archs[0], b);
        assert forall|j: int| 0 <= j < k - 1 implies no_dot(#[trigger] archs.drop_first()[j])
            && archs.drop_first()[j] != b by {
            assert(archs.drop_first()[j] == archs[j + 1]);
        }
        lemma_strip_at(n, b, archs.drop_first(), k - 1);
    }
}

proof fn lemma_no_dot_kept(s: Seq<char>, archs: Seq<Seq<char>>)
    requires
        no_dot(s),
    ensures
        strip_first_suffix(s, archs) == s,
    decreases archs.len(),
{
    reveal_strlit(".");
    if archs.len() > 0 {
        if has_suffix(s, "."@ + archs[0]) {
            let off = s.len() - ("."@ + archs[0]).len();
            assert(s.subrange(off, s.len() as int)[0] == '.');
            assert(s[off] == '.');
        }
        lemma_no_dot_kept(s, archs.drop_first());
    }
}

/// A name without a dot has no architecture to take off: it is kept whole.
pub proof fn law_strip_arch_plain(s: Seq<char>)
    requires
        no_dot(s),
    ensures
        strip_arch_spec(s) == s,
{
    lemma_no_dot_kept(s, known_archs());
}

/// The architecture suffix is taken off `<name>.<arch>` for each of the
/// architectures dnf5 lists: whatever the name, what is left is the name.
pub proof fn law_strip_arch(name: Seq<char>)
    ensures
        strip_arch_spec(name + ".x86_64"@) == name,
        strip_arch_spec(name + ".i686"@) == name,
        strip_arch_spec(name + ".aarch64"@) == name,
        strip_arch_spec(name + ".armv7hl"@) == name,
        strip_arch_spec(name + ".armv6hl"@) == name,
        strip_arch_spec(name + ".ppc64le"@) == name,
        strip_arch_spec(name + ".s390x"@) == name,
        strip_arch_spec(name + ".noarch"@) == name,
        strip_arch_spec(name + ".i386"@) == name,
{
    reveal_strlit(".");
    let lits: Seq<Seq<char>> = seq![
        "x86_64"@, "i686"@, "aarch64"@, "armv7hl"@, "armv6hl"@, "ppc64le"@, "s390x"@, "noarch"@, "i386"@,
    ];
    let dotted: Seq<Seq<char>> = seq![
        ".x86_64"@, ".i686"@, ".aarch64"@, ".armv7hl"@, ".armv6hl"@, ".ppc64le"@, ".s390x"@, ".noarch"@, ".i386"@,
    ];
    reveal_strlit("x86_64");
    reveal_strlit("i686");
    reveal_strlit("aarch64");
    reveal_strlit("armv7hl");
    reveal_strlit("armv6hl");
    reveal_strlit("ppc64le");
    reveal_strlit("s390x");
    reveal_strlit("noarch");
    reveal_strlit("i386");
    reveal_strlit(".x86_64");
    reveal_strlit(".i686");
    reveal_strlit(".aarch64");
    reveal_strlit(".armv7hl");
    reveal_strlit(".armv6hl");
    reveal_strlit(".ppc64le");
    reveal_strlit(".s390x");
    reveal_strlit(".noarch");
    reveal_strlit(".i386");
    let archs = known_archs();
    assert forall|k: int| 0 <= k < 9 implies strip_arch_spec(name + #[trigger] dotted[k]) == name by {
        let b = lits[k];
        assert(dotted[k] =~= "."@ + b);
        assert(name + dotted[k] =~= name + ("."@ + b));
        assert(archs[k] == b);
        assert forall|j: int| 0 <= j < 9 implies no_dot(#[trigger] archs[j]) by {}
        assert forall|j: int| 0 <= j < k implies no_dot(#[trigger] archs[j]) && archs[j] != b by {
            assert(archs[j].len() != b.len() || archs[j][0] != b[0] || archs[j][1] != b[1]
                || archs[j][4] != b[4]);
        }
        lemma_strip_at(name, b, archs, k);
    }
    assert(dotted[0] == ".x86_64"@);
    assert(dotted[1] == ".i686"@);
    assert(dotted[2] == ".aarch64"@);
    assert(dotted[3] == ".armv7hl"@);
    assert(dotted[4] == ".armv6hl"@);
    assert(dotted[5] == ".ppc64le"@);
    assert(dotted[6] == ".s390x"@);
    assert(dotted[7] == ".noarch"@);
    assert(dotted[8] == ".i386"@);
}

} // verus!
