//! The background update checker: its settings, the tray status it shows,
//! the notification it sends, and the GNOME extension update check.

use vstd::prelude::*;
use crate::num::{dec_digits, fmt_u64};
use crate::text::{
    chars_of, has_prefix, replace_all, str_replace, str_starts_with, string_of, string_of_str,
    words,
};

verus! {

/// The checker's settings.
#[derive(Debug, Clone)]
pub struct Settings {
    /// Check interval in minutes; 0 means manual checks only.
    pub update_interval: u64,
    pub auto_check_packages: bool,
    pub auto_check_flatpak: bool,
    pub auto_check_appimages: bool,
    /// Install package and Flatpak updates automatically.
    pub auto_update: bool,
}

impl Default for Settings {
    fn default() -> (s: Settings)
        ensures
            s.update_interval == 1440,
            s.auto_check_packages && s.auto_check_flatpak && s.auto_check_appimages,
            !s.auto_update,
    {
        Settings {
            update_interval: 1440,
            auto_check_packages: true,
            auto_check_flatpak: true,
            auto_check_appimages: true,
            auto_update: false,
        }
    }
}

/// What automatic updating does after a check: upgrade the packages, update
/// the Flatpaks (each then checked again).
#[derive(Debug, Clone, Copy, PartialEq, Eq, Structural)]
pub struct AutoUpdate {
    pub upgrade_packages: bool,
    pub update_flatpaks: bool,
}

impl Settings {
    /// With automatic updates on, install what a check found: packages when
    /// there are package updates, Flatpaks when there are Flatpak updates.
    pub fn auto_update_plan(&self, package_updates: usize, flatpak_updates: usize) -> (r: AutoUpdate)
        ensures
            r.upgrade_packages == (self.auto_update && package_updates > 0),
            r.update_flatpaks == (self.auto_update && flatpak_updates > 0),
    {
        AutoUpdate {
            upgrade_packages: self.auto_update && package_updates > 0,
            update_flatpaks: self.auto_update && flatpak_updates > 0,
        }
    }

    /// The check interval in seconds, at least an hour; `None` for manual
    /// checks only.
    pub fn effective_interval_secs(&self) -> (r: Option<u64>)
        requires
            self.update_interval <= u64::MAX / 60,
        ensures
            self.update_interval == 0 ==> r is None,
            self.update_interval > 0 ==> r == Some(
                (if self.update_interval < 60 {
                    60
                } else {
                    self.update_interval
                } * 60) as u64,
            ),
    {
        if self.update_interval == 0 {
            return None;
        }
        let m = if self.update_interval < 60 {
            60
        } else {
            self.update_interval
        };
        Some(m * 60)
    }
}

/// A request to the checker's main loop.
#[derive(Debug, Clone, Copy, PartialEq, Eq, Structural)]
pub enum DaemonMsg {
    CheckNow,
    Quit,
    OpenUi,
}

/// What the tray icon shows.
#[derive(Debug, Clone, Copy, PartialEq, Eq, Structural)]
pub enum TrayStatus {
    Checking,
    UpToDate,
    Available(usize),
    RebootRequired,
}

impl Default for TrayStatus {
    fn default() -> (s: TrayStatus)
        ensures
            s == TrayStatus::Checking,
    {
        TrayStatus::Checking
    }
}

#[verifier::external_type_specification]
#[verifier::external_body]
#[verifier::reject_recursive_types(T)]
pub struct ExSyncSender<T>(std::sync::mpsc::SyncSender<T>);

/// The tray icon: its status and the channel to the main loop.
pub struct SoftwareTray {
    pub status: TrayStatus,
    pub tx: std::sync::mpsc::SyncSender<DaemonMsg>,
}

/// The status for a cached or fresh check result.
pub fn status_for(count: usize, reboot_required: bool) -> (s: TrayStatus)
    ensures
        s == (if reboot_required {
            TrayStatus::RebootRequired
        } else if count > 0 {
            TrayStatus::Available(count)
        } else {
            TrayStatus::UpToDate
        }),
{
    if reboot_required {
        TrayStatus::RebootRequired
    } else if count > 0 {
        TrayStatus::Available(count)
    } else {
        TrayStatus::UpToDate
    }
}

pub open spec fn plural(n: nat) -> Seq<char> {
    if n != 1 {
        "s"@
    } else {
        Seq::empty()
    }
}

pub open spec fn tray_title_spec(s: TrayStatus) -> Seq<char> {
    match s {
        TrayStatus::Available(n) => "Software Center — "@ + dec_digits(n as nat) + " update"@
            + plural(n as nat) + " available"@,
        TrayStatus::RebootRequired => "Software Center — Reboot Required"@,
        _ => "Software Center"@,
    }
}

pub open spec fn tray_icon_spec(s: TrayStatus) -> Seq<char> {
    match s {
        TrayStatus::UpToDate => "emblem-ok-symbolic"@,
        TrayStatus::Available(_) => "software-update-available-symbolic"@,
        TrayStatus::RebootRequired => "system-reboot-symbolic"@,
        _ => "process-stop-symbolic"@,
    }
}

fn push_chars(out: &mut Vec<char>, v: &Vec<char>)
    ensures
        final(out)@ == old(out)@ + v@,
{
    let mut k: usize = 0;
    let ghost o = out@;
    while k < v.len()
        invariant
            k <= v@.len(),
            out@ == o + v@.subrange(0, k as int),
        decreases v@.len() - k,
    {
        out.push(v[k]);
        k = k + 1;
        assert(out@ =~= o + v@.subrange(0, k as int));
    }
    assert(v@.subrange(0, v@.len() as int) =~= v@);
}

impl SoftwareTray {
    /// The icon name shown for the status.
    pub fn icon_name(&self) -> (r: String)
        ensures
            r@ == tray_icon_spec(self.status),
    {
        match self.status {
            TrayStatus::UpToDate => string_of_str("emblem-ok-symbolic"),
            TrayStatus::Available(_) => string_of_str("software-update-available-symbolic"),
            TrayStatus::RebootRequired => string_of_str("system-reboot-symbolic"),
            _ => string_of_str("process-stop-symbolic"),
        }
    }

    /// The tray title for the status.
    pub fn title(&self) -> (r: String)
        ensures
            r@ == tray_title_spec(self.status),
    {
        match self.status {
            TrayStatus::Available(n) => {
                let mut out = chars_of("Software Center — ");
                push_chars(&mut out, &fmt_u64(n as u64));
                crate::text::push_str(&mut out, " update");
                if n != 1 {
                    crate::text::push_str(&mut out, "s");
                }
                crate::text::push_str(&mut out, " available");
                proof {
                    reveal_strlit("");
                    assert(""@ =~= Seq::<char>::empty());
                }
                assert(out@ =~= tray_title_spec(self.status));
                string_of(&out)
            },
            TrayStatus::RebootRequired => string_of_str("Software Center — Reboot Required"),
            _ => string_of_str("Software Center"),
        }
    }
}

// ── Notification ────────────────────────────────────────────────────────────

/// Numbers of updates found by one check.
#[derive(Debug, Clone, Copy, Default)]
pub struct UpdateCounts {
    pub packages: usize,
    pub flatpak: usize,
    pub gnome_extensions: usize,
    pub appimages: usize,
    pub total: usize,
}

pub open spec fn count_line(n: nat, what: Seq<char>) -> Seq<char> {
    dec_digits(n) + " "@ + what + " update"@ + plural(n)
}

/// The lines of the notification: one per kind with updates, in the order
/// packages, Flatpak, AppImage, GNOME extension.
pub open spec fn notification_lines(c: UpdateCounts) -> Seq<Seq<char>> {
    let a = if c.packages > 0 {
        seq![count_line(c.packages as nat, "package"@)]
    } else {
        Seq::empty()
    };
    let b = if c.flatpak > 0 {
        seq![count_line(c.flatpak as nat, "Flatpak"@)]
    } else {
        Seq::empty()
    };
    let d = if c.appimages > 0 {
        seq![count_line(c.appimages as nat, "AppImage"@)]
    } else {
        Seq::empty()
    };
    let e = if c.gnome_extensions > 0 {
        seq![count_line(c.gnome_extensions as nat, "GNOME extension"@)]
    } else {
        Seq::empty()
    };
    a + b + d + e
}

/// The line for `n` updates of a kind: `"{n} {kind} update"`, with an `s`
/// unless there is exactly one.
pub open spec fn kind_line(n: nat, kind: Seq<char>) -> Seq<char> {
    dec_digits(n) + " "@ + kind + (if n == 1 {
        " update"@
    } else {
        " updates"@
    })
}

/// The notification has one line per kind that has updates and no other:
/// `"{n} package update(s)"`, `"{n} Flatpak update(s)"`, `"{n} AppImage
/// update(s)"`, `"{n} GNOME extension update(s)"`, each when its count is
/// not zero.
pub proof fn law_notification_lines(c: UpdateCounts)
    ensures
        notification_lines(c).len() == (if c.packages > 0 { 1int } else { 0 }) + (if c.flatpak > 0 {
            1int
        } else {
            0
        }) + (if c.appimages > 0 { 1int } else { 0 }) + (if c.gnome_extensions > 0 {
            1int
        } else {
            0
        }),
        c.packages > 0 ==> notification_lines(c).contains(kind_line(c.packages as nat, "package"@)),
        c.flatpak > 0 ==> notification_lines(c).contains(kind_line(c.flatpak as nat, "Flatpak"@)),
        c.appimages > 0 ==> notification_lines(c).contains(kind_line(c.appimages as nat, "AppImage"@)),
        c.gnome_extensions > 0 ==> notification_lines(c).contains(
            kind_line(c.gnome_extensions as nat, "GNOME extension"@),
        ),
        c.packages > 0 ==> notification_lines(c)[0] == kind_line(c.packages as nat, "package"@),
        c.flatpak > 0 ==> notification_lines(c)[if c.packages > 0 { 1int } else { 0 }] == kind_line(
            c.flatpak as nat,
            "Flatpak"@,
        ),
        c.appimages > 0 ==> notification_lines(c)[(if c.packages > 0 { 1int } else { 0 }) + (
        if c.flatpak > 0 { 1int } else { 0 })] == kind_line(c.appimages as nat, "AppImage"@),
        c.gnome_extensions > 0 ==> notification_lines(c).last() == kind_line(
            c.gnome_extensions as nat,
            "GNOME extension"@,
        ),
{
    reveal_strlit(" update");
    reveal_strlit(" updates");
    reveal_strlit("s");
    assert forall|n: nat, k: Seq<char>| #[trigger] count_line(n, k) == kind_line(n, k) by {
        if n == 1 {
            assert(count_line(n, k) =~= kind_line(n, k));
        } else {
            assert(" update"@ + "s"@ =~= " updates"@);
            assert(count_line(n, k) =~= kind_line(n, k));
        }
    }
    let l = notification_lines(c);
    let a = if c.packages > 0 { seq![count_line(c.packages as nat, "package"@)] } else { Seq::empty() };
    let b = if c.flatpak > 0 { seq![count_line(c.flatpak as nat, "Flatpak"@)] } else { Seq::empty() };
    let d = if c.appimages > 0 { seq![count_line(c.appimages as nat, "AppImage"@)] } else { Seq::empty() };
    let e = if c.gnome_extensions > 0 {
        seq![count_line(c.gnome_extensions as nat, "GNOME extension"@)]
    } else {
        Seq::empty()
    };
    assert(l == a + b + d + e);
    if c.packages > 0 {
        assert(l[0] == a[0]);
        assert(l.contains(count_line(c.packages as nat, "package"@)));
    }
    if c.flatpak > 0 {
        assert(l[a.len() as int] == b[0]);
        assert(l.contains(count_line(c.flatpak as nat, "Flatpak"@)));
    }
    if c.appimages > 0 {
        assert(l[(a.len() + b.len()) as int] == d[0]);
        assert(l.contains(count_line(c.appimages as nat, "AppImage"@)));
    }
    if c.gnome_extensions > 0 {
        assert(l.last() == e[0]);
        assert(l[(a.len() + b.len() + d.len()) as int] == e[0]);
        assert(l.contains(count_line(c.gnome_extensions as nat, "GNOME extension"@)));
    }
}

fn count_text(n: usize, what: &str) -> (r: String)
    ensures
        r@ == count_line(n as nat, what@),
{
    let mut out = fmt_u64(n as u64);
    crate::text::push_str(&mut out, " ");
    crate::text::push_str(&mut out, what);
    crate::text::push_str(&mut out, " update");
    if n != 1 {
        crate::text::push_str(&mut out, "s");
    }
    proof {
        reveal_strlit("");
        assert(""@ =~= Seq::<char>::empty());
    }
    assert(out@ =~= count_line(n as nat, what@));
    string_of(&out)
}

impl UpdateCounts {
    /// The body of the "Updates Available" notification; `None` when the
    /// check found nothing.
    pub fn notification_body(&self) -> (r: Option<String>)
        ensures
            self.total == 0 ==> r is None,
            self.total > 0 ==> (r matches Some(b) && b@ == crate::appimage::join_with(
                notification_lines(*self),
                "\n"@,
            )),
    {
        if self.total == 0 {
            return None;
        }
        let mut parts: Vec<String> = Vec::new();
        let ghost c = *self;
        if self.packages > 0 {
            parts.push(count_text(self.packages, "package"));
        }
        if self.flatpak > 0 {
            parts.push(count_text(self.flatpak, "Flatpak"));
        }
        if self.appimages > 0 {
            parts.push(count_text(self.appimages, "AppImage"));
        }
        if self.gnome_extensions > 0 {
            parts.push(count_text(self.gnome_extensions, "GNOME extension"));
        }
        assert(crate::appimage::string_views(parts@) =~= notification_lines(c));
        let body = crate::appimage::join_strings(&parts, "\n");
        Some(string_of(&body))
    }
}

// ── GNOME extensions ────────────────────────────────────────────────────────

pub const GNOME_EXTENSIONS_BASE: &'static str = "https://extensions.gnome.org";

/// `%`, space, `@`, `+` and `/` percent-encoded (in that order).
pub open spec fn url_escape_spec(s: Seq<char>) -> Seq<char> {
    replace_all(
        replace_all(
            replace_all(replace_all(replace_all(s, "%"@, "%25"@), " "@, "%20"@), "@"@, "%40"@),
            "+"@,
            "%2B"@,
        ),
        "/"@,
        "%2F"@,
    )
}

pub fn url_escape(input: &str) -> (r: String)
    ensures
        r@ == url_escape_spec(input@),
{
    proof {
        reveal_strlit("%");
        reveal_strlit(" ");
        reveal_strlit("@");
        reveal_strlit("+");
        reveal_strlit("/");
    }
    let a = str_replace(input, "%", "%25");
    let b = str_replace(a.as_str(), " ", "%20");
    let c = str_replace(b.as_str(), "@", "%40");
    let d = str_replace(c.as_str(), "+", "%2B");
    str_replace(d.as_str(), "/", "%2F")
}

/// An extension resource URL made absolute against the extensions site.
pub fn absolute_gnome_extension_url(url: &str) -> (r: String)
    ensures
        r@ == (if has_prefix(url@, "http"@) {
            url@
        } else {
            GNOME_EXTENSIONS_BASE@ + url@
        }),
{
    if str_starts_with(url, "http") {
        string_of_str(url)
    } else {
        let mut out = chars_of(GNOME_EXTENSIONS_BASE);
        crate::text::push_str(&mut out, url);
        string_of(&out)
    }
}

/// The extensions site's info request for an extension and a shell version.
pub fn extension_info_url(uuid: &str, shell_version: &str) -> (r: String)
    ensures
        r@ == GNOME_EXTENSIONS_BASE@ + "/extension-info/?uuid="@ + url_escape_spec(uuid@)
            + "&shell_version="@ + url_escape_spec(shell_version@),
{
    let mut out = chars_of(GNOME_EXTENSIONS_BASE);
    crate::text::push_str(&mut out, "/extension-info/?uuid=");
    crate::text::push_str(&mut out, url_escape(uuid).as_str());
    crate::text::push_str(&mut out, "&shell_version=");
    crate::text::push_str(&mut out, url_escape(shell_version).as_str());
    string_of(&out)
}

pub open spec fn starts_with_digit(w: Seq<char>) -> bool {
    w.len() > 0 && '0' <= w[0] && w[0] <= '9'
}

pub open spec fn first_version_word(ws: Seq<Seq<char>>, i: int) -> Option<Seq<char>>
    decreases ws.len() - i,
{
    if i < 0 || i >= ws.len() {
        None
    } else if starts_with_digit(ws[i]) {
        Some(ws[i])
    } else {
        first_version_word(ws, i + 1)
    }
}

/// The GNOME Shell version in the output of `gnome-shell --version`: the
/// first word that starts with a digit.
pub fn shell_version_of(text: &str) -> (r: Option<String>)
    ensures
        match r {
            Some(v) => first_version_word(words(text@), 0) == Some(v@),
            None => first_version_word(words(text@), 0) is None,
        },
{
    let ws = crate::text::split_whitespace(&chars_of(text));
    let ghost wv = crate::text::views(ws@);
    let mut i: usize = 0;
    while i < ws.len()
        invariant
            i <= ws@.len(),
            wv == crate::text::views(ws@),
            wv == words(text@),
            first_version_word(wv, 0) == first_version_word(wv, i as int),
        decreases ws@.len() - i,
    {
        assert(wv[i as int] == ws@[i as int]@);
        if ws[i].len() > 0 && '0' <= ws[i][0] && ws[i][0] <= '9' {
            return Some(string_of(&ws[i]));
        }
        i = i + 1;
    }
    None
}

/// `u32::from_str(s).ok()`.
pub open spec fn parse_u32_spec(s: Seq<char>) -> Option<u32> {
    match crate::num::decimal_value(s, false) {
        Some(v) => if 0 <= v <= u32::MAX {
            Some(v as u32)
        } else {
            None
        },
        None => None,
    }
}

/// A version number read from extension metadata: an unsigned JSON number
/// that fits in 32 bits, or else a string holding one.
pub open spec fn json_u32_spec(number: Option<u64>, text: Option<Seq<char>>) -> Option<u32> {
    match number {
        Some(n) if n <= u32::MAX => Some(n as u32),
        _ => match text {
            Some(t) => parse_u32_spec(t),
            None => None,
        },
    }
}

/// Read a version number: `number` is the JSON value as an unsigned
/// integer, `text` as a string (each `None` when it is not one).
pub fn json_u32(number: Option<u64>, text: Option<&str>) -> (r: Option<u32>)
    ensures
        r == json_u32_spec(number, match text {
            Some(t) => Some(t@),
            None => None,
        }),
{
    match number {
        Some(n) => {
            if n <= 0xffff_ffffu64 {
                return Some(n as u32);
            }
        },
        None => {},
    }
    match text {
        Some(t) => {
            match crate::num::parse_u64(&chars_of(t)) {
                Some(v) => if v <= 0xffff_ffffu64 {
                    Some(v as u32)
                } else {
                    None
                },
                None => None,
            }
        },
        None => None,
    }
}

/// An installed GNOME extension with a newer version on the extensions site.
#[derive(Debug, Clone)]
pub struct ExtensionUpdate {
    pub uuid: String,
    pub name: String,
    pub installed_version: u32,
    pub available_version: u32,
    pub shell_version: String,
    pub icon_url: String,
}

/// What the site says of an extension.
#[derive(Debug, Clone)]
pub struct RemoteExtension {
    pub version: u32,
    pub name: String,
    pub icon: String,
}

pub open spec fn extension_icon_spec(icon: Seq<char>) -> Seq<char> {
    if icon.len() > 0 {
        if has_prefix(icon, "http"@) {
            icon
        } else {
            GNOME_EXTENSIONS_BASE@ + icon
        }
    } else {
        GNOME_EXTENSIONS_BASE@ + "/static/images/plugin.png"@
    }
}

/// The update an installed extension has: none when its uuid is empty or
/// the site's version is not newer; else the site's name (the installed
/// one when the site gives none) and icon (a default one when it gives
/// none).
pub fn extension_update(
    uuid: &str,
    installed_version: u32,
    installed_name: &str,
    remote: &RemoteExtension,
    shell_version: &str,
) -> (r: Option<ExtensionUpdate>)
    ensures
        match r {
            None => uuid@.len() == 0 || remote.version <= installed_version,
            Some(u) => {
                &&& uuid@.len() > 0 && remote.version > installed_version
                &&& u.uuid@ == uuid@ && u.installed_version == installed_version
                &&& u.available_version == remote.version && u.shell_version@ == shell_version@
                &&& u.name@ == (if remote.name@.len() > 0 {
                    remote.name@
                } else {
                    installed_name@
                })
                &&& u.icon_url@ == extension_icon_spec(remote.icon@)
            },
        },
{
    if uuid.unicode_len() == 0 || remote.version <= installed_version {
        return None;
    }
    let icon_url = if remote.icon.unicode_len() > 0 {
        absolute_gnome_extension_url(remote.icon.as_str())
    } else {
        let mut v = chars_of(GNOME_EXTENSIONS_BASE);
        crate::text::push_str(&mut v, "/static/images/plugin.png");
        string_of(&v)
    };
    let name = if remote.name.unicode_len() > 0 {
        remote.name.clone()
    } else {
        string_of_str(installed_name)
    };
    Some(ExtensionUpdate {
        uuid: string_of_str(uuid),
        name,
        installed_version,
        available_version: remote.version,
        shell_version: string_of_str(shell_version),
        icon_url,
    })
}

// ── Ordering extension updates by name ──────────────────────────────────────

/// Character-wise lexicographic order (that of `String`'s `Ord`).
pub open spec fn text_le(a: Seq<char>, b: Seq<char>) -> bool
    decreases a.len(),
{
    if a.len() == 0 {
        true
    } else if b.len() == 0 {
        false
    } else if a[0] < b[0] {
        true
    } else if a[0] > b[0] {
        false
    } else {
        text_le(a.drop_first(), b.drop_first())
    }
}

pub proof fn lemma_text_le_total(a: Seq<char>, b: Seq<char>)
    ensures
        text_le(a, b) || text_le(b, a),
    decreases a.len(),
{
    if a.len() > 0 && b.len() > 0 && a[0] == b[0] {
        lemma_text_le_total(a.drop_first(), b.drop_first());
    }
}

pub proof fn lemma_text_le_trans(a: Seq<char>, b: Seq<char>, c: Seq<char>)
    requires
        text_le(a, b),
        text_le(b, c),
    ensures
        text_le(a, c),
    decreases a.len(),
{
    if a.len() > 0 && b.len() > 0 && c.len() > 0 && a[0] == b[0] && b[0] == c[0] {
        lemma_text_le_trans(a.drop_first(), b.drop_first(), c.drop_first());
    }
}

/// The key extension updates are ordered by: the name in lower case.
pub open spec fn name_key(u: ExtensionUpdate) -> Seq<char> {
    crate::text::str_lowercase(u.name@)
}

pub open spec fn sorted_by_name(s: Seq<ExtensionUpdate>) -> bool {
    forall|i: int, j: int| 0 <= i < j < s.len() ==> text_le(name_key(#[trigger] s[i]), name_key(#[trigger] s[j]))
}

fn text_le_exec(a: &Vec<char>, b: &Vec<char>) -> (r: bool)
    ensures
        r == text_le(a@, b@),
{
    let mut i: usize = 0;
    assert(a@.skip(0) =~= a@ && b@.skip(0) =~= b@);
    while i < a.len() && i < b.len() && a[i] == b[i]
        invariant
            i <= a@.len(),
            i <= b@.len(),
            text_le(a@, b@) == text_le(a@.skip(i as int), b@.skip(i as int)),
        decreases a@.len() - i,
    {
        assert(a@.skip(i as int).drop_first() =~= a@.skip(i + 1));
        assert(b@.skip(i as int).drop_first() =~= b@.skip(i + 1));
        i = i + 1;
    }
    if i == a.len() {
        return true;
    }
    if i == b.len() {
        return false;
    }
    assert(a@.skip(i as int)[0] == a@[i as int]);
    assert(b@.skip(i as int)[0] == b@[i as int]);
    a[i] < b[i]
}

/// Where a key goes among keys in order so that equal keys keep their
/// order: after every key not greater than it.
pub fn insertion_point(keys: &Vec<Vec<char>>, key: &Vec<char>) -> (j: usize)
    ensures
        j <= keys@.len(),
        forall|q: int| 0 <= q < j ==> text_le((#[trigger] keys@[q])@, key@),
        j < keys@.len() ==> !text_le(keys@[j as int]@, key@),
{
    let mut j: usize = 0;
    while j < keys.len() && text_le_exec(&keys[j], key)
        invariant
            j <= keys@.len(),
            forall|q: int| 0 <= q < j ==> text_le((#[trigger] keys@[q])@, key@),
        decreases keys@.len() - j,
    {
        j = j + 1;
    }
    j
}

/// Extension updates ordered by name, ignoring case (equal names keep their
/// order): the same updates, sorted.
pub fn sort_by_name(updates: Vec<ExtensionUpdate>) -> (r: Vec<ExtensionUpdate>)
    ensures
        r@ == crate::order::stable_sorted(updates@, |u: ExtensionUpdate| name_key(u)),
        sorted_by_name(r@),
        r@.to_multiset() == updates@.to_multiset(),
{
    let mut keys: Vec<Vec<char>> = Vec::new();
    let mut i: usize = 0;
    while i < updates.len()
        invariant
            i <= updates@.len(),
            keys@.len() == i,
            forall|q: int| 0 <= q < i ==> (#[trigger] keys@[q])@ == name_key(updates@[q]),
        decreases updates@.len() - i,
    {
        keys.push(chars_of(crate::text::lowercase(updates[i].name.as_str()).as_str()));
        i = i + 1;
    }
    let r = crate::order::sort_keyed(updates, keys, Ghost(|u: ExtensionUpdate| name_key(u)));
    assert(sorted_by_name(r@)) by {
        assert forall|p: int, q: int| 0 <= p < q < r@.len() implies text_le(name_key(#[trigger] r@[p]), name_key(#[trigger] r@[q])) by {
            assert(crate::order::sorted_by(r@, |u: ExtensionUpdate| name_key(u)));
        }
    }
    r
}

} // verus!
