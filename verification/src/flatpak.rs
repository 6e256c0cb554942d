//! Flatpak: the `flatpak` command lines the store runs, the records it
//! keeps of apps, remotes and updates, and the reading of `flatpak`'s
//! tab-separated output.

use vstd::prelude::*;
use crate::appstream::{AppInfo, lookup};
use crate::appimage::clone_strings;
use crate::stream::{StreamCommand, arg_views, command, push_arg};
use crate::text::{
    chars_of, has_sub, lowercase, split, split_char, str_contains, str_eq, str_lowercase,
    string_of, string_of_str, trim, trim_vec, views,
};

verus! {

pub const FLATHUB_URL: &'static str = "https://dl.flathub.org/repo/flathub.flatpakrepo";

pub const COSMIC_REPO_URL: &'static str = "https://apt.pop-os.org/cosmic/cosmic.flatpakrepo";

/// Present only where the COSMIC welcome app ships; gates the COSMIC remote
/// buttons.
pub const COSMIC_WELCOME_BIN: &'static str = "/usr/libexec/software-center/rakuos-welcome-cosmic";

// ── Records ─────────────────────────────────────────────────────────────────

#[derive(Debug, Clone, Default)]
pub struct FlatpakApp {
    pub id: String,
    pub name: String,
    pub version: String,
    pub summary: String,
    pub origin: String,
    pub installed: bool,
    pub icon: String,
    pub icon_url: String,
    pub categories: Vec<String>,
    pub screenshots: Vec<String>,
    pub description: String,
    pub developer: String,
    pub url_homepage: String,
    pub url_bugtracker: String,
    pub url_donation: String,
    pub url_help: String,
    pub url_faq: String,
    pub url_vcs_browser: String,
    pub url_contribute: String,
    pub source: String,
}

#[derive(Debug, Clone, Default)]
pub struct FlatpakRemote {
    pub name: String,
    pub title: String,
    pub url: String,
    pub enabled: bool,
    pub system: bool,
}

/// One available Flatpak update, of an app or a runtime.
#[derive(Debug, Clone, Default)]
pub struct FlatpakUpdate {
    pub name: String,
    pub app_id: String,
    pub version: String,
    pub current_version: String,
    pub runtime: bool,
    /// A new runtime branch to install rather than an update of one.
    pub needs_install: bool,
    /// The remote to install from when `needs_install`.
    pub install_remote: String,
    /// "system" or "user".
    pub installation: String,
    pub icon_path: String,
    pub icon_url: String,
}

impl FlatpakApp {
    /// The store's view of a catalog entry as a (not installed) Flathub app.
    pub fn from_info(a: &AppInfo) -> (r: FlatpakApp)
        ensures
            r.id == a.id && r.name == a.name && r.version == a.version && r.summary == a.summary,
            r.origin@ == "flathub"@ && !r.installed,
            r.icon == a.icon && r.icon_url == a.icon_url,
            r.categories@ == a.categories@ && r.screenshots@ == a.screenshots@,
            r.description == a.description && r.developer == a.developer,
            r.url_homepage == a.url_homepage && r.url_bugtracker == a.url_bugtracker,
            r.url_donation == a.url_donation && r.url_help == a.url_help && r.url_faq == a.url_faq,
            r.url_vcs_browser == a.url_vcs_browser && r.url_contribute == a.url_contribute,
            r.source@ == "flatpak"@,
    {
        FlatpakApp {
            id: a.id.clone(),
            name: a.name.clone(),
            version: a.version.clone(),
            summary: a.summary.clone(),
            origin: string_of_str("flathub"),
            installed: false,
            icon: a.icon.clone(),
            icon_url: a.icon_url.clone(),
            categories: crate::appimage::clone_strings(&a.categories),
            screenshots: crate::appimage::clone_strings(&a.screenshots),
            description: a.description.clone(),
            developer: a.developer.clone(),
            url_homepage: a.url_homepage.clone(),
            url_bugtracker: a.url_bugtracker.clone(),
            url_donation: a.url_donation.clone(),
            url_help: a.url_help.clone(),
            url_faq: a.url_faq.clone(),
            url_vcs_browser: a.url_vcs_browser.clone(),
            url_contribute: a.url_contribute.clone(),
            source: string_of_str("flatpak"),
        }
    }
}

// ── Command lines ───────────────────────────────────────────────────────────

pub open spec fn scope_flag(system: bool) -> Seq<char> {
    if system {
        "--system"@
    } else {
        "--user"@
    }
}

/// The flag of an installation name: `--user` for "user", else `--system`.
pub open spec fn installation_flag(installation: Seq<char>) -> Seq<char> {
    if installation == "user"@ {
        "--user"@
    } else {
        "--system"@
    }
}

fn scope_str(system: bool) -> (r: &'static str)
    ensures
        r@ == scope_flag(system),
{
    if system {
        "--system"
    } else {
        "--user"
    }
}

fn installation_str(installation: &str) -> (r: &'static str)
    ensures
        r@ == installation_flag(installation@),
{
    if str_eq(installation, "user") {
        "--user"
    } else {
        "--system"
    }
}

/// Install a Flatpak from `remote` (Flathub when empty).
pub fn install_stream(app_id: &str, remote: &str, system: bool) -> (c: StreamCommand)
    ensures
        c.words() == ("flatpak"@, seq![
            "install"@,
            scope_flag(system),
            "--noninteractive"@,
            "-y"@,
            if remote@.len() == 0 {
                "flathub"@
            } else {
                remote@
            },
            app_id@,
        ]),
{
    let mut a: Vec<String> = Vec::new();
    push_arg(&mut a, "install");
    push_arg(&mut a, scope_str(system));
    push_arg(&mut a, "--noninteractive");
    push_arg(&mut a, "-y");
    if remote.is_empty() {
        push_arg(&mut a, "flathub");
    } else {
        push_arg(&mut a, remote);
    }
    push_arg(&mut a, app_id);
    let c = command("flatpak", a);
    assert(c.words().1 =~= seq![
        "install"@,
        scope_flag(system),
        "--noninteractive"@,
        "-y"@,
        if remote@.len() == 0 {
            "flathub"@
        } else {
            remote@
        },
        app_id@,
    ]);
    c
}

/// Uninstall a Flatpak.
pub fn uninstall_stream(app_id: &str, system: bool) -> (c: StreamCommand)
    ensures
        c.words() == ("flatpak"@, seq![
            "uninstall"@,
            scope_flag(system),
            "--noninteractive"@,
            "-y"@,
            app_id@,
        ]),
{
    let mut a: Vec<String> = Vec::new();
    push_arg(&mut a, "uninstall");
    push_arg(&mut a, scope_str(system));
    push_arg(&mut a, "--noninteractive");
    push_arg(&mut a, "-y");
    push_arg(&mut a, app_id);
    let c = command("flatpak", a);
    assert(c.words().1 =~= seq![
        "uninstall"@,
        scope_flag(system),
        "--noninteractive"@,
        "-y"@,
        app_id@,
    ]);
    c
}

/// Uninstall with `--force-remove` (runtimes and add-ons that others use).
pub fn force_uninstall_stream(app_id: &str, system: bool) -> (c: StreamCommand)
    ensures
        c.words() == ("flatpak"@, seq![
            "uninstall"@,
            scope_flag(system),
            "--noninteractive"@,
            "-y"@,
            "--force-remove"@,
            app_id@,
        ]),
{
    let mut a: Vec<String> = Vec::new();
    push_arg(&mut a, "uninstall");
    push_arg(&mut a, scope_str(system));
    push_arg(&mut a, "--noninteractive");
    push_arg(&mut a, "-y");
    push_arg(&mut a, "--force-remove");
    push_arg(&mut a, app_id);
    let c = command("flatpak", a);
    assert(c.words().1 =~= seq![
        "uninstall"@,
        scope_flag(system),
        "--noninteractive"@,
        "-y"@,
        "--force-remove"@,
        app_id@,
    ]);
    c
}

/// Update every Flatpak.
pub fn update_stream() -> (c: StreamCommand)
    ensures
        c.words() == ("flatpak"@, seq!["update"@, "--noninteractive"@, "-y"@]),
{
    let mut a: Vec<String> = Vec::new();
    push_arg(&mut a, "update");
    push_arg(&mut a, "--noninteractive");
    push_arg(&mut a, "-y");
    let c = command("flatpak", a);
    assert(c.words().1 =~= seq!["update"@, "--noninteractive"@, "-y"@]);
    c
}

/// Update one Flatpak app of an installation ("user" or "system").
pub fn update_single_stream(app_id: &str, installation: &str) -> (c: StreamCommand)
    ensures
        c.words() == ("flatpak"@, seq![
            "update"@,
            installation_flag(installation@),
            "--app"@,
            "--noninteractive"@,
            "-y"@,
            app_id@,
        ]),
{
    let mut a: Vec<String> = Vec::new();
    push_arg(&mut a, "update");
    push_arg(&mut a, installation_str(installation));
    push_arg(&mut a, "--app");
    push_arg(&mut a, "--noninteractive");
    push_arg(&mut a, "-y");
    push_arg(&mut a, app_id);
    let c = command("flatpak", a);
    assert(c.words().1 =~= seq![
        "update"@,
        installation_flag(installation@),
        "--app"@,
        "--noninteractive"@,
        "-y"@,
        app_id@,
    ]);
    c
}

/// Remove unused runtimes and extensions: the user's first, then the
/// system's through `pkexec`; the two outputs are streamed one after the
/// other.
pub fn clean_unused_stream() -> (c: Vec<StreamCommand>)
    ensures
        c@.len() == 2,
        c@[0].words() == ("flatpak"@, seq![
            "uninstall"@,
            "--unused"@,
            "-y"@,
            "--noninteractive"@,
            "--user"@,
        ]),
        c@[1].words() == ("pkexec"@, seq![
            "flatpak"@,
            "uninstall"@,
            "--unused"@,
            "-y"@,
            "--noninteractive"@,
            "--system"@,
        ]),
{
    let mut a: Vec<String> = Vec::new();
    push_arg(&mut a, "uninstall");
    push_arg(&mut a, "--unused");
    push_arg(&mut a, "-y");
    push_arg(&mut a, "--noninteractive");
    push_arg(&mut a, "--user");
    let user = command("flatpak", a);
    assert(user.words().1 =~= seq![
        "uninstall"@,
        "--unused"@,
        "-y"@,
        "--noninteractive"@,
        "--user"@,
    ]);
    let mut b: Vec<String> = Vec::new();
    push_arg(&mut b, "flatpak");
    push_arg(&mut b, "uninstall");
    push_arg(&mut b, "--unused");
    push_arg(&mut b, "-y");
    push_arg(&mut b, "--noninteractive");
    push_arg(&mut b, "--system");
    let system = command("pkexec", b);
    assert(system.words().1 =~= seq![
        "flatpak"@,
        "uninstall"@,
        "--unused"@,
        "-y"@,
        "--noninteractive"@,
        "--system"@,
    ]);
    let mut v: Vec<StreamCommand> = Vec::new();
    v.push(user);
    v.push(system);
    v
}

/// Update an installed runtime branch: `app_id//branch`.
pub fn update_runtime_stream(app_id: &str, branch: &str, installation: &str) -> (c: StreamCommand)
    ensures
        c.words() == ("flatpak"@, seq![
            "update"@,
            installation_flag(installation@),
            "--noninteractive"@,
            "-y"@,
            app_id@ + "//"@ + branch@,
        ]),
{
    let mut r = chars_of(app_id);
    crate::text::push_str(&mut r, "//");
    crate::text::push_str(&mut r, branch);
    let ref_spec = string_of(&r);
    let mut a: Vec<String> = Vec::new();
    push_arg(&mut a, "update");
    push_arg(&mut a, installation_str(installation));
    push_arg(&mut a, "--noninteractive");
    push_arg(&mut a, "-y");
    push_arg(&mut a, ref_spec.as_str());
    let c = command("flatpak", a);
    assert(c.words().1 =~= seq![
        "update"@,
        installation_flag(installation@),
        "--noninteractive"@,
        "-y"@,
        app_id@ + "//"@ + branch@,
    ]);
    c
}

/// Install a local `.flatpak` bundle system-wide (through `pkexec`).
pub fn install_local_bundle_stream(path: &str) -> (c: StreamCommand)
    ensures
        c.words() == ("pkexec"@, seq![
            "flatpak"@,
            "install"@,
            "--bundle"@,
            "--noninteractive"@,
            "-y"@,
            path@,
        ]),
{
    let mut a: Vec<String> = Vec::new();
    push_arg(&mut a, "flatpak");
    push_arg(&mut a, "install");
    push_arg(&mut a, "--bundle");
    push_arg(&mut a, "--noninteractive");
    push_arg(&mut a, "-y");
    push_arg(&mut a, path);
    let c = command("pkexec", a);
    assert(c.words().1 =~= seq![
        "flatpak"@,
        "install"@,
        "--bundle"@,
        "--noninteractive"@,
        "-y"@,
        path@,
    ]);
    c
}

/// Install from a `.flatpakref` file system-wide (through `pkexec`).
pub fn install_flatpakref_stream(path: &str) -> (c: StreamCommand)
    ensures
        c.words() == ("pkexec"@, seq![
            "flatpak"@,
            "install"@,
            "--from"@,
            "--noninteractive"@,
            "-y"@,
            path@,
        ]),
{
    let mut a: Vec<String> = Vec::new();
    push_arg(&mut a, "flatpak");
    push_arg(&mut a, "install");
    push_arg(&mut a, "--from");
    push_arg(&mut a, "--noninteractive");
    push_arg(&mut a, "-y");
    push_arg(&mut a, path);
    let c = command("pkexec", a);
    assert(c.words().1 =~= seq![
        "flatpak"@,
        "install"@,
        "--from"@,
        "--noninteractive"@,
        "-y"@,
        path@,
    ]);
    c
}


// ── Remotes ─────────────────────────────────────────────────────────────────

pub open spec fn first_named(remotes: Seq<FlatpakRemote>, name: Seq<char>, i: int) -> Option<int>
    decreases remotes.len() - i,
{
    if i < 0 || i >= remotes.len() {
        None
    } else if remotes[i].name@ == name {
        Some(i)
    } else {
        first_named(remotes, name, i + 1)
    }
}

/// Whether the first remote called `name` is user-scoped (false when there
/// is none).
pub fn is_user_remote(name: &str, remotes: &Vec<FlatpakRemote>) -> (r: bool)
    ensures
        r == match first_named(remotes@, name@, 0) {
            Some(i) => !remotes@[i].system,
            None => false,
        },
{
    let mut i: usize = 0;
    while i < remotes.len()
        invariant
            i <= remotes@.len(),
            first_named(remotes@, name@, 0) == first_named(remotes@, name@, i as int),
        decreases remotes@.len() - i,
    {
        if str_eq(remotes[i].name.as_str(), name) {
            return !remotes[i].system;
        }
        i = i + 1;
    }
    false
}

pub open spec fn is_flathub(r: FlatpakRemote) -> bool {
    has_sub(str_lowercase(r.name@), "flathub"@) || has_sub(str_lowercase(r.url@), "flathub"@)
}

pub open spec fn is_cosmic(r: FlatpakRemote) -> bool {
    has_sub(str_lowercase(r.name@), "cosmic"@) || has_sub(
        str_lowercase(r.url@),
        "apt.pop-os.org/cosmic"@,
    )
}

fn remote_is_flathub(r: &FlatpakRemote) -> (b: bool)
    ensures
        b == is_flathub(*r),
{
    str_contains(lowercase(r.name.as_str()).as_str(), "flathub") || str_contains(
        lowercase(r.url.as_str()).as_str(),
        "flathub",
    )
}

fn remote_is_cosmic(r: &FlatpakRemote) -> (b: bool)
    ensures
        b == is_cosmic(*r),
{
    str_contains(lowercase(r.name.as_str()).as_str(), "cosmic") || str_contains(
        lowercase(r.url.as_str()).as_str(),
        "apt.pop-os.org/cosmic",
    )
}

/// Whether Flathub is configured (in either scope).
pub fn has_flathub(remotes: &Vec<FlatpakRemote>) -> (r: bool)
    ensures
        r == exists|i: int| 0 <= i < remotes@.len() && is_flathub(#[trigger] remotes@[i]),
{
    let mut i: usize = 0;
    while i < remotes.len()
        invariant
            i <= remotes@.len(),
            forall|j: int| 0 <= j < i ==> !is_flathub(#[trigger] remotes@[j]),
        decreases remotes@.len() - i,
    {
        if remote_is_flathub(&remotes[i]) {
            return true;
        }
        i = i + 1;
    }
    false
}

/// Whether Flathub is configured in the given scope.
pub fn has_flathub_scoped(remotes: &Vec<FlatpakRemote>, system: bool) -> (r: bool)
    ensures
        r == exists|i: int|
            0 <= i < remotes@.len() && (#[trigger] remotes@[i]).system == system && is_flathub(
                remotes@[i],
            ),
{
    let mut i: usize = 0;
    while i < remotes.len()
        invariant
            i <= remotes@.len(),
            forall|j: int|
                0 <= j < i ==> !((#[trigger] remotes@[j]).system == system && is_flathub(
                    remotes@[j],
                )),
        decreases remotes@.len() - i,
    {
        if remotes[i].system == system && remote_is_flathub(&remotes[i]) {
            return true;
        }
        i = i + 1;
    }
    false
}

/// Whether the COSMIC remote is configured in the given scope.
pub fn has_cosmic_remote_scoped(remotes: &Vec<FlatpakRemote>, system: bool) -> (r: bool)
    ensures
        r == exists|i: int|
            0 <= i < remotes@.len() && (#[trigger] remotes@[i]).system == system && is_cosmic(
                remotes@[i],
            ),
{
    let mut i: usize = 0;
    while i < remotes.len()
        invariant
            i <= remotes@.len(),
            forall|j: int|
                0 <= j < i ==> !((#[trigger] remotes@[j]).system == system && is_cosmic(
                    remotes@[j],
                )),
        decreases remotes@.len() - i,
    {
        if remotes[i].system == system && remote_is_cosmic(&remotes[i]) {
            return true;
        }
        i = i + 1;
    }
    false
}

/// The command that adds a remote (through `pkexec` for the system scope).
pub open spec fn remote_add_words(name: Seq<char>, url: Seq<char>, system: bool) -> (
    Seq<char>,
    Seq<Seq<char>>,
) {
    let tail = seq!["remote-add"@, scope_flag(system), "--if-not-exists"@, name, url];
    if system {
        ("pkexec"@, seq!["flatpak"@] + tail)
    } else {
        ("flatpak"@, tail)
    }
}

/// The command that adds the remote `name` at `url`.
pub fn add_remote(name: &str, url: &str, system: bool) -> (c: StreamCommand)
    ensures
        c.words() == remote_add_words(name@, url@, system),
{
    let mut a: Vec<String> = Vec::new();
    if system {
        push_arg(&mut a, "flatpak");
    }
    push_arg(&mut a, "remote-add");
    push_arg(&mut a, scope_str(system));
    push_arg(&mut a, "--if-not-exists");
    push_arg(&mut a, name);
    push_arg(&mut a, url);
    let c = command(if system { "pkexec" } else { "flatpak" }, a);
    assert(c.words().1 =~= remote_add_words(name@, url@, system).1);
    c
}

/// The command that adds Flathub.
pub fn add_flathub(system: bool) -> (c: StreamCommand)
    ensures
        c.words() == remote_add_words("flathub"@, FLATHUB_URL@, system),
{
    add_remote("flathub", FLATHUB_URL, system)
}

/// The command that adds the COSMIC remote.
pub fn add_cosmic_remote(system: bool) -> (c: StreamCommand)
    ensures
        c.words() == remote_add_words("cosmic"@, COSMIC_REPO_URL@, system),
{
    add_remote("cosmic", COSMIC_REPO_URL, system)
}

/// The command that fetches a remote's AppStream data right away.
pub fn update_appstream_command(name: &str, system: bool) -> (c: StreamCommand)
    ensures
        c.words() == ({
            let tail = seq!["update"@, "--appstream"@, scope_flag(system), "-y"@, name@];
            if system {
                ("pkexec"@, seq!["flatpak"@] + tail)
            } else {
                ("flatpak"@, tail)
            }
        }),
{
    let mut a: Vec<String> = Vec::new();
    if system {
        push_arg(&mut a, "flatpak");
    }
    push_arg(&mut a, "update");
    push_arg(&mut a, "--appstream");
    push_arg(&mut a, scope_str(system));
    push_arg(&mut a, "-y");
    push_arg(&mut a, name);
    let c = command(if system { "pkexec" } else { "flatpak" }, a);
    assert(c.words().1 =~= (if system {
        seq!["flatpak"@] + seq!["update"@, "--appstream"@, scope_flag(system), "-y"@, name@]
    } else {
        seq!["update"@, "--appstream"@, scope_flag(system), "-y"@, name@]
    }));
    c
}

/// The command that deletes a remote.
pub fn remove_remote(name: &str, system: bool) -> (c: StreamCommand)
    ensures
        c.words() == ({
            let tail = seq!["remote-delete"@, scope_flag(system), "--force"@, name@];
            if system {
                ("pkexec"@, seq!["flatpak"@] + tail)
            } else {
                ("flatpak"@, tail)
            }
        }),
{
    let mut a: Vec<String> = Vec::new();
    if system {
        push_arg(&mut a, "flatpak");
    }
    push_arg(&mut a, "remote-delete");
    push_arg(&mut a, scope_str(system));
    push_arg(&mut a, "--force");
    push_arg(&mut a, name);
    let c = command(if system { "pkexec" } else { "flatpak" }, a);
    assert(c.words().1 =~= (if system {
        seq!["flatpak"@] + seq!["remote-delete"@, scope_flag(system), "--force"@, name@]
    } else {
        seq!["remote-delete"@, scope_flag(system), "--force"@, name@]
    }));
    c
}

/// The command that enables or disables a remote.
pub fn set_remote_enabled(name: &str, enabled: bool, system: bool) -> (c: StreamCommand)
    ensures
        c.words() == ({
            let flag = if enabled {
                "--enable"@
            } else {
                "--disable"@
            };
            let tail = seq!["remote-modify"@, scope_flag(system), flag, name@];
            if system {
                ("pkexec"@, seq!["flatpak"@] + tail)
            } else {
                ("flatpak"@, tail)
            }
        }),
{
    let mut a: Vec<String> = Vec::new();
    if system {
        push_arg(&mut a, "flatpak");
    }
    push_arg(&mut a, "remote-modify");
    push_arg(&mut a, scope_str(system));
    push_arg(&mut a, if enabled { "--enable" } else { "--disable" });
    push_arg(&mut a, name);
    let c = command(if system { "pkexec" } else { "flatpak" }, a);
    let ghost flag = if enabled {
        "--enable"@
    } else {
        "--disable"@
    };
    assert(c.words().1 =~= (if system {
        seq!["flatpak"@] + seq!["remote-modify"@, scope_flag(system), flag, name@]
    } else {
        seq!["remote-modify"@, scope_flag(system), flag, name@]
    }));
    c
}

/// The answer of a remote operation: the success message, or the command's
/// error output trimmed.
pub fn remote_outcome(success: bool, stderr: &str, ok_message: String) -> (r: (bool, String))
    ensures
        r.0 == success,
        success ==> r.1 == ok_message,
        !success ==> r.1@ == trim(stderr@),
{
    if success {
        (true, ok_message)
    } else {
        (false, string_of(&trim_vec(&chars_of(stderr))))
    }
}

/// `Remote '<name>' <verb>.`
pub fn remote_message(name: &str, verb: &str) -> (r: String)
    ensures
        r@ == "Remote '"@ + name@ + "' "@ + verb@ + "."@,
{
    let mut out = chars_of("Remote '");
    crate::text::push_str(&mut out, name);
    crate::text::push_str(&mut out, "' ");
    crate::text::push_str(&mut out, verb);
    crate::text::push_str(&mut out, ".");
    string_of(&out)
}


// ── Reading `flatpak remotes` ───────────────────────────────────────────────

pub open spec fn col(parts: Seq<Seq<char>>, k: int) -> Seq<char> {
    if 0 <= k < parts.len() {
        trim(parts[k])
    } else {
        Seq::empty()
    }
}

pub open spec fn remote_line_skipped(line: Seq<char>) -> bool {
    trim(line).len() == 0 || crate::text::has_prefix(line, "Name"@)
}

pub open spec fn remote_line_name(line: Seq<char>) -> Seq<char> {
    trim(split_char(line, '\t')[0])
}

/// The lines of `flatpak remotes` output that give a remote: not blank, not
/// the header, with a name not given by an earlier line.
pub open spec fn remote_lines(lines: Seq<Seq<char>>) -> Seq<Seq<char>>
    decreases lines.len(),
{
    if lines.len() == 0 {
        Seq::empty()
    } else {
        let init = remote_lines(lines.drop_last());
        let line = lines.last();
        let name = remote_line_name(line);
        if remote_line_skipped(line) || name.len() == 0 || init.map_values(
            |l: Seq<char>| remote_line_name(l),
        ).contains(name) {
            init
        } else {
            init.push(line)
        }
    }
}

/// The remote a line of `flatpak remotes --columns=name,title,url,options`
/// gives; with `title_fallback`, an empty title is replaced by the name.
pub open spec fn remote_from_line(
    r: FlatpakRemote,
    line: Seq<char>,
    system: bool,
    title_fallback: bool,
) -> bool {
    let parts = split_char(line, '\t');
    let title = col(parts, 1);
    let options = if parts.len() > 3 {
        str_lowercase(trim(parts[3]))
    } else {
        Seq::empty()
    };
    &&& r.name@ == trim(parts[0])
    &&& r.title@ == (if title_fallback && title.len() == 0 {
        trim(parts[0])
    } else {
        title
    })
    &&& r.url@ == col(parts, 2)
    &&& r.enabled == !has_sub(options, "disabled"@)
    &&& r.system == system
}

fn column(parts: &Vec<Vec<char>>, k: usize) -> (r: Vec<char>)
    ensures
        r@ == col(views(parts@), k as int),
{
    if k < parts.len() {
        trim_vec(&parts[k])
    } else {
        Vec::new()
    }
}

/// The remotes listed in the output of `flatpak remotes` for one scope.
pub fn parse_remotes(text: &str, system: bool, title_fallback: bool) -> (r: Vec<FlatpakRemote>)
    ensures
        r@.len() == remote_lines(crate::text::str_lines(text@)).len(),
        forall|k: int|
            0 <= k < r@.len() ==> remote_from_line(
                #[trigger] r@[k],
                remote_lines(crate::text::str_lines(text@))[k],
                system,
                title_fallback,
            ),
{
    let lines = crate::text::lines(&chars_of(text));
    let ghost ls = views(lines@);
    let mut out: Vec<FlatpakRemote> = Vec::new();
    let mut names: Vec<Vec<char>> = Vec::new();
    let mut i: usize = 0;
    let header = chars_of("Name");
    while i < lines.len()
        invariant
            i <= lines@.len(),
            ls == views(lines@),
            ls == crate::text::str_lines(text@),
            header@ == "Name"@,
            out@.len() == remote_lines(ls.subrange(0, i as int)).len(),
            views(names@) == remote_lines(ls.subrange(0, i as int)).map_values(
                |l: Seq<char>| remote_line_name(l),
            ),
            forall|k: int|
                0 <= k < out@.len() ==> remote_from_line(
                    #[trigger] out@[k],
                    remote_lines(ls.subrange(0, i as int))[k],
                    system,
                    title_fallback,
                ),
        decreases lines@.len() - i,
    {
        let ghost pre = ls.subrange(0, i + 1);
        assert(pre.drop_last() =~= ls.subrange(0, i as int));
        assert(pre.last() == lines@[i as int]@);
        let line = &lines[i];
        let t = trim_vec(line);
        let parts = split(line, '\t');
        let ghost ps = views(parts@);
        assert(ps.len() >= 1);
        let name = trim_vec(&parts[0]);
        assert(name@ == remote_line_name(line@));
        let skipped = t.len() == 0 || crate::text::starts_with(line, &header);
        let mut seen = false;
        let mut j: usize = 0;
        while j < names.len()
            invariant
                j <= names@.len(),
                seen == exists|q: int| 0 <= q < j && (#[trigger] names@[q])@ == name@,
            decreases names@.len() - j,
        {
            if crate::text::eq(&names[j], &name) {
                seen = true;
            }
            j = j + 1;
        }
        proof {
            let nm = remote_lines(ls.subrange(0, i as int)).map_values(
                |l: Seq<char>| remote_line_name(l),
            );
            if seen {
                let q = choose|q: int| 0 <= q < names@.len() && (#[trigger] names@[q])@ == name@;
                assert(nm[q] == name@);
                assert(nm.contains(name@));
            } else {
                if nm.contains(name@) {
                    let q = choose|q: int| 0 <= q < nm.len() && nm[q] == name@;
                    assert(names@[q]@ == name@);
                }
            }
        }
        if !skipped && name.len() > 0 && !seen {
            let title0 = column(&parts, 1);
            let url = column(&parts, 2);
            let options = if parts.len() > 3 {
                lowercase(string_of(&trim_vec(&parts[3])).as_str())
            } else {
                String::new()
            };
            let enabled = !str_contains(options.as_str(), "disabled");
            let title = if title_fallback && title0.len() == 0 {
                string_of(&name)
            } else {
                string_of(&title0)
            };
            let ghost nm0 = views(names@);
            names.push(name);
            assert(views(names@) =~= nm0.push(name@));
            let r = FlatpakRemote { name: string_of(&names[names.len() - 1]), title, url: string_of(&url), enabled, system };
            out.push(r);
            assert(remote_lines(pre) == remote_lines(ls.subrange(0, i as int)).push(line@));
            assert(remote_lines(pre).map_values(|l: Seq<char>| remote_line_name(l)) =~= views(
                names@,
            ));
        } else {
            assert(remote_lines(pre) == remote_lines(ls.subrange(0, i as int)));
        }
        i = i + 1;
    }
    assert(ls.subrange(0, lines@.len() as int) =~= ls);
    out
}


/// Every configured remote: those of the system scope, then those of the
/// user scope (from `flatpak remotes --system` / `--user` output, names
/// filling empty titles); when neither lists any, those of the query
/// without a scope (`fallback`, when it was made), taken as system remotes.
pub fn get_remotes(system_text: &str, user_text: &str, fallback: Option<&str>) -> (r: Vec<FlatpakRemote>)
    ensures
        ({
            let sl = remote_lines(crate::text::str_lines(system_text@));
            let ul = remote_lines(crate::text::str_lines(user_text@));
            if sl.len() + ul.len() > 0 {
                &&& r@.len() == sl.len() + ul.len()
                &&& forall|k: int| 0 <= k < sl.len() ==> remote_from_line(#[trigger] r@[k], sl[k], true, true)
                &&& forall|k: int| sl.len() <= k < r@.len() ==> remote_from_line(
                    #[trigger] r@[k],
                    ul[k - sl.len()],
                    false,
                    true,
                )
            } else {
                match fallback {
                    Some(t) => {
                        let fl = remote_lines(crate::text::str_lines(t@));
                        &&& r@.len() == fl.len()
                        &&& forall|k: int| 0 <= k < fl.len() ==> remote_from_line(#[trigger] r@[k], fl[k], true, false)
                    },
                    None => r@.len() == 0,
                }
            }
        }),
{
    let mut out = parse_remotes(system_text, true, true);
    let ghost sys = out@;
    let mut user = parse_remotes(user_text, false, true);
    let ghost us = user@;
    let n = out.len();
    out.append(&mut user);
    assert(out@ == sys + us);
    if out.len() == 0 {
        match fallback {
            Some(t) => {
                return parse_remotes(t, true, false);
            },
            None => {},
        }
    }
    proof {
        let sl = remote_lines(crate::text::str_lines(system_text@));
        assert forall|k: int| sl.len() <= k < out@.len() implies remote_from_line(
            #[trigger] out@[k],
            remote_lines(crate::text::str_lines(user_text@))[k - sl.len()],
            false,
            true,
        ) by {
            assert(out@[k] == us[k - n]);
        }
    }
    out
}

// ── Reading `flatpak list` and `flatpak remote-ls --updates` ─────────────────

/// `(application, version)` of each line of
/// `flatpak list --columns=application,version`.
pub open spec fn version_pair(line: Seq<char>) -> (Seq<char>, Seq<char>) {
    let cols = crate::text::splitn_char(line, '\t', 2);
    (trim(cols[0]), col(cols, 1))
}

pub fn parse_installed_versions(text: &str) -> (r: Vec<(String, String)>)
    ensures
        r@.len() == crate::text::str_lines(text@).len(),
        forall|k: int|
            0 <= k < r@.len() ==> ((#[trigger] r@[k]).0@, r@[k].1@) == version_pair(
                crate::text::str_lines(text@)[k],
            ),
{
    let lines = crate::text::lines(&chars_of(text));
    let ghost ls = views(lines@);
    let mut out: Vec<(String, String)> = Vec::new();
    let mut i: usize = 0;
    while i < lines.len()
        invariant
            i <= lines@.len(),
            ls == views(lines@),
            ls == crate::text::str_lines(text@),
            out@.len() == i,
            forall|k: int|
                0 <= k < i ==> ((#[trigger] out@[k]).0@, out@[k].1@) == version_pair(ls[k]),
        decreases lines@.len() - i,
    {
        let cols = crate::text::splitn(&lines[i], '\t', 2);
        let id = trim_vec(&cols[0]);
        let v = column(&cols, 1);
        out.push((string_of(&id), string_of(&v)));
        i = i + 1;
    }
    out
}

/// The version recorded for `id` by the last line that names it (empty
/// when none does).
pub open spec fn installed_version(pairs: Seq<(Seq<char>, Seq<char>)>, id: Seq<char>) -> Seq<char>
    decreases pairs.len(),
{
    if pairs.len() == 0 {
        Seq::empty()
    } else if pairs.last().0 == id {
        pairs.last().1
    } else {
        installed_version(pairs.drop_last(), id)
    }
}

pub open spec fn pairs_view(p: Seq<(String, String)>) -> Seq<(Seq<char>, Seq<char>)> {
    p.map_values(|e: (String, String)| (e.0@, e.1@))
}

pub fn lookup_version(pairs: &Vec<(String, String)>, id: &str) -> (r: String)
    ensures
        r@ == installed_version(pairs_view(pairs@), id@),
{
    let ghost all = pairs_view(pairs@);
    let mut k: usize = pairs.len();
    assert(all.subrange(0, k as int) =~= all);
    while k > 0
        invariant
            k <= pairs@.len(),
            all == pairs_view(pairs@),
            installed_version(all.subrange(0, k as int), id@) == installed_version(all, id@),
        decreases k,
    {
        let ghost pre = all.subrange(0, k as int);
        assert(pre.drop_last() =~= all.subrange(0, k - 1));
        if str_eq(pairs[k - 1].0.as_str(), id) {
            return pairs[k - 1].1.clone();
        }
        k = k - 1;
    }
    String::new()
}

/// Whether a line of `flatpak remote-ls --updates
/// --columns=application,branch,version,options` names an update.
pub open spec fn update_line_ok(line: Seq<char>) -> bool {
    let cols = crate::text::splitn_char(line, '\t', 4);
    cols.len() >= 3 && trim(cols[0]).len() > 0
}

pub open spec fn update_lines(lines: Seq<Seq<char>>) -> Seq<Seq<char>>
    decreases lines.len(),
{
    if lines.len() == 0 {
        Seq::empty()
    } else if update_line_ok(lines.last()) {
        update_lines(lines.drop_last()).push(lines.last())
    } else {
        update_lines(lines.drop_last())
    }
}

/// The update a line names, in installation `scope`, given the installed
/// versions (icons are filled in later).
pub open spec fn update_from_line(
    u: FlatpakUpdate,
    line: Seq<char>,
    installed: Seq<(Seq<char>, Seq<char>)>,
    scope: Seq<char>,
) -> bool {
    let cols = crate::text::splitn_char(line, '\t', 4);
    let id = trim(cols[0]);
    let options = if cols.len() > 3 {
        str_lowercase(cols[3])
    } else {
        str_lowercase(Seq::empty())
    };
    &&& u.app_id@ == id
    &&& u.name@ == crate::text::after_last(id, '.')
    &&& u.version@ == trim(cols[2])
    &&& u.current_version@ == installed_version(installed, id)
    &&& u.runtime == has_sub(options, "runtime"@)
    &&& !u.needs_install
    &&& u.install_remote@.len() == 0
    &&& u.installation@ == scope
    &&& u.icon_path@.len() == 0
    &&& u.icon_url@.len() == 0
}

/// The updates listed by `flatpak remote-ls --updates` for one installation.
pub fn parse_update_rows(text: &str, installed: &Vec<(String, String)>, scope: &str) -> (r: Vec<
    FlatpakUpdate,
>)
    ensures
        r@.len() == update_lines(crate::text::str_lines(text@)).len(),
        forall|k: int|
            0 <= k < r@.len() ==> update_from_line(
                #[trigger] r@[k],
                update_lines(crate::text::str_lines(text@))[k],
                pairs_view(installed@),
                scope@,
            ),
{
    let lines = crate::text::lines(&chars_of(text));
    let ghost ls = views(lines@);
    let mut out: Vec<FlatpakUpdate> = Vec::new();
    let mut i: usize = 0;
    while i < lines.len()
        invariant
            i <= lines@.len(),
            ls == views(lines@),
            ls == crate::text::str_lines(text@),
            out@.len() == update_lines(ls.subrange(0, i as int)).len(),
            forall|k: int|
                0 <= k < out@.len() ==> update_from_line(
                    #[trigger] out@[k],
                    update_lines(ls.subrange(0, i as int))[k],
                    pairs_view(installed@),
                    scope@,
                ),
        decreases lines@.len() - i,
    {
        let ghost pre = ls.subrange(0, i + 1);
        assert(pre.drop_last() =~= ls.subrange(0, i as int));
        assert(pre.last() == lines@[i as int]@);
        let cols = crate::text::splitn(&lines[i], '\t', 4);
        let ghost cs = views(cols@);
        if cols.len() >= 3 {
            let id = trim_vec(&cols[0]);
            if id.len() > 0 {
                let version = trim_vec(&cols[2]);
                let options = if cols.len() > 3 {
                    lowercase(string_of(&cols[3]).as_str())
                } else {
                    lowercase("")
                };
                proof {
                    reveal_strlit("");
                    assert(""@ =~= Seq::<char>::empty());
                }
                let runtime = str_contains(options.as_str(), "runtime");
                let name = crate::text::after_last_vec(&id, '.');
                let id_s = string_of(&id);
                let current = lookup_version(installed, id_s.as_str());
                out.push(
                    FlatpakUpdate {
                        name: string_of(&name),
                        app_id: id_s,
                        version: string_of(&version),
                        current_version: current,
                        runtime,
                        needs_install: false,
                        install_remote: String::new(),
                        installation: string_of_str(scope),
                        icon_path: String::new(),
                        icon_url: String::new(),
                    },
                );
                assert(update_lines(pre) == update_lines(ls.subrange(0, i as int)).push(
                    lines@[i as int]@,
                ));
            } else {
                assert(update_lines(pre) == update_lines(ls.subrange(0, i as int)));
            }
        } else {
            assert(update_lines(pre) == update_lines(ls.subrange(0, i as int)));
        }
        i = i + 1;
    }
    assert(ls.subrange(0, lines@.len() as int) =~= ls);
    out
}

/// The first Flatpak record of the catalog (in its order) whose id, or
/// whose id without `.desktop`, is `app_id`.
pub open spec fn flatpak_meta_from(
    e: Seq<(Seq<char>, AppInfo)>,
    app_id: Seq<char>,
    j: int,
) -> Option<AppInfo>
    decreases e.len() - j,
{
    if j < 0 || j >= e.len() {
        None
    } else if e[j].1.source@ == "flatpak"@ && (e[j].1.id@ == app_id
        || crate::text::trim_end_str(e[j].1.id@, ".desktop"@) == app_id) {
        Some(e[j].1)
    } else {
        flatpak_meta_from(e, app_id, j + 1)
    }
}

fn find_flatpak_meta(cat: &crate::appstream::Catalog, id: &str) -> (r: Option<usize>)
    ensures
        match r {
            Some(j) => j < cat.entries@.len() && flatpak_meta_from(cat.view_entries(), id@, 0) == Some(
                cat.view_entries()[j as int].1,
            ),
            None => flatpak_meta_from(cat.view_entries(), id@, 0) is None,
        },
{
    let ghost e = cat.view_entries();
    let mut j: usize = 0;
    proof {
        reveal_strlit("flatpak");
    }
    while j < cat.entries.len()
        invariant
            j <= cat.entries@.len(),
            e == cat.view_entries(),
            flatpak_meta_from(e, id@, 0) == flatpak_meta_from(e, id@, j as int),
        decreases cat.entries@.len() - j,
    {
        let a = &cat.entries[j].1;
        assert(e[j as int].1 == *a);
        if str_eq(a.source.as_str(), "flatpak") {
            let bare = crate::text::trim_end_str_vec(&chars_of(a.id.as_str()), &chars_of(".desktop"));
            if str_eq(a.id.as_str(), id) || crate::text::eq(&bare, &chars_of(id)) {
                return Some(j);
            }
        }
        j = j + 1;
    }
    None
}

impl FlatpakUpdate {
    /// A copy of the record.
    pub fn clone_update(&self) -> (r: FlatpakUpdate)
        ensures
            r == *self,
    {
        FlatpakUpdate {
            name: self.name.clone(),
            app_id: self.app_id.clone(),
            version: self.version.clone(),
            current_version: self.current_version.clone(),
            runtime: self.runtime,
            needs_install: self.needs_install,
            install_remote: self.install_remote.clone(),
            installation: self.installation.clone(),
            icon_path: self.icon_path.clone(),
            icon_url: self.icon_url.clone(),
        }
    }
}

/// Give each update the icon of its app's Flatpak record (see
/// `flatpak_meta_from`); updates without one get empty icon fields.
pub fn attach_icons(updates: &mut Vec<FlatpakUpdate>, cat: &crate::appstream::Catalog)
    ensures
        final(updates)@.len() == old(updates)@.len(),
        forall|k: int| 0 <= k < final(updates)@.len() ==> {
            let u = #[trigger] final(updates)@[k];
            let o = old(updates)@[k];
            &&& u.name == o.name && u.app_id == o.app_id && u.version == o.version
            &&& u.current_version == o.current_version && u.runtime == o.runtime
            &&& u.needs_install == o.needs_install && u.install_remote == o.install_remote
            &&& u.installation == o.installation
            &&& match flatpak_meta_from(cat.view_entries(), o.app_id@, 0) {
                Some(a) => u.icon_path == a.icon_path && u.icon_url == a.icon_url,
                None => u.icon_path@.len() == 0 && u.icon_url@.len() == 0,
            }
        },
{
    let ghost e = cat.view_entries();
    let ghost orig = updates@;
    let mut k: usize = 0;
    while k < updates.len()
        invariant
            k <= updates@.len(),
            updates@.len() == orig.len(),
            e == cat.view_entries(),
            forall|q: int| k <= q < orig.len() ==> #[trigger] updates@[q] == orig[q],
            forall|q: int| 0 <= q < k ==> {
                let u = #[trigger] updates@[q];
                let o = orig[q];
                &&& u.name == o.name && u.app_id == o.app_id && u.version == o.version
                &&& u.current_version == o.current_version && u.runtime == o.runtime
                &&& u.needs_install == o.needs_install && u.install_remote == o.install_remote
                &&& u.installation == o.installation
                &&& match flatpak_meta_from(e, o.app_id@, 0) {
                    Some(a) => u.icon_path == a.icon_path && u.icon_url == a.icon_url,
                    None => u.icon_path@.len() == 0 && u.icon_url@.len() == 0,
                }
            },
        decreases updates@.len() - k,
    {
        let id = updates[k].app_id.clone();
        let found = find_flatpak_meta(cat, id.as_str());
        let (ip, iu) = match found {
            Some(j) => {
                assert(cat.view_entries()[j as int].1 == cat.entries@[j as int].1);
                (cat.entries[j].1.icon_path.clone(), cat.entries[j].1.icon_url.clone())
            },
            None => (String::new(), String::new()),
        };
        let ghost before = updates@;
        let mut u = updates[k].clone_update();
        u.icon_path = ip;
        u.icon_url = iu;
        updates.set(k, u);
        assert forall|q: int| k < q < orig.len() implies #[trigger] updates@[q] == orig[q] by {
            assert(updates@[q] == before[q]);
        }
        k = k + 1;
    }
}

// ── Reading `flatpak` listings ──────────────────────────────────────────────

/// A Flatpak record whose catalog fields are all empty.
pub open spec fn bare_fields(r: FlatpakApp) -> bool {
    &&& r.icon@.len() == 0 && r.icon_url@.len() == 0 && r.categories@.len() == 0 && r.screenshots@.len() == 0
    &&& r.description@.len() == 0 && r.developer@.len() == 0 && r.url_homepage@.len() == 0
    &&& r.url_bugtracker@.len() == 0 && r.url_donation@.len() == 0 && r.url_help@.len() == 0
    &&& r.url_faq@.len() == 0 && r.url_vcs_browser@.len() == 0 && r.url_contribute@.len() == 0
}

fn bare_app(id: String, name: String, version: String, summary: String, origin: String, installed: bool) -> (r: FlatpakApp)
    ensures
        r.id == id && r.name == name && r.version == version && r.summary == summary && r.origin == origin,
        r.installed == installed && r.source@ == "flatpak"@ && bare_fields(r),
{
    FlatpakApp {
        id,
        name,
        version,
        summary,
        origin,
        installed,
        icon: String::new(),
        icon_url: String::new(),
        categories: Vec::new(),
        screenshots: Vec::new(),
        description: String::new(),
        developer: String::new(),
        url_homepage: String::new(),
        url_bugtracker: String::new(),
        url_donation: String::new(),
        url_help: String::new(),
        url_faq: String::new(),
        url_vcs_browser: String::new(),
        url_contribute: String::new(),
        source: string_of_str("flatpak"),
    }
}

/// Column `k` trimmed, or `dflt` when the row has no such column.
pub open spec fn col_or(parts: Seq<Seq<char>>, k: int, dflt: Seq<char>) -> Seq<char> {
    if 0 <= k < parts.len() {
        trim(parts[k])
    } else {
        dflt
    }
}

fn col_or_of(parts: &Vec<Vec<char>>, k: usize, dflt: &str) -> (r: String)
    ensures
        r@ == col_or(views(parts@), k as int, dflt@),
{
    if k < parts.len() {
        string_of(&trim_vec(&parts[k]))
    } else {
        string_of_str(dflt)
    }
}

/// The last Flatpak entry of the catalog with this id (later entries take
/// the place of earlier ones).
pub open spec fn last_flatpak_with_id(e: Seq<(Seq<char>, AppInfo)>, id: Seq<char>) -> Option<AppInfo>
    decreases e.len(),
{
    if e.len() == 0 {
        None
    } else if e.last().1.source@ == "flatpak"@ && e.last().1.id@ == id {
        Some(e.last().1)
    } else {
        last_flatpak_with_id(e.drop_last(), id)
    }
}

/// An installed app as `flatpak list` shows it, with its catalog data when
/// the catalog has its id.
pub open spec fn installed_app_ok(r: FlatpakApp, line: Seq<char>, e: Seq<(Seq<char>, AppInfo)>) -> bool {
    let parts = split_char(line, '\t');
    let id = trim(parts[0]);
    &&& r.id@ == id && r.version@ == col_or(parts, 2, Seq::empty()) && r.origin@ == col_or(parts, 4, "flathub"@)
    &&& r.installed && r.source@ == "flatpak"@
    &&& match last_flatpak_with_id(e, id) {
        Some(m) => {
            &&& r.name == m.name && r.summary == m.summary && r.icon == m.icon && r.icon_url == m.icon_url
            &&& r.categories@ == m.categories@ && r.screenshots@ == m.screenshots@ && r.description == m.description
            &&& r.developer == m.developer && r.url_homepage == m.url_homepage && r.url_bugtracker == m.url_bugtracker
            &&& r.url_donation == m.url_donation && r.url_help == m.url_help && r.url_faq == m.url_faq
            &&& r.url_vcs_browser == m.url_vcs_browser && r.url_contribute == m.url_contribute
        },
        None => r.name@ == col_or(parts, 1, id) && r.summary@ == col_or(parts, 3, Seq::empty()) && bare_fields(r),
    }
}

/// The rows of a listing that have at least two columns.
pub open spec fn two_column_lines(lines: Seq<Seq<char>>) -> Seq<Seq<char>>
    decreases lines.len(),
{
    if lines.len() == 0 {
        Seq::empty()
    } else if split_char(lines.last(), '\t').len() >= 2 {
        two_column_lines(lines.drop_last()).push(lines.last())
    } else {
        two_column_lines(lines.drop_last())
    }
}

fn find_last_flatpak(cat: &crate::appstream::Catalog, id: &str) -> (r: Option<usize>)
    ensures
        match r {
            Some(j) => j < cat.entries@.len() && last_flatpak_with_id(cat.view_entries(), id@) == Some(cat.entries@[j as int].1),
            None => last_flatpak_with_id(cat.view_entries(), id@) is None,
        },
{
    let ghost e = cat.view_entries();
    let mut j: usize = cat.entries.len();
    assert(e.subrange(0, j as int) =~= e);
    while j > 0
        invariant
            j <= cat.entries@.len(),
            e == cat.view_entries(),
            last_flatpak_with_id(e, id@) == last_flatpak_with_id(e.subrange(0, j as int), id@),
        decreases j,
    {
        let a = &cat.entries[j - 1].1;
        assert(e[j - 1].1 == *a);
        assert(e.subrange(0, j as int).last() == e[j - 1]);
        assert(e.subrange(0, j as int).drop_last() =~= e.subrange(0, j - 1));
        if str_eq(a.source.as_str(), "flatpak") && str_eq(a.id.as_str(), id) {
            return Some(j - 1);
        }
        j = j - 1;
    }
    None
}

fn installed_app_of(line: &Vec<char>, cat: &crate::appstream::Catalog) -> (r: Option<FlatpakApp>)
    ensures
        match r {
            Some(app) => split_char(line@, '\t').len() >= 2 && installed_app_ok(app, line@, cat.view_entries()),
            None => split_char(line@, '\t').len() < 2,
        },
{
    let parts = split(line, '\t');
    let ghost pv = views(parts@);
    if parts.len() < 2 {
        return None;
    }
    assert(pv[0] == parts@[0]@);
    let id = string_of(&trim_vec(&parts[0]));
    let version = col_or_of(&parts, 2, "");
    let origin = col_or_of(&parts, 4, "flathub");
    proof {
        reveal_strlit("");
    }
    let app = match find_last_flatpak(cat, id.as_str()) {
        Some(j) => {
            let m = &cat.entries[j].1;
            assert(cat.view_entries()[j as int].1 == *m);
            FlatpakApp {
                id: id,
                name: m.name.clone(),
                version,
                summary: m.summary.clone(),
                origin,
                installed: true,
                icon: m.icon.clone(),
                icon_url: m.icon_url.clone(),
                categories: clone_strings(&m.categories),
                screenshots: clone_strings(&m.screenshots),
                description: m.description.clone(),
                developer: m.developer.clone(),
                url_homepage: m.url_homepage.clone(),
                url_bugtracker: m.url_bugtracker.clone(),
                url_donation: m.url_donation.clone(),
                url_help: m.url_help.clone(),
                url_faq: m.url_faq.clone(),
                url_vcs_browser: m.url_vcs_browser.clone(),
                url_contribute: m.url_contribute.clone(),
                source: string_of_str("flatpak"),
            }
        },
        None => {
            let name = col_or_of(&parts, 1, id.as_str());
            let summary = col_or_of(&parts, 3, "");
            let r = bare_app(id, name, version, summary, origin, true);
            assert(r.name@ == col_or(pv, 1, trim(pv[0])));
            assert(r.summary@ == col_or(pv, 3, Seq::empty()));
            r
        },
    };
    assert(pv == split_char(line@, '\t'));
    assert(app.id@ == trim(pv[0]));
    assert(app.version@ == col_or(pv, 2, Seq::empty()));
    assert(app.origin@ == col_or(pv, 4, "flathub"@));
    Some(app)
}

/// The installed apps of `flatpak list --app
/// --columns=application,name,version,description,origin` (see
/// `installed_app_ok`).
pub fn parse_installed_apps(text: &str, cat: &crate::appstream::Catalog) -> (r: Vec<FlatpakApp>)
    ensures
        r@.len() == two_column_lines(crate::text::str_lines(text@)).len(),
        forall|k: int| 0 <= k < r@.len() ==> installed_app_ok(
            #[trigger] r@[k],
            two_column_lines(crate::text::str_lines(text@))[k],
            cat.view_entries(),
        ),
{
    let ghost e = cat.view_entries();
    let lines = crate::text::lines(&chars_of(text));
    let ghost ls = views(lines@);
    let mut out: Vec<FlatpakApp> = Vec::new();
    let mut i: usize = 0;
    assert(ls.subrange(0, 0) =~= Seq::<Seq<char>>::empty());
    while i < lines.len()
        invariant
            i <= lines@.len(),
            ls == views(lines@),
            ls == crate::text::str_lines(text@),
            e == cat.view_entries(),
            out@.len() == two_column_lines(ls.subrange(0, i as int)).len(),
            forall|k: int| 0 <= k < out@.len() ==> installed_app_ok(#[trigger] out@[k], two_column_lines(ls.subrange(0, i as int))[k], e),
        decreases lines@.len() - i,
    {
        assert(ls.subrange(0, i + 1).drop_last() =~= ls.subrange(0, i as int));
        assert(ls.subrange(0, i + 1).last() == lines@[i as int]@);
        match installed_app_of(&lines[i], cat) {
            Some(app) => {
                let ghost before = out@;
                out.push(app);
                assert forall|k: int| 0 <= k < out@.len() implies installed_app_ok(#[trigger] out@[k], two_column_lines(ls.subrange(0, i + 1))[k], e) by {
                    if k < before.len() {
                        assert(out@[k] == before[k]);
                    }
                }
            },
            None => {},
        }
        i = i + 1;
    }
    assert(ls.subrange(0, ls.len() as int) =~= ls);
    out
}

/// A row of `flatpak search` or of the update listing: at least two
/// columns and an id.
pub open spec fn app_row(line: Seq<char>) -> bool {
    let parts = split_char(line, '\t');
    parts.len() >= 2 && trim(parts[0]).len() > 0
}

/// A search result as its row gives it.
pub open spec fn search_row_ok(r: FlatpakApp, line: Seq<char>, installed: Seq<Seq<char>>) -> bool {
    let parts = split_char(line, '\t');
    &&& r.id@ == trim(parts[0]) && r.installed == installed.contains(trim(parts[0]))
    &&& r.name@ == trim(parts[1]) && r.version@ == col_or(parts, 2, Seq::empty())
    &&& r.summary@ == col_or(parts, 3, Seq::empty()) && r.origin@ == col_or(parts, 4, "flathub"@)
    &&& r.source@ == "flatpak"@ && bare_fields(r)
}

/// The rows with an id, up to `limit` of them (at least one is kept when
/// there is one).
pub open spec fn search_rows(lines: Seq<Seq<char>>, limit: int, acc: Seq<Seq<char>>) -> Seq<Seq<char>>
    decreases lines.len(),
{
    if lines.len() == 0 {
        acc
    } else if app_row(lines[0]) {
        if acc.len() + 1 >= limit {
            acc.push(lines[0])
        } else {
            search_rows(lines.drop_first(), limit, acc.push(lines[0]))
        }
    } else {
        search_rows(lines.drop_first(), limit, acc)
    }
}

fn search_row_of(line: &Vec<char>, installed: &Vec<String>) -> (r: Option<FlatpakApp>)
    ensures
        match r {
            Some(app) => app_row(line@) && search_row_ok(app, line@, crate::appimage::string_views(installed@)),
            None => !app_row(line@),
        },
{
    let parts = split(line, '\t');
    let ghost pv = views(parts@);
    if parts.len() < 2 {
        return None;
    }
    assert(pv[0] == parts@[0]@ && pv[1] == parts@[1]@);
    let id = trim_vec(&parts[0]);
    if id.len() == 0 {
        return None;
    }
    let ids = string_of(&id);
    let inst = crate::packages::in_list(installed, ids.as_str());
    let name = string_of(&trim_vec(&parts[1]));
    let version = col_or_of(&parts, 2, "");
    let summary = col_or_of(&parts, 3, "");
    let origin = col_or_of(&parts, 4, "flathub");
    proof {
        reveal_strlit("");
    }
    let app = bare_app(ids, name, version, summary, origin, inst);
    assert(pv == split_char(line@, '\t'));
    assert(app.id@ == trim(pv[0]));
    assert(app.name@ == trim(pv[1]));
    assert(app.version@ == col_or(pv, 2, Seq::empty()));
    assert(app.summary@ == col_or(pv, 3, Seq::empty()));
    assert(app.origin@ == col_or(pv, 4, "flathub"@));
    assert(app_row(line@));
    Some(app)
}

/// The results of `flatpak search --columns=application,name,version,description,origin`
/// (see `search_row_ok`), at most `limit` of them; `installed` holds the
/// installed app ids.
pub fn parse_search_rows(text: &str, installed: &Vec<String>, limit: usize) -> (r: Vec<FlatpakApp>)
    ensures
        r@.len() == search_rows(crate::text::str_lines(text@), limit as int, seq![]).len(),
        forall|k: int| 0 <= k < r@.len() ==> search_row_ok(
            #[trigger] r@[k],
            search_rows(crate::text::str_lines(text@), limit as int, seq![])[k],
            crate::appimage::string_views(installed@),
        ),
{
    let lines = crate::text::lines(&chars_of(text));
    let ghost ls = views(lines@);
    let ghost all = search_rows(ls, limit as int, seq![]);
    let mut out: Vec<FlatpakApp> = Vec::new();
    let ghost mut acc: Seq<Seq<char>> = seq![];
    let mut i: usize = 0;
    assert(ls.subrange(0, ls.len() as int) =~= ls);
    while i < lines.len()
        invariant
            i <= lines@.len(),
            ls == views(lines@),
            ls == crate::text::str_lines(text@),
            all == search_rows(ls.subrange(i as int, ls.len() as int), limit as int, acc),
            all == search_rows(crate::text::str_lines(text@), limit as int, seq![]),
            out@.len() == acc.len(),
            acc.len() < limit || acc.len() == 0,
            forall|k: int| 0 <= k < out@.len() ==> search_row_ok(#[trigger] out@[k], acc[k], crate::appimage::string_views(installed@)),
        decreases lines@.len() - i,
    {
        let ghost rest = ls.subrange(i as int, ls.len() as int);
        assert(rest[0] == lines@[i as int]@);
        assert(rest.drop_first() =~= ls.subrange(i + 1, ls.len() as int));
        match search_row_of(&lines[i], installed) {
            Some(app) => {
                let ghost before = out@;
                let ghost acc0 = acc;
                assert(app_row(rest[0]));
                out.push(app);
                proof {
                    acc = acc.push(lines@[i as int]@);
                }
                assert forall|k: int| 0 <= k < out@.len() implies search_row_ok(#[trigger] out@[k], acc[k], crate::appimage::string_views(installed@)) by {
                    if k < before.len() {
                        assert(out@[k] == before[k]);
                    }
                }
                if out.len() >= limit {
                    assert(acc0.len() + 1 >= limit);
                    assert(search_rows(rest, limit as int, acc0) == acc0.push(rest[0]));
                    assert(all == acc);
                    return out;
                }
            },
            None => {},
        }
        i = i + 1;
    }
    out
}

/// An update as the legacy update listing gives it.
pub open spec fn legacy_update_ok(r: FlatpakApp, line: Seq<char>) -> bool {
    let parts = split_char(line, '\t');
    &&& r.id@ == trim(parts[0]) && r.name@ == trim(parts[1]) && r.version@ == col_or(parts, 2, Seq::empty())
    &&& r.source@ == "flatpak"@ && r.installed && r.origin@.len() == 0 && r.summary@.len() == 0 && bare_fields(r)
}

/// The rows with an id, in order.
pub open spec fn app_rows(lines: Seq<Seq<char>>) -> Seq<Seq<char>>
    decreases lines.len(),
{
    if lines.len() == 0 {
        Seq::empty()
    } else if app_row(lines.last()) {
        app_rows(lines.drop_last()).push(lines.last())
    } else {
        app_rows(lines.drop_last())
    }
}

fn legacy_row_of(line: &Vec<char>) -> (r: Option<FlatpakApp>)
    ensures
        match r {
            Some(app) => app_row(line@) && legacy_update_ok(app, line@),
            None => !app_row(line@),
        },
{
    let parts = split(line, '\t');
    let ghost pv = views(parts@);
    if parts.len() < 2 {
        return None;
    }
    assert(pv[0] == parts@[0]@ && pv[1] == parts@[1]@);
    let id = trim_vec(&parts[0]);
    if id.len() == 0 {
        return None;
    }
    proof {
        reveal_strlit("");
    }
    let ids = string_of(&id);
    let name = string_of(&trim_vec(&parts[1]));
    let version = col_or_of(&parts, 2, "");
    let app = bare_app(ids, name, version, String::new(), String::new(), true);
    assert(pv == split_char(line@, '\t'));
    assert(app.id@ == trim(pv[0]));
    assert(app.name@ == trim(pv[1]));
    assert(app.version@ == col_or(pv, 2, Seq::empty()));
    assert(app_row(line@));
    Some(app)
}

/// The apps of `flatpak remote-ls --updates --app --columns=application,name,version`.
pub fn parse_legacy_updates(text: &str) -> (r: Vec<FlatpakApp>)
    ensures
        r@.len() == app_rows(crate::text::str_lines(text@)).len(),
        forall|k: int| 0 <= k < r@.len() ==> legacy_update_ok(#[trigger] r@[k], app_rows(crate::text::str_lines(text@))[k]),
{
    let lines = crate::text::lines(&chars_of(text));
    let ghost ls = views(lines@);
    let mut out: Vec<FlatpakApp> = Vec::new();
    let mut i: usize = 0;
    assert(ls.subrange(0, 0) =~= Seq::<Seq<char>>::empty());
    while i < lines.len()
        invariant
            i <= lines@.len(),
            ls == views(lines@),
            ls == crate::text::str_lines(text@),
            out@.len() == app_rows(ls.subrange(0, i as int)).len(),
            forall|k: int| 0 <= k < out@.len() ==> legacy_update_ok(#[trigger] out@[k], app_rows(ls.subrange(0, i as int))[k]),
        decreases lines@.len() - i,
    {
        assert(ls.subrange(0, i + 1).drop_last() =~= ls.subrange(0, i as int));
        assert(ls.subrange(0, i + 1).last() == lines@[i as int]@);
        match legacy_row_of(&lines[i]) {
            Some(app) => {
                let ghost before = out@;
                out.push(app);
                assert forall|k: int| 0 <= k < out@.len() implies legacy_update_ok(#[trigger] out@[k], app_rows(ls.subrange(0, i + 1))[k]) by {
                    if k < before.len() {
                        assert(out@[k] == before[k]);
                    }
                }
            },
            None => {},
        }
        i = i + 1;
    }
    assert(ls.subrange(0, ls.len() as int) =~= ls);
    out
}

/// The ids of `flatpak list --app --columns=application`: every non-empty
/// line, trimmed.
pub open spec fn id_lines(lines: Seq<Seq<char>>) -> Seq<Seq<char>>
    decreases lines.len(),
{
    if lines.len() == 0 {
        Seq::empty()
    } else if lines.last().len() > 0 {
        id_lines(lines.drop_last()).push(trim(lines.last()))
    } else {
        id_lines(lines.drop_last())
    }
}

pub fn parse_installed_ids(text: &str) -> (r: Vec<String>)
    ensures
        crate::appimage::string_views(r@) == id_lines(crate::text::str_lines(text@)),
{
    let lines = crate::text::lines(&chars_of(text));
    let ghost ls = views(lines@);
    let mut out: Vec<String> = Vec::new();
    let mut i: usize = 0;
    assert(ls.subrange(0, 0) =~= Seq::<Seq<char>>::empty());
    while i < lines.len()
        invariant
            i <= lines@.len(),
            ls == views(lines@),
            ls == crate::text::str_lines(text@),
            crate::appimage::string_views(out@) == id_lines(ls.subrange(0, i as int)),
        decreases lines@.len() - i,
    {
        assert(ls.subrange(0, i + 1).drop_last() =~= ls.subrange(0, i as int));
        assert(ls.subrange(0, i + 1).last() == lines@[i as int]@);
        if lines[i].len() > 0 {
            let t = trim_vec(&lines[i]);
            let ghost o = crate::appimage::string_views(out@);
            out.push(string_of(&t));
            assert(crate::appimage::string_views(out@) =~= o.push(t@));
        }
        i = i + 1;
    }
    assert(ls.subrange(0, ls.len() as int) =~= ls);
    out
}

// ── Local bundles and references ────────────────────────────────────────────

/// The catalog entry whose icon a local Flatpak shows: `flatpak:<id>`, else
/// the entry under the id when it is a Flatpak, else the first Flatpak
/// entry with that id.
pub open spec fn flatpak_icon_entry(e: Seq<(Seq<char>, AppInfo)>, id: Seq<char>) -> Option<AppInfo> {
    match lookup(e, "flatpak:"@ + id) {
        Some(a) => Some(a),
        None => match lookup(e, id) {
            Some(a) if a.source@ == "flatpak"@ => Some(a),
            _ => first_flatpak_with_id(e, id, 0),
        },
    }
}

pub open spec fn first_flatpak_with_id(e: Seq<(Seq<char>, AppInfo)>, id: Seq<char>, j: int) -> Option<AppInfo>
    decreases e.len() - j,
{
    if j < 0 || j >= e.len() {
        None
    } else if e[j].1.source@ == "flatpak"@ && e[j].1.id@ == id {
        Some(e[j].1)
    } else {
        first_flatpak_with_id(e, id, j + 1)
    }
}

/// The local icon path and icon URL of a Flatpak by id (empty when the
/// catalog has no entry for it).
pub fn local_flatpak_icon(cat: &crate::appstream::Catalog, app_id: &str) -> (r: (String, String))
    requires
        cat.wf(),
    ensures
        match flatpak_icon_entry(cat.view_entries(), app_id@) {
            Some(a) => r.0 == a.icon_path && r.1 == a.icon_url,
            None => r.0@.len() == 0 && r.1@.len() == 0,
        },
{
    let ghost e = cat.view_entries();
    proof {
        reveal_strlit("flatpak:");
    }
    let mut kv = chars_of("flatpak:");
    crate::text::push_str(&mut kv, app_id);
    let k = string_of(&kv);
    match cat.get(k.as_str()) {
        Some(a) => {
            return (a.icon_path.clone(), a.icon_url.clone());
        },
        None => {},
    }
    match cat.get(app_id) {
        Some(a) => {
            if str_eq(a.source.as_str(), "flatpak") {
                return (a.icon_path.clone(), a.icon_url.clone());
            }
        },
        None => {},
    }
    let mut j: usize = 0;
    while j < cat.entries.len()
        invariant
            j <= cat.entries@.len(),
            e == cat.view_entries(),
            first_flatpak_with_id(e, app_id@, 0) == first_flatpak_with_id(e, app_id@, j as int),
            lookup(e, "flatpak:"@ + app_id@) is None,
            !(lookup(e, app_id@) is Some && lookup(e, app_id@)->0.source@ == "flatpak"@),
        decreases cat.entries@.len() - j,
    {
        let a = &cat.entries[j].1;
        assert(e[j as int].1 == *a);
        if str_eq(a.source.as_str(), "flatpak") && str_eq(a.id.as_str(), app_id) {
            return (a.icon_path.clone(), a.icon_url.clone());
        }
        j = j + 1;
    }
    (String::new(), String::new())
}

/// A path's file name without its extension, or the path itself.
pub open spec fn basename_spec(path: Seq<char>) -> Seq<char> {
    match crate::text::path_file_stem(path) {
        Some(s) => s,
        None => path,
    }
}

pub fn basename_no_ext(path: &str) -> (r: String)
    ensures
        r@ == basename_spec(path@),
{
    match crate::text::file_stem_of(&chars_of(path)) {
        Some(s) => string_of(&s),
        None => string_of_str(path),
    }
}

/// The value `flatpak info` gives for a key: the last line `key: value`
/// whose key, trimmed and in lower case, is `key`, with the value trimmed.
pub open spec fn info_value(lines: Seq<Seq<char>>, key: Seq<char>) -> Option<Seq<char>>
    decreases lines.len(),
{
    if lines.len() == 0 {
        None
    } else {
        match crate::text::split_once(lines.last(), ':') {
            Some((k, v)) if str_lowercase(trim(k)) == key => Some(trim(v)),
            _ => info_value(lines.drop_last(), key),
        }
    }
}

fn info_value_of(lines: &Vec<Vec<char>>, key: &str) -> (r: Option<String>)
    ensures
        match r {
            Some(v) => info_value(views(lines@), key@) == Some(v@),
            None => info_value(views(lines@), key@) is None,
        },
{
    let ghost ls = views(lines@);
    let mut j: usize = lines.len();
    assert(ls.subrange(0, j as int) =~= ls);
    while j > 0
        invariant
            j <= lines@.len(),
            ls == views(lines@),
            info_value(ls, key@) == info_value(ls.subrange(0, j as int), key@),
        decreases j,
    {
        assert(ls.subrange(0, j as int).last() == lines@[j - 1]@);
        assert(ls.subrange(0, j as int).drop_last() =~= ls.subrange(0, j - 1));
        match crate::text::split_once_vec(&lines[j - 1], ':') {
            Some((k, v)) => {
                let kl = lowercase(string_of(&trim_vec(&k)).as_str());
                if str_eq(kl.as_str(), key) {
                    return Some(string_of(&trim_vec(&v)));
                }
            },
            None => {},
        }
        j = j - 1;
    }
    None
}

/// What the store shows of a local Flatpak bundle.
#[derive(Debug, Clone)]
pub struct LocalFlatpakInfo {
    pub id: String,
    pub name: String,
    pub summary: String,
    /// `None` when `flatpak info` gave nothing.
    pub version: Option<String>,
    pub branch: Option<String>,
    pub icon_path: String,
    pub icon_url: String,
}

pub open spec fn or_text(o: Option<Seq<char>>, dflt: Seq<char>) -> Seq<char> {
    match o {
        Some(v) => v,
        None => dflt,
    }
}

pub open spec fn opt_text(o: Option<String>) -> Option<Seq<char>> {
    match o {
        Some(s) => Some(s@),
        None => None,
    }
}

/// A local bundle from the output of `flatpak info --bundle` (`None` when
/// the command failed): id, name, version, subject and branch from the
/// output, with the file name, the id's last piece, nothing, nothing and
/// `stable` in their place; without output, the file name with a fixed
/// summary.
pub open spec fn bundle_info_ok(r: LocalFlatpakInfo, path: Seq<char>, info: Option<Seq<char>>, e: Seq<(Seq<char>, AppInfo)>) -> bool {
    let icon_ok = match flatpak_icon_entry(e, r.id@) {
        Some(a) => r.icon_path == a.icon_path && r.icon_url == a.icon_url,
        None => r.icon_path@.len() == 0 && r.icon_url@.len() == 0,
    };
    match info {
        Some(t) => {
            let lines = crate::text::str_lines(t);
            let id = or_text(info_value(lines, "id"@), basename_spec(path));
            &&& r.id@ == id
            &&& r.name@ == or_text(info_value(lines, "name"@), crate::text::after_last(id, '.'))
            &&& r.summary@ == or_text(info_value(lines, "subject"@), Seq::empty())
            &&& opt_text(r.version) == Some(or_text(info_value(lines, "version"@), Seq::empty()))
            &&& opt_text(r.branch) == Some(or_text(info_value(lines, "branch"@), "stable"@))
            &&& icon_ok
        },
        None => {
            &&& r.id@ == basename_spec(path) && r.name@ == basename_spec(path)
            &&& r.summary@ == "Local Flatpak bundle"@ && r.version is None && r.branch is None
            &&& icon_ok
        },
    }
}

fn text_or(o: Option<String>, dflt: &str) -> (r: String)
    ensures
        r@ == or_text(opt_text(o), dflt@),
{
    match o {
        Some(v) => v,
        None => string_of_str(dflt),
    }
}

/// A local Flatpak bundle (see `bundle_info_ok`).
pub fn get_local_flatpak_info(path: &str, info: Option<&str>, cat: &crate::appstream::Catalog) -> (r: LocalFlatpakInfo)
    requires
        cat.wf(),
    ensures
        bundle_info_ok(r, path@, match info {
            Some(t) => Some(t@),
            None => None,
        }, cat.view_entries()),
{
    proof {
        reveal_strlit("");
    }
    match info {
        Some(t) => {
            let lines = crate::text::lines(&chars_of(t));
            let id = text_or(info_value_of(&lines, "id"), basename_no_ext(path).as_str());
            let last = crate::text::after_last_vec(&chars_of(id.as_str()), '.');
            let name = text_or(info_value_of(&lines, "name"), string_of(&last).as_str());
            let version = text_or(info_value_of(&lines, "version"), "");
            let summary = text_or(info_value_of(&lines, "subject"), "");
            let branch = text_or(info_value_of(&lines, "branch"), "stable");
            let (ip, iu) = local_flatpak_icon(cat, id.as_str());
            let r = LocalFlatpakInfo { id, name, summary, version: Some(version), branch: Some(branch), icon_path: ip, icon_url: iu };
            let ghost lv = crate::text::str_lines(t@);
            assert(views(lines@) == lv);
            assert(r.id@ == or_text(info_value(lv, "id"@), basename_spec(path@)));
            assert(r.name@ == or_text(info_value(lv, "name"@), crate::text::after_last(r.id@, '.')));
            assert(r.summary@ == or_text(info_value(lv, "subject"@), Seq::empty()));
            assert(opt_text(r.version) == Some(or_text(info_value(lv, "version"@), Seq::empty())));
            assert(opt_text(r.branch) == Some(or_text(info_value(lv, "branch"@), "stable"@)));
            r
        },
        None => {
            let id = basename_no_ext(path);
            let (ip, iu) = local_flatpak_icon(cat, id.as_str());
            LocalFlatpakInfo {
                id: id.clone(),
                name: id,
                summary: string_of_str("Local Flatpak bundle"),
                version: None,
                branch: None,
                icon_path: ip,
                icon_url: iu,
            }
        },
    }
}

/// What the store shows of a `.flatpakref` file.
#[derive(Debug, Clone)]
pub struct FlatpakRefInfo {
    pub id: String,
    pub name: String,
    pub summary: String,
    /// `None` when the file could not be read.
    pub url: Option<String>,
    pub branch: Option<String>,
    pub icon_path: Option<String>,
    pub icon_url: Option<String>,
}

/// Reading a `.flatpakref` line by line: (in the `[Flatpak Ref]` section,
/// Name, Title, Comment, Url, Branch).
pub open spec fn ref_step(
    st: (bool, Seq<char>, Seq<char>, Seq<char>, Seq<char>, Seq<char>),
    raw: Seq<char>,
) -> (bool, Seq<char>, Seq<char>, Seq<char>, Seq<char>, Seq<char>) {
    let line = trim(raw);
    if crate::appstream::eq_ignore_ascii_case(line, "[flatpak ref]"@) {
        (true, st.1, st.2, st.3, st.4, st.5)
    } else if crate::text::has_prefix(line, "["@) {
        (false, st.1, st.2, st.3, st.4, st.5)
    } else if !st.0 {
        st
    } else {
        match crate::text::split_once(line, '=') {
            Some((k, v)) => {
                let key = trim(k);
                let val = trim(v);
                if key == "Name"@ {
                    (st.0, val, st.2, st.3, st.4, st.5)
                } else if key == "Title"@ {
                    (st.0, st.1, val, st.3, st.4, st.5)
                } else if key == "Comment"@ {
                    (st.0, st.1, st.2, val, st.4, st.5)
                } else if key == "Url"@ {
                    (st.0, st.1, st.2, st.3, val, st.5)
                } else if key == "Branch"@ {
                    (st.0, st.1, st.2, st.3, st.4, val)
                } else {
                    st
                }
            },
            None => st,
        }
    }
}

pub open spec fn ref_fold(
    st: (bool, Seq<char>, Seq<char>, Seq<char>, Seq<char>, Seq<char>),
    lines: Seq<Seq<char>>,
) -> (bool, Seq<char>, Seq<char>, Seq<char>, Seq<char>, Seq<char>)
    decreases lines.len(),
{
    if lines.len() == 0 {
        st
    } else {
        ref_fold(ref_step(st, lines[0]), lines.drop_first())
    }
}

/// A `.flatpakref` (`None` when it could not be read): its Name (else the
/// file name), Title (else the id's last piece), Comment, Url and Branch
/// (`stable` when missing).
pub open spec fn ref_info_ok(r: FlatpakRefInfo, path: Seq<char>, text: Option<Seq<char>>, e: Seq<(Seq<char>, AppInfo)>) -> bool {
    match text {
        Some(t) => {
            let st = ref_fold((false, basename_spec(path), Seq::empty(), Seq::empty(), Seq::empty(), "stable"@), crate::text::str_lines(t));
            &&& r.id@ == st.1
            &&& r.name@ == (if st.2.len() == 0 {
                crate::text::after_last(st.1, '.')
            } else {
                st.2
            })
            &&& r.summary@ == st.3 && opt_text(r.url) == Some(st.4) && opt_text(r.branch) == Some(st.5)
            &&& match flatpak_icon_entry(e, st.1) {
                Some(a) => opt_text(r.icon_path) == Some(a.icon_path@) && opt_text(r.icon_url) == Some(a.icon_url@),
                None => opt_text(r.icon_path) == Some(Seq::<char>::empty()) && opt_text(r.icon_url) == Some(Seq::<char>::empty()),
            }
        },
        None => {
            &&& r.id@ == basename_spec(path) && r.name@ == basename_spec(path) && r.summary@.len() == 0
            &&& r.url is None && r.branch is None && r.icon_path is None && r.icon_url is None
        },
    }
}

/// A `.flatpakref` file (see `ref_info_ok`).
pub fn get_flatpakref_info(path: &str, text: Option<&str>, cat: &crate::appstream::Catalog) -> (r: FlatpakRefInfo)
    requires
        cat.wf(),
    ensures
        ref_info_ok(r, path@, match text {
            Some(t) => Some(t@),
            None => None,
        }, cat.view_entries()),
{
    match text {
        None => {
            let id = basename_no_ext(path);
            let r = FlatpakRefInfo {
                id: id.clone(),
                name: id,
                summary: String::new(),
                url: None,
                branch: None,
                icon_path: None,
                icon_url: None,
            };
            assert(ref_info_ok(r, path@, None, cat.view_entries()));
            r
        },
        Some(t) => {
            proof {
                reveal_strlit("[flatpak ref]");
                reveal_strlit("[");
                reveal_strlit("Name");
                reveal_strlit("Title");
                reveal_strlit("Comment");
                reveal_strlit("Url");
                reveal_strlit("Branch");
                reveal_strlit("");
                assert forall|i: int| 0 <= i < "[flatpak ref]"@.len() implies !('A' <= #[trigger] "[flatpak ref]"@[i]
                    && "[flatpak ref]"@[i] <= 'Z') by {}
            }
            let lines = crate::text::lines(&chars_of(t));
            let ghost ls = views(lines@);
            let mut in_section = false;
            let mut id = chars_of(basename_no_ext(path).as_str());
            let mut title: Vec<char> = Vec::new();
            let mut comment: Vec<char> = Vec::new();
            let mut url: Vec<char> = Vec::new();
            let mut branch = chars_of("stable");
            let ghost init = (false, basename_spec(path@), Seq::<char>::empty(), Seq::<char>::empty(), Seq::<char>::empty(), "stable"@);
            let mut i: usize = 0;
            assert(ls.subrange(0, ls.len() as int) =~= ls);
            while i < lines.len()
                invariant
                    i <= lines@.len(),
                    ls == views(lines@),
                    ls == crate::text::str_lines(t@),
                    init == (false, basename_spec(path@), Seq::<char>::empty(), Seq::<char>::empty(), Seq::<char>::empty(), "stable"@),
                    ref_fold(init, ls) == ref_fold(
                        (in_section, id@, title@, comment@, url@, branch@),
                        ls.subrange(i as int, ls.len() as int),
                    ),
                decreases lines@.len() - i,
            {
                proof {
                    reveal_strlit("[flatpak ref]");
                    reveal_strlit("[");
                    reveal_strlit("Name");
                    reveal_strlit("Title");
                    reveal_strlit("Comment");
                    reveal_strlit("Url");
                    reveal_strlit("Branch");
                    assert forall|q: int| 0 <= q < "[flatpak ref]"@.len() implies !('A' <= #[trigger] "[flatpak ref]"@[q]
                        && "[flatpak ref]"@[q] <= 'Z') by {}
                }
                let ghost rest = ls.subrange(i as int, ls.len() as int);
                assert(rest[0] == lines@[i as int]@);
                assert(rest.drop_first() =~= ls.subrange(i + 1, ls.len() as int));
                let line = trim_vec(&lines[i]);
                let ls_str = string_of(&line);
                if crate::appstream::eq_ignore_case_lower(ls_str.as_str(), "[flatpak ref]") {
                    in_section = true;
                } else if crate::text::starts_with(&line, &chars_of("[")) {
                    in_section = false;
                } else if in_section {
                    match crate::text::split_once_vec(&line, '=') {
                        Some((k, v)) => {
                            let key = string_of(&trim_vec(&k));
                            let val = trim_vec(&v);
                            if str_eq(key.as_str(), "Name") {
                                id = val;
                            } else if str_eq(key.as_str(), "Title") {
                                title = val;
                            } else if str_eq(key.as_str(), "Comment") {
                                comment = val;
                            } else if str_eq(key.as_str(), "Url") {
                                url = val;
                            } else if str_eq(key.as_str(), "Branch") {
                                branch = val;
                            }
                        },
                        None => {},
                    }
                }
                i = i + 1;
            }
            let ids = string_of(&id);
            let name = if title.len() == 0 {
                string_of(&crate::text::after_last_vec(&id, '.'))
            } else {
                string_of(&title)
            };
            let (ip, iu) = local_flatpak_icon(cat, ids.as_str());
            assert(ls.subrange(i as int, ls.len() as int).len() == 0);
            assert(ref_fold(init, ls) == (in_section, id@, title@, comment@, url@, branch@));
            let r = FlatpakRefInfo {
                id: ids,
                name,
                summary: string_of(&comment),
                url: Some(string_of(&url)),
                branch: Some(string_of(&branch)),
                icon_path: Some(ip),
                icon_url: Some(iu),
            };
            let ghost st = ref_fold((false, basename_spec(path@), Seq::empty(), Seq::empty(), Seq::empty(), "stable"@), crate::text::str_lines(t@));
            assert(st == (in_section, id@, title@, comment@, url@, branch@));
            assert(r.id@ == st.1);
            assert(r.summary@ == st.3);
            proof {
                if flatpak_icon_entry(cat.view_entries(), st.1) is None {
                    assert(r.icon_path->0@ =~= Seq::<char>::empty());
                    assert(r.icon_url->0@ =~= Seq::<char>::empty());
                }
            }
            r
        },
    }
}

} // verus!
